//! What holds of a build pipeline in every state: its two caps, and the
//! order in which the chunks of a file reach the disk. The pipeline writes
//! in manifest order, and a well-formed manifest lists the chunks of each
//! file by ascending position, starting at zero.

use crate::chunk_key::chunk_key;
use crate::hash::{hex_lower, sha256_digest};
use crate::manifest::{ChunkRecordView, FileRecordView};
use crate::pipeline::{content_written, distinct_chunk_keys, PipelineView};
use vstd::prelude::*;

verus! {

/// At no point does a pipeline hold more chunks in memory than its memory
/// budget allows, counted in chunks of the largest size: neither those
/// being downloaded nor those waiting to be written exceed it together.
pub proof fn lemma_memory_cap_holds(state: PipelineView)
    requires
        state.valid(),
    ensures
        state.in_flight.len() + state.buffered.dom().len() <= state.max_in_memory,
{
}

/// At no point are more downloads in flight than the pipeline has download
/// workers.
pub proof fn lemma_download_cap_holds(state: PipelineView)
    requires
        state.valid(),
    ensures
        state.in_flight.len() <= state.max_downloads,
{
}

/// How many of the first `n` chunks of a manifest belong to the file `path`.
pub open spec fn chunks_before(m: Seq<ChunkRecordView>, path: Seq<char>, n: int) -> nat
    decreases n,
{
    if n <= 0 {
        0
    } else if m[n - 1].file_path == path {
        chunks_before(m, path, n - 1) + 1
    } else {
        chunks_before(m, path, n - 1)
    }
}

/// Within each file the positions count up from zero without a gap: every
/// chunk's `id` is the number of chunks of its file that stand before it.
pub open spec fn ids_count_up(m: Seq<ChunkRecordView>) -> bool {
    forall|i: int| 0 <= i < m.len() ==> (#[trigger] m[i]).id == chunks_before(m, m[i].file_path, i)
}

/// The number of a file's chunks among the first `n` never shrinks as `n`
/// grows, and grows past every chunk of the file.
pub proof fn lemma_chunks_before_grows(m: Seq<ChunkRecordView>, path: Seq<char>, i: int, j: int)
    requires
        0 <= i <= j <= m.len(),
    ensures
        chunks_before(m, path, i) <= chunks_before(m, path, j),
        i < j && m[i].file_path == path ==> chunks_before(m, path, i) < chunks_before(m, path, j),
    decreases j - i,
{
    if i < j {
        lemma_chunks_before_grows(m, path, i, j - 1);
    }
}

/// In a manifest whose positions count up, of two chunks of one file the
/// earlier has the smaller position.
pub proof fn lemma_ids_ascend(m: Seq<ChunkRecordView>, i: int, j: int)
    requires
        ids_count_up(m),
        0 <= i < j < m.len(),
        m[i].file_path == m[j].file_path,
    ensures
        m[i].id < m[j].id,
{
    lemma_chunks_before_grows(m, m[i].file_path, i, j);
}

/// Among distinct keys the chunk whose turn it is, once it waits in memory,
/// waits under the name of its own file and with the content that was
/// taken in for it.
pub proof fn lemma_turn_names_its_file(state: PipelineView)
    requires
        state.valid(),
        distinct_chunk_keys(state.manifest),
        state.can_write(),
    ensures
        state.buffered[state.key(state.written as int)].0 == state.manifest[state.written
            as int].file_path,
        state.buffered[state.key(state.written as int)].1 == state.delivered[state.written as int],
{
    let turn = state.written as int;
    let key = state.key(turn);
    assert(state.buffered.contains_key(key));
    let t = choose|t: int|
        0 <= t < state.admitted && #[trigger] state.key(t) == key && state.buffered[key].0
            == state.manifest[t].file_path && state.delivered.contains_key(t)
            && state.buffered[key].1 == state.delivered[t];
    if t != turn {
        assert(chunk_key(state.manifest[t].id, state.manifest[t].sha) != chunk_key(
            state.manifest[turn].id,
            state.manifest[turn].sha,
        ));
    }
}

/// Every file is appended to in the order of its chunks: the chunk that is
/// handed out for writing goes to its own file, and its position is the
/// number of chunks of that file that were written before it. So the first
/// append to a file is chunk 0, the next chunk 1, and so on.
pub proof fn lemma_appends_follow_positions(state: PipelineView)
    requires
        state.valid(),
        distinct_chunk_keys(state.manifest),
        ids_count_up(state.manifest),
        state.can_write(),
    ensures
        ({
            let turn = state.written as int;
            let file = state.buffered[state.key(turn)].0;
            &&& file == state.manifest[turn].file_path
            &&& state.manifest[turn].id == chunks_before(state.manifest, file, turn)
        }),
{
    lemma_turn_names_its_file(state);
}

/// Among distinct keys every file holds, at every moment, what was taken in
/// for its chunks so far, joined in the order of the manifest: a chunk that
/// arrives early never gets in front of one that arrives late.
pub proof fn lemma_files_hold_their_chunks(state: PipelineView, file: Seq<char>)
    requires
        state.valid(),
        distinct_chunk_keys(state.manifest),
    ensures
        state.appended_to(file) == content_written(
            state.manifest,
            state.delivered,
            file,
            state.written as int,
        ),
        forall|i: int| 0 <= i < state.written ==> #[trigger] state.delivered.contains_key(i),
{
}

/// The length of what the first `n` chunks make of a file is the sum of
/// the lengths of what was taken in for its chunks.
pub open spec fn size_written(
    m: Seq<ChunkRecordView>,
    delivered: Map<int, Seq<u8>>,
    file: Seq<char>,
    n: int,
) -> nat
    decreases n,
{
    if n <= 0 {
        0
    } else if m[n - 1].file_path == file {
        size_written(m, delivered, file, n - 1) + delivered[n - 1].len()
    } else {
        size_written(m, delivered, file, n - 1)
    }
}

/// A file is as long as its chunks together.
pub proof fn lemma_size_of_content(
    m: Seq<ChunkRecordView>,
    delivered: Map<int, Seq<u8>>,
    file: Seq<char>,
    n: int,
)
    ensures
        content_written(m, delivered, file, n).len() == size_written(m, delivered, file, n),
    decreases n,
{
    if n > 0 {
        lemma_size_of_content(m, delivered, file, n - 1);
    }
}

/// What the manifests promise of a file: the content of its chunks,
/// joined in the order of the chunk manifest, has the size and the hash of
/// the file's record.
pub open spec fn chunks_make_file(
    m: Seq<ChunkRecordView>,
    content: Map<int, Seq<u8>>,
    record: FileRecordView,
) -> bool {
    let whole = content_written(m, content, record.file_name, m.len() as int);
    whole.len() == record.size_in_bytes && hex_lower(sha256_digest(whole)) == record.sha
}

/// After a build that has written every chunk, a file whose chunks are as
/// the manifests promise has the size and the hash of its record: what was
/// appended to it is the content of its chunks, joined in their order.
pub proof fn lemma_built_file_matches(state: PipelineView, record: FileRecordView)
    requires
        state.valid(),
        distinct_chunk_keys(state.manifest),
        state.written == state.manifest.len(),
        chunks_make_file(state.manifest, state.delivered, record),
    ensures
        state.appended_to(record.file_name).len() == record.size_in_bytes,
        hex_lower(sha256_digest(state.appended_to(record.file_name))) == record.sha,
{
    lemma_files_hold_their_chunks(state, record.file_name);
}

} // verus!
