//! What the chunk pass of a delta keeps when the manifests are well
//! formed: the chunk manifest lists the files in the order of the file
//! manifest, each with its chunks by position, and no name occurs twice.
//! Then the pass keeps exactly the chunks of the added and modified files.

use crate::delta::{
    change_of, change_row, changed, delta_chunks_from, delta_chunks_of, delta_of, keeps_file,
    lemma_changed_rows, lemma_removed_tags, lemma_settle_within, removed, settle, skippable,
    unique_names,
};
use crate::manifest::{ChunkRecordView, FileRecordView};
use vstd::prelude::*;

verus! {

/// How many chunks the chunk manifest lists for a record: none for a
/// directory, else as many as the record says.
pub open spec fn block_len(record: FileRecordView) -> nat {
    if record.is_directory() {
        0
    } else {
        record.chunks as nat
    }
}

/// From file `p` and chunk `i` on, the chunk manifest lists the files in
/// the order of the file manifest, and for each file its chunks by
/// position: 0, 1, 2 and so on, as many as the file has.
pub open spec fn chunks_follow(
    files: Seq<FileRecordView>,
    chunks: Seq<ChunkRecordView>,
    p: int,
    i: int,
) -> bool
    decreases files.len() - p,
{
    if p < 0 || i < 0 {
        false
    } else if p >= files.len() {
        i == chunks.len()
    } else {
        let n = block_len(files[p]);
        &&& i + n <= chunks.len()
        &&& forall|j: int|
            i <= j < i + n ==> (#[trigger] chunks[j]).file_path == files[p].file_name
                && chunks[j].id == j - i
        &&& chunks_follow(files, chunks, p + 1, i + n)
    }
}

/// The chunks from chunk `i` on whose file the delta names in a record
/// that is not removed.
pub open spec fn chunks_kept_from(
    delta: Seq<FileRecordView>,
    chunks: Seq<ChunkRecordView>,
    i: int,
) -> Seq<ChunkRecordView>
    decreases chunks.len() - i,
{
    if i < 0 || i >= chunks.len() {
        Seq::empty()
    } else if keeps_file(delta, chunks[i].file_path) {
        seq![chunks[i]] + chunks_kept_from(delta, chunks, i + 1)
    } else {
        chunks_kept_from(delta, chunks, i + 1)
    }
}

/// How many rows the first `p` records of the new build give to the delta.
pub open spec fn rows_before(old: Seq<FileRecordView>, new: Seq<FileRecordView>, p: int) -> int {
    changed(old, new.take(p)).len() as int
}

/// Where the cursor has settled it stays.
proof fn lemma_settle_once(delta: Seq<FileRecordView>, at: int)
    requires
        0 <= at < delta.len(),
    ensures
        settle(delta, settle(delta, at)) == settle(delta, at),
    decreases delta.len() - at,
{
    if at + 1 < delta.len() && skippable(delta[at]) {
        lemma_settle_once(delta, at + 1);
    }
}

/// The pass goes on from a cursor as from where that cursor settles.
proof fn lemma_settled_cursor(
    delta: Seq<FileRecordView>,
    chunks: Seq<ChunkRecordView>,
    at: int,
    i: int,
)
    requires
        0 <= at < delta.len(),
    ensures
        delta_chunks_from(delta, chunks, at, i) == delta_chunks_from(
            delta,
            chunks,
            settle(delta, at),
            i,
        ),
{
    lemma_settle_within(delta, at);
    lemma_settle_once(delta, at);
}

/// The pass drops a run of chunks none of which belongs to the file that
/// the cursor settles on.
proof fn lemma_pass_drops(
    delta: Seq<FileRecordView>,
    chunks: Seq<ChunkRecordView>,
    at: int,
    i: int,
    m: int,
)
    requires
        0 <= at,
        0 <= i <= m <= chunks.len(),
        at < delta.len() && !delta[settle(delta, at)].is_removed() ==> forall|j: int|
            i <= j < m ==> (#[trigger] chunks[j]).file_path != delta[settle(delta, at)].file_name,
    ensures
        delta_chunks_from(delta, chunks, at, i) == delta_chunks_from(delta, chunks, at, m),
    decreases m - i,
{
    if i < m && at < delta.len() {
        let cursor = settle(delta, at);
        lemma_settle_within(delta, at);
        lemma_settle_once(delta, at);
        if !delta[cursor].is_removed() {
            assert(chunks[i].file_path != delta[cursor].file_name);
            lemma_pass_drops(delta, chunks, cursor, i + 1, m);
            lemma_settled_cursor(delta, chunks, at, m);
        }
    }
}

/// The pass keeps the chunks of the file that the cursor stands on, and
/// moves on behind the last of them.
proof fn lemma_pass_keeps(
    delta: Seq<FileRecordView>,
    chunks: Seq<ChunkRecordView>,
    at: int,
    i: int,
    k: int,
)
    requires
        0 <= at < delta.len(),
        !delta[at].is_removed(),
        !skippable(delta[at]),
        0 <= i,
        0 <= k < delta[at].chunks,
        i + delta[at].chunks <= chunks.len(),
        forall|j: int|
            i <= j < i + delta[at].chunks ==> (#[trigger] chunks[j]).file_path
                == delta[at].file_name && chunks[j].id == j - i,
    ensures
        delta_chunks_from(delta, chunks, at, i + k) == chunks.subrange(
            i + k,
            i + delta[at].chunks,
        ) + delta_chunks_from(delta, chunks, at + 1, i + delta[at].chunks),
    decreases delta[at].chunks - k,
{
    let n = delta[at].chunks as int;
    assert(settle(delta, at) == at);
    let here = chunks[i + k];
    assert(here.file_path == delta[at].file_name && here.id == k);
    if k + 1 < n {
        lemma_pass_keeps(delta, chunks, at, i, k + 1);
        assert(chunks.subrange(i + k, i + n) =~= seq![here] + chunks.subrange(i + k + 1, i + n));
        assert(seq![here] + (chunks.subrange(i + k + 1, i + n) + delta_chunks_from(
            delta,
            chunks,
            at + 1,
            i + n,
        )) =~= chunks.subrange(i + k, i + n) + delta_chunks_from(delta, chunks, at + 1, i + n));
    } else {
        assert(chunks.subrange(i + k, i + n) =~= seq![here]);
        if at + 1 >= delta.len() {
            assert(seq![here] + delta_chunks_from(delta, chunks, at + 1, i + n) =~= seq![here]);
        }
    }
}

/// Of a run of chunks whose files the delta keeps, all are kept.
proof fn lemma_kept_run(
    delta: Seq<FileRecordView>,
    chunks: Seq<ChunkRecordView>,
    i: int,
    m: int,
)
    requires
        0 <= i <= m <= chunks.len(),
        forall|j: int| i <= j < m ==> keeps_file(delta, (#[trigger] chunks[j]).file_path),
    ensures
        chunks_kept_from(delta, chunks, i) == chunks.subrange(i, m) + chunks_kept_from(
            delta,
            chunks,
            m,
        ),
    decreases m - i,
{
    if i < m {
        lemma_kept_run(delta, chunks, i + 1, m);
        assert(keeps_file(delta, chunks[i].file_path));
        assert(seq![chunks[i]] + (chunks.subrange(i + 1, m) + chunks_kept_from(delta, chunks, m))
            =~= chunks.subrange(i, m) + chunks_kept_from(delta, chunks, m));
    } else {
        assert(chunks.subrange(i, m) + chunks_kept_from(delta, chunks, m) =~= chunks_kept_from(
            delta,
            chunks,
            m,
        ));
    }
}

/// Of a run of chunks whose files the delta does not keep, none is kept.
proof fn lemma_dropped_run(
    delta: Seq<FileRecordView>,
    chunks: Seq<ChunkRecordView>,
    i: int,
    m: int,
)
    requires
        0 <= i <= m <= chunks.len(),
        forall|j: int| i <= j < m ==> !keeps_file(delta, (#[trigger] chunks[j]).file_path),
    ensures
        chunks_kept_from(delta, chunks, i) == chunks_kept_from(delta, chunks, m),
    decreases m - i,
{
    if i < m {
        lemma_dropped_run(delta, chunks, i + 1, m);
        assert(!keeps_file(delta, chunks[i].file_path));
    }
}

/// The rows that the first records of the new build give stay where they
/// are when further records follow.
proof fn lemma_rows_stay(old: Seq<FileRecordView>, new: Seq<FileRecordView>, p: int, q: int)
    requires
        0 <= p <= q <= new.len(),
    ensures
        rows_before(old, new, p) <= rows_before(old, new, q),
        forall|k: int|
            0 <= k < rows_before(old, new, p) ==> changed(old, new.take(q))[k] == changed(
                old,
                new.take(p),
            )[k],
    decreases q - p,
{
    if p < q {
        lemma_rows_stay(old, new, p, q - 1);
        assert(new.take(q).drop_last() =~= new.take(q - 1));
    }
}

/// What the record at position `p` of the new build gives to the delta: a
/// changed record gives the row behind those of the records before it,
/// with its own name, flags and number of chunks; any other gives none.
proof fn lemma_row_of_record(old: Seq<FileRecordView>, new: Seq<FileRecordView>, p: int)
    requires
        0 <= p < new.len(),
    ensures
        0 <= rows_before(old, new, p) <= changed(old, new).len(),
        change_of(old, new[p]) is None ==> rows_before(old, new, p + 1) == rows_before(old, new, p),
        change_of(old, new[p]) matches Some(tag) ==> {
            &&& rows_before(old, new, p + 1) == rows_before(old, new, p) + 1
            &&& rows_before(old, new, p) < changed(old, new).len()
            &&& delta_of(old, new)[rows_before(old, new, p)] == new[p].with_tag(Some(tag))
        },
{
    lemma_rows_stay(old, new, p, p + 1);
    lemma_rows_stay(old, new, p + 1, new.len() as int);
    assert(new.take(new.len() as int) =~= new);
    assert(new.take(p + 1).drop_last() =~= new.take(p));
    assert(new.take(p + 1).last() == new[p]);
    match change_of(old, new[p]) {
        Some(tag) => {
            let at = rows_before(old, new, p);
            assert(changed(old, new.take(p + 1))[at] == new[p].with_tag(Some(tag)));
            assert(changed(old, new)[at] == changed(old, new.take(p + 1))[at]);
            assert(delta_of(old, new)[at] == changed(old, new)[at]);
        },
        None => {},
    }
}

/// Among unique names the delta keeps the file of a record of the new
/// build exactly when that record is added or modified.
pub proof fn lemma_kept_files_are_changed(
    old: Seq<FileRecordView>,
    new: Seq<FileRecordView>,
    p: int,
)
    requires
        unique_names(new),
        0 <= p < new.len(),
    ensures
        keeps_file(delta_of(old, new), new[p].file_name) <==> change_of(old, new[p]) is Some,
{
    let delta = delta_of(old, new);
    let front = changed(old, new);
    if keeps_file(delta, new[p].file_name) {
        let d = choose|d: int|
            0 <= d < delta.len() && (#[trigger] delta[d]).file_name == new[p].file_name
                && !delta[d].is_removed();
        lemma_removed_tags(old, new);
        if d >= front.len() {
            assert(delta[d] == removed(old, new)[d - front.len()]);
        }
        assert(front[d] == delta[d]);
        assert(front.contains(delta[d]));
        lemma_changed_rows(old, new, delta[d]);
        let i = choose|i: int|
            0 <= i < new.len() && #[trigger] change_row(old, new, i) == Some(delta[d]);
        assert(new[i].file_name == new[p].file_name);
        assert(i == p);
    }
    if change_of(old, new[p]) is Some {
        lemma_row_of_record(old, new, p);
        let at = rows_before(old, new, p);
        assert(delta[at].file_name == new[p].file_name && !delta[at].is_removed());
    }
}

/// Behind the chunks of a file no chunk of that file or of an earlier one
/// follows.
proof fn lemma_blocks_do_not_return(
    files: Seq<FileRecordView>,
    chunks: Seq<ChunkRecordView>,
    earlier: int,
    p: int,
    i: int,
)
    requires
        unique_names(files),
        0 <= earlier < p,
        earlier < files.len(),
        chunks_follow(files, chunks, p, i),
    ensures
        forall|j: int|
            i <= j < chunks.len() ==> (#[trigger] chunks[j]).file_path != files[earlier].file_name,
    decreases files.len() - p,
{
    if p < files.len() {
        let n = block_len(files[p]);
        lemma_blocks_do_not_return(files, chunks, earlier, p + 1, i + n);
        assert(files[earlier].file_name != files[p].file_name);
    }
}

/// From the chunks of file `p` on, with the cursor on the row that this
/// file would give, the pass keeps the chunks of the changed files.
proof fn lemma_pass_from(
    old: Seq<FileRecordView>,
    new: Seq<FileRecordView>,
    chunks: Seq<ChunkRecordView>,
    p: int,
    i: int,
)
    requires
        unique_names(new),
        0 <= p <= new.len(),
        chunks_follow(new, chunks, p, i),
    ensures
        delta_chunks_from(delta_of(old, new), chunks, rows_before(old, new, p), i)
            == chunks_kept_from(delta_of(old, new), chunks, i),
    decreases new.len() - p,
{
    let delta = delta_of(old, new);
    let at = rows_before(old, new, p);
    if p < new.len() {
        let record = new[p];
        let n = block_len(record) as int;
        lemma_row_of_record(old, new, p);
        lemma_kept_files_are_changed(old, new, p);
        lemma_pass_from(old, new, chunks, p + 1, i + n);
        match change_of(old, record) {
            Some(tag) => {
                assert(delta[at] == record.with_tag(Some(tag)));
                assert(!delta[at].is_removed());
                if n > 0 {
                    assert(!skippable(delta[at]));
                    lemma_pass_keeps(delta, chunks, at, i, 0);
                    lemma_kept_run(delta, chunks, i, i + n);
                } else {
                    assert(skippable(delta[at]));
                    if at + 1 < delta.len() {
                        assert(settle(delta, at) == settle(delta, at + 1));
                    } else {
                        assert(settle(delta, at) == at);
                        lemma_blocks_do_not_return(new, chunks, p, p + 1, i);
                        lemma_pass_drops(delta, chunks, at, i, chunks.len() as int);
                    }
                }
            },
            None => {
                if n > 0 {
                    assert forall|j: int| i <= j < i + n implies !keeps_file(
                        delta,
                        (#[trigger] chunks[j]).file_path,
                    ) by {}
                    lemma_dropped_run(delta, chunks, i, i + n);
                    if at < delta.len() {
                        lemma_settle_within(delta, at);
                        let cursor = settle(delta, at);
                        if !delta[cursor].is_removed() && delta[cursor].file_name
                            == record.file_name {
                            assert(keeps_file(delta, record.file_name));
                        }
                    }
                    lemma_pass_drops(delta, chunks, at, i, i + n);
                }
            },
        }
    }
}

/// Where no name occurs twice in the new build, and its chunk manifest
/// lists the files in the order of the file manifest, each with its chunks
/// by position, the chunk pass keeps exactly the chunks of the added and
/// modified files, in the order of the chunk manifest.
pub proof fn lemma_pass_keeps_changed_files(
    old: Seq<FileRecordView>,
    new: Seq<FileRecordView>,
    chunks: Seq<ChunkRecordView>,
)
    requires
        unique_names(new),
        chunks_follow(new, chunks, 0, 0),
    ensures
        delta_chunks_of(delta_of(old, new), chunks) == chunks_kept_from(
            delta_of(old, new),
            chunks,
            0,
        ),
{
    assert(new.take(0) =~= Seq::<FileRecordView>::empty());
    lemma_pass_from(old, new, chunks, 0, 0);
}

} // verus!
