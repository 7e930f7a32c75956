//! The build pipeline as a state machine. The caller performs the downloads
//! and the file writes; the pipeline decides which chunk may be fetched
//! next, what becomes of a finished download, and which buffered chunk is
//! appended to which file.
//!
//! A chunk takes a memory permit and a download permit when it is handed
//! out by [`Pipeline::next_download`]. The download permit is given back
//! when the download is reported, the memory permit when the chunk has been
//! handed out for writing by [`Pipeline::next_write`] or has been abandoned
//! because its content did not match its hash. An abandoned chunk is never
//! written, so the chunks behind it wait for ever: [`Pipeline::is_stalled`]
//! tells the caller when nothing can move any more.

use crate::chunk_key::{chunk_key, chunk_key_of};
use crate::hash::{chunk_is_intact, intact};
use crate::manifest::{ChunkRecord, ChunkRecordView};
use crate::orchestrator::StepResult;
use crate::text_map::TextMap;
use crate::write_queue::{
    queue_add, queue_items, queue_new, queue_peek, queue_remove, queue_size,
};
use queues::Queue;
use vstd::prelude::*;

verus! {

/// The size that no chunk exceeds; the memory budget is counted in chunks
/// of this size.
pub const MAX_CHUNK_SIZE: usize = 1048576;

/// Why no write order can be derived from a chunk manifest.
#[derive(Debug, PartialEq, Eq)]
pub enum PlanError {
    /// The chunk at this position belongs to a file that is not among the
    /// files to build, or that already has all its chunks.
    UnknownFile { chunk: usize },
    /// The chunk at this position belongs to a file declared without chunks.
    EmptyFile { chunk: usize },
}

/// What became of a finished download.
#[derive(Debug, PartialEq, Eq)]
pub enum Delivery {
    /// The chunk waits in memory for its turn to be written.
    Buffered,
    /// The chunk's content did not match its hash; it was dropped.
    Abandoned,
}

/// A download was reported that the pipeline had not handed out, or that
/// had been reported before.
#[derive(Debug, PartialEq, Eq)]
pub struct NotInFlight {}

/// A downloaded chunk that waits to be written.
pub struct BufferedChunk {
    pub file_path: String,
    pub bytes: Vec<u8>,
}

/// One append to a file of the install tree.
#[derive(Debug)]
pub struct WriteStep {
    /// Identifier of the chunk that is written.
    pub sha: String,
    /// Position of the chunk within its file.
    pub id: u16,
    /// The file to append to, as the manifest names it.
    pub file_path: String,
    /// What to append.
    pub bytes: Vec<u8>,
    /// The file has no open handle yet: open it in append mode first.
    pub open: bool,
    /// This is the file's last chunk: close the handle afterwards.
    pub close: bool,
}

/// The chunk that waits under a key, as plain values: its file and content.
pub open spec fn buffered_value(chunk: BufferedChunk) -> (Seq<char>, Seq<u8>) {
    (chunk.file_path@, chunk.bytes@)
}

/// The last-chunk flags of a chunk manifest from position `i` on, given the
/// number of chunks still declared for each file: a chunk is the last of
/// its file when its position is the declared number less one, and the
/// file is then complete.
pub open spec fn plan_from(
    counts: Map<Seq<char>, usize>,
    chunks: Seq<ChunkRecordView>,
    i: int,
) -> Result<Seq<bool>, PlanError>
    decreases chunks.len() - i,
{
    if i < 0 || i >= chunks.len() {
        Ok(Seq::empty())
    } else if !counts.contains_key(chunks[i].file_path) {
        Err(PlanError::UnknownFile { chunk: i as usize })
    } else if counts[chunks[i].file_path] == 0 {
        Err(PlanError::EmptyFile { chunk: i as usize })
    } else {
        let is_last = counts[chunks[i].file_path] - 1 == chunks[i].id;
        let remaining = if is_last {
            counts.remove(chunks[i].file_path)
        } else {
            counts
        };
        match plan_from(remaining, chunks, i + 1) {
            Ok(rest) => Ok(seq![is_last] + rest),
            Err(e) => Err(e),
        }
    }
}

/// The flags of a whole plan: those found so far, then those still to come.
pub open spec fn plan_after(found: Seq<bool>, rest: Result<Seq<bool>, PlanError>) -> Result<
    Seq<bool>,
    PlanError,
> {
    match rest {
        Ok(flags) => Ok(found + flags),
        Err(e) => Err(e),
    }
}

/// The state of a pipeline as plain values.
pub struct PipelineView {
    /// The chunk manifest; downloads and writes both follow its order.
    pub manifest: Seq<ChunkRecordView>,
    /// For each chunk, whether it is the last of its file.
    pub last: Seq<bool>,
    /// How many chunks have been handed out for download.
    pub admitted: nat,
    /// The positions of the chunks that are being downloaded.
    pub in_flight: Seq<usize>,
    /// How many chunks have been handed out for writing.
    pub written: nat,
    /// Downloaded chunks that wait to be written, by key: file and content.
    pub buffered: Map<Seq<char>, (Seq<char>, Seq<u8>)>,
    /// The files that have an open handle.
    pub open_files: Set<Seq<char>>,
    /// How many downloads were dropped for a wrong hash.
    pub abandoned: nat,
    /// The content that was taken in for each chunk, by position.
    pub delivered: Map<int, Seq<u8>>,
    /// What has been handed out so far to be appended to each file.
    pub appended: Map<Seq<char>, Seq<u8>>,
    pub max_downloads: nat,
    pub max_in_memory: nat,
    pub skip_verify: bool,
}

/// No two chunks of a manifest have the same key.
pub open spec fn distinct_chunk_keys(m: Seq<ChunkRecordView>) -> bool {
    forall|i: int, j: int|
        0 <= i < m.len() && 0 <= j < m.len() && i != j ==> chunk_key(
            (#[trigger] m[i]).id,
            m[i].sha,
        ) != chunk_key((#[trigger] m[j]).id, m[j].sha)
}

/// What the first `n` chunks of a manifest make of the file `file` when
/// each is appended with the content that was taken in for it.
pub open spec fn content_written(
    m: Seq<ChunkRecordView>,
    delivered: Map<int, Seq<u8>>,
    file: Seq<char>,
    n: int,
) -> Seq<u8>
    decreases n,
{
    if n <= 0 {
        Seq::empty()
    } else if m[n - 1].file_path == file {
        content_written(m, delivered, file, n - 1) + delivered[n - 1]
    } else {
        content_written(m, delivered, file, n - 1)
    }
}

/// What the first `n` chunks make of a file depends on what was taken in
/// for these chunks only.
pub proof fn lemma_content_stable(
    m: Seq<ChunkRecordView>,
    a: Map<int, Seq<u8>>,
    b: Map<int, Seq<u8>>,
    file: Seq<char>,
    n: int,
)
    requires
        forall|i: int| 0 <= i < n ==> a[i] == b[i],
    ensures
        content_written(m, a, file, n) == content_written(m, b, file, n),
    decreases n,
{
    if n > 0 {
        lemma_content_stable(m, a, b, file, n - 1);
    }
}

impl PipelineView {
    /// The key of the chunk at position `t` of the manifest.
    pub open spec fn key(self, t: int) -> Seq<char> {
        chunk_key(self.manifest[t].id, self.manifest[t].sha)
    }

    /// How many chunks hold a memory permit: those being downloaded and
    /// those waiting to be written.
    pub open spec fn held(self) -> nat {
        self.in_flight.len() + self.buffered.dom().len()
    }

    /// Whether a further chunk may be handed out for download.
    pub open spec fn can_admit(self) -> bool {
        &&& self.admitted < self.manifest.len()
        &&& self.in_flight.len() < self.max_downloads
        &&& self.held() < self.max_in_memory
    }

    /// Whether the chunk whose turn it is waits in memory.
    pub open spec fn can_write(self) -> bool {
        self.written < self.manifest.len() && self.buffered.contains_key(
            self.key(self.written as int),
        )
    }

    /// Whether every chunk of the manifest has been handed out for writing.
    pub open spec fn finished(self) -> bool {
        self.written == self.manifest.len()
    }

    /// Whether the build can make no move although chunks are still
    /// unwritten: no download is in flight, none may be started, and the
    /// chunk whose turn it is does not wait in memory.
    pub open spec fn stalled(self) -> bool {
        &&& !self.finished()
        &&& self.in_flight.len() == 0
        &&& !self.can_admit()
        &&& !self.can_write()
    }

    /// How the build has ended, if it has: well when every chunk is written
    /// and none was dropped; with a corrupt chunk when one was dropped and
    /// the build is finished or stalled; with a failure when it is stalled
    /// although none was dropped. `None` while the build can go on.
    pub open spec fn outcome(self) -> Option<StepResult> {
        if self.finished() || self.stalled() {
            Some(
                if self.abandoned > 0 {
                    StepResult::Corrupt
                } else if self.finished() {
                    StepResult::Done
                } else {
                    StepResult::Failed
                },
            )
        } else {
            None
        }
    }

    /// What has been handed out so far to be appended to `file`.
    pub open spec fn appended_to(self, file: Seq<char>) -> Seq<u8> {
        if self.appended.contains_key(file) {
            self.appended[file]
        } else {
            Seq::empty()
        }
    }

    /// The counters stay within their bounds. Never are more downloads in
    /// flight than `max_downloads`, and never do more chunks hold a memory
    /// permit than `max_in_memory`.
    pub open spec fn bounded(self) -> bool {
        &&& self.last.len() == self.manifest.len()
        &&& self.manifest.len() <= usize::MAX
        &&& self.admitted <= self.manifest.len()
        &&& self.buffered.dom().finite()
        &&& self.in_flight.len() <= self.max_downloads
        &&& self.held() <= self.max_in_memory
        &&& self.written + self.held() + self.abandoned <= self.admitted
        &&& forall|i: int|
            0 <= i < self.in_flight.len() ==> (#[trigger] self.in_flight[i]) < self.admitted
        &&& forall|i: int, j: int|
            0 <= i < self.in_flight.len() && 0 <= j < self.in_flight.len() && i != j
                ==> self.in_flight[i] != self.in_flight[j]
    }

    /// Every chunk that waits in memory was taken in for a chunk of the
    /// manifest that was handed out, and waits under that chunk's key with
    /// that chunk's file and the content that was taken in. No download in
    /// flight has been taken in yet.
    pub open spec fn traced(self) -> bool {
        &&& forall|t: int| #[trigger] self.delivered.contains_key(t) ==> 0 <= t < self.admitted
        &&& forall|i: int|
            0 <= i < self.in_flight.len() ==> !self.delivered.contains_key(
                (#[trigger] self.in_flight[i]) as int,
            )
        &&& forall|k: Seq<char>| #[trigger]
            self.buffered.contains_key(k) ==> exists|t: int|
                0 <= t < self.admitted && #[trigger] self.key(t) == k && self.buffered[k].0
                    == self.manifest[t].file_path && self.delivered.contains_key(t)
                    && self.buffered[k].1 == self.delivered[t]
    }

    /// Where no two chunks share a key, every chunk that was handed out
    /// for writing had been taken in, and every file holds what its chunks
    /// so far make of it, in the order of the manifest.
    pub open spec fn faithful(self) -> bool {
        distinct_chunk_keys(self.manifest) ==> {
            &&& forall|i: int| 0 <= i < self.written ==> #[trigger] self.delivered.contains_key(i)
            &&& forall|file: Seq<char>| #[trigger]
                self.appended_to(file) == content_written(
                    self.manifest,
                    self.delivered,
                    file,
                    self.written as int,
                )
        }
    }

    /// Where no two chunks share a key, no chunk goes missing. As long as
    /// no download was dropped, every chunk that was handed out is being
    /// downloaded or was taken in; and the chunks that wait in memory are
    /// those that were taken in and not yet handed out for writing.
    pub open spec fn accounted(self) -> bool {
        distinct_chunk_keys(self.manifest) ==> {
            &&& self.abandoned == 0 ==> forall|t: int|
                0 <= t < self.admitted ==> self.in_flight.contains(t as usize)
                    || #[trigger] self.delivered.contains_key(t)
            &&& forall|t: int|
                self.written <= t < self.manifest.len() && self.delivered.contains_key(t)
                    ==> self.buffered.contains_key(#[trigger] self.key(t))
            &&& forall|t: int|
                0 <= t < self.written ==> !self.buffered.contains_key(#[trigger] self.key(t))
        }
    }

    /// What holds of a pipeline at every moment.
    pub open spec fn valid(self) -> bool {
        self.bounded() && self.traced() && self.faithful() && self.accounted()
    }

    /// The state after the next chunk of the manifest has been handed out
    /// for download.
    pub open spec fn after_admit(self) -> Self {
        PipelineView {
            admitted: self.admitted + 1,
            in_flight: self.in_flight.push(self.admitted as usize),
            ..self
        }
    }

    /// The state after the download of `ticket` was reported with content
    /// `bytes`, found intact or not.
    pub open spec fn after_delivery(self, ticket: usize, bytes: Seq<u8>, intact: bool) -> Self {
        let in_flight = self.in_flight.remove(self.in_flight.index_of(ticket));
        if intact {
            PipelineView {
                in_flight,
                buffered: self.buffered.insert(
                    self.key(ticket as int),
                    (self.manifest[ticket as int].file_path, bytes),
                ),
                delivered: self.delivered.insert(ticket as int, bytes),
                ..self
            }
        } else {
            PipelineView { in_flight, abandoned: self.abandoned + 1, ..self }
        }
    }

    /// The state after the chunk whose turn it was has been handed out for
    /// writing.
    pub open spec fn after_write(self) -> Self {
        let key = self.key(self.written as int);
        let file = self.buffered[key].0;
        PipelineView {
            written: self.written + 1,
            buffered: self.buffered.remove(key),
            open_files: if self.last[self.written as int] {
                self.open_files.remove(file)
            } else {
                self.open_files.insert(file)
            },
            appended: self.appended.insert(file, self.appended_to(file) + self.buffered[key].1),
            ..self
        }
    }

    /// Handing out a chunk for download keeps a pipeline within its caps
    /// and its records true.
    pub proof fn lemma_admit_keeps_valid(self)
        requires
            self.valid(),
            self.can_admit(),
        ensures
            self.after_admit().valid(),
    {
        let post = self.after_admit();
        let ticket = self.admitted as usize;
        assert(post.bounded()) by {
            assert forall|i: int| 0 <= i < post.in_flight.len() implies (
            #[trigger] post.in_flight[i]) < post.admitted by {
                if i < self.in_flight.len() {
                    assert(post.in_flight[i] == self.in_flight[i]);
                }
            }
            assert forall|i: int, j: int|
                0 <= i < post.in_flight.len() && 0 <= j < post.in_flight.len() && i
                    != j implies post.in_flight[i] != post.in_flight[j] by {
                if i < self.in_flight.len() {
                    assert(post.in_flight[i] == self.in_flight[i]);
                }
                if j < self.in_flight.len() {
                    assert(post.in_flight[j] == self.in_flight[j]);
                }
            }
        }
        assert(post.traced()) by {
            assert forall|i: int| 0 <= i < post.in_flight.len() implies !post.delivered.contains_key(
                (#[trigger] post.in_flight[i]) as int,
            ) by {
                if i < self.in_flight.len() {
                    assert(post.in_flight[i] == self.in_flight[i]);
                } else {
                    if self.delivered.contains_key(ticket as int) {
                        assert(ticket < self.admitted);
                    }
                }
            }
            assert forall|k: Seq<char>| #[trigger] post.buffered.contains_key(k) implies exists|
                t: int,
            |
                0 <= t < post.admitted && #[trigger] post.key(t) == k && post.buffered[k].0
                    == post.manifest[t].file_path && post.delivered.contains_key(t)
                    && post.buffered[k].1 == post.delivered[t] by {
                let t = choose|t: int|
                    0 <= t < self.admitted && #[trigger] self.key(t) == k && self.buffered[k].0
                        == self.manifest[t].file_path && self.delivered.contains_key(t)
                        && self.buffered[k].1 == self.delivered[t];
                assert(post.key(t) == k);
            }
        }
        assert(post.faithful()) by {
            if distinct_chunk_keys(self.manifest) {
                assert forall|file: Seq<char>| #[trigger]
                    post.appended_to(file) == content_written(
                        post.manifest,
                        post.delivered,
                        file,
                        post.written as int,
                    ) by {
                    assert(post.appended_to(file) == self.appended_to(file));
                }
            }
        }
        assert(post.accounted()) by {
            if distinct_chunk_keys(self.manifest) {
                assert forall|t: int| 0 <= t < post.admitted && post.abandoned == 0 implies (
                post.in_flight.contains(t as usize) || #[trigger] post.delivered.contains_key(t)) by {
                    if t < self.admitted {
                        if self.in_flight.contains(t as usize) {
                            let i = self.in_flight.index_of(t as usize);
                            assert(post.in_flight[i] == t as usize);
                        }
                    } else {
                        assert(post.in_flight[self.in_flight.len() as int] == t as usize);
                    }
                }
                assert forall|t: int|
                    post.written <= t < post.manifest.len() && post.delivered.contains_key(
                        t,
                    ) implies post.buffered.contains_key(#[trigger] post.key(t)) by {
                    assert(self.buffered.contains_key(self.key(t)));
                }
                assert forall|t: int| 0 <= t < post.written implies !post.buffered.contains_key(
                    #[trigger] post.key(t),
                ) by {
                    assert(!self.buffered.contains_key(self.key(t)));
                }
            }
        }
    }

    /// Taking in a finished download keeps a pipeline within its caps and
    /// its records true.
    pub proof fn lemma_delivery_keeps_valid(self, ticket: usize, bytes: Seq<u8>, intact: bool)
        requires
            self.valid(),
            self.in_flight.contains(ticket),
        ensures
            self.after_delivery(ticket, bytes, intact).valid(),
    {
        let post = self.after_delivery(ticket, bytes, intact);
        let at = self.in_flight.index_of(ticket);
        assert(0 <= at < self.in_flight.len() && self.in_flight[at] == ticket);
        let rest = self.in_flight.remove(at);
        assert(post.in_flight == rest);
        assert forall|i: int| 0 <= i < rest.len() implies #[trigger] rest[i] == self.in_flight[if i
            < at {
            i
        } else {
            i + 1
        }] by {}
        assert(forall|i: int| 0 <= i < rest.len() ==> #[trigger] rest[i] != ticket) by {
            assert forall|i: int| 0 <= i < rest.len() implies #[trigger] rest[i] != ticket by {
                let j = if i < at {
                    i
                } else {
                    i + 1
                };
                assert(rest[i] == self.in_flight[j]);
                assert(self.in_flight[j] != self.in_flight[at]);
            }
        }
        let key = self.key(ticket as int);
        assert(ticket < self.admitted);
        assert(!self.delivered.contains_key(ticket as int));
        assert(post.bounded()) by {
            assert forall|i: int| 0 <= i < rest.len() implies (#[trigger] rest[i])
                < post.admitted by {
                let j = if i < at {
                    i
                } else {
                    i + 1
                };
                assert(rest[i] == self.in_flight[j]);
            }
            assert forall|i: int, j: int|
                0 <= i < rest.len() && 0 <= j < rest.len() && i != j implies rest[i]
                != rest[j] by {
                let a = if i < at {
                    i
                } else {
                    i + 1
                };
                let b = if j < at {
                    j
                } else {
                    j + 1
                };
                assert(rest[i] == self.in_flight[a] && rest[j] == self.in_flight[b]);
            }
            if intact {
                assert(post.buffered.dom() =~= self.buffered.dom().insert(key));
            }
        }
        assert(post.traced()) by {
            assert forall|i: int| 0 <= i < rest.len() implies !post.delivered.contains_key(
                (#[trigger] rest[i]) as int,
            ) by {
                let j = if i < at {
                    i
                } else {
                    i + 1
                };
                assert(rest[i] == self.in_flight[j]);
                assert(rest[i] != ticket);
            }
            assert forall|k: Seq<char>| #[trigger] post.buffered.contains_key(k) implies exists|
                t: int,
            |
                0 <= t < post.admitted && #[trigger] post.key(t) == k && post.buffered[k].0
                    == post.manifest[t].file_path && post.delivered.contains_key(t)
                    && post.buffered[k].1 == post.delivered[t] by {
                if intact && k == key {
                    assert(post.key(ticket as int) == k);
                } else {
                    assert(self.buffered.contains_key(k));
                    let t = choose|t: int|
                        0 <= t < self.admitted && #[trigger] self.key(t) == k && self.buffered[k].0
                            == self.manifest[t].file_path && self.delivered.contains_key(t)
                            && self.buffered[k].1 == self.delivered[t];
                    assert(t != ticket);
                    assert(post.key(t) == k);
                }
            }
        }
        assert(post.faithful()) by {
            if distinct_chunk_keys(self.manifest) {
                assert forall|i: int| 0 <= i < post.written implies #[trigger]
                    post.delivered.contains_key(i) by {
                    assert(self.delivered.contains_key(i));
                }
                assert forall|file: Seq<char>| #[trigger]
                    post.appended_to(file) == content_written(
                        post.manifest,
                        post.delivered,
                        file,
                        post.written as int,
                    ) by {
                    assert(post.appended_to(file) == self.appended_to(file));
                    assert forall|i: int| 0 <= i < self.written implies self.delivered[i]
                        == post.delivered[i] by {
                        assert(self.delivered.contains_key(i));
                    }
                    lemma_content_stable(
                        self.manifest,
                        self.delivered,
                        post.delivered,
                        file,
                        self.written as int,
                    );
                }
            }
        }
        assert(post.accounted()) by {
            if distinct_chunk_keys(self.manifest) {
                assert forall|t: int| 0 <= t < post.admitted && post.abandoned == 0 implies (
                post.in_flight.contains(t as usize) || #[trigger] post.delivered.contains_key(t)) by {
                    if t != ticket && !self.delivered.contains_key(t) {
                        assert(self.in_flight.contains(t as usize));
                        let j = self.in_flight.index_of(t as usize);
                        let i = if j < at {
                            j
                        } else {
                            j - 1
                        };
                        assert(rest[i] == t as usize);
                    }
                }
                assert forall|t: int|
                    post.written <= t < post.manifest.len() && post.delivered.contains_key(
                        t,
                    ) implies post.buffered.contains_key(#[trigger] post.key(t)) by {
                    if !(intact && t == ticket) {
                        assert(self.buffered.contains_key(self.key(t)));
                    }
                }
                assert forall|t: int| 0 <= t < post.written implies !post.buffered.contains_key(
                    #[trigger] post.key(t),
                ) by {
                    assert(!self.buffered.contains_key(self.key(t)));
                    assert(self.delivered.contains_key(t));
                    assert(t != ticket);
                    assert(chunk_key(self.manifest[t].id, self.manifest[t].sha) != chunk_key(
                        self.manifest[ticket as int].id,
                        self.manifest[ticket as int].sha,
                    ));
                }
            }
        }
    }

    /// Handing out a chunk for writing keeps a pipeline within its caps
    /// and its records true.
    pub proof fn lemma_write_keeps_valid(self)
        requires
            self.valid(),
            self.can_write(),
        ensures
            self.after_write().valid(),
    {
        let post = self.after_write();
        let turn = self.written as int;
        let key = self.key(turn);
        let file = self.buffered[key].0;
        let bytes = self.buffered[key].1;
        assert(post.bounded()) by {
            assert(post.buffered.dom() =~= self.buffered.dom().remove(key));
        }
        assert(post.traced()) by {
            assert forall|k: Seq<char>| #[trigger] post.buffered.contains_key(k) implies exists|
                t: int,
            |
                0 <= t < post.admitted && #[trigger] post.key(t) == k && post.buffered[k].0
                    == post.manifest[t].file_path && post.delivered.contains_key(t)
                    && post.buffered[k].1 == post.delivered[t] by {
                assert(self.buffered.contains_key(k));
                let t = choose|t: int|
                    0 <= t < self.admitted && #[trigger] self.key(t) == k && self.buffered[k].0
                        == self.manifest[t].file_path && self.delivered.contains_key(t)
                        && self.buffered[k].1 == self.delivered[t];
                assert(post.key(t) == k);
            }
        }
        assert(post.faithful()) by {
            if distinct_chunk_keys(self.manifest) {
                let t = choose|t: int|
                    0 <= t < self.admitted && #[trigger] self.key(t) == key && self.buffered[key].0
                        == self.manifest[t].file_path && self.delivered.contains_key(t)
                        && self.buffered[key].1 == self.delivered[t];
                if t != turn {
                    assert(chunk_key(self.manifest[t].id, self.manifest[t].sha) != chunk_key(
                        self.manifest[turn].id,
                        self.manifest[turn].sha,
                    ));
                }
                assert(t == turn);
                assert forall|i: int| 0 <= i < post.written implies #[trigger]
                    post.delivered.contains_key(i) by {
                    if i < turn {
                        assert(self.delivered.contains_key(i));
                    }
                }
                assert forall|f: Seq<char>| #[trigger]
                    post.appended_to(f) == content_written(
                        post.manifest,
                        post.delivered,
                        f,
                        post.written as int,
                    ) by {
                    assert(self.appended_to(f) == content_written(
                        self.manifest,
                        self.delivered,
                        f,
                        turn,
                    ));
                    if f == file {
                        assert(post.appended_to(f) == self.appended_to(f) + bytes);
                    } else {
                        assert(post.appended_to(f) == self.appended_to(f));
                    }
                }
            }
        }
        assert(post.accounted()) by {
            if distinct_chunk_keys(self.manifest) {
                assert forall|t: int|
                    post.written <= t < post.manifest.len() && post.delivered.contains_key(
                        t,
                    ) implies post.buffered.contains_key(#[trigger] post.key(t)) by {
                    assert(self.buffered.contains_key(self.key(t)));
                    assert(chunk_key(self.manifest[t].id, self.manifest[t].sha) != chunk_key(
                        self.manifest[turn].id,
                        self.manifest[turn].sha,
                    ));
                }
                assert forall|t: int| 0 <= t < post.written implies !post.buffered.contains_key(
                    #[trigger] post.key(t),
                ) by {
                    if t < turn {
                        assert(!self.buffered.contains_key(self.key(t)));
                    }
                }
            }
        }
    }
}

/// A build in progress.
pub struct Pipeline {
    chunks: Vec<ChunkRecord>,
    last: Ghost<Seq<bool>>,
    admitted: usize,
    in_flight: Vec<usize>,
    expected: Queue<(String, u16, bool)>,
    written: usize,
    in_buffer: TextMap<BufferedChunk>,
    open_files: TextMap<()>,
    abandoned: usize,
    delivered: Ghost<Map<int, Seq<u8>>>,
    appended: Ghost<Map<Seq<char>, Seq<u8>>>,
    max_downloads: usize,
    max_in_memory: usize,
    skip_verify: bool,
}

impl View for Pipeline {
    type V = PipelineView;

    closed spec fn view(&self) -> PipelineView {
        PipelineView {
            manifest: self.chunks.deep_view(),
            last: self.last@,
            admitted: self.admitted as nat,
            in_flight: self.in_flight@,
            written: self.written as nat,
            buffered: self.in_buffer@.map_values(|c: BufferedChunk| buffered_value(c)),
            open_files: self.open_files@.dom(),
            abandoned: self.abandoned as nat,
            delivered: self.delivered@,
            appended: self.appended@,
            max_downloads: self.max_downloads as nat,
            max_in_memory: self.max_in_memory as nat,
            skip_verify: self.skip_verify,
        }
    }
}

impl Pipeline {
    /// The expected-order queue holds the chunks not yet written, in the
    /// order of the manifest, and the two maps are sound.
    pub closed spec fn inv(&self) -> bool {
        &&& self.in_buffer.wf()
        &&& self.open_files.wf()
        &&& self.written <= self.chunks.len()
        &&& self.last@.len() == self.chunks.len()
        &&& queue_items(self.expected) == Seq::new(
            (self.chunks.len() - self.written) as nat,
            |j: int|
                (
                    self.chunks@[self.written + j].sha@,
                    self.chunks@[self.written + j].id,
                    self.last@[self.written + j],
                ),
        )
    }

    /// The pipeline is in a state that its own operations can reach.
    pub open spec fn wf(&self) -> bool {
        self.inv() && self@.valid()
    }

    /// The keys that wait in memory are the keys of the buffer map.
    proof fn lemma_buffer_keys(&self)
        requires
            self.inv(),
        ensures
            self@.buffered.dom() == self.in_buffer@.dom(),
            self@.buffered.dom().finite(),
            self@.buffered.dom().len() == self.in_buffer.spec_len(),
    {
        self.in_buffer.lemma_len();
        assert(self@.buffered.dom() =~= self.in_buffer@.dom());
    }

    /// Sets up the build of the files counted in `counts` from the chunks
    /// of `chunks`: nothing is downloaded or written yet, at most
    /// `max_download_workers` downloads will run at a time, and at most
    /// `max_memory_usage / MAX_CHUNK_SIZE` chunks will be held in memory.
    pub fn new(
        counts: TextMap<usize>,
        chunks: Vec<ChunkRecord>,
        max_download_workers: usize,
        max_memory_usage: usize,
        skip_verify: bool,
    ) -> (r: Result<Pipeline, PlanError>)
        requires
            counts.wf(),
        ensures
            match r {
                Ok(p) => {
                    &&& p.wf()
                    &&& plan_from(counts@, chunks.deep_view(), 0) == Ok::<Seq<bool>, PlanError>(
                        p@.last,
                    )
                    &&& p@ == PipelineView {
                        manifest: chunks.deep_view(),
                        last: p@.last,
                        admitted: 0,
                        in_flight: Seq::empty(),
                        written: 0,
                        buffered: Map::empty(),
                        open_files: Set::empty(),
                        abandoned: 0,
                        delivered: Map::empty(),
                        appended: Map::empty(),
                        max_downloads: max_download_workers as nat,
                        max_in_memory: (max_memory_usage / MAX_CHUNK_SIZE) as nat,
                        skip_verify,
                    }
                },
                Err(e) => plan_from(counts@, chunks.deep_view(), 0) == Err::<Seq<bool>, PlanError>(
                    e,
                ),
            },
    {
        let ghost declared = counts@;
        let ghost manifest = chunks.deep_view();
        let mut remaining = counts;
        let mut expected = queue_new();
        let ghost mut flags: Seq<bool> = Seq::empty();
        let mut i: usize = 0;
        assert(plan_after(flags, plan_from(remaining@, manifest, 0)) == plan_from(
            declared,
            manifest,
            0,
        )) by {
            match plan_from(declared, manifest, 0) {
                Ok(rest) => {
                    assert(flags + rest =~= rest);
                },
                Err(_) => {},
            }
        }
        while i < chunks.len()
            invariant
                i <= chunks.len(),
                remaining.wf(),
                declared == counts@,
                manifest == chunks.deep_view(),
                flags.len() == i,
                queue_items(expected) == Seq::new(
                    i as nat,
                    |j: int| (chunks@[j].sha@, chunks@[j].id, flags[j]),
                ),
                plan_from(declared, manifest, 0) == plan_after(
                    flags,
                    plan_from(remaining@, manifest, i as int),
                ),
            decreases chunks.len() - i,
        {
            let chunk = &chunks[i];
            assert(manifest[i as int] == chunk@);
            let count: usize = match remaining.get(&chunk.file_path) {
                Some(n) => *n,
                None => {
                    assert(plan_from(remaining@, manifest, i as int) == Err::<Seq<bool>, PlanError>(
                        PlanError::UnknownFile { chunk: i },
                    ));
                    return Err(PlanError::UnknownFile { chunk: i });
                },
            };
            if count == 0 {
                assert(plan_from(remaining@, manifest, i as int) == Err::<Seq<bool>, PlanError>(
                    PlanError::EmptyFile { chunk: i },
                ));
                return Err(PlanError::EmptyFile { chunk: i });
            }
            let is_last = count - 1 == chunk.id as usize;
            if is_last {
                remaining.remove(&chunk.file_path);
            }
            queue_add(&mut expected, (chunk.sha.clone(), chunk.id, is_last));
            proof {
                let found = flags.push(is_last);
                match plan_from(remaining@, manifest, i + 1) {
                    Ok(rest) => {
                        assert(flags + (seq![is_last] + rest) =~= found + rest);
                    },
                    Err(_) => {},
                }
                assert(queue_items(expected) =~= Seq::new(
                    (i + 1) as nat,
                    |j: int| (chunks@[j].sha@, chunks@[j].id, found[j]),
                ));
                flags = found;
            }
            i += 1;
        }
        proof {
            match plan_from(remaining@, manifest, i as int) {
                Ok(rest) => {
                    assert(flags + rest =~= flags);
                },
                Err(_) => {},
            }
        }
        let pipeline = Pipeline {
            chunks,
            last: Ghost(flags),
            admitted: 0,
            in_flight: Vec::new(),
            expected,
            written: 0,
            in_buffer: TextMap::new(),
            open_files: TextMap::new(),
            abandoned: 0,
            delivered: Ghost(Map::empty()),
            appended: Ghost(Map::empty()),
            max_downloads: max_download_workers,
            max_in_memory: max_memory_usage / MAX_CHUNK_SIZE,
            skip_verify,
        };
        proof {
            assert(pipeline@.buffered =~= Map::empty());
            assert(pipeline@.open_files =~= Set::empty());
            assert(pipeline@.in_flight =~= Seq::empty());
            assert(pipeline@.bounded());
            assert(pipeline@.traced());
            assert(pipeline@.faithful()) by {
                assert forall|file: Seq<char>| #[trigger]
                    pipeline@.appended_to(file) == content_written(
                        pipeline@.manifest,
                        pipeline@.delivered,
                        file,
                        0,
                    ) by {}
            }
            assert(queue_items(pipeline.expected) =~= Seq::new(
                (pipeline.chunks.len() - pipeline.written) as nat,
                |j: int|
                    (
                        pipeline.chunks@[pipeline.written + j].sha@,
                        pipeline.chunks@[pipeline.written + j].id,
                        pipeline.last@[pipeline.written + j],
                    ),
            ));
        }
        Ok(pipeline)
    }

    /// How many chunks the build consists of.
    pub fn total(&self) -> (r: usize)
        ensures
            r == self@.manifest.len(),
    {
        self.chunks.len()
    }

    /// How many chunks have been handed out for writing.
    pub fn written(&self) -> (r: usize)
        ensures
            r == self@.written,
    {
        self.written
    }

    /// How many downloads are in flight.
    pub fn downloading(&self) -> (r: usize)
        ensures
            r == self@.in_flight.len(),
    {
        self.in_flight.len()
    }

    /// How many downloaded chunks wait in memory to be written.
    pub fn buffered(&self) -> (r: usize)
        requires
            self.wf(),
        ensures
            r == self@.buffered.dom().len(),
    {
        proof {
            self.lemma_buffer_keys();
        }
        self.in_buffer.len()
    }

    /// How many chunks hold a memory permit.
    pub fn held(&self) -> (r: usize)
        requires
            self.wf(),
        ensures
            r == self@.held(),
            r <= self@.max_in_memory,
    {
        proof {
            self.lemma_buffer_keys();
        }
        self.in_flight.len() + self.in_buffer.len()
    }

    /// How many downloads were dropped because of a wrong hash.
    pub fn abandoned(&self) -> (r: usize)
        ensures
            r == self@.abandoned,
    {
        self.abandoned
    }

    /// Whether every chunk has been handed out for writing.
    pub fn is_finished(&self) -> (r: bool)
        requires
            self.wf(),
        ensures
            r == self@.finished(),
    {
        queue_size(&self.expected) == 0
    }

    /// Hands out the next chunk of the manifest for download, where a
    /// download permit and a memory permit are free. The number that comes
    /// with the chunk is its position in the manifest; the download is
    /// reported under it.
    pub fn next_download(&mut self) -> (r: Option<(usize, ChunkRecord)>)
        requires
            old(self).wf(),
        ensures
            final(self).wf(),
            match r {
                Some((ticket, chunk)) => {
                    &&& old(self)@.can_admit()
                    &&& ticket == old(self)@.admitted
                    &&& chunk@ == old(self)@.manifest[ticket as int]
                    &&& final(self)@ == old(self)@.after_admit()
                },
                None => !old(self)@.can_admit() && final(self)@ == old(self)@,
            },
    {
        proof {
            self.lemma_buffer_keys();
        }
        if self.admitted >= self.chunks.len() || self.in_flight.len() >= self.max_downloads
            || self.in_flight.len() + self.in_buffer.len() >= self.max_in_memory {
            return None;
        }
        let ticket: usize = self.admitted;
        let chunk = self.chunks[ticket].duplicate();
        self.in_flight.push(ticket);
        self.admitted = ticket + 1;
        proof {
            let pre = old(self)@;
            assert(self@.in_flight == pre.in_flight.push(ticket));
            assert(self@ == pre.after_admit());
            pre.lemma_admit_keeps_valid();
        }
        Some((ticket, chunk))
    }

    /// Where `ticket` stands among the downloads in flight.
    fn flight_position(&self, ticket: usize) -> (r: Option<usize>)
        requires
            self.wf(),
        ensures
            match r {
                Some(at) => at < self@.in_flight.len() && self@.in_flight[at as int] == ticket
                    && self@.in_flight.index_of(ticket) == at,
                None => !self@.in_flight.contains(ticket),
            },
    {
        let mut i: usize = 0;
        while i < self.in_flight.len()
            invariant
                i <= self.in_flight.len(),
                self.wf(),
                forall|j: int| 0 <= j < i ==> self.in_flight@[j] != ticket,
            decreases self.in_flight.len() - i,
        {
            if self.in_flight[i] == ticket {
                proof {
                    let found = self@.in_flight.index_of(ticket);
                    assert(self@.in_flight[i as int] == ticket);
                    assert(self@.in_flight.contains(ticket));
                    assert(0 <= found < self@.in_flight.len() && self@.in_flight[found] == ticket);
                }
                return Some(i);
            }
            i += 1;
        }
        None
    }

    /// Takes in a finished download whose content was already judged:
    /// `intact` says whether it matches the chunk's hash. An intact chunk
    /// is kept under its key, in place of any chunk that waited there; any
    /// other is dropped. Either way the download permit is given back.
    pub fn deliver(&mut self, ticket: usize, bytes: Vec<u8>, intact: bool) -> (r: Result<
        Delivery,
        NotInFlight,
    >)
        requires
            old(self).wf(),
        ensures
            final(self).wf(),
            match r {
                Ok(delivery) => {
                    &&& old(self)@.in_flight.contains(ticket)
                    &&& final(self)@ == old(self)@.after_delivery(ticket, bytes@, intact)
                    &&& delivery == if intact {
                        Delivery::Buffered
                    } else {
                        Delivery::Abandoned
                    }
                },
                Err(_) => !old(self)@.in_flight.contains(ticket) && final(self)@ == old(self)@,
            },
    {
        let at = match self.flight_position(ticket) {
            Some(at) => at,
            None => {
                return Err(NotInFlight {  });
            },
        };
        let ghost pre = self@;
        assert(pre.in_flight.contains(ticket));
        assert(ticket < self.admitted);
        proof {
            pre.lemma_delivery_keeps_valid(ticket, bytes@, intact);
        }
        self.in_flight.remove(at);
        if !intact {
            self.abandoned = self.abandoned + 1;
            assert(self@ == pre.after_delivery(ticket, bytes@, intact));
            return Ok(Delivery::Abandoned);
        }
        let chunk = &self.chunks[ticket];
        assert(pre.manifest[ticket as int] == chunk@);
        let key = chunk_key_of(chunk.id, &chunk.sha);
        let ghost content = bytes@;
        let waiting = BufferedChunk { file_path: chunk.file_path.clone(), bytes };
        self.in_buffer.insert(key, waiting);
        self.delivered = Ghost(self.delivered@.insert(ticket as int, content));
        proof {
            let value = (pre.manifest[ticket as int].file_path, content);
            assert(self@.buffered =~= pre.buffered.insert(pre.key(ticket as int), value));
            assert(self@ == pre.after_delivery(ticket, content, intact));
        }
        Ok(Delivery::Buffered)
    }

    /// Takes in a finished download. Unless verification is switched off,
    /// the content is hashed and compared with the hash that the chunk's
    /// identifier carries; a chunk that fails is dropped.
    pub fn download_finished(&mut self, ticket: usize, bytes: Vec<u8>) -> (r: Result<
        Delivery,
        NotInFlight,
    >)
        requires
            old(self).wf(),
        ensures
            final(self).wf(),
            match r {
                Ok(delivery) => {
                    let sound = old(self)@.skip_verify || intact(
                        bytes@,
                        old(self)@.manifest[ticket as int].sha,
                    );
                    &&& old(self)@.in_flight.contains(ticket)
                    &&& final(self)@ == old(self)@.after_delivery(ticket, bytes@, sound)
                    &&& delivery == if sound {
                        Delivery::Buffered
                    } else {
                        Delivery::Abandoned
                    }
                },
                Err(_) => !old(self)@.in_flight.contains(ticket) && final(self)@ == old(self)@,
            },
    {
        if self.flight_position(ticket).is_none() {
            return Err(NotInFlight {  });
        }
        assert(ticket < self.admitted);
        assert(self@.manifest[ticket as int] == self.chunks@[ticket as int]@);
        let sound = self.skip_verify || chunk_is_intact(
            bytes.as_slice(),
            &self.chunks[ticket].sha,
        );
        self.deliver(ticket, bytes, sound)
    }

    /// Hands out the chunk whose turn it is to be written, if it waits in
    /// memory: chunks are written in the order of the manifest and in no
    /// other. The chunk's memory permit is given back.
    pub fn next_write(&mut self) -> (r: Option<WriteStep>)
        requires
            old(self).wf(),
        ensures
            final(self).wf(),
            match r {
                Some(step) => {
                    let turn = old(self)@.written as int;
                    let waiting = old(self)@.buffered[old(self)@.key(turn)];
                    &&& old(self)@.can_write()
                    &&& step.sha@ == old(self)@.manifest[turn].sha
                    &&& step.id == old(self)@.manifest[turn].id
                    &&& step.file_path@ == waiting.0
                    &&& step.bytes@ == waiting.1
                    &&& step.open == !old(self)@.open_files.contains(waiting.0)
                    &&& step.close == old(self)@.last[turn]
                    &&& final(self)@ == old(self)@.after_write()
                },
                None => !old(self)@.can_write() && final(self)@ == old(self)@,
            },
    {
        let ghost pre = self@;
        let ghost turn = self.written as int;
        let ghost queued = queue_items(self.expected);
        let (sha, id, is_last) = match queue_peek(&self.expected) {
            Some(head) => head,
            None => {
                return None;
            },
        };
        assert(queued[0] == (self.chunks@[turn].sha@, self.chunks@[turn].id, self.last@[turn]));
        assert(pre.manifest[turn] == self.chunks@[turn]@);
        let key = chunk_key_of(id, &sha);
        let waiting = match self.in_buffer.remove(&key) {
            Some(waiting) => waiting,
            None => {
                assert(self@ == pre) by {
                    assert(self@.buffered =~= pre.buffered);
                }
                return None;
            },
        };
        proof {
            pre.lemma_write_keeps_valid();
        }
        let _ = queue_remove(&mut self.expected);
        self.written = self.written + 1;
        let open = !self.open_files.contains_key(&waiting.file_path);
        if is_last {
            self.open_files.remove(&waiting.file_path);
        } else {
            self.open_files.insert(waiting.file_path.clone(), ());
        }
        self.appended = Ghost(
            self.appended@.insert(
                waiting.file_path@,
                pre.appended_to(waiting.file_path@) + waiting.bytes@,
            ),
        );
        proof {
            let post = self@;
            assert(post.buffered =~= pre.buffered.remove(key@));
            assert(post.open_files =~= pre.after_write().open_files);
            assert(post == pre.after_write());
            assert(queue_items(self.expected) =~= Seq::new(
                (self.chunks.len() - self.written) as nat,
                |j: int|
                    (
                        self.chunks@[self.written + j].sha@,
                        self.chunks@[self.written + j].id,
                        self.last@[self.written + j],
                    ),
            ));
        }
        Some(WriteStep { sha, id, file_path: waiting.file_path, bytes: waiting.bytes, open, close: is_last })
    }

    /// How the build has ended, or `None` while it can go on: while a
    /// download is in flight, or one may be started, or a chunk can be
    /// written.
    pub fn outcome(&self) -> (r: Option<StepResult>)
        requires
            self.wf(),
        ensures
            r == self@.outcome(),
    {
        let finished = self.is_finished();
        if !finished && !self.is_stalled() {
            return None;
        }
        if self.abandoned > 0 {
            Some(StepResult::Corrupt)
        } else if finished {
            Some(StepResult::Done)
        } else {
            Some(StepResult::Failed)
        }
    }

    /// Whether the build can make no further progress although chunks are
    /// still unwritten: no download is in flight, none may be started, and
    /// the chunk whose turn it is does not wait in memory.
    pub fn is_stalled(&self) -> (r: bool)
        requires
            self.wf(),
        ensures
            r == self@.stalled(),
    {
        proof {
            self.lemma_buffer_keys();
        }
        if self.written >= self.chunks.len() || self.in_flight.len() > 0 {
            return false;
        }
        if self.admitted < self.chunks.len() && self.in_flight.len() < self.max_downloads
            && self.in_flight.len() + self.in_buffer.len() < self.max_in_memory {
            return false;
        }
        let turn: usize = self.written;
        assert(self@.manifest[turn as int] == self.chunks@[turn as int]@);
        let key = chunk_key_of(self.chunks[turn].id, &self.chunks[turn].sha);
        !self.in_buffer.contains_key(&key)
    }
}

} // verus!
