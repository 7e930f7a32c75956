//! Why a build comes to an end. Every move of the pipeline brings it one
//! step nearer to its end, and as long as no download is dropped there is
//! always a move to make: a download to wait for, a chunk to hand out, or a
//! chunk to write.

use crate::pipeline::{distinct_chunk_keys, PipelineView};
use vstd::prelude::*;

verus! {

/// How many moves a build is away from its end, if no download is dropped:
/// each chunk is handed out, taken in and written.
pub open spec fn steps_left(state: PipelineView) -> int {
    3 * state.manifest.len() - 2 * state.admitted - state.written + state.in_flight.len()
}

/// A build is never further from its end than three moves for each chunk,
/// and one whose chunks are all written has no move left to make.
pub proof fn lemma_steps_left_bounds(state: PipelineView)
    requires
        state.valid(),
    ensures
        0 <= steps_left(state) <= 3 * state.manifest.len(),
        state.finished() ==> steps_left(state) == 0 && state.held() == 0,
{
}

/// Handing out a chunk for download brings the build one step nearer to
/// its end.
pub proof fn lemma_admit_is_a_step(state: PipelineView)
    requires
        state.valid(),
        state.can_admit(),
    ensures
        steps_left(state.after_admit()) == steps_left(state) - 1,
{
}

/// Taking in a finished download, intact or not, brings the build one step
/// nearer to its end.
pub proof fn lemma_delivery_is_a_step(
    state: PipelineView,
    ticket: usize,
    bytes: Seq<u8>,
    intact: bool,
)
    requires
        state.valid(),
        state.in_flight.contains(ticket),
    ensures
        steps_left(state.after_delivery(ticket, bytes, intact)) == steps_left(state) - 1,
{
    let at = state.in_flight.index_of(ticket);
    assert(0 <= at < state.in_flight.len());
}

/// Handing out a chunk for writing brings the build one step nearer to its
/// end.
pub proof fn lemma_write_is_a_step(state: PipelineView)
    requires
        state.valid(),
        state.can_write(),
    ensures
        steps_left(state.after_write()) == steps_left(state) - 1,
{
}

/// A build that has room for one download and for one chunk in memory, and
/// in which no two chunks share a key, does not stall unless a download was
/// dropped: until every chunk is written, a download is in flight, or a
/// chunk may be handed out for download, or the chunk whose turn it is can
/// be written.
pub proof fn lemma_build_goes_on(state: PipelineView)
    requires
        state.valid(),
        distinct_chunk_keys(state.manifest),
        state.max_downloads >= 1,
        state.max_in_memory >= 1,
        state.abandoned == 0,
    ensures
        !state.stalled(),
{
    if !state.finished() && state.in_flight.len() == 0 && !state.can_write() {
        let turn = state.written as int;
        if state.written < state.admitted {
            assert(state.in_flight.contains(turn as usize) || state.delivered.contains_key(turn));
            assert(state.buffered.contains_key(state.key(turn)));
        }
        assert(state.written == state.admitted);
        assert forall|k: Seq<char>| !state.buffered.contains_key(k) by {
            if state.buffered.contains_key(k) {
                let t = choose|t: int|
                    0 <= t < state.admitted && #[trigger] state.key(t) == k && state.buffered[k].0
                        == state.manifest[t].file_path && state.delivered.contains_key(t)
                        && state.buffered[k].1 == state.delivered[t];
                assert(!state.buffered.contains_key(state.key(t)));
            }
        }
        assert(state.buffered.dom() =~= Set::empty());
        assert(state.can_admit());
    }
}

} // verus!
