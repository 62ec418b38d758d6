use vstd::prelude::*;

verus! {

/// The frame index after one elapsed frame interval: the next frame if the
/// clip has one; otherwise back to the first frame for a looping clip, or
/// staying on the last frame for a clip that does not loop.
pub open spec fn next_frame_index(frame_index: int, frame_count: int, looping: bool) -> int {
    if frame_index + 1 < frame_count {
        frame_index + 1
    } else if looping {
        0
    } else {
        frame_index
    }
}

/// The frame index after `k` elapsed frame intervals.
pub open spec fn frame_index_after(frame_index: int, frame_count: int, looping: bool, k: nat) -> int
    decreases k,
{
    if k == 0 {
        frame_index
    } else {
        next_frame_index(
            frame_index_after(frame_index, frame_count, looping, (k - 1) as nat),
            frame_count,
            looping,
        )
    }
}

/// Advances an animation by one frame interval (see [`next_frame_index`]).
pub fn advance_frame(frame_index: usize, frame_count: usize, looping: bool) -> (r: usize)
    requires
        frame_index < usize::MAX,
    ensures
        r == next_frame_index(frame_index as int, frame_count as int, looping),
{
    let next = frame_index + 1;
    if next < frame_count {
        next
    } else if looping {
        0
    } else {
        frame_index
    }
}

/// Stepping keeps a valid frame index valid.
pub proof fn lemma_next_frame_in_range(frame_index: int, frame_count: int, looping: bool)
    requires
        0 <= frame_index < frame_count,
    ensures
        0 <= next_frame_index(frame_index, frame_count, looping) < frame_count,
{
}

/// A looping clip of `n` frames started on its first frame shows frame
/// `k % n` after `k` intervals: it cycles through every frame and wraps back
/// to the first.
pub proof fn lemma_looping_cycles(frame_count: int, k: nat)
    requires
        frame_count > 0,
    ensures
        frame_index_after(0, frame_count, true, k) == (k as int) % frame_count,
    decreases k,
{
    if k == 0 {
        assert(0int % frame_count == 0) by (nonlinear_arith)
            requires
                frame_count > 0,
        ;
    } else {
        lemma_looping_cycles(frame_count, (k - 1) as nat);
        let prev = (k - 1) as int;
        assert((prev + 1) % frame_count == (if prev % frame_count + 1 < frame_count {
            prev % frame_count + 1
        } else {
            0
        })) by (nonlinear_arith)
            requires
                frame_count > 0,
                prev >= 0,
        ;
        assert(frame_index_after(0, frame_count, true, k) == next_frame_index(
            frame_index_after(0, frame_count, true, (k - 1) as nat),
            frame_count,
            true,
        ));
    }
}

/// A clip that does not loop, started on its first frame, shows frame
/// `min(k, n - 1)` after `k` intervals: it stops on its last frame.
pub proof fn lemma_non_looping_clamps(frame_count: int, k: nat)
    requires
        frame_count > 0,
    ensures
        frame_index_after(0, frame_count, false, k) == (if k < frame_count {
            k as int
        } else {
            frame_count - 1
        }),
    decreases k,
{
    if k > 0 {
        lemma_non_looping_clamps(frame_count, (k - 1) as nat);
    }
}

} // verus!
