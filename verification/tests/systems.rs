use abura::advance_frame;

/// The spritesheet frame a clip shows after one tick (as the animation
/// system does it: step when the interval elapsed, then look the frame up).
fn tick(frames: &Vec<u32>, index: usize, looping: bool, elapsed: bool) -> (usize, u32) {
    let i = if elapsed { advance_frame(index, frames.len(), looping) } else { index };
    (i, frames[i])
}

#[test]
fn animation_advances_to_next_frame() {
    let frames = vec![0, 1, 2];
    assert_eq!(tick(&frames, 0, true, true), (1, 1));
}

#[test]
fn animation_stays_when_interval_not_elapsed() {
    let frames = vec![7, 8, 9];
    assert_eq!(tick(&frames, 1, true, false), (1, 8));
}

#[test]
fn looping_clip_wraps_to_first_frame() {
    let frames = vec![0, 1, 2];
    let (i1, f1) = tick(&frames, 0, true, true);
    let (i2, f2) = tick(&frames, i1, true, true);
    let (i3, f3) = tick(&frames, i2, true, true);
    assert_eq!((f1, f2, f3), (1, 2, 0));
    assert_eq!(i3, 0);
}

#[test]
fn non_looping_clip_clamps_at_last_frame() {
    let frames = vec![3, 4];
    let (i1, f1) = tick(&frames, 0, false, true);
    let (i2, f2) = tick(&frames, i1, false, true);
    let (i3, f3) = tick(&frames, i2, false, true);
    assert_eq!((f1, f2, f3), (4, 4, 4));
    assert_eq!(i3, 1);
}

#[test]
fn advance_frame_cases() {
    assert_eq!(advance_frame(0, 3, false), 1);
    assert_eq!(advance_frame(2, 3, true), 0);
    assert_eq!(advance_frame(2, 3, false), 2);
    assert_eq!(advance_frame(0, 1, true), 0);
}

#[test]
fn looping_clip_after_k_intervals_shows_k_mod_n() {
    let n = 4usize;
    let mut i = 0usize;
    for k in 1..=11usize {
        i = advance_frame(i, n, true);
        assert_eq!(i, k % n);
    }
}

#[test]
fn non_looping_clip_after_k_intervals_stops_on_last() {
    let n = 3usize;
    let mut i = 0usize;
    for k in 1..=7usize {
        i = advance_frame(i, n, false);
        assert_eq!(i, k.min(n - 1));
    }
}
