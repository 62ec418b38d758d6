use abura::{Animator, SpriteSheet, Tag};

#[test]
fn tag_equality() {
    assert_eq!(Tag(42), Tag(42));
    assert_ne!(Tag(1), Tag(2));
}

#[test]
fn spritesheet_frame_uv_first_frame() {
    let sheet = SpriteSheet { frame_width: 32, frame_height: 32, columns: 4, rows: 2 };
    let (x, y, w, h) = sheet.frame_pixel_rect(0);
    assert_eq!((x, y, w, h), (0, 0, 32, 32));
}

#[test]
fn spritesheet_frame_uv_mid_frame() {
    let sheet = SpriteSheet { frame_width: 32, frame_height: 32, columns: 4, rows: 2 };
    let (x, y, w, h) = sheet.frame_pixel_rect(5);
    assert_eq!((x, y, w, h), (32, 32, 32, 32));
}

#[test]
fn frame_pixel_rect_uses_each_dimension() {
    let sheet = SpriteSheet { frame_width: 10, frame_height: 20, columns: 3, rows: 5 };
    assert_eq!(sheet.frame_pixel_rect(7), (10, 40, 10, 20));
}

#[test]
fn animator_play_same_clip_does_not_reset() {
    let mut anim: Animator<Vec<u32>> = Animator::new();
    anim.add_clip("run", vec![0, 1, 2]);
    assert!(anim.play("run"));
    anim.frame_index = 2;
    assert!(!anim.play("run"));
    assert_eq!(anim.frame_index, 2);
}

#[test]
fn animator_switching_clip_restarts() {
    let mut anim: Animator<Vec<u32>> = Animator::default();
    anim.add_clip("run", vec![0, 1, 2]);
    anim.add_clip("die", vec![3, 4]);
    anim.play("run");
    anim.frame_index = 2;
    assert!(anim.play("die"));
    assert_eq!(anim.frame_index, 0);
    assert_eq!(anim.current_clip(), Some(&vec![3, 4]));
}

#[test]
fn animator_without_clip_has_no_current_clip() {
    let mut anim: Animator<Vec<u32>> = Animator::new();
    assert_eq!(anim.current_clip(), None);
    anim.add_clip("run", vec![0]);
    anim.play("walk");
    assert_eq!(anim.current_clip(), None);
    anim.play("run");
    assert_eq!(anim.current_clip(), Some(&vec![0]));
}
