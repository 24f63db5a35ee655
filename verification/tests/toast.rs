use skills::ui::{toast_area, Area};

#[test]
fn toast_sits_bottom_right() {
    assert_eq!(toast_area("✓ 已删除", 80, 24), Area { x: 71, y: 22, width: 9, height: 1 });
}

#[test]
fn toast_is_clipped_to_the_screen() {
    assert_eq!(toast_area("a long message", 10, 1), Area { x: 0, y: 0, width: 10, height: 1 });
}

#[test]
fn dialog_box_is_centred() {
    let r = skills::ui::centered_rect(44, 24, Area { x: 0, y: 0, width: 100, height: 40 });
    assert_eq!(r, Area { x: 28, y: 8, width: 44, height: 24 });
}

#[test]
fn dialog_box_is_clipped_to_a_small_screen() {
    let r = skills::ui::centered_rect(52, 60, Area { x: 0, y: 0, width: 40, height: 20 });
    assert_eq!(r, Area { x: 0, y: 0, width: 40, height: 20 });
}
