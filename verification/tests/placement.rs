use vesktop_voice_overlay::placement::{placement_for, Placement};

#[test]
fn corner_presets_sit_twenty_pixels_from_their_edges() {
    let p = placement_for("bottom-left", 5, 5);
    assert_eq!(
        p,
        Placement {
            top: false,
            bottom: true,
            left: true,
            right: false,
            margin_top: 0,
            margin_bottom: 20,
            margin_left: 20,
            margin_right: 0,
        }
    );
    let p = placement_for("top-left", 0, 0);
    assert!(p.top && p.left && !p.bottom && !p.right);
    assert_eq!((p.margin_top, p.margin_left), (20, 20));
    let p = placement_for("bottom-right", 0, 0);
    assert!(p.bottom && p.right && !p.top && !p.left);
}

#[test]
fn center_leaves_every_edge_unanchored() {
    let p = placement_for("center", 7, 9);
    assert!(!p.top && !p.bottom && !p.left && !p.right);
    assert_eq!((p.margin_top, p.margin_bottom, p.margin_left, p.margin_right), (0, 0, 0, 0));
}

#[test]
fn custom_uses_the_given_offsets_from_the_top_left() {
    let p = placement_for("custom", 2000, 400);
    assert!(p.top && p.left && !p.bottom && !p.right);
    assert_eq!((p.margin_left, p.margin_top), (2000, 400));
}

#[test]
fn unknown_positions_fall_back_to_top_right() {
    assert_eq!(placement_for("nowhere", 1, 1), placement_for("top-right", 3, 3));
    let p = placement_for("top-right", 0, 0);
    assert!(p.top && p.right && !p.bottom && !p.left);
    assert_eq!((p.margin_top, p.margin_right), (20, 20));
}
