//! Where the layer-shell surface goes for each position preset: which screen
//! edges it is anchored to and the margins from them.
use vstd::prelude::*;

use crate::text::str_eq;

verus! {

/// Anchors and margins of the overlay surface.
#[derive(Clone, Copy, Debug, PartialEq, Eq, Structural)]
pub struct Placement {
    pub top: bool,
    pub bottom: bool,
    pub left: bool,
    pub right: bool,
    pub margin_top: i32,
    pub margin_bottom: i32,
    pub margin_left: i32,
    pub margin_right: i32,
}

/// Distance from the anchored edges for the corner presets.
pub const EDGE_MARGIN: i32 = 20;

/// Anchored to the given edges, with the given margins on them and none elsewhere.
pub open spec fn anchored(top: bool, bottom: bool, left: bool, right: bool, mt: i32, mb: i32, ml: i32, mr: i32) -> Placement {
    Placement { top, bottom, left, right, margin_top: mt, margin_bottom: mb, margin_left: ml, margin_right: mr }
}

/// The placement for a position name: the four corners sit 20 pixels from
/// their edges, `center` leaves every edge unanchored so the compositor
/// centers the surface, `custom` places the top-left corner at the given
/// offsets, and any other name falls back to `top-right`.
pub open spec fn spec_placement(position: Seq<char>, custom_x: i32, custom_y: i32) -> Placement {
    if position == "top-left"@ {
        anchored(true, false, true, false, 20, 0, 20, 0)
    } else if position == "bottom-left"@ {
        anchored(false, true, true, false, 0, 20, 20, 0)
    } else if position == "bottom-right"@ {
        anchored(false, true, false, true, 0, 20, 0, 20)
    } else if position == "center"@ {
        anchored(false, false, false, false, 0, 0, 0, 0)
    } else if position == "custom"@ {
        anchored(true, false, true, false, custom_y, 0, custom_x, 0)
    } else {
        anchored(true, false, false, true, 20, 0, 0, 20)
    }
}

/// Computes the placement for a position preset.
pub fn placement_for(position: &str, custom_x: i32, custom_y: i32) -> (res: Placement)
    ensures
        res == spec_placement(position@, custom_x, custom_y),
{
    proof {
        reveal_strlit("top-left");
        reveal_strlit("bottom-left");
        reveal_strlit("bottom-right");
        reveal_strlit("center");
        reveal_strlit("custom");
    }
    let none = Placement {
        top: false,
        bottom: false,
        left: false,
        right: false,
        margin_top: 0,
        margin_bottom: 0,
        margin_left: 0,
        margin_right: 0,
    };
    if str_eq(position, "top-left") {
        Placement { top: true, left: true, margin_top: EDGE_MARGIN, margin_left: EDGE_MARGIN, ..none }
    } else if str_eq(position, "bottom-left") {
        Placement { bottom: true, left: true, margin_bottom: EDGE_MARGIN, margin_left: EDGE_MARGIN, ..none }
    } else if str_eq(position, "bottom-right") {
        Placement { bottom: true, right: true, margin_bottom: EDGE_MARGIN, margin_right: EDGE_MARGIN, ..none }
    } else if str_eq(position, "center") {
        none
    } else if str_eq(position, "custom") {
        Placement { top: true, left: true, margin_top: custom_y, margin_left: custom_x, ..none }
    } else {
        Placement { top: true, right: true, margin_top: EDGE_MARGIN, margin_right: EDGE_MARGIN, ..none }
    }
}

/// Law: each corner preset anchors the surface to exactly that corner's two
/// edges, `EDGE_MARGIN` pixels from each, with no margin elsewhere; `center`
/// anchors nothing; `custom` puts the top-left corner at the given offsets;
/// an unknown name places it as `top-right`. The offsets matter only for
/// `custom`.
pub proof fn lemma_placement_presets(x: i32, y: i32, other: Seq<char>)
    requires
        other != "top-left"@,
        other != "bottom-left"@,
        other != "bottom-right"@,
        other != "center"@,
        other != "custom"@,
    ensures
        ({
            let p = spec_placement("top-left"@, x, y);
            p.top && p.left && !p.bottom && !p.right && p.margin_top == EDGE_MARGIN
                && p.margin_left == EDGE_MARGIN && p.margin_bottom == 0 && p.margin_right == 0
        }),
        ({
            let p = spec_placement("top-right"@, x, y);
            p.top && p.right && !p.bottom && !p.left && p.margin_top == EDGE_MARGIN
                && p.margin_right == EDGE_MARGIN && p.margin_bottom == 0 && p.margin_left == 0
        }),
        ({
            let p = spec_placement("bottom-left"@, x, y);
            p.bottom && p.left && !p.top && !p.right && p.margin_bottom == EDGE_MARGIN
                && p.margin_left == EDGE_MARGIN && p.margin_top == 0 && p.margin_right == 0
        }),
        ({
            let p = spec_placement("bottom-right"@, x, y);
            p.bottom && p.right && !p.top && !p.left && p.margin_bottom == EDGE_MARGIN
                && p.margin_right == EDGE_MARGIN && p.margin_top == 0 && p.margin_left == 0
        }),
        ({
            let p = spec_placement("center"@, x, y);
            !p.top && !p.bottom && !p.left && !p.right && p.margin_top == 0 && p.margin_bottom == 0
                && p.margin_left == 0 && p.margin_right == 0
        }),
        ({
            let p = spec_placement("custom"@, x, y);
            p.top && p.left && !p.bottom && !p.right && p.margin_top == y && p.margin_left == x
                && p.margin_bottom == 0 && p.margin_right == 0
        }),
        spec_placement(other, x, y) == spec_placement("top-right"@, x, y),
        spec_placement(other, x, y) == spec_placement(other, 0, 0),
        EDGE_MARGIN == 20,
{
    reveal_strlit("top-left");
    reveal_strlit("top-right");
    reveal_strlit("bottom-left");
    reveal_strlit("bottom-right");
    reveal_strlit("center");
    reveal_strlit("custom");
    assert("top-right"@[0] != "bottom-left"@[0]);
    assert("top-right"@[0] != "bottom-right"@[0]);
    assert("top-right"@[0] != "center"@[0]);
    assert("top-right"@[0] != "custom"@[0]);
    assert("top-right"@[4] != "top-left"@[4]);
    assert("bottom-left"@[0] != "top-left"@[0]);
    assert("bottom-left"@[7] != "bottom-right"@[7]);
    assert("bottom-left"@[0] != "center"@[0]);
    assert("bottom-right"@[0] != "top-left"@[0]);
    assert("bottom-right"@[0] != "center"@[0]);
    assert("center"@[0] != "top-left"@[0]);
    assert("center"@[1] != "custom"@[1]);
    assert("custom"@[0] != "top-left"@[0]);
    assert("custom"@[0] != "bottom-left"@[0]);
    assert("custom"@[0] != "bottom-right"@[0]);
}

} // verus!
