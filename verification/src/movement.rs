//! Directions of movement, from the pressed keys or from the side of a
//! destination.

use vstd::prelude::*;

verus! {

/// The direction on one axis: -1, 0 or 1.
pub open spec fn axis_value(negative: bool, positive: bool) -> int {
    (if positive {
        1int
    } else {
        0int
    }) - (if negative {
        1int
    } else {
        0int
    })
}

/// The direction on each axis, from what lies (or is pressed) on each side,
/// and whether the move is diagonal (its speed is then scaled down on both
/// axes).
pub fn movement_axes(up: bool, down: bool, left: bool, right: bool) -> (r: (i8, i8, bool))
    ensures
        r.0 == axis_value(left, right),
        r.1 == axis_value(down, up),
        r.2 == (r.0 != 0 && r.1 != 0),
{
    let x_axis: i8 = (right as i8) - (left as i8);
    let y_axis: i8 = (up as i8) - (down as i8);
    (x_axis, y_axis, x_axis != 0 && y_axis != 0)
}

} // verus!
