//! What the simulation hands to the heads-up display: the grid cell
//! under the pointer, and the marker types the presentation layer
//! attaches to its two text readouts.

use vstd::prelude::*;

use crate::cursor::tile_ok;
use crate::geom::{floor_div, Vec2I};

verus! {

/// Marker for the status readout that shows the selected item and the
/// pointed-at grid cell.
pub struct GUIText;

/// Marker for the frame-rate readout.
pub struct FPSText;

/// The grid cell under the pointer, as whole cell indices: the
/// pointer's window position taken to world space (window center to
/// the camera) and divided down by the tile size.
pub fn scoreboard_cell(pointer: Vec2I, window: Vec2I, camera: Vec2I, tile: i64) -> (c: Vec2I)
    requires
        tile_ok(tile as int),
        0 <= pointer.x <= 0x1_0000,
        0 <= pointer.y <= 0x1_0000,
        0 <= window.x <= 0x1_0000,
        0 <= window.y <= 0x1_0000,
        -0x400_0000 <= camera.x <= 0x400_0000,
        -0x400_0000 <= camera.y <= 0x400_0000,
    ensures
        c.x == (pointer.x - window.x / 2 + camera.x) as int / tile as int,
        c.y == (pointer.y - window.y / 2 + camera.y) as int / tile as int,
{
    let wx: i64 = pointer.x - window.x / 2 + camera.x;
    let wy: i64 = pointer.y - window.y / 2 + camera.y;
    Vec2I { x: floor_div(wx, tile), y: floor_div(wy, tile) }
}

} // verus!
