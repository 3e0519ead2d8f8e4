//! The grid cursor: pointer-driven snapping to grid-cell centers, the
//! eased visual position that trails the snapped target, and the
//! placement-validity flag the collision pass recomputes each tick.
//!
//! Snapping takes a world position to the center of the grid cell under
//! it.  For an even-sized footprint (a 2x2 structure) the snapped point
//! is shifted by half a tile before and after, so the footprint centers
//! on a cell corner rather than a cell center.

use vstd::prelude::*;

use crate::geom::{coord_ok, floor_div, in_world, Vec2I};
use crate::interpolation::{ease, ease_spec};

verus! {

/// Largest tile size the simulation accepts, in world units.
pub const TILE_LIMIT: i64 = 0x1_0000;

/// Largest wall-clock timestamp, in milliseconds, the cursor reasons about.
pub const TIME_LIMIT: i64 = 0x100_0000_0000;

/// How long the cursor's easing curve takes to settle, in milliseconds.
pub const EASE_TIME_MS: i64 = 1000;

/// Largest magnitude of a raw (unsnapped) world coordinate `snap_axis` accepts.
pub const SNAP_IN_LIMIT: i64 = 0x2000_0000;

/// A valid tile size: positive, even (so half a tile is exact) and bounded.
pub open spec fn tile_ok(tile: int) -> bool {
    2 <= tile <= TILE_LIMIT && tile % 2 == 0
}

/// The center of the grid cell containing coordinate `p`:
/// floor to a multiple of the tile size, then half a tile up.
pub open spec fn snap_axis_spec(p: int, tile: int) -> int {
    (p / tile) * tile + tile / 2
}

/// The snapped coordinate for an even-sized footprint: half a tile is
/// taken off before snapping and added back after, which lands the
/// result on a cell corner.
pub open spec fn snap_axis_even_spec(p: int, tile: int) -> int {
    snap_axis_spec(p - tile / 2, tile) + tile / 2
}

/// The snapped coordinate for a footprint of `sel` cells per side.
pub open spec fn snap_target_spec(p: int, tile: int, sel: int) -> int {
    if sel % 2 == 0 {
        snap_axis_even_spec(p, tile)
    } else {
        snap_axis_spec(p, tile)
    }
}

/// Snap one coordinate to the center of its grid cell.
pub fn snap_axis(p: i64, tile: i64) -> (r: i64)
    requires
        tile_ok(tile as int),
        -SNAP_IN_LIMIT <= p <= SNAP_IN_LIMIT,
    ensures
        r == snap_axis_spec(p as int, tile as int),
        p - tile < r < p + tile,
{
    let q: i64 = floor_div(p, tile);
    proof {
        vstd::arithmetic::mul::lemma_mul_is_commutative(q as int, tile as int);
        assert(p - tile < q * tile <= p);
    }
    q * tile + tile / 2
}

/// Snap one coordinate for a footprint of `sel` cells per side: an even
/// footprint centers on a cell corner, an odd one on a cell center.
pub fn snap_target(p: i64, tile: i64, sel: i64) -> (r: i64)
    requires
        tile_ok(tile as int),
        0 <= sel <= 4,
        -SNAP_IN_LIMIT + TILE_LIMIT <= p <= SNAP_IN_LIMIT - TILE_LIMIT,
    ensures
        r == snap_target_spec(p as int, tile as int, sel as int),
        p - 2 * tile < r < p + 2 * tile,
{
    if sel % 2 == 0 {
        snap_axis(p - tile / 2, tile) + tile / 2
    } else {
        snap_axis(p, tile)
    }
}

/// Snapping is idempotent, and the snapped coordinate is exactly
/// tile-aligned: a cell center for the plain snap, a cell corner for
/// the even-footprint snap.
pub proof fn lemma_snap_idempotent(p: int, tile: int)
    requires
        tile_ok(tile),
    ensures
        snap_axis_spec(snap_axis_spec(p, tile), tile) == snap_axis_spec(p, tile),
        snap_axis_even_spec(snap_axis_even_spec(p, tile), tile) == snap_axis_even_spec(p, tile),
        (snap_axis_spec(p, tile) - tile / 2) % tile == 0,
        snap_axis_even_spec(p, tile) % tile == 0,
{
    let q = p / tile;
    let h = tile / 2;
    assert(0 <= h < tile);
    // Plain snap: the snapped point sits h above the multiple q * tile,
    // so snapping it again recovers the same cell index q.
    assert((tile * q + h) / tile == q) by {
        vstd::arithmetic::div_mod::lemma_div_multiples_vanish_fancy(q, h, tile);
    }
    assert(snap_axis_spec(p, tile) == q * tile + h);
    assert(q * tile == tile * q) by {
        vstd::arithmetic::mul::lemma_mul_is_commutative(q, tile);
    }
    assert((q * tile + h) / tile == q);
    assert(snap_axis_spec(snap_axis_spec(p, tile), tile) == q * tile + h);
    assert((q * tile + h - h) % tile == 0) by {
        vstd::arithmetic::div_mod::lemma_mod_multiples_basic(q, tile);
    }
    // Even-footprint snap: the snapped point is the exact multiple
    // (q2 + 1) * tile, a cell corner.
    let q2 = (p - h) / tile;
    assert(snap_axis_even_spec(p, tile) == q2 * tile + h + h);
    assert(q2 * tile + h + h == (q2 + 1) * tile) by {
        vstd::arithmetic::mul::lemma_mul_is_distributive_add_other_way(tile, q2, 1);
        assert(h + h == tile);
    }
    assert(((q2 + 1) * tile) % tile == 0) by {
        vstd::arithmetic::div_mod::lemma_mod_multiples_basic(q2 + 1, tile);
    }
    // Snapping the corner point again: its cell index is q2 + 1 with
    // offset -h, i.e. tile * (q2) + h... recompute directly.
    let s = (q2 + 1) * tile;
    assert((s - h) / tile == q2) by {
        assert(s - h == tile * q2 + h) by {
            vstd::arithmetic::mul::lemma_mul_is_distributive_add_other_way(tile, q2, 1);
            vstd::arithmetic::mul::lemma_mul_is_commutative(q2, tile);
        }
        vstd::arithmetic::div_mod::lemma_div_multiples_vanish_fancy(q2, h, tile);
    }
    assert(snap_axis_even_spec(s, tile) == q2 * tile + h + h);
}

/// Linear interpolation of one coordinate from `prev` toward `target`
/// by the fraction `f / 1000`, rounding the offset toward zero.
pub open spec fn lerp_axis_spec(prev: int, target: int, f: int) -> int {
    if target >= prev {
        prev + ((target - prev) * f) / 1000
    } else {
        prev - ((prev - target) * f) / 1000
    }
}

/// The grid cursor's state: the placement-validity flag, the most
/// recently computed snapped target, the wall-clock anchor of the
/// easing curve (milliseconds), the footprint of the held placeable in
/// grid cells per side (0 while nothing is held), and the eased visual
/// position that trails the target.
pub struct GridCursor {
    pub can_place: bool,
    pub last_target_pos: Vec2I,
    pub last_sample: i64,
    pub selection_size: i64,
    pub visual_pos: Vec2I,
}

impl GridCursor {
    /// The cursor's state is within the bounds the simulation reasons about.
    pub open spec fn wf(self) -> bool {
        &&& in_world(self.last_target_pos)
        &&& in_world(self.visual_pos)
        &&& -100 <= self.last_sample <= TIME_LIMIT
        &&& 0 <= self.selection_size <= 4
    }

    /// A fresh cursor at the origin, holding nothing.
    pub fn new() -> (c: GridCursor)
        ensures
            c.wf(),
            !c.can_place,
            c.last_target_pos == (Vec2I { x: 0, y: 0 }),
            c.visual_pos == (Vec2I { x: 0, y: 0 }),
            c.last_sample == 0,
            c.selection_size == 0,
    {
        GridCursor {
            can_place: false,
            last_target_pos: Vec2I { x: 0, y: 0 },
            last_sample: 0,
            selection_size: 0,
            visual_pos: Vec2I { x: 0, y: 0 },
        }
    }

    /// The easing anchor after one movement tick that computed the
    /// snapped target `(tx, ty)` at time `now`: the anchor resets to
    /// `now` when the visual position already sits on the target, and
    /// is pulled halfway toward `now` (less a small bias, so the curve
    /// starts just past its beginning) when the target changed.
    pub open spec fn next_sample_spec(self, tx: int, ty: int, now: int) -> int {
        let ls1 = if self.visual_pos.x == tx && self.visual_pos.y == ty {
            now
        } else {
            self.last_sample as int
        };
        if self.last_target_pos.x != tx || self.last_target_pos.y != ty {
            (ls1 + now) / 2 - 50
        } else {
            ls1
        }
    }

    /// The cursor after one movement tick: frozen without a pointer;
    /// otherwise the snapped target is recomputed from the pointer's
    /// world position (window center to the camera), the easing anchor
    /// follows `next_sample_spec`, and the visual position moves from
    /// where it was toward the new target by the eased fraction of the
    /// time since the anchor.  The validity flag and the footprint are
    /// left alone.
    pub open spec fn moved_cursor_spec(
        self,
        pointer: Option<Vec2I>,
        window: Vec2I,
        camera: Vec2I,
        now: int,
        tile: int,
    ) -> GridCursor {
        if pointer is None {
            self
        } else {
            let p = pointer->Some_0;
            let wx = p.x - window.x / 2 + camera.x;
            let wy = p.y - window.y / 2 + camera.y;
            let tx = snap_target_spec(wx as int, tile, self.selection_size as int);
            let ty = snap_target_spec(wy as int, tile, self.selection_size as int);
            let ls = self.next_sample_spec(tx, ty, now);
            let f = ease_spec(now - ls, EASE_TIME_MS as int);
            GridCursor {
                last_target_pos: Vec2I { x: tx as i64, y: ty as i64 },
                last_sample: ls as i64,
                visual_pos: Vec2I {
                    x: lerp_axis_spec(self.visual_pos.x as int, tx, f) as i64,
                    y: lerp_axis_spec(self.visual_pos.y as int, ty, f) as i64,
                },
                ..self
            }
        }
    }

    /// One movement tick.  `pointer` is the pointer position in window
    /// coordinates (`None` when the pointer is outside the window, which
    /// freezes the cursor), `window` the window size, `camera` the camera
    /// offset, `now` the wall-clock time in milliseconds and `tile` the
    /// grid tile size.  The snapped target is recomputed from the
    /// pointer's world position; the visual position eases from where it
    /// was toward the target; the validity flag is left for the
    /// collision pass.
    pub fn move_cursor(
        &mut self,
        pointer: Option<Vec2I>,
        window: Vec2I,
        camera: Vec2I,
        now: i64,
        tile: i64,
    )
        requires
            old(self).wf(),
            tile_ok(tile as int),
            0 <= now <= TIME_LIMIT,
            pointer is Some ==> {
                let p = pointer->Some_0;
                0 <= p.x <= 0x1_0000 && 0 <= p.y <= 0x1_0000
            },
            0 <= window.x <= 0x1_0000,
            0 <= window.y <= 0x1_0000,
            -0x400_0000 <= camera.x <= 0x400_0000,
            -0x400_0000 <= camera.y <= 0x400_0000,
        ensures
            final(self).wf(),
            *final(self) == old(self).moved_cursor_spec(
                pointer,
                window,
                camera,
                now as int,
                tile as int,
            ),
    {
        let p = match pointer {
            Some(p) => p,
            None => {
                return ;
            },
        };
        let wx: i64 = p.x - window.x / 2 + camera.x;
        let wy: i64 = p.y - window.y / 2 + camera.y;
        let tx: i64 = snap_target(wx, tile, self.selection_size);
        let ty: i64 = snap_target(wy, tile, self.selection_size);

        let prev = self.visual_pos;
        if prev.x == tx && prev.y == ty {
            self.last_sample = now;
        }
        if self.last_target_pos.x != tx || self.last_target_pos.y != ty {
            self.last_target_pos = Vec2I { x: tx, y: ty };
            self.last_sample = floor_div(self.last_sample + now, 2) - 50;
        }

        let dt: i64 = now - self.last_sample;
        let f: i64 = ease(dt, EASE_TIME_MS);
        self.visual_pos = Vec2I {
            x: lerp_axis(prev.x, tx, f),
            y: lerp_axis(prev.y, ty, f),
        };
    }
}

/// Move one coordinate from `prev` toward `target` by the easing
/// fraction `f / 1000`; the result stays between the two.
fn lerp_axis(prev: i64, target: i64, f: i64) -> (r: i64)
    requires
        coord_ok(prev as int),
        -0x1000_0000 <= target <= 0x1000_0000,
        0 <= f <= 1000,
    ensures
        r == lerp_axis_spec(prev as int, target as int, f as int),
        prev <= target ==> prev <= r <= target,
        target <= prev ==> target <= r <= prev,
{
    if target >= prev {
        let delta: i64 = target - prev;
        proof {
            assert(0 <= delta * f <= 0x3000_0000 * 1000) by (nonlinear_arith)
                requires
                    0 <= delta <= 0x3000_0000,
                    0 <= f <= 1000,
            ;
        }
        let off: i64 = (delta * f) / 1000;
        proof {
            lemma_scaled_fraction_bounded(delta as int, f as int);
        }
        prev + off
    } else {
        let delta: i64 = prev - target;
        proof {
            assert(0 <= delta * f <= 0x3000_0000 * 1000) by (nonlinear_arith)
                requires
                    0 <= delta <= 0x3000_0000,
                    0 <= f <= 1000,
            ;
        }
        let off: i64 = (delta * f) / 1000;
        proof {
            lemma_scaled_fraction_bounded(delta as int, f as int);
        }
        prev - off
    }
}

/// Scaling a non-negative quantity by a fraction of at most one keeps
/// the result between zero and the quantity.
proof fn lemma_scaled_fraction_bounded(delta: int, f: int)
    requires
        0 <= delta,
        0 <= f <= 1000,
    ensures
        0 <= (delta * f) / 1000 <= delta,
{
    vstd::arithmetic::mul::lemma_mul_inequality(f, 1000, delta);
    vstd::arithmetic::mul::lemma_mul_is_commutative(delta, f);
    vstd::arithmetic::mul::lemma_mul_is_commutative(delta, 1000);
    vstd::arithmetic::div_mod::lemma_div_pos_is_pos(delta * f, 1000);
    vstd::arithmetic::div_mod::lemma_div_is_ordered(delta * f, delta * 1000, 1000);
    vstd::arithmetic::div_mod::lemma_div_by_multiple(delta, 1000);
}

} // verus!
