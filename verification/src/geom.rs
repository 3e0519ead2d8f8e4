//! Integer plane geometry: 2D vectors, grid-aligned boxes and the
//! axis-aligned bounding-box overlap test that every collision query
//! in the simulation goes through.
//!
//! All positions and sizes are integer world units.  Boxes are given by
//! a center and a size; to avoid halving a possibly odd size, the
//! overlap predicates work on doubled coordinates (`2 * center - size`
//! is twice the box minimum), which is exact.

use vstd::prelude::*;

verus! {

/// Largest magnitude any world coordinate handled by the simulation may take.
pub const COORD_LIMIT: i64 = 0x800_0000;

/// Largest magnitude a box size may take.
pub const SIZE_LIMIT: i64 = 0x4_0000;

/// A point or extent in the integer world plane.
#[derive(Clone, Copy, Debug, PartialEq, Eq, Structural)]
pub struct Vec2I {
    pub x: i64,
    pub y: i64,
}

/// Which side of box `b` box `a` sticks out of, for a shallowest-penetration
/// collision report, or `Inside` when `a` overhangs no single side.
#[derive(Clone, Copy, Debug, PartialEq, Eq, Structural)]
pub enum Side {
    Left,
    Right,
    Top,
    Bottom,
    Inside,
}

/// The coordinate is within the world the simulation reasons about.
pub open spec fn coord_ok(x: int) -> bool {
    -COORD_LIMIT <= x <= COORD_LIMIT
}

/// The point lies within the world the simulation reasons about.
pub open spec fn in_world(v: Vec2I) -> bool {
    coord_ok(v.x as int) && coord_ok(v.y as int)
}

/// The extent is a valid box size: non-negative and bounded.
pub open spec fn size_ok(s: Vec2I) -> bool {
    0 <= s.x <= SIZE_LIMIT && 0 <= s.y <= SIZE_LIMIT
}

/// Open-interval overlap of two spans on one axis, in doubled coordinates:
/// the span with center `ca` and extent `sa` strictly crosses the span with
/// center `cb` and extent `sb`.  Exact edge contact does not count.
pub open spec fn axis_overlaps(ca: int, sa: int, cb: int, sb: int) -> bool {
    2 * ca - sa < 2 * cb + sb && 2 * cb - sb < 2 * ca + sa
}

/// The two axis-aligned boxes strictly overlap on both axes.
pub open spec fn boxes_overlap(ca: Vec2I, sa: Vec2I, cb: Vec2I, sb: Vec2I) -> bool {
    axis_overlaps(ca.x as int, sa.x as int, cb.x as int, sb.x as int)
        && axis_overlaps(ca.y as int, sa.y as int, cb.y as int, sb.y as int)
}

/// On one axis, box `a` overhangs only the low side of box `b`.
pub open spec fn axis_low_overhang(ca: int, sa: int, cb: int, sb: int) -> bool {
    2 * ca - sa < 2 * cb - sb && 2 * ca + sa < 2 * cb + sb
}

/// On one axis, box `a` overhangs only the high side of box `b`.
pub open spec fn axis_high_overhang(ca: int, sa: int, cb: int, sb: int) -> bool {
    2 * ca - sa > 2 * cb - sb && 2 * ca + sa > 2 * cb + sb
}

/// Twice the penetration depth on the low side: how far `a`'s high edge
/// reaches past `b`'s low edge.
pub open spec fn axis_low_depth(ca: int, sa: int, cb: int, sb: int) -> int {
    (2 * ca + sa) - (2 * cb - sb)
}

/// Twice the penetration depth on the high side: how far `b`'s high edge
/// reaches past `a`'s low edge.
pub open spec fn axis_high_depth(ca: int, sa: int, cb: int, sb: int) -> int {
    (2 * cb + sb) - (2 * ca - sa)
}

/// The side reported for two overlapping boxes: the single side of `b`
/// that `a` overhangs with the shallowest penetration, `Inside` when `a`
/// overhangs no single side on either axis.  Only meaningful when
/// `boxes_overlap` holds.  Ties between the axes go to the x axis, as do
/// configurations where `a` overhangs no single x side but one y side is
/// deeper than the other is shallow.
pub open spec fn overlap_side(ca: Vec2I, sa: Vec2I, cb: Vec2I, sb: Vec2I) -> Side {
    let x_low = axis_low_overhang(ca.x as int, sa.x as int, cb.x as int, sb.x as int);
    let x_high = axis_high_overhang(ca.x as int, sa.x as int, cb.x as int, sb.x as int);
    let y_low = axis_low_overhang(ca.y as int, sa.y as int, cb.y as int, sb.y as int);
    let y_high = axis_high_overhang(ca.y as int, sa.y as int, cb.y as int, sb.y as int);
    let x_depth = if x_low {
        axis_low_depth(ca.x as int, sa.x as int, cb.x as int, sb.x as int)
    } else {
        axis_high_depth(ca.x as int, sa.x as int, cb.x as int, sb.x as int)
    };
    let y_depth = if y_low {
        axis_low_depth(ca.y as int, sa.y as int, cb.y as int, sb.y as int)
    } else {
        axis_high_depth(ca.y as int, sa.y as int, cb.y as int, sb.y as int)
    };
    if !x_low && !x_high && !y_low && !y_high {
        Side::Inside
    } else if !x_low && !x_high {
        if y_low { Side::Bottom } else { Side::Top }
    } else if !y_low && !y_high {
        if x_low { Side::Left } else { Side::Right }
    } else if y_depth < x_depth {
        if y_low { Side::Bottom } else { Side::Top }
    } else {
        if x_low { Side::Left } else { Side::Right }
    }
}

impl Vec2I {
    /// Build a point from its two coordinates.
    pub fn new(x: i64, y: i64) -> (v: Vec2I)
        ensures
            v.x == x,
            v.y == y,
    {
        Vec2I { x, y }
    }

    /// Both coordinates equal to the given value.
    pub fn splat(v: i64) -> (r: Vec2I)
        ensures
            r.x == v,
            r.y == v,
    {
        Vec2I { x: v, y: v }
    }
}

/// Axis-aligned bounding-box intersection test between the box centered
/// at `a_pos` with size `a_size` and the box centered at `b_pos` with
/// size `b_size`.  `None` when the boxes do not strictly overlap (exact
/// edge contact counts as no collision); otherwise the side of `b` on
/// which `a` penetrates shallowest, or `Side::Inside` when `a` overhangs
/// no single side of `b`.
pub fn overlap(a_pos: Vec2I, a_size: Vec2I, b_pos: Vec2I, b_size: Vec2I) -> (r: Option<Side>)
    requires
        in_world(a_pos),
        in_world(b_pos),
        size_ok(a_size),
        size_ok(b_size),
    ensures
        r is Some <==> boxes_overlap(a_pos, a_size, b_pos, b_size),
        r is Some ==> r->Some_0 == overlap_side(a_pos, a_size, b_pos, b_size),
{
    let a_min_x: i64 = 2 * a_pos.x - a_size.x;
    let a_max_x: i64 = 2 * a_pos.x + a_size.x;
    let a_min_y: i64 = 2 * a_pos.y - a_size.y;
    let a_max_y: i64 = 2 * a_pos.y + a_size.y;
    let b_min_x: i64 = 2 * b_pos.x - b_size.x;
    let b_max_x: i64 = 2 * b_pos.x + b_size.x;
    let b_min_y: i64 = 2 * b_pos.y - b_size.y;
    let b_max_y: i64 = 2 * b_pos.y + b_size.y;

    if !(a_min_x < b_max_x && b_min_x < a_max_x && a_min_y < b_max_y && b_min_y < a_max_y) {
        return None;
    }

    let x_low: bool = a_min_x < b_min_x && a_max_x < b_max_x;
    let x_high: bool = a_min_x > b_min_x && a_max_x > b_max_x;
    let y_low: bool = a_min_y < b_min_y && a_max_y < b_max_y;
    let y_high: bool = a_min_y > b_min_y && a_max_y > b_max_y;

    let x_depth: i64 = if x_low { a_max_x - b_min_x } else { b_max_x - a_min_x };
    let y_depth: i64 = if y_low { a_max_y - b_min_y } else { b_max_y - a_min_y };

    if !x_low && !x_high && !y_low && !y_high {
        Some(Side::Inside)
    } else if !x_low && !x_high {
        Some(if y_low { Side::Bottom } else { Side::Top })
    } else if !y_low && !y_high {
        Some(if x_low { Side::Left } else { Side::Right })
    } else if y_depth < x_depth {
        Some(if y_low { Side::Bottom } else { Side::Top })
    } else {
        Some(if x_low { Side::Left } else { Side::Right })
    }
}

/// A box always overlaps an equally centered box when both sizes are
/// positive on both axes: the key step behind re-querying placement
/// validity at a spot just built on.
pub proof fn lemma_self_overlap(c: Vec2I, sa: Vec2I, sb: Vec2I)
    requires
        sa.x > 0,
        sa.y > 0,
        sb.x > 0,
        sb.y > 0,
    ensures
        boxes_overlap(c, sa, c, sb),
{
}

/// Floor division: the unique `q` with `b * q <= a < b * q + b`.
pub fn floor_div(a: i64, b: i64) -> (q: i64)
    requires
        1 <= b,
        -0x4000_0000_0000_0000 <= a <= 0x4000_0000_0000_0000,
    ensures
        b * q <= a < b * q + b,
        q == (a as int) / (b as int),
{
    let d: u64 = b as u64;
    if a >= 0 {
        let m: u64 = a as u64;
        proof {
            vstd::arithmetic::div_mod::lemma_div_pos_is_pos(m as int, d as int);
            vstd::arithmetic::div_mod::lemma_div_nonincreasing(m as int, d as int);
            vstd::arithmetic::div_mod::lemma_fundamental_div_mod(m as int, d as int);
            vstd::arithmetic::div_mod::lemma_mod_bound(m as int, d as int);
        }
        (m / d) as i64
    } else {
        let m: u64 = (-a) as u64;
        let q0: u64 = m / d;
        let r0: u64 = m % d;
        proof {
            vstd::arithmetic::div_mod::lemma_div_pos_is_pos(m as int, d as int);
            vstd::arithmetic::div_mod::lemma_div_nonincreasing(m as int, d as int);
            vstd::arithmetic::div_mod::lemma_fundamental_div_mod(m as int, d as int);
            vstd::arithmetic::div_mod::lemma_mod_bound(m as int, d as int);
        }
        let q: i64 = if r0 == 0 {
            -(q0 as i64)
        } else {
            -(q0 as i64) - 1
        };
        proof {
            let ai = a as int;
            let bi = b as int;
            let r = if r0 == 0 { 0int } else { bi - r0 };
            assert(ai == bi * q + r && 0 <= r < bi) by (nonlinear_arith)
                requires
                    -ai == bi * (q0 as int) + r0,
                    0 <= r0 < bi,
                    r == (if r0 == 0 { 0int } else { bi - r0 }),
                    q == (if r0 == 0 { -(q0 as int) } else { -(q0 as int) - 1 }),
            ;
            vstd::arithmetic::div_mod::lemma_fundamental_div_mod_converse_div(ai, bi, q as int, r);
        }
        q
    }
}

/// Squared Euclidean distance between two world points.
pub open spec fn dist2_spec(a: Vec2I, b: Vec2I) -> int {
    (a.x - b.x) * (a.x - b.x) + (a.y - b.y) * (a.y - b.y)
}

/// Squared Euclidean distance between two world points.
pub fn dist2(a: Vec2I, b: Vec2I) -> (r: i64)
    requires
        in_world(a),
        in_world(b),
    ensures
        r == dist2_spec(a, b),
        0 <= r <= 0x200_0000_0000_0000,
{
    let dx: i64 = a.x - b.x;
    let dy: i64 = a.y - b.y;
    proof {
        assert(0 <= dx * dx <= 0x100_0000_0000_0000 && 0 <= dy * dy <= 0x100_0000_0000_0000)
            by (nonlinear_arith)
            requires
                -0x1000_0000 <= dx <= 0x1000_0000,
                -0x1000_0000 <= dy <= 0x1000_0000,
        ;
    }
    dx * dx + dy * dy
}

/// The integer square root of `n`, built up one step at a time: it
/// grows by one exactly when the next perfect square is reached.
pub open spec fn isqrt_spec(n: nat) -> nat
    decreases n,
{
    if n == 0 {
        0
    } else {
        let r = isqrt_spec((n - 1) as nat);
        if (r + 1) * (r + 1) <= n {
            r + 1
        } else {
            r
        }
    }
}

/// `isqrt_spec` is the floor square root: its square is at most `n`,
/// and the next square is beyond `n`.
pub proof fn lemma_isqrt_spec_bounds(n: nat)
    ensures
        isqrt_spec(n) * isqrt_spec(n) <= n < (isqrt_spec(n) + 1) * (isqrt_spec(n) + 1),
    decreases n,
{
    let q = isqrt_spec(n);
    if n == 0 {
        assert(q == 0);
        assert(q * q <= n && n < (q + 1) * (q + 1)) by (nonlinear_arith)
            requires
                q == 0,
                n == 0,
        ;
    } else {
        lemma_isqrt_spec_bounds((n - 1) as nat);
        let r = isqrt_spec((n - 1) as nat);
        assert(r * r <= n - 1 < (r + 1) * (r + 1));
        if (r + 1) * (r + 1) <= n {
            assert(q == r + 1);
            assert(n == (r + 1) * (r + 1));
            assert(q * q <= n && n < (q + 1) * (q + 1)) by (nonlinear_arith)
                requires
                    n == (r + 1) * (r + 1),
                    q == r + 1,
                    r >= 0,
            ;
        } else {
            assert(q == r);
            assert(q * q <= n && n < (q + 1) * (q + 1)) by (nonlinear_arith)
                requires
                    q == r,
                    r * r <= n - 1,
                    !((r + 1) * (r + 1) <= n),
            ;
        }
    }
}

/// Integer square root: the unique `r` with `r * r <= n < (r + 1) * (r + 1)`.
pub fn isqrt(n: i64) -> (r: i64)
    requires
        0 <= n <= 0x400_0000_0000_0000,
    ensures
        0 <= r < 0x4000_0000,
        r * r <= n < (r + 1) * (r + 1),
        r == isqrt_spec(n as nat),
{
    let mut lo: i64 = 0;
    let mut hi: i64 = 0x4000_0000;
    if n < hi {
        hi = n + 1;
        proof {
            assert(n < hi * hi) by (nonlinear_arith)
                requires
                    0 <= n,
                    hi == n + 1,
            ;
        }
    }
    // The root lies in [lo, hi); shrink the window by bisection.
    while lo + 1 < hi
        invariant
            0 <= lo < hi <= 0x4000_0000,
            lo * lo <= n,
            n < hi * hi,
        decreases hi - lo,
    {
        let mid: i64 = lo + (hi - lo) / 2;
        proof {
            assert(0 <= mid * mid < 0x1000_0000_0000_0000) by (nonlinear_arith)
                requires
                    0 <= mid < 0x4000_0000,
            ;
        }
        if mid * mid <= n {
            lo = mid;
        } else {
            hi = mid;
        }
    }
    proof {
        lemma_isqrt_spec_bounds(n as nat);
        let s = isqrt_spec(n as nat) as int;
        assert(lo == s) by (nonlinear_arith)
            requires
                0 <= lo,
                0 <= s,
                lo * lo <= n < (lo + 1) * (lo + 1),
                s * s <= n < (s + 1) * (s + 1),
        ;
    }
    lo
}

/// Largest per-tick step magnitude `step_toward` accepts.
pub const STEP_LIMIT: i64 = 0x10_0000;

/// One coordinate of a step of magnitude `s` from `p` toward `w`, where
/// `len` is the (floor) distance between the two points: the coordinate
/// moves toward `w` by `s` scaled by this axis's share of the distance.
pub open spec fn step_axis_spec(p: int, w: int, s: int, len: int) -> int {
    if w >= p {
        p + (s * (w - p)) / len
    } else {
        p - (s * (p - w)) / len
    }
}

/// The position reached from `pos` after one step of magnitude `s`
/// toward `wp`: `pos` plus `s` times the unit vector toward `wp`,
/// rounded toward `pos`, and unchanged when the points already
/// coincide to within one unit.
pub open spec fn step_toward_spec(pos: Vec2I, wp: Vec2I, s: int) -> (int, int) {
    let len = isqrt_spec(dist2_spec(pos, wp) as nat) as int;
    if len == 0 {
        (pos.x as int, pos.y as int)
    } else {
        (step_axis_spec(pos.x as int, wp.x as int, s, len), step_axis_spec(pos.y as int, wp.y as int, s, len))
    }
}

/// One coordinate of a step toward a target: requires the coordinate
/// delta to be no larger than the full distance `len`, which bounds the
/// movement on this axis by `s`.
fn step_axis(p: i64, w: i64, s: i64, len: i64) -> (r: i64)
    requires
        coord_ok(p as int),
        coord_ok(w as int),
        0 <= s <= STEP_LIMIT,
        1 <= len <= 0x4000_0000,
        -len <= w - p <= len,
    ensures
        r == step_axis_spec(p as int, w as int, s as int, len as int),
        p <= w ==> p <= r <= w + s,
        w <= p ==> w - s <= r <= p,
{
    let d: i64 = if w >= p {
        w - p
    } else {
        p - w
    };
    proof {
        assert(0 <= s * d <= s * len <= 0x4000_0000_0000_0000) by (nonlinear_arith)
            requires
                0 <= d <= len,
                0 <= s <= STEP_LIMIT,
                len <= 0x4000_0000,
        ;
        vstd::arithmetic::div_mod::lemma_div_pos_is_pos(s as int * d as int, len as int);
        vstd::arithmetic::div_mod::lemma_div_is_ordered(
            s as int * d as int,
            s as int * len as int,
            len as int,
        );
        vstd::arithmetic::mul::lemma_mul_is_commutative(s as int, len as int);
        vstd::arithmetic::div_mod::lemma_div_by_multiple(s as int, len as int);
        if d == 0 {
            assert(s as int * d as int == 0) by (nonlinear_arith)
                requires
                    d == 0,
            ;
            vstd::arithmetic::div_mod::lemma_div_of0(len as int);
        }
    }
    let m: i64 = (s * d) / len;
    if w >= p {
        p + m
    } else {
        p - m
    }
}

/// Advance `pos` one step of magnitude `s` toward `wp`.  The new
/// position stays on the segment's bounding box, stretched by at most
/// `s` past `wp` on each axis: a step never moves a coordinate away
/// from the target, and overshoots it by at most the step magnitude.
pub fn step_toward(pos: Vec2I, wp: Vec2I, s: i64) -> (r: Vec2I)
    requires
        in_world(pos),
        in_world(wp),
        0 <= s <= STEP_LIMIT,
    ensures
        (r.x as int, r.y as int) == step_toward_spec(pos, wp, s as int),
        pos.x <= wp.x ==> pos.x <= r.x <= wp.x + s,
        wp.x <= pos.x ==> wp.x - s <= r.x <= pos.x,
        pos.y <= wp.y ==> pos.y <= r.y <= wp.y + s,
        wp.y <= pos.y ==> wp.y - s <= r.y <= pos.y,
{
    let d2: i64 = dist2(pos, wp);
    let len: i64 = isqrt(d2);
    let ghost dx = pos.x as int - wp.x as int;
    let ghost dy = pos.y as int - wp.y as int;
    proof {
        assert(d2 == dx * dx + dy * dy);
    }
    if len == 0 {
        proof {
            assert((len as int + 1) * (len as int + 1) == 1) by (nonlinear_arith)
                requires
                    len == 0,
            ;
            assert(dx * dx + dy * dy < 1);
            assert(dx == 0 && dy == 0) by (nonlinear_arith)
                requires
                    dx * dx + dy * dy < 1,
            ;
        }
        pos
    } else {
        proof {
            let l = len as int;
            assert(-l <= dx <= l && -l <= dy <= l) by (nonlinear_arith)
                requires
                    dx * dx + dy * dy < (l + 1) * (l + 1),
                    dx * dx + dy * dy >= l * l,
                    1 <= l,
            ;
        }
        Vec2I { x: step_axis(pos.x, wp.x, s, len), y: step_axis(pos.y, wp.y, s, len) }
    }
}

/// Largest magnitude a direction-vector component may take.
pub const DIR_LIMIT: i64 = 0x1000_0000;

/// The value clamped into `[-lim, lim]`.
pub open spec fn clamp_spec(x: int, lim: int) -> int {
    if x < -lim {
        -lim
    } else if x > lim {
        lim
    } else {
        x
    }
}

/// Clamp a value into `[-lim, lim]`.
pub fn clamp_i64(x: i64, lim: i64) -> (r: i64)
    requires
        0 <= lim,
    ensures
        r == clamp_spec(x as int, lim as int),
{
    if x < -lim {
        -lim
    } else if x > lim {
        lim
    } else {
        x
    }
}

/// One coordinate of a step of magnitude `v` along the direction with
/// this axis's component `d` and full length `len`: the coordinate
/// moves by `v` scaled by this axis's share of the direction, rounded
/// toward zero.
pub open spec fn step_dir_axis_spec(p: int, d: int, v: int, len: int) -> int {
    if d >= 0 {
        p + (v * d) / len
    } else {
        p - (v * -d) / len
    }
}

/// The position reached from `pos` after one step of magnitude `v`
/// along the direction vector `dir`: `pos` plus `v` times the unit
/// vector of `dir`, rounded toward `pos`, and unchanged when `dir` is
/// shorter than one unit.
pub open spec fn step_dir_spec(pos: Vec2I, dir: Vec2I, v: int) -> (int, int) {
    let len = isqrt_spec((dir.x * dir.x + dir.y * dir.y) as nat) as int;
    if len == 0 {
        (pos.x as int, pos.y as int)
    } else {
        (
            step_dir_axis_spec(pos.x as int, dir.x as int, v, len),
            step_dir_axis_spec(pos.y as int, dir.y as int, v, len),
        )
    }
}

/// One coordinate of a step along a direction vector.
fn step_dir_axis(p: i64, d: i64, v: i64, len: i64) -> (r: i64)
    requires
        coord_ok(p as int),
        0 <= v <= STEP_LIMIT,
        1 <= len <= 0x4000_0000,
        -len <= d <= len,
    ensures
        r == step_dir_axis_spec(p as int, d as int, v as int, len as int),
        p - v <= r <= p + v,
        d >= 0 ==> r >= p,
        d <= 0 ==> r <= p,
{
    let m_in: i64 = if d >= 0 {
        d
    } else {
        -d
    };
    proof {
        assert(0 <= v * m_in <= v * len <= 0x4000_0000_0000_0000) by (nonlinear_arith)
            requires
                0 <= m_in <= len,
                0 <= v <= STEP_LIMIT,
                len <= 0x4000_0000,
        ;
        vstd::arithmetic::div_mod::lemma_div_pos_is_pos(v as int * m_in as int, len as int);
        vstd::arithmetic::div_mod::lemma_div_is_ordered(
            v as int * m_in as int,
            v as int * len as int,
            len as int,
        );
        vstd::arithmetic::mul::lemma_mul_is_commutative(v as int, len as int);
        vstd::arithmetic::div_mod::lemma_div_by_multiple(v as int, len as int);
    }
    let m: i64 = (v * m_in) / len;
    if d >= 0 {
        p + m
    } else {
        p - m
    }
}

/// Advance `pos` one step of magnitude `v` along the direction `dir`.
/// Each coordinate moves by at most `v`, and only in its component's
/// direction.
pub fn step_dir(pos: Vec2I, dir: Vec2I, v: i64) -> (r: Vec2I)
    requires
        in_world(pos),
        -DIR_LIMIT <= dir.x <= DIR_LIMIT,
        -DIR_LIMIT <= dir.y <= DIR_LIMIT,
        0 <= v <= STEP_LIMIT,
    ensures
        (r.x as int, r.y as int) == step_dir_spec(pos, dir, v as int),
        pos.x - v <= r.x <= pos.x + v,
        pos.y - v <= r.y <= pos.y + v,
        dir.x >= 0 ==> r.x >= pos.x,
        dir.x <= 0 ==> r.x <= pos.x,
        dir.y >= 0 ==> r.y >= pos.y,
        dir.y <= 0 ==> r.y <= pos.y,
{
    proof {
        assert(0 <= dir.x * dir.x <= 0x100_0000_0000_0000 && 0 <= dir.y * dir.y
            <= 0x100_0000_0000_0000) by (nonlinear_arith)
            requires
                -DIR_LIMIT <= dir.x <= DIR_LIMIT,
                -DIR_LIMIT <= dir.y <= DIR_LIMIT,
        ;
    }
    let d2: i64 = dir.x * dir.x + dir.y * dir.y;
    let len: i64 = isqrt(d2);
    if len == 0 {
        pos
    } else {
        proof {
            let l = len as int;
            assert(-l <= dir.x <= l && -l <= dir.y <= l) by (nonlinear_arith)
                requires
                    dir.x * dir.x + dir.y * dir.y < (l + 1) * (l + 1),
                    dir.x * dir.x + dir.y * dir.y >= l * l,
                    1 <= l,
            ;
        }
        Vec2I {
            x: step_dir_axis(pos.x, dir.x, v, len),
            y: step_dir_axis(pos.y, dir.y, v, len),
        }
    }
}

} // verus!
