//! Projectiles: fired by weapons, short-lived, damaging each adversary
//! they strike at most once.
//!
//! A projectile's kind fixes its per-tick velocity, its collision
//! footprint and its hit budget — how many distinct adversaries it may
//! damage before it expires.  The identifiers of adversaries already
//! struck are remembered so that a projectile overlapping the same
//! adversary for several ticks charges only one hit.

use vstd::prelude::*;

use crate::cursor::tile_ok;
use crate::geom::{clamp_spec, clamp_i64, in_world, Vec2I, DIR_LIMIT};
use crate::tps_ok;

verus! {

/// Largest magnitude of a deflection jitter value, in thousandths of
/// the heading: the shear by `176 / 1000` turns the heading by about
/// ten degrees.
pub const MAX_DEFLECTION_MILLI: i64 = 176;

/// The kinds of projectile.
#[derive(Clone, Copy, Debug, PartialEq, Eq, Structural)]
pub enum ProjectileType {
    Knife,
    Spoon,
    ChefsKnife,
}

impl ProjectileType {
    /// The hit budget: how many distinct adversaries a projectile of
    /// this kind may damage before it expires.
    pub open spec fn initial_health_spec(self) -> int {
        match self {
            ProjectileType::Knife => 1,
            ProjectileType::Spoon => 2,
            ProjectileType::ChefsKnife => 3,
        }
    }

    /// The hit budget of this kind.
    pub fn initial_health(&self) -> (h: i32)
        ensures
            h == self.initial_health_spec(),
    {
        match self {
            ProjectileType::Knife => 1,
            ProjectileType::Spoon => 2,
            ProjectileType::ChefsKnife => 3,
        }
    }

    /// How many tiles a projectile of this kind covers per second,
    /// doubled (so that the one kind moving eight and a half tiles per
    /// second has an integer factor).
    pub open spec fn speed_factor2_spec(self) -> int {
        match self {
            ProjectileType::Knife => 16,
            ProjectileType::Spoon => 12,
            ProjectileType::ChefsKnife => 17,
        }
    }

    /// The distance a projectile of this kind covers per tick, in world
    /// units: its tiles-per-second rate spread over the tick rate.
    pub open spec fn velocity_spec(self, tile: int, tps: int) -> int {
        tile * self.speed_factor2_spec() / (2 * tps)
    }

    /// The distance a projectile of this kind covers per tick.  With
    /// the tick rate no finer than the tile size, every kind moves at
    /// least one world unit per tick.
    pub fn velocity(&self, tile: i64, tps: i64) -> (v: i64)
        requires
            tile_ok(tile as int),
            tps_ok(tps as int),
            tps <= tile,
        ensures
            v == self.velocity_spec(tile as int, tps as int),
            1 <= v <= 0x10_0000,
    {
        let scaled: i64 = match self {
            ProjectileType::Knife => tile * 16,
            ProjectileType::Spoon => tile * 12,
            ProjectileType::ChefsKnife => tile * 17,
        };
        proof {
            vstd::arithmetic::div_mod::lemma_div_pos_is_pos(scaled as int, 2 * tps as int);
            vstd::arithmetic::div_mod::lemma_div_is_ordered_by_denominator(scaled as int, 2, 2 * tps as int);
            vstd::arithmetic::div_mod::lemma_div_by_self(2 * tps as int);
            vstd::arithmetic::div_mod::lemma_div_is_ordered(2 * tps as int, scaled as int, 2 * tps as int);
        }
        scaled / (2 * tps)
    }

    /// The projectile's collision footprint, in world units per side:
    /// one or two sixteenths of a tile, by sprite proportion.
    pub open spec fn size_spec(self, tile: int) -> int {
        match self {
            ProjectileType::Knife => tile / 16,
            ProjectileType::Spoon => tile / 16,
            ProjectileType::ChefsKnife => tile * 2 / 16,
        }
    }

    /// The projectile's collision footprint, in world units per side.
    pub fn size(&self, tile: i64) -> (s: i64)
        requires
            tile_ok(tile as int),
        ensures
            s == self.size_spec(tile as int),
            0 <= s <= 0x2_0000,
    {
        proof {
            vstd::arithmetic::div_mod::lemma_div_pos_is_pos(tile as int, 16);
            vstd::arithmetic::div_mod::lemma_div_nonincreasing(tile as int, 16);
            vstd::arithmetic::div_mod::lemma_div_pos_is_pos(2 * tile as int, 16);
            vstd::arithmetic::div_mod::lemma_div_nonincreasing(2 * tile as int, 16);
        }
        match self {
            ProjectileType::Knife => tile / 16,
            ProjectileType::Spoon => tile / 16,
            ProjectileType::ChefsKnife => tile * 2 / 16,
        }
    }
}

/// Division by one thousand, rounded toward zero.
pub open spec fn milli_spec(n: int) -> int {
    if n >= 0 {
        n / 1000
    } else {
        -((-n) / 1000)
    }
}

/// The heading after a deflection by the jitter `j` (in thousandths):
/// a small shear that turns the vector by roughly `j / 1000` radians,
/// with each component clamped into the supported direction range.
pub open spec fn deflect_spec(h: Vec2I, j: int) -> (int, int) {
    (
        clamp_spec(milli_spec(1000 * h.x - j * h.y), DIR_LIMIT as int),
        clamp_spec(milli_spec(1000 * h.y + j * h.x), DIR_LIMIT as int),
    )
}

/// A live projectile: its kind, its remaining hit budget, the
/// identifiers of adversaries it has already struck, its world position
/// and its heading (a direction vector; only the direction matters).
pub struct Projectile {
    pub ty: ProjectileType,
    pub health: i32,
    pub hit_enemies: Vec<u64>,
    pub pos: Vec2I,
    pub heading: Vec2I,
}

impl Projectile {
    /// The projectile's bookkeeping is intact: it sits in the world,
    /// its heading is in range, it has struck no adversary twice, and
    /// its remaining budget is its kind's budget less one per distinct
    /// adversary struck.
    pub open spec fn wf(self) -> bool {
        &&& in_world(self.pos)
        &&& -DIR_LIMIT <= self.heading.x <= DIR_LIMIT
        &&& -DIR_LIMIT <= self.heading.y <= DIR_LIMIT
        &&& self.hit_enemies@.no_duplicates()
        &&& self.hit_enemies@.len() <= 0x1000_0000
        &&& self.health as int == self.ty.initial_health_spec() - self.hit_enemies@.len()
    }

    /// A fresh projectile of the given kind, with its kind's full hit
    /// budget and an empty strike record.
    pub fn new(ty: ProjectileType, pos: Vec2I, heading: Vec2I) -> (p: Projectile)
        requires
            in_world(pos),
            -DIR_LIMIT <= heading.x <= DIR_LIMIT,
            -DIR_LIMIT <= heading.y <= DIR_LIMIT,
        ensures
            p.wf(),
            p.ty == ty,
            p.pos == pos,
            p.heading == heading,
            p.health == ty.initial_health_spec(),
            p.hit_enemies@ == Seq::<u64>::empty(),
    {
        let p = Projectile { ty, health: ty.initial_health(), hit_enemies: Vec::new(), pos, heading };
        proof {
            assert(p.hit_enemies@ =~= Seq::<u64>::empty());
        }
        p
    }

    /// Whether this projectile has already struck the adversary with
    /// the given identifier.
    pub fn has_hit(&self, id: u64) -> (r: bool)
        ensures
            r == self.hit_enemies@.contains(id),
    {
        let mut i: usize = 0;
        while i < self.hit_enemies.len()
            invariant
                0 <= i <= self.hit_enemies@.len(),
                forall|k: int| 0 <= k < i ==> self.hit_enemies@[k] != id,
            decreases self.hit_enemies@.len() - i,
        {
            if self.hit_enemies[i] == id {
                proof {
                    assert(self.hit_enemies@.contains(id));
                }
                return true;
            }
            i = i + 1;
        }
        proof {
            assert(!self.hit_enemies@.contains(id));
        }
        false
    }

    /// Record a strike on a new adversary: one unit of hit budget is
    /// spent, the adversary's identifier is remembered, and the heading
    /// is deflected by the jitter `j`.
    pub fn record_hit(&mut self, id: u64, j: i64)
        requires
            old(self).wf(),
            !old(self).hit_enemies@.contains(id),
            old(self).hit_enemies@.len() < 0x1000_0000,
            -MAX_DEFLECTION_MILLI <= j <= MAX_DEFLECTION_MILLI,
        ensures
            final(self).wf(),
            final(self).ty == old(self).ty,
            final(self).pos == old(self).pos,
            final(self).health == old(self).health - 1,
            final(self).hit_enemies@ == old(self).hit_enemies@.push(id),
            (final(self).heading.x as int, final(self).heading.y as int) == deflect_spec(
                old(self).heading,
                j as int,
            ),
    {
        self.health = self.health - 1;
        self.hit_enemies.push(id);
        proof {
            let s0 = old(self).hit_enemies@;
            assert forall|a: int, b: int|
                0 <= a < b < s0.push(id).len() implies s0.push(id)[a] != s0.push(id)[b] by {
                if b < s0.len() {
                    assert(s0.push(id)[a] == s0[a] && s0.push(id)[b] == s0[b]);
                } else {
                    assert(s0.push(id)[b] == id);
                    assert(s0.push(id)[a] == s0[a]);
                    assert(s0.contains(s0[a]));
                }
            }
        }
        let h = self.heading;
        proof {
            assert(-0x200_0000_0000 <= 1000 * h.x - j * h.y <= 0x200_0000_0000 && -0x200_0000_0000
                <= 1000 * h.y + j * h.x <= 0x200_0000_0000) by (nonlinear_arith)
                requires
                    -DIR_LIMIT <= h.x <= DIR_LIMIT,
                    -DIR_LIMIT <= h.y <= DIR_LIMIT,
                    -MAX_DEFLECTION_MILLI <= j <= MAX_DEFLECTION_MILLI,
            ;
        }
        let nx: i64 = milli(1000 * h.x - j * h.y);
        let ny: i64 = milli(1000 * h.y + j * h.x);
        self.heading = Vec2I { x: clamp_i64(nx, DIR_LIMIT), y: clamp_i64(ny, DIR_LIMIT) };
    }
}

/// Division by one thousand, rounded toward zero.
fn milli(n: i64) -> (r: i64)
    requires
        -0x4000_0000_0000_0000 <= n <= 0x4000_0000_0000_0000,
    ensures
        r == milli_spec(n as int),
{
    proof {
        if n >= 0 {
            vstd::arithmetic::div_mod::lemma_div_pos_is_pos(n as int, 1000);
            vstd::arithmetic::div_mod::lemma_div_nonincreasing(n as int, 1000);
        } else {
            vstd::arithmetic::div_mod::lemma_div_pos_is_pos(-n as int, 1000);
            vstd::arithmetic::div_mod::lemma_div_nonincreasing(-n as int, 1000);
        }
    }
    if n >= 0 {
        n / 1000
    } else {
        -((-n) / 1000)
    }
}

} // verus!
