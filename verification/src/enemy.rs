//! Adversaries: the hostile entities that walk the waypoint path.
//!
//! A kind fixes an adversary's movement speed, its starting health and
//! whether killing it splits it into children of a weaker kind.  Each
//! adversary carries the index of the waypoint it is walking toward;
//! every tick it advances toward that waypoint by its per-tick speed
//! and moves on to the next waypoint once it comes close enough.

use vstd::prelude::*;

use crate::geom::{
    clamp_i64, clamp_spec, dist2, dist2_spec, in_world, step_toward, step_toward_spec, Vec2I,
    COORD_LIMIT,
};
use crate::level::Path;
use crate::cursor::tile_ok;
use crate::rng::random_in_range;
use crate::tps_ok;

verus! {

/// The kinds of adversary, from weakest to strongest.
#[derive(Clone, Copy, Debug, PartialEq, Eq, Structural)]
pub enum EnemyKind {
    Potato,
    Carrot,
    Pepper,
}

impl EnemyKind {
    /// The health an adversary of this kind starts with.
    pub open spec fn initial_health_spec(self) -> int {
        match self {
            EnemyKind::Potato => 1,
            EnemyKind::Carrot => 1,
            EnemyKind::Pepper => 3,
        }
    }

    /// The health an adversary of this kind starts with.
    pub fn initial_health(&self) -> (h: i32)
        ensures
            h == self.initial_health_spec(),
    {
        match self {
            EnemyKind::Potato => 1,
            EnemyKind::Carrot => 1,
            EnemyKind::Pepper => 3,
        }
    }

    /// How many tiles an adversary of this kind covers per second.
    pub open spec fn speed_factor_spec(self) -> int {
        match self {
            EnemyKind::Potato => 2,
            EnemyKind::Carrot => 3,
            EnemyKind::Pepper => 1,
        }
    }

    /// The distance an adversary of this kind covers per tick, in world
    /// units: its tiles-per-second rate spread over the tick rate.
    pub open spec fn speed_spec(self, tile: int, tps: int) -> int {
        tile * self.speed_factor_spec() / tps
    }

    /// The distance an adversary of this kind covers per tick.  The
    /// tick rate may not outrun the tile size, so even the slowest kind
    /// moves at least one world unit per tick and every adversary can
    /// reach the goal.
    pub fn speed(&self, tile: i64, tps: i64) -> (s: i64)
        requires
            tile_ok(tile as int),
            tps_ok(tps as int),
            tps <= tile,
        ensures
            s == self.speed_spec(tile as int, tps as int),
            1 <= s <= 0x3_0000,
    {
        let scaled: i64 = match self {
            EnemyKind::Potato => tile * 2,
            EnemyKind::Carrot => tile * 3,
            EnemyKind::Pepper => tile * 1,
        };
        proof {
            vstd::arithmetic::div_mod::lemma_div_pos_is_pos(scaled as int, tps as int);
            vstd::arithmetic::div_mod::lemma_div_nonincreasing(scaled as int, tps as int);
            vstd::arithmetic::div_mod::lemma_div_by_self(tps as int);
            vstd::arithmetic::div_mod::lemma_div_is_ordered(tps as int, scaled as int, tps as int);
        }
        scaled / tps
    }

    /// The split rule: how many children of which kind killing an
    /// adversary of this kind spawns, or `None` for no split.
    pub open spec fn split_spec(self) -> Option<(i32, EnemyKind)> {
        match self {
            EnemyKind::Potato => None,
            EnemyKind::Carrot => Some((1, EnemyKind::Potato)),
            EnemyKind::Pepper => Some((4, EnemyKind::Carrot)),
        }
    }
}

/// A live adversary: its remaining health, its kind, the index of the
/// waypoint it is walking toward, its world position, and the stable
/// identifier projectiles use to avoid hitting it twice.
#[derive(Clone, Copy, Debug)]
pub struct Enemy {
    pub health: i32,
    pub kind: EnemyKind,
    pub idx: usize,
    pub pos: Vec2I,
    pub id: u64,
}

impl Enemy {
    /// A fresh adversary of the given kind, with the kind's starting
    /// health, heading for waypoint `idx`.
    pub fn new(kind: EnemyKind, idx: usize, pos: Vec2I, id: u64) -> (e: Enemy)
        ensures
            e.kind == kind,
            e.idx == idx,
            e.pos == pos,
            e.id == id,
            e.health == kind.initial_health_spec(),
    {
        Enemy { health: kind.initial_health(), kind, idx, pos, id }
    }

    /// The distance this adversary covers per tick.
    pub fn speed(&self, tile: i64, tps: i64) -> (s: i64)
        requires
            tile_ok(tile as int),
            tps_ok(tps as int),
            tps <= tile,
        ensures
            s == self.kind.speed_spec(tile as int, tps as int),
            1 <= s <= 0x3_0000,
    {
        self.kind.speed(tile, tps)
    }

    /// The split rule of this adversary's kind.
    pub fn split(&self) -> (r: Option<(i32, EnemyKind)>)
        ensures
            r == self.kind.split_spec(),
    {
        match self.kind {
            EnemyKind::Potato => None,
            EnemyKind::Carrot => Some((1, EnemyKind::Potato)),
            EnemyKind::Pepper => Some((4, EnemyKind::Carrot)),
        }
    }

    /// Whether this adversary, at waypoint index `idx`, still has a
    /// waypoint to walk toward on the given path.
    pub open spec fn walking_spec(self, path: Path) -> bool {
        self.idx + 1 < path.positions@.len()
    }

    /// One traversal tick: walk one step toward the next waypoint, and
    /// move on to the following waypoint once within a twentieth of a
    /// tile of it.  An adversary whose waypoint index has reached the
    /// end of the path stands still (the round controller removes it).
    pub fn advance(&mut self, path: &Path, tile: i64, tps: i64)
        requires
            old(self).wf(),
            path.wf(),
            tile_ok(tile as int),
            tps_ok(tps as int),
            tps <= tile,
        ensures
            final(self).wf(),
            final(self).kind == old(self).kind,
            final(self).health == old(self).health,
            final(self).id == old(self).id,
            !old(self).walking_spec(*path) ==> *final(self) == *old(self),
            old(self).walking_spec(*path) ==> {
                let wp = path.waypoint(old(self).idx + 1);
                let s = old(self).kind.speed_spec(tile as int, tps as int);
                let eps = tile as int / 20;
                &&& (final(self).pos.x as int, final(self).pos.y as int) == step_toward_spec(
                    old(self).pos,
                    wp,
                    s,
                )
                &&& final(self).idx == if dist2_spec(final(self).pos, wp) < eps * eps {
                    old(self).idx + 1
                } else {
                    old(self).idx as int
                }
            },
    {
        let l: usize = path.len();
        if self.idx >= l - 1 {
            return ;
        }
        let wp: Vec2I = path.positions[self.idx + 1].position;
        let s: i64 = self.speed(tile, tps);
        let newp: Vec2I = step_toward(self.pos, wp, s);
        self.pos = newp;
        let eps: i64 = tile / 20;
        proof {
            vstd::arithmetic::div_mod::lemma_div_pos_is_pos(tile as int, 20);
            vstd::arithmetic::div_mod::lemma_div_nonincreasing(tile as int, 20);
            assert(0 <= eps * eps <= 0x1_0000_0000) by (nonlinear_arith)
                requires
                    0 <= eps <= 0x1_0000,
            ;
        }
        let d2: i64 = dist2(newp, wp);
        if d2 < eps * eps {
            self.idx = self.idx + 1;
        }
    }

    /// The adversary is within the world the simulation reasons about.
    pub open spec fn wf(self) -> bool {
        in_world(self.pos)
    }
}

/// The children a dead adversary splits into: exactly the count and
/// kind its kind's split rule configures, each inheriting the parent's
/// waypoint index, with the kind's starting health and consecutive
/// fresh identifiers starting at `base_id`.  The first child stands
/// exactly at the parent's position; each further child is scattered by
/// a random offset of less than one tile on each axis (held inside the
/// world).  A kind without a split rule yields no children.
pub fn split_children(parent: &Enemy, tile: i64, base_id: u64) -> (kids: Vec<Enemy>)
    requires
        parent.wf(),
        tile_ok(tile as int),
        base_id <= 0xFFFF_FFFF_FFFF_0000,
    ensures
        parent.kind.split_spec() is None ==> kids@.len() == 0,
        parent.kind.split_spec() is Some ==> {
            let rule = parent.kind.split_spec()->Some_0;
            &&& kids@.len() == rule.0
            &&& forall|j: int|
                0 <= j < kids@.len() ==> {
                    let c = #[trigger] kids@[j];
                    &&& c.kind == rule.1
                    &&& c.idx == parent.idx
                    &&& c.health == rule.1.initial_health_spec()
                    &&& c.id == base_id + j
                    &&& c.wf()
                    &&& exists|ox: int, oy: int|
                        #![trigger clamp_spec(parent.pos.x + ox, COORD_LIMIT as int), clamp_spec(parent.pos.y + oy, COORD_LIMIT as int)]
                        0 <= ox < tile && 0 <= oy < tile && c.pos.x == clamp_spec(
                            parent.pos.x + ox,
                            COORD_LIMIT as int,
                        ) && c.pos.y == clamp_spec(parent.pos.y + oy, COORD_LIMIT as int)
                }
            &&& kids@.len() > 0 ==> kids@[0].pos == parent.pos
        },
{
    let rule = match parent.split() {
        Some(rule) => rule,
        None => {
            return Vec::new();
        },
    };
    let (amount, kind) = rule;
    proof {
        assert(amount == 1 || amount == 4);
    }
    let span: i64 = if amount == 1 {
        tile
    } else {
        tile / 4
    };
    let mut kids: Vec<Enemy> = Vec::new();
    let mut i: u32 = 0;
    while i < amount as u32
        invariant
            amount == 1 || amount == 4,
            parent.wf(),
            tile_ok(tile as int),
            base_id <= 0xFFFF_FFFF_FFFF_0000,
            0 <= span <= tile,
            amount == 1 ==> span == tile,
            amount == 4 ==> 4 * span <= tile,
            parent.kind.split_spec() == Some((amount, kind)),
            0 <= i <= amount as u32,
            kids@.len() == i,
            forall|j: int|
                0 <= j < kids@.len() ==> {
                    let c = #[trigger] kids@[j];
                    &&& c.kind == kind
                    &&& c.idx == parent.idx
                    &&& c.health == kind.initial_health_spec()
                    &&& c.id == base_id + j
                    &&& c.wf()
                    &&& exists|ox: int, oy: int|
                        #![trigger clamp_spec(parent.pos.x + ox, COORD_LIMIT as int), clamp_spec(parent.pos.y + oy, COORD_LIMIT as int)]
                        0 <= ox < tile && 0 <= oy < tile && c.pos.x == clamp_spec(
                            parent.pos.x + ox,
                            COORD_LIMIT as int,
                        ) && c.pos.y == clamp_spec(parent.pos.y + oy, COORD_LIMIT as int)
                },
            kids@.len() > 0 ==> kids@[0].pos == parent.pos,
        decreases amount as u32 - i,
    {
        let scale: i64 = i as i64;
        let rx: i64 = if span > 0 && scale > 0 {
            random_in_range(0, span)
        } else {
            0
        };
        let ry: i64 = if span > 0 && scale > 0 {
            random_in_range(0, span)
        } else {
            0
        };
        proof {
            assert((amount as int) * span <= tile) by (nonlinear_arith)
                requires
                    amount == 1 || amount == 4,
                    amount == 1 ==> span == tile,
                    amount == 4 ==> 4 * span <= tile,
            ;
            assert(0 <= rx * scale < tile && 0 <= ry * scale < tile) by (nonlinear_arith)
                requires
                    0 <= rx,
                    rx == 0 || rx < span,
                    0 <= ry,
                    ry == 0 || ry < span,
                    0 <= scale < amount as int,
                    (amount as int) * span <= tile,
                    2 <= tile,
                    0 <= span,
            ;
        }
        let ox: i64 = rx * scale;
        let oy: i64 = ry * scale;
        let cx: i64 = clamp_i64(parent.pos.x + ox, COORD_LIMIT);
        let cy: i64 = clamp_i64(parent.pos.y + oy, COORD_LIMIT);
        let child = Enemy::new(kind, parent.idx, Vec2I { x: cx, y: cy }, base_id + i as u64);
        kids.push(child);
        proof {
            assert(0 <= (ox as int) < tile && 0 <= (oy as int) < tile && child.pos.x == clamp_spec(
                parent.pos.x + (ox as int),
                COORD_LIMIT as int,
            ) && child.pos.y == clamp_spec(parent.pos.y + (oy as int), COORD_LIMIT as int));
            if i == 0 {
                assert(kids@[0].pos.x == parent.pos.x && kids@[0].pos.y == parent.pos.y);
            }
        }
        i = i + 1;
    }
    kids
}

} // verus!
