//! Targeting and firing: each placed weapon picks the nearest live
//! adversary, turns toward it, and fires a projectile at it when its
//! cooldown has elapsed.
//!
//! Ties in distance go to the adversary that entered the registry
//! first, which, since identifiers are handed out in spawn order, is
//! the one with the smallest identifier: a fixed, documented order that
//! makes the targeting decision deterministic.

use vstd::prelude::*;

use crate::cursor::tile_ok;
use crate::enemy::Enemy;
use crate::geom::{dist2, dist2_spec, in_world, Vec2I};
use crate::projectile::Projectile;
use crate::tps_ok;
use crate::turret::Structure;

verus! {

/// The index of the adversary nearest to `from` among the first `n`:
/// smallest squared distance, ties going to the smallest index.
pub open spec fn nearest_prefix_spec(es: Seq<Enemy>, from: Vec2I, n: int) -> int
    decreases n,
{
    if n <= 1 {
        0
    } else {
        let p = nearest_prefix_spec(es, from, n - 1);
        if dist2_spec(es[n - 1].pos, from) < dist2_spec(es[p].pos, from) {
            n - 1
        } else {
            p
        }
    }
}

/// The index of the adversary nearest to `from`: smallest squared
/// distance, ties going to the smallest index.  Only meaningful when
/// the registry is non-empty.
pub open spec fn nearest_index_spec(es: Seq<Enemy>, from: Vec2I) -> int {
    nearest_prefix_spec(es, from, es.len() as int)
}

/// The nearest index really is minimal: every adversary is at least as
/// far away, and an equally distant one has no smaller index.
pub proof fn lemma_nearest_minimal(es: Seq<Enemy>, from: Vec2I, n: int)
    requires
        1 <= n <= es.len(),
    ensures
        0 <= nearest_prefix_spec(es, from, n) < n,
        forall|j: int|
            0 <= j < n ==> dist2_spec(es[nearest_prefix_spec(es, from, n)].pos, from)
                <= dist2_spec((#[trigger] es[j]).pos, from),
        forall|j: int|
            0 <= j < n && dist2_spec((#[trigger] es[j]).pos, from) == dist2_spec(
                es[nearest_prefix_spec(es, from, n)].pos,
                from,
            ) ==> nearest_prefix_spec(es, from, n) <= j,
    decreases n,
{
    if n > 1 {
        lemma_nearest_minimal(es, from, n - 1);
    }
}

/// Find the adversary nearest to `from`: `None` only when no adversary
/// is alive.
pub fn find_nearest(enemies: &Vec<Enemy>, from: Vec2I) -> (r: Option<usize>)
    requires
        in_world(from),
        forall|k: int| 0 <= k < enemies@.len() ==> (#[trigger] enemies@[k]).wf(),
    ensures
        r is Some <==> enemies@.len() > 0,
        r is Some ==> r->Some_0 == nearest_index_spec(enemies@, from),
{
    if enemies.len() == 0 {
        return None;
    }
    let mut best: usize = 0;
    let mut best_d2: i64 = dist2(enemies[0].pos, from);
    let mut i: usize = 1;
    while i < enemies.len()
        invariant
            1 <= i <= enemies@.len(),
            in_world(from),
            forall|k: int| 0 <= k < enemies@.len() ==> (#[trigger] enemies@[k]).wf(),
            0 <= best < i,
            best == nearest_prefix_spec(enemies@, from, i as int),
            best_d2 == dist2_spec(enemies@[best as int].pos, from),
        decreases enemies@.len() - i,
    {
        let d2: i64 = dist2(enemies[i].pos, from);
        if d2 < best_d2 {
            best = i;
            best_d2 = d2;
        }
        i = i + 1;
    }
    Some(best)
}

/// Whether the structure's weapon has a target: some adversary is
/// alive and the nearest one is within the weapon's range.
pub open spec fn has_target_spec(st: Structure, es: Seq<Enemy>, tile: int) -> bool {
    es.len() > 0 && dist2_spec(es[nearest_index_spec(es, st.pos)].pos, st.pos) <= st.gun.range_spec(
        tile,
    ) * st.gun.range_spec(tile)
}

/// The direction from the structure to its nearest target.
pub open spec fn target_delta_spec(st: Structure, es: Seq<Enemy>) -> Vec2I {
    let target = es[nearest_index_spec(es, st.pos)];
    Vec2I { x: (target.pos.x - st.pos.x) as i64, y: (target.pos.y - st.pos.y) as i64 }
}

/// Whether the structure's weapon fires at tick `now`: it has a target
/// in range and at least a cooldown's worth of ticks has passed since
/// its last shot.
pub open spec fn fires_spec(st: Structure, es: Seq<Enemy>, tile: int, tps: int, now: int) -> bool {
    has_target_spec(st, es, tile) && st.gun_state.last_shot + st.gun.cooldown_spec(tps) <= now
}

/// The structure after one targeting-and-firing tick: unchanged without
/// a target in range; otherwise turned to face the target, with its
/// firing timestamp advanced to `now` exactly when it fires.
pub open spec fn engaged_turret_spec(
    st: Structure,
    es: Seq<Enemy>,
    tile: int,
    tps: int,
    now: int,
) -> Structure {
    if !has_target_spec(st, es, tile) {
        st
    } else {
        Structure {
            facing: target_delta_spec(st, es),
            gun_state: if fires_spec(st, es, tile, tps, now) {
                crate::turret::GunState { last_shot: now as u64 }
            } else {
                st.gun_state
            },
            ..st
        }
    }
}

/// How many of the structures fire at tick `now`.
pub open spec fn shots_count_spec(ts: Seq<Structure>, es: Seq<Enemy>, tile: int, tps: int, now: int) -> int
    decreases ts.len(),
{
    if ts.len() == 0 {
        0
    } else {
        shots_count_spec(ts.drop_last(), es, tile, tps, now) + if fires_spec(
            ts.last(),
            es,
            tile,
            tps,
            now,
        ) {
            1int
        } else {
            0int
        }
    }
}

/// A prefix never holds more shots than there are structures in it.
pub proof fn lemma_shots_count_bound(ts: Seq<Structure>, es: Seq<Enemy>, tile: int, tps: int, now: int)
    ensures
        0 <= shots_count_spec(ts, es, tile, tps, now) <= ts.len(),
    decreases ts.len(),
{
    if ts.len() > 0 {
        lemma_shots_count_bound(ts.drop_last(), es, tile, tps, now);
    }
}

/// The projectile is the shot the structure fires: the weapon's
/// projectile kind with its full hit budget, leaving the structure's
/// position, headed at the structure's nearest target.
pub open spec fn shot_matches_spec(p: Projectile, st: Structure, es: Seq<Enemy>) -> bool {
    &&& p.ty == st.gun.projectile_spec()
    &&& p.pos == st.pos
    &&& p.heading == target_delta_spec(st, es)
    &&& p.health == p.ty.initial_health_spec()
    &&& p.hit_enemies@ == Seq::<u64>::empty()
}

/// Extending a prefix by one structure adds its shot, if it fires.
pub proof fn lemma_shots_count_step(
    ts: Seq<Structure>,
    es: Seq<Enemy>,
    tile: int,
    tps: int,
    now: int,
    i: int,
)
    requires
        0 <= i < ts.len(),
    ensures
        shots_count_spec(ts.take(i + 1), es, tile, tps, now) == shots_count_spec(
            ts.take(i),
            es,
            tile,
            tps,
            now,
        ) + if fires_spec(ts[i], es, tile, tps, now) {
            1int
        } else {
            0int
        },
{
    assert(ts.take(i + 1).drop_last() =~= ts.take(i));
    assert(ts.take(i + 1).last() == ts[i]);
}

/// Shot counts grow with the prefix.
pub proof fn lemma_shots_count_mono(
    ts: Seq<Structure>,
    es: Seq<Enemy>,
    tile: int,
    tps: int,
    now: int,
    a: int,
    b: int,
)
    requires
        0 <= a <= b <= ts.len(),
    ensures
        shots_count_spec(ts.take(a), es, tile, tps, now) <= shots_count_spec(
            ts.take(b),
            es,
            tile,
            tps,
            now,
        ),
    decreases b - a,
{
    if a < b {
        lemma_shots_count_step(ts, es, tile, tps, now, a);
        lemma_shots_count_mono(ts, es, tile, tps, now, a + 1, b);
    }
}

/// A prefix never holds more shots than the whole sequence.
pub proof fn lemma_shots_count_prefix(
    ts: Seq<Structure>,
    es: Seq<Enemy>,
    tile: int,
    tps: int,
    now: int,
    n: int,
)
    requires
        0 <= n <= ts.len(),
    ensures
        shots_count_spec(ts.take(n), es, tile, tps, now) <= shots_count_spec(ts, es, tile, tps, now),
    decreases ts.len() - n,
{
    if n < ts.len() {
        lemma_shots_count_prefix(ts, es, tile, tps, now, n + 1);
        assert(ts.take(n + 1).drop_last() =~= ts.take(n));
        assert(ts.take(n + 1).last() == ts[n]);
        lemma_shots_count_bound(ts.take(n), es, tile, tps, now);
    } else {
        assert(ts.take(n) =~= ts);
    }
}

impl Structure {
    /// One targeting-and-firing tick for this structure's weapon, at
    /// tick `now`.  The weapon looks for the nearest adversary; if one
    /// is within range the weapon turns to face it, and fires at it —
    /// returning the new projectile, aimed from the structure at the
    /// adversary's current position — provided more than a cooldown's
    /// worth of ticks has passed since the last shot.
    pub fn fire_control(&mut self, enemies: &Vec<Enemy>, tile: i64, tps: i64, now: u64) -> (shot:
        Option<Projectile>)
        requires
            old(self).wf(),
            tile_ok(tile as int),
            tps_ok(tps as int),
            now <= 0x1000_0000_0000,
            forall|k: int| 0 <= k < enemies@.len() ==> (#[trigger] enemies@[k]).wf(),
        ensures
            final(self).wf(),
            *final(self) == engaged_turret_spec(
                *old(self),
                enemies@,
                tile as int,
                tps as int,
                now as int,
            ),
            shot is Some <==> fires_spec(*old(self), enemies@, tile as int, tps as int, now as int),
            shot is Some ==> {
                let p = shot->Some_0;
                &&& p.wf()
                &&& p.ty == old(self).gun.projectile_spec()
                &&& p.pos == old(self).pos
                &&& p.heading == target_delta_spec(*old(self), enemies@)
                &&& p.health == p.ty.initial_health_spec()
                &&& p.hit_enemies@ == Seq::<u64>::empty()
            },
    {
        let nearest = find_nearest(enemies, self.pos);
        let i = match nearest {
            Some(i) => i,
            None => {
                return None;
            },
        };
        proof {
            lemma_nearest_minimal(enemies@, self.pos, enemies@.len() as int);
        }
        let target: Vec2I = enemies[i].pos;
        let range: i64 = self.gun.range(tile);
        proof {
            assert(0 <= range * range <= 0x40_0000_0000) by (nonlinear_arith)
                requires
                    0 < range <= 0x8_0000,
            ;
        }
        let d2: i64 = dist2(target, self.pos);
        if d2 > range * range {
            return None;
        }
        let delta = Vec2I { x: target.x - self.pos.x, y: target.y - self.pos.y };
        self.facing = delta;
        let cooldown: i64 = self.gun.cooldown_ticks(tps);
        if self.gun_state.last_shot + (cooldown as u64) <= now {
            self.gun_state.last_shot = now;
            Some(Projectile::new(self.gun.projectile(), self.pos, delta))
        } else {
            None
        }
    }
}

} // verus!
