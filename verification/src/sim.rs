//! The simulation state and the fixed-order tick that drives it.
//!
//! All live entities sit in explicit registries owned by one state
//! value: placed structures (each with its weapon), adversaries,
//! projectiles, and the blocking obstacles of the level.  One tick
//! advances the components in a fixed order — shop selection, cursor
//! movement, placement validity, placement and sell commits, targeting
//! and firing, projectile movement and collision, adversary death and
//! splitting, and finally traversal, spawn timing and wave control —
//! so every cross-component read happens at a well-defined point.

use vstd::prelude::*;

use crate::cursor::{tile_ok, GridCursor, TIME_LIMIT};
use crate::enemy::{split_children, Enemy, EnemyKind};
use crate::geom::{
    boxes_overlap, clamp_spec, in_world, lemma_self_overlap, overlap, size_ok, Side, Vec2I,
    COORD_LIMIT,
};
use crate::level::{blocking_decor, Level, LevelError, Path, PATH_LIMIT};
use crate::projectile::Projectile;
use crate::tps_ok;
use crate::turret::{Menu, MenuItem, Structure, Turret};
use crate::wave::{Round, RoundCounter, RoundList, SpawnTimer};

verus! {

/// Largest number of entities a registry may hold; spawns beyond it are
/// dropped so that one runaway wave cannot exhaust the process.
pub const REGISTRY_LIMIT: usize = 0x10_0000;

/// Largest tick count the simulation reasons about.
pub const TICK_LIMIT: u64 = 0x1000_0000_0000;

/// What kind of entity a collider belongs to.
#[derive(Clone, Copy, Debug, PartialEq, Eq, Structural)]
pub enum ColliderType {
    Cursor,
    Tile,
    Turret,
    Projectile,
    Decor,
    Enemy,
}

/// A collision participant tag.
#[derive(Clone, Copy, Debug, PartialEq, Eq, Structural)]
pub struct Collider(pub ColliderType);

/// A static obstacle one tile large: a path tile or a blocking
/// decoration.  Obstacles block placement but take no other part in
/// the simulation.
#[derive(Clone, Copy, Debug)]
pub struct Obstacle {
    pub pos: Vec2I,
    pub collider: Collider,
}

/// The fixed parameters of a simulation: the grid tile size in world
/// units, the half-width of the playable area in tiles, the tick rate,
/// and the period of the spawn timer in ticks.
#[derive(Clone, Copy, Debug)]
pub struct SimConfig {
    pub tile: i64,
    pub map_size: i64,
    pub tps: i64,
    pub spawn_period: i64,
}

impl SimConfig {
    /// The parameters are within the ranges the simulation supports.
    /// The tick rate may not outrun the tile size: that keeps every
    /// kind's integer per-tick step positive, so adversaries always
    /// make progress toward the goal.
    pub open spec fn wf(self) -> bool {
        &&& tile_ok(self.tile as int)
        &&& 1 <= self.map_size <= 1024
        &&& tps_ok(self.tps as int)
        &&& self.tps <= self.tile
        &&& 1 <= self.spawn_period <= 0x1_0000
        &&& self.map_size * self.tile <= 0x400_0000
    }

    /// The playable area's half-width, in world units: a projectile
    /// beyond it in any axis expires.
    pub open spec fn map_bound_spec(self) -> int {
        self.map_size * self.tile
    }

    /// Package the four parameters after checking their ranges.
    pub fn new(tile: i64, map_size: i64, tps: i64, spawn_period: i64) -> (r: Option<SimConfig>)
        ensures
            r is Some <==> tile_ok(tile as int) && 1 <= map_size <= 1024 && tps_ok(tps as int)
                && tps <= tile && 1 <= spawn_period <= 0x1_0000,
            r is Some ==> {
                let c = r->Some_0;
                c.wf() && c.tile == tile && c.map_size == map_size && c.tps == tps
                    && c.spawn_period == spawn_period
            },
    {
        if 2 <= tile && tile <= 0x1_0000 && tile % 2 == 0 && 1 <= map_size && map_size <= 1024 && 1
            <= tps && tps <= 0x1_0000 && tps <= tile && 1 <= spawn_period && spawn_period
            <= 0x1_0000 {
            proof {
                assert(map_size * tile <= 0x400_0000) by (nonlinear_arith)
                    requires
                        1 <= map_size <= 1024,
                        2 <= tile <= 0x1_0000,
                ;
            }
            Some(SimConfig { tile, map_size, tps, spawn_period })
        } else {
            None
        }
    }
}

/// The whole simulation: configuration, level geometry, the cursor and
/// shop, the entity registries, and the round controller.
pub struct SimState {
    pub config: SimConfig,
    pub path: Path,
    pub obstacles: Vec<Obstacle>,
    pub cursor: GridCursor,
    pub menu: Menu,
    pub selected: Option<Turret>,
    pub turrets: Vec<Structure>,
    pub enemies: Vec<Enemy>,
    pub projectiles: Vec<Projectile>,
    pub round_counter: RoundCounter,
    pub round_list: RoundList,
    pub round: Round,
    pub spawn_timer: SpawnTimer,
    pub now_ticks: u64,
    pub next_id: u64,
}

/// The footprint-sized box the cursor projects at its snapped target.
pub open spec fn cursor_box_size_spec(s: SimState) -> Vec2I {
    Vec2I {
        x: (s.config.tile * s.cursor.selection_size) as i64,
        y: (s.config.tile * s.cursor.selection_size) as i64,
    }
}

/// A box one tile large, the footprint of path tiles, decorations and
/// adversaries.
pub open spec fn tile_box_spec(tile: int) -> Vec2I {
    Vec2I { x: tile as i64, y: tile as i64 }
}

/// Whether anything blocks placing at the cursor's snapped target: its
/// footprint box overlaps an obstacle, a placed structure, or a live
/// adversary.
pub open spec fn placement_blocked_spec(s: SimState) -> bool {
    let cpos = s.cursor.last_target_pos;
    let cbox = cursor_box_size_spec(s);
    ||| exists|i: int|
        0 <= i < s.obstacles@.len() && boxes_overlap(
            cpos,
            cbox,
            (#[trigger] s.obstacles@[i]).pos,
            tile_box_spec(s.config.tile as int),
        )
    ||| exists|i: int|
        0 <= i < s.turrets@.len() && boxes_overlap(
            cpos,
            cbox,
            (#[trigger] s.turrets@[i]).pos,
            Vec2I {
                x: s.turrets@[i].size_spec(s.config.tile as int) as i64,
                y: s.turrets@[i].size_spec(s.config.tile as int) as i64,
            },
        )
    ||| exists|i: int|
        0 <= i < s.enemies@.len() && boxes_overlap(
            cpos,
            cbox,
            (#[trigger] s.enemies@[i]).pos,
            tile_box_spec(s.config.tile as int),
        )
}

/// The structure record a placement commit would create: the selected
/// kind, at the cursor's snapped target, with a fresh weapon.
pub open spec fn placed_structure_spec(s: SimState) -> Structure {
    Structure {
        kind: s.selected->Some_0,
        pos: s.cursor.last_target_pos,
        gun: s.selected->Some_0.gun_spec(),
        gun_state: crate::turret::GunState { last_shot: 0 },
        facing: Vec2I { x: 0, y: 0 },
    }
}

/// How the shop pass relates the state before it to the state after it:
/// a pressed selection hotkey picks the item, hands the matching
/// structure kind to the cursor and sets the cursor footprint; no key,
/// no change.
pub open spec fn shop_rel(pre: SimState, post: SimState, select: Option<MenuItem>) -> bool {
    if select is None {
        post == pre
    } else {
        let item = select->Some_0;
        post == SimState {
            cursor: GridCursor {
                selection_size: item.turret_spec().footprint_cells_spec() as i64,
                ..pre.cursor
            },
            menu: Menu { current_item: item },
            selected: Some(item.turret_spec()),
            ..pre
        }
    }
}

/// How the cursor-movement pass relates the states: only the cursor
/// changes, exactly as `GridCursor::moved_cursor_spec` says.
pub open spec fn cursor_tick_rel(
    pre: SimState,
    post: SimState,
    pointer: Option<Vec2I>,
    window: Vec2I,
    camera: Vec2I,
    now_ms: int,
) -> bool {
    post == SimState {
        cursor: pre.cursor.moved_cursor_spec(
            pointer,
            window,
            camera,
            now_ms,
            pre.config.tile as int,
        ),
        ..pre
    }
}

/// How the placement-validity pass relates the states: only the
/// cursor's flag changes, to whether nothing blocks the snapped target.
pub open spec fn validity_rel(pre: SimState, post: SimState) -> bool {
    post == SimState {
        cursor: GridCursor { can_place: !placement_blocked_spec(pre), ..pre.cursor },
        ..pre
    }
}

/// How the placement commit relates the states: a commit happens
/// exactly when a press arrives while the cursor may place, a structure
/// kind is held and the registry has room; it appends exactly the
/// committed structure record, and nothing else changes.
pub open spec fn place_rel(pre: SimState, post: SimState, place_pressed: bool) -> bool {
    let commits = place_pressed && pre.cursor.can_place && pre.selected is Some
        && pre.turrets@.len() < REGISTRY_LIMIT;
    if commits {
        &&& post == SimState { turrets: post.turrets, ..pre }
        &&& post.turrets@ == pre.turrets@.push(placed_structure_spec(pre))
    } else {
        post == pre
    }
}

/// How the targeting-and-firing pass relates the states: each
/// structure is engaged per `engaged_turret_spec`; each firing
/// structure appends exactly one projectile, aimed from it at its
/// nearest target, in registry order (shots that would overflow the
/// projectile registry are dropped, and then only the length is
/// bounded).
pub open spec fn gunners_rel(pre: SimState, post: SimState) -> bool {
    let ts = pre.turrets@;
    let es = pre.enemies@;
    let tile = pre.config.tile as int;
    let tps = pre.config.tps as int;
    let now = pre.now_ticks as int;
    &&& post == SimState { turrets: post.turrets, projectiles: post.projectiles, ..pre }
    &&& post.turrets@.len() == ts.len()
    &&& forall|i: int|
        0 <= i < ts.len() ==> post.turrets@[i] == crate::combat::engaged_turret_spec(
            #[trigger] ts[i],
            es,
            tile,
            tps,
            now,
        )
    &&& post.projectiles@.len() <= REGISTRY_LIMIT
    &&& pre.projectiles@.len() + crate::combat::shots_count_spec(ts, es, tile, tps, now)
        <= REGISTRY_LIMIT ==> {
        let base = pre.projectiles@.len() as int;
        &&& post.projectiles@.len() == base + crate::combat::shots_count_spec(
            ts,
            es,
            tile,
            tps,
            now,
        )
        &&& post.projectiles@.take(base) == pre.projectiles@
        &&& forall|i: int|
            0 <= i < ts.len() && crate::combat::fires_spec(#[trigger] ts[i], es, tile, tps, now)
                ==> crate::combat::shot_matches_spec(
                post.projectiles@[base + crate::combat::shots_count_spec(
                    ts.take(i),
                    es,
                    tile,
                    tps,
                    now,
                )],
                ts[i],
                es,
            )
    }
}

/// How the projectile-movement pass relates the states: the projectile
/// registry becomes exactly the movement pass over the old one, and
/// nothing else changes.
pub open spec fn projectiles_move_rel(pre: SimState, post: SimState) -> bool {
    &&& post == SimState { projectiles: post.projectiles, ..pre }
    &&& post.projectiles@ == projectiles_pass_spec(
        pre.projectiles@,
        pre.config.tile as int,
        pre.config.tps as int,
        pre.config.map_bound_spec(),
    )
}

/// How the projectile collision pass relates the states: each
/// projectile's strike record grows by exactly the identifiers of the
/// adversaries it newly struck (in registry order), each adversary
/// loses exactly one point of health per projectile that newly struck
/// it, and a projectile that struck exactly one adversary left with its
/// heading deflected by some jitter within the ten-degree shear range.
pub open spec fn collisions_rel(pre: SimState, post: SimState) -> bool {
    let tile = pre.config.tile as int;
    &&& post == SimState { enemies: post.enemies, projectiles: post.projectiles, ..pre }
    &&& post.projectiles@.len() == pre.projectiles@.len()
    &&& forall|i: int|
        0 <= i < pre.projectiles@.len() ==> {
            let q0 = #[trigger] pre.projectiles@[i];
            let q1 = post.projectiles@[i];
            let ids = hit_ids_spec(q0, pre.enemies@, tile);
            &&& q1.ty == q0.ty
            &&& q1.pos == q0.pos
            &&& q1.hit_enemies@ == q0.hit_enemies@ + ids
            &&& ids.len() == 0 ==> q1.heading == q0.heading
            &&& ids.len() == 1 ==> exists|j: int|
                -crate::projectile::MAX_DEFLECTION_MILLI <= j
                    <= crate::projectile::MAX_DEFLECTION_MILLI && (
                q1.heading.x as int,
                q1.heading.y as int,
            ) == crate::projectile::deflect_spec(q0.heading, j)
        }
    &&& post.enemies@.len() == pre.enemies@.len()
    &&& forall|k: int|
        0 <= k < pre.enemies@.len() ==> {
            let e0 = #[trigger] pre.enemies@[k];
            let e1 = post.enemies@[k];
            &&& e1.id == e0.id
            &&& e1.kind == e0.kind
            &&& e1.idx == e0.idx
            &&& e1.pos == e0.pos
            &&& e1.health as int == health_after_spec(
                e0.health as int,
                hits_on_count_spec(pre.projectiles@, e0, tile),
            )
        }
}

/// How the sell commit relates the states: a press removes exactly the/// How the sell commit relates the states: a press removes exactly the/// How the sell commit relates the states: a press removes exactly the
/// structures whose footprint strictly contains the cursor's snapped
/// target (their weapons live inside the records and leave with them);
/// no press, no change.
pub open spec fn sell_rel(pre: SimState, post: SimState, sell_pressed: bool) -> bool {
    if sell_pressed {
        &&& post == SimState { turrets: post.turrets, ..pre }
        &&& post.turrets@ == pre.turrets@.filter(
            |t: Structure|
                !boxes_overlap(
                    pre.cursor.last_target_pos,
                    Vec2I { x: 0, y: 0 },
                    t.pos,
                    Vec2I {
                        x: t.size_spec(pre.config.tile as int) as i64,
                        y: t.size_spec(pre.config.tile as int) as i64,
                    },
                ),
        )
    } else {
        post == pre
    }
}

impl SimState {
    /// Everything the simulation assumes between ticks: parameters and
    /// level geometry in range, every entity within the world, the
    /// registries bounded, adversary identifiers distinct and below the
    /// id counter, weapon timestamps no later than the clock, and the
    /// held selection consistent with the shop and the cursor
    /// footprint.
    pub open spec fn wf(self) -> bool {
        &&& self.config.wf()
        &&& self.path.wf()
        &&& self.cursor.wf()
        &&& self.spawn_timer.wf()
        &&& self.now_ticks <= TICK_LIMIT
        &&& self.round_counter.0 <= 0x1000_0000
        &&& self.obstacles@.len() <= REGISTRY_LIMIT
        &&& self.turrets@.len() <= REGISTRY_LIMIT
        &&& self.enemies@.len() <= REGISTRY_LIMIT
        &&& self.projectiles@.len() <= REGISTRY_LIMIT
        &&& forall|i: int| 0 <= i < self.obstacles@.len() ==> in_world((#[trigger] self.obstacles@[i]).pos)
        &&& forall|i: int|
            0 <= i < self.turrets@.len() ==> (#[trigger] self.turrets@[i]).wf() && self.turrets@[i].gun_state.last_shot <= self.now_ticks
        &&& forall|i: int| 0 <= i < self.enemies@.len() ==> (#[trigger] self.enemies@[i]).wf()
        &&& forall|i: int| 0 <= i < self.enemies@.len() ==> (#[trigger] self.enemies@[i]).id < self.next_id
        &&& forall|i: int, j: int|
            0 <= i < j < self.enemies@.len() ==> (#[trigger] self.enemies@[i]).id != (
            #[trigger] self.enemies@[j]).id
        &&& forall|i: int| 0 <= i < self.projectiles@.len() ==> (#[trigger] self.projectiles@[i]).wf()
        &&& self.selected is Some ==> {
            &&& self.cursor.selection_size == self.selected->Some_0.footprint_cells_spec()
            &&& self.selected->Some_0 == self.menu.current_item.turret_spec()
        }
    }

    /// Build a simulation from level data: the path is validated and
    /// converted to world space, each path tile and each blocking
    /// decoration becomes an obstacle, and all registries start empty.
    /// A malformed level is rejected and no simulation starts.
    pub fn new(config: SimConfig, level: &Level, round_list: RoundList) -> (r: Result<
        SimState,
        LevelError,
    >)
        requires
            config.wf(),
        ensures
            r is Ok <==> level.path@.len() >= 2 && crate::level::level_path_in_range(level.path@)
                && level.path@.len() + level.decor@.len() <= REGISTRY_LIMIT,
            r is Ok ==> {
                let s = r->Ok_0;
                let decor = crate::level::blocking_decor_spec(level.decor@, config.tile as int);
                &&& s.wf()
                &&& s.config == config
                &&& s.path.wf()
                &&& s.path.positions@.len() == level.path@.len()
                &&& forall|i: int|
                    0 <= i < level.path@.len() ==> {
                        let w = #[trigger] s.path.positions@[i].position;
                        &&& w.x == crate::level::cell_center_spec(
                            level.path@[i].x as int,
                            config.tile as int,
                        )
                        &&& w.y == crate::level::cell_center_spec(
                            level.path@[i].y as int,
                            config.tile as int,
                        )
                    }
                &&& s.obstacles@.len() == level.path@.len() + decor.len()
                &&& forall|i: int|
                    0 <= i < level.path@.len() ==> #[trigger] s.obstacles@[i] == (Obstacle {
                        pos: s.path.positions@[i].position,
                        collider: Collider(ColliderType::Tile),
                    })
                &&& forall|j: int|
                    0 <= j < decor.len() ==> #[trigger] s.obstacles@[level.path@.len() + j]
                        == (Obstacle { pos: decor[j], collider: Collider(ColliderType::Decor) })
                &&& s.cursor == (GridCursor {
                    can_place: false,
                    last_target_pos: Vec2I { x: 0, y: 0 },
                    last_sample: 0,
                    selection_size: 0,
                    visual_pos: Vec2I { x: 0, y: 0 },
                })
                &&& s.menu.current_item == MenuItem::Turret2x2
                &&& s.selected is None
                &&& s.turrets@.len() == 0
                &&& s.enemies@.len() == 0
                &&& s.projectiles@.len() == 0
                &&& s.round_counter.0 == 0
                &&& s.round.0@.len() == 0
                &&& s.round_list == round_list
                &&& s.spawn_timer.period == config.spawn_period
                &&& s.spawn_timer.elapsed == 0
                &&& s.now_ticks == 0
                &&& s.next_id == 0
            },
    {
        if level.path.len() > REGISTRY_LIMIT || level.decor.len() > REGISTRY_LIMIT
            - level.path.len() {
            return Err(LevelError::WaypointOutOfRange);
        }
        let path = match Path::from_level(level, config.tile) {
            Ok(p) => p,
            Err(e) => {
                return Err(e);
            },
        };
        let mut obstacles: Vec<Obstacle> = Vec::new();
        let mut i: usize = 0;
        while i < path.positions.len()
            invariant
                0 <= i <= path.positions@.len(),
                path.wf(),
                obstacles@.len() == i,
                forall|j: int|
                    0 <= j < i ==> #[trigger] obstacles@[j] == (Obstacle {
                        pos: path.positions@[j].position,
                        collider: Collider(ColliderType::Tile),
                    }),
                forall|j: int|
                    0 <= j < i ==> in_world((#[trigger] obstacles@[j]).pos),
            decreases path.positions@.len() - i,
        {
            obstacles.push(
                Obstacle { pos: path.positions[i].position, collider: Collider(ColliderType::Tile) },
            );
            i = i + 1;
        }
        let decor_pos: Vec<Vec2I> = blocking_decor(level, config.tile);
        let ghost plen = path.positions@.len() as int;
        let mut j: usize = 0;
        while j < decor_pos.len()
            invariant
                0 <= j <= decor_pos@.len(),
                plen == path.positions@.len(),
                path.wf(),
                obstacles@.len() == plen + j,
                decor_pos@ == crate::level::blocking_decor_spec(level.decor@, config.tile as int),
                forall|k: int|
                    0 <= k < plen ==> #[trigger] obstacles@[k] == (Obstacle {
                        pos: path.positions@[k].position,
                        collider: Collider(ColliderType::Tile),
                    }),
                forall|k: int|
                    0 <= k < j ==> #[trigger] obstacles@[plen + k] == (Obstacle {
                        pos: decor_pos@[k],
                        collider: Collider(ColliderType::Decor),
                    }),
                forall|k: int|
                    0 <= k < decor_pos@.len() ==> -PATH_LIMIT <= (#[trigger] decor_pos@[k]).x
                        <= PATH_LIMIT && -PATH_LIMIT <= decor_pos@[k].y <= PATH_LIMIT,
                forall|k: int|
                    0 <= k < obstacles@.len() ==> in_world((#[trigger] obstacles@[k]).pos),
                path.positions@.len() + decor_pos@.len() <= REGISTRY_LIMIT,
            decreases decor_pos@.len() - j,
        {
            obstacles.push(
                Obstacle { pos: decor_pos[j], collider: Collider(ColliderType::Decor) },
            );
            j = j + 1;
        }
        Ok(
            SimState {
                config,
                path,
                obstacles,
                cursor: GridCursor::new(),
                menu: Menu { current_item: MenuItem::Turret2x2 },
                selected: None,
                turrets: Vec::new(),
                enemies: Vec::new(),
                projectiles: Vec::new(),
                round_counter: RoundCounter::new(),
                round_list,
                round: Round(Vec::new()),
                spawn_timer: SpawnTimer::new(config.spawn_period),
                now_ticks: 0,
                next_id: 0,
            },
        )
    }

    /// One cursor-movement tick: recompute the snapped target from the
    /// pointer's world position and ease the visual position toward it.
    /// With the pointer outside the window the cursor freezes.
    pub fn move_cursor(
        &mut self,
        pointer: Option<Vec2I>,
        window: Vec2I,
        camera: Vec2I,
        now_ms: i64,
    )
        requires
            old(self).wf(),
            0 <= now_ms <= TIME_LIMIT,
            pointer is Some ==> {
                let p = pointer->Some_0;
                0 <= p.x <= 0x1_0000 && 0 <= p.y <= 0x1_0000
            },
            0 <= window.x <= 0x1_0000,
            0 <= window.y <= 0x1_0000,
            -0x400_0000 <= camera.x <= 0x400_0000,
            -0x400_0000 <= camera.y <= 0x400_0000,
        ensures
            final(self).wf(),
            cursor_tick_rel(*old(self), *final(self), pointer, window, camera, now_ms as int),
    {
        let tile = self.config.tile;
        self.cursor.move_cursor(pointer, window, camera, now_ms, tile);
    }

    /// The placement-validity pass: the cursor may place exactly when
    /// its footprint box at the snapped target overlaps no obstacle, no
    /// placed structure and no live adversary.
    pub fn handle_collisions(&mut self)
        requires
            old(self).wf(),
        ensures
            final(self).wf(),
            validity_rel(*old(self), *final(self)),
    {
        let cpos = self.cursor.last_target_pos;
        proof {
            assert(0 <= self.config.tile * self.cursor.selection_size <= 0x4_0000)
                by (nonlinear_arith)
                requires
                    2 <= self.config.tile <= 0x1_0000,
                    0 <= self.cursor.selection_size <= 4,
            ;
        }
        let csize: i64 = self.config.tile * self.cursor.selection_size;
        let cbox = Vec2I { x: csize, y: csize };
        let tbox = Vec2I { x: self.config.tile, y: self.config.tile };
        let ghost s0 = *self;

        let mut colliding = false;
        let mut i: usize = 0;
        while i < self.obstacles.len() && !colliding
            invariant
                *self == s0,
                s0.wf(),
                cpos == s0.cursor.last_target_pos,
                cbox == cursor_box_size_spec(s0),
                tbox == tile_box_spec(s0.config.tile as int),
                size_ok(cbox),
                size_ok(tbox),
                0 <= i <= s0.obstacles@.len(),
                colliding ==> placement_blocked_spec(s0),
                !colliding ==> forall|j: int|
                    0 <= j < i ==> !boxes_overlap(
                        cpos,
                        cbox,
                        (#[trigger] s0.obstacles@[j]).pos,
                        tbox,
                    ),
            decreases s0.obstacles@.len() - i + (if colliding { 0int } else { 1int }),
        {
            if overlap(cpos, cbox, self.obstacles[i].pos, tbox).is_some() {
                colliding = true;
            } else {
                i = i + 1;
            }
        }
        if !colliding {
            let mut i: usize = 0;
            while i < self.turrets.len() && !colliding
                invariant
                    *self == s0,
                    s0.wf(),
                    cpos == s0.cursor.last_target_pos,
                    cbox == cursor_box_size_spec(s0),
                    size_ok(cbox),
                    0 <= i <= s0.turrets@.len(),
                    colliding ==> placement_blocked_spec(s0),
                    !colliding ==> forall|j: int|
                        0 <= j < i ==> !boxes_overlap(
                            cpos,
                            cbox,
                            (#[trigger] s0.turrets@[j]).pos,
                            Vec2I {
                                x: s0.turrets@[j].size_spec(s0.config.tile as int) as i64,
                                y: s0.turrets@[j].size_spec(s0.config.tile as int) as i64,
                            },
                        ),
                decreases s0.turrets@.len() - i + (if colliding { 0int } else { 1int }),
            {
                let tsize: i64 = self.turrets[i].size(self.config.tile);
                if overlap(cpos, cbox, self.turrets[i].pos, Vec2I { x: tsize, y: tsize }).is_some()
                {
                    colliding = true;
                } else {
                    i = i + 1;
                }
            }
        }
        if !colliding {
            let mut i: usize = 0;
            while i < self.enemies.len() && !colliding
                invariant
                    *self == s0,
                    s0.wf(),
                    cpos == s0.cursor.last_target_pos,
                    cbox == cursor_box_size_spec(s0),
                    tbox == tile_box_spec(s0.config.tile as int),
                    size_ok(cbox),
                    size_ok(tbox),
                    0 <= i <= s0.enemies@.len(),
                    colliding ==> placement_blocked_spec(s0),
                    !colliding ==> forall|j: int|
                        0 <= j < i ==> !boxes_overlap(
                            cpos,
                            cbox,
                            (#[trigger] s0.enemies@[j]).pos,
                            tbox,
                        ),
                decreases s0.enemies@.len() - i + (if colliding { 0int } else { 1int }),
            {
                if overlap(cpos, cbox, self.enemies[i].pos, tbox).is_some() {
                    colliding = true;
                } else {
                    i = i + 1;
                }
            }
        }
        self.cursor.can_place = !colliding;
    }

    /// The shop pass: a just-pressed selection hotkey picks an item,
    /// hands the matching structure preview to the cursor and sets the
    /// cursor footprint to the item's.  Without a key press nothing
    /// changes.
    pub fn handle_shop(&mut self, select: Option<MenuItem>)
        requires
            old(self).wf(),
        ensures
            final(self).wf(),
            shop_rel(*old(self), *final(self), select),
    {
        let item = match select {
            Some(item) => item,
            None => {
                return ;
            },
        };
        self.menu.current_item = item;
        let turret = item.turret();
        self.cursor.selection_size = turret.footprint_cells();
        self.selected = Some(turret);
    }

    /// The placement commit: exactly when a place press arrives while
    /// the cursor may place and a structure preview is held, one new
    /// structure of the selected kind — carrying its weapon — is
    /// created at the cursor's snapped target.  Otherwise nothing
    /// changes.  A full registry also rejects the commit.
    pub fn handle_place(&mut self, place_pressed: bool) -> (placed: bool)
        requires
            old(self).wf(),
        ensures
            final(self).wf(),
            placed <==> place_pressed && old(self).cursor.can_place && old(self).selected is Some
                && old(self).turrets@.len() < REGISTRY_LIMIT,
            place_rel(*old(self), *final(self), place_pressed),
    {
        if !place_pressed || !self.cursor.can_place {
            return false;
        }
        let kind = match self.selected {
            Some(k) => k,
            None => {
                return false;
            },
        };
        if self.turrets.len() >= REGISTRY_LIMIT {
            return false;
        }
        let st = Structure::new(kind, self.cursor.last_target_pos);
        self.turrets.push(st);
        true
    }

    /// The sell commit: a sell press removes every placed structure
    /// whose footprint box strictly contains the cursor's snapped
    /// target, together with its weapon (the weapon lives inside the
    /// structure record, so none can be orphaned).  Without a press
    /// nothing changes.
    pub fn handle_sell(&mut self, sell_pressed: bool)
        requires
            old(self).wf(),
        ensures
            final(self).wf(),
            sell_rel(*old(self), *final(self), sell_pressed),
    {
        if !sell_pressed {
            return ;
        }
        let cpos = self.cursor.last_target_pos;
        let tile = self.config.tile;
        let ghost s0 = *self;
        let mut kept: Vec<Structure> = Vec::new();
        let mut i: usize = 0;
        while i < self.turrets.len()
            invariant
                *self == s0,
                s0.wf(),
                tile == s0.config.tile,
                cpos == s0.cursor.last_target_pos,
                0 <= i <= s0.turrets@.len(),
                kept@ == s0.turrets@.take(i as int).filter(
                    |t: Structure|
                        !boxes_overlap(
                            s0.cursor.last_target_pos,
                            Vec2I { x: 0, y: 0 },
                            t.pos,
                            Vec2I {
                                x: t.size_spec(s0.config.tile as int) as i64,
                                y: t.size_spec(s0.config.tile as int) as i64,
                            },
                        ),
                ),
                forall|k: int|
                    0 <= k < kept@.len() ==> (#[trigger] kept@[k]).wf()
                        && kept@[k].gun_state.last_shot <= s0.now_ticks,
                kept@.len() <= i,
            decreases s0.turrets@.len() - i,
        {
            let st = self.turrets[i];
            let tsize: i64 = st.size(tile);
            let hit = overlap(cpos, Vec2I { x: 0, y: 0 }, st.pos, Vec2I { x: tsize, y: tsize });
            let sold = match hit {
                Some(Side::Inside) => true,
                Some(_) => false,
                None => false,
            };
            proof {
                if boxes_overlap(
                    cpos,
                    Vec2I { x: 0, y: 0 },
                    st.pos,
                    Vec2I { x: tsize, y: tsize },
                ) {
                    assert(crate::geom::overlap_side(
                        cpos,
                        Vec2I { x: 0, y: 0 },
                        st.pos,
                        Vec2I { x: tsize, y: tsize },
                    ) == Side::Inside);
                }
            }
            if !sold {
                kept.push(st);
            }
            proof {
                assert(s0.turrets@.take(i as int + 1).drop_last() =~= s0.turrets@.take(i as int));
                assert(s0.turrets@.take(i as int + 1).last() == s0.turrets@[i as int]);
                reveal(Seq::filter);
            }
            i = i + 1;
        }
        proof {
            assert(s0.turrets@.take(s0.turrets@.len() as int) =~= s0.turrets@);
        }
        self.turrets = kept;
    }
    /// The targeting-and-firing pass: every placed weapon looks for the
    /// nearest live adversary, turns to face it when it is in range,
    /// and fires at it when its cooldown has elapsed.  Each shot adds
    /// one projectile, aimed from the structure at the target's current
    /// position; shots that would overflow the projectile registry are
    /// dropped.
    #[verifier::rlimit(100)]
    #[verifier::spinoff_prover]
    pub fn handle_gunners(&mut self)
        requires
            old(self).wf(),
        ensures
            final(self).wf(),
            gunners_rel(*old(self), *final(self)),
    {
        let ghost s0 = *self;
        let ghost ts = s0.turrets@;
        let ghost es = s0.enemies@;
        let ghost tile_g = s0.config.tile as int;
        let ghost tps_g = s0.config.tps as int;
        let ghost now_g = s0.now_ticks as int;
        let ghost base = s0.projectiles@.len() as int;
        let ghost nocap = s0.projectiles@.len() + crate::combat::shots_count_spec(
            ts,
            es,
            tile_g,
            tps_g,
            now_g,
        ) <= REGISTRY_LIMIT;

        let tile = self.config.tile;
        let tps = self.config.tps;
        let now = self.now_ticks;
        let mut i: usize = 0;
        while i < self.turrets.len()
            invariant
                self.config == s0.config,
                self.path == s0.path,
                self.obstacles == s0.obstacles,
                self.cursor == s0.cursor,
                self.menu == s0.menu,
                self.selected == s0.selected,
                self.enemies == s0.enemies,
                self.round_counter == s0.round_counter,
                self.round_list == s0.round_list,
                self.round == s0.round,
                self.spawn_timer == s0.spawn_timer,
                self.now_ticks == s0.now_ticks,
                self.next_id == s0.next_id,
                s0.wf(),
                ts == s0.turrets@,
                es == s0.enemies@,
                tile == s0.config.tile,
                tps == s0.config.tps,
                now == s0.now_ticks,
                tile_g == tile as int,
                tps_g == tps as int,
                now_g == now as int,
                base == s0.projectiles@.len() as int,
                nocap == (base + crate::combat::shots_count_spec(ts, es, tile_g, tps_g, now_g)
                    <= REGISTRY_LIMIT),
                0 <= i <= ts.len(),
                self.turrets@.len() == ts.len(),
                forall|j: int|
                    i <= j < ts.len() ==> self.turrets@[j] == ts[j],
                forall|j: int|
                    0 <= j < i ==> self.turrets@[j] == crate::combat::engaged_turret_spec(
                        #[trigger] ts[j],
                        es,
                        tile_g,
                        tps_g,
                        now_g,
                    ),
                forall|j: int|
                    0 <= j < self.turrets@.len() ==> (#[trigger] self.turrets@[j]).wf()
                        && self.turrets@[j].gun_state.last_shot <= s0.now_ticks,
                forall|j: int|
                    0 <= j < self.projectiles@.len() ==> (#[trigger] self.projectiles@[j]).wf(),
                self.projectiles@.len() <= REGISTRY_LIMIT,
                nocap ==> {
                    &&& self.projectiles@.len() == base + crate::combat::shots_count_spec(
                        ts.take(i as int),
                        es,
                        tile_g,
                        tps_g,
                        now_g,
                    )
                    &&& self.projectiles@.take(base) == s0.projectiles@
                    &&& forall|j: int|
                        0 <= j < i && crate::combat::fires_spec(#[trigger] ts[j], es, tile_g, tps_g, now_g)
                            ==> crate::combat::shot_matches_spec(
                            self.projectiles@[base + crate::combat::shots_count_spec(
                                ts.take(j),
                                es,
                                tile_g,
                                tps_g,
                                now_g,
                            )],
                            ts[j],
                            es,
                        )
                },
            decreases ts.len() - i,
        {
            let mut st: Structure = self.turrets[i];
            let shot = st.fire_control(&self.enemies, tile, tps, now);
            self.turrets[i] = st;
            proof {
                crate::combat::lemma_shots_count_step(ts, es, tile_g, tps_g, now_g, i as int);
                crate::combat::lemma_shots_count_bound(ts.take(i as int), es, tile_g, tps_g, now_g);
                if nocap {
                    crate::combat::lemma_shots_count_prefix(ts, es, tile_g, tps_g, now_g, i as int + 1);
                }
            }
            let ghost before_push = self.projectiles@;
            match shot {
                Some(p) => {
                    proof {
                        if nocap {
                            assert(self.projectiles@.len() < REGISTRY_LIMIT);
                        }
                    }
                    if self.projectiles.len() < REGISTRY_LIMIT {
                        self.projectiles.push(p);
                        proof {
                            if nocap {
                                assert(self.projectiles@.take(base) =~= before_push.take(base));
                                assert(self.projectiles@.take(base) == s0.projectiles@);
                                assert forall|j: int|
                                    0 <= j < i as int + 1 && crate::combat::fires_spec(
                                        #[trigger] ts[j],
                                        es,
                                        tile_g,
                                        tps_g,
                                        now_g,
                                    ) implies crate::combat::shot_matches_spec(
                                    self.projectiles@[base + crate::combat::shots_count_spec(
                                        ts.take(j),
                                        es,
                                        tile_g,
                                        tps_g,
                                        now_g,
                                    )],
                                    ts[j],
                                    es,
                                ) by {
                                    crate::combat::lemma_shots_count_bound(
                                        ts.take(j),
                                        es,
                                        tile_g,
                                        tps_g,
                                        now_g,
                                    );
                                    if j < i as int {
                                        crate::combat::lemma_shots_count_step(
                                            ts,
                                            es,
                                            tile_g,
                                            tps_g,
                                            now_g,
                                            j,
                                        );
                                        crate::combat::lemma_shots_count_mono(
                                            ts,
                                            es,
                                            tile_g,
                                            tps_g,
                                            now_g,
                                            j + 1,
                                            i as int,
                                        );
                                        assert(self.projectiles@[base
                                            + crate::combat::shots_count_spec(
                                            ts.take(j),
                                            es,
                                            tile_g,
                                            tps_g,
                                            now_g,
                                        )] == before_push[base + crate::combat::shots_count_spec(
                                            ts.take(j),
                                            es,
                                            tile_g,
                                            tps_g,
                                            now_g,
                                        )]);
                                    } else {
                                        assert(self.projectiles@[base
                                            + crate::combat::shots_count_spec(
                                            ts.take(j),
                                            es,
                                            tile_g,
                                            tps_g,
                                            now_g,
                                        )] == p);
                                    }
                                }
                            }
                        }
                    }
                },
                None => {},
            }
            i = i + 1;
        }
        proof {
            assert(ts.take(ts.len() as int) =~= ts);
        }
    }

    /// The projectile movement pass: a projectile beyond the playable
    /// bounds, or out of hit budget, expires; every other projectile
    /// advances one step of its velocity along its heading.
    pub fn handle_projectiles(&mut self)
        requires
            old(self).wf(),
        ensures
            final(self).wf(),
            projectiles_move_rel(*old(self), *final(self)),
    {
        let ghost s0 = *self;
        let ghost ps0 = s0.projectiles@;
        let ghost tile_g = s0.config.tile as int;
        let ghost tps_g = s0.config.tps as int;
        let ghost mb_g = s0.config.map_bound_spec();

        let tile = self.config.tile;
        let tps = self.config.tps;
        proof {
            assert(0 < s0.config.map_size * s0.config.tile) by (nonlinear_arith)
                requires
                    1 <= s0.config.map_size,
                    2 <= s0.config.tile,
            ;
        }
        let mb: i64 = self.config.map_size * self.config.tile;
        let mut kept: Vec<Projectile> = Vec::new();
        let ghost n = ps0.len() as int;
        while self.projectiles.len() > 0
            invariant
                self.config == s0.config,
                self.path == s0.path,
                self.obstacles == s0.obstacles,
                self.cursor == s0.cursor,
                self.menu == s0.menu,
                self.selected == s0.selected,
                self.turrets == s0.turrets,
                self.enemies == s0.enemies,
                self.round_counter == s0.round_counter,
                self.round_list == s0.round_list,
                self.round == s0.round,
                self.spawn_timer == s0.spawn_timer,
                self.now_ticks == s0.now_ticks,
                self.next_id == s0.next_id,
                s0.wf(),
                ps0 == s0.projectiles@,
                n == ps0.len(),
                tile == s0.config.tile,
                tps == s0.config.tps,
                tile_g == s0.config.tile as int,
                tps_g == s0.config.tps as int,
                mb_g == s0.config.map_bound_spec(),
                mb == mb_g,
                0 < mb <= 0x400_0000,
                self.projectiles@.len() <= n,
                self.projectiles@ == ps0.skip(n - self.projectiles@.len()),
                kept@ == projectiles_pass_spec(
                    ps0.take(n - self.projectiles@.len()),
                    tile_g,
                    tps_g,
                    mb_g,
                ),
                kept@.len() <= n - self.projectiles@.len(),
                forall|k: int| 0 <= k < kept@.len() ==> (#[trigger] kept@[k]).wf(),
            decreases self.projectiles@.len(),
        {
            let ghost processed = n - self.projectiles@.len();
            let mut p: Projectile = self.projectiles.remove(0);
            proof {
                assert(ps0.skip(processed)[0] == ps0[processed]);
                assert(p == ps0[processed]);
                assert(self.projectiles@ =~= ps0.skip(processed + 1));
                assert(s0.projectiles@[processed].wf());
                assert(ps0[processed].wf());
                assert(ps0.take(processed + 1).drop_last() =~= ps0.take(processed));
                assert(ps0.take(processed + 1).last() == ps0[processed]);
            }
            let oob = p.pos.x > mb || p.pos.y > mb || p.pos.x < -mb || p.pos.y < -mb;
            if !oob && p.health > 0 {
                let v = p.ty.velocity(tile, tps);
                let npos = crate::geom::step_dir(p.pos, p.heading, v);
                proof {
                    let np = crate::geom::step_dir_spec(
                        ps0[processed].pos,
                        ps0[processed].heading,
                        v as int,
                    );
                    assert(np.0 as i64 == npos.x && np.1 as i64 == npos.y);
                }
                p.pos = npos;
                kept.push(p);
                proof {
                    assert(kept@.last() == moved_projectile_spec(ps0[processed], tile_g, tps_g));
                    assert(kept@ =~= projectiles_pass_spec(
                        ps0.take(processed + 1),
                        tile_g,
                        tps_g,
                        mb_g,
                    ));
                }
            }
        }
        proof {
            assert(ps0.take(n) =~= ps0);
        }
        self.projectiles = kept;
    }
}

/// A projectile is beyond the playable bound in some axis.
pub open spec fn oob_spec(pos: Vec2I, mb: int) -> bool {
    pos.x > mb || pos.y > mb || pos.x < -mb || pos.y < -mb
}

/// The projectile after one movement step: its position advanced one
/// step of its velocity along its heading, everything else unchanged.
pub open spec fn moved_projectile_spec(p: Projectile, tile: int, tps: int) -> Projectile {
    let v = p.ty.velocity_spec(tile, tps);
    let np = crate::geom::step_dir_spec(p.pos, p.heading, v);
    Projectile { pos: Vec2I { x: np.0 as i64, y: np.1 as i64 }, ..p }
}

/// The projectile registry after one movement pass: expired projectiles
/// (out of bounds or out of hit budget) dropped, the others moved, in
/// order.
pub open spec fn projectiles_pass_spec(ps: Seq<Projectile>, tile: int, tps: int, mb: int) -> Seq<
    Projectile,
>
    decreases ps.len(),
{
    if ps.len() == 0 {
        Seq::empty()
    } else {
        let rest = projectiles_pass_spec(ps.drop_last(), tile, tps, mb);
        let p = ps.last();
        if oob_spec(p.pos, mb) || p.health <= 0 {
            rest
        } else {
            rest.push(moved_projectile_spec(p, tile, tps))
        }
    }
}

/// A projectile strikes an adversary it has not struck before: their
/// footprint boxes overlap, and the adversary's identifier is not yet
/// in the projectile's strike record.
pub open spec fn newly_hit_spec(p: Projectile, e: Enemy, tile: int) -> bool {
    &&& boxes_overlap(
        p.pos,
        Vec2I { x: p.ty.size_spec(tile) as i64, y: p.ty.size_spec(tile) as i64 },
        e.pos,
        tile_box_spec(tile),
    )
    &&& !p.hit_enemies@.contains(e.id)
}

/// One point of damage, stopping at the sane floor so that a runaway
/// barrage cannot wrap the counter around.
pub open spec fn dec_health_spec(h: int) -> int {
    if h > i32::MIN {
        h - 1
    } else {
        h as int
    }
}

/// The identifiers of the adversaries a projectile strikes in one
/// collision pass, in registry order.
pub open spec fn hit_ids_spec(p: Projectile, es: Seq<Enemy>, tile: int) -> Seq<u64>
    decreases es.len(),
{
    if es.len() == 0 {
        Seq::empty()
    } else {
        let rest = hit_ids_spec(p, es.drop_last(), tile);
        if newly_hit_spec(p, es.last(), tile) {
            rest.push(es.last().id)
        } else {
            rest
        }
    }
}

/// A pass over a prefix strikes at most one adversary per registry slot.
pub proof fn lemma_hit_ids_bound(p: Projectile, es: Seq<Enemy>, tile: int)
    ensures
        hit_ids_spec(p, es, tile).len() <= es.len(),
    decreases es.len(),
{
    if es.len() > 0 {
        lemma_hit_ids_bound(p, es.drop_last(), tile);
    }
}

/// How many of the projectiles strike the adversary in one collision
/// pass: at most one strike per projectile, however long they overlap.
pub open spec fn hits_on_count_spec(ps: Seq<Projectile>, e: Enemy, tile: int) -> int
    decreases ps.len(),
{
    if ps.len() == 0 {
        0
    } else {
        hits_on_count_spec(ps.drop_last(), e, tile) + if newly_hit_spec(ps.last(), e, tile) {
            1int
        } else {
            0int
        }
    }
}

/// No adversary takes more strikes than there are projectiles.
pub proof fn lemma_hits_on_count_bound(ps: Seq<Projectile>, e: Enemy, tile: int)
    ensures
        0 <= hits_on_count_spec(ps, e, tile) <= ps.len(),
    decreases ps.len(),
{
    if ps.len() > 0 {
        lemma_hits_on_count_bound(ps.drop_last(), e, tile);
    }
}

/// The health left after `c` points of damage, stopping at the floor.
pub open spec fn health_after_spec(h: int, c: int) -> int {
    if h - c >= i32::MIN {
        h - c
    } else {
        i32::MIN as int
    }
}

/// Resolve one projectile against every live adversary: each adversary
/// whose box overlaps the projectile's and whose identifier is not yet
/// in the projectile's strike record loses one point of health and
/// costs the projectile one point of hit budget, exactly once; the
/// projectile's heading is deflected by a fresh random jitter for each
/// strike.  An adversary already struck by this projectile is left
/// alone no matter how long the two keep overlapping.
fn resolve_projectile(p: &mut Projectile, enemies: &mut Vec<Enemy>, tile: i64)
    requires
        old(p).wf(),
        tile_ok(tile as int),
        forall|k: int| 0 <= k < old(enemies)@.len() ==> (#[trigger] old(enemies)@[k]).wf(),
        forall|i: int, j: int|
            0 <= i < j < old(enemies)@.len() ==> (#[trigger] old(enemies)@[i]).id != (
            #[trigger] old(enemies)@[j]).id,
        old(p).hit_enemies@.len() + old(enemies)@.len() < 0x1000_0000,
    ensures
        final(p).wf(),
        final(p).ty == old(p).ty,
        final(p).pos == old(p).pos,
        final(p).hit_enemies@ == old(p).hit_enemies@ + hit_ids_spec(
            *old(p),
            old(enemies)@,
            tile as int,
        ),
        hit_ids_spec(*old(p), old(enemies)@, tile as int).len() == 0 ==> final(p).heading == old(
            p,
        ).heading,
        hit_ids_spec(*old(p), old(enemies)@, tile as int).len() == 1 ==> exists|j: int|
            -crate::projectile::MAX_DEFLECTION_MILLI <= j <= crate::projectile::MAX_DEFLECTION_MILLI
                && (final(p).heading.x as int, final(p).heading.y as int)
                == crate::projectile::deflect_spec(old(p).heading, j),
        final(enemies)@.len() == old(enemies)@.len(),
        forall|k: int|
            0 <= k < old(enemies)@.len() ==> {
                let e0 = #[trigger] old(enemies)@[k];
                let e1 = final(enemies)@[k];
                &&& e1.id == e0.id
                &&& e1.kind == e0.kind
                &&& e1.idx == e0.idx
                &&& e1.pos == e0.pos
                &&& e1.health as int == if newly_hit_spec(*old(p), e0, tile as int) {
                    dec_health_spec(e0.health as int)
                } else {
                    e0.health as int
                }
            },
{
    let ghost p0 = *old(p);
    let ghost es0 = old(enemies)@;
    let ghost tile_g = tile as int;
    let psize: i64 = p.ty.size(tile);
    let pbox = Vec2I { x: psize, y: psize };
    let tbox = Vec2I { x: tile, y: tile };
    let mut k: usize = 0;
    while k < enemies.len()
        invariant
            tile_ok(tile_g),
            tile_g == tile as int,
            p0.wf(),
            pbox == (Vec2I { x: p0.ty.size_spec(tile_g) as i64, y: p0.ty.size_spec(tile_g) as i64 }),
            tbox == tile_box_spec(tile_g),
            forall|j: int| 0 <= j < es0.len() ==> (#[trigger] es0[j]).wf(),
            forall|i: int, j: int|
                0 <= i < j < es0.len() ==> (#[trigger] es0[i]).id != (#[trigger] es0[j]).id,
            p0.hit_enemies@.len() + es0.len() < 0x1000_0000,
            0 <= k <= es0.len(),
            p.wf(),
            p.ty == p0.ty,
            p.pos == p0.pos,
            p.hit_enemies@ == p0.hit_enemies@ + hit_ids_spec(p0, es0.take(k as int), tile_g),
            hit_ids_spec(p0, es0.take(k as int), tile_g).len() == 0 ==> p.heading == p0.heading,
            hit_ids_spec(p0, es0.take(k as int), tile_g).len() == 1 ==> exists|j: int|
                -crate::projectile::MAX_DEFLECTION_MILLI <= j
                    <= crate::projectile::MAX_DEFLECTION_MILLI && (
                p.heading.x as int,
                p.heading.y as int,
            ) == crate::projectile::deflect_spec(p0.heading, j),
            forall|j: int|
                k <= j < es0.len() ==> p.hit_enemies@.contains((#[trigger] es0[j]).id)
                    == p0.hit_enemies@.contains(es0[j].id),
            enemies@.len() == es0.len(),
            forall|j: int| k <= j < es0.len() ==> enemies@[j] == es0[j],
            forall|j: int|
                0 <= j < k ==> {
                    let e0 = #[trigger] es0[j];
                    let e1 = enemies@[j];
                    &&& e1.id == e0.id
                    &&& e1.kind == e0.kind
                    &&& e1.idx == e0.idx
                    &&& e1.pos == e0.pos
                    &&& e1.health as int == if newly_hit_spec(p0, e0, tile_g) {
                        dec_health_spec(e0.health as int)
                    } else {
                        e0.health as int
                    }
                },
        decreases es0.len() - k,
    {
        proof {
            lemma_hit_ids_bound(p0, es0.take(k as int), tile_g);
            assert(es0.take(k as int + 1).drop_last() =~= es0.take(k as int));
            assert(es0.take(k as int + 1).last() == es0[k as int]);
        }
        let e: Enemy = enemies[k];
        let collided = overlap(p.pos, pbox, e.pos, tbox).is_some();
        if collided && !p.has_hit(e.id) {
            let j: i64 = crate::rng::random_in_range(
                -crate::projectile::MAX_DEFLECTION_MILLI,
                crate::projectile::MAX_DEFLECTION_MILLI + 1,
            );
            let ghost pre_hits = p.hit_enemies@;
            let ghost pre_heading = p.heading;
            p.record_hit(e.id, j);
            proof {
                assert forall|jj: int| k as int + 1 <= jj < es0.len() implies p.hit_enemies@.contains(
                    (#[trigger] es0[jj]).id,
                ) == pre_hits.contains(es0[jj].id) by {
                    vstd::seq_lib::lemma_seq_contains_after_push(pre_hits, es0[k as int].id, es0[jj].id);
                }
                if hit_ids_spec(p0, es0.take(k as int), tile_g).len() == 0 {
                    assert(pre_heading == p0.heading);
                    assert(-crate::projectile::MAX_DEFLECTION_MILLI <= j as int
                        <= crate::projectile::MAX_DEFLECTION_MILLI && (
                    p.heading.x as int,
                    p.heading.y as int,
                    ) == crate::projectile::deflect_spec(p0.heading, j as int));
                }
            }
            let mut e2 = e;
            if e2.health > i32::MIN {
                e2.health = e2.health - 1;
            }
            enemies[k] = e2;
        }
        k = k + 1;
    }
    proof {
        assert(es0.take(es0.len() as int) =~= es0);
    }
}

impl SimState {
    /// The projectile collision pass: every (projectile, adversary)
    /// pair whose boxes overlap and that has not collided before costs
    /// the adversary one point of health and the projectile one point
    /// of hit budget, exactly once per pair however many ticks the two
    /// keep overlapping; each strike also deflects the projectile's
    /// heading by a small random jitter.  The health-floor requirement
    /// is a machine limit: it keeps a projectile's strike record
    /// addressable.
    pub fn handle_projectile_collisions(&mut self)
        requires
            old(self).wf(),
            forall|i: int|
                0 <= i < old(self).projectiles@.len() ==> (#[trigger] old(self).projectiles@[i]).health
                    >= -0x100_0000,
        ensures
            final(self).wf(),
            collisions_rel(*old(self), *final(self)),
    {
        let ghost s0 = *self;
        let ghost ps0 = s0.projectiles@;
        let ghost es0 = s0.enemies@;
        let ghost tile_g = s0.config.tile as int;
        let ghost n = ps0.len() as int;
        let tile = self.config.tile;
        let mut out: Vec<Projectile> = Vec::new();
        while self.projectiles.len() > 0
            invariant
                self.config == s0.config,
                self.path == s0.path,
                self.obstacles == s0.obstacles,
                self.cursor == s0.cursor,
                self.menu == s0.menu,
                self.selected == s0.selected,
                self.turrets == s0.turrets,
                self.round_counter == s0.round_counter,
                self.round_list == s0.round_list,
                self.round == s0.round,
                self.spawn_timer == s0.spawn_timer,
                self.now_ticks == s0.now_ticks,
                self.next_id == s0.next_id,
                s0.wf(),
                ps0 == s0.projectiles@,
                es0 == s0.enemies@,
                tile_g == s0.config.tile as int,
                tile == s0.config.tile,
                n == ps0.len(),
                forall|i: int| 0 <= i < n ==> (#[trigger] ps0[i]).health >= -0x100_0000,
                out@.len() + self.projectiles@.len() == n,
                self.projectiles@ == ps0.skip(out@.len() as int),
                forall|i: int|
                    0 <= i < out@.len() ==> {
                        let q0 = #[trigger] ps0[i];
                        let q1 = out@[i];
                        let ids = hit_ids_spec(q0, es0, tile_g);
                        &&& q1.wf()
                        &&& q1.ty == q0.ty
                        &&& q1.pos == q0.pos
                        &&& q1.hit_enemies@ == q0.hit_enemies@ + ids
                        &&& ids.len() == 0 ==> q1.heading == q0.heading
                        &&& ids.len() == 1 ==> exists|j: int|
                            -crate::projectile::MAX_DEFLECTION_MILLI <= j
                                <= crate::projectile::MAX_DEFLECTION_MILLI && (
                            q1.heading.x as int,
                            q1.heading.y as int,
                        ) == crate::projectile::deflect_spec(q0.heading, j)
                    },
                self.enemies@.len() == es0.len(),
                forall|k: int|
                    0 <= k < es0.len() ==> {
                        let e0 = #[trigger] es0[k];
                        let e1 = self.enemies@[k];
                        &&& e1.id == e0.id
                        &&& e1.kind == e0.kind
                        &&& e1.idx == e0.idx
                        &&& e1.pos == e0.pos
                        &&& e1.health as int == health_after_spec(
                            e0.health as int,
                            hits_on_count_spec(ps0.take(out@.len() as int), e0, tile_g),
                        )
                    },
                forall|k: int| 0 <= k < self.enemies@.len() ==> (#[trigger] self.enemies@[k]).wf(),
                forall|i: int, j: int|
                    0 <= i < j < self.enemies@.len() ==> (#[trigger] self.enemies@[i]).id != (
                    #[trigger] self.enemies@[j]).id,
            decreases self.projectiles@.len(),
        {
            let ghost i = out@.len() as int;
            let mut p: Projectile = self.projectiles.remove(0);
            let ghost es_now = self.enemies@;
            proof {
                assert(ps0.skip(i)[0] == ps0[i]);
                assert(p == ps0[i]);
                assert(self.projectiles@ =~= ps0.skip(i + 1));
                assert(s0.projectiles@[i].wf());
                // The projectile's strike record stays addressable: its
                // budget equation bounds the record by the health floor.
                assert(p.hit_enemies@.len() + self.enemies@.len() < 0x1000_0000);
            }
            resolve_projectile(&mut p, &mut self.enemies, tile);
            proof {
                // Striking depends only on positions and identifiers,
                // which earlier projectiles left unchanged.
                assert forall|k: int| 0 <= k < es0.len() implies newly_hit_spec(
                    ps0[i],
                    es_now[k],
                    tile_g,
                ) == newly_hit_spec(ps0[i], #[trigger] es0[k], tile_g) by {
                    assert(es_now[k].pos == es0[k].pos && es_now[k].id == es0[k].id);
                }
                lemma_hit_ids_same_geometry(ps0[i], es_now, es0, tile_g);
                assert(ps0.take(i + 1).drop_last() =~= ps0.take(i));
                assert(ps0.take(i + 1).last() == ps0[i]);
                assert forall|k: int| 0 <= k < es0.len() implies (#[trigger] self.enemies@[k]).health
                    as int == health_after_spec(
                    es0[k].health as int,
                    hits_on_count_spec(ps0.take(i + 1), es0[k], tile_g),
                ) by {
                    lemma_hits_on_count_bound(ps0.take(i), es0[k], tile_g);
                }
            }
            out.push(p);
        }
        proof {
            assert(ps0.take(n) =~= ps0);
            assert(out@.len() == n);
            assert forall|k: int| 0 <= k < self.enemies@.len() implies (
            #[trigger] self.enemies@[k]).id < self.next_id by {
                assert(self.enemies@[k].id == es0[k].id);
                assert(s0.enemies@[k].id < s0.next_id);
            }
            assert forall|i: int| 0 <= i < out@.len() implies (#[trigger] out@[i]).wf() by {
                let q0 = ps0[i];
                assert(out@[i].ty == q0.ty);
            }
        }
        self.projectiles = out;
    }
}

/// Two adversary registries that agree on positions and identifiers
/// slot for slot are struck identically by a projectile.
proof fn lemma_hit_ids_same_geometry(p: Projectile, es1: Seq<Enemy>, es2: Seq<Enemy>, tile: int)
    requires
        es1.len() == es2.len(),
        forall|k: int|
            0 <= k < es1.len() ==> (#[trigger] es1[k]).pos == es2[k].pos && es1[k].id == es2[k].id,
    ensures
        hit_ids_spec(p, es1, tile) == hit_ids_spec(p, es2, tile),
    decreases es1.len(),
{
    if es1.len() > 0 {
        assert(es1.drop_last().len() == es2.drop_last().len());
        lemma_hit_ids_same_geometry(p, es1.drop_last(), es2.drop_last(), tile);
        assert(es1.last().pos == es2.last().pos && es1.last().id == es2.last().id);
    }
}

impl SimState {
    /// The death-and-split pass: every adversary out of health is
    /// removed; one whose kind carries a split rule is replaced by the
    /// configured count of children of the configured kind, each
    /// inheriting the parent's waypoint index, scattered near the
    /// parent's last position, appended after the survivors with fresh
    /// identifiers.  Children that would overflow the registry or the
    /// identifier space are dropped.
    pub fn handle_enemies(&mut self)
        requires
            old(self).wf(),
        ensures
            final(self).wf(),
            death_split_rel(*old(self), *final(self)),
    {
        let ghost s0 = *self;
        let ghost es0 = s0.enemies@;
        let ghost n = es0.len() as int;
        let ghost id0 = s0.next_id;
        let ghost nocap = es0.len() + children_meta_spec(es0).len() <= REGISTRY_LIMIT && id0
            + children_meta_spec(es0).len() <= 0xFFFF_FFFF_FFFF_0000;
        let tile = self.config.tile;
        let mut keep: Vec<Enemy> = Vec::new();
        let mut kids_all: Vec<Enemy> = Vec::new();
        let mut i: usize = 0;
        proof {
            lemma_survivors_props(es0, id0);
        }
        while i < self.enemies.len()
            invariant
                self.config == s0.config,
                self.path == s0.path,
                self.obstacles == s0.obstacles,
                self.cursor == s0.cursor,
                self.menu == s0.menu,
                self.selected == s0.selected,
                self.turrets == s0.turrets,
                self.enemies == s0.enemies,
                self.projectiles == s0.projectiles,
                self.round_counter == s0.round_counter,
                self.round_list == s0.round_list,
                self.round == s0.round,
                self.spawn_timer == s0.spawn_timer,
                self.now_ticks == s0.now_ticks,
                s0.wf(),
                es0 == s0.enemies@,
                n == es0.len(),
                id0 == s0.next_id,
                tile == s0.config.tile,
                nocap == (es0.len() + children_meta_spec(es0).len() <= REGISTRY_LIMIT && id0
                    + children_meta_spec(es0).len() <= 0xFFFF_FFFF_FFFF_0000),
                0 <= i <= n,
                keep@ == survivors_spec(es0.take(i as int)),
                keep@.len() <= i,
                forall|k: int| 0 <= k < kids_all@.len() ==> (#[trigger] kids_all@[k]).wf(),
                forall|k: int|
                    0 <= k < kids_all@.len() ==> id0 <= (#[trigger] kids_all@[k]).id
                        < self.next_id,
                forall|a: int, b: int|
                    0 <= a < b < kids_all@.len() ==> (#[trigger] kids_all@[a]).id != (
                    #[trigger] kids_all@[b]).id,
                self.next_id == id0 + kids_all@.len(),
                kids_all@.len() <= children_meta_spec(es0.take(i as int)).len(),
                kids_all@.len() + n <= REGISTRY_LIMIT,
                nocap ==> {
                    &&& kids_all@.len() == children_meta_spec(es0.take(i as int)).len()
                    &&& forall|j: int|
                        0 <= j < kids_all@.len() ==> {
                            let c = kids_all@[j];
                            let m = #[trigger] children_meta_spec(es0.take(i as int))[j];
                            &&& c.kind == m.0
                            &&& c.idx == m.1
                            &&& c.health == m.0.initial_health_spec()
                            &&& c.id == id0 + j
                            &&& exists|ox: int, oy: int|
                                #![trigger clamp_spec(m.2.x + ox, COORD_LIMIT as int), clamp_spec(m.2.y + oy, COORD_LIMIT as int)]
                                0 <= ox < tile && 0 <= oy < tile && c.pos.x == clamp_spec(
                                    m.2.x + ox,
                                    COORD_LIMIT as int,
                                ) && c.pos.y == clamp_spec(m.2.y + oy, COORD_LIMIT as int)
                        }
                },
            decreases n - i,
        {
            proof {
                assert(es0.take(i as int + 1).drop_last() =~= es0.take(i as int));
                assert(es0.take(i as int + 1).last() == es0[i as int]);
                assert(children_meta_spec(es0.take(i as int + 1)) =~= children_meta_spec(
                    es0.take(i as int),
                ) + child_rule_spec(es0[i as int]));
                if nocap {
                    lemma_children_meta_prefix(es0, i as int + 1);
                }
            }
            let e: Enemy = self.enemies[i];
            if e.health > 0 {
                keep.push(e);
            } else {
                if self.next_id <= 0xFFFF_FFFF_FFFF_0000 {
                    let mut kids = split_children(&e, tile, self.next_id);
                    if kids_all.len() + kids.len() + self.enemies.len() <= REGISTRY_LIMIT {
                        let ghost kids_seq = kids@;
                        let ghost before = kids_all@;
                        self.next_id = self.next_id + kids.len() as u64;
                        kids_all.append(&mut kids);
                        proof {
                            assert(kids_all@ == before + kids_seq);
                            assert forall|j: int|
                                0 <= j < kids_all@.len() implies id0 <= (
                            #[trigger] kids_all@[j]).id < self.next_id by {
                                if j < before.len() {
                                    assert(kids_all@[j] == before[j]);
                                } else {
                                    assert(kids_all@[j] == kids_seq[j - before.len()]);
                                }
                            }
                            assert forall|a: int, b: int|
                                0 <= a < b < kids_all@.len() implies (#[trigger] kids_all@[a]).id
                                != (#[trigger] kids_all@[b]).id by {
                                if b < before.len() {
                                } else if a >= before.len() {
                                    assert(kids_all@[a] == kids_seq[a - before.len()]);
                                    assert(kids_all@[b] == kids_seq[b - before.len()]);
                                } else {
                                    assert(kids_all@[a] == before[a]);
                                    assert(kids_all@[b] == kids_seq[b - before.len()]);
                                }
                            }
                            if nocap {
                                let ghost meta1 = children_meta_spec(es0.take(i as int + 1));
                                let ghost meta0 = children_meta_spec(es0.take(i as int));
                                assert forall|j: int| 0 <= j < kids_all@.len() implies {
                                    let c = kids_all@[j];
                                    let m = #[trigger] meta1[j];
                                    &&& c.kind == m.0
                                    &&& c.idx == m.1
                                    &&& c.health == m.0.initial_health_spec()
                                    &&& c.id == id0 + j
                                    &&& exists|ox: int, oy: int|
                                        #![trigger clamp_spec(m.2.x + ox, COORD_LIMIT as int), clamp_spec(m.2.y + oy, COORD_LIMIT as int)]
                                        0 <= ox < tile && 0 <= oy < tile && c.pos.x == clamp_spec(
                                            m.2.x + ox,
                                            COORD_LIMIT as int,
                                        ) && c.pos.y == clamp_spec(m.2.y + oy, COORD_LIMIT as int)
                                } by {
                                    if j < before.len() {
                                        assert(kids_all@[j] == before[j]);
                                        assert(meta1[j] == meta0[j]);
                                        let (ox, oy) = choose|ox: int, oy: int|
                                            #![trigger clamp_spec(meta0[j].2.x + ox, COORD_LIMIT as int), clamp_spec(meta0[j].2.y + oy, COORD_LIMIT as int)]
                                            0 <= ox < tile && 0 <= oy < tile && before[j].pos.x
                                                == clamp_spec(meta0[j].2.x + ox, COORD_LIMIT as int)
                                                && before[j].pos.y == clamp_spec(
                                                meta0[j].2.y + oy,
                                                COORD_LIMIT as int,
                                            );
                                        assert(kids_all@[j].pos.x == clamp_spec(
                                            meta1[j].2.x + ox,
                                            COORD_LIMIT as int,
                                        ) && kids_all@[j].pos.y == clamp_spec(
                                            meta1[j].2.y + oy,
                                            COORD_LIMIT as int,
                                        ));
                                    } else {
                                        let t = j - before.len();
                                        assert(kids_all@[j] == kids_seq[t]);
                                        assert(meta1[j] == child_rule_spec(es0[i as int])[t]);
                                        let (ox, oy) = choose|ox: int, oy: int|
                                            #![trigger clamp_spec(es0[i as int].pos.x + ox, COORD_LIMIT as int), clamp_spec(es0[i as int].pos.y + oy, COORD_LIMIT as int)]
                                            0 <= ox < tile && 0 <= oy < tile && kids_seq[t].pos.x
                                                == clamp_spec(
                                                es0[i as int].pos.x + ox,
                                                COORD_LIMIT as int,
                                            ) && kids_seq[t].pos.y == clamp_spec(
                                                es0[i as int].pos.y + oy,
                                                COORD_LIMIT as int,
                                            );
                                        assert(kids_all@[j].pos.x == clamp_spec(
                                            meta1[j].2.x + ox,
                                            COORD_LIMIT as int,
                                        ) && kids_all@[j].pos.y == clamp_spec(
                                            meta1[j].2.y + oy,
                                            COORD_LIMIT as int,
                                        ));
                                    }
                                }
                            }
                        }
                    }
                }
            }
            i = i + 1;
        }
        proof {
            assert(es0.take(n) =~= es0);
        }
        let ghost keep_len = keep@.len() as int;
        let ghost kids_final = kids_all@;
        self.enemies = keep;
        self.enemies.append(&mut kids_all);
        proof {
            assert(self.enemies@.take(keep_len) =~= survivors_spec(es0));
            assert forall|k: int| 0 <= k < self.enemies@.len() implies (
            #[trigger] self.enemies@[k]).wf() && self.enemies@[k].id < self.next_id by {
                if k < keep_len {
                    assert(self.enemies@[k] == survivors_spec(es0)[k]);
                } else {
                    assert(self.enemies@[k] == kids_final[k - keep_len]);
                }
            }
            assert forall|a: int, b: int|
                0 <= a < b < self.enemies@.len() implies (#[trigger] self.enemies@[a]).id != (
            #[trigger] self.enemies@[b]).id by {
                if b < keep_len {
                    assert(self.enemies@[a] == survivors_spec(es0)[a]);
                    assert(self.enemies@[b] == survivors_spec(es0)[b]);
                } else if a >= keep_len {
                    assert(self.enemies@[a] == kids_final[a - keep_len]);
                    assert(self.enemies@[b] == kids_final[b - keep_len]);
                } else {
                    assert(self.enemies@[a] == survivors_spec(es0)[a]);
                    assert(self.enemies@[b] == kids_final[b - keep_len]);
                    assert(self.enemies@[a].id < id0);
                    assert(self.enemies@[b].id >= id0);
                }
            }
        }
    }
}

/// The adversary record one traversal tick produces: unchanged when it
/// has no waypoint left to walk toward; otherwise stepped toward the
/// next waypoint by its per-tick speed, its waypoint index advanced
/// once it lands within a twentieth of a tile of the waypoint.
pub open spec fn advanced_enemy_spec(e: Enemy, path: Path, tile: int, tps: int) -> Enemy {
    if e.idx + 1 >= path.positions@.len() {
        e
    } else {
        let wp = path.waypoint(e.idx + 1);
        let sp = e.kind.speed_spec(tile, tps);
        let np = crate::geom::step_toward_spec(e.pos, wp, sp);
        let pos2 = Vec2I { x: np.0 as i64, y: np.1 as i64 };
        let eps = tile / 20;
        Enemy {
            pos: pos2,
            idx: if crate::geom::dist2_spec(pos2, wp) < eps * eps {
                (e.idx + 1) as usize
            } else {
                e.idx
            },
            ..e
        }
    }
}

/// The adversary registry after one traversal tick: every adversary
/// advanced one step, and those that have reached the goal portal (no
/// waypoint left to walk toward) despawned.
pub open spec fn traversal_spec(es: Seq<Enemy>, path: Path, tile: int, tps: int) -> Seq<Enemy>
    decreases es.len(),
{
    if es.len() == 0 {
        Seq::empty()
    } else {
        let rest = traversal_spec(es.drop_last(), path, tile, tps);
        let a = advanced_enemy_spec(es.last(), path, tile, tps);
        if a.idx + 1 < path.positions@.len() {
            rest.push(a)
        } else {
            rest
        }
    }
}

/// Traversal keeps the registry sound: no adversary is added, records
/// stay well formed, and identifiers stay distinct and bounded.
pub proof fn lemma_traversal_props(es: Seq<Enemy>, path: Path, tile: int, tps: int, bound: u64)
    requires
        forall|k: int| 0 <= k < es.len() ==> (#[trigger] es[k]).id < bound,
        forall|i: int, j: int| 0 <= i < j < es.len() ==> (#[trigger] es[i]).id != (#[trigger] es[j]).id,
    ensures
        traversal_spec(es, path, tile, tps).len() <= es.len(),
        forall|k: int|
            0 <= k < traversal_spec(es, path, tile, tps).len() ==> (#[trigger] traversal_spec(
                es,
                path,
                tile,
                tps,
            )[k]).id < bound,
        forall|i: int, j: int|
            0 <= i < j < traversal_spec(es, path, tile, tps).len() ==> (#[trigger] traversal_spec(
                es,
                path,
                tile,
                tps,
            )[i]).id != (#[trigger] traversal_spec(es, path, tile, tps)[j]).id,
        forall|k: int|
            0 <= k < traversal_spec(es, path, tile, tps).len() ==> exists|m: int|
                0 <= m < es.len() && (#[trigger] traversal_spec(es, path, tile, tps)[k]).id == es[m].id,
    decreases es.len(),
{
    if es.len() > 0 {
        lemma_traversal_props(es.drop_last(), path, tile, tps, bound);
        let rest = traversal_spec(es.drop_last(), path, tile, tps);
        let f = traversal_spec(es, path, tile, tps);
        assert forall|k: int| 0 <= k < rest.len() implies exists|m: int|
            0 <= m < es.len() && (#[trigger] rest[k]).id == es[m].id by {
            let m = choose|m: int| 0 <= m < es.drop_last().len() && rest[k].id == es.drop_last()[m].id;
            assert(es.drop_last()[m] == es[m]);
        }
        let a = advanced_enemy_spec(es.last(), path, tile, tps);
        assert(a.id == es[es.len() - 1].id);
        if a.idx + 1 < path.positions@.len() {
            assert(f == rest.push(a));
            assert forall|i: int, j: int|
                0 <= i < j < f.len() implies (#[trigger] f[i]).id != (#[trigger] f[j]).id by {
                if j < rest.len() {
                    assert(f[i] == rest[i] && f[j] == rest[j]);
                } else {
                    assert(f[j] == a);
                    assert(f[i] == rest[i]);
                    let m = choose|m: int|
                        0 <= m < es.drop_last().len() && rest[i].id == es.drop_last()[m].id;
                    assert(es.drop_last()[m] == es[m]);
                    assert(es[m].id != es[es.len() - 1].id);
                }
            }
        }
    }
}

impl SimState {
    /// One traversal-spawn-wave tick, the fixed-timestep heart of the
    /// round controller.  Every adversary already on the field walks one
    /// step along the path, and those that have reached the goal
    /// despawn.  Then, when the spawn timer fires and the wave's queue
    /// is not empty, one adversary of the queue's last kind is spawned
    /// at the spawn portal, where it stands until the next tick.
    /// Finally a new wave begins exactly when no adversary is alive and
    /// the queue is empty: the round counter advances by one and the
    /// queue is refilled from the wave table, or, past the table, with
    /// as many of the strongest kind as the round number.
    pub fn game_tick(&mut self)
        requires
            old(self).wf(),
        ensures
            final(self).wf(),
            *final(self) == (SimState {
                enemies: final(self).enemies,
                round: final(self).round,
                round_counter: final(self).round_counter,
                spawn_timer: final(self).spawn_timer,
                next_id: final(self).next_id,
                ..*old(self)
            }),
            wave_tick_rel(*old(self), *final(self)),
    {
        let ghost s0 = *self;
        let ghost es0 = s0.enemies@;
        let fired = self.spawn_timer.tick();

        let tile = self.config.tile;
        let tps = self.config.tps;
        let ghost tile_g = tile as int;
        let ghost tps_g = tps as int;
        let ghost n = es0.len() as int;
        proof {
            lemma_traversal_props(es0, s0.path, tile_g, tps_g, s0.next_id);
        }
        let mut out: Vec<Enemy> = Vec::new();
        let mut i: usize = 0;
        while i < self.enemies.len()
            invariant
                self.config == s0.config,
                self.path == s0.path,
                self.enemies == s0.enemies,
                self.next_id == s0.next_id,
                s0.wf(),
                es0 == s0.enemies@,
                tile == s0.config.tile,
                tps == s0.config.tps,
                tile_g == tile as int,
                tps_g == tps as int,
                n == es0.len(),
                0 <= i <= n,
                out@ == traversal_spec(es0.take(i as int), s0.path, tile_g, tps_g),
                out@.len() <= i,
                forall|k: int| 0 <= k < out@.len() ==> (#[trigger] out@[k]).wf(),
            decreases n - i,
        {
            proof {
                assert(es0.take(i as int + 1).drop_last() =~= es0.take(i as int));
                assert(es0.take(i as int + 1).last() == es0[i as int]);
            }
            let mut e: Enemy = self.enemies[i];
            e.advance(&self.path, tile, tps);
            proof {
                assert(e == advanced_enemy_spec(es0[i as int], s0.path, tile_g, tps_g));
            }
            let l = self.path.len();
            if e.idx < l - 1 {
                out.push(e);
            }
            i = i + 1;
        }
        proof {
            assert(es0.take(n) =~= es0);
        }
        self.enemies = out;

        if fired && self.round.0.len() > 0 && self.enemies.len() < REGISTRY_LIMIT && self.next_id
            < 0xFFFF_FFFF_FFFF_FFFF {
            let kind = match self.round.0.pop() {
                Some(k) => k,
                None => {
                    return ;  // unreachable: the queue was checked non-empty
                },
            };
            let e = Enemy::new(kind, 0, self.path.start_position, self.next_id);
            self.next_id = self.next_id + 1;
            self.enemies.push(e);
        }

        if self.enemies.len() == 0 && self.round.0.len() == 0 && self.round_counter.0
            < 0x1000_0000 {
            self.round_counter.next();
            let queue = crate::wave::compose_round(&self.round_list, self.round_counter.0);
            self.round = Round(queue);
        }
    }
}

/// How one traversal-spawn-wave tick relates the state before it to the
/// state after it: the field traverses first (goal-reachers despawn), a
/// firing spawn timer then takes one kind off the queue and puts a
/// fresh adversary at the spawn portal, and a new wave begins exactly
/// when, after that, no adversary is alive and the queue is empty.
pub open spec fn wave_tick_rel(pre: SimState, post: SimState) -> bool {
    let traversed = traversal_spec(
        pre.enemies@,
        pre.path,
        pre.config.tile as int,
        pre.config.tps as int,
    );
    let fired = pre.spawn_timer.fires_spec();
    let can_spawn = fired && pre.round.0@.len() > 0 && traversed.len() < REGISTRY_LIMIT
        && pre.next_id < 0xFFFF_FFFF_FFFF_FFFF;
    let spawned = Enemy {
        health: pre.round.0@.last().initial_health_spec() as i32,
        kind: pre.round.0@.last(),
        idx: 0,
        pos: pre.path.start_position,
        id: pre.next_id,
    };
    let es2 = if can_spawn {
        traversed.push(spawned)
    } else {
        traversed
    };
    let round1 = if can_spawn {
        pre.round.0@.drop_last()
    } else {
        pre.round.0@
    };
    let wave_start = es2.len() == 0 && round1.len() == 0 && pre.round_counter.0 < 0x1000_0000;
    let counter1 = pre.round_counter.0 + 1;
    &&& post.spawn_timer.period == pre.spawn_timer.period
    &&& post.spawn_timer.elapsed == if fired {
        0
    } else {
        pre.spawn_timer.elapsed + 1
    }
    &&& post.next_id == pre.next_id + (if can_spawn {
        1int
    } else {
        0int
    })
    &&& post.round_counter.0 == pre.round_counter.0 + (if wave_start {
        1int
    } else {
        0int
    })
    &&& post.round.0@ == if !wave_start {
        round1
    } else if counter1 - 1 < pre.round_list.0@.len() {
        crate::wave::flatten_round_spec(pre.round_list.0@[counter1 - 1]@)
    } else {
        crate::wave::default_round_spec(counter1 as nat)
    }
    &&& post.enemies@ == es2
}

/// The adversaries that survive a death pass: those with health left,
/// in order.
pub open spec fn survivors_spec(es: Seq<Enemy>) -> Seq<Enemy>
    decreases es.len(),
{
    if es.len() == 0 {
        Seq::empty()
    } else {
        let rest = survivors_spec(es.drop_last());
        if es.last().health > 0 {
            rest.push(es.last())
        } else {
            rest
        }
    }
}

/// The kind, inherited waypoint index and parent position of each child
/// one dead adversary splits into.
pub open spec fn child_rule_spec(e: Enemy) -> Seq<(EnemyKind, usize, Vec2I)> {
    if e.health <= 0 && e.kind.split_spec() is Some {
        let rule = e.kind.split_spec()->Some_0;
        Seq::new(rule.0 as nat, |i: int| (rule.1, e.idx, e.pos))
    } else {
        Seq::empty()
    }
}

/// The kind, inherited waypoint index and parent position of all
/// children one death pass spawns, parent by parent in registry order.
pub open spec fn children_meta_spec(es: Seq<Enemy>) -> Seq<(EnemyKind, usize, Vec2I)>
    decreases es.len(),
{
    if es.len() == 0 {
        Seq::empty()
    } else {
        children_meta_spec(es.drop_last()) + child_rule_spec(es.last())
    }
}

/// How the death-and-split pass relates the states.  Unconditionally:
/// the survivors (and only they) keep their records, in order, at the
/// front, and at most the configured children join at the back with
/// fresh identifiers.  Under the registry and identifier headroom the
/// children are pinned exactly: per dead split-capable parent, the
/// configured count of the configured kind, each with the kind's
/// starting health, the parent's waypoint index, a consecutive fresh
/// identifier, and a position scattered less than a tile from the
/// parent's last position (held inside the world).
pub open spec fn death_split_rel(pre: SimState, post: SimState) -> bool {
    let tile = pre.config.tile as int;
    let survivors = survivors_spec(pre.enemies@);
    let meta = children_meta_spec(pre.enemies@);
    &&& post == SimState { enemies: post.enemies, next_id: post.next_id, ..pre }
    &&& survivors.len() <= post.enemies@.len() <= survivors.len() + meta.len()
    &&& post.enemies@.take(survivors.len() as int) == survivors
    &&& post.next_id == pre.next_id + (post.enemies@.len() - survivors.len())
    &&& pre.enemies@.len() + meta.len() <= REGISTRY_LIMIT && pre.next_id + meta.len()
        <= 0xFFFF_FFFF_FFFF_0000 ==> {
        &&& post.enemies@.len() == survivors.len() + meta.len()
        &&& post.next_id == pre.next_id + meta.len()
        &&& forall|j: int|
            0 <= j < meta.len() ==> {
                let c = post.enemies@[survivors.len() + j];
                let m = #[trigger] meta[j];
                &&& c.kind == m.0
                &&& c.idx == m.1
                &&& c.health == m.0.initial_health_spec()
                &&& c.id == pre.next_id + j
                &&& exists|ox: int, oy: int|
                    #![trigger clamp_spec(m.2.x + ox, COORD_LIMIT as int), clamp_spec(m.2.y + oy, COORD_LIMIT as int)]
                    0 <= ox < tile && 0 <= oy < tile && c.pos.x == clamp_spec(
                        m.2.x + ox,
                        COORD_LIMIT as int,
                    ) && c.pos.y == clamp_spec(m.2.y + oy, COORD_LIMIT as int)
            }
    }
}

/// Survivors keep their records: they stay well formed, their
/// identifiers stay distinct and bounded, and there are no more of them
/// than there were adversaries.
pub proof fn lemma_survivors_props(es: Seq<Enemy>, bound: u64)
    requires
        forall|k: int| 0 <= k < es.len() ==> (#[trigger] es[k]).wf(),
        forall|k: int| 0 <= k < es.len() ==> (#[trigger] es[k]).id < bound,
        forall|i: int, j: int| 0 <= i < j < es.len() ==> (#[trigger] es[i]).id != (#[trigger] es[j]).id,
    ensures
        survivors_spec(es).len() <= es.len(),
        forall|k: int| 0 <= k < survivors_spec(es).len() ==> (#[trigger] survivors_spec(es)[k]).wf(),
        forall|k: int|
            0 <= k < survivors_spec(es).len() ==> (#[trigger] survivors_spec(es)[k]).id < bound,
        forall|i: int, j: int|
            0 <= i < j < survivors_spec(es).len() ==> (#[trigger] survivors_spec(es)[i]).id != (
            #[trigger] survivors_spec(es)[j]).id,
        forall|k: int|
            0 <= k < survivors_spec(es).len() ==> exists|m: int|
                0 <= m < es.len() && #[trigger] survivors_spec(es)[k] == es[m],
    decreases es.len(),
{
    if es.len() > 0 {
        lemma_survivors_props(es.drop_last(), bound);
        let rest = survivors_spec(es.drop_last());
        assert forall|k: int| 0 <= k < rest.len() implies exists|m: int|
            0 <= m < es.len() && #[trigger] rest[k] == es[m] by {
            let m = choose|m: int| 0 <= m < es.drop_last().len() && rest[k] == es.drop_last()[m];
            assert(es.drop_last()[m] == es[m]);
            assert(rest[k] == es[m]);
        }
        if es.last().health > 0 {
            let f = survivors_spec(es);
            assert(f == rest.push(es.last()));
            assert forall|i: int, j: int|
                0 <= i < j < f.len() implies (#[trigger] f[i]).id != (#[trigger] f[j]).id by {
                if j < rest.len() {
                    assert(f[i] == rest[i] && f[j] == rest[j]);
                } else {
                    assert(f[j] == es.last());
                    assert(f[i] == rest[i]);
                    let m = choose|m: int|
                        0 <= m < es.drop_last().len() && rest[i] == es.drop_last()[m];
                    assert(es.drop_last()[m] == es[m]);
                    assert(es[m].id != es[es.len() - 1].id);
                }
            }
        }
    }
}

/// A prefix spawns no more children than the whole registry.
pub proof fn lemma_children_meta_prefix(es: Seq<Enemy>, n: int)
    requires
        0 <= n <= es.len(),
    ensures
        children_meta_spec(es.take(n)).len() <= children_meta_spec(es).len(),
    decreases es.len() - n,
{
    if n < es.len() {
        lemma_children_meta_prefix(es, n + 1);
        assert(es.take(n + 1).drop_last() =~= es.take(n));
        assert(es.take(n + 1).last() == es[n]);
    } else {
        assert(es.take(n) =~= es);
    }
}

/// Every projectile a movement pass keeps has hit budget left.
pub proof fn lemma_projectiles_pass_health(ps: Seq<Projectile>, tile: int, tps: int, mb: int)
    ensures
        forall|k: int|
            0 <= k < projectiles_pass_spec(ps, tile, tps, mb).len() ==> (
            #[trigger] projectiles_pass_spec(ps, tile, tps, mb)[k]).health > 0,
    decreases ps.len(),
{
    if ps.len() > 0 {
        lemma_projectiles_pass_health(ps.drop_last(), tile, tps, mb);
    }
}

/// Everything the embedding program feeds into one simulation tick:
/// the pointer position in window coordinates (or `None` outside the
/// window), the window size, the camera offset, the wall clock in
/// milliseconds, the just-pressed edges of the place and sell actions,
/// and a just-pressed selection hotkey, if any.
pub struct TickInput {
    pub pointer: Option<Vec2I>,
    pub window: Vec2I,
    pub camera: Vec2I,
    pub now_ms: i64,
    pub place_pressed: bool,
    pub sell_pressed: bool,
    pub select: Option<MenuItem>,
}

/// One simulation tick decomposed into its fixed order of passes: the
/// nine intermediate states the tick runs through and the state at the
/// end of the last pass, each related to its predecessor by that pass's
/// own relation, with the clock advancing one tick at the very end.
pub open spec fn tick_steps_spec(
    pre: SimState,
    mids: Seq<SimState>,
    fin: SimState,
    input: TickInput,
) -> bool {
    &&& mids.len() == 10
    &&& shop_rel(pre, mids[0], input.select)
    &&& cursor_tick_rel(
        mids[0],
        mids[1],
        input.pointer,
        input.window,
        input.camera,
        input.now_ms as int,
    )
    &&& validity_rel(mids[1], mids[2])
    &&& place_rel(mids[2], mids[3], input.place_pressed)
    &&& sell_rel(mids[3], mids[4], input.sell_pressed)
    &&& gunners_rel(mids[4], mids[5])
    &&& projectiles_move_rel(mids[5], mids[6])
    &&& collisions_rel(mids[6], mids[7])
    &&& death_split_rel(mids[7], mids[8])
    &&& wave_tick_rel(mids[8], mids[9])
    &&& fin == SimState { now_ticks: (pre.now_ticks + 1) as u64, ..mids[9] }
}

/// Assemble the witnesses of one tick's pass chain into the chain
/// statement itself.
proof fn lemma_assemble_tick(
    pre: SimState,
    g1: SimState,
    g2: SimState,
    g3: SimState,
    g4: SimState,
    g5: SimState,
    g6: SimState,
    g7: SimState,
    g8: SimState,
    g9: SimState,
    g10: SimState,
    fin: SimState,
    input: TickInput,
)
    requires
        shop_rel(pre, g1, input.select),
        cursor_tick_rel(g1, g2, input.pointer, input.window, input.camera, input.now_ms as int),
        validity_rel(g2, g3),
        place_rel(g3, g4, input.place_pressed),
        sell_rel(g4, g5, input.sell_pressed),
        gunners_rel(g5, g6),
        projectiles_move_rel(g6, g7),
        collisions_rel(g7, g8),
        death_split_rel(g8, g9),
        wave_tick_rel(g9, g10),
        fin == (SimState { now_ticks: (pre.now_ticks + 1) as u64, ..g10 }),
    ensures
        exists|mids: Seq<SimState>| tick_steps_spec(pre, mids, fin, input),
{
    let mids = seq![g1, g2, g3, g4, g5, g6, g7, g8, g9, g10];
    assert(mids.len() == 10);
    assert(mids[0] == g1 && mids[1] == g2 && mids[2] == g3 && mids[3] == g4 && mids[4] == g5
        && mids[5] == g6 && mids[6] == g7 && mids[7] == g8 && mids[8] == g9 && mids[9] == g10);
    assert(tick_steps_spec(pre, mids, fin, input));
}

impl SimState {
    /// One full simulation tick, advancing the components in the fixed
    /// order the design prescribes: shop selection, cursor movement,
    /// placement validity, placement commit, sell commit, targeting and
    /// firing, projectile movement, projectile collision, adversary
    /// death and splitting, and finally traversal, spawn timing and
    /// wave control.  The tick is exactly that chain: there are
    /// intermediate states related pairwise by the passes' relations,
    /// ending in this state with the clock advanced.
    #[verifier::rlimit(100)]
    #[verifier::spinoff_prover]
    pub fn tick(&mut self, input: TickInput)
        requires
            old(self).wf(),
            old(self).now_ticks < TICK_LIMIT,
            0 <= input.now_ms <= TIME_LIMIT,
            input.pointer is Some ==> {
                let p = input.pointer->Some_0;
                0 <= p.x <= 0x1_0000 && 0 <= p.y <= 0x1_0000
            },
            0 <= input.window.x <= 0x1_0000,
            0 <= input.window.y <= 0x1_0000,
            -0x400_0000 <= input.camera.x <= 0x400_0000,
            -0x400_0000 <= input.camera.y <= 0x400_0000,
        ensures
            final(self).wf(),
            final(self).now_ticks == old(self).now_ticks + 1,
            exists|mids: Seq<SimState>| tick_steps_spec(*old(self), mids, *final(self), input),
    {
        let ghost s0 = *self;
        self.handle_shop(input.select);
        let ghost g1 = *self;
        self.move_cursor(input.pointer, input.window, input.camera, input.now_ms);
        let ghost g2 = *self;
        self.handle_collisions();
        let ghost g3 = *self;
        self.handle_place(input.place_pressed);
        let ghost g4 = *self;
        self.handle_sell(input.sell_pressed);
        let ghost g5 = *self;
        self.handle_gunners();
        let ghost g6 = *self;
        self.handle_projectiles();
        let ghost g7 = *self;
        proof {
            lemma_projectiles_pass_health(
                g6.projectiles@,
                g6.config.tile as int,
                g6.config.tps as int,
                g6.config.map_bound_spec(),
            );
        }
        self.handle_projectile_collisions();
        let ghost g8 = *self;
        self.handle_enemies();
        let ghost g9 = *self;
        self.game_tick();
        let ghost g10 = *self;
        self.now_ticks = self.now_ticks + 1;
        proof {
            lemma_assemble_tick(
                s0,
                g1,
                g2,
                g3,
                g4,
                g5,
                g6,
                g7,
                g8,
                g9,
                g10,
                *self,
                input,
            );
        }
    }
}

/// A strike is recorded: when a collision pass charges a
/// (projectile, adversary) pair, the adversary's identifier enters the
/// projectile's strike record.
pub proof fn lemma_hit_recorded(p: Projectile, es: Seq<Enemy>, tile: int, k: int)
    requires
        0 <= k < es.len(),
        newly_hit_spec(p, es[k], tile),
    ensures
        hit_ids_spec(p, es, tile).contains(es[k].id),
    decreases es.len(),
{
    let ids = hit_ids_spec(p, es, tile);
    if k == es.len() - 1 {
        assert(ids.last() == es[k].id);
        assert(ids.contains(es[k].id));
    } else {
        assert(es.drop_last()[k] == es[k]);
        lemma_hit_recorded(p, es.drop_last(), tile, k);
        let rest = hit_ids_spec(p, es.drop_last(), tile);
        let w = choose|w: int| 0 <= w < rest.len() && rest[w] == es[k].id;
        assert(ids[w] == es[k].id);
        assert(ids.contains(es[k].id));
    }
}

/// A projectile charges each adversary at most once, ever: the pass
/// that strikes the pair records the adversary's identifier, and a
/// projectile whose record holds the identifier — as the record does in
/// every later pass — can never strike that adversary again, however
/// long the two keep overlapping.
pub proof fn lemma_at_most_one_hit_per_target(
    p: Projectile,
    q: Projectile,
    es: Seq<Enemy>,
    tile: int,
    k: int,
)
    requires
        0 <= k < es.len(),
        newly_hit_spec(p, es[k], tile),
        q.hit_enemies@ == p.hit_enemies@ + hit_ids_spec(p, es, tile),
    ensures
        hit_ids_spec(p, es, tile).contains(es[k].id),
        !newly_hit_spec(q, es[k], tile),
{
    lemma_hit_recorded(p, es, tile, k);
    let ids = hit_ids_spec(p, es, tile);
    let w = choose|w: int| 0 <= w < ids.len() && ids[w] == es[k].id;
    assert(q.hit_enemies@[p.hit_enemies@.len() + w] == es[k].id);
    assert(q.hit_enemies@.contains(es[k].id));
}

/// A projectile expires exactly when its hit budget is spent: with the
/// budget equation of a well-formed projectile, hit budget zero or
/// below means it has struck at least its kind's budget's worth of
/// distinct adversaries.
pub proof fn lemma_budget_exhaustion(p: Projectile)
    requires
        p.wf(),
    ensures
        p.health <= 0 <==> p.hit_enemies@.len() >= p.ty.initial_health_spec(),
{
}

/// Committing a placement blocks the spot: the new structure's box
/// shares the cursor's target as its center, so as long as the cursor
/// has not moved and still holds a footprint, re-running the
/// placement-validity pass must find the spot blocked and a second
/// commit there must be rejected.
pub proof fn lemma_place_blocks_requery(pre: SimState, post: SimState)
    requires
        pre.wf(),
        pre.selected is Some,
        pre.cursor.selection_size >= 1,
        post.cursor == pre.cursor,
        post.config == pre.config,
        post.turrets@ == pre.turrets@.push(placed_structure_spec(pre)),
    ensures
        placement_blocked_spec(post),
{
    let st = placed_structure_spec(pre);
    let i = post.turrets@.len() - 1;
    assert(post.turrets@[i] == st);
    let tile = pre.config.tile as int;
    let cells = st.kind.footprint_cells_spec();
    assert(0 < pre.config.tile * pre.cursor.selection_size <= 0x4_0000 && 0 < tile * cells
        <= 0x2_0000) by (nonlinear_arith)
        requires
            tile == pre.config.tile,
            2 <= pre.config.tile <= 0x1_0000,
            1 <= pre.cursor.selection_size <= 4,
            1 <= cells <= 2,
    ;
    let cbox = cursor_box_size_spec(post);
    let sbox = Vec2I {
        x: st.size_spec(tile) as i64,
        y: st.size_spec(tile) as i64,
    };
    lemma_self_overlap(pre.cursor.last_target_pos, cbox, sbox);
}

} // verus!
