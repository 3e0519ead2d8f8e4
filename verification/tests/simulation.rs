use roots_td::combat::find_nearest;
use roots_td::enemy::{split_children, Enemy, EnemyKind};
use roots_td::geom::Vec2I;
use roots_td::level::{Level, Path, PathNode};
use roots_td::projectile::{Projectile, ProjectileType};
use roots_td::sim::{SimConfig, SimState, TickInput};
use roots_td::turret::{Gun, MenuItem, Structure, Turret};
use roots_td::wave::{compose_round, Round, RoundList, SpawnTimer};

fn v(x: i64, y: i64) -> Vec2I {
    Vec2I { x, y }
}

fn base_config() -> SimConfig {
    // 60 ticks per second on 64-unit tiles: the tick rate must not
    // outrun the tile size, so that integer per-tick speeds stay
    // positive.
    SimConfig::new(64, 16, 60, 1).unwrap()
}

fn base_round_list() -> RoundList {
    RoundList(vec![
        vec![(5, EnemyKind::Potato), (3, EnemyKind::Carrot)],
        vec![(8, EnemyKind::Potato), (5, EnemyKind::Carrot)],
        vec![(10, EnemyKind::Carrot), (1, EnemyKind::Pepper)],
    ])
}

fn base_sim() -> SimState {
    let level = Level {
        path: vec![v(0, 0), v(1, 0), v(2, 0)],
        decor: vec![],
        center_pos: v(1, 0),
    };
    SimState::new(base_config(), &level, base_round_list()).unwrap()
}

#[test]
fn new_sim_builds_obstacles_from_path() {
    let sim = base_sim();
    assert_eq!(sim.obstacles.len(), 3);
    assert_eq!(sim.obstacles[0].pos, v(32, 32));
    assert!(sim.turrets.is_empty());
    assert!(sim.enemies.is_empty());
    assert!(sim.projectiles.is_empty());
    assert_eq!(sim.round_counter.0, 0);
    assert_eq!(sim.spawn_timer.period, 1);
}

#[test]
fn new_sim_appends_blocking_decor_as_obstacles() {
    let level = Level {
        path: vec![v(0, 0), v(1, 0)],
        decor: vec![
            roots_td::level::Decor { asset: String::from("bush"), pos: v(5, 5), blocks: true },
            roots_td::level::Decor { asset: String::from("fern"), pos: v(6, 6), blocks: false },
        ],
        center_pos: v(0, 0),
    };
    let sim = SimState::new(base_config(), &level, base_round_list()).unwrap();
    // Two path tiles, then the one blocking decoration.
    assert_eq!(sim.obstacles.len(), 3);
    assert_eq!(sim.obstacles[2].pos, v(5 * 64 + 32, 5 * 64 + 32));
}

#[test]
fn placement_commit_creates_structure_with_weapon() {
    // Cursor at a free cell, footprint 1x1, press place: exactly one
    // structure carrying its weapon appears at the snapped position.
    let mut sim = base_sim();
    sim.handle_shop(Some(MenuItem::Turret1x1));
    sim.cursor.last_target_pos = v(352, 352);
    sim.handle_collisions();
    assert!(sim.cursor.can_place);
    let placed = sim.handle_place(true);
    assert!(placed);
    assert_eq!(sim.turrets.len(), 1);
    assert_eq!(sim.turrets[0].pos, v(352, 352));
    assert_eq!(sim.turrets[0].kind, Turret::Turret1x1);
    assert_eq!(sim.turrets[0].gun, Gun::Gun1);

    // Press place again at the same unmoved cursor: the cell is now
    // occupied, so re-querying validity refuses and no entity appears.
    sim.handle_collisions();
    assert!(!sim.cursor.can_place);
    let placed_again = sim.handle_place(true);
    assert!(!placed_again);
    assert_eq!(sim.turrets.len(), 1);
}

#[test]
fn placement_requires_press_and_selection() {
    let mut sim = base_sim();
    sim.cursor.last_target_pos = v(352, 352);
    sim.handle_collisions();
    // No held item yet: nothing to place.
    assert!(!sim.handle_place(true));
    sim.handle_shop(Some(MenuItem::Turret2x2));
    sim.handle_collisions();
    // No press: no placement either.
    assert!(!sim.handle_place(false));
    assert!(sim.turrets.is_empty());
}

#[test]
fn placement_blocked_by_path_tiles() {
    let mut sim = base_sim();
    sim.handle_shop(Some(MenuItem::Turret1x1));
    // The cell center (32, 32) is the spawn portal tile.
    sim.cursor.last_target_pos = v(32, 32);
    sim.handle_collisions();
    assert!(!sim.cursor.can_place);
    assert!(!sim.handle_place(true));
}

#[test]
fn selling_removes_structure_under_cursor() {
    let mut sim = base_sim();
    sim.turrets.push(Structure::new(Turret::Turret2x2, v(352, 352)));
    // Anywhere strictly inside the 2x2 footprint registers.
    sim.cursor.last_target_pos = v(380, 330);
    sim.handle_sell(true);
    assert!(sim.turrets.is_empty());
}

#[test]
fn selling_ignores_footprint_edge_and_outside() {
    let mut sim = base_sim();
    sim.turrets.push(Structure::new(Turret::Turret2x2, v(352, 352)));
    // Exactly on the footprint edge: open intervals, no sale.
    sim.cursor.last_target_pos = v(416, 352);
    sim.handle_sell(true);
    assert_eq!(sim.turrets.len(), 1);
    sim.cursor.last_target_pos = v(600, 600);
    sim.handle_sell(true);
    assert_eq!(sim.turrets.len(), 1);
    // Without a press nothing happens either.
    sim.cursor.last_target_pos = v(352, 352);
    sim.handle_sell(false);
    assert_eq!(sim.turrets.len(), 1);
}

#[test]
fn nearest_target_prefers_distance_then_order() {
    let enemies = vec![
        Enemy::new(EnemyKind::Potato, 0, v(100, 0), 1),
        Enemy::new(EnemyKind::Potato, 0, v(50, 0), 2),
        Enemy::new(EnemyKind::Potato, 0, v(-50, 0), 3),
    ];
    // Indices 1 and 2 are equally near; the earlier one wins the tie.
    assert_eq!(find_nearest(&enemies, v(0, 0)), Some(1));
    assert_eq!(find_nearest(&Vec::new(), v(0, 0)), None);
}

#[test]
fn gunner_fires_at_nearest_enemy_in_range() {
    let mut sim = base_sim();
    sim.turrets.push(Structure::new(Turret::Turret1x1, v(352, 352)));
    sim.enemies.push(Enemy::new(EnemyKind::Carrot, 0, v(452, 352), 1));
    sim.next_id = 2;
    sim.now_ticks = 300;
    sim.handle_gunners();
    assert_eq!(sim.projectiles.len(), 1);
    assert_eq!(sim.projectiles[0].pos, v(352, 352));
    assert_eq!(sim.projectiles[0].heading, v(100, 0));
    assert_eq!(sim.projectiles[0].ty, ProjectileType::ChefsKnife);
    assert_eq!(sim.turrets[0].gun_state.last_shot, 300);
    assert_eq!(sim.turrets[0].facing, v(100, 0));
    // The cooldown has not elapsed: no second shot the same tick later.
    sim.handle_gunners();
    assert_eq!(sim.projectiles.len(), 1);
}

#[test]
fn gunner_fires_at_exact_cooldown_boundary() {
    // Gun1 at 60 ticks per second reloads in 60 * 5 / 9 = 33 ticks: a
    // shot is owed once at least a cooldown has passed, equality
    // included, and refused one tick earlier.
    let mut sim = base_sim();
    let mut st = Structure::new(Turret::Turret1x1, v(352, 352));
    st.gun_state.last_shot = 100;
    sim.turrets.push(st);
    sim.enemies.push(Enemy::new(EnemyKind::Carrot, 0, v(452, 352), 1));
    sim.next_id = 2;
    sim.now_ticks = 132;
    sim.handle_gunners();
    assert!(sim.projectiles.is_empty());
    sim.now_ticks = 133;
    sim.handle_gunners();
    assert_eq!(sim.projectiles.len(), 1);
    assert_eq!(sim.turrets[0].gun_state.last_shot, 133);
}

#[test]
fn spawned_adversary_rests_on_its_spawn_tick() {
    // Traversal runs over the field as it was before the spawn, so a
    // freshly spawned adversary stands exactly at the spawn portal
    // until the next tick moves it.
    let mut sim = base_sim();
    sim.round_counter.0 = 1;
    sim.round = Round(vec![EnemyKind::Potato]);
    sim.game_tick();
    assert_eq!(sim.enemies.len(), 1);
    assert_eq!(sim.enemies[0].pos, v(32, 32));
    // The next tick walks it toward the second waypoint: 2 tiles per
    // second at 60 ticks per second is 2 units per tick.
    sim.game_tick();
    assert_eq!(sim.enemies[0].pos, v(34, 32));
}

#[test]
fn gunner_holds_fire_out_of_range() {
    let mut sim = base_sim();
    sim.turrets.push(Structure::new(Turret::Turret1x1, v(352, 352)));
    // Gun1 reaches five tiles (320 units); this enemy sits 400 away.
    sim.enemies.push(Enemy::new(EnemyKind::Carrot, 0, v(752, 352), 1));
    sim.next_id = 2;
    sim.now_ticks = 300;
    sim.handle_gunners();
    assert!(sim.projectiles.is_empty());
    assert_eq!(sim.turrets[0].gun_state.last_shot, 0);
}

#[test]
fn projectile_hits_each_target_at_most_once() {
    // A hit-budget-3 projectile overlapping the same stationary
    // adversary for five ticks charges it exactly once.
    let mut sim = base_sim();
    sim.enemies.push(Enemy::new(EnemyKind::Pepper, 0, v(1000, 500), 1));
    sim.next_id = 2;
    sim.projectiles.push(Projectile::new(ProjectileType::ChefsKnife, v(1000, 500), v(1000, 0)));
    for _ in 0..5 {
        sim.handle_projectile_collisions();
    }
    assert_eq!(sim.enemies[0].health, 2);
    assert_eq!(sim.projectiles[0].health, 2);
    assert_eq!(sim.projectiles[0].hit_enemies, vec![1]);
    // The one strike deflected the heading by a bounded shear: the
    // along-axis component is kept, the cross component stays within
    // the ten-degree jitter window.
    assert_eq!(sim.projectiles[0].heading.x, 1000);
    assert!(-176 <= sim.projectiles[0].heading.y && sim.projectiles[0].heading.y <= 176);
}

#[test]
fn projectile_expires_after_spending_hit_budget() {
    // Three distinct adversaries under one budget-3 projectile: three
    // hits in one pass, after which the movement pass removes it.
    let mut sim = base_sim();
    for id in 1..=3 {
        sim.enemies.push(Enemy::new(EnemyKind::Pepper, 0, v(1000, 500), id));
    }
    sim.next_id = 4;
    sim.projectiles.push(Projectile::new(ProjectileType::ChefsKnife, v(1000, 500), v(1000, 0)));
    sim.handle_projectile_collisions();
    assert_eq!(sim.projectiles[0].health, 0);
    assert_eq!(sim.projectiles[0].hit_enemies, vec![1, 2, 3]);
    for k in 0..3 {
        assert_eq!(sim.enemies[k].health, 2);
    }
    sim.handle_projectiles();
    assert!(sim.projectiles.is_empty());
}

#[test]
fn projectile_moves_along_heading_and_expires_out_of_bounds() {
    let mut sim = base_sim();
    sim.projectiles.push(Projectile::new(ProjectileType::Knife, v(0, 0), v(1000, 0)));
    sim.handle_projectiles();
    // Knife speed: 8 tiles per second at 60 ticks per second covers
    // 64 * 16 / 120 = 8 units per tick.
    assert_eq!(sim.projectiles[0].pos, v(8, 0));
    // Beyond the playable bound (16 tiles = 1024 units) it expires.
    sim.projectiles[0].pos = v(1025, 0);
    sim.handle_projectiles();
    assert!(sim.projectiles.is_empty());
}

#[test]
fn deflection_shears_heading_by_jitter() {
    let mut p = Projectile::new(ProjectileType::ChefsKnife, v(0, 0), v(1000, 0));
    p.record_hit(9, 176);
    assert_eq!(p.heading, v(1000, 176));
    assert_eq!(p.health, 2);
    assert_eq!(p.hit_enemies, vec![9]);
    let mut q = Projectile::new(ProjectileType::ChefsKnife, v(0, 0), v(1000, 0));
    q.record_hit(9, -176);
    assert_eq!(q.heading, v(1000, -176));
}

#[test]
fn split_spawns_configured_children_with_parent_index() {
    // Killing a split-capable adversary spawns exactly the configured
    // count of the configured child kind, each inheriting the parent's
    // waypoint index; a non-split kind spawns no children.
    let mut sim = base_sim();
    let mut pepper = Enemy::new(EnemyKind::Pepper, 7, v(500, 500), 1);
    pepper.health = 0;
    let mut potato = Enemy::new(EnemyKind::Potato, 2, v(400, 400), 2);
    potato.health = 0;
    let survivor = Enemy::new(EnemyKind::Carrot, 1, v(300, 300), 3);
    sim.enemies.push(pepper);
    sim.enemies.push(potato);
    sim.enemies.push(survivor);
    sim.next_id = 4;
    sim.handle_enemies();
    // One survivor, then the pepper's four carrots; the potato vanishes.
    assert_eq!(sim.enemies.len(), 5);
    assert_eq!(sim.enemies[0].id, 3);
    for k in 1..5 {
        assert_eq!(sim.enemies[k].kind, EnemyKind::Carrot);
        assert_eq!(sim.enemies[k].idx, 7);
        assert_eq!(sim.enemies[k].health, 1);
        assert_eq!(sim.enemies[k].id, 3 + k as u64);
    }
    assert_eq!(sim.next_id, 8);
    // The first child stands exactly at the parent's last position.
    assert_eq!(sim.enemies[1].pos, v(500, 500));
    // The others scatter by less than a tile.
    for k in 2..5 {
        let p = sim.enemies[k].pos;
        assert!(500 <= p.x && p.x < 500 + 64);
        assert!(500 <= p.y && p.y < 500 + 64);
    }
}

#[test]
fn carrot_splits_into_one_potato() {
    let parent = Enemy::new(EnemyKind::Carrot, 4, v(100, 100), 1);
    let kids = split_children(&parent, 64, 10);
    assert_eq!(kids.len(), 1);
    assert_eq!(kids[0].kind, EnemyKind::Potato);
    assert_eq!(kids[0].idx, 4);
    assert_eq!(kids[0].pos, v(100, 100));
    assert_eq!(kids[0].id, 10);
    let loner = Enemy::new(EnemyKind::Potato, 4, v(100, 100), 2);
    assert!(split_children(&loner, 64, 10).is_empty());
}

#[test]
fn wave_starts_only_when_field_and_queue_are_empty() {
    let mut sim = base_sim();
    // An adversary is alive: no new wave, whatever the queue says.
    sim.round_counter.0 = 1;
    sim.enemies.push(Enemy::new(EnemyKind::Potato, 0, v(500, 500), 1));
    sim.next_id = 2;
    sim.game_tick();
    assert_eq!(sim.round_counter.0, 1);
    // A queued spawn is pending: still no new wave.
    let mut sim = base_sim();
    sim.round_counter.0 = 1;
    sim.round = Round(vec![EnemyKind::Potato]);
    sim.game_tick();
    assert_eq!(sim.round_counter.0, 1);
    // The spawn timer fired, so the queued adversary is on the field
    // now, standing at the spawn portal until the next tick.
    assert_eq!(sim.enemies.len(), 1);
    assert_eq!(sim.enemies[0].pos, v(32, 32));
    assert!(sim.round.0.is_empty());
    // And with it alive, the next tick still opens no wave.
    sim.game_tick();
    assert_eq!(sim.round_counter.0, 1);
}

#[test]
fn wave_sequence_advances_one_round_at_a_time() {
    let mut sim = base_sim();
    // Field and queue empty: round one begins, composed from the table.
    sim.game_tick();
    assert_eq!(sim.round_counter.0, 1);
    assert_eq!(sim.round.0.len(), 8);
    // The queue is consumed from the back: the carrots spawn first.
    sim.game_tick();
    assert_eq!(sim.round_counter.0, 1);
    assert_eq!(sim.round.0.len(), 7);
    assert_eq!(sim.enemies.len(), 1);
    assert_eq!(sim.enemies[0].kind, EnemyKind::Carrot);
    assert_eq!(sim.enemies[0].pos, v(32, 32));
}

#[test]
fn round_past_table_synthesizes_default_wave() {
    // With an authored table of three rounds, round four is a default
    // queue of four adversaries of the strongest kind.
    let mut sim = base_sim();
    sim.round_counter.0 = 3;
    sim.game_tick();
    assert_eq!(sim.round_counter.0, 4);
    assert_eq!(sim.round.0.len(), 4);
    for k in 0..4 {
        assert_eq!(sim.round.0[k], EnemyKind::Pepper);
    }
}

#[test]
fn compose_round_flattens_table_entries() {
    let list = base_round_list();
    let r1 = compose_round(&list, 1);
    assert_eq!(r1.len(), 8);
    for k in 0..5 {
        assert_eq!(r1[k], EnemyKind::Potato);
    }
    for k in 5..8 {
        assert_eq!(r1[k], EnemyKind::Carrot);
    }
    let r9 = compose_round(&list, 9);
    assert_eq!(r9.len(), 9);
    assert_eq!(r9[0], EnemyKind::Pepper);
}

#[test]
fn traversal_reaches_waypoints_and_goal_on_schedule() {
    // Path (0,0) -> (T,0) -> (2T,0) with tile T = 720 at 20 ticks per
    // second: a potato covers 2 tiles per second, 72 units per tick, so
    // it reaches waypoint one after ceil(T / s) = 10 ticks and the goal
    // after 20, where it despawns.
    let config = SimConfig::new(720, 16, 20, 1).unwrap();
    let level = Level { path: vec![v(0, 0), v(1, 0)], decor: vec![], center_pos: v(0, 0) };
    let mut sim = SimState::new(config, &level, RoundList(vec![])).unwrap();
    sim.path = Path {
        start_position: v(0, 0),
        end_position: v(1440, 0),
        positions: vec![PathNode::new(v(0, 0)), PathNode::new(v(720, 0)), PathNode::new(
            v(1440, 0),
        )],
    };
    sim.round_counter.0 = 1;
    sim.enemies.push(Enemy::new(EnemyKind::Potato, 0, v(0, 0), 1));
    sim.next_id = 2;
    for _ in 0..9 {
        sim.game_tick();
    }
    assert_eq!(sim.enemies[0].idx, 0);
    assert_eq!(sim.enemies[0].pos, v(648, 0));
    sim.game_tick();
    assert_eq!(sim.enemies[0].idx, 1);
    assert_eq!(sim.enemies[0].pos, v(720, 0));
    for _ in 0..9 {
        sim.game_tick();
    }
    assert_eq!(sim.enemies.len(), 1);
    sim.game_tick();
    assert!(sim.enemies.is_empty());
}

#[test]
fn kind_tables_match_their_configuration() {
    // Adversaries: speed in tiles per second, starting health, splits.
    let potato = Enemy::new(EnemyKind::Potato, 0, v(0, 0), 1);
    let carrot = Enemy::new(EnemyKind::Carrot, 0, v(0, 0), 2);
    let pepper = Enemy::new(EnemyKind::Pepper, 0, v(0, 0), 3);
    assert_eq!((potato.health, carrot.health, pepper.health), (1, 1, 3));
    assert_eq!(potato.speed(720, 20), 72);
    assert_eq!(carrot.speed(720, 20), 108);
    assert_eq!(pepper.speed(720, 20), 36);
    assert_eq!(potato.speed(64, 60), 2);
    assert_eq!(pepper.speed(64, 60), 1);
    assert_eq!(potato.split(), None);
    assert_eq!(carrot.split(), Some((1, EnemyKind::Potato)));
    assert_eq!(pepper.split(), Some((4, EnemyKind::Carrot)));
    // Weapons: range in tiles, cooldown in ticks (1 / rate seconds).
    assert_eq!(Gun::Gun1.range(64), 320);
    assert_eq!(Gun::Gun2.range(64), 512);
    assert_eq!(Gun::Gun1.cooldown_ticks(360), 200);
    assert_eq!(Gun::Gun2.cooldown_ticks(360), 144);
    assert_eq!(Turret::Turret1x1.gun(), Gun::Gun1);
    assert_eq!(Turret::Turret2x2.gun(), Gun::Gun2);
    assert_eq!(Turret::Turret1x1.footprint_cells(), 1);
    assert_eq!(Turret::Turret2x2.footprint_cells(), 2);
    // Projectiles: hit budgets and per-tick velocities.
    assert_eq!(ProjectileType::Knife.initial_health(), 1);
    assert_eq!(ProjectileType::Spoon.initial_health(), 2);
    assert_eq!(ProjectileType::ChefsKnife.initial_health(), 3);
    assert_eq!(ProjectileType::Knife.velocity(720, 20), 288);
    assert_eq!(ProjectileType::Spoon.velocity(720, 20), 216);
    assert_eq!(ProjectileType::ChefsKnife.velocity(720, 20), 306);
    assert_eq!(MenuItem::all(), [MenuItem::Turret1x1, MenuItem::Turret2x2]);
}

#[test]
fn spawn_timer_fires_once_per_period() {
    let mut t = SpawnTimer::new(3);
    assert!(!t.tick());
    assert!(!t.tick());
    assert!(t.tick());
    assert!(!t.tick());
    assert!(!t.tick());
    assert!(t.tick());
}

#[test]
fn random_jitter_stays_in_its_range() {
    // A one-wide range pins the result exactly.
    assert_eq!(roots_td::rng::random_in_range(5, 6), 5);
    for _ in 0..200 {
        let r = roots_td::rng::random_in_range(-3, 10);
        assert!(-3 <= r && r < 10);
    }
}

#[test]
fn full_tick_runs_all_passes_in_order() {
    let mut sim = base_sim();
    let input = TickInput {
        pointer: Some(v(640, 360)),
        window: v(1280, 720),
        camera: v(0, 0),
        now_ms: 1000,
        place_pressed: false,
        sell_pressed: false,
        select: Some(MenuItem::Turret1x1),
    };
    sim.tick(input);
    assert_eq!(sim.now_ticks, 1);
    assert_eq!(sim.menu.current_item, MenuItem::Turret1x1);
    assert_eq!(sim.cursor.selection_size, 1);
    // The first tick opened round one.
    assert_eq!(sim.round_counter.0, 1);
    assert_eq!(sim.round.0.len(), 8);
}
