use roots_td::cursor::{snap_axis, snap_target, GridCursor};
use roots_td::geom::{dist2, floor_div, isqrt, overlap, step_dir, step_toward, Side, Vec2I};
use roots_td::hud::scoreboard_cell;
use roots_td::interpolation::ease;
use roots_td::level::{blocking_decor, Decor, Level, LevelError, Path};

fn v(x: i64, y: i64) -> Vec2I {
    Vec2I { x, y }
}

#[test]
fn floor_div_rounds_toward_negative_infinity() {
    assert_eq!(floor_div(7, 2), 3);
    assert_eq!(floor_div(-7, 2), -4);
    assert_eq!(floor_div(-1, 64), -1);
    assert_eq!(floor_div(0, 64), 0);
    assert_eq!(floor_div(64, 64), 1);
}

#[test]
fn isqrt_exact_and_floor_values() {
    assert_eq!(isqrt(0), 0);
    assert_eq!(isqrt(1), 1);
    assert_eq!(isqrt(10), 3);
    assert_eq!(isqrt(144), 12);
    assert_eq!(isqrt(145), 12);
    assert_eq!(isqrt(0x400_0000_0000_0000), 0x2000_0000);
}

#[test]
fn dist2_is_squared_euclidean() {
    assert_eq!(dist2(v(0, 0), v(3, 4)), 25);
    assert_eq!(dist2(v(-3, -4), v(0, 0)), 25);
    assert_eq!(dist2(v(5, 5), v(5, 5)), 0);
}

#[test]
fn snapping_is_idempotent_and_aligned() {
    // Snapping twice yields the same cell center as snapping once.
    let tile = 64;
    for p in [-130, -65, -64, -1, 0, 1, 31, 32, 63, 64, 100, 96, 4097] {
        let once = snap_axis(p, tile);
        assert_eq!(snap_axis(once, tile), once);
        // A snapped coordinate is a cell center: half a tile past a multiple.
        assert_eq!((once - tile / 2).rem_euclid(tile), 0);
    }
    assert_eq!(snap_axis(100, 64), 96);
    assert_eq!(snap_axis(-1, 64), -32);
}

#[test]
fn even_footprint_snaps_to_cell_corners() {
    let tile = 64;
    for p in [-130, -1, 0, 31, 63, 100, 127, 128] {
        let once = snap_target(p, tile, 2);
        assert_eq!(snap_target(once, tile, 2), once);
        // An even footprint centers on a cell corner: an exact multiple.
        assert_eq!(once.rem_euclid(tile), 0);
    }
    assert_eq!(snap_target(100, 64, 2), 128);
    assert_eq!(snap_target(100, 64, 1), 96);
}

#[test]
fn overlap_treats_edge_contact_as_clear() {
    let size = v(64, 64);
    assert!(overlap(v(0, 0), size, v(64, 0), size).is_none());
    assert!(overlap(v(0, 0), size, v(0, 64), size).is_none());
    assert!(overlap(v(0, 0), size, v(63, 0), size).is_some());
    assert!(overlap(v(0, 0), size, v(0, -63), size).is_some());
}

#[test]
fn overlap_reports_shallowest_side() {
    let size = v(64, 64);
    assert_eq!(overlap(v(-60, 0), size, v(0, 0), size), Some(Side::Left));
    assert_eq!(overlap(v(60, 0), size, v(0, 0), size), Some(Side::Right));
    assert_eq!(overlap(v(0, -60), size, v(0, 0), size), Some(Side::Bottom));
    assert_eq!(overlap(v(0, 60), size, v(0, 0), size), Some(Side::Top));
}

#[test]
fn overlap_inside_for_contained_point() {
    // A zero-size box strictly inside a structure's footprint registers
    // as Inside: this is what lets a sell click anywhere on the
    // footprint take effect.
    let zero = v(0, 0);
    let foot = v(128, 128);
    assert_eq!(overlap(v(10, -20), zero, v(0, 0), foot), Some(Side::Inside));
    assert_eq!(overlap(v(64, 0), zero, v(0, 0), foot), None);
}

#[test]
fn step_toward_moves_by_speed_along_axis() {
    let r = step_toward(v(0, 0), v(100, 0), 30);
    assert_eq!((r.x, r.y), (30, 0));
    let r = step_toward(v(100, 0), v(0, 0), 30);
    assert_eq!((r.x, r.y), (70, 0));
    // Already at the waypoint: no movement.
    let r = step_toward(v(5, 5), v(5, 5), 30);
    assert_eq!((r.x, r.y), (5, 5));
}

#[test]
fn step_dir_follows_heading() {
    let r = step_dir(v(0, 0), v(1000, 0), 16);
    assert_eq!((r.x, r.y), (16, 0));
    let r = step_dir(v(0, 0), v(-1000, 0), 16);
    assert_eq!((r.x, r.y), (-16, 0));
    let r = step_dir(v(0, 0), v(0, 0), 16);
    assert_eq!((r.x, r.y), (0, 0));
    // A diagonal heading splits the step across both axes.
    let r = step_dir(v(0, 0), v(300, 400), 100);
    assert_eq!((r.x, r.y), (60, 80));
}

#[test]
fn ease_starts_at_rest_and_settles() {
    assert_eq!(ease(-5, 1000), 0);
    assert_eq!(ease(0, 1000), 0);
    assert_eq!(ease(500, 1000), 562);
    assert_eq!(ease(1000, 1000), 1000);
    assert_eq!(ease(1200, 1000), 1000);
    for t in 0..=1000 {
        let e = ease(t, 1000);
        assert!(0 <= e && e <= 1000);
    }
}

#[test]
fn cursor_freezes_without_pointer() {
    let mut c = GridCursor::new();
    c.selection_size = 1;
    let before_target = c.last_target_pos;
    c.move_cursor(None, v(1280, 720), v(0, 0), 100, 64);
    assert_eq!(c.last_target_pos, before_target);
    assert_eq!(c.visual_pos, v(0, 0));
}

#[test]
fn cursor_eases_to_snapped_target() {
    let mut c = GridCursor::new();
    c.selection_size = 1;
    // Pointer at the window center with no camera offset: world (0, 0),
    // whose cell center is (32, 32).
    c.move_cursor(Some(v(640, 360)), v(1280, 720), v(0, 0), 1000, 64);
    assert_eq!(c.last_target_pos, v(32, 32));
    // Two seconds later the ease has fully settled onto the target.
    c.move_cursor(Some(v(640, 360)), v(1280, 720), v(0, 0), 3000, 64);
    assert_eq!(c.visual_pos, v(32, 32));
}

#[test]
fn scoreboard_cell_names_the_pointed_cell() {
    let c = scoreboard_cell(v(640, 360), v(1280, 720), v(0, 0), 64);
    assert_eq!((c.x, c.y), (0, 0));
    let c = scoreboard_cell(v(500, 360), v(1280, 720), v(0, 0), 64);
    assert_eq!((c.x, c.y), (-3, 0));
}

#[test]
fn level_with_short_path_is_rejected() {
    let level = Level { path: vec![v(0, 0)], decor: vec![], center_pos: v(0, 0) };
    assert_eq!(Path::from_level(&level, 64).err(), Some(LevelError::TooFewWaypoints));
}

#[test]
fn level_with_stray_waypoint_is_rejected() {
    let level = Level { path: vec![v(0, 0), v(5000, 0)], decor: vec![], center_pos: v(0, 0) };
    assert_eq!(Path::from_level(&level, 64).err(), Some(LevelError::WaypointOutOfRange));
}

#[test]
fn path_maps_grid_cells_to_centers() {
    let level = Level {
        path: vec![v(0, 0), v(1, 0), v(2, 0)],
        decor: vec![],
        center_pos: v(1, 0),
    };
    let path = Path::from_level(&level, 64).unwrap();
    assert_eq!(path.positions.len(), 3);
    assert_eq!(path.start_position, v(32, 32));
    assert_eq!(path.end_position, v(160, 32));
    assert_eq!(path.positions[1].position, v(96, 32));
}

#[test]
fn blocking_decor_keeps_only_blockers() {
    let level = Level {
        path: vec![v(0, 0), v(1, 0)],
        decor: vec![
            Decor { asset: String::from("bush"), pos: v(3, 3), blocks: true },
            Decor { asset: String::from("flower"), pos: v(4, 4), blocks: false },
            Decor { asset: String::from("rock"), pos: v(-2, 5), blocks: true },
        ],
        center_pos: v(0, 0),
    };
    let blockers = blocking_decor(&level, 64);
    assert_eq!(blockers.len(), 2);
    assert_eq!(blockers[0], v(3 * 64 + 32, 3 * 64 + 32));
    assert_eq!(blockers[1], v(-2 * 64 + 32, 5 * 64 + 32));
}
