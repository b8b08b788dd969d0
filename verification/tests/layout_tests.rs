use breakout_core::geometry::Vec3;
use breakout_core::layout::{brick_grid, build_world, validate, LayoutConfig, WallLocation};
use breakout_core::world::{count_kind, EntityKind};

/// The classic arena, in millionths of a world unit: a 10 x 10 arena, a
/// 2 x 1 paddle moving at 8 per second, 1 x 0.4 bricks with 0.3 gaps, a
/// 0.2 ball starting at (-4, 2) along (0.5, -0.5) at speed 7.
fn classic() -> LayoutConfig {
    LayoutConfig {
        left: 0,
        right: 10_000_000,
        bottom: 0,
        top: 10_000_000,
        wall_thickness: 1_000_000,
        paddle_size: Vec3 { x: 2_000_000, y: 1_000_000, z: 1_000_000 },
        paddle_speed: 8_000_000,
        paddle_padding: 100_000,
        gap_paddle_floor: 200_000,
        gap_paddle_bricks: 3_000_000,
        gap_bricks_ceiling: 300_000,
        gap_bricks_sides: 500_000,
        gap_bricks: 300_000,
        brick_size: Vec3 { x: 1_000_000, y: 400_000, z: 1_000_000 },
        ball_size: Vec3 { x: 200_000, y: 200_000, z: 200_000 },
        ball_start: Vec3 { x: -4_000_000, y: 2_000_000, z: 0 },
        ball_dir: Vec3 { x: 500_000, y: -500_000, z: 0 },
        ball_speed: 7_000_000,
    }
}

#[test]
fn classic_configuration_is_valid() {
    assert!(validate(&classic()));
}

#[test]
fn non_positive_arena_is_rejected() {
    let mut cfg = classic();
    cfg.right = cfg.left;
    assert!(!validate(&cfg));
    let mut cfg = classic();
    cfg.top = -2_000_000;
    assert!(!validate(&cfg));
}

#[test]
fn oversized_brick_is_rejected() {
    let mut cfg = classic();
    cfg.brick_size.x = 9_000_002;
    assert!(!validate(&cfg));
}

#[test]
fn zero_direction_is_rejected() {
    let mut cfg = classic();
    cfg.ball_dir = Vec3 { x: 0, y: 0, z: 0 };
    assert!(!validate(&cfg));
}

#[test]
fn wall_positions_sit_on_the_perimeter() {
    let cfg = classic();
    assert_eq!(
        WallLocation::Left.position(&cfg),
        Vec3 { x: -5_500_000, y: 5_000_000, z: 0 }
    );
    assert_eq!(
        WallLocation::Right.position(&cfg),
        Vec3 { x: 5_500_000, y: 5_000_000, z: 0 }
    );
    assert_eq!(WallLocation::Bottom.position(&cfg), Vec3 { x: 0, y: -500_000, z: 0 });
    assert_eq!(WallLocation::Top.position(&cfg), Vec3 { x: 0, y: 10_500_000, z: 0 });
}

#[test]
fn wall_sizes_are_positive_and_overhang_the_corners() {
    let cfg = classic();
    let side = WallLocation::Left.size(&cfg);
    assert_eq!(side, Vec3 { x: 1_000_000, y: 11_000_000, z: 1_000_000 });
    assert_eq!(WallLocation::Right.size(&cfg), side);
    let lid = WallLocation::Top.size(&cfg);
    assert_eq!(lid, Vec3 { x: 11_000_000, y: 1_000_000, z: 1_000_000 });
    assert_eq!(WallLocation::Bottom.size(&cfg), lid);
    for s in [side, lid] {
        assert!(s.x > 0 && s.y > 0 && s.z > 0);
    }
}

#[test]
fn grid_counts_match_the_available_room() {
    let g = brick_grid(&classic());
    // floor(9.0 / 1.3) columns, floor(6.5 / 0.7) rows
    assert_eq!(g.n_columns, 6);
    assert_eq!(g.n_rows, 9);
    assert_eq!(g.offset_x, -3_250_000);
    assert_eq!(g.offset_y, 3_400_000);
}

#[test]
fn grid_is_never_empty_when_one_brick_fits() {
    let mut cfg = classic();
    // exactly one brick and its gap fit
    cfg.brick_size.x = 8_700_000 - 300_000;
    assert!(validate(&cfg));
    let g = brick_grid(&cfg);
    assert_eq!(g.n_columns, 1);
    assert!(g.n_rows >= 1);
}

#[test]
fn built_world_holds_every_entity_once() {
    let w = build_world(&classic());
    assert_eq!(w.entities.len(), 6 + 54);
    assert_eq!(count_kind(&w, EntityKind::Wall), 4);
    assert_eq!(count_kind(&w, EntityKind::Paddle), 1);
    assert_eq!(count_kind(&w, EntityKind::Ball), 1);
    assert_eq!(count_kind(&w, EntityKind::Brick), 54);
}

#[test]
fn built_bricks_lie_inside_the_arena_row_major() {
    let cfg = classic();
    let w = build_world(&cfg);
    let bricks: Vec<_> = w.entities.iter().filter(|e| e.kind == EntityKind::Brick).collect();
    assert_eq!(bricks.len(), 54);
    // row-major from the bottom-left cell
    assert_eq!(bricks[0].position, Vec3 { x: -3_250_000, y: 3_400_000, z: 0 });
    assert_eq!(bricks[1].position, Vec3 { x: -1_950_000, y: 3_400_000, z: 0 });
    assert_eq!(bricks[6].position, Vec3 { x: -3_250_000, y: 4_100_000, z: 0 });
    for b in &bricks {
        assert!(2 * b.position.x - b.size.x >= -10_000_000);
        assert!(2 * b.position.x + b.size.x <= 10_000_000);
        assert!(2 * b.position.y - b.size.y >= 0);
        assert!(2 * b.position.y + b.size.y <= 20_000_000);
        assert!(b.collider);
    }
}

#[test]
fn ball_starts_at_speed_along_the_normalized_direction() {
    let cfg = classic();
    let w = build_world(&cfg);
    let ball = w.entities.iter().find(|e| e.kind == EntityKind::Ball).unwrap();
    assert_eq!(ball.position, cfg.ball_start);
    assert!(ball.has_velocity && !ball.collider);
    // (0.5, -0.5, 0) normalized times 7, within fixed-point rounding
    assert_eq!(ball.velocity, Vec3 { x: 4_949_752, y: -4_949_752, z: 0 });
    let vx = ball.velocity.x as f64 / 1e6;
    let vy = ball.velocity.y as f64 / 1e6;
    let expected = 7.0 * 0.5 / 0.5f64.sqrt();
    assert!((vx - expected).abs() < 1e-5);
    assert!((vy + expected).abs() < 1e-5);
    assert!((vx * vx + vy * vy).sqrt() - 7.0 < 1e-5);
}
