use breakout_core::geometry::Vec3;
use breakout_core::layout::{build_world, validate, LayoutConfig};
use breakout_core::sim::{apply_velocity, check_for_collision, motion_in_bounds, move_object, tick};
use breakout_core::world::{count_kind, Entity, EntityKind, Scoreboard, World};

fn classic() -> LayoutConfig {
    LayoutConfig {
        left: 0,
        right: 10_000_000,
        bottom: 0,
        top: 10_000_000,
        wall_thickness: 1_000_000,
        paddle_size: Vec3 { x: 2_000_000, y: 1_000_000, z: 1_000_000 },
        paddle_speed: 8_000_000,
        paddle_padding: 100_000,
        gap_paddle_floor: 200_000,
        gap_paddle_bricks: 3_000_000,
        gap_bricks_ceiling: 300_000,
        gap_bricks_sides: 500_000,
        gap_bricks: 300_000,
        brick_size: Vec3 { x: 1_000_000, y: 400_000, z: 1_000_000 },
        ball_size: Vec3 { x: 200_000, y: 200_000, z: 200_000 },
        ball_start: Vec3 { x: -4_000_000, y: 2_000_000, z: 0 },
        ball_dir: Vec3 { x: 500_000, y: -500_000, z: 0 },
        ball_speed: 7_000_000,
    }
}

fn still(id: u64, kind: EntityKind, position: Vec3, size: Vec3) -> Entity {
    Entity {
        id,
        kind,
        position,
        size,
        has_velocity: false,
        velocity: Vec3 { x: 0, y: 0, z: 0 },
        collider: true,
    }
}

fn ball(id: u64, position: Vec3, size: Vec3, velocity: Vec3) -> Entity {
    Entity { id, kind: EntityKind::Ball, position, size, has_velocity: true, velocity, collider: false }
}

fn ball_of(world: &World) -> Entity {
    *world.entities.iter().find(|e| e.kind == EntityKind::Ball).unwrap()
}

#[test]
fn zero_velocity_leaves_positions_unchanged() {
    for (num, den) in [(1i64, 60i64), (5, 1), (0, 7), (1_000, 3)] {
        let mut w = World {
            entities: vec![
                ball(0, Vec3 { x: 123, y: -456, z: 7 }, Vec3 { x: 2, y: 2, z: 2 }, Vec3 { x: 0, y: 0, z: 0 }),
                still(1, EntityKind::Paddle, Vec3 { x: 0, y: 0, z: 0 }, Vec3 { x: 4, y: 2, z: 2 }),
            ],
        };
        apply_velocity(&mut w, num, den);
        assert_eq!(w.entities[0].position, Vec3 { x: 123, y: -456, z: 7 });
        assert_eq!(w.entities[1].position, Vec3 { x: 0, y: 0, z: 0 });
    }
}

#[test]
fn integration_moves_by_velocity_times_dt() {
    let mut w = World {
        entities: vec![
            ball(0, Vec3 { x: 0, y: 0, z: 0 }, Vec3 { x: 2, y: 2, z: 2 }, Vec3 { x: 600, y: -600, z: 90 }),
            still(1, EntityKind::Paddle, Vec3 { x: 0, y: -50, z: 0 }, Vec3 { x: 4, y: 2, z: 2 }),
        ],
    };
    apply_velocity(&mut w, 1, 60);
    assert_eq!(w.entities[0].position, Vec3 { x: 10, y: -10, z: 1 });
}

#[test]
fn reflection_happens_once_and_never_against_a_receding_ball() {
    // a ball at (5, 5) moving right into a wall on its right: the wall's
    // left side is struck, so the x velocity flips to -2; rerunning the
    // resolver on the still-touching, now receding ball must not flip it
    // back
    let wall = still(1, EntityKind::Wall, Vec3 { x: 6, y: 5, z: 0 }, Vec3 { x: 2, y: 2, z: 2 });
    let paddle = still(2, EntityKind::Paddle, Vec3 { x: 0, y: -50, z: 0 }, Vec3 { x: 4, y: 2, z: 2 });
    let mut w = World {
        entities: vec![
            ball(0, Vec3 { x: 5, y: 5, z: 0 }, Vec3 { x: 2, y: 2, z: 2 }, Vec3 { x: 2, y: 0, z: 0 }),
            wall,
            paddle,
        ],
    };
    let mut sb = Scoreboard::new();
    let events = check_for_collision(&mut w, &mut sb);
    assert_eq!(events.len(), 1);
    assert_eq!(ball_of(&w).velocity, Vec3 { x: -2, y: 0, z: 0 });
    assert_eq!(sb.score, 0);
    let events = check_for_collision(&mut w, &mut sb);
    assert_eq!(events.len(), 1);
    assert_eq!(ball_of(&w).velocity, Vec3 { x: -2, y: 0, z: 0 });
    assert_eq!(sb.score, 0);
}

#[test]
fn a_brick_hit_scores_one_point_and_removes_one_brick() {
    let paddle = still(9, EntityKind::Paddle, Vec3 { x: 0, y: -50, z: 0 }, Vec3 { x: 4, y: 2, z: 2 });
    let near = still(1, EntityKind::Brick, Vec3 { x: 6, y: 5, z: 0 }, Vec3 { x: 2, y: 2, z: 2 });
    let far = still(2, EntityKind::Brick, Vec3 { x: 60, y: 5, z: 0 }, Vec3 { x: 2, y: 2, z: 2 });
    let mut w = World {
        entities: vec![
            ball(0, Vec3 { x: 5, y: 5, z: 0 }, Vec3 { x: 2, y: 2, z: 2 }, Vec3 { x: 2, y: 0, z: 0 }),
            near,
            far,
            paddle,
        ],
    };
    let mut sb = Scoreboard { score: 41 };
    assert_eq!(count_kind(&w, EntityKind::Brick), 2);
    let events = check_for_collision(&mut w, &mut sb);
    // n bricks become n - 1, the score grows by exactly one, one event
    assert_eq!(events.len(), 1);
    assert_eq!(count_kind(&w, EntityKind::Brick), 1);
    assert_eq!(sb.score, 42);
    assert_eq!(ball_of(&w).velocity, Vec3 { x: -2, y: 0, z: 0 });
    // the surviving brick is the far one, the order of the rest kept
    assert_eq!(w.entities.len(), 3);
    assert_eq!(w.entities[1].id, 2);
}

#[test]
fn one_free_tick_matches_the_closed_form() {
    // arena 0..10 x 0..10, ball from (-4, 2) along (0.5, -0.5) at speed 7:
    // after one tick of 1/60 s with nothing hit, the position matches
    // start + normalized_direction * speed * dt within 1e-5
    let cfg = classic();
    assert!(validate(&cfg));
    let mut w = build_world(&cfg);
    let mut sb = Scoreboard::new();
    assert!(motion_in_bounds(&w, 1, 60));
    let events = tick(&mut w, &mut sb, &cfg, false, false, 1, 60);
    assert!(events.is_empty());
    assert_eq!(sb.score, 0);
    let b = ball_of(&w);
    let unit = 0.5f64 / 0.5f64.sqrt();
    let expect_x = -4.0 + unit * 7.0 / 60.0;
    let expect_y = 2.0 - unit * 7.0 / 60.0;
    assert!((b.position.x as f64 / 1e6 - expect_x).abs() < 1e-5);
    assert!((b.position.y as f64 / 1e6 - expect_y).abs() < 1e-5);
}

#[test]
fn ball_reflects_off_the_right_wall_and_stays_inside() {
    // a ball running right at speed 7 reaches the right wall, reflects to
    // speed 7 leftward, and never ends up past the wall by more than one
    // tick of travel
    let cfg = classic();
    let mut w = build_world(&cfg);
    let mut sb = Scoreboard::new();
    // place the ball close to the right wall, running right
    for e in w.entities.iter_mut() {
        if e.kind == EntityKind::Ball {
            e.position = Vec3 { x: 4_800_000, y: 5_000_000, z: 0 };
            e.velocity = Vec3 { x: 7_000_000, y: 0, z: 0 };
        }
    }
    let step = 7_000_000 / 60;
    let mut reflected = false;
    for _ in 0..10 {
        assert!(motion_in_bounds(&w, 1, 60));
        tick(&mut w, &mut sb, &cfg, false, false, 1, 60);
        let b = ball_of(&w);
        // never past the arena bound plus one tick's travel
        assert!(2 * b.position.x + b.size.x <= 10_000_000 + 2 * step);
        if b.velocity.x < 0 {
            assert_eq!(b.velocity, Vec3 { x: -7_000_000, y: 0, z: 0 });
            reflected = true;
            break;
        }
    }
    assert!(reflected);
}

#[test]
fn paddle_input_moves_and_clamps() {
    let cfg = classic();
    let mut w = build_world(&cfg);
    let x0 = w.entities[4].position.x;
    assert_eq!(w.entities[4].kind, EntityKind::Paddle);
    move_object(&mut w, &cfg, true, false, 1, 60);
    // 8 per second over 1/60 s
    assert_eq!(w.entities[4].position.x, x0 + 133_333);
    move_object(&mut w, &cfg, false, true, 1, 60);
    assert_eq!(w.entities[4].position.x, x0);
    // both keys cancel
    move_object(&mut w, &cfg, true, true, 1, 60);
    assert_eq!(w.entities[4].position.x, x0);
    // holding one key pins the paddle to its bound: half arena minus half
    // wall, half paddle and the padding
    for _ in 0..100 {
        move_object(&mut w, &cfg, true, false, 1, 60);
    }
    assert_eq!(w.entities[4].position.x, 3_400_000);
    for _ in 0..200 {
        move_object(&mut w, &cfg, false, true, 1, 60);
    }
    assert_eq!(w.entities[4].position.x, -3_400_000);
}

#[test]
fn scoreboard_never_decreases_over_a_long_run() {
    let cfg = classic();
    let mut w = build_world(&cfg);
    let mut sb = Scoreboard::new();
    let mut last = 0u64;
    for i in 0..600u32 {
        let up = i % 3 == 0;
        let down = i % 5 == 0;
        assert!(motion_in_bounds(&w, 1, 60));
        tick(&mut w, &mut sb, &cfg, up, down, 1, 60);
        assert!(sb.score >= last);
        last = sb.score;
        // the walls keep the ball inside throughout
        let b = ball_of(&w);
        assert!(-12_000_000 <= b.position.x && b.position.x <= 12_000_000);
        assert!(-12_000_000 <= b.position.y && b.position.y <= 12_000_000);
    }
}

#[test]
fn fresh_scoreboard_starts_at_zero() {
    assert_eq!(Scoreboard::new().score, 0);
}

#[test]
fn embedded_ball_is_an_anomaly_without_event_or_reflection() {
    // the ball fully inside a brick: the overlap is detected, so the brick
    // is destroyed and scored, but no side is struck, no event is emitted
    // and the velocity stays untouched
    let paddle = still(9, EntityKind::Paddle, Vec3 { x: 0, y: -50, z: 0 }, Vec3 { x: 4, y: 2, z: 2 });
    let big = still(1, EntityKind::Brick, Vec3 { x: 5, y: 5, z: 0 }, Vec3 { x: 8, y: 8, z: 8 });
    let mut w = World {
        entities: vec![
            ball(0, Vec3 { x: 5, y: 5, z: 0 }, Vec3 { x: 2, y: 2, z: 2 }, Vec3 { x: 2, y: 1, z: 0 }),
            big,
            paddle,
        ],
    };
    let mut sb = Scoreboard::new();
    let events = check_for_collision(&mut w, &mut sb);
    assert!(events.is_empty());
    assert_eq!(sb.score, 1);
    assert_eq!(count_kind(&w, EntityKind::Brick), 0);
    assert_eq!(ball_of(&w).velocity, Vec3 { x: 2, y: 1, z: 0 });
}
