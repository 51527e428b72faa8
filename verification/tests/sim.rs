use ballsim::world::{World, BALL_RADIUS, WORLD_RIGHT};
use ballsim::render::{placements, tick, SCREEN_TOP};
use ballsim::SimError;

const TICKS_PER_SECOND: u32 = 30;

fn seeded_world() -> World {
    let mut w = World::new();
    w.add_ball(101_000, 350_000);
    w.add_ball(102_000, 500_000);
    w.add_ball(100_000, 550_000);
    w
}

#[test]
fn determinism_across_runs() {
    let mut w1 = seeded_world();
    let mut w2 = seeded_world();
    for _ in 0..60 {
        w1.step(TICKS_PER_SECOND);
        w2.step(TICKS_PER_SECOND);
    }
    assert_eq!(w1.count(), w2.count());
    for h in 0..w1.count() {
        assert_eq!(w1.position_of(h).unwrap(), w2.position_of(h).unwrap());
    }
}

#[test]
fn bodies_stay_inside_boundaries() {
    let mut w = World::new();
    w.add_ball(300_000, 400_000);
    for _ in 0..300 {
        w.step(TICKS_PER_SECOND);
        let (x, y) = w.position_of(0).unwrap();
        assert!(x >= BALL_RADIUS);
        assert!(x <= WORLD_RIGHT - BALL_RADIUS);
        assert!(y >= BALL_RADIUS);
    }
}

#[test]
fn handles_are_fresh_and_stable() {
    let mut w = World::new();
    let h0 = w.add_ball(100_000, 100_000);
    let h1 = w.add_ball(200_000, 100_000);
    assert_eq!(h0, 0);
    assert_eq!(h1, 1);
    assert_ne!(h0, h1);
    for _ in 0..30 {
        w.step(TICKS_PER_SECOND);
    }
    let h2 = w.add_ball(300_000, 100_000);
    assert_eq!(h2, 2);
    for _ in 0..30 {
        w.step(TICKS_PER_SECOND);
    }
    assert!(w.position_of(h0).is_ok());
    assert!(w.position_of(h1).is_ok());
    assert!(w.position_of(h2).is_ok());
}

#[test]
fn invalid_handle_is_rejected() {
    let mut w = World::new();
    assert_eq!(w.position_of(0), Err(SimError::InvalidHandle));
    w.add_ball(100_000, 100_000);
    assert!(w.position_of(0).is_ok());
    assert_eq!(w.position_of(1), Err(SimError::InvalidHandle));
    assert_eq!(w.body_of(7), Err(SimError::InvalidHandle));
}

#[test]
fn placement_flips_vertical_axis() {
    let mut w = World::new();
    let h = w.add_ball(100_000, 550_000);
    let ps = placements(&w);
    assert_eq!(ps.len(), 1);
    assert_eq!(ps[0].handle, h);
    assert_eq!(ps[0].x, 100_000 - BALL_RADIUS);
    assert_eq!(ps[0].y, SCREEN_TOP - 550_000 - BALL_RADIUS);
}

#[test]
fn tick_is_one_step_then_one_sync() {
    let mut w1 = seeded_world();
    let mut w2 = seeded_world();
    let ps1 = tick(&mut w1, TICKS_PER_SECOND);
    w2.step(TICKS_PER_SECOND);
    let ps2 = placements(&w2);
    assert_eq!(ps1, ps2);
    for h in 0..w1.count() {
        assert_eq!(w1.position_of(h).unwrap(), w2.position_of(h).unwrap());
    }
}

#[test]
fn balls_fall_under_gravity() {
    let mut w = World::new();
    w.add_ball(300_000, 500_000);
    let (_, y0) = w.position_of(0).unwrap();
    w.step(TICKS_PER_SECOND);
    let (x1, y1) = w.position_of(0).unwrap();
    // One step at 1/30 s: vy = -98_100 / 30 = -3_270, y moves by -109.
    assert_eq!(x1, 300_000);
    assert_eq!(y1, y0 - 109);
}

#[test]
fn three_balls_settle_on_the_floor() {
    let mut w = seeded_world();
    for _ in 0..900 {
        w.step(TICKS_PER_SECOND);
    }
    for h in 0..w.count() {
        let (x, y) = w.position_of(h).unwrap();
        assert!((y - BALL_RADIUS).abs() <= 1_000, "ball {h} rests at y = {y}");
        assert!(x >= BALL_RADIUS && x <= WORLD_RIGHT - BALL_RADIUS);
    }
}
