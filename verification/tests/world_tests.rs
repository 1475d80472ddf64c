//! The simulation world: spawn and despawn, the query phase's band
//! accumulation, the boundary nudge, and whole ticks.

use boids::flock::Config;
use boids::geom::Vec2i;
use boids::world::World;

fn make_world() -> World {
    // A typical tuning, at unit scale: radii 10 and 40, speeds 50 to
    // 600, factors 0.05 / 0.05 / 0.005, turn 5, cells of 26.
    let config = Config::new(10, 40, 600, 50, 50, 50, 5, 5, 26).unwrap();
    World::new(config)
}

fn v(x: i64, y: i64) -> Vec2i {
    Vec2i::new(x, y)
}

#[test]
fn test_spawn_assigns_fresh_ids() {
    let mut w = make_world();
    let a = w.spawn(v(0, 0), v(0, 0));
    let b = w.spawn(v(100, 100), v(0, 0));
    assert_eq!(a, 0);
    assert_eq!(b, 1);
    assert_eq!(w.num_agents(), 2);
    assert_eq!(w.agent_at(0).pos, v(0, 0));
    assert_eq!(w.agent_at(1).pos, v(100, 100));
}

#[test]
fn test_despawn_removes_agent() {
    let mut w = make_world();
    let a = w.spawn(v(0, 0), v(0, 0));
    let b = w.spawn(v(100, 100), v(0, 0));
    assert!(w.despawn(a));
    assert_eq!(w.num_agents(), 1);
    assert!(w.find_agent(a).is_none());
    assert!(w.find_agent(b).is_some());
    assert!(!w.despawn(5));
    assert_eq!(w.num_agents(), 1);
}

#[test]
fn test_behavior_avoid_band_feeds_separation_only() {
    // A neighbor five units away sits inside the avoidance band: it adds
    // the raw position difference to the separation sum, and nothing to
    // alignment, cohesion or the neighbor count.
    let mut w = make_world();
    w.spawn(v(0, 0), v(0, 0));
    w.spawn(v(5, 0), v(70, 0));
    w.behavior();
    let a = w.agent_at(0);
    assert_eq!(a.acc.separation, v(-5, 0));
    assert_eq!(a.acc.alignment, v(0, 0));
    assert_eq!(a.acc.cohesion, v(0, 0));
    assert_eq!(a.acc.neighbor_count, 0);
    let b = w.agent_at(1);
    assert_eq!(b.acc.separation, v(5, 0));
    assert_eq!(b.acc.neighbor_count, 0);
}

#[test]
fn test_behavior_align_band_feeds_alignment_and_cohesion() {
    // A neighbor twenty units away sits in the alignment band: it adds its
    // velocity and position, is counted, and adds nothing to separation.
    let mut w = make_world();
    w.spawn(v(0, 0), v(0, 0));
    w.spawn(v(20, 0), v(70, -60));
    w.behavior();
    let a = w.agent_at(0);
    assert_eq!(a.acc.separation, v(0, 0));
    assert_eq!(a.acc.alignment, v(70, -60));
    assert_eq!(a.acc.cohesion, v(20, 0));
    assert_eq!(a.acc.neighbor_count, 1);
}

#[test]
fn test_avoid_boundary_nudges_velocity() {
    let mut w = make_world();
    w.spawn(v(450, 0), v(100, 0));
    w.spawn(v(-450, -405), v(100, 0));
    w.avoid_boundary(400, 400);
    assert_eq!(w.agent_at(0).vel, v(95, 0));
    assert_eq!(w.agent_at(1).vel, v(105, 5));
}

#[test]
fn test_periodic_boundary_wraps_position() {
    let mut w = make_world();
    w.spawn(v(450, 0), v(100, 0));
    w.periodic_boundary(400, 400);
    assert_eq!(w.agent_at(0).pos, v(-400, 0));
}

#[test]
fn test_isolated_agent_drifts_straight() {
    // A lone agent sees no neighbors; once its speed is inside the band it
    // keeps its velocity and moves in a straight line at constant speed.
    let mut w = make_world();
    w.spawn(v(0, 0), v(50, 0));
    for k in 1..=3i64 {
        w.tick(1000, 400, 400);
        assert_eq!(w.agent_at(0).vel, v(50, 0));
        assert_eq!(w.agent_at(0).pos, v(50 * k, 0));
    }
}

#[test]
fn test_isolated_zero_velocity_agent_takes_floor_speed() {
    // A stationary agent is pushed to the speed floor along +x, never NaN
    // or stuck: this is the zero-vector clamp policy seen through a tick.
    let mut w = make_world();
    w.spawn(v(0, 0), v(0, 0));
    w.tick(1000, 400, 400);
    assert_eq!(w.agent_at(0).vel, v(50, 0));
    assert_eq!(w.agent_at(0).pos, v(50, 0));
}

#[test]
fn test_tick_two_agents_exact() {
    // Two agents in the alignment band: each steers toward the other's
    // velocity by a twentieth, and toward its position by a two-hundredth,
    // then integrates over one second.
    let mut w = make_world();
    w.spawn(v(0, 0), v(100, 0));
    w.spawn(v(20, 0), v(200, 0));
    w.tick(1000, 400, 400);
    let a = w.agent_at(0);
    let b = w.agent_at(1);
    // Agent a: 100 + (200 - 100) * 0.05 = 105, cohesion adds 20 * 0.005
    // truncated to zero.
    assert_eq!(a.vel, v(105, 0));
    assert_eq!(a.pos, v(105, 0));
    // Agent b: 200 + (100 - 200) * 0.05 = 195; cohesion (0 - 20) * 0.005
    // truncates to zero.
    assert_eq!(b.vel, v(195, 0));
    assert_eq!(b.pos, v(215, 0));
    // Accumulators are reset at the end of the tick.
    assert_eq!(a.acc.neighbor_count, 0);
    assert_eq!(a.acc.separation, v(0, 0));
}

#[test]
fn test_tick_speed_stays_in_band() {
    let mut w = make_world();
    w.spawn(v(0, 0), v(0, 0));
    w.spawn(v(5, 0), v(3000, 0));
    w.spawn(v(-30, 14), v(-7, 2));
    for _ in 0..5 {
        w.tick(16, 400, 400);
        for i in 0..w.num_agents() {
            let vel = w.agent_at(i).vel;
            let n2 = vel.x * vel.x + vel.y * vel.y;
            assert!(n2 <= 600 * 600 + 2 * 600);
            assert!(n2 >= 50 * 50 - 4 * 50 - 2);
        }
    }
}
