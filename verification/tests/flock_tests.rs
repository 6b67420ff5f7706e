use sketches::flock::{build_index, spawn_flock, step, Boid, FlockConfig};
use sketches::geom::Vec2;

fn v(x: i64, y: i64) -> Vec2 {
    Vec2 { x, y }
}

fn boid(id: usize, pos: Vec2, vel: Vec2) -> Boid {
    Boid {
        id,
        position: pos,
        velocity: vel,
        acceleration: v(0, 0),
        r: 2,
        highlight: false,
    }
}

fn cfg_all(radius: i64, strength: i64, max_speed: i64, max_force: i64) -> FlockConfig {
    FlockConfig {
        sep_radius: radius,
        ali_radius: radius,
        coh_radius: radius,
        sep_strength: strength,
        ali_strength: strength,
        coh_strength: strength,
        max_speed,
        max_force,
    }
}

#[test]
fn magnitude_ops() {
    assert_eq!(v(0, 0).with_magnitude(10), v(0, 0));
    assert_eq!(v(3, 4).with_magnitude(10), v(6, 8));
    assert_eq!(v(-3, 4).with_magnitude(10), v(-6, 8));
    assert_eq!(v(30, 40).limit_magnitude(5), v(3, 4));
    assert_eq!(v(3, 4).limit_magnitude(100), v(3, 4));
}

#[test]
fn integer_helpers() {
    assert_eq!(sketches::num::isqrt(0), 0);
    assert_eq!(sketches::num::isqrt(1), 1);
    assert_eq!(sketches::num::isqrt(3), 1);
    assert_eq!(sketches::num::isqrt(4), 2);
    assert_eq!(sketches::num::isqrt(15), 3);
    assert_eq!(sketches::num::isqrt(16), 4);
    assert_eq!(
        sketches::num::isqrt(1_000_000_000_000_000_000),
        1_000_000_000
    );
    assert_eq!(sketches::num::mid64(0, 3), 1);
    assert_eq!(sketches::num::mid64(-3, 2), -1);
    assert_eq!(sketches::num::mid64(-4, -2), -3);
    assert_eq!(sketches::num::div_trunc(7, 2), 3);
    assert_eq!(sketches::num::div_trunc(-7, 2), -3);
}

#[test]
fn seek_exact() {
    let me = boid(0, v(0, 0), v(0, 0));
    // desired (3,4) re-targeted to speed 10 is (6,8); nothing to subtract,
    // and (6,8) is within force 100
    assert_eq!(me.seek(v(3, 4), 10, 100), v(6, 8));
    // with a tight force cap the steering is clamped: (6,8) at cap 5 is (3,4)
    assert_eq!(me.seek(v(3, 4), 10, 5), v(3, 4));
}

#[test]
fn separation_exact() {
    let me = boid(0, v(0, 0), v(0, 0));
    let flock = vec![me, boid(1, v(3, 4), v(0, 0))];
    // one neighbor at (3,4): the away-offset (-3,-4) re-targeted to the
    // inverse-radius weight, then steered at speed 10 under force 100
    assert_eq!(me.separate(&flock, 10, 10, 100), v(-6, -8));
}

#[test]
fn alignment_exact() {
    let me = boid(0, v(0, 0), v(0, 0));
    let flock = vec![me, boid(1, v(3, 4), v(10, 0))];
    // average neighbor velocity (10,0) re-targeted to speed 10 is (10,0)
    assert_eq!(me.align(&flock, 10, 100), v(10, 0));
    // the agent's own velocity is subtracted
    let me2 = boid(0, v(0, 0), v(4, 0));
    let flock2 = vec![me2, boid(1, v(3, 4), v(10, 0))];
    assert_eq!(me2.align(&flock2, 10, 100), v(6, 0));
}

#[test]
fn cohesion_exact() {
    let me = boid(0, v(0, 0), v(0, 0));
    let flock = vec![me, boid(1, v(3, 4), v(0, 0))];
    // average neighbor position (3,4) sought at speed 10 under force 100
    assert_eq!(me.cohesion(&flock, 10, 100), v(6, 8));
}

#[test]
fn rules_ignore_self_only_flocks() {
    let me = boid(0, v(0, 0), v(5, 5));
    let flock = vec![me];
    assert_eq!(me.separate(&flock, 10, 10, 100), v(0, 0));
    assert_eq!(me.align(&flock, 10, 100), v(0, 0));
    assert_eq!(me.cohesion(&flock, 10, 100), v(0, 0));
}

#[test]
fn update_clamps_speed() {
    let mut b = boid(0, v(0, 0), v(30, 40));
    b.update(5);
    assert_eq!(b.velocity, v(3, 4));
    assert_eq!(b.position, v(3, 4));
    assert_eq!(b.acceleration, v(0, 0));
}

#[test]
fn update_applies_acceleration() {
    let mut b = boid(0, v(10, 20), v(1, 1));
    b.acceleration = v(2, -1);
    b.update(100);
    assert_eq!(b.velocity, v(3, 0));
    assert_eq!(b.position, v(13, 20));
    assert_eq!(b.acceleration, v(0, 0));
}

#[test]
fn boundary_wrap_left() {
    let bl = v(-100, -100);
    let tr = v(100, 100);
    // one unit beyond the left edge plus the radius lands on the right
    // edge plus the radius; the other axis is untouched
    let mut b = boid(0, v(-103, 7), v(0, 0));
    b.borders(bl, tr);
    assert_eq!(b.position, v(102, 7));
}

#[test]
fn boundary_wrap_bottom() {
    let bl = v(-100, -100);
    let tr = v(100, 100);
    let mut b = boid(0, v(7, -103), v(0, 0));
    b.borders(bl, tr);
    assert_eq!(b.position, v(7, 102));
}

#[test]
fn boundary_wrap_right() {
    let bl = v(-100, -100);
    let tr = v(100, 100);
    let mut b = boid(0, v(103, -7), v(0, 0));
    b.borders(bl, tr);
    assert_eq!(b.position, v(-102, -7));
}

#[test]
fn boundary_wrap_top() {
    let bl = v(-100, -100);
    let tr = v(100, 100);
    let mut b = boid(0, v(-7, 103), v(0, 0));
    b.borders(bl, tr);
    assert_eq!(b.position, v(-7, -102));
}

#[test]
fn boundary_wrap_inside_untouched() {
    let bl = v(-100, -100);
    let tr = v(100, 100);
    let mut b = boid(0, v(-102, 99), v(0, 0));
    b.borders(bl, tr);
    assert_eq!(b.position, v(-102, 99));
}

#[test]
fn zero_neighbor_tick_keeps_momentum() {
    let bl = v(-100, -100);
    let tr = v(100, 100);
    let mut boids = vec![boid(0, v(0, 0), v(3, 4)), boid(1, v(80, 80), v(0, 0))];
    let cfg = cfg_all(10, 1000, 100, 5);
    step(&mut boids, bl, tr, &cfg);
    // nobody within radius 10: positions advance by existing momentum only
    assert_eq!(boids[0].position, v(3, 4));
    assert_eq!(boids[0].velocity, v(3, 4));
    assert_eq!(boids[0].acceleration, v(0, 0));
    assert_eq!(boids[1].position, v(80, 80));
    assert_eq!(boids[1].velocity, v(0, 0));
}

#[test]
fn step_cohesion_pulls_pair_together() {
    let bl = v(-100, -100);
    let tr = v(100, 100);
    let mut boids = vec![boid(0, v(0, 0), v(0, 0)), boid(1, v(10, 0), v(0, 0))];
    let cfg = FlockConfig {
        sep_radius: -1,
        ali_radius: -1,
        coh_radius: 20,
        sep_strength: 1000,
        ali_strength: 1000,
        coh_strength: 1000,
        max_speed: 10,
        max_force: 1,
    };
    step(&mut boids, bl, tr, &cfg);
    // each agent seeks the other at force 1: one step toward each other
    assert_eq!(boids[0].position, v(1, 0));
    assert_eq!(boids[0].velocity, v(1, 0));
    assert_eq!(boids[1].position, v(9, 0));
    assert_eq!(boids[1].velocity, v(-1, 0));
}

#[test]
fn step_preserves_count_and_ids() {
    let bl = v(-100, -100);
    let tr = v(100, 100);
    let mut boids = spawn_flock(40, bl, tr);
    let cfg = cfg_all(25, 1500, 25, 5);
    for _ in 0..3 {
        step(&mut boids, bl, tr, &cfg);
    }
    assert_eq!(boids.len(), 40);
    for (i, b) in boids.iter().enumerate() {
        assert_eq!(b.id, i);
    }
}

#[test]
fn build_index_holds_whole_flock() {
    let bl = v(-100, -100);
    let tr = v(100, 100);
    let boids = spawn_flock(100, bl, tr);
    let t = build_index(&boids, bl, tr);
    // a circle covering the whole box returns every agent exactly once
    let all = t.points_in_circle(bl, tr, v(0, 0), 300);
    assert_eq!(all.len(), 100);
    let mut ids: Vec<usize> = all.iter().map(|b| b.id).collect();
    ids.sort();
    for (i, id) in ids.iter().enumerate() {
        assert_eq!(*id, i);
    }
}

#[test]
fn spawn_places_agents_in_bounds() {
    let bl = v(-50, -20);
    let tr = v(70, 40);
    let boids = spawn_flock(64, bl, tr);
    assert_eq!(boids.len(), 64);
    for (i, b) in boids.iter().enumerate() {
        assert_eq!(b.id, i);
        assert!(bl.x <= b.position.x && b.position.x <= tr.x);
        assert!(bl.y <= b.position.y && b.position.y <= tr.y);
        assert_eq!(b.velocity, v(0, 0));
        assert_eq!(b.acceleration, v(0, 0));
        assert_eq!(b.highlight, i == 0);
    }
}
