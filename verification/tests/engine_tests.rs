use particles::engine::{
    check_collide_edge, check_particle_collision, collide_particles, resolve_collisions, step,
};
use particles::geom::{Point2D, Vector2D};
use particles::particle::{Particle, ParticleStore};
use particles::SCALE;

fn particle(id: usize, radius: i64, lx: i64, ly: i64, dx: i64, dy: i64) -> Particle {
    Particle {
        id,
        radius,
        location: Point2D { x: lx, y: ly },
        direction: Vector2D { x: dx, y: dy },
    }
}

// Two particles, radii 2 and 3, at (10, 10) and (13, 10): distance 3 is below
// the radius sum 5, so they collide; the dot product of (1, 0) and (-1, 0) is
// -1, the scaled directions are (-1, 0) and (1, 0), both already unit, and
// particle 1 is re-translated to (9, 10).
#[test]
fn collision_scenario_two_particles() {
    let s = SCALE;
    let mut p1 = particle(0, 2 * s, 10 * s, 10 * s, s, 0);
    let mut p2 = particle(1, 3 * s, 13 * s, 10 * s, -s, 0);
    assert!(check_particle_collision(&p1, &p2));
    collide_particles(&mut p1, &mut p2);
    assert_eq!(p1.direction, Vector2D { x: -s, y: 0 });
    assert_eq!(p2.direction, Vector2D { x: s, y: 0 });
    assert_eq!(p1.location, Point2D { x: 9 * s, y: 10 * s });
    assert_eq!(p2.location, Point2D { x: 13 * s, y: 10 * s });
}

// The same pair run through a whole tick: particle 0 first moves to (11, 10),
// still overlapping particle 1 at (13, 10); the response flips both
// directions and pushes particle 0 back to (10, 10); particle 1 then makes
// its own pass and moves to (14, 10).
#[test]
fn step_resolves_collision_in_id_order() {
    let s = SCALE;
    let mut store = ParticleStore::new();
    store.push(particle(0, 2 * s, 10 * s, 10 * s, s, 0));
    store.push(particle(1, 3 * s, 13 * s, 10 * s, -s, 0));
    step(&mut store, 600 * s, 600 * s);
    let p0 = store.get(0);
    let p1 = store.get(1);
    assert_eq!(p0.location, Point2D { x: 10 * s, y: 10 * s });
    assert_eq!(p0.direction, Vector2D { x: -s, y: 0 });
    assert_eq!(p1.location, Point2D { x: 14 * s, y: 10 * s });
    assert_eq!(p1.direction, Vector2D { x: s, y: 0 });
}

// Boundary containment: a particle at (0, 5) moving (-1, 0) inside a
// 300 x 300 arena has its x direction flipped to +1 before translating, and
// ends the tick at (1, 5).
#[test]
fn reflection_keeps_particle_inside() {
    let s = SCALE;
    let mut store = ParticleStore::new();
    store.push(particle(0, 2 * s, 0, 5 * s, -s, 0));
    step(&mut store, 300 * s, 300 * s);
    let p = store.get(0);
    assert_eq!(p.direction, Vector2D { x: s, y: 0 });
    assert_eq!(p.location, Point2D { x: s, y: 5 * s });
}

// Reflection alone never moves the particle and only negates the axis whose
// projected next position leaves the arena.
#[test]
fn reflection_flips_each_axis_independently() {
    let s = SCALE;
    let mut p = particle(0, s, 300 * s, 5 * s, s, 0);
    check_collide_edge(&mut p, 300 * s, 300 * s);
    assert_eq!(p.direction, Vector2D { x: -s, y: 0 });
    assert_eq!(p.location, Point2D { x: 300 * s, y: 5 * s });

    let mut q = particle(0, s, 7 * s, 2 * s, s, -3 * s);
    check_collide_edge(&mut q, 300 * s, 300 * s);
    assert_eq!(q.direction, Vector2D { x: s, y: 3 * s });
}

// A particle count of zero makes the tick a no-op: nothing to traverse,
// nothing to draw, no crash.
#[test]
fn empty_population_is_a_noop() {
    let s = SCALE;
    let mut store = ParticleStore::new();
    step(&mut store, 600 * s, 600 * s);
    assert_eq!(store.len(), 0);
}

// The collision test is strict: two particles whose distance equals the
// radius sum exactly do not collide; one unit closer, they do.
#[test]
fn collision_test_is_strict() {
    let s = SCALE;
    let touching = particle(1, 3 * s, 5 * s, 0, 0, 0);
    let base = particle(0, 2 * s, 0, 0, 0, 0);
    assert!(!check_particle_collision(&base, &touching));
    let overlapping = particle(1, 3 * s, 5 * s - 1, 0, 0, 0);
    assert!(check_particle_collision(&base, &overlapping));
}

// Orthogonal directions have dot product zero; the scaled vectors are zero,
// the degenerate guard fires, and both directions become zero instead of
// anything undefined.
#[test]
fn degenerate_response_zeroes_directions() {
    let s = SCALE;
    let mut p1 = particle(0, 2 * s, 0, 0, s, 0);
    let mut p2 = particle(1, 2 * s, s, 0, 0, s);
    collide_particles(&mut p1, &mut p2);
    assert_eq!(p1.direction, Vector2D { x: 0, y: 0 });
    assert_eq!(p2.direction, Vector2D { x: 0, y: 0 });
    assert_eq!(p1.location, Point2D { x: 0, y: 0 });
}

// Resolving collisions for the lowest id visits higher ids in order and
// leaves the others' positions alone.
#[test]
fn resolve_collisions_only_moves_the_current_particle() {
    let s = SCALE;
    let mut store = ParticleStore::new();
    store.push(particle(0, 2 * s, 10 * s, 10 * s, s, 0));
    store.push(particle(1, 3 * s, 13 * s, 10 * s, -s, 0));
    store.push(particle(2, s, 100 * s, 100 * s, s, s));
    resolve_collisions(&mut store, 0);
    assert_eq!(store.get(1).location, Point2D { x: 13 * s, y: 10 * s });
    assert_eq!(store.get(2).location, Point2D { x: 100 * s, y: 100 * s });
    assert_eq!(store.get(2).direction, Vector2D { x: s, y: s });
    assert_eq!(store.get(0).location, Point2D { x: 9 * s, y: 10 * s });
}
