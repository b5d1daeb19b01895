use particles::engine::step;
use particles::particle::setup;
use particles::SCALE;
use rand::SeedableRng;

// Determinism: a fixed seed and fixed configuration reproduce bit-identical
// trajectories over repeated runs of setup plus several ticks.
#[test]
fn fixed_seed_reproduces_trajectories() {
    let s = SCALE;
    let mut rng1 = rand::rngs::StdRng::seed_from_u64(42);
    let mut rng2 = rand::rngs::StdRng::seed_from_u64(42);
    let mut store1 = setup(50, 600 * s, 600 * s, 2 * s, 7 * s, 2 * s, s, &mut rng1);
    let mut store2 = setup(50, 600 * s, 600 * s, 2 * s, 7 * s, 2 * s, s, &mut rng2);
    for _ in 0..5 {
        step(&mut store1, 600 * s, 600 * s);
        step(&mut store2, 600 * s, 600 * s);
    }
    assert_eq!(store1.len(), 50);
    for i in 0..store1.len() {
        assert_eq!(store1.get(i), store2.get(i));
    }
}

// Setup draws every field from its configured range — here the deliberately
// asymmetric direction distribution, x in [0, 2) units and y in [0, 1) —
// and assigns ids in creation order; the draws are real samples, not echoes
// of the bounds.
#[test]
fn setup_respects_ranges_and_ids() {
    let s = SCALE;
    let mut rng = rand::rngs::StdRng::seed_from_u64(7);
    let store = setup(100, 600 * s, 400 * s, 2 * s, 7 * s, 2 * s, s, &mut rng);
    assert_eq!(store.len(), 100);
    let mut all_radii_equal = true;
    let first_radius = store.get(0).radius;
    for i in 0..store.len() {
        let p = store.get(i);
        assert_eq!(p.id, i);
        assert!(0 <= p.location.x && p.location.x < 600 * s);
        assert!(0 <= p.location.y && p.location.y < 400 * s);
        assert!(0 <= p.direction.x && p.direction.x < 2 * s);
        assert!(0 <= p.direction.y && p.direction.y < s);
        assert!(2 * s <= p.radius && p.radius < 7 * s);
        if p.radius != first_radius {
            all_radii_equal = false;
        }
    }
    assert!(!all_radii_equal);
}

// Every coordinate stays a finite, bounded integer across many ticks, ids
// and radii never change, and directions stay within their bound: the
// integer counterpart of the no-NaN invariant.
#[test]
fn many_ticks_keep_state_well_formed() {
    let s = SCALE;
    let mut rng = rand::rngs::StdRng::seed_from_u64(3);
    let mut store = setup(100, 300 * s, 300 * s, 2 * s, 7 * s, 2 * s, s, &mut rng);
    for _ in 0..10 {
        step(&mut store, 300 * s, 300 * s);
        for i in 0..store.len() {
            let p = store.get(i);
            assert!(p.location.x.abs() <= particles::POS_SAFE);
            assert!(p.location.y.abs() <= particles::POS_SAFE);
            assert!(p.direction.x.abs() <= particles::DIR_MAX);
            assert!(p.direction.y.abs() <= particles::DIR_MAX);
            assert!(p.radius > 0);
            assert_eq!(p.id, i);
        }
    }
}

#[test]
fn setup_with_zero_count_is_empty() {
    let s = SCALE;
    let mut rng = rand::rngs::StdRng::seed_from_u64(1);
    let store = setup(0, 600 * s, 600 * s, 2 * s, 7 * s, 2 * s, s, &mut rng);
    assert_eq!(store.len(), 0);
}
