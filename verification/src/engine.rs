//! The motion-and-collision engine: the per-tick state transition.
//!
//! A tick visits every particle in id order and, for each one, reflects its
//! direction at the arena edges, translates it, and resolves collisions
//! against every particle of higher id. The whole tick is modelled by the
//! spec function [`spec_step`]; [`step`] is the executable engine and is
//! proved to compute exactly that function.

use vstd::prelude::*;
use crate::geom::{
    add_v, dist2, distance_sq, dot_v, in_range, len2_v, norm_v, scale_v, V2,
};
use crate::math::{isqrt_spec, lemma_isqrt_bounds, lemma_tdiv_le};
use crate::particle::{
    particle_wf, positions_within, store_wf, Particle, ParticleModel, ParticleStore,
};
use crate::{COUNT_LIMIT, DIR_MAX, POS_LIMIT, POS_SAFE, RADIUS_MAX, SCALE};

verus! {

/// Boundary reflection, one tick ahead: if the position the particle would
/// move to leaves `[0, w]` on the x axis, the x component of the direction
/// is negated, and independently for y. The position does not change here.
pub open spec fn reflect_m(p: ParticleModel, w: int, h: int) -> ParticleModel {
    let nx = p.location.x + p.direction.x;
    let ny = p.location.y + p.direction.y;
    ParticleModel {
        id: p.id,
        radius: p.radius,
        location: p.location,
        direction: V2 {
            x: if nx > w || nx < 0 { -p.direction.x } else { p.direction.x },
            y: if ny > h || ny < 0 { -p.direction.y } else { p.direction.y },
        },
    }
}

/// Translation: the location moves by the direction, unconditionally.
pub open spec fn translate_m(p: ParticleModel) -> ParticleModel {
    ParticleModel {
        id: p.id,
        radius: p.radius,
        location: add_v(p.location, p.direction),
        direction: p.direction,
    }
}

/// The per-particle motion of one tick: reflect, then translate.
pub open spec fn tick_m(p: ParticleModel, w: int, h: int) -> ParticleModel {
    translate_m(reflect_m(p, w, h))
}

/// Two particles collide when the Euclidean distance between their locations
/// is strictly below the sum of their radii; in squares, since both sides
/// are non-negative.
pub open spec fn collides_m(p: ParticleModel, q: ParticleModel) -> bool {
    dist2(p.location, q.location) < (p.radius + q.radius) * (p.radius + q.radius)
}

/// Collision response for the lower-id particle `p`: its direction is scaled
/// by the dot product of the two raw directions and normalized, and `p` is
/// re-translated by the new direction to push it out of the overlap.
pub open spec fn response_first(p: ParticleModel, q: ParticleModel) -> ParticleModel {
    let d = dot_v(p.direction, q.direction);
    let nd = norm_v(scale_v(p.direction, d));
    ParticleModel { id: p.id, radius: p.radius, location: add_v(p.location, nd), direction: nd }
}

/// Collision response for the higher-id particle `q`: the same rescaled,
/// normalized direction, but its position is left for its own pass.
pub open spec fn response_second(p: ParticleModel, q: ParticleModel) -> ParticleModel {
    let d = dot_v(p.direction, q.direction);
    let nd = norm_v(scale_v(q.direction, d));
    ParticleModel { id: q.id, radius: q.radius, location: q.location, direction: nd }
}

/// Collision resolution for particle `i` against all particles from `j`
/// upward, in index order; each overlapping pair gets the response above.
pub open spec fn inner_m(s: Seq<ParticleModel>, i: int, j: int) -> Seq<ParticleModel>
    decreases s.len() - j,
{
    if i < 0 || s.len() <= i || j < 0 || s.len() <= j {
        s
    } else {
        let s2 = if collides_m(s[i], s[j]) {
            s.update(i, response_first(s[i], s[j])).update(j, response_second(s[i], s[j]))
        } else {
            s
        };
        inner_m(s2, i, j + 1)
    }
}

/// Collision resolution never changes the number of particles.
pub proof fn lemma_inner_len(s: Seq<ParticleModel>, i: int, j: int)
    ensures
        inner_m(s, i, j).len() == s.len(),
    decreases s.len() - j,
{
    if 0 <= i < s.len() && 0 <= j < s.len() {
        let s2 = if collides_m(s[i], s[j]) {
            s.update(i, response_first(s[i], s[j])).update(j, response_second(s[i], s[j]))
        } else {
            s
        };
        lemma_inner_len(s2, i, j + 1);
    }
}

/// One tick from particle `i` on: reflect and translate particle `i`,
/// resolve its collisions against higher indices, then continue with `i + 1`.
pub open spec fn outer_m(s: Seq<ParticleModel>, i: int, w: int, h: int) -> Seq<ParticleModel>
    decreases s.len() - i,
    via outer_m_decreases
{
    if i < 0 || s.len() <= i {
        s
    } else {
        let moved = s.update(i, tick_m(s[i], w, h));
        outer_m(inner_m(moved, i, i + 1), i + 1, w, h)
    }
}

#[via_fn]
proof fn outer_m_decreases(s: Seq<ParticleModel>, i: int, w: int, h: int) {
    if 0 <= i < s.len() {
        lemma_inner_len(s.update(i, tick_m(s[i], w, h)), i, i + 1);
    }
}

/// One full tick over the whole store, in ascending id order.
pub open spec fn spec_step(s: Seq<ParticleModel>, w: int, h: int) -> Seq<ParticleModel> {
    outer_m(s, 0, w, h)
}

/// An empty population makes the tick a no-op.
pub proof fn lemma_step_empty(s: Seq<ParticleModel>, w: int, h: int)
    requires
        s.len() == 0,
    ensures
        spec_step(s, w, h) == s,
{
}

/// Boundary reflection, one tick ahead (the executable form of
/// [`reflect_m`]): the direction is negated on each axis whose projected
/// next position leaves the arena; the position is untouched.
pub fn check_collide_edge(p: &mut Particle, width: i64, height: i64)
    requires
        in_range(old(p)@.location, POS_SAFE as int),
        in_range(old(p)@.direction, DIR_MAX as int),
    ensures
        final(p)@ == reflect_m(old(p)@, width as int, height as int),
{
    let next_x: i64 = p.location.x + p.direction.x;
    let next_y: i64 = p.location.y + p.direction.y;
    if next_x > width || next_x < 0 {
        p.direction.x = crate::invert(p.direction.x);
    }
    if next_y > height || next_y < 0 {
        p.direction.y = crate::invert(p.direction.y);
    }
}

/// Translation (the executable form of [`translate_m`]): the location moves
/// by the direction. This is the single point where a position changes.
pub fn move_point(p: &mut Particle)
    requires
        in_range(old(p)@.location, POS_SAFE as int),
        in_range(old(p)@.direction, DIR_MAX as int),
    ensures
        final(p)@ == translate_m(old(p)@),
{
    p.location.x = p.location.x + p.direction.x;
    p.location.y = p.location.y + p.direction.y;
}

/// Collision test (the executable form of [`collides_m`]): true exactly when
/// the Euclidean distance between the two locations, equivalently the
/// integer square root of its square, is strictly below the radius sum.
pub fn check_particle_collision(p1: &Particle, p2: &Particle) -> (r: bool)
    requires
        in_range(p1@.location, POS_SAFE as int),
        in_range(p2@.location, POS_SAFE as int),
        0 < p1@.radius <= RADIUS_MAX as int,
        0 < p2@.radius <= RADIUS_MAX as int,
    ensures
        r == collides_m(p1@, p2@),
        r == (isqrt_spec(dist2(p1@.location, p2@.location) as nat) < p1@.radius + p2@.radius),
{
    let d2 = distance_sq(&p1.location, &p2.location);
    let rsum: i64 = p1.radius + p2.radius;
    proof {
        assert(0 < rsum * rsum <= 0x4_0000_0000_0000int) by (nonlinear_arith)
            requires
                0 < rsum <= 2 * (RADIUS_MAX as int),
        ;
        lemma_isqrt_bounds(d2 as nat);
        let s = isqrt_spec(d2 as nat) as int;
        assert((d2 < rsum * rsum) == (s < rsum)) by (nonlinear_arith)
            requires
                s >= 0,
                s * s <= d2,
                d2 < (s + 1) * (s + 1),
                rsum >= 1,
        ;
    }
    d2 < rsum * rsum
}

/// Collision response (the executable form of [`response_first`] and
/// [`response_second`]): both directions are scaled by the dot product of
/// the raw directions and normalized; the lower-id particle `p1` is then
/// re-translated by its new direction, while `p2`'s position is left for its
/// own pass. The zero-length guard inside normalization keeps every value
/// finite; the directions that come out are within [`DIR_MAX`].
pub fn collide_particles(p1: &mut Particle, p2: &mut Particle)
    requires
        in_range(old(p1)@.direction, DIR_MAX as int),
        in_range(old(p2)@.direction, DIR_MAX as int),
        in_range(old(p1)@.location, POS_SAFE as int),
    ensures
        final(p1)@ == response_first(old(p1)@, old(p2)@),
        final(p2)@ == response_second(old(p1)@, old(p2)@),
        in_range(final(p1)@.direction, DIR_MAX as int),
        in_range(final(p2)@.direction, DIR_MAX as int),
        final(p1)@.location == add_v(old(p1)@.location, final(p1)@.direction),
{
    let dotv: i64 = p1.direction.dot(&p2.direction);
    proof {
        let a = old(p1)@.direction;
        let b = old(p2)@.direction;
        assert(-(SCALE as int) * (8 * SCALE as int) <= a.x * b.x + a.y * b.y <= (SCALE as int) * (
        8 * SCALE as int)) by (nonlinear_arith)
            requires
                in_range(a, DIR_MAX as int),
                in_range(b, DIR_MAX as int),
                DIR_MAX == 2 * SCALE,
                SCALE == 1024,
        ;
        lemma_tdiv_le(a.x * b.x + a.y * b.y, SCALE as int, 8 * SCALE as int);
    }
    let v1 = p1.direction.scale(dotv);
    let v2 = p2.direction.scale(dotv);
    proof {
        lemma_scaled_bounds(old(p1)@.direction, dotv as int);
        lemma_scaled_bounds(old(p2)@.direction, dotv as int);
    }
    let n1 = v1.normalize();
    let n2 = v2.normalize();
    proof {
        lemma_normalized_in_dir_range(v1@);
        lemma_normalized_in_dir_range(v2@);
    }
    p1.direction = n1;
    p2.direction = n2;
    move_point(p1);
}

/// Resolve the collisions of particle `i` against every particle of higher
/// id, in id order, exactly as [`inner_m`] states: each overlapping pair
/// gets the dot-product response, and only particle `i`'s position moves.
pub fn resolve_collisions(store: &mut ParticleStore, i: usize)
    requires
        old(store).wf(),
        i < old(store)@.len(),
        old(store)@.len() <= COUNT_LIMIT,
        positions_within(old(store)@, POS_SAFE as int),
        in_range(old(store)@[i as int].location, POS_LIMIT as int + DIR_MAX as int),
    ensures
        final(store)@ == inner_m(old(store)@, i as int, i as int + 1),
        final(store).wf(),
        final(store)@.len() == old(store)@.len(),
        forall|k: int|
            0 <= k < old(store)@.len() && k != i as int ==> final(store)@[k].location == old(
                store,
            )@[k].location,
        in_range(final(store)@[i as int].location, POS_SAFE as int),
{
    let ghost s0 = store@;
    let n = store.len();
    let mut j: usize = i + 1;
    while j < n
        invariant
            store@.len() == n,
            s0.len() == n,
            n <= COUNT_LIMIT,
            i < n,
            i + 1 <= j <= n,
            store_wf(store@),
            positions_within(s0, POS_SAFE as int),
            inner_m(store@, i as int, j as int) == inner_m(s0, i as int, i as int + 1),
            forall|k: int| 0 <= k < n && k != i as int ==> store@[k].location == s0[k].location,
            in_range(store@[i as int].location, POS_LIMIT as int + (j - i) * 2048),
        decreases n - j,
    {
        proof {
            assert(DIR_MAX == 2048 && POS_LIMIT == 268435456 && POS_SAFE == 536870912
                && COUNT_LIMIT == 131072);
            assert(particle_wf(store@[i as int], i as int));
            assert(particle_wf(store@[j as int], j as int));
            assert(in_range(store@[i as int].location, POS_SAFE as int));
            assert(store@[j as int].location == s0[j as int].location);
            assert(in_range(s0[j as int].location, POS_SAFE as int));
        }
        let ghost prev = store@;
        let p = store.get(i);
        let q = store.get(j);
        if check_particle_collision(&p, &q) {
            let mut a = p;
            let mut b = q;
            collide_particles(&mut a, &mut b);
            store.set(i, a);
            store.set(j, b);
            proof {
                assert(store@ == prev.update(i as int, response_first(prev[i as int], prev[
                j as int])).update(j as int, response_second(prev[i as int], prev[j as int])));
                assert(inner_m(prev, i as int, j as int) == inner_m(store@, i as int, j as int
                    + 1));
                assert forall|k: int| 0 <= k < n implies particle_wf(#[trigger] store@[k], k) by {
                    assert(particle_wf(prev[k], k));
                }
                assert(in_range(store@[i as int].location, POS_LIMIT as int + (j + 1 - i) * 2048));
            }
        } else {
            proof {
                assert(inner_m(prev, i as int, j as int) == inner_m(store@, i as int, j as int
                    + 1));
            }
        }
        j = j + 1;
    }
}

/// Advance the simulation by exactly one tick: for every particle in id
/// order, reflect at the arena edges, translate, and resolve collisions
/// against all higher ids. The result is exactly [`spec_step`] of the old
/// state, so trajectories are a function of the starting state and the arena
/// alone; well-formedness is preserved and every coordinate stays within
/// [`POS_SAFE`], so the tick is total and panic-free.
pub fn step(store: &mut ParticleStore, width: i64, height: i64)
    requires
        old(store).wf(),
        positions_within(old(store)@, POS_LIMIT as int),
        old(store)@.len() <= COUNT_LIMIT,
    ensures
        final(store)@ == spec_step(old(store)@, width as int, height as int),
        final(store).wf(),
        final(store)@.len() == old(store)@.len(),
        positions_within(final(store)@, POS_SAFE as int),
{
    let ghost s0 = store@;
    let ghost w = width as int;
    let ghost h = height as int;
    let n = store.len();
    let mut i: usize = 0;
    while i < n
        invariant
            store@.len() == n,
            s0.len() == n,
            n <= COUNT_LIMIT,
            i <= n,
            store_wf(store@),
            positions_within(s0, POS_LIMIT as int),
            w == width as int && h == height as int,
            outer_m(store@, i as int, w, h) == outer_m(s0, 0, w, h),
            forall|k: int| i <= k < n ==> store@[k].location == s0[k].location,
            forall|k: int| 0 <= k < n ==> in_range(#[trigger] store@[k].location, POS_SAFE as int),
        decreases n - i,
    {
        proof {
            assert(DIR_MAX == 2048 && POS_LIMIT == 268435456 && POS_SAFE == 536870912);
            assert(particle_wf(store@[i as int], i as int));
            assert(store@[i as int].location == s0[i as int].location);
            assert(in_range(s0[i as int].location, POS_LIMIT as int));
        }
        let ghost prev = store@;
        let mut p = store.get(i);
        check_collide_edge(&mut p, width, height);
        move_point(&mut p);
        store.set(i, p);
        proof {
            assert(p@ == tick_m(prev[i as int], w, h));
            assert(store@ == prev.update(i as int, tick_m(prev[i as int], w, h)));
            assert forall|k: int| 0 <= k < n implies particle_wf(#[trigger] store@[k], k) by {
                assert(particle_wf(prev[k], k));
            }
            assert(in_range(store@[i as int].location, POS_LIMIT as int + DIR_MAX as int));
            assert forall|k: int| 0 <= k < n implies in_range(
                #[trigger] store@[k].location,
                POS_SAFE as int,
            ) by {
                if k != i as int {
                    assert(in_range(prev[k].location, POS_SAFE as int));
                }
            }
        }
        let ghost moved = store@;
        resolve_collisions(store, i);
        proof {
            assert(store@ == inner_m(moved, i as int, i as int + 1));
            assert(outer_m(prev, i as int, w, h) == outer_m(store@, i as int + 1, w, h));
            assert forall|k: int| i as int + 1 <= k < n implies store@[k].location == s0[
                k
            ].location by {
                assert(store@[k].location == moved[k].location);
                assert(moved[k].location == prev[k].location);
            }
        }
        i = i + 1;
    }
}

/// A direction scaled by a bounded dot product stays small enough for
/// normalization.
proof fn lemma_scaled_bounds(v: V2, k: int)
    requires
        in_range(v, DIR_MAX as int),
        -(8 * SCALE as int) <= k <= 8 * SCALE as int,
    ensures
        in_range(scale_v(v, k), 16 * SCALE as int),
{
    assert(-(SCALE as int) * (16 * SCALE as int) <= v.x * k <= (SCALE as int) * (16 * SCALE as int)
        && -(SCALE as int) * (16 * SCALE as int) <= v.y * k <= (SCALE as int) * (16
        * SCALE as int)) by (nonlinear_arith)
        requires
            in_range(v, DIR_MAX as int),
            -(8 * SCALE as int) <= k <= 8 * SCALE as int,
            DIR_MAX == 2 * SCALE,
            SCALE == 1024,
    ;
    lemma_tdiv_le(v.x * k, SCALE as int, 16 * SCALE as int);
    lemma_tdiv_le(v.y * k, SCALE as int, 16 * SCALE as int);
}

/// Whatever normalization returns is a legal direction: at most `SCALE` per
/// component when the guard did not fire, and the zero vector when it did.
proof fn lemma_normalized_in_dir_range(v: V2)
    requires
        in_range(v, 16 * SCALE as int),
    ensures
        in_range(norm_v(v), DIR_MAX as int),
{
    if len2_v(v) == 0 {
        assert(v.x == 0 && v.y == 0) by (nonlinear_arith)
            requires
                v.x * v.x + v.y * v.y == 0,
        ;
    } else {
        assert(1 <= len2_v(v)) by (nonlinear_arith)
            requires
                len2_v(v) == v.x * v.x + v.y * v.y,
                len2_v(v) != 0,
        ;
        let m = len2_v(v) * SCALE * SCALE;
        lemma_isqrt_bounds(m as nat);
        let l = isqrt_spec(m as nat) as int;
        assert(l >= 1) by (nonlinear_arith)
            requires
                m >= (SCALE as int) * (SCALE as int),
                SCALE == 1024,
                l >= 0,
                m < (l + 1) * (l + 1),
        ;
        assert(-l <= v.x * SCALE <= l && -l <= v.y * SCALE <= l) by (nonlinear_arith)
            requires
                (v.x * v.x + v.y * v.y) * ((SCALE as int) * (SCALE as int)) == m,
                m < (l + 1) * (l + 1),
                l >= 1,
                SCALE == 1024,
        ;
        assert(-(l * (SCALE as int)) <= v.x * SCALE * SCALE <= l * (SCALE as int) && -(l * (
        SCALE as int)) <= v.y * SCALE * SCALE <= l * (SCALE as int)) by (nonlinear_arith)
            requires
                -l <= v.x * SCALE <= l,
                -l <= v.y * SCALE <= l,
                l >= 1,
                SCALE == 1024,
        ;
        lemma_tdiv_le(v.x * SCALE * SCALE, l, SCALE as int);
        lemma_tdiv_le(v.y * SCALE * SCALE, l, SCALE as int);
    }
}

} // verus!
