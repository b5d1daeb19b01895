//! Laws of the engine, stated and proved against the tick model: determinism
//! of trajectories, boundary containment of the per-particle motion, pair
//! uniqueness of the collision scan, and near-unit length of a
//! non-degenerate collision response.

use vstd::prelude::*;
use crate::engine::{inner_m, outer_m, spec_step, tick_m};
use crate::geom::{in_range, len2_v, norm_v, V2};
use crate::math::{isqrt_spec, lemma_isqrt_bounds, lemma_tdiv_mul_range, tdiv};
use crate::particle::ParticleModel;
use crate::{DIR_MAX, SCALE};

verus! {

/// The population after `k` ticks.
pub open spec fn run_m(s: Seq<ParticleModel>, w: int, h: int, k: nat) -> Seq<ParticleModel>
    decreases k,
{
    if k == 0 {
        s
    } else {
        run_m(spec_step(s, w, h), w, h, (k - 1) as nat)
    }
}

/// Determinism: the whole trajectory is a function of the initial population
/// and the arena alone. Two runs from equal setups agree after any number of
/// ticks; [`crate::engine::step`] pins each tick to exactly [`spec_step`],
/// so repeated executable runs reproduce the same trajectory.
pub proof fn lemma_run_deterministic(
    s1: Seq<ParticleModel>,
    s2: Seq<ParticleModel>,
    w1: int,
    h1: int,
    w2: int,
    h2: int,
    k: nat,
)
    requires
        s1 == s2,
        w1 == w2,
        h1 == h2,
    ensures
        run_m(s1, w1, h1, k) == run_m(s2, w2, h2, k),
{
}

/// Boundary containment: a particle inside the arena, with its direction
/// within [`DIR_MAX`], is still inside the arena after one
/// reflect-and-translate, provided each arena side is at least two direction
/// bounds long: reflection flips the direction on an axis before the
/// particle would leave on that axis, never after.
pub proof fn lemma_tick_contains(p: ParticleModel, w: int, h: int)
    requires
        0 <= p.location.x <= w,
        0 <= p.location.y <= h,
        in_range(p.direction, DIR_MAX as int),
        2 * (DIR_MAX as int) <= w,
        2 * (DIR_MAX as int) <= h,
    ensures
        0 <= tick_m(p, w, h).location.x <= w,
        0 <= tick_m(p, w, h).location.y <= h,
{
}

/// The same containment through the whole tick, for a population of one
/// particle (which can collide with nothing): a full [`spec_step`] keeps it
/// inside the arena.
pub proof fn lemma_step_single_contains(s: Seq<ParticleModel>, w: int, h: int)
    requires
        s.len() == 1,
        0 <= s[0].location.x <= w,
        0 <= s[0].location.y <= h,
        in_range(s[0].direction, DIR_MAX as int),
        2 * (DIR_MAX as int) <= w,
        2 * (DIR_MAX as int) <= h,
    ensures
        spec_step(s, w, h).len() == 1,
        0 <= spec_step(s, w, h)[0].location.x <= w,
        0 <= spec_step(s, w, h)[0].location.y <= h,
{
    let moved = s.update(0, tick_m(s[0], w, h));
    assert(inner_m(moved, 0, 1) == moved);
    assert(outer_m(moved, 1, w, h) == moved);
    assert(spec_step(s, w, h) == moved);
    lemma_tick_contains(s[0], w, h);
}

/// The collision checks one tick makes for particle `i`, from candidate `j`
/// upward: one check per index.
pub open spec fn row_pairs(i: int, j: int, n: int) -> Seq<(int, int)>
    decreases n - j,
{
    if j < 0 || n <= j {
        Seq::empty()
    } else {
        seq![(i, j)] + row_pairs(i, j + 1, n)
    }
}

/// All collision checks of one tick over `n` particles, from particle `i`
/// on: each particle is checked against exactly the higher indices, in
/// ascending order, mirroring the recursion of [`crate::engine::outer_m`]
/// and [`crate::engine::inner_m`], which evaluate one collision test per
/// element of this enumeration.
pub open spec fn tick_pairs_from(i: int, n: int) -> Seq<(int, int)>
    decreases n - i,
{
    if i < 0 || n <= i {
        Seq::empty()
    } else {
        row_pairs(i, i + 1, n) + tick_pairs_from(i + 1, n)
    }
}

/// All collision checks of one full tick over `n` particles.
pub open spec fn tick_pairs(n: int) -> Seq<(int, int)> {
    tick_pairs_from(0, n)
}

/// How often the pair `(p, q)` occurs in an enumeration of checks.
pub open spec fn pair_count(s: Seq<(int, int)>, p: int, q: int) -> int
    decreases s.len(),
{
    if s.len() == 0 {
        0
    } else {
        (if s[0].0 == p && s[0].1 == q {
            1int
        } else {
            0int
        }) + pair_count(s.drop_first(), p, q)
    }
}

proof fn lemma_pair_count_concat(a: Seq<(int, int)>, b: Seq<(int, int)>, p: int, q: int)
    ensures
        pair_count(a + b, p, q) == pair_count(a, p, q) + pair_count(b, p, q),
    decreases a.len(),
{
    if a.len() == 0 {
        assert(a + b =~= b);
    } else {
        assert((a + b).drop_first() =~= a.drop_first() + b);
        assert((a + b)[0] == a[0]);
        lemma_pair_count_concat(a.drop_first(), b, p, q);
    }
}

proof fn lemma_row_pairs_count(i: int, j: int, n: int, p: int, q: int)
    requires
        0 <= j,
    ensures
        pair_count(row_pairs(i, j, n), p, q) == if p == i && j <= q < n {
            1int
        } else {
            0int
        },
    decreases n - j,
{
    if j < 0 || n <= j {
        assert(pair_count(Seq::<(int, int)>::empty(), p, q) == 0);
    } else {
        let one = seq![(i, j)];
        assert(row_pairs(i, j, n) == one + row_pairs(i, j + 1, n));
        lemma_pair_count_concat(one, row_pairs(i, j + 1, n), p, q);
        assert(one.drop_first() =~= Seq::<(int, int)>::empty());
        assert(pair_count(Seq::<(int, int)>::empty(), p, q) == 0);
        assert(one[0].0 == i && one[0].1 == j);
        assert(pair_count(one, p, q) == if p == i && q == j {
            1int
        } else {
            0int
        });
        lemma_row_pairs_count(i, j + 1, n, p, q);
    }
}

proof fn lemma_tick_pairs_from_count(i: int, n: int, p: int, q: int)
    requires
        0 <= i,
    ensures
        pair_count(tick_pairs_from(i, n), p, q) == if i <= p && p < q < n {
            1int
        } else {
            0int
        },
    decreases n - i,
{
    if i < 0 || n <= i {
        assert(pair_count(Seq::<(int, int)>::empty(), p, q) == 0);
    } else {
        assert(tick_pairs_from(i, n) == row_pairs(i, i + 1, n) + tick_pairs_from(i + 1, n));
        lemma_pair_count_concat(row_pairs(i, i + 1, n), tick_pairs_from(i + 1, n), p, q);
        lemma_row_pairs_count(i, i + 1, n, p, q);
        lemma_tick_pairs_from_count(i + 1, n, p, q);
    }
}

/// Pair uniqueness: within one tick over `n` particles, every pair `(p, q)`
/// with `p.id < q.id` is checked for collision exactly once — from the
/// lower id's perspective — and no other pair is checked at all.
pub proof fn lemma_pair_uniqueness(n: int, p: int, q: int)
    ensures
        pair_count(tick_pairs(n), p, q) == if 0 <= p < q < n {
            1int
        } else {
            0int
        },
{
    lemma_tick_pairs_from_count(0, n, p, q);
}

/// Normalization: after every non-degenerate collision response — whenever
/// the vector handed to normalization is non-zero, however short — the
/// resulting direction has unit length up to fixed-point rounding: its
/// squared length lies within `[SCALE^2 - 4 * SCALE, (SCALE + 1)^2]`. The
/// only exception is the degenerate guard, which leaves the zero vector
/// unchanged.
pub proof fn lemma_normalize_near_unit(v: V2)
    requires
        in_range(v, 16 * (SCALE as int)),
        len2_v(v) != 0,
    ensures
        (SCALE as int) * (SCALE as int) - 4 * (SCALE as int) <= len2_v(norm_v(v)),
        len2_v(norm_v(v)) <= ((SCALE as int) + 1) * ((SCALE as int) + 1),
{
    let s = SCALE as int;
    let n = len2_v(v);
    assert(n >= 1) by (nonlinear_arith)
        requires
            n == v.x * v.x + v.y * v.y,
            n != 0,
    ;
    let m = n * s * s;
    lemma_isqrt_bounds(m as nat);
    let l = isqrt_spec(m as nat) as int;
    assert(l >= s && l >= 1) by (nonlinear_arith)
        requires
            m >= s * s,
            s >= 1,
            l >= 0,
            m < (l + 1) * (l + 1),
    ;
    // the components, rescaled to the root's granularity, stay within l
    assert(-l <= v.x * s <= l && -l <= v.y * s <= l) by (nonlinear_arith)
        requires
            (v.x * v.x + v.y * v.y) * (s * s) == m,
            m < (l + 1) * (l + 1),
            l >= 1,
    ;
    let ux = tdiv(v.x * s * s, l);
    let uy = tdiv(v.y * s * s, l);
    lemma_tdiv_mul_range(v.x * s * s, l);
    lemma_tdiv_mul_range(v.y * s * s, l);
    assert(norm_v(v).x == ux && norm_v(v).y == uy);

    // upper bound: l * |u| never exceeds the rescaled component magnitudes
    assert(l * l * (ux * ux) <= (v.x * s * s) * (v.x * s * s) && l * l * (uy * uy) <= (v.y * s * s)
        * (v.y * s * s)) by (nonlinear_arith)
        requires
            l >= 1,
            (v.x * s * s >= 0 ==> l * ux <= v.x * s * s < l * ux + l),
            (v.x * s * s < 0 ==> l * ux - l < v.x * s * s <= l * ux),
            (v.y * s * s >= 0 ==> l * uy <= v.y * s * s < l * uy + l),
            (v.y * s * s < 0 ==> l * uy - l < v.y * s * s <= l * uy),
    ;
    assert(ux * ux >= 0 && uy * uy >= 0 && (v.x * s * s) * (v.x * s * s) + (v.y * s * s) * (v.y * s
        * s) == m * (s * s)) by (nonlinear_arith)
        requires
            n == v.x * v.x + v.y * v.y,
            m == n * s * s,
    ;
    assert(l * l * (ux * ux + uy * uy) <= m * (s * s)) by (nonlinear_arith)
        requires
            l * l * (ux * ux) <= (v.x * s * s) * (v.x * s * s),
            l * l * (uy * uy) <= (v.y * s * s) * (v.y * s * s),
            (v.x * s * s) * (v.x * s * s) + (v.y * s * s) * (v.y * s * s) == m * (s * s),
    ;
    assert(ux * ux + uy * uy <= (s + 1) * (s + 1)) by (nonlinear_arith)
        requires
            l * l * (ux * ux + uy * uy) <= m * (s * s),
            m < (l + 1) * (l + 1),
            l >= s,
            s >= 1,
            ux * ux >= 0,
            uy * uy >= 0,
    ;

    // lower bound: each rounded component loses less than one part in l
    let ax: int = if v.x >= 0 {
        v.x * s * s
    } else {
        -(v.x * s * s)
    };
    let ay: int = if v.y >= 0 {
        v.y * s * s
    } else {
        -(v.y * s * s)
    };
    assert(l * l * (ux * ux) >= ax * ax - 2 * l * ax && l * l * (uy * uy) >= ay * ay - 2 * l
        * ay) by (nonlinear_arith)
        requires
            l >= 1,
            s >= 1,
            ax == (if v.x >= 0 {
                v.x * s * s
            } else {
                -(v.x * s * s)
            }),
            ay == (if v.y >= 0 {
                v.y * s * s
            } else {
                -(v.y * s * s)
            }),
            (v.x * s * s >= 0 ==> l * ux <= v.x * s * s < l * ux + l),
            (v.x * s * s < 0 ==> l * ux - l < v.x * s * s <= l * ux),
            (v.y * s * s >= 0 ==> l * uy <= v.y * s * s < l * uy + l),
            (v.y * s * s < 0 ==> l * uy - l < v.y * s * s <= l * uy),
    ;
    assert(ax <= l * s && ay <= l * s && ax * ax + ay * ay == m * (s * s)) by (nonlinear_arith)
        requires
            -l <= v.x * s <= l,
            -l <= v.y * s <= l,
            s >= 1,
            ax == (if v.x >= 0 {
                v.x * s * s
            } else {
                -(v.x * s * s)
            }),
            ay == (if v.y >= 0 {
                v.y * s * s
            } else {
                -(v.y * s * s)
            }),
            n == v.x * v.x + v.y * v.y,
            m == n * s * s,
    ;
    assert(l * l * (ux * ux + uy * uy) >= m * (s * s) - 2 * l * ax - 2 * l * ay) by (
    nonlinear_arith)
        requires
            l * l * (ux * ux) >= ax * ax - 2 * l * ax,
            l * l * (uy * uy) >= ay * ay - 2 * l * ay,
            ax * ax + ay * ay == m * (s * s),
    ;
    assert(2 * l * ax <= 2 * (l * l) * s && 2 * l * ay <= 2 * (l * l) * s) by (nonlinear_arith)
        requires
            ax <= l * s,
            ay <= l * s,
            l >= 1,
    ;
    assert(m * (s * s) >= s * s * (l * l)) by (nonlinear_arith)
        requires
            m >= l * l,
            s >= 1,
    ;
    assert(l * l * (ux * ux + uy * uy) >= s * s * (l * l) - 4 * (l * l) * s) by (nonlinear_arith)
        requires
            l * l * (ux * ux + uy * uy) >= m * (s * s) - 2 * l * ax - 2 * l * ay,
            2 * l * ax <= 2 * (l * l) * s,
            2 * l * ay <= 2 * (l * l) * s,
            m * (s * s) >= s * s * (l * l),
    ;
    assert(ux * ux + uy * uy >= s * s - 4 * s) by (nonlinear_arith)
        requires
            l * l * (ux * ux + uy * uy) >= s * s * (l * l) - 4 * (l * l) * s,
            l >= 1,
    ;
}

} // verus!
