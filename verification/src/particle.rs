//! Particles and the store that owns them for one simulation run.

use vstd::prelude::*;
use crate::geom::{in_range, Point2D, V2, Vector2D};
use crate::rng::gen_range_i64;
use crate::{COUNT_LIMIT, DIR_MAX, POS_LIMIT, RADIUS_MAX};

verus! {

/// Model of one particle: unbounded integers for every coordinate.
pub ghost struct ParticleModel {
    pub id: int,
    pub radius: int,
    pub location: V2,
    pub direction: V2,
}

/// A circular particle. The id is assigned at creation, never changes, and
/// serves as the tie-break that makes each unordered pair of particles
/// collide exactly once per tick.
#[derive(Clone, Copy, PartialEq, Eq, Structural, Debug)]
pub struct Particle {
    pub id: usize,
    pub radius: i64,
    pub location: Point2D,
    pub direction: Vector2D,
}

impl View for Particle {
    type V = ParticleModel;

    open spec fn view(&self) -> ParticleModel {
        ParticleModel {
            id: self.id as int,
            radius: self.radius as int,
            location: self.location@,
            direction: self.direction@,
        }
    }
}

/// One particle's unchanging well-formedness, at its position `i` in the
/// store: the id equals the index, the radius is positive and bounded, and
/// the direction components are within [`DIR_MAX`].
pub open spec fn particle_wf(p: ParticleModel, i: int) -> bool {
    &&& p.id == i
    &&& 0 < p.radius <= RADIUS_MAX as int
    &&& in_range(p.direction, DIR_MAX as int)
}

/// Every particle of the store is well formed at its index.
pub open spec fn store_wf(s: Seq<ParticleModel>) -> bool {
    forall|i: int| 0 <= i < s.len() ==> particle_wf(#[trigger] s[i], i)
}

/// Every particle's position coordinates are within `[-b, b]`.
pub open spec fn positions_within(s: Seq<ParticleModel>, b: int) -> bool {
    forall|i: int| 0 <= i < s.len() ==> in_range(#[trigger] s[i].location, b)
}

/// The ordered, fixed-cardinality collection of particles for one run;
/// insertion order is id order.
pub struct ParticleStore {
    particles: Vec<Particle>,
}

impl View for ParticleStore {
    type V = Seq<ParticleModel>;

    closed spec fn view(&self) -> Seq<ParticleModel> {
        self.particles@.map_values(|p: Particle| p@)
    }
}

impl ParticleStore {
    /// Every particle of this store is well formed at its index.
    pub open spec fn wf(&self) -> bool {
        store_wf(self@)
    }

    /// An empty store.
    pub fn new() -> (store: ParticleStore)
        ensures
            store@ =~= Seq::<ParticleModel>::empty(),
    {
        ParticleStore { particles: Vec::new() }
    }

    /// Number of particles.
    pub fn len(&self) -> (n: usize)
        ensures
            n == self@.len(),
    {
        self.particles.len()
    }

    /// Read the particle at index `i`.
    pub fn get(&self, i: usize) -> (p: Particle)
        requires
            i < self@.len(),
        ensures
            p@ == self@[i as int],
    {
        self.particles[i]
    }

    /// Replace the particle at index `i`.
    pub fn set(&mut self, i: usize, p: Particle)
        requires
            i < old(self)@.len(),
        ensures
            final(self)@ =~= old(self)@.update(i as int, p@),
    {
        self.particles.set(i, p);
    }

    /// Append a particle; setup assigns ids in insertion order.
    pub fn push(&mut self, p: Particle)
        ensures
            final(self)@ =~= old(self)@.push(p@),
    {
        self.particles.push(p);
    }
}

/// The ranges setup draws every particle from: location uniform in the
/// arena, direction components uniform in `[0, dx_max)` and `[0, dy_max)`,
/// radius uniform in the configured range.
pub open spec fn setup_ranges(
    p: ParticleModel,
    w: int,
    h: int,
    rlo: int,
    rhi: int,
    dx_max: int,
    dy_max: int,
) -> bool {
    &&& 0 <= p.location.x < w
    &&& 0 <= p.location.y < h
    &&& 0 <= p.direction.x < dx_max
    &&& 0 <= p.direction.y < dy_max
    &&& rlo <= p.radius < rhi
}

/// (Re)initialize the particle population: `count` particles with uniformly
/// random location inside the arena, direction components sampled uniformly
/// from `[0, dir_x_max)` and `[0, dir_y_max)` — the two ranges are separate
/// configuration, since a host may deliberately draw the axes from unequal
/// ranges — and a radius sampled uniformly from `[radius_lo, radius_hi)`.
/// Ids are assigned `0..count` in creation order, so the store is well
/// formed and ready for [`crate::engine::step`].
pub fn setup(
    count: usize,
    width: i64,
    height: i64,
    radius_lo: i64,
    radius_hi: i64,
    dir_x_max: i64,
    dir_y_max: i64,
    rng: &mut rand::rngs::StdRng,
) -> (store: ParticleStore)
    requires
        count <= COUNT_LIMIT,
        1 <= width <= POS_LIMIT,
        1 <= height <= POS_LIMIT,
        0 < radius_lo < radius_hi <= RADIUS_MAX,
        0 < dir_x_max <= DIR_MAX,
        0 < dir_y_max <= DIR_MAX,
    ensures
        store.wf(),
        store@.len() == count,
        positions_within(store@, POS_LIMIT as int),
        forall|i: int|
            0 <= i < count ==> setup_ranges(
                #[trigger] store@[i],
                width as int,
                height as int,
                radius_lo as int,
                radius_hi as int,
                dir_x_max as int,
                dir_y_max as int,
            ),
{
    let mut store = ParticleStore::new();
    let mut id: usize = 0;
    while id < count
        invariant
            id <= count,
            count <= COUNT_LIMIT,
            1 <= width <= POS_LIMIT,
            1 <= height <= POS_LIMIT,
            0 < radius_lo < radius_hi <= RADIUS_MAX,
            0 < dir_x_max <= DIR_MAX,
            0 < dir_y_max <= DIR_MAX,
            store@.len() == id,
            store.wf(),
            positions_within(store@, POS_LIMIT as int),
            forall|i: int|
                0 <= i < id ==> setup_ranges(
                    #[trigger] store@[i],
                    width as int,
                    height as int,
                    radius_lo as int,
                    radius_hi as int,
                    dir_x_max as int,
                    dir_y_max as int,
                ),
        decreases count - id,
    {
        let ghost prev = store@;
        let lx = gen_range_i64(rng, 0, width);
        let ly = gen_range_i64(rng, 0, height);
        let dx = gen_range_i64(rng, 0, dir_x_max);
        let dy = gen_range_i64(rng, 0, dir_y_max);
        let radius = gen_range_i64(rng, radius_lo, radius_hi);
        let p = Particle {
            id,
            radius,
            location: Point2D { x: lx, y: ly },
            direction: Vector2D { x: dx, y: dy },
        };
        store.push(p);
        proof {
            assert forall|k: int| 0 <= k < id + 1 implies particle_wf(
                #[trigger] store@[k],
                k,
            ) by {
                if k < id {
                    assert(particle_wf(prev[k], k));
                }
            }
            assert forall|k: int| 0 <= k < id + 1 implies in_range(
                #[trigger] store@[k].location,
                POS_LIMIT as int,
            ) by {
                if k < id {
                    assert(in_range(prev[k].location, POS_LIMIT as int));
                }
            }
        }
        id = id + 1;
    }
    store
}

} // verus!
