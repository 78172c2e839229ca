//! The bodies the kernel moves and the snapshot taken of them after a tick.

use crate::math::fixed::{lemma_product_bound, LIMIT, ONE};
use crate::math::vector::Vec2;
use vstd::prelude::*;

verus! {

/// The smallest radius a particle may have. Below it the mass, the square
/// of the radius, would round to zero.
pub const MIN_RADIUS: i64 = 1_000;

/// The largest radius a particle may have (a thousand units).
pub const MAX_RADIUS: i64 = 1_000_000_000;

/// The largest mass a particle may have: that of the largest radius.
pub const MAX_MASS: i64 = 1_000_000_000_000;

/// `radius` brought into `[MIN_RADIUS, MAX_RADIUS]`.
pub open spec fn clamp_radius(radius: int) -> i64 {
    if radius < MIN_RADIUS {
        MIN_RADIUS
    } else if radius > MAX_RADIUS {
        MAX_RADIUS
    } else {
        radius as i64
    }
}

/// The mass of a body of constant density: the square of its radius.
pub open spec fn mass_of(radius: int) -> int {
    radius * radius / (ONE as int)
}

/// A point mass with a circular extent.
#[derive(Debug, Clone)]
pub struct Particle {
    /// Current center.
    pub pos: Vec2,
    /// Current displacement per tick.
    pub vel: Vec2,
    /// Collision extent.
    pub radius: i64,
    /// Weight of the body in a collision.
    pub mass: i64,
    /// Presentation data, inert to the physics.
    pub color: String,
}

impl Particle {
    /// The particle is one the kernel accepts: its radius and mass are
    /// positive and bounded, and its coordinates are in the storable range.
    pub open spec fn valid(self) -> bool {
        &&& self.pos.in_range()
        &&& self.vel.in_range()
        &&& MIN_RADIUS <= self.radius <= MAX_RADIUS
        &&& 1 <= self.mass <= MAX_MASS
    }

    /// The same body with another position and velocity.
    pub open spec fn moved(self, pos: Vec2, vel: Vec2) -> Particle {
        Particle { pos, vel, radius: self.radius, mass: self.mass, color: self.color }
    }

    /// Builds a particle whose mass is the square of its radius. A radius
    /// outside `[MIN_RADIUS, MAX_RADIUS]` is clamped into it, and so are
    /// coordinates outside the storable range.
    pub fn new(pos: Vec2, vel: Vec2, radius: i64, color: String) -> (p: Particle)
        ensures
            p.pos == pos.saturated(),
            p.vel == vel.saturated(),
            p.radius == clamp_radius(radius as int),
            p.mass == mass_of(p.radius as int),
            p.color == color,
            p.valid(),
    {
        let r: i64 = if radius < MIN_RADIUS {
            MIN_RADIUS
        } else if radius > MAX_RADIUS {
            MAX_RADIUS
        } else {
            radius
        };
        proof {
            lemma_product_bound(r as int, r as int, MAX_RADIUS as int, MAX_RADIUS as int);
            assert(r * r >= MIN_RADIUS * MIN_RADIUS) by (nonlinear_arith)
                requires
                    r >= MIN_RADIUS,
            ;
        }
        let mass: i64 = ((r as i128 * r as i128) / (ONE as i128)) as i64;
        Particle { pos: pos.clamp(), vel: vel.clamp(), radius: r, mass, color }
    }

    /// Tells whether the kernel accepts this particle.
    pub fn is_valid(&self) -> (b: bool)
        ensures
            b == self.valid(),
    {
        -LIMIT <= self.pos.x && self.pos.x <= LIMIT && -LIMIT <= self.pos.y && self.pos.y <= LIMIT
            && -LIMIT <= self.vel.x && self.vel.x <= LIMIT && -LIMIT <= self.vel.y && self.vel.y
            <= LIMIT && MIN_RADIUS <= self.radius && self.radius <= MAX_RADIUS && 1 <= self.mass
            && self.mass <= MAX_MASS
    }

    /// Returns an equal particle.
    pub fn duplicate(&self) -> (p: Particle)
        ensures
            p == *self,
    {
        Particle {
            pos: self.pos,
            vel: self.vel,
            radius: self.radius,
            mass: self.mass,
            color: self.color.clone(),
        }
    }
}

/// Every particle of the sequence is one the kernel accepts.
pub open spec fn all_valid(particles: Seq<Particle>) -> bool {
    forall|k: int| 0 <= k < particles.len() ==> (#[trigger] particles[k]).valid()
}

/// Tells whether the kernel accepts every particle of the sequence.
pub fn is_all_valid(particles: &Vec<Particle>) -> (b: bool)
    ensures
        b == all_valid(particles@),
{
    let mut k: usize = 0;
    while k < particles.len()
        invariant
            k <= particles.len(),
            forall|i: int| 0 <= i < k ==> (#[trigger] particles@[i]).valid(),
        decreases particles.len() - k,
    {
        if !particles[k].is_valid() {
            return false;
        }
        k += 1;
    }
    true
}

/// The full particle sequence as it stood after a tick, with the simulated
/// time that had elapsed. It is a value: nothing changes it after it is
/// taken.
#[derive(Debug, Clone)]
pub struct SystemState {
    pub particles: Vec<Particle>,
    /// Elapsed simulated time in seconds, as a fixed-point scalar.
    pub timestamp: i64,
}

impl SystemState {
    /// Takes a snapshot: a copy of every particle, in order, with the
    /// given elapsed time.
    pub fn capture(particles: &Vec<Particle>, timestamp: i64) -> (s: SystemState)
        ensures
            s.particles@ == particles@,
            s.timestamp == timestamp,
    {
        let mut copy: Vec<Particle> = Vec::new();
        let mut k: usize = 0;
        while k < particles.len()
            invariant
                k <= particles.len(),
                copy@ == particles@.take(k as int),
            decreases particles.len() - k,
        {
            copy.push(particles[k].duplicate());
            proof {
                assert(particles@.take(k + 1) =~= particles@.take(k as int).push(particles@[k as int]));
            }
            k += 1;
        }
        proof {
            assert(particles@.take(particles.len() as int) =~= particles@);
        }
        SystemState { particles: copy, timestamp }
    }
}

} // verus!
