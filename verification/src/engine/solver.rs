//! The state advance of one tick: gravity, pairwise interactions, arena
//! boundaries, then motion.

use crate::engine::collision::{collide, collision, lemma_collision_valid, RESTITUTION};
use crate::engine::domain::{all_valid, Particle};
use crate::math::fixed::{
    div_toward_zero, divide_toward_zero, lemma_div_toward_zero_bound, lemma_product_bound, LIMIT,
    ONE,
};
use crate::math::vector::Vec2;
use vstd::prelude::*;

verus! {

/// Horizontal acceleration per tick.
pub const GRAVITY_X: i64 = 0;

/// Vertical acceleration per tick. The y axis points down.
pub const GRAVITY_Y: i64 = 800_000;

/// Width of the arena.
pub const BOUNDARY_WIDTH: i64 = 500_000_000;

/// Height of the arena.
pub const BOUNDARY_HEIGHT: i64 = 500_000_000;

/// Distance the floor plane is drawn in from the lower edge.
pub const FLOOR_INSET: i64 = 20_000_000;

/// Distance each wall plane is drawn in from its edge.
pub const WALL_INSET: i64 = 10_000_000;

/// The acceleration every particle receives each tick.
pub open spec fn gravity() -> Vec2 {
    Vec2 { x: GRAVITY_X, y: GRAVITY_Y }
}

/// The largest y a center may have after the boundary phase.
pub open spec fn floor_level() -> int {
    BOUNDARY_HEIGHT - FLOOR_INSET
}

/// The smallest x a center may have after the boundary phase.
pub open spec fn left_wall() -> int {
    WALL_INSET as int
}

/// The largest x a center may have after the boundary phase.
pub open spec fn right_wall() -> int {
    BOUNDARY_WIDTH - WALL_INSET
}

/// The particle after the force phase: gravity added to its velocity.
pub open spec fn accelerated(p: Particle) -> Particle {
    p.moved(p.pos, p.vel.plus(gravity()))
}

/// A velocity coordinate after a bounce: inverted and scaled by the
/// restitution, rounded toward zero.
pub open spec fn reflected(v: i64) -> i64 {
    div_toward_zero(v * -RESTITUTION, ONE as int) as i64
}

/// The particle after the boundary phase. A coordinate beyond the floor or
/// a wall is set on that plane and the velocity across the plane bounces.
/// There is no ceiling.
pub open spec fn confined(p: Particle) -> Particle {
    let below = p.pos.y > floor_level();
    let right = p.pos.x > right_wall();
    let left = p.pos.x < left_wall();
    p.moved(
        Vec2 {
            x: if right {
                right_wall() as i64
            } else if left {
                left_wall() as i64
            } else {
                p.pos.x
            },
            y: if below {
                floor_level() as i64
            } else {
                p.pos.y
            },
        },
        Vec2 {
            x: if right || left {
                reflected(p.vel.x)
            } else {
                p.vel.x
            },
            y: if below {
                reflected(p.vel.y)
            } else {
                p.vel.y
            },
        },
    )
}

/// The boundary phase leaves a valid particle valid and inside the arena.
pub proof fn lemma_confined(p: Particle)
    requires
        p.valid(),
    ensures
        confined(p).valid(),
        inside_arena(confined(p)),
{
    lemma_product_bound(p.vel.x as int, -RESTITUTION as int, LIMIT as int, ONE as int);
    lemma_div_toward_zero_bound(p.vel.x * -RESTITUTION, ONE as int, LIMIT as int);
    lemma_product_bound(p.vel.y as int, -RESTITUTION as int, LIMIT as int, ONE as int);
    lemma_div_toward_zero_bound(p.vel.y * -RESTITUTION, ONE as int, LIMIT as int);
}

/// The center lies between the walls and not below the floor.
pub open spec fn inside_arena(p: Particle) -> bool {
    left_wall() <= p.pos.x <= right_wall() && p.pos.y <= floor_level()
}

/// The particle after the motion phase: its velocity added to its position.
pub open spec fn displaced(p: Particle) -> Particle {
    p.moved(p.pos.plus(p.vel), p.vel)
}

/// The sequence after the pair at `i < j` has interacted.
pub open spec fn pair_resolved(s: Seq<Particle>, i: int, j: int) -> Seq<Particle> {
    let (a, b) = collision(s[i], s[j]);
    s.update(i, a).update(j, b)
}

/// The sequence after particle `i` has interacted, in order, with the
/// particles at `i + 1` up to but not including `j`.
pub open spec fn row_resolved(s: Seq<Particle>, i: int, j: int) -> Seq<Particle>
    decreases j - i,
{
    if j <= i + 1 {
        s
    } else {
        pair_resolved(row_resolved(s, i, j - 1), i, j - 1)
    }
}

/// The sequence after each of the first `i` particles has interacted with
/// every particle behind it, the pairs taken in lexicographic order.
pub open spec fn rows_resolved(s: Seq<Particle>, i: int) -> Seq<Particle>
    decreases i,
{
    if i <= 0 {
        s
    } else {
        row_resolved(rows_resolved(s, i - 1), i - 1, s.len() as int)
    }
}

/// The sequence after the interaction phase: every unordered pair has
/// interacted exactly once, and each interaction saw the outcome of those
/// before it.
pub open spec fn interactions_resolved(s: Seq<Particle>) -> Seq<Particle> {
    rows_resolved(s, s.len() as int)
}

/// The sequence after the force, interaction and boundary phases of a
/// tick, as the motion phase finds it.
pub open spec fn before_motion(s: Seq<Particle>) -> Seq<Particle> {
    interactions_resolved(s.map_values(|p: Particle| accelerated(p))).map_values(
        |p: Particle| confined(p),
    )
}

/// The sequence after one tick.
pub open spec fn advanced(s: Seq<Particle>) -> Seq<Particle> {
    before_motion(s).map_values(|p: Particle| displaced(p))
}

/// `t` holds the bodies of `s`: as many, in the same order, each with the
/// radius, mass and color it had.
pub open spec fn same_bodies(s: Seq<Particle>, t: Seq<Particle>) -> bool {
    &&& t.len() == s.len()
    &&& forall|k: int|
        0 <= k < s.len() ==> {
            &&& (#[trigger] t[k]).radius == s[k].radius
            &&& t[k].mass == s[k].mass
            &&& t[k].color == s[k].color
        }
}

/// One interaction keeps the bodies and their validity.
pub proof fn lemma_pair_resolved(s: Seq<Particle>, i: int, j: int)
    requires
        0 <= i < j < s.len(),
    ensures
        same_bodies(s, pair_resolved(s, i, j)),
        all_valid(s) ==> all_valid(pair_resolved(s, i, j)),
{
    let t = pair_resolved(s, i, j);
    if all_valid(s) {
        assert(s[i].valid() && s[j].valid());
        lemma_collision_valid(s[i], s[j]);
        assert forall|k: int| 0 <= k < t.len() implies (#[trigger] t[k]).valid() by {
            assert(s[k].valid());
        }
    }
}

/// The interactions of one particle with those behind it keep the bodies
/// and their validity.
pub proof fn lemma_row_resolved(s: Seq<Particle>, i: int, j: int)
    requires
        0 <= i,
        j <= s.len(),
    ensures
        same_bodies(s, row_resolved(s, i, j)),
        all_valid(s) ==> all_valid(row_resolved(s, i, j)),
    decreases j - i,
{
    if j > i + 1 {
        lemma_row_resolved(s, i, j - 1);
        lemma_pair_resolved(row_resolved(s, i, j - 1), i, j - 1);
    }
}

/// The interactions of the first `i` particles keep the bodies and their
/// validity.
pub proof fn lemma_rows_resolved(s: Seq<Particle>, i: int)
    requires
        i <= s.len(),
    ensures
        same_bodies(s, rows_resolved(s, i)),
        all_valid(s) ==> all_valid(rows_resolved(s, i)),
    decreases i,
{
    if i > 0 {
        lemma_rows_resolved(s, i - 1);
        lemma_row_resolved(rows_resolved(s, i - 1), i - 1, s.len() as int);
    }
}

/// A tick keeps the count and the order of the particles and the radius,
/// mass and color of each; it keeps valid particles valid; and the motion
/// phase finds every particle inside the arena.
pub proof fn lemma_advanced(s: Seq<Particle>)
    requires
        all_valid(s),
    ensures
        same_bodies(s, advanced(s)),
        all_valid(advanced(s)),
        same_bodies(s, before_motion(s)),
        all_valid(before_motion(s)),
        forall|k: int| 0 <= k < s.len() ==> inside_arena(#[trigger] before_motion(s)[k]),
{
    let s1 = s.map_values(|p: Particle| accelerated(p));
    assert forall|k: int| 0 <= k < s1.len() implies (#[trigger] s1[k]).valid() by {
        assert(s[k].valid());
    }
    lemma_rows_resolved(s1, s1.len() as int);
    let s2 = interactions_resolved(s1);
    let s3 = s2.map_values(|p: Particle| confined(p));
    assert forall|k: int| 0 <= k < s3.len() implies (#[trigger] s3[k]).valid() && inside_arena(
        s3[k],
    ) by {
        assert(s2[k].valid());
        lemma_confined(s2[k]);
    }
    let s4 = s3.map_values(|p: Particle| displaced(p));
    assert forall|k: int| 0 <= k < s4.len() implies (#[trigger] s4[k]).valid() by {
        assert(s3[k].valid());
    }
    assert forall|k: int| 0 <= k < s.len() implies {
        &&& (#[trigger] s3[k]).radius == s[k].radius
        &&& s3[k].mass == s[k].mass
        &&& s3[k].color == s[k].color
    } by {
        assert(s2[k].radius == s1[k].radius);
    }
    assert forall|k: int| 0 <= k < s.len() implies {
        &&& (#[trigger] s4[k]).radius == s[k].radius
        &&& s4[k].mass == s[k].mass
        &&& s4[k].color == s[k].color
    } by {
        assert(s3[k].radius == s[k].radius);
    }
}

/// Force phase: adds gravity to the velocity of every particle.
pub fn integrate_forces(particles: &mut Vec<Particle>)
    requires
        all_valid(old(particles)@),
    ensures
        final(particles)@ == old(particles)@.map_values(|p: Particle| accelerated(p)),
        all_valid(final(particles)@),
{
    let ghost before = particles@;
    let g = Vec2 { x: GRAVITY_X, y: GRAVITY_Y };
    let mut k: usize = 0;
    while k < particles.len()
        invariant
            k <= particles.len(),
            particles.len() == before.len(),
            g == gravity(),
            all_valid(before),
            forall|i: int| 0 <= i < k ==> particles@[i] == accelerated(#[trigger] before[i]),
            forall|i: int| k <= i < before.len() ==> particles@[i] == #[trigger] before[i],
        decreases particles.len() - k,
    {
        particles[k].vel.accumulate(g);
        k += 1;
    }
    proof {
        assert(particles@ =~= before.map_values(|p: Particle| accelerated(p)));
        assert forall|i: int| 0 <= i < particles.len() implies (#[trigger] particles@[i]).valid() by {
            assert(before[i].valid());
        }
    }
}

/// Motion phase: adds the velocity of every particle to its position.
pub fn integrate_motion(particles: &mut Vec<Particle>)
    requires
        all_valid(old(particles)@),
    ensures
        final(particles)@ == old(particles)@.map_values(|p: Particle| displaced(p)),
        all_valid(final(particles)@),
{
    let ghost before = particles@;
    let mut k: usize = 0;
    while k < particles.len()
        invariant
            k <= particles.len(),
            particles.len() == before.len(),
            all_valid(before),
            forall|i: int| 0 <= i < k ==> particles@[i] == displaced(#[trigger] before[i]),
            forall|i: int| k <= i < before.len() ==> particles@[i] == #[trigger] before[i],
        decreases particles.len() - k,
    {
        let v = particles[k].vel;
        particles[k].pos.accumulate(v);
        k += 1;
    }
    proof {
        assert(particles@ =~= before.map_values(|p: Particle| displaced(p)));
        assert forall|i: int| 0 <= i < particles.len() implies (#[trigger] particles@[i]).valid() by {
            assert(before[i].valid());
        }
    }
}

/// Returns a velocity coordinate after a bounce.
fn reflect(v: i64) -> (r: i64)
    requires
        -LIMIT <= v <= LIMIT,
    ensures
        r == reflected(v),
        -LIMIT <= r <= LIMIT,
{
    proof {
        lemma_product_bound(v as int, -RESTITUTION as int, LIMIT as int, ONE as int);
        lemma_div_toward_zero_bound(v * -RESTITUTION, ONE as int, LIMIT as int);
    }
    divide_toward_zero(v as i128 * -(RESTITUTION as i128), ONE as i128) as i64
}

/// Boundary phase: puts every particle back between the walls and above
/// the floor, and bounces its velocity off each plane it had crossed.
pub fn apply_boundary_conditions(particles: &mut Vec<Particle>)
    requires
        all_valid(old(particles)@),
    ensures
        final(particles)@ == old(particles)@.map_values(|p: Particle| confined(p)),
        all_valid(final(particles)@),
        forall|k: int| 0 <= k < final(particles)@.len() ==> inside_arena(#[trigger] final(particles)@[k]),
{
    let ghost before = particles@;
    let mut k: usize = 0;
    while k < particles.len()
        invariant
            k <= particles.len(),
            particles.len() == before.len(),
            all_valid(before),
            forall|i: int| 0 <= i < k ==> particles@[i] == confined(#[trigger] before[i]),
            forall|i: int| k <= i < before.len() ==> particles@[i] == #[trigger] before[i],
        decreases particles.len() - k,
    {
        assert(before[k as int].valid());
        if particles[k].pos.y > BOUNDARY_HEIGHT - FLOOR_INSET {
            particles[k].pos.y = BOUNDARY_HEIGHT - FLOOR_INSET;
            particles[k].vel.y = reflect(particles[k].vel.y);
        }
        if particles[k].pos.x > BOUNDARY_WIDTH - WALL_INSET {
            particles[k].pos.x = BOUNDARY_WIDTH - WALL_INSET;
            particles[k].vel.x = reflect(particles[k].vel.x);
        }
        if particles[k].pos.x < WALL_INSET {
            particles[k].pos.x = WALL_INSET;
            particles[k].vel.x = reflect(particles[k].vel.x);
        }
        k += 1;
    }
    proof {
        assert(particles@ =~= before.map_values(|p: Particle| confined(p)));
        assert forall|i: int| 0 <= i < particles.len() implies (#[trigger] particles@[i]).valid()
            && inside_arena(particles@[i]) by {
            assert(before[i].valid());
            lemma_confined(before[i]);
        }
    }
}

/// Lets the pair at `i < j` interact.
fn resolve_pair(particles: &mut Vec<Particle>, i: usize, j: usize)
    requires
        i < j < old(particles).len(),
        all_valid(old(particles)@),
    ensures
        final(particles)@ == pair_resolved(old(particles)@, i as int, j as int),
        all_valid(final(particles)@),
{
    let ghost before = particles@;
    assert(before[i as int].valid() && before[j as int].valid());
    let r = collide(&particles[i], &particles[j]);
    particles[i].pos = r.0.0;
    particles[i].vel = r.0.1;
    particles[j].pos = r.1.0;
    particles[j].vel = r.1.1;
    proof {
        assert(particles@ =~= pair_resolved(before, i as int, j as int));
        assert forall|k: int| 0 <= k < particles.len() implies (#[trigger] particles@[k]).valid() by {
            assert(before[k].valid());
        }
    }
}

/// Interaction phase: lets every unordered pair of particles interact
/// exactly once, in lexicographic order of the pair's indices.
pub fn resolve_interactions(particles: &mut Vec<Particle>)
    requires
        all_valid(old(particles)@),
    ensures
        final(particles)@ == interactions_resolved(old(particles)@),
        same_bodies(old(particles)@, final(particles)@),
        all_valid(final(particles)@),
{
    let ghost before = particles@;
    proof {
        lemma_rows_resolved(before, before.len() as int);
    }
    let len = particles.len();
    let mut i: usize = 0;
    while i < len
        invariant
            i <= len,
            particles.len() == len,
            before.len() == len,
            particles@ == rows_resolved(before, i as int),
            all_valid(particles@),
        decreases len - i,
    {
        let ghost row_start = particles@;
        let mut j: usize = i + 1;
        while j < len
            invariant
                i < j <= len,
                particles.len() == len,
                row_start.len() == len,
                particles@ == row_resolved(row_start, i as int, j as int),
                all_valid(particles@),
            decreases len - j,
        {
            resolve_pair(particles, i, j);
            j += 1;
        }
        i += 1;
    }
}

/// Advances every particle by one tick: gravity, then interactions, then
/// boundaries, then motion. The count and the order of the particles, and
/// the radius, mass and color of each, stay as they are.
pub fn solve_step(particles: &mut Vec<Particle>)
    requires
        all_valid(old(particles)@),
    ensures
        final(particles)@ == advanced(old(particles)@),
        same_bodies(old(particles)@, final(particles)@),
        all_valid(final(particles)@),
{
    proof {
        lemma_advanced(particles@);
    }
    integrate_forces(particles);
    resolve_interactions(particles);
    apply_boundary_conditions(particles);
    integrate_motion(particles);
}

} // verus!
