//! The interaction of one pair of particles: overlap test, position
//! correction and impulse.
//!
//! The distance between two centers is measured in millionths of a raw
//! step, so that directions stay accurate for centers that nearly
//! coincide. Two roundings are chosen so that rounding can only err on the
//! safe side. The correction divides by the distance rounded down and
//! rounds away from zero, so a corrected pair is never closer than the sum
//! of its radii. The contact normal divides by the distance rounded up and
//! rounds toward zero, so it is never longer than one and an impulse never
//! adds speed along it.

use crate::engine::domain::{Particle, MAX_MASS, MAX_RADIUS};
use crate::math::fixed::{
    ceil_sqrt, clamp_to_limit, div_away_from_zero, div_toward_zero, divide_away_from_zero,
    divide_toward_zero, floor_sqrt, integer_sqrt, lemma_ceil_sqrt, lemma_div_away_from_zero_bound,
    lemma_div_toward_zero, lemma_div_toward_zero_bound, lemma_floor_sqrt_exists,
    lemma_product_bound, lemma_square_monotonic, lemma_square_strictly_below, saturate, LIMIT,
    ONE,
};
use crate::math::vector::Vec2;
use vstd::prelude::*;

verus! {

/// The fraction of the relative normal speed a collision preserves.
pub const RESTITUTION: i64 = 900_000;

/// The inner product of two planar vectors.
pub open spec fn dot(u: (int, int), v: (int, int)) -> int {
    u.0 * v.0 + u.1 * v.1
}

/// The offset from the center of `a` to the center of `b`.
pub open spec fn offset(a: Particle, b: Particle) -> (int, int) {
    (b.pos.x - a.pos.x, b.pos.y - a.pos.y)
}

/// The velocity of `b` relative to `a`.
pub open spec fn relative_velocity(a: Particle, b: Particle) -> (int, int) {
    (b.vel.x - a.vel.x, b.vel.y - a.vel.y)
}

/// The squared distance between the two centers.
pub open spec fn distance_squared(a: Particle, b: Particle) -> int {
    dot(offset(a, b), offset(a, b))
}

/// The distance below which the two bodies intersect: the sum of the radii.
pub open spec fn reach(a: Particle, b: Particle) -> int {
    a.radius + b.radius
}

/// The two bodies intersect. The test compares squares, so it needs no
/// square root.
pub open spec fn overlapping(a: Particle, b: Particle) -> bool {
    distance_squared(a, b) < reach(a, b) * reach(a, b)
}

/// The squared distance between the two centers, in squared millionths of
/// a raw step.
pub open spec fn fine_distance_squared(a: Particle, b: Particle) -> int {
    distance_squared(a, b) * (ONE * ONE)
}

/// The displacement that moves `b` away from `a`, and whose opposite moves
/// `a` away from `b`: half the penetration depth along the line of centers.
/// Coincident centers are pushed apart along the x axis.
pub open spec fn half_correction(a: Particle, b: Particle) -> (int, int) {
    let (dx, dy) = offset(a, b);
    if dx == 0 && dy == 0 {
        (div_away_from_zero(reach(a, b), 2), 0)
    } else {
        let d = floor_sqrt(fine_distance_squared(a, b));
        let depth = reach(a, b) * ONE - d;
        (div_away_from_zero(dx * depth, 2 * d), div_away_from_zero(dy * depth, 2 * d))
    }
}

/// The direction from `a` to `b` as a fixed-point vector of length at most
/// one. For coincident centers it is the x axis.
pub open spec fn contact_normal(a: Particle, b: Particle) -> (int, int) {
    let (dx, dy) = offset(a, b);
    if dx == 0 && dy == 0 {
        (ONE as int, 0)
    } else {
        let d = ceil_sqrt(fine_distance_squared(a, b));
        (div_toward_zero(dx * (ONE * ONE), d), div_toward_zero(dy * (ONE * ONE), d))
    }
}

/// The relative velocity projected on the contact normal, in squared raw
/// steps. It is negative while the bodies approach each other.
pub open spec fn normal_velocity(a: Particle, b: Particle) -> int {
    dot(relative_velocity(a, b), contact_normal(a, b))
}

/// The speed the impulse takes out of the approach: `1 + RESTITUTION`
/// times the approach speed.
pub open spec fn impulse_speed(a: Particle, b: Particle) -> int {
    div_toward_zero((ONE + RESTITUTION) * -normal_velocity(a, b), ONE * ONE)
}

/// The velocity change of a body that takes part in an impulse of speed
/// `j` along `n`, where `other_mass` is the mass of the other body: the
/// impulse `j * m1 * m2 / (m1 + m2)` divided by the body's own mass.
pub open spec fn kick(j: int, other_mass: int, total_mass: int, n: (int, int)) -> (int, int) {
    let share = j * other_mass / total_mass;
    (div_toward_zero(share * n.0, ONE as int), div_toward_zero(share * n.1, ONE as int))
}

/// The velocity changes of `a` (to subtract) and of `b` (to add).
pub open spec fn kicks(a: Particle, b: Particle) -> ((int, int), (int, int)) {
    let j = impulse_speed(a, b);
    let n = contact_normal(a, b);
    let m = a.mass + b.mass;
    (kick(j, b.mass as int, m, n), kick(j, a.mass as int, m, n))
}

/// The positions of an overlapping pair after the correction.
pub open spec fn corrected_positions(a: Particle, b: Particle) -> (Vec2, Vec2) {
    let c = half_correction(a, b);
    (
        Vec2 { x: saturate(a.pos.x - c.0), y: saturate(a.pos.y - c.1) },
        Vec2 { x: saturate(b.pos.x + c.0), y: saturate(b.pos.y + c.1) },
    )
}

/// The velocities of an overlapping pair after the impulse. A pair that
/// does not approach along the normal keeps its velocities.
pub open spec fn rebound_velocities(a: Particle, b: Particle) -> (Vec2, Vec2) {
    if normal_velocity(a, b) >= 0 {
        (a.vel, b.vel)
    } else {
        let (ka, kb) = kicks(a, b);
        (
            Vec2 { x: saturate(a.vel.x - ka.0), y: saturate(a.vel.y - ka.1) },
            Vec2 { x: saturate(b.vel.x + kb.0), y: saturate(b.vel.y + kb.1) },
        )
    }
}

/// The pair after its interaction. A pair that does not overlap is left as
/// it is. An overlapping pair is pushed apart, and receives an impulse if
/// it approaches; correction and impulse are both read off the state before
/// the interaction.
pub open spec fn collision(a: Particle, b: Particle) -> (Particle, Particle) {
    if !overlapping(a, b) {
        (a, b)
    } else {
        let (pa, pb) = corrected_positions(a, b);
        let (va, vb) = rebound_velocities(a, b);
        (a.moved(pa, va), b.moved(pb, vb))
    }
}

/// A body's share of a non-negative impulse speed lies between zero and
/// that speed.
pub proof fn lemma_share_bound(j: int, other_mass: int, total_mass: int)
    requires
        j >= 0,
        0 <= other_mass <= total_mass,
        total_mass > 0,
    ensures
        0 <= j * other_mass <= j * total_mass,
        0 <= j * other_mass / total_mass <= j,
{
    assert(0 <= j * other_mass <= j * total_mass) by (nonlinear_arith)
        requires
            j >= 0,
            0 <= other_mass <= total_mass,
    ;
    vstd::arithmetic::div_mod::lemma_div_pos_is_pos(j * other_mass, total_mass);
    vstd::arithmetic::div_mod::lemma_div_is_ordered(j * other_mass, j * total_mass, total_mass);
    vstd::arithmetic::div_mod::lemma_div_multiples_vanish(j, total_mass);
    assert(j * total_mass == total_mass * j) by (nonlinear_arith);
}

/// For a valid overlapping pair, the correction is at most the reach and
/// the normal at most one in each coordinate.
pub proof fn lemma_contact_bounds(a: Particle, b: Particle)
    requires
        a.valid(),
        b.valid(),
        overlapping(a, b),
    ensures
        -reach(a, b) < offset(a, b).0 < reach(a, b),
        -reach(a, b) < offset(a, b).1 < reach(a, b),
        -reach(a, b) <= half_correction(a, b).0 <= reach(a, b),
        -reach(a, b) <= half_correction(a, b).1 <= reach(a, b),
        -ONE <= contact_normal(a, b).0 <= ONE,
        -ONE <= contact_normal(a, b).1 <= ONE,
        0 <= distance_squared(a, b) < reach(a, b) * reach(a, b),
        offset(a, b) != (0int, 0int) ==> fine_distance_bracketed(a, b),
{
    let (dx, dy) = offset(a, b);
    let dsq = distance_squared(a, b);
    let r = reach(a, b);
    assert(dx * dx >= 0 && dy * dy >= 0) by (nonlinear_arith);
    lemma_square_strictly_below(dx, r);
    lemma_square_strictly_below(dy, r);
    if dx == 0 && dy == 0 {
        lemma_div_away_from_zero_bound(r, 2, r);
    } else {
        lemma_fine_distance(a, b);
        let fsq = fine_distance_squared(a, b);
        let d = floor_sqrt(fsq);
        let e = ceil_sqrt(fsq);
        let depth = r * ONE - d;
        lemma_fine_offset(dx, dsq, fsq, d);
        lemma_fine_offset(dy, dsq, fsq, d);
        lemma_product_bound(dx * ONE, depth, d, depth);
        lemma_product_bound(dy * ONE, depth, d, depth);
        assert((dx * ONE) * depth == (dx * depth) * ONE && (dy * ONE) * depth == (dy * depth)
            * ONE) by (nonlinear_arith);
        assert(d * depth <= (r * ONE) * (2 * d)) by (nonlinear_arith)
            requires
                d > 0,
                0 < depth <= r * ONE,
        ;
        assert((r * ONE) * (2 * d) == (r * (2 * d)) * ONE) by (nonlinear_arith);
        assert(-(r * (2 * d)) <= dx * depth <= r * (2 * d)) by (nonlinear_arith)
            requires
                -((r * (2 * d)) * ONE) <= (dx * depth) * ONE <= (r * (2 * d)) * ONE,
        ;
        assert(-(r * (2 * d)) <= dy * depth <= r * (2 * d)) by (nonlinear_arith)
            requires
                -((r * (2 * d)) * ONE) <= (dy * depth) * ONE <= (r * (2 * d)) * ONE,
        ;
        lemma_div_away_from_zero_bound(dx * depth, 2 * d, r);
        lemma_div_away_from_zero_bound(dy * depth, 2 * d, r);
        lemma_product_bound(dx * ONE, ONE as int, e, ONE as int);
        lemma_product_bound(dy * ONE, ONE as int, e, ONE as int);
        assert((dx * ONE) * ONE == dx * (ONE * ONE) && (dy * ONE) * ONE == dy * (ONE * ONE))
            by (nonlinear_arith);
        assert(e * ONE == ONE * e) by (nonlinear_arith);
        lemma_div_toward_zero_bound(dx * (ONE * ONE), e, ONE as int);
        lemma_div_toward_zero_bound(dy * (ONE * ONE), e, ONE as int);
    }
}

/// The fine distance of the pair, rounded down and rounded up, is at least
/// one raw step, at most the reach, and brackets the exact distance.
pub open spec fn fine_distance_bracketed(a: Particle, b: Particle) -> bool {
    let fsq = fine_distance_squared(a, b);
    let d = floor_sqrt(fsq);
    let e = ceil_sqrt(fsq);
    let r = reach(a, b);
    &&& ONE <= d < r * ONE
    &&& d <= e <= r * ONE
    &&& d * d <= fsq <= e * e
    &&& fsq < (d + 1) * (d + 1)
}

/// The fine distance of an overlapping pair with distinct centers is at
/// least one raw step and below the reach, rounded down or up.
pub proof fn lemma_fine_distance(a: Particle, b: Particle)
    requires
        overlapping(a, b),
        offset(a, b) != (0int, 0int),
        reach(a, b) >= 0,
    ensures
        fine_distance_bracketed(a, b),
{
    let (dx, dy) = offset(a, b);
    let dsq = distance_squared(a, b);
    let fsq = fine_distance_squared(a, b);
    let r = reach(a, b);
    assert(dsq >= 1) by (nonlinear_arith)
        requires
            dsq == dx * dx + dy * dy,
            dx != 0 || dy != 0,
    ;
    assert(ONE * ONE <= fsq < (r * ONE) * (r * ONE)) by (nonlinear_arith)
        requires
            fsq == dsq * (ONE * ONE),
            1 <= dsq < r * r,
    ;
    lemma_floor_sqrt_exists(fsq);
    lemma_ceil_sqrt(fsq);
    let d = floor_sqrt(fsq);
    lemma_square_strictly_below(d, r * ONE);
    if d < ONE {
        lemma_square_monotonic(d + 1, ONE as int);
    }
}

/// One coordinate of the offset, in millionths of a raw step, is no larger
/// than the fine distance rounded down.
pub proof fn lemma_fine_offset(x: int, dsq: int, fsq: int, d: int)
    requires
        x * x <= dsq,
        fsq == dsq * (ONE * ONE),
        0 <= d,
        fsq < (d + 1) * (d + 1),
    ensures
        -d <= x * ONE <= d,
{
    assert((x * ONE) * (x * ONE) <= fsq) by (nonlinear_arith)
        requires
            x * x <= dsq,
            fsq == dsq * (ONE * ONE),
    ;
    lemma_square_strictly_below(x * ONE, d + 1);
}

/// An interaction changes positions and velocities only, and leaves a
/// valid pair valid.
pub proof fn lemma_collision_valid(a: Particle, b: Particle)
    requires
        a.valid(),
        b.valid(),
    ensures
        collision(a, b).0.valid(),
        collision(a, b).1.valid(),
{
}

/// Tests a pair for overlap and, if it overlaps, computes its half
/// correction and its contact normal.
fn contact(a: &Particle, b: &Particle) -> (g: Option<((i128, i128), (i128, i128))>)
    requires
        a.valid(),
        b.valid(),
    ensures
        g.is_some() == overlapping(*a, *b),
        g matches Some((c, n)) ==> {
            &&& c.0 == half_correction(*a, *b).0
            &&& c.1 == half_correction(*a, *b).1
            &&& n.0 == contact_normal(*a, *b).0
            &&& n.1 == contact_normal(*a, *b).1
        },
{
    let dx: i128 = b.pos.x as i128 - a.pos.x as i128;
    let dy: i128 = b.pos.y as i128 - a.pos.y as i128;
    let reach: i128 = a.radius as i128 + b.radius as i128;
    proof {
        lemma_product_bound(dx as int, dx as int, 2 * LIMIT, 2 * LIMIT);
        lemma_product_bound(dy as int, dy as int, 2 * LIMIT, 2 * LIMIT);
        lemma_product_bound(reach as int, reach as int, 2 * MAX_RADIUS, 2 * MAX_RADIUS);
        assert(dx * dx >= 0 && dy * dy >= 0) by (nonlinear_arith);
    }
    let dsq: i128 = dx * dx + dy * dy;
    if dsq >= reach * reach {
        return None;
    }
    proof {
        lemma_contact_bounds(*a, *b);
    }
    if dx == 0 && dy == 0 {
        return Some(((divide_away_from_zero(reach, 2), 0), (ONE as i128, 0)));
    }
    proof {
        lemma_product_bound(
            dsq as int,
            ONE * ONE,
            4 * MAX_RADIUS * MAX_RADIUS,
            ONE * ONE,
        );
    }
    let fsq: i128 = dsq * (ONE as i128 * ONE as i128);
    let low: i128 = integer_sqrt(fsq as u128) as i128;
    let depth: i128 = reach * ONE as i128 - low;
    proof {
        lemma_product_bound(low as int, low as int, 2 * MAX_RADIUS * ONE, 2 * MAX_RADIUS * ONE);
        lemma_product_bound(dx as int, depth as int, 2 * MAX_RADIUS, 2 * MAX_RADIUS * ONE);
        lemma_product_bound(dy as int, depth as int, 2 * MAX_RADIUS, 2 * MAX_RADIUS * ONE);
        lemma_product_bound(dx as int, ONE * ONE, 2 * MAX_RADIUS, ONE * ONE);
        lemma_product_bound(dy as int, ONE * ONE, 2 * MAX_RADIUS, ONE * ONE);
    }
    let high: i128 = if low * low == fsq {
        low
    } else {
        low + 1
    };
    let cx: i128 = divide_away_from_zero(dx * depth, 2 * low);
    let cy: i128 = divide_away_from_zero(dy * depth, 2 * low);
    let nx: i128 = divide_toward_zero(dx * (ONE as i128 * ONE as i128), high);
    let ny: i128 = divide_toward_zero(dy * (ONE as i128 * ONE as i128), high);
    Some(((cx, cy), (nx, ny)))
}

/// Resolves the interaction of one pair and returns the new position and
/// velocity of each body, first those of `a`, then those of `b`.
pub fn collide(a: &Particle, b: &Particle) -> (r: ((Vec2, Vec2), (Vec2, Vec2)))
    requires
        a.valid(),
        b.valid(),
    ensures
        collision(*a, *b) == (a.moved(r.0.0, r.0.1), b.moved(r.1.0, r.1.1)),
        r.0.0.in_range(),
        r.0.1.in_range(),
        r.1.0.in_range(),
        r.1.1.in_range(),
{
    let (c, n) = match contact(a, b) {
        None => {
            return ((a.pos, a.vel), (b.pos, b.vel));
        },
        Some(g) => g,
    };
    proof {
        lemma_contact_bounds(*a, *b);
    }
    let pa = Vec2 {
        x: clamp_to_limit(a.pos.x as i128 - c.0),
        y: clamp_to_limit(a.pos.y as i128 - c.1),
    };
    let pb = Vec2 {
        x: clamp_to_limit(b.pos.x as i128 + c.0),
        y: clamp_to_limit(b.pos.y as i128 + c.1),
    };
    let dvx: i128 = b.vel.x as i128 - a.vel.x as i128;
    let dvy: i128 = b.vel.y as i128 - a.vel.y as i128;
    proof {
        lemma_product_bound(dvx as int, n.0 as int, 2 * LIMIT, ONE as int);
        lemma_product_bound(dvy as int, n.1 as int, 2 * LIMIT, ONE as int);
    }
    let vn: i128 = dvx * n.0 + dvy * n.1;
    if vn >= 0 {
        return ((pa, a.vel), (pb, b.vel));
    }
    proof {
        lemma_product_bound((ONE + RESTITUTION) as int, -vn as int, 2 * ONE, 4 * LIMIT * ONE);
        lemma_div_toward_zero_bound((ONE + RESTITUTION) * -vn, ONE * ONE, 8 * LIMIT);
        lemma_div_toward_zero((ONE + RESTITUTION) * -vn, ONE * ONE);
    }
    let j: i128 = divide_toward_zero(
        (ONE as i128 + RESTITUTION as i128) * -vn,
        ONE as i128 * ONE as i128,
    );
    let total: i128 = a.mass as i128 + b.mass as i128;
    proof {
        lemma_product_bound(j as int, b.mass as int, 8 * LIMIT, MAX_MASS as int);
        lemma_product_bound(j as int, a.mass as int, 8 * LIMIT, MAX_MASS as int);
        lemma_share_bound(j as int, b.mass as int, total as int);
        lemma_share_bound(j as int, a.mass as int, total as int);
    }
    let share_a: i128 = j * b.mass as i128 / total;
    let share_b: i128 = j * a.mass as i128 / total;
    proof {
        lemma_product_bound(share_a as int, n.0 as int, 8 * LIMIT, ONE as int);
        lemma_product_bound(share_a as int, n.1 as int, 8 * LIMIT, ONE as int);
        lemma_product_bound(share_b as int, n.0 as int, 8 * LIMIT, ONE as int);
        lemma_product_bound(share_b as int, n.1 as int, 8 * LIMIT, ONE as int);
        lemma_div_toward_zero_bound(share_a * n.0, ONE as int, 8 * LIMIT);
        lemma_div_toward_zero_bound(share_a * n.1, ONE as int, 8 * LIMIT);
        lemma_div_toward_zero_bound(share_b * n.0, ONE as int, 8 * LIMIT);
        lemma_div_toward_zero_bound(share_b * n.1, ONE as int, 8 * LIMIT);
    }
    let kax: i128 = divide_toward_zero(share_a * n.0, ONE as i128);
    let kay: i128 = divide_toward_zero(share_a * n.1, ONE as i128);
    let kbx: i128 = divide_toward_zero(share_b * n.0, ONE as i128);
    let kby: i128 = divide_toward_zero(share_b * n.1, ONE as i128);
    let va = Vec2 {
        x: clamp_to_limit(a.vel.x as i128 - kax),
        y: clamp_to_limit(a.vel.y as i128 - kay),
    };
    let vb = Vec2 {
        x: clamp_to_limit(b.vel.x as i128 + kbx),
        y: clamp_to_limit(b.vel.y as i128 + kby),
    };
    ((pa, va), (pb, vb))
}

} // verus!
