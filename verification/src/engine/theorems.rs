//! What holds of every interaction and of every tick.

use crate::engine::collision::{
    collision, contact_normal, corrected_positions, distance_squared, dot, fine_distance_squared,
    half_correction, impulse_speed, kicks, lemma_contact_bounds, lemma_fine_offset,
    lemma_share_bound,
    normal_velocity, offset, overlapping, reach, relative_velocity, RESTITUTION,
};
use crate::engine::domain::{all_valid, Particle};
use crate::engine::solver::{
    accelerated, advanced, before_motion, confined, displaced, floor_level, gravity, inside_arena,
    interactions_resolved, left_wall, lemma_advanced, pair_resolved, reflected, right_wall,
    row_resolved, rows_resolved,
};
use crate::math::fixed::{
    ceil_sqrt, div_away_from_zero, div_toward_zero, floor_sqrt, in_range, lemma_div_away_from_zero,
    lemma_div_toward_zero, lemma_product_bound, lemma_square_monotonic, ONE,
};
use vstd::prelude::*;

verus! {

/// The corrected positions of the pair are stored without saturating.
pub open spec fn correction_fits(a: Particle, b: Particle) -> bool {
    let c = half_correction(a, b);
    &&& in_range(a.pos.x - c.0)
    &&& in_range(a.pos.y - c.1)
    &&& in_range(b.pos.x + c.0)
    &&& in_range(b.pos.y + c.1)
}

/// The velocities after the impulse are stored without saturating.
pub open spec fn impulse_fits(a: Particle, b: Particle) -> bool {
    let (ka, kb) = kicks(a, b);
    &&& in_range(a.vel.x - ka.0)
    &&& in_range(a.vel.y - ka.1)
    &&& in_range(b.vel.x + kb.0)
    &&& in_range(b.vel.y + kb.1)
}

/// Non-penetration. After its interaction, an overlapping pair whose
/// corrected positions are stored without saturating is at least as far
/// apart as the sum of its radii.
pub proof fn lemma_correction_separates(a: Particle, b: Particle)
    requires
        a.valid(),
        b.valid(),
        overlapping(a, b),
        correction_fits(a, b),
    ensures
        distance_squared(collision(a, b).0, collision(a, b).1) >= reach(a, b) * reach(a, b),
        !overlapping(collision(a, b).0, collision(a, b).1),
        interactions_resolved(seq![a, b]) == seq![collision(a, b).0, collision(a, b).1],
{
    lemma_two_particles_interact_once(a, b);
    lemma_contact_bounds(a, b);
    let (dx, dy) = offset(a, b);
    let r = reach(a, b);
    let c = half_correction(a, b);
    let (ex, ey) = offset(collision(a, b).0, collision(a, b).1);
    assert(ex == dx + 2 * c.0);
    assert(ey == dy + 2 * c.1);
    if dx == 0 && dy == 0 {
        lemma_div_away_from_zero(r, 2);
        assert(ex >= r);
        lemma_square_monotonic(r, ex);
        assert(ey * ey == 0);
    } else {
        let dsq = distance_squared(a, b);
        let fsq = fine_distance_squared(a, b);
        let d = floor_sqrt(fsq);
        let depth = r * ONE - d;
        let full = r * ONE;
        lemma_stretch(dx, c.0, d, depth);
        lemma_stretch(dy, c.1, d, depth);
        lemma_square_of_product(ex, d);
        lemma_square_of_product(ey, d);
        lemma_square_of_product(dx, full);
        lemma_square_of_product(dy, full);
        lemma_square_of_product(r, ONE as int);
        let e2 = ex * ex + ey * ey;
        assert(e2 * (d * d) == (ex * ex) * (d * d) + (ey * ey) * (d * d)) by (nonlinear_arith)
            requires
                e2 == ex * ex + ey * ey,
        ;
        assert(dsq * (full * full) == (dx * dx) * (full * full) + (dy * dy) * (full * full))
            by (nonlinear_arith)
            requires
                dsq == dx * dx + dy * dy,
        ;
        assert(dsq * (full * full) == fsq * (r * r)) by (nonlinear_arith)
            requires
                full * full == (r * r) * (ONE * ONE),
                fsq == dsq * (ONE * ONE),
        ;
        assert(fsq * (r * r) >= (d * d) * (r * r)) by (nonlinear_arith)
            requires
                fsq >= d * d,
                r * r >= 0,
        ;
        assert((d * d) * (r * r) == (r * r) * (d * d)) by (nonlinear_arith);
        assert(d * d > 0) by (nonlinear_arith)
            requires
                d > 0,
        ;
        lemma_cancel_positive_factor(e2, r * r, d * d);
    }
}

/// The penetration depth of an overlapping pair with distinct centers, in
/// millionths of a raw step: the reach less the distance rounded down.
pub open spec fn fine_depth(a: Particle, b: Particle) -> int {
    reach(a, b) * ONE - floor_sqrt(fine_distance_squared(a, b))
}

/// Even split. The correction moves each body of an overlapping pair with
/// distinct centers, in each coordinate, by less than half the penetration
/// depth plus one raw step, whatever the masses.
pub proof fn lemma_correction_is_half_the_depth(a: Particle, b: Particle)
    requires
        a.valid(),
        b.valid(),
        overlapping(a, b),
        offset(a, b) != (0int, 0int),
    ensures
        -(fine_depth(a, b) + 2 * ONE) < 2 * ONE * half_correction(a, b).0 < fine_depth(a, b) + 2
            * ONE,
        -(fine_depth(a, b) + 2 * ONE) < 2 * ONE * half_correction(a, b).1 < fine_depth(a, b) + 2
            * ONE,
{
    lemma_contact_bounds(a, b);
    let (dx, dy) = offset(a, b);
    let fsq = fine_distance_squared(a, b);
    let d = floor_sqrt(fsq);
    let depth = fine_depth(a, b);
    let c = half_correction(a, b);
    lemma_square_of_product(dx, 1);
    lemma_square_of_product(dy, 1);
    lemma_fine_offset(dx, distance_squared(a, b), fsq, d);
    lemma_fine_offset(dy, distance_squared(a, b), fsq, d);
    lemma_half_step(dx, c.0, d, depth);
    lemma_half_step(dy, c.1, d, depth);
}

/// One coordinate of the correction is less than half the depth plus one
/// step.
proof fn lemma_half_step(x: int, c: int, d: int, depth: int)
    requires
        d > 0,
        depth > 0,
        -d <= x * ONE <= d,
        c == div_away_from_zero(x * depth, 2 * d),
    ensures
        -(depth + 2 * ONE) < 2 * ONE * c < depth + 2 * ONE,
{
    lemma_div_away_from_zero(x * depth, 2 * d);
    lemma_product_bound(x * ONE, depth, d, depth);
    assert((x * ONE) * depth == (x * depth) * ONE) by (nonlinear_arith);
    assert((c * (2 * d)) * ONE == (2 * ONE * c) * d) by (nonlinear_arith);
    assert((depth + 2 * ONE) * d == d * depth + (2 * d) * ONE) by (nonlinear_arith);
    let t = x * depth;
    let q = c * (2 * d);
    if x * depth >= 0 {
        assert(q * ONE < t * ONE + (2 * d) * ONE) by (nonlinear_arith)
            requires
                q < t + 2 * d,
        ;
        assert(q * ONE >= 0) by (nonlinear_arith)
            requires
                q >= 0,
        ;
        assert(2 * ONE * c < depth + 2 * ONE) by (nonlinear_arith)
            requires
                (2 * ONE * c) * d < (depth + 2 * ONE) * d,
                d > 0,
        ;
        assert(2 * ONE * c >= 0) by (nonlinear_arith)
            requires
                (2 * ONE * c) * d >= 0,
                d > 0,
        ;
    } else {
        assert(q * ONE > t * ONE - (2 * d) * ONE) by (nonlinear_arith)
            requires
                q > t - 2 * d,
        ;
        assert(q * ONE <= 0) by (nonlinear_arith)
            requires
                q <= 0,
        ;
        assert(-((depth + 2 * ONE) * d) == (-(depth + 2 * ONE)) * d) by (nonlinear_arith);
        assert(-(depth + 2 * ONE) < 2 * ONE * c) by (nonlinear_arith)
            requires
                (2 * ONE * c) * d > (-(depth + 2 * ONE)) * d,
                d > 0,
        ;
        assert(2 * ONE * c <= 0) by (nonlinear_arith)
            requires
                (2 * ONE * c) * d <= 0,
                d > 0,
        ;
    }
}

/// The interaction phase on a system of two particles is one interaction
/// of that pair.
pub proof fn lemma_two_particles_interact_once(a: Particle, b: Particle)
    ensures
        interactions_resolved(seq![a, b]) == seq![collision(a, b).0, collision(a, b).1],
{
    let s = seq![a, b];
    assert(rows_resolved(s, 0) == s);
    assert(row_resolved(s, 0, 1) == s);
    assert(row_resolved(s, 0, 2) == pair_resolved(s, 0, 1));
    assert(rows_resolved(s, 1) == row_resolved(rows_resolved(s, 0), 0, 2));
    let t = rows_resolved(s, 1);
    assert(row_resolved(t, 1, 2) == t);
    assert(rows_resolved(s, 2) == row_resolved(rows_resolved(s, 1), 1, 2));
    assert(pair_resolved(s, 0, 1) =~= seq![collision(a, b).0, collision(a, b).1]);
}

/// A pair that overlaps without approaching along the contact normal, such
/// as two bodies moving in parallel, is pushed apart and keeps its
/// velocities.
pub proof fn lemma_resting_contact_keeps_velocities(a: Particle, b: Particle)
    requires
        overlapping(a, b),
        normal_velocity(a, b) >= 0,
    ensures
        collision(a, b).0 == a.moved(corrected_positions(a, b).0, a.vel),
        collision(a, b).1 == b.moved(corrected_positions(a, b).1, b.vel),
        interactions_resolved(seq![a, b]) == seq![
            a.moved(corrected_positions(a, b).0, a.vel),
            b.moved(corrected_positions(a, b).1, b.vel),
        ],
{
    lemma_two_particles_interact_once(a, b);
}

/// Two bodies with the same velocity do not approach each other.
pub proof fn lemma_parallel_motion_is_resting(a: Particle, b: Particle)
    requires
        a.vel == b.vel,
    ensures
        normal_velocity(a, b) == 0,
{
    let n = contact_normal(a, b);
    assert(0 * n.0 + 0 * n.1 == 0) by (nonlinear_arith);
}

/// The linear momentum of the pair: the sum of mass times velocity.
pub open spec fn momentum(a: Particle, b: Particle) -> (int, int) {
    (a.mass * a.vel.x + b.mass * b.vel.x, a.mass * a.vel.y + b.mass * b.vel.y)
}

/// The larger of two masses.
pub open spec fn heavier(ma: int, mb: int) -> int {
    if ma >= mb {
        ma
    } else {
        mb
    }
}

/// Momentum conservation. An interaction whose outcome is stored without
/// saturating changes each coordinate of the pair's momentum by less than
/// twice the larger mass, which is what rounding each body's velocity
/// change to a whole step can cost. Between bodies of equal mass it
/// conserves the momentum exactly.
pub proof fn lemma_impulse_conserves_momentum(a: Particle, b: Particle)
    requires
        a.valid(),
        b.valid(),
        overlapping(a, b),
        impulse_fits(a, b),
    ensures
        ({
            let before = momentum(a, b);
            let after = momentum(collision(a, b).0, collision(a, b).1);
            let slack = 2 * heavier(a.mass as int, b.mass as int);
            &&& -slack < after.0 - before.0 < slack
            &&& -slack < after.1 - before.1 < slack
            &&& a.mass == b.mass ==> after == before
        }),
        interactions_resolved(seq![a, b]) == seq![collision(a, b).0, collision(a, b).1],
{
    lemma_two_particles_interact_once(a, b);
    if normal_velocity(a, b) < 0 {
        lemma_contact_bounds(a, b);
        let n = contact_normal(a, b);
        let j = impulse_speed(a, b);
        lemma_div_toward_zero((ONE + RESTITUTION) * -normal_velocity(a, b), ONE * ONE);
        assert((ONE + RESTITUTION) * -normal_velocity(a, b) >= 0) by (nonlinear_arith)
            requires
                -normal_velocity(a, b) >= 0,
        ;
        let (ka, kb) = kicks(a, b);
        let (p, q) = collision(a, b);
        lemma_kick_balance(j, a.mass as int, b.mass as int, n.0);
        lemma_kick_balance(j, a.mass as int, b.mass as int, n.1);
        assert(a.mass * (a.vel.x - ka.0) + b.mass * (b.vel.x + kb.0) - (a.mass * a.vel.x + b.mass
            * b.vel.x) == b.mass * kb.0 - a.mass * ka.0) by (nonlinear_arith);
        assert(a.mass * (a.vel.y - ka.1) + b.mass * (b.vel.y + kb.1) - (a.mass * a.vel.y + b.mass
            * b.vel.y) == b.mass * kb.1 - a.mass * ka.1) by (nonlinear_arith);
    }
}

/// One coordinate of the two velocity changes of an impulse: weighted by
/// the masses they differ by less than twice the larger mass, and for equal
/// masses they are equal.
proof fn lemma_kick_balance(j: int, ma: int, mb: int, nc: int)
    requires
        j >= 0,
        ma >= 1,
        mb >= 1,
        -ONE <= nc <= ONE,
    ensures
        ({
            let sa = j * mb / (ma + mb);
            let sb = j * ma / (ma + mb);
            let ka = div_toward_zero(sa * nc, ONE as int);
            let kb = div_toward_zero(sb * nc, ONE as int);
            &&& -2 * heavier(ma, mb) < mb * kb - ma * ka < 2 * heavier(ma, mb)
            &&& ma == mb ==> ka == kb
        }),
{
    let m = ma + mb;
    let sa = j * mb / m;
    let sb = j * ma / m;
    let ka = div_toward_zero(sa * nc, ONE as int);
    let kb = div_toward_zero(sb * nc, ONE as int);
    lemma_share_bound(j, mb, m);
    lemma_share_bound(j, ma, m);
    vstd::arithmetic::div_mod::lemma_fundamental_div_mod(j * mb, m);
    vstd::arithmetic::div_mod::lemma_fundamental_div_mod(j * ma, m);
    vstd::arithmetic::div_mod::lemma_mod_bound(j * mb, m);
    vstd::arithmetic::div_mod::lemma_mod_bound(j * ma, m);
    let ra = (j * mb) % m;
    let rb = (j * ma) % m;
    let w = ma * sa - mb * sb;
    assert(m * w == mb * rb - ma * ra) by {
        lemma_weighted_sum(ma, m * sa, ra);
        lemma_weighted_sum(mb, m * sb, rb);
        lemma_weighted_difference(m, ma * sa, mb * sb);
        assert(ma * (j * mb) == mb * (j * ma)) by (nonlinear_arith);
        assert(ma * (m * sa) == m * (ma * sa)) by (nonlinear_arith);
        assert(mb * (m * sb) == m * (mb * sb)) by (nonlinear_arith);
    }
    assert(-ma < w < mb) by {
        assert(0 <= mb * rb < mb * m) by (nonlinear_arith)
            requires
                0 <= rb < m,
                mb >= 1,
        ;
        assert(0 <= ma * ra < ma * m) by (nonlinear_arith)
            requires
                0 <= ra < m,
                ma >= 1,
        ;
        assert(w < mb) by (nonlinear_arith)
            requires
                m * w < mb * m,
                m > 0,
        ;
        assert(-ma < w) by (nonlinear_arith)
            requires
                m * w > -(ma * m),
                m > 0,
        ;
    }
    lemma_div_toward_zero(sa * nc, ONE as int);
    lemma_div_toward_zero(sb * nc, ONE as int);
    let ea = sa * nc - ka * ONE;
    let eb = sb * nc - kb * ONE;
    assert((mb * kb - ma * ka) * ONE == ma * ea - mb * eb - w * nc) by {
        lemma_weighted_difference(ma, sa * nc, ka * ONE);
        lemma_weighted_difference(mb, sb * nc, kb * ONE);
        lemma_regroup(ma, sa, nc);
        lemma_regroup(mb, sb, nc);
        lemma_regroup(ma, ka, ONE as int);
        lemma_regroup(mb, kb, ONE as int);
        lemma_difference_times(ma * sa, mb * sb, nc);
        lemma_difference_times(mb * kb, ma * ka, ONE as int);
    }
    let h = heavier(ma, mb);
    if nc >= 0 {
        assert(sa * nc >= 0 && sb * nc >= 0) by (nonlinear_arith)
            requires
                sa >= 0,
                sb >= 0,
                nc >= 0,
        ;
        assert(-(h * ONE) < ma * ea - mb * eb < h * ONE) by (nonlinear_arith)
            requires
                0 <= ea < ONE,
                0 <= eb < ONE,
                1 <= ma <= h,
                1 <= mb <= h,
        ;
        assert(-(h * ONE) <= w * nc <= h * ONE) by (nonlinear_arith)
            requires
                -h < w < h,
                0 <= nc <= ONE,
        ;
    } else {
        assert(sa * nc <= 0 && sb * nc <= 0) by (nonlinear_arith)
            requires
                sa >= 0,
                sb >= 0,
                nc <= 0,
        ;
        assert(-(h * ONE) < ma * ea - mb * eb < h * ONE) by (nonlinear_arith)
            requires
                -ONE < ea <= 0,
                -ONE < eb <= 0,
                1 <= ma <= h,
                1 <= mb <= h,
        ;
        assert(-(h * ONE) <= w * nc <= h * ONE) by (nonlinear_arith)
            requires
                -h < w < h,
                -ONE <= nc <= 0,
        ;
    }
    assert(-2 * h < mb * kb - ma * ka < 2 * h) by (nonlinear_arith)
        requires
            -(2 * (h * ONE)) < (mb * kb - ma * ka) * ONE < 2 * (h * ONE),
    ;
}

/// Twice the kinetic energy of a particle: its mass times its squared
/// speed.
pub open spec fn kinetic_energy(p: Particle) -> int {
    p.mass * (p.vel.x * p.vel.x + p.vel.y * p.vel.y)
}

/// A bounce keeps the sign opposite and the magnitude no larger.
proof fn lemma_reflected_is_slower(v: i64)
    requires
        in_range(v as int),
    ensures
        reflected(v) * reflected(v) <= v * v,
        v >= 0 ==> -v <= reflected(v) <= 0,
        v <= 0 ==> 0 <= reflected(v) <= -v,
{
    lemma_div_toward_zero(v * -RESTITUTION, ONE as int);
    let r = div_toward_zero(v * -RESTITUTION, ONE as int);
    if v >= 0 {
        assert(v * -RESTITUTION <= 0 && v * -RESTITUTION >= -v * ONE) by (nonlinear_arith)
            requires
                v >= 0,
        ;
        assert(r >= -v) by (nonlinear_arith)
            requires
                r * ONE >= -v * ONE,
        ;
        lemma_square_monotonic(-r, v as int);
        assert((-r) * (-r) == r * r) by (nonlinear_arith);
    } else {
        assert(v * -RESTITUTION >= 0 && v * -RESTITUTION <= -v * ONE) by (nonlinear_arith)
            requires
                v <= 0,
        ;
        assert(r <= -v) by (nonlinear_arith)
            requires
                r * ONE <= -v * ONE,
        ;
        lemma_square_monotonic(r, -v);
        assert((-v) * (-v) == v * v) by (nonlinear_arith);
    }
}

/// Energy at a boundary. The boundary phase never raises the kinetic
/// energy of a particle.
pub proof fn lemma_bounce_never_gains_energy(p: Particle)
    requires
        p.valid(),
    ensures
        kinetic_energy(confined(p)) <= kinetic_energy(p),
{
    lemma_reflected_is_slower(p.vel.x);
    lemma_reflected_is_slower(p.vel.y);
    let q = confined(p);
    assert(q.vel.x * q.vel.x <= p.vel.x * p.vel.x);
    assert(q.vel.y * q.vel.y <= p.vel.y * p.vel.y);
    assert(kinetic_energy(q) <= kinetic_energy(p)) by (nonlinear_arith)
        requires
            q.mass == p.mass,
            p.mass >= 0,
            q.vel.x * q.vel.x + q.vel.y * q.vel.y <= p.vel.x * p.vel.x + p.vel.y * p.vel.y,
            kinetic_energy(q) == q.mass * (q.vel.x * q.vel.x + q.vel.y * q.vel.y),
            kinetic_energy(p) == p.mass * (p.vel.x * p.vel.x + p.vel.y * p.vel.y),
    ;
}

/// The contact normal of an overlapping pair is at most one long.
pub proof fn lemma_normal_is_short(a: Particle, b: Particle)
    requires
        a.valid(),
        b.valid(),
        overlapping(a, b),
    ensures
        dot(contact_normal(a, b), contact_normal(a, b)) <= ONE * ONE,
{
    lemma_contact_bounds(a, b);
    let (dx, dy) = offset(a, b);
    let n = contact_normal(a, b);
    if dx == 0 && dy == 0 {
        assert(n.1 * n.1 == 0);
    } else {
        let dsq = distance_squared(a, b);
        let fsq = fine_distance_squared(a, b);
        let e = ceil_sqrt(fsq);
        let unit = ONE * ONE;
        lemma_shrink(dx, n.0, e);
        lemma_shrink(dy, n.1, e);
        lemma_square_of_product(n.0, e);
        lemma_square_of_product(n.1, e);
        lemma_square_of_product(dx, unit);
        lemma_square_of_product(dy, unit);
        let n2 = n.0 * n.0 + n.1 * n.1;
        assert(n2 * (e * e) == (n.0 * n.0) * (e * e) + (n.1 * n.1) * (e * e)) by (nonlinear_arith)
            requires
                n2 == n.0 * n.0 + n.1 * n.1,
        ;
        assert(fsq * unit == (dx * dx) * (unit * unit) + (dy * dy) * (unit * unit))
            by (nonlinear_arith)
            requires
                fsq == (dx * dx + dy * dy) * unit,
        ;
        assert(fsq * unit <= (e * e) * unit) by (nonlinear_arith)
            requires
                fsq <= e * e,
                unit >= 0,
        ;
        assert((e * e) * unit == unit * (e * e)) by (nonlinear_arith);
        assert(e * e > 0) by (nonlinear_arith)
            requires
                e > 0,
        ;
        lemma_cancel_positive_factor(unit, n2, e * e);
    }
}

/// One coordinate of the normal: times the fine distance it is no longer
/// than the offset in the same scale.
proof fn lemma_shrink(x: int, nc: int, e: int)
    requires
        e > 0,
        nc == div_toward_zero(x * (ONE * ONE), e),
    ensures
        (nc * e) * (nc * e) <= (x * (ONE * ONE)) * (x * (ONE * ONE)),
{
    let fine = x * (ONE * ONE);
    lemma_div_toward_zero(fine, e);
    if fine >= 0 {
        lemma_square_monotonic(nc * e, fine);
    } else {
        lemma_square_monotonic(-(nc * e), -fine);
        assert((-(nc * e)) * (-(nc * e)) == (nc * e) * (nc * e)) by (nonlinear_arith);
        assert((-fine) * (-fine) == fine * fine) by (nonlinear_arith);
    }
}

/// Energy in a collision. An impulse whose outcome is stored without
/// saturating never speeds the approach up: the relative velocity along
/// the contact normal ends between its value before and that value
/// reversed and scaled by the restitution. So the kinetic energy of the
/// relative motion along the normal does not grow.
pub proof fn lemma_impulse_never_gains_energy(a: Particle, b: Particle)
    requires
        a.valid(),
        b.valid(),
        overlapping(a, b),
        normal_velocity(a, b) < 0,
        impulse_fits(a, b),
    ensures
        ({
            let before = normal_velocity(a, b);
            let after = dot(
                relative_velocity(collision(a, b).0, collision(a, b).1),
                contact_normal(a, b),
            );
            &&& before <= after
            &&& after * ONE <= RESTITUTION * -before
            &&& after * after <= before * before
        }),
{
    lemma_contact_bounds(a, b);
    lemma_normal_is_short(a, b);
    let n = contact_normal(a, b);
    let before = normal_velocity(a, b);
    let j = impulse_speed(a, b);
    let m = a.mass + b.mass;
    let sa = j * b.mass / m;
    let sb = j * a.mass / m;
    let (ka, kb) = kicks(a, b);
    let (p, q) = collision(a, b);
    let after = dot(relative_velocity(p, q), n);
    let dv = relative_velocity(a, b);
    assert((ONE + RESTITUTION) * -before >= 0) by (nonlinear_arith)
        requires
            -before >= 0,
    ;
    lemma_div_toward_zero((ONE + RESTITUTION) * -before, ONE * ONE);
    lemma_share_bound(j, b.mass as int, m);
    lemma_share_bound(j, a.mass as int, m);
    vstd::arithmetic::div_mod::lemma_fundamental_div_mod(j * b.mass, m);
    vstd::arithmetic::div_mod::lemma_fundamental_div_mod(j * a.mass, m);
    vstd::arithmetic::div_mod::lemma_mod_bound(j * b.mass, m);
    vstd::arithmetic::div_mod::lemma_mod_bound(j * a.mass, m);
    assert(sa + sb <= j) by (nonlinear_arith)
        requires
            m * sa <= j * b.mass,
            m * sb <= j * a.mass,
            m == a.mass + b.mass,
            m > 0,
    ;
    lemma_kick_along(sa, n.0);
    lemma_kick_along(sa, n.1);
    lemma_kick_along(sb, n.0);
    lemma_kick_along(sb, n.1);
    let gain = after - before;
    assert(gain == ka.0 * n.0 + kb.0 * n.0 + ka.1 * n.1 + kb.1 * n.1) by {
        assert(after == (dv.0 + kb.0 + ka.0) * n.0 + (dv.1 + kb.1 + ka.1) * n.1);
        lemma_three_times(dv.0, kb.0, ka.0, n.0);
        lemma_three_times(dv.1, kb.1, ka.1, n.1);
    }
    let n2 = n.0 * n.0 + n.1 * n.1;
    assert(n2 == dot(n, n));
    assert(n.0 * n.0 >= 0 && n.1 * n.1 >= 0) by (nonlinear_arith);
    assert(0 <= gain * ONE <= (sa + sb) * n2) by {
        lemma_four_times(ka.0 * n.0, kb.0 * n.0, ka.1 * n.1, kb.1 * n.1, ONE as int);
        lemma_weighted_sum(sa, n.0 * n.0, n.1 * n.1);
        lemma_weighted_sum(sb, n.0 * n.0, n.1 * n.1);
        assert((sa + sb) * n2 == sa * n2 + sb * n2) by (nonlinear_arith);
    }
    assert((sa + sb) * n2 <= j * (ONE * ONE)) by (nonlinear_arith)
        requires
            0 <= sa + sb <= j,
            0 <= n2 <= ONE * ONE,
    ;
    assert(gain >= 0) by (nonlinear_arith)
        requires
            gain * ONE >= 0,
    ;
    assert(after * ONE <= RESTITUTION * -before) by (nonlinear_arith)
        requires
            gain == after - before,
            gain * ONE <= j * (ONE * ONE),
            j * (ONE * ONE) <= (ONE + RESTITUTION) * -before,
    ;
    assert(after * after <= before * before) by (nonlinear_arith)
        requires
            before <= after,
            after * ONE <= RESTITUTION * -before,
            before < 0,
    ;
}

/// Twice the kinetic energy of the pair's motion along the direction `n`.
pub open spec fn normal_energy(a: Particle, b: Particle, n: (int, int)) -> int {
    let va = dot((a.vel.x as int, a.vel.y as int), n);
    let vb = dot((b.vel.x as int, b.vel.y as int), n);
    a.mass * (va * va) + b.mass * (vb * vb)
}

/// Energy in a collision of equal masses. Between bodies of equal mass, an
/// interaction whose outcome is stored without saturating never raises the
/// kinetic energy of the pair's motion along the contact normal.
pub proof fn lemma_equal_masses_never_gain_normal_energy(a: Particle, b: Particle)
    requires
        a.valid(),
        b.valid(),
        overlapping(a, b),
        impulse_fits(a, b),
        a.mass == b.mass,
    ensures
        normal_energy(collision(a, b).0, collision(a, b).1, contact_normal(a, b)) <= normal_energy(
            a,
            b,
            contact_normal(a, b),
        ),
{
    if normal_velocity(a, b) < 0 {
        lemma_impulse_never_gains_energy(a, b);
        lemma_contact_bounds(a, b);
        let n = contact_normal(a, b);
        let j = impulse_speed(a, b);
        lemma_div_toward_zero((ONE + RESTITUTION) * -normal_velocity(a, b), ONE * ONE);
        assert((ONE + RESTITUTION) * -normal_velocity(a, b) >= 0) by (nonlinear_arith)
            requires
                -normal_velocity(a, b) >= 0,
        ;
        lemma_kick_balance(j, a.mass as int, b.mass as int, n.0);
        lemma_kick_balance(j, a.mass as int, b.mass as int, n.1);
        let (ka, kb) = kicks(a, b);
        assert(ka == kb);
        let (p, q) = collision(a, b);
        let g = ka.0 * n.0 + ka.1 * n.1;
        let va = dot((a.vel.x as int, a.vel.y as int), n);
        let vb = dot((b.vel.x as int, b.vel.y as int), n);
        let wa = dot((p.vel.x as int, p.vel.y as int), n);
        let wb = dot((q.vel.x as int, q.vel.y as int), n);
        lemma_difference_times(a.vel.x as int, ka.0, n.0);
        lemma_difference_times(a.vel.y as int, ka.1, n.1);
        lemma_difference_times(b.vel.x as int, -ka.0, n.0);
        lemma_difference_times(b.vel.y as int, -ka.1, n.1);
        assert((-ka.0) * n.0 == -(ka.0 * n.0) && (-ka.1) * n.1 == -(ka.1 * n.1))
            by (nonlinear_arith);
        assert(wa == va - g);
        assert(wb == vb + g);
        lemma_difference_times(b.vel.x as int, a.vel.x as int, n.0);
        lemma_difference_times(b.vel.y as int, a.vel.y as int, n.1);
        lemma_difference_times(q.vel.x as int, p.vel.x as int, n.0);
        lemma_difference_times(q.vel.y as int, p.vel.y as int, n.1);
        let before = normal_velocity(a, b);
        let after = dot(relative_velocity(p, q), n);
        assert(before == vb - va);
        assert(after == wb - wa);
        lemma_sum_of_squares(va, vb);
        lemma_sum_of_squares(wa, wb);
        let m = a.mass as int;
        assert(m * (wa * wa) + m * (wb * wb) <= m * (va * va) + m * (vb * vb)) by (nonlinear_arith)
            requires
                m >= 0,
                wa * wa + wb * wb <= va * va + vb * vb,
        ;
    }
}

/// Twice the sum of two squares is the square of the sum plus the square
/// of the difference.
proof fn lemma_sum_of_squares(x: int, y: int)
    ensures
        2 * (x * x + y * y) == (x + y) * (x + y) + (y - x) * (y - x),
{
    assert(2 * (x * x + y * y) == (x + y) * (x + y) + (y - x) * (y - x)) by (nonlinear_arith);
}

/// One coordinate of a velocity change points along that coordinate of the
/// normal and is no larger than the share times it.
proof fn lemma_kick_along(share: int, nc: int)
    requires
        share >= 0,
    ensures
        0 <= (div_toward_zero(share * nc, ONE as int) * nc) * ONE <= share * (nc * nc),
{
    lemma_div_toward_zero(share * nc, ONE as int);
    let k = div_toward_zero(share * nc, ONE as int);
    if nc >= 0 {
        assert(share * nc >= 0) by (nonlinear_arith)
            requires
                share >= 0,
                nc >= 0,
        ;
        assert(0 <= (k * nc) * ONE <= share * (nc * nc)) by (nonlinear_arith)
            requires
                0 <= k * ONE <= share * nc,
                nc >= 0,
        ;
    } else {
        assert(share * nc <= 0) by (nonlinear_arith)
            requires
                share >= 0,
                nc <= 0,
        ;
        assert(0 <= (k * nc) * ONE <= share * (nc * nc)) by (nonlinear_arith)
            requires
                0 >= k * ONE >= share * nc,
                nc <= 0,
        ;
    }
}

/// Boundary containment. The motion phase of a tick finds every particle
/// inside the arena and moves it by its velocity: unless that sum
/// saturates, a particle ends the tick one displacement away from a point
/// between the walls and not below the floor.
pub proof fn lemma_tick_ends_one_step_from_arena(s: Seq<Particle>, k: int)
    requires
        all_valid(s),
        0 <= k < s.len(),
    ensures
        ({
            let q = before_motion(s)[k];
            let p = advanced(s)[k];
            &&& inside_arena(q)
            &&& p.vel == q.vel
            &&& p.pos == q.pos.plus(q.vel)
            &&& in_range(q.pos.x + q.vel.x) ==> left_wall() <= p.pos.x - p.vel.x <= right_wall()
            &&& in_range(q.pos.y + q.vel.y) ==> p.pos.y - p.vel.y <= floor_level()
        }),
{
    lemma_advanced(s);
}

/// A particle alone in the arena. Its tick is gravity, then the
/// boundaries, then motion: while it is inside the arena its velocity grows
/// by gravity; on the tick that finds it below the floor its vertical
/// velocity, gravity included, bounces once.
pub proof fn lemma_lone_particle_tick(p: Particle)
    ensures
        advanced(seq![p]) == seq![displaced(confined(accelerated(p)))],
        inside_arena(p) ==> advanced(seq![p])[0].vel == p.vel.plus(gravity()),
        p.pos.y > floor_level() ==> advanced(seq![p])[0].vel.y == reflected(
            p.vel.plus(gravity()).y,
        ),
{
    let s = seq![p];
    let s1 = s.map_values(|q: Particle| accelerated(q));
    assert(s1 =~= seq![accelerated(p)]);
    assert(rows_resolved(s1, 0) == s1);
    assert(row_resolved(s1, 0, 1) == s1);
    assert(rows_resolved(s1, 1) == row_resolved(rows_resolved(s1, 0), 0, 1));
    assert(interactions_resolved(s1) == s1);
    let s3 = s1.map_values(|q: Particle| confined(q));
    assert(s3 =~= seq![confined(accelerated(p))]);
    assert(s3.map_values(|q: Particle| displaced(q)) =~= seq![
        displaced(confined(accelerated(p))),
    ]);
}

/// A factor distributes over a sum.
proof fn lemma_weighted_sum(m: int, x: int, y: int)
    ensures
        m * (x + y) == m * x + m * y,
{
    assert(m * (x + y) == m * x + m * y) by (nonlinear_arith);
}

/// A sum of three terms distributes over a factor.
proof fn lemma_three_times(x: int, y: int, z: int, f: int)
    ensures
        (x + y + z) * f == x * f + y * f + z * f,
{
    assert((x + y + z) * f == x * f + y * f + z * f) by (nonlinear_arith);
}

/// A sum of four terms distributes over a factor.
proof fn lemma_four_times(x: int, y: int, z: int, w: int, f: int)
    ensures
        (x + y + z + w) * f == x * f + y * f + z * f + w * f,
{
    assert((x + y + z + w) * f == x * f + y * f + z * f + w * f) by (nonlinear_arith);
}

/// A factor distributes over a difference.
proof fn lemma_weighted_difference(m: int, x: int, y: int)
    ensures
        m * (x - y) == m * x - m * y,
{
    assert(m * (x - y) == m * x - m * y) by (nonlinear_arith);
}

/// A difference distributes over a factor.
proof fn lemma_difference_times(x: int, y: int, f: int)
    ensures
        (x - y) * f == x * f - y * f,
{
    assert((x - y) * f == x * f - y * f) by (nonlinear_arith);
}

/// Products may be regrouped.
proof fn lemma_regroup(x: int, y: int, z: int)
    ensures
        x * (y * z) == (x * y) * z,
{
    assert(x * (y * z) == (x * y) * z) by (nonlinear_arith);
}

/// The square of a product is the product of the squares.
proof fn lemma_square_of_product(x: int, y: int)
    ensures
        (x * y) * (x * y) == (x * x) * (y * y),
        x * x >= 0,
{
    assert((x * y) * (x * y) == (x * x) * (y * y)) by (nonlinear_arith);
    assert(x * x >= 0) by (nonlinear_arith);
}

/// An inequality between two multiples of a positive factor holds between
/// the numbers multiplied.
proof fn lemma_cancel_positive_factor(x: int, y: int, f: int)
    requires
        f > 0,
        x * f >= y * f,
    ensures
        x >= y,
{
    assert(x >= y) by (nonlinear_arith)
        requires
            f > 0,
            x * f >= y * f,
    ;
}

/// One coordinate of the correction: moving both bodies by `c` stretches
/// the offset `x` by at least the factor `(d + depth) / d`, where `d` is
/// the fine distance and `depth` the fine penetration depth.
proof fn lemma_stretch(x: int, c: int, d: int, depth: int)
    requires
        d > 0,
        depth >= 0,
        c == div_away_from_zero(x * depth, 2 * d),
    ensures
        ((x + 2 * c) * d) * ((x + 2 * c) * d) >= (x * (d + depth)) * (x * (d + depth)),
{
    lemma_div_away_from_zero(x * depth, 2 * d);
    let y = x + 2 * c;
    assert(y * d == x * d + c * (2 * d)) by (nonlinear_arith)
        requires
            y == x + 2 * c,
    ;
    assert(x * (d + depth) == x * d + x * depth) by (nonlinear_arith);
    if x >= 0 {
        assert(x * depth >= 0) by (nonlinear_arith)
            requires
                x >= 0,
                depth >= 0,
        ;
        assert(x * (d + depth) >= 0) by (nonlinear_arith)
            requires
                x >= 0,
                d + depth >= 0,
        ;
        lemma_square_monotonic(x * (d + depth), y * d);
    } else {
        assert(x * depth <= 0) by (nonlinear_arith)
            requires
                x <= 0,
                depth >= 0,
        ;
        assert(x * (d + depth) <= 0) by (nonlinear_arith)
            requires
                x <= 0,
                d + depth >= 0,
        ;
        lemma_square_monotonic(-(x * (d + depth)), -(y * d));
        assert((-(x * (d + depth))) * (-(x * (d + depth))) == (x * (d + depth)) * (x * (d + depth)))
            by (nonlinear_arith);
        assert((-(y * d)) * (-(y * d)) == (y * d) * (y * d)) by (nonlinear_arith);
    }
}

} // verus!
