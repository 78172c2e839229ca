use particle_kernel::engine::domain::{
    is_all_valid, Particle, SystemState, MAX_MASS, MAX_RADIUS, MIN_RADIUS,
};
use particle_kernel::math::fixed::{LIMIT, ONE};
use particle_kernel::math::vector::Vec2;

fn unit_particle() -> Particle {
    Particle::new(Vec2::new(0, 0), Vec2::new(0, 0), ONE, String::from("#000000"))
}

#[test]
fn mass_is_the_square_of_the_radius() {
    let p = Particle::new(Vec2::new(1, 2), Vec2::new(3, 4), 3 * ONE, String::from("#6464FF"));
    assert_eq!(p.pos, Vec2::new(1, 2));
    assert_eq!(p.vel, Vec2::new(3, 4));
    assert_eq!(p.radius, 3_000_000);
    assert_eq!(p.mass, 9_000_000);
    assert_eq!(p.color, "#6464FF");
}

#[test]
fn mass_of_a_fractional_radius() {
    let p = Particle::new(Vec2::new(0, 0), Vec2::new(0, 0), 1_500_000, String::new());
    assert_eq!(p.mass, 2_250_000);
    let q = Particle::new(Vec2::new(0, 0), Vec2::new(0, 0), 1_500, String::new());
    assert_eq!(q.mass, 2);
}

#[test]
fn a_radius_that_is_not_positive_is_clamped() {
    let zero = Particle::new(Vec2::new(0, 0), Vec2::new(0, 0), 0, String::new());
    assert_eq!(zero.radius, MIN_RADIUS);
    assert_eq!(zero.mass, 1);
    assert!(zero.is_valid());
    let negative = Particle::new(Vec2::new(0, 0), Vec2::new(0, 0), -5 * ONE, String::new());
    assert_eq!(negative.radius, MIN_RADIUS);
    assert_eq!(negative.mass, 1);
    assert!(negative.is_valid());
}

#[test]
fn a_radius_that_is_too_large_is_clamped() {
    let p = Particle::new(Vec2::new(0, 0), Vec2::new(0, 0), i64::MAX, String::new());
    assert_eq!(p.radius, MAX_RADIUS);
    assert_eq!(p.mass, MAX_MASS);
    assert!(p.is_valid());
}

#[test]
fn coordinates_out_of_range_are_clamped() {
    let p = Particle::new(
        Vec2::new(LIMIT + 1, i64::MIN),
        Vec2::new(i64::MAX, -LIMIT - 1),
        ONE,
        String::new(),
    );
    assert_eq!(p.pos, Vec2::new(LIMIT, -LIMIT));
    assert_eq!(p.vel, Vec2::new(LIMIT, -LIMIT));
    assert!(p.is_valid());
}

#[test]
fn validity_is_checked_field_by_field() {
    assert!(unit_particle().is_valid());
    let mut p = unit_particle();
    p.mass = 0;
    assert!(!p.is_valid());
    let mut p = unit_particle();
    p.mass = MAX_MASS + 1;
    assert!(!p.is_valid());
    let mut p = unit_particle();
    p.radius = MIN_RADIUS - 1;
    assert!(!p.is_valid());
    let mut p = unit_particle();
    p.radius = MAX_RADIUS + 1;
    assert!(!p.is_valid());
    let mut p = unit_particle();
    p.pos.x = LIMIT + 1;
    assert!(!p.is_valid());
    let mut p = unit_particle();
    p.pos.y = -LIMIT - 1;
    assert!(!p.is_valid());
    let mut p = unit_particle();
    p.vel.x = -LIMIT - 1;
    assert!(!p.is_valid());
    let mut p = unit_particle();
    p.vel.y = LIMIT + 1;
    assert!(!p.is_valid());
}

#[test]
fn mass_may_differ_from_the_square_of_the_radius() {
    let mut p = unit_particle();
    p.mass = 7 * ONE;
    assert!(p.is_valid());
}

#[test]
fn a_sequence_is_valid_when_each_particle_is() {
    assert!(is_all_valid(&Vec::new()));
    let mut list = vec![unit_particle(), unit_particle(), unit_particle()];
    assert!(is_all_valid(&list));
    list[2].mass = 0;
    assert!(!is_all_valid(&list));
}

#[test]
fn duplicate_is_an_equal_particle() {
    let p = Particle::new(Vec2::new(1, 2), Vec2::new(3, 4), 2 * ONE, String::from("#C8C8FF"));
    let q = p.duplicate();
    assert_eq!(q.pos, p.pos);
    assert_eq!(q.vel, p.vel);
    assert_eq!(q.radius, p.radius);
    assert_eq!(q.mass, p.mass);
    assert_eq!(q.color, p.color);
}

#[test]
fn capture_copies_every_particle_in_order() {
    let list = vec![
        Particle::new(Vec2::new(1, 1), Vec2::new(0, 0), ONE, String::from("#010101")),
        Particle::new(Vec2::new(2, 2), Vec2::new(5, 6), 2 * ONE, String::from("#020202")),
        Particle::new(Vec2::new(3, 3), Vec2::new(7, 8), 3 * ONE, String::from("#030303")),
    ];
    let snapshot = SystemState::capture(&list, 48_000);
    assert_eq!(snapshot.timestamp, 48_000);
    assert_eq!(snapshot.particles.len(), 3);
    let mut k = 0;
    while k < 3 {
        assert_eq!(snapshot.particles[k].pos, list[k].pos);
        assert_eq!(snapshot.particles[k].vel, list[k].vel);
        assert_eq!(snapshot.particles[k].radius, list[k].radius);
        assert_eq!(snapshot.particles[k].mass, list[k].mass);
        assert_eq!(snapshot.particles[k].color, list[k].color);
        k += 1;
    }
}

#[test]
fn capture_of_nothing_is_empty() {
    let snapshot = SystemState::capture(&Vec::new(), 0);
    assert_eq!(snapshot.timestamp, 0);
    assert!(snapshot.particles.is_empty());
}

#[test]
fn a_snapshot_does_not_follow_later_changes() {
    let mut list = vec![unit_particle()];
    let snapshot = SystemState::capture(&list, 16_000);
    list[0].pos.x = 99;
    assert_eq!(snapshot.particles[0].pos.x, 0);
}
