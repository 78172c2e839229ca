use particle_kernel::engine::domain::Particle;
use particle_kernel::interface::seeding::{
    format_color, initialize_system, seed_particle, SEED_CHANNEL_HIGH, SEED_CHANNEL_LOW,
    SEED_RADIUS_HIGH, SEED_RADIUS_LOW, SEED_X_HIGH, SEED_X_LOW, SEED_Y_HIGH, SEED_Y_LOW,
};
use particle_kernel::math::fixed::ONE;
use particle_kernel::math::vector::Vec2;

fn channel(color: &str, from: usize) -> i64 {
    i64::from_str_radix(&color[from..from + 2], 16).unwrap()
}

fn check_seeded(p: &Particle) {
    assert!(p.is_valid());
    assert!(SEED_RADIUS_LOW <= p.radius && p.radius < SEED_RADIUS_HIGH);
    assert!(SEED_X_LOW <= p.pos.x && p.pos.x < SEED_X_HIGH);
    assert!(SEED_Y_LOW <= p.pos.y && p.pos.y < SEED_Y_HIGH);
    assert_eq!(p.vel, Vec2::new(0, 0));
    assert_eq!(p.mass as i128, p.radius as i128 * p.radius as i128 / ONE as i128);
    assert_eq!(p.color.len(), 7);
    assert!(p.color.starts_with('#'));
    assert!(p.color.ends_with("FF"));
    assert!(p.color[1..].chars().all(|c| c.is_ascii_digit() || ('A'..='F').contains(&c)));
    let red = channel(&p.color, 1);
    let green = channel(&p.color, 3);
    assert!(SEED_CHANNEL_LOW <= red && red < SEED_CHANNEL_HIGH);
    assert!(SEED_CHANNEL_LOW <= green && green < SEED_CHANNEL_HIGH);
}

#[test]
fn seeding_ranges_are_those_of_the_arena() {
    assert_eq!((SEED_RADIUS_LOW, SEED_RADIUS_HIGH), (3 * ONE, 8 * ONE));
    assert_eq!((SEED_X_LOW, SEED_X_HIGH), (20 * ONE, 480 * ONE));
    assert_eq!((SEED_Y_LOW, SEED_Y_HIGH), (50 * ONE, 250 * ONE));
    assert_eq!((SEED_CHANNEL_LOW, SEED_CHANNEL_HIGH), (100, 255));
}

#[test]
fn colors_are_upper_case_hexadecimal() {
    assert_eq!(format_color(100, 254), "#64FEFF");
    assert_eq!(format_color(0, 0), "#0000FF");
    assert_eq!(format_color(255, 255), "#FFFFFF");
    assert_eq!(format_color(9, 10), "#090AFF");
    assert_eq!(format_color(171, 205), "#ABCDFF");
    assert_eq!(format_color(18, 52), "#1234FF");
    assert_eq!(format_color(86, 120), "#5678FF");
    assert_eq!(format_color(239, 1), "#EF01FF");
}

#[test]
fn colors_agree_with_the_standard_formatter() {
    for red in 0..=255u8 {
        let green = red.wrapping_mul(7).wrapping_add(3);
        assert_eq!(format_color(red, green), format!("#{:02X}{:02X}FF", red, green));
    }
}

#[test]
fn a_seed_is_at_rest_where_it_was_put() {
    let p = seed_particle(5 * ONE, 100 * ONE, 200 * ONE, 100, 200);
    assert_eq!(p.pos, Vec2::new(100 * ONE, 200 * ONE));
    assert_eq!(p.vel, Vec2::new(0, 0));
    assert_eq!(p.radius, 5 * ONE);
    assert_eq!(p.mass, 25 * ONE);
    assert_eq!(p.color, "#64C8FF");
    check_seeded(&p);
}

#[test]
fn a_seed_with_a_bad_radius_is_clamped() {
    let p = seed_particle(0, 0, 0, 0, 0);
    assert_eq!(p.radius, 1_000);
    assert_eq!(p.mass, 1);
    assert!(p.is_valid());
}

#[test]
fn a_system_has_as_many_particles_as_asked_for() {
    assert_eq!(initialize_system(0).len(), 0);
    assert_eq!(initialize_system(1).len(), 1);
    assert_eq!(initialize_system(100).len(), 100);
}

#[test]
fn every_seeded_particle_is_in_range() {
    let list = initialize_system(500);
    for p in &list {
        check_seeded(p);
    }
}

#[test]
fn seeded_particles_differ() {
    let list = initialize_system(200);
    assert!(list.iter().any(|p| p.radius != SEED_RADIUS_LOW));
    assert!(list.iter().any(|p| p.pos.x != SEED_X_LOW));
    assert!(list.iter().any(|p| p.pos.y != SEED_Y_LOW));
    assert!(list.iter().any(|p| p.radius != list[0].radius));
    assert!(list.iter().any(|p| p.pos != list[0].pos));
    assert!(list.iter().any(|p| p.color != list[0].color));
    assert!(list.iter().any(|p| p.color != "#6464FF"));
}

#[test]
fn two_systems_differ() {
    let first = initialize_system(50);
    let second = initialize_system(50);
    assert!((0..50).any(|k| first[k].pos != second[k].pos));
}
