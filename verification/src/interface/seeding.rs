//! The initial particle set: bodies of random size hung at rest at random
//! places in the upper part of the arena.

use crate::engine::domain::{mass_of, Particle};
use crate::math::vector::Vec2;
use rand::rngs::ThreadRng;
use rand::Rng;
use vstd::prelude::*;
use vstd::string::StringExecFns;

verus! {

/// Smallest radius drawn (three units).
pub const SEED_RADIUS_LOW: i64 = 3_000_000;

/// Bound below which every radius drawn lies (eight units).
pub const SEED_RADIUS_HIGH: i64 = 8_000_000;

/// Smallest x drawn.
pub const SEED_X_LOW: i64 = 20_000_000;

/// Bound below which every x drawn lies.
pub const SEED_X_HIGH: i64 = 480_000_000;

/// Smallest y drawn.
pub const SEED_Y_LOW: i64 = 50_000_000;

/// Bound below which every y drawn lies.
pub const SEED_Y_HIGH: i64 = 250_000_000;

/// Smallest value drawn for the red and the green channel of a color.
pub const SEED_CHANNEL_LOW: i64 = 100;

/// Bound below which every channel value drawn lies.
pub const SEED_CHANNEL_HIGH: i64 = 255;

/// `rand::rngs::ThreadRng`, the handle to a thread's generator. It is
/// carried through as an opaque value.
#[verifier::external_type_specification]
#[verifier::external_body]
pub struct ExThreadRng(ThreadRng);

/// `rand::thread_rng`: hands out the calling thread's generator. Nothing is
/// claimed of the handle. The call panics if the operating system cannot
/// seed the generator.
pub assume_specification[ rand::thread_rng ]() -> (rng: ThreadRng);

/// `rand::Rng::gen_range` on the half-open range `low..high` of `i64`:
/// draws a number that is at least `low` and below `high`. Which number is
/// left open. The call panics on an empty range, which the precondition
/// excludes.
#[verifier::external_body]
fn gen_range(rng: &mut ThreadRng, low: i64, high: i64) -> (r: i64)
    requires
        low < high,
    ensures
        low <= r < high,
{
    rng.gen_range(low..high)
}

/// The upper-case hexadecimal digit of a value below sixteen.
pub open spec fn hex_digit(n: int) -> char {
    if n == 0 {
        '0'
    } else if n == 1 {
        '1'
    } else if n == 2 {
        '2'
    } else if n == 3 {
        '3'
    } else if n == 4 {
        '4'
    } else if n == 5 {
        '5'
    } else if n == 6 {
        '6'
    } else if n == 7 {
        '7'
    } else if n == 8 {
        '8'
    } else if n == 9 {
        '9'
    } else if n == 10 {
        'A'
    } else if n == 11 {
        'B'
    } else if n == 12 {
        'C'
    } else if n == 13 {
        'D'
    } else if n == 14 {
        'E'
    } else {
        'F'
    }
}

/// The display color with the given red and green channels and a full blue
/// channel: a number sign and six upper-case hexadecimal digits.
pub open spec fn color_code(red: u8, green: u8) -> Seq<char> {
    seq![
        '#',
        hex_digit(red as int / 16),
        hex_digit(red as int % 16),
        hex_digit(green as int / 16),
        hex_digit(green as int % 16),
        'F',
        'F',
    ]
}

/// Returns the upper-case hexadecimal digit of `n` as a string.
fn hex_digit_str(n: u8) -> (s: &'static str)
    requires
        n < 16,
    ensures
        s@ == seq![hex_digit(n as int)],
{
    proof {
        reveal_strlit("0");
        reveal_strlit("1");
        reveal_strlit("2");
        reveal_strlit("3");
        reveal_strlit("4");
        reveal_strlit("5");
        reveal_strlit("6");
        reveal_strlit("7");
        reveal_strlit("8");
        reveal_strlit("9");
        reveal_strlit("A");
        reveal_strlit("B");
        reveal_strlit("C");
        reveal_strlit("D");
        reveal_strlit("E");
        reveal_strlit("F");
    }
    let s = match n {
        0 => "0",
        1 => "1",
        2 => "2",
        3 => "3",
        4 => "4",
        5 => "5",
        6 => "6",
        7 => "7",
        8 => "8",
        9 => "9",
        10 => "A",
        11 => "B",
        12 => "C",
        13 => "D",
        14 => "E",
        _ => "F",
    };
    assert(s@ =~= seq![hex_digit(n as int)]);
    s
}

/// Formats the display color with the given red and green channels.
pub fn format_color(red: u8, green: u8) -> (s: String)
    ensures
        s@ == color_code(red, green),
{
    let mut s = String::new();
    proof {
        reveal_strlit("#");
        reveal_strlit("FF");
    }
    s.append("#");
    s.append(hex_digit_str(red / 16));
    s.append(hex_digit_str(red % 16));
    s.append(hex_digit_str(green / 16));
    s.append(hex_digit_str(green % 16));
    s.append("FF");
    assert(s@ =~= color_code(red, green));
    s
}

/// The particle is one that seeding produces: valid, at rest, with a radius
/// and a position in the seeding ranges, the mass of its radius and a color
/// whose red and green channels are in the seeding range.
pub open spec fn seeded(p: Particle) -> bool {
    &&& p.valid()
    &&& SEED_RADIUS_LOW <= p.radius < SEED_RADIUS_HIGH
    &&& SEED_X_LOW <= p.pos.x < SEED_X_HIGH
    &&& SEED_Y_LOW <= p.pos.y < SEED_Y_HIGH
    &&& p.vel == (Vec2 { x: 0, y: 0 })
    &&& p.mass == mass_of(p.radius as int)
    &&& exists|red: u8, green: u8|
        {
            &&& SEED_CHANNEL_LOW <= red < SEED_CHANNEL_HIGH
            &&& SEED_CHANNEL_LOW <= green < SEED_CHANNEL_HIGH
            &&& p.color@ == #[trigger] color_code(red, green)
        }
}

/// Builds the particle at rest at `(x, y)` with the given radius and color
/// channels. Values outside what a particle may hold are clamped as
/// `Particle::new` clamps them.
pub fn seed_particle(radius: i64, x: i64, y: i64, red: u8, green: u8) -> (p: Particle)
    ensures
        p.valid(),
        p.pos == (Vec2 { x, y }).saturated(),
        p.vel == (Vec2 { x: 0, y: 0 }),
        p.radius == crate::engine::domain::clamp_radius(radius as int),
        p.mass == mass_of(p.radius as int),
        p.color@ == color_code(red, green),
{
    Particle::new(Vec2::new(x, y), Vec2::new(0, 0), radius, format_color(red, green))
}

/// Generates `count` particles. For each it draws, in this order, a radius,
/// an x, a y, a red and a green channel from the seeding ranges.
pub fn initialize_system(count: usize) -> (list: Vec<Particle>)
    ensures
        list@.len() == count,
        forall|k: int| 0 <= k < count ==> seeded(#[trigger] list@[k]),
{
    let mut rng = rand::thread_rng();
    let mut list: Vec<Particle> = Vec::new();
    let mut k: usize = 0;
    while k < count
        invariant
            k <= count,
            list@.len() == k,
            forall|i: int| 0 <= i < k ==> seeded(#[trigger] list@[i]),
        decreases count - k,
    {
        let radius = gen_range(&mut rng, SEED_RADIUS_LOW, SEED_RADIUS_HIGH);
        let x = gen_range(&mut rng, SEED_X_LOW, SEED_X_HIGH);
        let y = gen_range(&mut rng, SEED_Y_LOW, SEED_Y_HIGH);
        let red = gen_range(&mut rng, SEED_CHANNEL_LOW, SEED_CHANNEL_HIGH) as u8;
        let green = gen_range(&mut rng, SEED_CHANNEL_LOW, SEED_CHANNEL_HIGH) as u8;
        let p = seed_particle(radius, x, y, red, green);
        list.push(p);
        k += 1;
    }
    list
}

} // verus!
