use chainscape::config::Interval;
use chainscape::rng::{Rand, DISK_ATTEMPTS};

#[test]
fn same_seed_gives_the_same_bits() {
    let mut a = Rand::seed_from_u64(1);
    let mut b = Rand::seed_from_u64(1);
    for _ in 0..100 {
        assert_eq!(a.next_u32(), b.next_u32());
        assert_eq!(a.next_u64(), b.next_u64());
        assert_eq!(a.below(1000), b.below(1000));
        assert_eq!(a.vec2(32), b.vec2(32));
    }
}

#[test]
fn different_seeds_give_different_bits() {
    let mut a = Rand::seed_from_u64(1);
    let mut b = Rand::seed_from_u64(2);
    let from_a: Vec<u64> = (0..8).map(|_| a.next_u64()).collect();
    let from_b: Vec<u64> = (0..8).map(|_| b.next_u64()).collect();
    assert_ne!(from_a, from_b);
}

#[test]
fn bits_vary_from_draw_to_draw() {
    let mut rng = Rand::seed_from_u64(7);
    let words: Vec<u32> = (0..16).map(|_| rng.next_u32()).collect();
    assert!(words.iter().any(|w| *w != words[0]));
    let wide: Vec<u64> = (0..16).map(|_| rng.next_u64()).collect();
    assert!(wide.iter().any(|w| *w != wide[0]));
}

#[test]
fn below_stays_under_its_bound() {
    let mut rng = Rand::seed_from_u64(3);
    for bound in [1u64, 2, 3, 7, 1000, u64::MAX] {
        for _ in 0..200 {
            assert!(rng.below(bound) < bound);
        }
    }
    assert_eq!(rng.below(1), 0);
}

#[test]
fn below_reaches_every_value_of_a_small_range() {
    let mut rng = Rand::seed_from_u64(11);
    let mut seen = [false; 5];
    for _ in 0..500 {
        seen[rng.below(5) as usize] = true;
    }
    assert_eq!(seen, [true; 5]);
}

#[test]
fn range_u64_stays_in_its_range() {
    let mut rng = Rand::seed_from_u64(5);
    for _ in 0..500 {
        let v = rng.range_u64(2000, 3000);
        assert!((2000..3000).contains(&v));
    }
    assert_eq!(rng.range_u64(u64::MAX - 1, u64::MAX), u64::MAX - 1);
    for _ in 0..100 {
        let v = rng.range_u64(0, u64::MAX);
        assert!(v < u64::MAX);
    }
}

#[test]
fn range_i64_stays_in_its_range() {
    let mut rng = Rand::seed_from_u64(5);
    for _ in 0..500 {
        let v = rng.range_i64(-4096, 4097);
        assert!((-4096..4097).contains(&v));
    }
    assert_eq!(rng.range_i64(i64::MIN, i64::MIN + 1), i64::MIN);
    assert_eq!(rng.range_i64(i64::MAX - 1, i64::MAX), i64::MAX - 1);
    for _ in 0..100 {
        let v = rng.range_i64(i64::MIN, i64::MAX);
        assert!(v < i64::MAX);
    }
}

#[test]
fn vec2_stays_in_the_disk() {
    let mut rng = Rand::seed_from_u64(9);
    for radius in [0u32, 1, 2, 32, 1000, u32::MAX] {
        for _ in 0..200 {
            let v = rng.vec2(radius);
            assert!(v.length_squared() <= u128::from(radius) * u128::from(radius));
        }
    }
    assert_eq!(rng.vec2(0).length_squared(), 0);
}

#[test]
fn vec2_spreads_over_the_disk() {
    let mut rng = Rand::seed_from_u64(13);
    let mut quadrants = [false; 4];
    for _ in 0..200 {
        let v = rng.vec2(100);
        if v.x != 0 && v.y != 0 {
            quadrants[usize::from(v.x > 0) * 2 + usize::from(v.y > 0)] = true;
        }
    }
    assert_eq!(quadrants, [true; 4]);
    assert!(DISK_ATTEMPTS >= 64);
}

#[test]
fn an_interval_draws_its_own_values() {
    let mut rng = Rand::seed_from_u64(17);
    let interval = Interval { lo: 500, hi: 1000 };
    for _ in 0..300 {
        let v = interval.draw(&mut rng);
        assert!(500 <= v && v < 1000);
    }
    assert_eq!(Interval { lo: 41, hi: 42 }.draw(&mut rng), 41);
}

#[test]
fn reseeding_starts_the_sequence_anew() {
    let mut rng = Rand::seed_from_u64(23);
    let first: Vec<u64> = (0..8).map(|_| rng.next_u64()).collect();
    rng.reseed(23);
    let again: Vec<u64> = (0..8).map(|_| rng.next_u64()).collect();
    assert_eq!(first, again);
    rng.reseed(24);
    let other: Vec<u64> = (0..8).map(|_| rng.next_u64()).collect();
    assert_ne!(first, other);
}

#[test]
fn fill_bytes_overwrites_the_buffer_repeatably() {
    let mut a = Rand::seed_from_u64(29);
    let mut b = Rand::seed_from_u64(29);
    let mut first = [0u8; 64];
    let mut second = [0u8; 64];
    a.fill_bytes(&mut first);
    b.fill_bytes(&mut second);
    assert_eq!(first, second);
    assert!(first.iter().any(|byte| *byte != 0));
    let mut empty: [u8; 0] = [];
    a.fill_bytes(&mut empty);
}

#[test]
fn vec2_never_reaches_the_upper_edge_of_its_square() {
    let mut rng = Rand::seed_from_u64(37);
    for radius in [1u32, 2, 3, 32] {
        let reach = i64::from(radius);
        let mut lowest = 0;
        for _ in 0..2000 {
            let v = rng.vec2(radius);
            assert!(-reach <= v.x && v.x < reach);
            assert!(-reach <= v.y && v.y < reach);
            lowest = lowest.min(v.x).min(v.y);
        }
        if radius <= 3 {
            assert_eq!(lowest, -reach);
        }
    }
}

#[test]
fn vec2_of_radius_zero_draws_nothing() {
    let mut rng = Rand::seed_from_u64(41);
    let mut twin = Rand::seed_from_u64(41);
    assert_eq!(rng.vec2(0), chainscape::geometry::Vector { x: 0, y: 0 });
    assert_eq!(rng.next_u64(), twin.next_u64());
}
