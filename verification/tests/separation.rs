use chainscape::agent::{Agent, Awake, LifecycleState};
use chainscape::config::{Config, SeparationMode};
use chainscape::geometry::{Point, Vector};
use chainscape::separation::MAX_NEIGHBOURS;

fn pt(x: i32, y: i32) -> Point {
    Point { x, y }
}

fn vector(x: i64, y: i64) -> Vector {
    Vector { x, y }
}

#[test]
fn a_neighbour_pushes_away_from_itself_by_the_gain_over_the_distance() {
    let config = Config::default();
    assert_eq!(config.push(pt(10, 0), pt(0, 0)), vector(100_000, 0));
    assert_eq!(config.push(pt(0, 0), pt(10, 0)), vector(-100_000, 0));
    assert_eq!(config.push(pt(3, 4), pt(0, 0)), vector(120_000, 160_000));
    assert_eq!(config.push(pt(100, 100), pt(103, 104)), vector(-120_000, -160_000));
    assert_eq!(config.push(pt(63, 0), pt(0, 0)), vector(15_873, 0));
    // The unit direction (1, 1) / sqrt(2) times 1000000 / sqrt(2).
    assert_eq!(config.push(pt(1, 1), pt(0, 0)), vector(500_000, 500_000));
    // (2, -3) * 1000000 / 13.
    assert_eq!(config.push(pt(2, -3), pt(0, 0)), vector(153_846, -230_769));
}

#[test]
fn a_neighbour_at_the_radius_or_on_the_same_point_does_not_push() {
    let config = Config::default();
    assert_eq!(config.push(pt(64, 0), pt(0, 0)), vector(0, 0));
    assert_eq!(config.push(pt(0, -9000), pt(0, 0)), vector(0, 0));
    assert_eq!(config.push(pt(5, 5), pt(5, 5)), vector(0, 0));
    let blind = Config { separation_radius: 0, ..config };
    assert_eq!(blind.push(pt(1, 0), pt(0, 0)), vector(0, 0));
}

#[test]
fn the_cap_limits_a_push() {
    let capped = Config { separation_force_cap: 1000, ..Config::default() };
    assert_eq!(capped.push(pt(10, 0), pt(0, 0)), vector(1000, 0));
    assert_eq!(capped.push(pt(3, 4), pt(0, 0)), vector(600, 800));
    let strong = Config {
        separation_gain: u64::MAX,
        separation_force_cap: u32::MAX,
        separation_radius: u32::MAX,
        ..Config::default()
    };
    assert_eq!(strong.push(pt(1, 0), pt(0, 0)), vector(i64::from(u32::MAX), 0));
    // Capped along a diagonal: 1000 / sqrt(2) = 707.1...
    assert_eq!(capped.push(pt(1, 1), pt(0, 0)), vector(707, 707));
    // Where the gain over the distance equals the cap, both formulas agree.
    let even = Config { separation_gain: 5000, separation_force_cap: 1000, ..Config::default() };
    assert_eq!(even.push(pt(3, 4), pt(0, 0)), vector(600, 800));
    assert_eq!(even.push(pt(6, 8), pt(0, 0)), vector(300, 400));
    let weak = Config { separation_gain: 5, ..Config::default() };
    assert_eq!(weak.push(pt(10, 0), pt(0, 0)), vector(0, 0));
    assert_eq!(weak.push(pt(5, 0), pt(0, 0)), vector(1, 0));
}

#[test]
fn repel_sums_the_pushes_of_all_neighbours() {
    let config = Config::default();
    let others = vec![pt(10, 0), pt(-10, 0), pt(0, 5), pt(0, 0), pt(100, 0)];
    assert_eq!(config.repel(pt(0, 0), &others), vector(0, -200_000));
    assert_eq!(config.repel(pt(0, 0), &vec![]), vector(0, 0));
    assert_eq!(config.repel(pt(0, 0), &vec![pt(10, 0), pt(10, 0), pt(10, 0)]), vector(-300_000, 0));
    assert!(others.len() <= MAX_NEIGHBOURS);
}

#[test]
fn in_force_mode_the_push_becomes_the_force() {
    let config = Config::default();
    let agent = Agent {
        state: LifecycleState::Awake(Awake { since: 0, reorient_remaining: 0 }),
        velocity: vector(60, 80),
        force: vector(9, 9),
        ..Agent::new(1, pt(0, 0))
    };
    let pushed = agent.separate(vector(-5, 7), &config);
    assert_eq!(pushed.force, vector(-5, 7));
    assert_eq!(Agent { force: agent.force, ..pushed }, agent);
}

#[test]
fn in_velocity_mode_the_push_changes_the_velocity_within_the_band() {
    let config = Config {
        separation_mode: SeparationMode::Velocity,
        min_speed: 100,
        max_speed: 140,
        ..Config::default()
    };
    let agent = Agent {
        state: LifecycleState::Awake(Awake { since: 0, reorient_remaining: 0 }),
        velocity: vector(60, 80),
        force: vector(9, 9),
        ..Agent::new(1, pt(0, 0))
    };
    assert_eq!(agent.separate(vector(0, 0), &config), agent);
    let fast = agent.separate(vector(240, 320), &config);
    assert_eq!(fast.velocity, vector(84, 112));
    assert_eq!(fast.force, vector(9, 9));
    let slow = agent.separate(vector(-57, -76), &config);
    assert_eq!(slow.velocity, vector(60, 80));
    let stopped = agent.separate(vector(-60, -80), &config);
    assert_eq!(stopped.velocity, vector(100, 0));
    let huge = Agent { velocity: vector(i64::MAX, i64::MIN), ..agent };
    let held = huge.separate(vector(i64::MAX, i64::MIN), &config);
    assert!(held.velocity.x > 0 && held.velocity.y < 0);
    assert!(held.velocity.length_squared() >= 100 * 100);
    assert!(held.velocity.length_squared() <= 140 * 140);
}

#[test]
fn in_velocity_mode_the_speed_stays_in_the_band_on_a_grid_of_pushes() {
    let config = Config {
        separation_mode: SeparationMode::Velocity,
        min_speed: 100,
        max_speed: 140,
        ..Config::default()
    };
    let agent = Agent { velocity: vector(60, 80), ..Agent::new(1, pt(0, 0)) };
    for x in -30i64..=30 {
        for y in -30i64..=30 {
            let n = agent.separate(vector(x * 11, y * 13), &config).velocity.length_squared();
            assert!(100 * 100 <= n && n <= 140 * 140);
        }
    }
}

#[test]
fn no_push_is_longer_than_the_cap_on_a_grid_of_neighbours() {
    for (gain, cap) in [(1_000_000u64, 1_000_000u32), (1_000_000, 1000), (7, 3), (u64::MAX, 50)] {
        let config = Config { separation_gain: gain, separation_force_cap: cap, ..Config::default() };
        for x in -12..=12 {
            for y in -12..=12 {
                let v = config.push(pt(x, y), pt(0, 0));
                assert!(v.length_squared() <= u128::from(cap) * u128::from(cap));
                assert!(v.x.signum() * i64::from(x.signum()) >= 0);
                assert!(v.y.signum() * i64::from(y.signum()) >= 0);
            }
        }
    }
}
