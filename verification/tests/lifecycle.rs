use chainscape::agent::{Agent, Awake, Awaking, LifecycleState, Sleeping};
use chainscape::config::{Config, Interval, SeparationMode};
use chainscape::geometry::{Point, Vector};
use chainscape::hunt::pursue;
use chainscape::rng::Rand;
use chainscape::sense::{
    collider_enabled, nearest, nearest_candidate, sense, Candidate, CandidateKind,
};

fn pt(x: i32, y: i32) -> Point {
    Point { x, y }
}

fn sleeper_at(position: Point) -> Agent {
    Agent::new(7, position)
}

fn awake_at(position: Point, reorient_remaining: u64) -> Agent {
    Agent {
        state: LifecycleState::Awake(Awake { since: 100, reorient_remaining }),
        ..Agent::new(8, position)
    }
}

fn player(position: Point) -> Candidate {
    Candidate { position, kind: CandidateKind::Player }
}

fn peer(position: Point) -> Candidate {
    Candidate { position, kind: CandidateKind::Peer }
}

fn trigger(agent: &Agent, now: u64, candidates: &[Candidate], config: &Config) -> Option<CandidateKind> {
    sense(agent, now, &candidates.to_vec(), config)
}

#[test]
fn the_stock_options_are_usable() {
    let config = Config::default();
    assert!(config.validate());
    assert_eq!(config.max_awake_agents, 256);
    assert_eq!(config.sense_radius_player, 64);
    assert_eq!(config.sense_radius_peer, 128);
    assert_eq!(config.wake_delay_range_player, Interval { lo: 2000, hi: 3000 });
    assert_eq!(config.wake_delay_range_peer, Interval { lo: 500, hi: 1000 });
    assert_eq!(config.reorient_interval_range, Interval { lo: 1000, hi: 2000 });
    assert_eq!(config.hunt_speed_range, Interval { lo: 100, hi: 140 });
    assert_eq!(config.hunt_jitter_radius, 32);
    assert_eq!(config.separation_radius, 64);
    assert_eq!(config.separation_force_cap, 1_000_000);
    assert_eq!(config.separation_mode, SeparationMode::Force);
    assert_eq!(config.resleep_guard_duration, 2000);
    assert_eq!(config.collider_radius, 256);
}

#[test]
fn options_with_an_empty_range_are_refused() {
    let good = Config::default();
    assert!(!Config { wake_delay_range_player: Interval { lo: 5, hi: 5 }, ..good }.validate());
    assert!(!Config { wake_delay_range_peer: Interval { lo: 6, hi: 5 }, ..good }.validate());
    assert!(!Config { reorient_interval_range: Interval { lo: 0, hi: 0 }, ..good }.validate());
    assert!(!Config { hunt_speed_range: Interval { lo: 140, hi: 100 }, ..good }.validate());
    assert!(!Config { hunt_speed_range: Interval { lo: 0, hi: (1 << 32) + 1 }, ..good }.validate());
    assert!(Config { hunt_speed_range: Interval { lo: 0, hi: 1 << 32 }, ..good }.validate());
    assert!(!Config { min_speed: 141, ..good }.validate());
    assert!(Config { min_speed: 140, ..good }.validate());
}

#[test]
fn a_new_agent_sleeps_at_rest() {
    let agent = Agent::new(42, pt(3, -4));
    assert_eq!(agent.id, 42);
    assert_eq!(agent.position, pt(3, -4));
    assert_eq!(agent.state, LifecycleState::Sleeping(Sleeping { since: 0 }));
    assert_eq!(agent.velocity, Vector { x: 0, y: 0 });
    assert_eq!(agent.angular_velocity, 0);
    assert_eq!(agent.force, Vector { x: 0, y: 0 });
    assert!(agent.state.is_sleeping());
    assert!(!agent.state.is_awaking());
    assert!(!agent.state.is_awake());
}

#[test]
fn every_state_carries_exactly_one_tag() {
    let states = [
        LifecycleState::Sleeping(Sleeping { since: 1 }),
        LifecycleState::Awaking(Awaking { remaining: 2, spin_rate: 3 }),
        LifecycleState::Awake(Awake { since: 4, reorient_remaining: 5 }),
    ];
    for state in states {
        let tags = [state.is_sleeping(), state.is_awaking(), state.is_awake()];
        assert_eq!(tags.iter().filter(|t| **t).count(), 1);
    }
}

#[test]
fn nearest_prefers_the_first_of_equals() {
    assert_eq!(nearest(pt(0, 0), &vec![]), None);
    assert_eq!(nearest(pt(0, 0), &vec![pt(5, 5)]), Some(0));
    assert_eq!(nearest(pt(0, 0), &vec![pt(9, 0), pt(0, 3), pt(3, 0), pt(-3, 0), pt(7, 7)]), Some(1));
    assert_eq!(nearest(pt(10, 10), &vec![pt(9, 0), pt(0, 3), pt(3, 0), pt(-3, 0), pt(7, 7)]), Some(4));
    assert_eq!(
        nearest(pt(i32::MIN, i32::MIN), &vec![pt(i32::MAX, i32::MAX), pt(i32::MAX, i32::MAX - 1)]),
        Some(1)
    );
}

#[test]
fn a_sleeper_senses_a_player_within_the_radius() {
    let config = Config { sense_radius_player: 64, ..Config::default() };
    let near = sleeper_at(pt(50, 0));
    let far = sleeper_at(pt(100, 0));
    let edge = sleeper_at(pt(0, 64));
    let beyond = sleeper_at(pt(0, 65));
    let players = [player(pt(0, 0))];
    assert_eq!(trigger(&near, 5000, &players, &config), Some(CandidateKind::Player));
    assert_eq!(trigger(&far, 5000, &players, &config), None);
    assert_eq!(trigger(&edge, 5000, &players, &config), Some(CandidateKind::Player));
    assert_eq!(trigger(&beyond, 5000, &players, &config), None);
}

#[test]
fn a_sleeper_senses_an_awake_agent_within_its_own_radius() {
    let config = Config::default();
    let sleeper = sleeper_at(pt(0, 0));
    assert_eq!(trigger(&sleeper, 5000, &[peer(pt(100, 0))], &config), Some(CandidateKind::Peer));
    assert_eq!(trigger(&sleeper, 5000, &[peer(pt(128, 0))], &config), Some(CandidateKind::Peer));
    assert_eq!(trigger(&sleeper, 5000, &[peer(pt(129, 0))], &config), None);
    assert_eq!(trigger(&sleeper, 5000, &[], &config), None);
}

#[test]
fn the_nearest_candidate_decides_alone() {
    let config = Config::default();
    let sleeper = sleeper_at(pt(0, 0));
    // The player is nearest but beyond 64; the agent behind it is within 128 and is not asked.
    assert_eq!(trigger(&sleeper, 5000, &[player(pt(100, 0)), peer(pt(110, 0))], &config), None);
    // The agent is nearest and within 128.
    assert_eq!(
        trigger(&sleeper, 5000, &[player(pt(100, 0)), peer(pt(90, 0))], &config),
        Some(CandidateKind::Peer)
    );
    // Equally near: the one that comes first decides.
    assert_eq!(trigger(&sleeper, 5000, &[player(pt(100, 0)), peer(pt(0, 100))], &config), None);
    assert_eq!(
        trigger(&sleeper, 5000, &[peer(pt(0, 100)), player(pt(100, 0))], &config),
        Some(CandidateKind::Peer)
    );
}

#[test]
fn only_sleepers_sense() {
    let config = Config::default();
    let players = [player(pt(0, 0))];
    let waking = Agent {
        state: LifecycleState::Awaking(Awaking { remaining: 10, spin_rate: 0 }),
        ..sleeper_at(pt(1, 0))
    };
    assert_eq!(trigger(&waking, 5000, &players, &config), None);
    assert_eq!(trigger(&awake_at(pt(1, 0), 0), 5000, &players, &config), None);
}

#[test]
fn the_guard_time_must_have_passed() {
    let config = Config::default();
    let players = [player(pt(0, 0))];
    let sleeper = Agent { state: LifecycleState::Sleeping(Sleeping { since: 1000 }), ..sleeper_at(pt(1, 0)) };
    assert_eq!(trigger(&sleeper, 0, &players, &config), None);
    assert_eq!(trigger(&sleeper, 1000, &players, &config), None);
    assert_eq!(trigger(&sleeper, 2999, &players, &config), None);
    assert_eq!(trigger(&sleeper, 3000, &players, &config), None);
    assert_eq!(trigger(&sleeper, 3001, &players, &config), Some(CandidateKind::Player));
    let unguarded = Config { resleep_guard_duration: 0, ..config };
    assert_eq!(trigger(&sleeper, 1000, &players, &unguarded), None);
    assert_eq!(trigger(&sleeper, 1001, &players, &unguarded), Some(CandidateKind::Player));
    let late = Agent { state: LifecycleState::Sleeping(Sleeping { since: u64::MAX }), ..sleeper };
    assert_eq!(trigger(&late, u64::MAX, &players, &unguarded), None);
    assert_eq!(trigger(&late, 0, &players, &unguarded), None);
}

#[test]
fn waking_starts_a_countdown_and_keeps_the_rest() {
    let sleeper = sleeper_at(pt(5, 6));
    let waking = sleeper.begin_waking(Awaking { remaining: 2500, spin_rate: 9 });
    assert_eq!(waking.state, LifecycleState::Awaking(Awaking { remaining: 2500, spin_rate: 9 }));
    assert_eq!(Agent { state: sleeper.state, ..waking }, sleeper);
}

#[test]
fn the_countdown_runs_down_and_ends_awake() {
    let waking = sleeper_at(pt(5, 6)).begin_waking(Awaking { remaining: 100, spin_rate: 9 });
    assert!(!waking.wakes_within(99));
    assert!(waking.wakes_within(100));
    let later = waking.rouse(1000, 30, 77);
    assert_eq!(later.state, LifecycleState::Awaking(Awaking { remaining: 70, spin_rate: 9 }));
    assert_eq!(later.wake_seed, 0);
    let still = later.rouse(1010, 0, 77);
    assert_eq!(still, later);
    let almost = later.rouse(1020, 69, 77);
    assert_eq!(almost.state, LifecycleState::Awaking(Awaking { remaining: 1, spin_rate: 9 }));
    let awake = almost.rouse(1030, 1, 77);
    assert_eq!(awake.state, LifecycleState::Awake(Awake { since: 1030, reorient_remaining: 0 }));
    assert_eq!(awake.wake_seed, 77);
    assert_eq!(awake.position, pt(5, 6));
    let overshoot = waking.rouse(2000, u64::MAX, 5);
    assert_eq!(overshoot.state, LifecycleState::Awake(Awake { since: 2000, reorient_remaining: 0 }));
    let at_once = sleeper_at(pt(0, 0)).begin_waking(Awaking { remaining: 0, spin_rate: 0 }).rouse(3, 0, 1);
    assert_eq!(at_once.state, LifecycleState::Awake(Awake { since: 3, reorient_remaining: 0 }));
}

#[test]
fn rouse_leaves_other_states_alone() {
    let sleeper = sleeper_at(pt(1, 1));
    assert_eq!(sleeper.rouse(10, 10, 10), sleeper);
    assert!(!sleeper.wakes_within(u64::MAX));
    let awake = awake_at(pt(1, 1), 5);
    assert_eq!(awake.rouse(10, 10, 10), awake);
    assert!(!awake.wakes_within(u64::MAX));
}

#[test]
fn demote_puts_to_sleep_and_to_rest() {
    let moving = Agent {
        velocity: Vector { x: 100, y: -20 },
        angular_velocity: 3,
        force: Vector { x: 5, y: 5 },
        wake_seed: 12,
        ..awake_at(pt(9, 9), 500)
    };
    let asleep = moving.demote(4242);
    assert_eq!(asleep.state, LifecycleState::Sleeping(Sleeping { since: 4242 }));
    assert_eq!(asleep.velocity, Vector { x: 0, y: 0 });
    assert_eq!(asleep.angular_velocity, 0);
    assert_eq!(asleep.force, Vector { x: 0, y: 0 });
    assert_eq!(asleep.position, pt(9, 9));
    assert_eq!(asleep.id, moving.id);
    assert_eq!(asleep.wake_seed, 12);
}

#[test]
fn pursue_heads_for_the_jittered_target_at_the_speed() {
    let none = Vector { x: 0, y: 0 };
    assert_eq!(pursue(pt(0, 0), pt(30, 40), none, 100), Vector { x: 60, y: 80 });
    assert_eq!(pursue(pt(10, 10), pt(-20, -30), none, 100), Vector { x: -60, y: -80 });
    // Heading (33, 36): its length rounds up to 49.
    assert_eq!(pursue(pt(0, 0), pt(30, 40), Vector { x: 3, y: -4 }, 100), Vector { x: 67, y: 73 });
    // A short heading keeps the speed: 100 / sqrt(2) = 70.71...
    assert_eq!(pursue(pt(0, 0), pt(1, 1), none, 100), Vector { x: 70, y: 70 });
    assert_eq!(pursue(pt(0, 0), pt(3, 0), Vector { x: -2, y: 0 }, 139), Vector { x: 139, y: 0 });
    assert_eq!(pursue(pt(5, 5), pt(5, 5), none, 100), none);
    assert_eq!(pursue(pt(5, 5), pt(6, 6), Vector { x: -1, y: -1 }, 100), none);
    assert_eq!(pursue(pt(0, 0), pt(30, 40), none, 0), none);
    let far = pursue(
        pt(i32::MIN, i32::MIN),
        pt(i32::MAX, i32::MAX),
        Vector { x: 0xffff_ffff, y: 0xffff_ffff },
        u32::MAX,
    );
    assert!(far.x > 0 && far.y > 0 && far.x == far.y);
    assert!(far.length_squared() <= u128::from(u32::MAX) * u128::from(u32::MAX));
}

#[test]
fn hunting_runs_down_the_time_to_the_next_target() {
    let agent = Agent { velocity: Vector { x: 1, y: 2 }, ..awake_at(pt(0, 0), 500) };
    assert!(!agent.is_reorienting(499));
    assert!(agent.is_reorienting(500));
    let later = agent.hunt(200, 1500, Some(Vector { x: 60, y: 80 }));
    assert_eq!(later.state, LifecycleState::Awake(Awake { since: 100, reorient_remaining: 300 }));
    assert_eq!(later.velocity, Vector { x: 1, y: 2 });
    let turned = later.hunt(300, 1500, Some(Vector { x: 60, y: 80 }));
    assert_eq!(turned.state, LifecycleState::Awake(Awake { since: 100, reorient_remaining: 1500 }));
    assert_eq!(turned.velocity, Vector { x: 60, y: 80 });
    let alone = later.hunt(1000, 1200, None);
    assert_eq!(alone.state, LifecycleState::Awake(Awake { since: 100, reorient_remaining: 1200 }));
    assert_eq!(alone.velocity, Vector { x: 1, y: 2 });
    let fresh = awake_at(pt(0, 0), 0);
    assert!(fresh.is_reorienting(0));
    assert_eq!(
        fresh.hunt(0, 1000, None).state,
        LifecycleState::Awake(Awake { since: 100, reorient_remaining: 1000 })
    );
}

#[test]
fn hunt_leaves_other_states_alone() {
    let sleeper = sleeper_at(pt(1, 1));
    assert!(!sleeper.is_reorienting(u64::MAX));
    assert_eq!(sleeper.hunt(10, 10, Some(Vector { x: 1, y: 1 })), sleeper);
    let waking = sleeper.begin_waking(Awaking { remaining: 5, spin_rate: 0 });
    assert!(!waking.is_reorienting(u64::MAX));
    assert_eq!(waking.hunt(10, 10, Some(Vector { x: 1, y: 1 })), waking);
}

#[test]
fn a_sleeper_collides_only_near_the_player() {
    let config = Config::default();
    assert!(collider_enabled(&sleeper_at(pt(256, 0)), pt(0, 0), &config));
    assert!(!collider_enabled(&sleeper_at(pt(257, 0)), pt(0, 0), &config));
    assert!(collider_enabled(&sleeper_at(pt(0, 0)), pt(0, 0), &config));
    assert!(collider_enabled(&awake_at(pt(9000, 0), 0), pt(0, 0), &config));
    assert!(collider_enabled(&sleeper_at(pt(9000, 0)).begin_waking(Awaking { remaining: 1, spin_rate: 0 }), pt(0, 0), &config));
}

#[test]
fn a_new_awaking_draws_its_delay_from_the_range() {
    let mut rng = Rand::seed_from_u64(19);
    let mut twin = Rand::seed_from_u64(19);
    let range = Interval { lo: 2000, hi: 3000 };
    for _ in 0..200 {
        let waking = Awaking::new(&mut rng, &range, 4);
        assert!(2000 <= waking.remaining && waking.remaining < 3000);
        assert_eq!(waking.spin_rate, 4);
        assert_eq!(waking.remaining, range.draw(&mut twin));
    }
}

#[test]
fn nearest_candidate_prefers_the_first_of_equals() {
    assert_eq!(nearest_candidate(pt(0, 0), &vec![]), None);
    let candidates = vec![player(pt(9, 0)), peer(pt(0, 3)), player(pt(3, 0)), peer(pt(7, 7))];
    assert_eq!(nearest_candidate(pt(0, 0), &candidates), Some(1));
    assert_eq!(nearest_candidate(pt(10, 10), &candidates), Some(3));
    assert_eq!(nearest_candidate(pt(9, 1), &candidates), Some(0));
}
