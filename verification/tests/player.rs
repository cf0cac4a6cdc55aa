use chainscape::player::Player;

fn record(born: u64, bonus_score: u32, kill_count: u32) -> Player {
    Player { born, bonus_score, kill_count, safezone_reached: false }
}

#[test]
fn the_score_counts_seconds_bonus_and_kills() {
    let player = record(2_500_000, 40, 3);
    assert_eq!(player.score(2_500_000, 1_000_000), 70);
    assert_eq!(player.score(3_499_999, 1_000_000), 70);
    assert_eq!(player.score(3_500_000, 1_000_000), 71);
    assert_eq!(player.score(62_500_000, 1_000_000), 130);
    assert_eq!(record(0, 0, 0).score(0, 1), 0);
    assert_eq!(record(0, 0, 0).score(59, 60), 0);
    assert_eq!(record(0, 0, 0).score(60, 60), 1);
}

#[test]
fn reaching_the_safe_zone_does_not_change_the_score() {
    let player = record(0, 5, 1);
    let safe = Player { safezone_reached: true, ..player };
    assert_eq!(player.score(10, 1), 25);
    assert_eq!(safe.score(10, 1), 25);
}

#[test]
fn the_score_is_offered_only_where_it_can_be_computed() {
    let player = record(100, 40, 3);
    assert!(player.can_score(100, 10));
    assert!(!player.can_score(99, 10));
    assert!(!player.can_score(100, 0));
    assert!(record(0, u32::MAX, 0).can_score(0, 1));
    assert!(!record(0, u32::MAX, 0).can_score(1, 1));
    assert!(!record(0, u32::MAX, 1).can_score(0, 1));
    assert!(record(0, u32::MAX - 10, 1).can_score(0, 1));
    assert_eq!(record(0, u32::MAX - 10, 1).score(0, 1), u32::MAX);
    assert!(!record(0, 0, u32::MAX).can_score(0, 1));
    assert!(record(0, 0, u32::MAX / 10).can_score(5, 1));
    assert!(!record(0, 0, u32::MAX / 10).can_score(6, 1));
    assert!(record(0, 0, 0).can_score(u64::MAX, u64::MAX));
    assert!(!record(0, 0, 0).can_score(u64::MAX, 1));
    assert!(record(0, 0, 0).can_score(u64::from(u32::MAX), 1));
    assert!(!record(0, 0, 0).can_score(u64::from(u32::MAX) + 1, 1));
}
