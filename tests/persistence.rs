use league_detect::cache::{CachedMatch, MatchCache};
use league_detect::rate_limit::{RequestLog, MAX_REQUESTS_PER_2MIN, MAX_REQUESTS_PER_SEC};

fn game(id: &str, timestamp: i64) -> CachedMatch {
    CachedMatch {
        id: id.to_string(),
        champion: "Ahri".to_string(),
        won: true,
        enemies: vec!["Zed".to_string(), "Lux".to_string()],
        timestamp,
    }
}

fn ids(c: &MatchCache) -> Vec<String> {
    c.matches.iter().map(|m| m.id.clone()).collect()
}

fn empty_cache() -> MatchCache {
    MatchCache {
        player: "Someone#NA1".to_string(),
        region: "na1".to_string(),
        last_updated: 0,
        matches: Vec::new(),
        account: None,
    }
}

#[test]
fn merge_orders_newest_first() {
    let mut c = empty_cache();
    c.add_matches(vec![game("a", 10), game("b", 30), game("c", 20)], 99);
    assert_eq!(ids(&c), vec!["b", "c", "a"]);
    assert_eq!(c.last_updated, 99);
    c.add_matches(vec![game("d", 25), game("e", 5)], 100);
    assert_eq!(ids(&c), vec!["b", "d", "c", "a", "e"]);
    for w in c.matches.windows(2) {
        assert!(w[0].timestamp >= w[1].timestamp);
    }
}

#[test]
fn merge_twice_is_merge_once() {
    let batch = vec![game("a", 10), game("b", 30), game("a", 40)];
    let mut once = empty_cache();
    once.add_matches(vec![game("x", 20)], 1);
    once.add_matches(batch.clone(), 2);
    let first = ids(&once);
    assert_eq!(first, vec!["b", "x", "a"]);
    once.add_matches(batch, 3);
    assert_eq!(ids(&once), first);
}

#[test]
fn merge_keeps_existing_entry_for_known_id() {
    let mut c = empty_cache();
    c.add_matches(vec![game("a", 10)], 1);
    c.add_matches(vec![game("a", 50)], 2);
    assert_eq!(c.matches.len(), 1);
    assert_eq!(c.matches[0].timestamp, 10);
}

#[test]
fn merge_keeps_order_of_equal_timestamps() {
    let mut c = empty_cache();
    c.add_matches(vec![game("a", 10), game("b", 10), game("c", 10)], 1);
    assert_eq!(ids(&c), vec!["a", "b", "c"]);
}

#[test]
fn add_matches_stamps_the_given_time() {
    let mut c = empty_cache();
    c.add_matches(vec![game("a", 10)], 1_700_000_000_000);
    assert_eq!(c.last_updated, 1_700_000_000_000);
    assert_eq!(c.matches.len(), 1);
}

#[test]
fn recent_matches_are_a_prefix() {
    let mut c = empty_cache();
    c.add_matches(vec![game("a", 10), game("b", 30), game("c", 20)], 1);
    let r = c.get_recent_matches(2);
    assert_eq!(r.len(), 2);
    assert_eq!(r[0].id, "b");
    assert_eq!(r[1].id, "c");
    assert_eq!(r[0].enemies, vec!["Zed".to_string(), "Lux".to_string()]);
    assert_eq!(c.get_recent_matches(10).len(), 3);
    assert!(c.get_recent_matches(0).is_empty());
}

#[test]
fn staleness_counts_whole_minutes() {
    let mut c = empty_cache();
    c.last_updated = 1_000_000;
    assert!(!c.is_stale(5, 1_000_000 + 5 * 60_000));
    assert!(!c.is_stale(5, 1_000_000 + 5 * 60_000 + 1));
    assert!(!c.is_stale(5, 1_000_000 + 6 * 60_000 - 1));
    assert!(c.is_stale(5, 1_000_000 + 6 * 60_000));
    assert!(!c.is_stale(0, 1_000_000));
    assert!(!c.is_stale(0, 1_000_000 - 120_000));
    assert!(!c.is_stale(0, 1_000_001));
    assert!(c.is_stale(0, 1_000_000 + 60_000));
    c.last_updated = 0;
    assert!(!c.is_stale(1, 60_001));
    assert!(c.is_stale(1, 120_000));
}

#[test]
fn new_cache_is_empty_and_fresh() {
    let fresh = MatchCache::new("Someone#NA1", "euw1", 500);
    assert_eq!(fresh.last_updated, 500);
    assert!(!fresh.is_stale(60, 500));
    assert!(!fresh.is_stale(60, 500 + 60 * 60_000 + 1));
    assert!(fresh.is_stale(60, 500 + 61 * 60_000));
    assert_eq!(fresh.player, "Someone#NA1");
    assert_eq!(fresh.region, "euw1");
    assert!(fresh.matches.is_empty());
    assert!(fresh.account.is_none());
}

#[test]
fn account_round_trip() {
    let mut c = empty_cache();
    assert!(c.get_cached_account().is_none());
    c.set_account("p-1".to_string(), "Someone".to_string(), 42, 77);
    let a = c.get_cached_account().unwrap();
    assert_eq!(a.puuid, "p-1");
    assert_eq!(a.summoner_name, "Someone");
    assert_eq!(a.summoner_level, 42);
    assert_eq!(a.cached_at, 77);
}

#[test]
fn budget_blocks_after_short_window_maximum() {
    let mut log = RequestLog::new("Someone#NA1", 1_000);
    for _ in 0..MAX_REQUESTS_PER_SEC {
        assert!(log.can_make_request());
        log.record_request(1_000);
    }
    assert!(!log.can_make_request());
    log.record_request(1_500);
    assert!(!log.can_make_request());
    log.refresh_windows(2_000);
    assert!(!log.can_make_request());
    log.refresh_windows(2_001);
    assert_eq!(log.requests_per_sec, 0);
    assert_eq!(log.window_1sec_start, 2_001);
    assert_eq!(log.requests_per_2min, MAX_REQUESTS_PER_SEC + 1);
    assert!(log.can_make_request());
}

#[test]
fn budget_blocks_after_long_window_maximum() {
    let mut log = RequestLog::new("Someone#NA1", 0);
    let mut now: i64 = 0;
    for _ in 0..MAX_REQUESTS_PER_2MIN {
        log.refresh_windows(now);
        assert!(log.can_make_request());
        log.record_request(now);
        now += 1_100;
    }
    log.refresh_windows(now);
    assert_eq!(log.requests_per_2min, MAX_REQUESTS_PER_2MIN);
    assert!(!log.can_make_request());
    log.refresh_windows(120_000);
    assert!(!log.can_make_request());
    log.refresh_windows(120_001);
    assert_eq!(log.requests_per_2min, 0);
    assert!(log.can_make_request());
}

#[test]
fn budget_remaining_and_reset_times() {
    let mut log = RequestLog::new("Someone#NA1", 5_000);
    assert_eq!(log.get_remaining(), (MAX_REQUESTS_PER_2MIN, MAX_REQUESTS_PER_SEC));
    log.record_request(5_010);
    assert_eq!(log.get_remaining(), (99, 19));
    assert_eq!(log.last_request, 5_010);
    assert_eq!(log.get_reset_times(), (125_000, 6_000));
    log.requests_per_sec = 25;
    assert_eq!(log.get_remaining(), (99, 0));
}

#[test]
fn budget_counters_stop_at_the_largest_value() {
    let mut log = RequestLog::new("Someone#NA1", 0);
    log.requests_per_2min = u32::MAX;
    log.requests_per_sec = u32::MAX - 1;
    log.record_request(7);
    assert_eq!(log.requests_per_2min, u32::MAX);
    assert_eq!(log.requests_per_sec, u32::MAX);
    assert_eq!(log.last_request, 7);
    assert!(!log.can_make_request());
    assert_eq!(log.get_remaining(), (0, 0));
}
