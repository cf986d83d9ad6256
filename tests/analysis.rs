use league_detect::champion_stats::{ChampionStats, ChampionStatsTracker};
use league_detect::recommender::{AllyAnalysis, BanRecommendation, BanRecommender};

fn stat(name: &str, times_faced: usize, wins_against: usize, recency_score: u64) -> ChampionStats {
    ChampionStats {
        name: name.to_string(),
        times_faced,
        wins_against,
        recency_score,
    }
}

#[test]
fn tracker_counts_each_encounter() {
    let mut t = ChampionStatsTracker::new();
    t.add_champion_encounter("Ahri".to_string(), true, 5);
    t.add_champion_encounter("Zed".to_string(), false, 4);
    t.add_champion_encounter("Ahri".to_string(), false, 3);
    t.add_champion_encounter("Ahri".to_string(), true, 1);
    let ahri = t.get_champion("Ahri").unwrap();
    assert_eq!(ahri.times_faced, 3);
    assert_eq!(ahri.wins_against, 2);
    assert_eq!(ahri.recency_score, 9);
    let zed = t.get_champion("Zed").unwrap();
    assert_eq!(zed.times_faced, 1);
    assert_eq!(zed.wins_against, 0);
    assert!(t.get_champion("Lux").is_none());
    let all = t.get_stats();
    assert_eq!(all.len(), 2);
    for s in &all {
        assert!(s.wins_against <= s.times_faced);
    }
}

#[test]
fn tracker_records_a_batch() {
    let mut t = ChampionStatsTracker::new();
    let names = vec!["Ahri".to_string(), "Zed".to_string(), "Ahri".to_string()];
    assert!(t.has_room_for(names.len(), 7));
    t.record_encounters(&names, true, 7);
    let ahri = t.get_champion("Ahri").unwrap();
    assert_eq!(ahri.times_faced, 2);
    assert_eq!(ahri.wins_against, 2);
    assert_eq!(ahri.recency_score, 14);
    assert_eq!(t.get_champion("Zed").unwrap().times_faced, 1);
}

#[test]
fn tracker_room_check_detects_overflow() {
    let mut t = ChampionStatsTracker::new();
    t.add_champion_encounter("Ahri".to_string(), true, u64::MAX - 3);
    assert!(t.has_room_for(1, 3));
    assert!(!t.has_room_for(1, 4));
    assert!(!t.has_room_for(2, 2));
}

#[test]
fn win_rate_is_zero_without_games() {
    assert_eq!(stat("Ahri", 0, 0, 0).win_rate(), 0);
}

#[test]
fn win_rate_is_the_ratio_in_millionths() {
    assert_eq!(stat("Ahri", 5, 1, 0).win_rate(), 200_000);
    assert_eq!(stat("Ahri", 3, 1, 0).win_rate(), 333_333);
    assert_eq!(stat("Ahri", 4, 4, 0).win_rate(), 1_000_000);
}

#[test]
fn frequency_is_the_share_of_games() {
    assert_eq!(stat("Ahri", 5, 1, 0).frequency(20), 250_000);
    assert_eq!(stat("Ahri", 5, 1, 0).frequency(0), 0);
    assert_eq!(stat("Ahri", 1, 0, 0).frequency(3), 333_333);
}

#[test]
fn score_example() {
    // frequency 0.25, win rate 0.2, recency 0.8 of the largest
    let s = stat("Ahri", 5, 1, 8);
    assert_eq!(BanRecommender::calculate_score(&s, 20, 10), 580_000);
}

#[test]
fn score_without_recency() {
    let s = stat("Ahri", 5, 1, 8);
    // 0.4 * 0.25 + 0.5 * 0.8 = 0.5
    assert_eq!(BanRecommender::calculate_score(&s, 20, 0), 500_000);
}

#[test]
fn rank_bans_of_nothing_is_empty() {
    let r = BanRecommender::get_recommendations(Vec::new(), 20, 5);
    assert!(r.is_empty());
}

#[test]
fn rank_bans_top_three_of_ten() {
    let mut stats = Vec::new();
    for i in 0..10u64 {
        let n = i as usize;
        stats.push(stat(&format!("C{}", i), n + 1, n / 2, i * 3));
    }
    let r = BanRecommender::get_recommendations(stats, 20, 3);
    assert_eq!(r.len(), 3);
    assert!(r[0].score >= r[1].score);
    assert!(r[1].score >= r[2].score);
    let all = {
        let mut stats = Vec::new();
        for i in 0..10u64 {
            let n = i as usize;
            stats.push(stat(&format!("C{}", i), n + 1, n / 2, i * 3));
        }
        BanRecommender::get_recommendations(stats, 20, 10)
    };
    assert_eq!(all.len(), 10);
    for k in 0..3 {
        assert_eq!(all[k].champion_name, r[k].champion_name);
    }
    for k in 3..10 {
        assert!(all[k].score <= r[2].score);
    }
}

#[test]
fn rank_bans_fields_and_order() {
    let stats = vec![
        stat("Low", 1, 1, 1),
        stat("High", 10, 0, 10),
        stat("Mid", 5, 2, 5),
    ];
    let r = BanRecommender::get_recommendations(stats, 10, 10);
    let names: Vec<&str> = r.iter().map(|b| b.champion_name.as_str()).collect();
    assert_eq!(names, vec!["High", "Mid", "Low"]);
    // High: 0.4 * 1 + 0.5 * 1 + 0.1 * 1
    assert_eq!(r[0].score, 1_000_000);
    assert_eq!(r[0].frequency, 1_000_000);
    assert_eq!(r[0].win_rate, 0);
    assert_eq!(r[0].times_faced, 10);
    // Mid: 0.4 * 0.5 + 0.5 * 0.6 + 0.1 * 0.5
    assert_eq!(r[1].score, 550_000);
    assert_eq!(r[1].win_rate, 400_000);
}

#[test]
fn rank_bans_ties_keep_input_order() {
    let stats = vec![stat("A", 2, 1, 4), stat("B", 2, 1, 4), stat("C", 2, 1, 4)];
    let r = BanRecommender::get_recommendations(stats, 4, 2);
    assert_eq!(r.len(), 2);
    assert_eq!(r[0].champion_name, "A");
    assert_eq!(r[1].champion_name, "B");
}

#[test]
fn rank_bans_top_zero_is_empty() {
    let r = BanRecommender::get_recommendations(vec![stat("A", 2, 1, 4)], 4, 0);
    assert!(r.is_empty());
}

#[test]
fn rank_allies_filters_and_orders() {
    let stats = vec![
        stat("Once", 1, 0, 1),
        stat("Good", 4, 3, 1),
        stat("Bad", 2, 0, 1),
        stat("Even", 2, 1, 1),
    ];
    let r = BanRecommender::analyze_allies(stats, 2);
    let names: Vec<&str> = r.iter().map(|a| a.champion_name.as_str()).collect();
    assert_eq!(names, vec!["Bad", "Even", "Good"]);
    assert_eq!(r[0].win_rate, 0);
    assert_eq!(r[1].win_rate, 500_000);
    assert_eq!(r[2].win_rate, 750_000);
    assert_eq!(r[2].times_played_together, 4);
    assert_eq!(r[2].wins_together, 3);
}

#[test]
fn rank_allies_of_nothing_is_empty() {
    assert!(BanRecommender::analyze_allies(Vec::new(), 1).is_empty());
}

#[test]
fn ally_analysis_computes_win_rate() {
    let a = AllyAnalysis::new("Lux".to_string(), 4, 1);
    assert_eq!(a.win_rate, 250_000);
    let b = AllyAnalysis::new("Lux".to_string(), 0, 0);
    assert_eq!(b.win_rate, 0);
}

#[test]
fn ban_recommendation_keeps_fields() {
    let b = BanRecommendation::new("Zed".to_string(), 1, 2, 3, 4);
    assert_eq!(b.champion_name, "Zed");
    assert_eq!((b.score, b.frequency, b.win_rate, b.times_faced), (1, 2, 3, 4));
}

#[test]
fn champion_stats_new_is_empty() {
    let s = ChampionStats::new("Zed".to_string());
    assert_eq!((s.times_faced, s.wins_against, s.recency_score), (0, 0, 0));
    assert_eq!(s.name, "Zed");
}
