use league_detect::cache::CachedMatch;
use league_detect::client::{get_regional_routing, on_rate_limited, RetryDecision};
use league_detect::error::AppError;
use league_detect::models::ParticipantDto;
use league_detect::session::{
    analysis_window, classify_participants, ids_to_analyze, match_request_size, recency_weight,
};

fn player(puuid: &str, champion: &str, team_id: i32, win: bool) -> ParticipantDto {
    ParticipantDto {
        puuid: puuid.to_string(),
        champion_id: 1,
        champion_name: champion.to_string(),
        team_id,
        win,
        lane: String::new(),
        role: String::new(),
    }
}

fn strings(v: &[&str]) -> Vec<String> {
    v.iter().map(|s| s.to_string()).collect()
}

#[test]
fn routing_by_region() {
    assert_eq!(get_regional_routing("na1"), "americas");
    assert_eq!(get_regional_routing("la2"), "americas");
    assert_eq!(get_regional_routing("euw1"), "europe");
    assert_eq!(get_regional_routing("ru"), "europe");
    assert_eq!(get_regional_routing("kr"), "asia");
    assert_eq!(get_regional_routing("jp1"), "asia");
    assert_eq!(get_regional_routing("oc1"), "sea");
    assert_eq!(get_regional_routing("vn2"), "sea");
    assert_eq!(get_regional_routing("mars"), "americas");
}

#[test]
fn retry_waits_longer_then_gives_up() {
    assert_eq!(on_rate_limited(0), RetryDecision::WaitAndRetry(2_000));
    assert_eq!(on_rate_limited(1), RetryDecision::WaitAndRetry(4_000));
    assert_eq!(on_rate_limited(2), RetryDecision::WaitAndRetry(6_000));
    assert_eq!(on_rate_limited(3), RetryDecision::GiveUp);
    assert_eq!(on_rate_limited(u32::MAX), RetryDecision::GiveUp);
}

#[test]
fn error_messages() {
    assert_eq!(AppError::ApiError("x".to_string()).message(), "API error: x");
    assert_eq!(
        AppError::RateLimited.message(),
        "Rate limit exceeded, please try again later"
    );
    assert_eq!(
        AppError::InvalidRiotId.message(),
        "Invalid Riot ID format. Use format: Name#TAG"
    );
    assert_eq!(
        AppError::PlayerNotFound("A#B".to_string()).message(),
        "Player not found: A#B"
    );
    assert_eq!(
        AppError::NoRankedGames.message(),
        "No ranked games found for this player"
    );
    assert_eq!(
        AppError::ConfigError("k".to_string()).message(),
        "Configuration error: k"
    );
    assert_eq!(AppError::HttpError("h".to_string()).message(), "HTTP error: h");
    assert_eq!(
        AppError::JsonError("j".to_string()).message(),
        "JSON parsing error: j"
    );
}

#[test]
fn participants_split_by_team() {
    let ps = vec![
        player("e1", "Zed", 200, false),
        player("a1", "Lux", 100, true),
        player("me", "Ahri", 100, true),
        player("e2", "Yasuo", 200, false),
        player("a2", "Garen", 100, true),
    ];
    let p = classify_participants(&ps, &"me".to_string());
    assert_eq!(p.player_champion, "Ahri");
    assert!(p.won);
    assert_eq!(p.team_id, 100);
    assert_eq!(p.enemy_champions, strings(&["Zed", "Yasuo"]));
    assert_eq!(p.ally_champions, strings(&["Lux", "Garen"]));
}

#[test]
fn participants_without_the_player() {
    let ps = vec![player("e1", "Zed", 200, true), player("a1", "Lux", 100, true)];
    let p = classify_participants(&ps, &"me".to_string());
    assert_eq!(p.player_champion, "Unknown");
    assert!(!p.won);
    assert_eq!(p.team_id, 100);
    assert_eq!(p.enemy_champions, strings(&["Zed"]));
    assert_eq!(p.ally_champions, strings(&["Lux"]));
}

#[test]
fn request_size_is_capped() {
    assert_eq!(match_request_size(20, 0), 20);
    assert_eq!(match_request_size(20, 30), 50);
    assert_eq!(match_request_size(500, 0), 100);
    assert_eq!(match_request_size(60, 60), 100);
    assert_eq!(match_request_size(10, usize::MAX), 100);
}

#[test]
fn window_skips_then_takes() {
    let all = strings(&["a", "b", "c", "d", "e"]);
    assert_eq!(analysis_window(&all, 1, 2), strings(&["b", "c"]));
    assert_eq!(analysis_window(&all, 3, 10), strings(&["d", "e"]));
    assert!(analysis_window(&all, 9, 2).is_empty());
    assert!(analysis_window(&all, 0, 0).is_empty());
}

#[test]
fn ids_new_first_then_cached() {
    let cached = vec![
        CachedMatch {
            id: "m2".to_string(),
            champion: "Ahri".to_string(),
            won: true,
            enemies: Vec::new(),
            timestamp: 20,
        },
        CachedMatch {
            id: "m1".to_string(),
            champion: "Ahri".to_string(),
            won: false,
            enemies: Vec::new(),
            timestamp: 10,
        },
    ];
    let api = strings(&["m4", "m3", "m2"]);
    assert_eq!(
        ids_to_analyze(&api, &cached, true),
        strings(&["m4", "m3", "m2", "m1"])
    );
    assert_eq!(ids_to_analyze(&api, &cached, false), api);
    assert_eq!(
        ids_to_analyze(&strings(&["m2"]), &cached, true),
        strings(&["m2", "m1"])
    );
}

#[test]
fn recency_weights_fall_with_age() {
    assert_eq!(recency_weight(0, 20), 20);
    assert_eq!(recency_weight(19, 20), 1);
}
