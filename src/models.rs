use vstd::prelude::*;
use std::collections::HashMap;

verus! {

/// An account looked up by its Riot ID.
#[derive(Debug, Clone)]
pub struct AccountDto {
    pub puuid: String,
    pub game_name: String,
    pub tag_line: String,
}

/// A summoner profile.
#[derive(Debug, Clone)]
pub struct SummonerDto {
    pub id: String,
    pub puuid: String,
    pub name: String,
    pub summoner_level: i32,
    pub profile_icon_id: i32,
    pub revision_date: i64,
}

/// A ranked standing.
#[derive(Debug, Clone)]
pub struct LeagueEntryDto {
    pub summoner_id: String,
    pub rank: String,
    pub tier: String,
    pub league_points: i32,
    pub wins: i32,
    pub losses: i32,
}

/// One match in detail.
#[derive(Debug, Clone)]
pub struct MatchDto {
    pub metadata: MatchMetadata,
    pub info: MatchInfo,
}

#[derive(Debug, Clone)]
pub struct MatchMetadata {
    pub match_id: String,
    pub participants: Vec<String>,
    pub data_version: String,
}

#[derive(Debug, Clone)]
pub struct MatchInfo {
    pub game_duration: i64,
    pub participants: Vec<ParticipantDto>,
    pub game_id: i64,
}

/// One player of a match.
#[derive(Debug, Clone)]
pub struct ParticipantDto {
    pub puuid: String,
    pub champion_id: i32,
    pub champion_name: String,
    pub team_id: i32,
    pub win: bool,
    pub lane: String,
    pub role: String,
}

/// The champion list of the static game data, keyed by champion id.
#[derive(Debug, Clone)]
pub struct DataDragonChampions {
    pub data: HashMap<String, ChampionInfo>,
}

#[derive(Debug, Clone)]
pub struct ChampionInfo {
    pub id: String,
    pub name: String,
    pub key: String,
}

} // verus!
