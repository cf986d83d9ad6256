use vstd::prelude::*;
use vstd::string::StringExecFns;
use crate::cache::{CachedMatch, contains_id, has_id};
use crate::models::ParticipantDto;

verus! {

/// Most matches analysed in one run.
pub const MAX_MATCHES: usize = 100;

/// The team assumed for the tracked player when a match does not list them.
pub const DEFAULT_TEAM_ID: i32 = 100;

/// The champion shown when a match does not list the tracked player.
pub const UNKNOWN_CHAMPION: &'static str = "Unknown";

/// The tracked player's side of one match.
#[derive(Debug)]
pub struct MatchParticipation {
    pub player_champion: String,
    pub won: bool,
    pub team_id: i32,
    /// Champions of the other team, in the match's order.
    pub enemy_champions: Vec<String>,
    /// Champions of the player's team other than the player, in the match's order.
    pub ally_champions: Vec<String>,
}

/// `i` is the first participant with the account `puuid`.
pub open spec fn is_first_with(ps: Seq<ParticipantDto>, puuid: Seq<char>, i: int) -> bool {
    &&& 0 <= i < ps.len()
    &&& ps[i].puuid@ == puuid
    &&& forall|j: int| 0 <= j < i ==> (#[trigger] ps[j]).puuid@ != puuid
}

/// Where the tracked player stands among the participants; -1 when absent.
pub open spec fn player_index(ps: Seq<ParticipantDto>, puuid: Seq<char>) -> int {
    if exists|i: int| is_first_with(ps, puuid, i) {
        choose|i: int| is_first_with(ps, puuid, i)
    } else {
        -1
    }
}

pub open spec fn player_team(ps: Seq<ParticipantDto>, puuid: Seq<char>) -> i32 {
    if player_index(ps, puuid) >= 0 {
        ps[player_index(ps, puuid)].team_id
    } else {
        DEFAULT_TEAM_ID
    }
}

/// Participants of a team other than `team`.
pub open spec fn opposes(team: i32) -> spec_fn(ParticipantDto) -> bool {
    |p: ParticipantDto| p.team_id != team
}

/// Participants of `team` other than the player `puuid`.
pub open spec fn sides_with(team: i32, puuid: Seq<char>) -> spec_fn(ParticipantDto) -> bool {
    |p: ParticipantDto| p.team_id == team && p.puuid@ != puuid
}

pub open spec fn champions_of(ps: Seq<ParticipantDto>) -> Seq<String> {
    ps.map_values(|p: ParticipantDto| p.champion_name)
}

/// Splits one match's participants into the tracked player `puuid`, the
/// opposing champions and the allied champions. A player that the match does
/// not list is taken to be on the default team, with an unknown champion and
/// a loss.
pub fn classify_participants(participants: &Vec<ParticipantDto>, puuid: &String) -> (r:
    MatchParticipation)
    ensures
        ({
            let ps = participants@;
            let i = player_index(ps, puuid@);
            let team = player_team(ps, puuid@);
            &&& r.team_id == team
            &&& r.won == (i >= 0 && ps[i].win)
            &&& i >= 0 ==> r.player_champion == ps[i].champion_name
            &&& i < 0 ==> r.player_champion@ == UNKNOWN_CHAMPION@
            &&& r.enemy_champions@ == champions_of(ps.filter(opposes(team)))
            &&& r.ally_champions@ == champions_of(ps.filter(sides_with(team, puuid@)))
        }),
{
    let ghost ps = participants@;
    let n = participants.len();
    let mut i: usize = 0;
    while i < n
        invariant
            n == ps.len(),
            ps == participants@,
            0 <= i <= n,
            forall|j: int| 0 <= j < i ==> (#[trigger] ps[j]).puuid@ != puuid@,
        ensures
            i < n ==> is_first_with(ps, puuid@, i as int),
        decreases n - i,
    {
        if participants[i].puuid == *puuid {
            break;
        }
        i = i + 1;
    }
    proof {
        if i < n {
            assert(is_first_with(ps, puuid@, i as int));
            let c = choose|c: int| is_first_with(ps, puuid@, c);
            if c < i {
                assert(ps[c].puuid@ != puuid@);
            }
            if c > i {
                assert(ps[i as int].puuid@ != puuid@);
            }
            assert(player_index(ps, puuid@) == i);
        } else {
            assert(!exists|c: int| is_first_with(ps, puuid@, c));
        }
    }
    let (team_id, won, player_champion) = if i < n {
        let p = &participants[i];
        (p.team_id, p.win, p.champion_name.clone())
    } else {
        (DEFAULT_TEAM_ID, false, String::from_str(UNKNOWN_CHAMPION))
    };
    let ghost enemy_pred = opposes(team_id);
    let ghost ally_pred = sides_with(team_id, puuid@);
    let mut enemy_champions: Vec<String> = Vec::new();
    let mut ally_champions: Vec<String> = Vec::new();
    let mut k: usize = 0;
    while k < n
        invariant
            n == ps.len(),
            ps == participants@,
            0 <= k <= n,
            enemy_pred == opposes(team_id),
            ally_pred == sides_with(team_id, puuid@),
            enemy_champions@ == champions_of(ps.subrange(0, k as int).filter(enemy_pred)),
            ally_champions@ == champions_of(ps.subrange(0, k as int).filter(ally_pred)),
        decreases n - k,
    {
        let p = &participants[k];
        proof {
            reveal(Seq::filter);
            assert(ps.subrange(0, k + 1).drop_last() =~= ps.subrange(0, k as int));
            assert(ps.subrange(0, k + 1).last() == *p);
        }
        if p.team_id != team_id {
            enemy_champions.push(p.champion_name.clone());
            proof {
                assert(champions_of(ps.subrange(0, k as int).filter(enemy_pred).push(*p))
                    =~= champions_of(ps.subrange(0, k as int).filter(enemy_pred)).push(
                    p.champion_name,
                ));
            }
        } else if p.puuid != *puuid {
            ally_champions.push(p.champion_name.clone());
            proof {
                assert(champions_of(ps.subrange(0, k as int).filter(ally_pred).push(*p))
                    =~= champions_of(ps.subrange(0, k as int).filter(ally_pred)).push(
                    p.champion_name,
                ));
            }
        }
        k = k + 1;
    }
    proof {
        assert(ps.subrange(0, n as int) =~= ps);
    }
    MatchParticipation { player_champion, won, team_id, enemy_champions, ally_champions }
}

/// How many match identifiers to ask for: the matches wanted, at most
/// `MAX_MATCHES`, after skipping `offset`, and never more than `MAX_MATCHES`
/// in all.
pub fn match_request_size(matches: usize, offset: usize) -> (r: usize)
    ensures
        r == vstd::math::min(vstd::math::min(matches as int, MAX_MATCHES as int) + offset, MAX_MATCHES as int),
{
    let wanted = if matches < MAX_MATCHES {
        matches
    } else {
        MAX_MATCHES
    };
    if offset >= MAX_MATCHES {
        MAX_MATCHES
    } else if wanted + offset < MAX_MATCHES {
        wanted + offset
    } else {
        MAX_MATCHES
    }
}

/// The identifiers to analyse: skip `offset` of them, then take `matches`,
/// at most `MAX_MATCHES`.
pub fn analysis_window(ids: &Vec<String>, offset: usize, matches: usize) -> (r: Vec<String>)
    ensures
        ({
            let lo = vstd::math::min(offset as int, ids@.len() as int);
            let hi = vstd::math::min(lo + vstd::math::min(matches as int, MAX_MATCHES as int), ids@.len() as int);
            r@ == ids@.subrange(lo, hi)
        }),
{
    let n = ids.len();
    let lo = if offset < n {
        offset
    } else {
        n
    };
    let count = if matches < MAX_MATCHES {
        matches
    } else {
        MAX_MATCHES
    };
    let hi = if count < n - lo {
        lo + count
    } else {
        n
    };
    let mut r: Vec<String> = Vec::new();
    let mut i: usize = lo;
    while i < hi
        invariant
            lo <= i <= hi <= n,
            n == ids@.len(),
            r@ == ids@.subrange(lo as int, i as int),
        decreases hi - i,
    {
        r.push(ids[i].clone());
        proof {
            assert(r@ =~= ids@.subrange(lo as int, i + 1));
        }
        i = i + 1;
    }
    r
}

/// Identifiers that no match of `cached` has.
pub open spec fn unseen_in(cached: Seq<CachedMatch>) -> spec_fn(String) -> bool {
    |id: String| !has_id(cached, id@)
}

pub open spec fn ids_of(matches: Seq<CachedMatch>) -> Seq<String> {
    matches.map_values(|m: CachedMatch| m.id)
}

/// The match identifiers to analyse. Without the cache, those the API gave.
/// With it, those of the API's identifiers that the cache lacks, followed by
/// every cached identifier, newest first.
pub fn ids_to_analyze(api_ids: &Vec<String>, cached: &Vec<CachedMatch>, use_cache: bool) -> (r: Vec<
    String,
>)
    ensures
        use_cache ==> r@ == api_ids@.filter(unseen_in(cached@)) + ids_of(cached@),
        !use_cache ==> r@ == api_ids@,
{
    let mut r: Vec<String> = Vec::new();
    let ghost pred = unseen_in(cached@);
    let mut i: usize = 0;
    while i < api_ids.len()
        invariant
            0 <= i <= api_ids@.len(),
            pred == unseen_in(cached@),
            use_cache ==> r@ == api_ids@.subrange(0, i as int).filter(pred),
            !use_cache ==> r@ == api_ids@.subrange(0, i as int),
        decreases api_ids@.len() - i,
    {
        let id = &api_ids[i];
        proof {
            reveal(Seq::filter);
            assert(api_ids@.subrange(0, i + 1).drop_last() =~= api_ids@.subrange(0, i as int));
            assert(api_ids@.subrange(0, i + 1).last() == *id);
        }
        if !use_cache || !contains_id(cached, id) {
            r.push(id.clone());
        }
        proof {
            assert(!use_cache ==> r@ =~= api_ids@.subrange(0, i + 1));
        }
        i = i + 1;
    }
    proof {
        assert(api_ids@.subrange(0, api_ids@.len() as int) =~= api_ids@);
    }
    if use_cache {
        let ghost front = r@;
        let mut j: usize = 0;
        while j < cached.len()
            invariant
                0 <= j <= cached@.len(),
                r@ == front + ids_of(cached@.subrange(0, j as int)),
            decreases cached@.len() - j,
        {
            r.push(cached[j].id.clone());
            proof {
                assert(ids_of(cached@.subrange(0, j + 1)) =~= ids_of(cached@.subrange(0, j as int)).push(
                    cached@[j as int].id,
                ));
                assert(r@ =~= front + ids_of(cached@.subrange(0, j + 1)));
            }
            j = j + 1;
        }
        proof {
            assert(cached@.subrange(0, cached@.len() as int) =~= cached@);
        }
    }
    r
}

/// Recency weight of the match at `index` (0 is the newest) among `total`
/// analysed matches, in units of one `total`-th: the newest match weighs
/// `total`, the oldest 1.
pub fn recency_weight(index: usize, total: usize) -> (r: u64)
    requires
        index < total,
    ensures
        r == total - index,
{
    (total - index) as u64
}

} // verus!
