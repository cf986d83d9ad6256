use vstd::prelude::*;
use vstd::string::StringExecFns;
use crate::ranking::{
    is_ranking,
    key_ints,
    lemma_identity_ranking,
    lemma_ranking_unique,
    rank_by_key,
    reorder,
};

verus! {

/// Milliseconds in a minute.
pub const MILLIS_PER_MINUTE: u64 = 60_000;

/// One match as remembered for a player. `timestamp` is in milliseconds since
/// the Unix epoch.
#[derive(Debug, Clone)]
pub struct CachedMatch {
    pub id: String,
    pub champion: String,
    pub won: bool,
    pub enemies: Vec<String>,
    pub timestamp: i64,
}

/// The account summary last fetched for a player. `cached_at` is in
/// milliseconds since the Unix epoch.
#[derive(Debug, Clone)]
pub struct CachedAccount {
    pub puuid: String,
    pub summoner_name: String,
    pub summoner_level: i32,
    pub cached_at: i64,
}

/// The matches remembered for one player, newest first. `last_updated` is in
/// milliseconds since the Unix epoch.
#[derive(Debug)]
pub struct MatchCache {
    pub player: String,
    pub region: String,
    pub last_updated: i64,
    pub matches: Vec<CachedMatch>,
    pub account: Option<CachedAccount>,
}

/// The two matches hold the same values.
pub open spec fn same_match(a: CachedMatch, b: CachedMatch) -> bool {
    &&& a.id == b.id
    &&& a.champion == b.champion
    &&& a.won == b.won
    &&& a.enemies@ == b.enemies@
    &&& a.timestamp == b.timestamp
}

/// Some match of `s` has the identifier `id`.
pub open spec fn has_id(s: Seq<CachedMatch>, id: Seq<char>) -> bool {
    exists|i: int| 0 <= i < s.len() && #[trigger] s[i].id@ == id
}

/// No two matches of `s` share an identifier.
pub open spec fn ids_unique(s: Seq<CachedMatch>) -> bool {
    forall|i: int, j: int|
        0 <= i < s.len() && 0 <= j < s.len() && #[trigger] s[i].id@ == #[trigger] s[j].id@ ==> i == j
}

/// `existing` followed by each match of `batch`, in order, whose identifier
/// is not yet present.
pub open spec fn appended(existing: Seq<CachedMatch>, batch: Seq<CachedMatch>) -> Seq<CachedMatch>
    decreases batch.len(),
{
    if batch.len() == 0 {
        existing
    } else {
        let before = appended(existing, batch.drop_last());
        if has_id(before, batch.last().id@) {
            before
        } else {
            before.push(batch.last())
        }
    }
}

pub open spec fn time_keys(s: Seq<CachedMatch>) -> Seq<int> {
    s.map_values(|m: CachedMatch| m.timestamp as int)
}

/// Newest first: timestamps never rise along `s`.
pub open spec fn newest_first(s: Seq<CachedMatch>) -> bool {
    forall|k: int, l: int| 0 <= k < l < s.len() ==> #[trigger] s[k].timestamp >= #[trigger] s[l].timestamp
}

/// `merged` is `existing` with the new matches of `batch` appended, then
/// ordered newest first, matches with equal timestamps keeping their order.
pub open spec fn is_merge_of(
    existing: Seq<CachedMatch>,
    batch: Seq<CachedMatch>,
    merged: Seq<CachedMatch>,
) -> bool {
    exists|order: Seq<int>|
        #[trigger] is_ranking(time_keys(appended(existing, batch)), order) && merged == reorder(
            appended(existing, batch),
            order,
        )
}

/// Whether a cache updated at `last_updated` is stale at `now`: the whole
/// minutes elapsed exceed `max_age_mins`, that is, at least
/// `max_age_mins + 1` full minutes have passed.
pub open spec fn stale(last_updated: int, now: int, max_age_mins: int) -> bool {
    now - last_updated >= (max_age_mins + 1) * MILLIS_PER_MINUTE
}

proof fn lemma_appended_keeps(existing: Seq<CachedMatch>, batch: Seq<CachedMatch>)
    ensures
        appended(existing, batch).len() >= existing.len(),
        forall|i: int| 0 <= i < existing.len() ==> #[trigger] appended(existing, batch)[i] == existing[i],
        forall|j: int| 0 <= j < batch.len() ==> has_id(appended(existing, batch), #[trigger] batch[j].id@),
        ids_unique(existing) ==> ids_unique(appended(existing, batch)),
        forall|i: int| 0 <= i < appended(existing, batch).len() ==> (#[trigger] appended(existing, batch)[i]
            == existing[i] && i < existing.len()) || batch.contains(appended(existing, batch)[i]),
    decreases batch.len(),
{
    if batch.len() > 0 {
        let before = appended(existing, batch.drop_last());
        lemma_appended_keeps(existing, batch.drop_last());
        let after = appended(existing, batch);
        let last = batch.last();
        assert forall|j: int| 0 <= j < batch.len() implies has_id(after, #[trigger] batch[j].id@) by {
            if j < batch.len() - 1 {
                assert(batch.drop_last()[j] == batch[j]);
                let i = choose|i: int| 0 <= i < before.len() && #[trigger] before[i].id@ == batch[j].id@;
                assert(after[i] == before[i]);
            } else if !has_id(before, last.id@) {
                assert(after[before.len() as int] == last);
            }
        }
        assert forall|i: int| 0 <= i < after.len() implies (#[trigger] after[i] == existing[i] && i
            < existing.len()) || batch.contains(after[i]) by {
            if i < before.len() {
                assert(after[i] == before[i]);
                if !(before[i] == existing[i] && i < existing.len()) {
                    let k = choose|k: int| 0 <= k < batch.drop_last().len() && batch.drop_last()[k] == before[i];
                    assert(batch[k] == before[i]);
                }
            } else {
                assert(batch[batch.len() - 1] == after[i]);
            }
        }
    }
}

/// Where every identifier of `batch` is already present, appending adds nothing.
proof fn lemma_appended_nothing_new(existing: Seq<CachedMatch>, batch: Seq<CachedMatch>)
    requires
        forall|j: int| 0 <= j < batch.len() ==> has_id(existing, #[trigger] batch[j].id@),
    ensures
        appended(existing, batch) == existing,
    decreases batch.len(),
{
    if batch.len() > 0 {
        assert forall|j: int| 0 <= j < batch.drop_last().len() implies has_id(
            existing,
            #[trigger] batch.drop_last()[j].id@,
        ) by {
            assert(batch.drop_last()[j] == batch[j]);
        }
        lemma_appended_nothing_new(existing, batch.drop_last());
        assert(has_id(existing, batch[batch.len() - 1].id@));
    }
}

/// A ranking by time puts the matches newest first, holds every identifier
/// it was given, and keeps identifiers unique.
proof fn lemma_reorder_by_time(s: Seq<CachedMatch>, order: Seq<int>)
    requires
        is_ranking(time_keys(s), order),
    ensures
        newest_first(reorder(s, order)),
        forall|id: Seq<char>| has_id(s, id) ==> #[trigger] has_id(reorder(s, order), id),
        ids_unique(s) ==> ids_unique(reorder(s, order)),
{
    let r = reorder(s, order);
    assert forall|k: int, l: int| 0 <= k < l < r.len() implies #[trigger] r[k].timestamp
        >= #[trigger] r[l].timestamp by {
        assert(r[k] == s[order[k]]);
        assert(r[l] == s[order[l]]);
    }
    assert forall|id: Seq<char>| has_id(s, id) implies #[trigger] has_id(r, id) by {
        let i = choose|i: int| 0 <= i < s.len() && #[trigger] s[i].id@ == id;
        assert(order.contains(i));
        let k = choose|k: int| 0 <= k < order.len() && order[k] == i;
        assert(r[k] == s[i]);
    }
    if ids_unique(s) {
        assert forall|k: int, l: int|
            0 <= k < r.len() && 0 <= l < r.len() && #[trigger] r[k].id@ == #[trigger] r[l].id@ implies k
            == l by {
            assert(r[k] == s[order[k]]);
            assert(r[l] == s[order[l]]);
        }
    }
}

/// Merging one batch twice leaves the same matches as merging it once.
pub proof fn lemma_merge_idempotent(
    existing: Seq<CachedMatch>,
    batch: Seq<CachedMatch>,
    once: Seq<CachedMatch>,
    twice: Seq<CachedMatch>,
)
    requires
        is_merge_of(existing, batch, once),
        is_merge_of(once, batch, twice),
    ensures
        twice == once,
{
    let all = appended(existing, batch);
    let order = choose|order: Seq<int>| #[trigger] is_ranking(time_keys(all), order) && once == reorder(all, order);
    lemma_appended_keeps(existing, batch);
    lemma_reorder_by_time(all, order);
    assert forall|j: int| 0 <= j < batch.len() implies has_id(once, #[trigger] batch[j].id@) by {
        assert(has_id(all, batch[j].id@));
    }
    lemma_appended_nothing_new(once, batch);
    let order2 = choose|o: Seq<int>| #[trigger] is_ranking(time_keys(appended(once, batch)), o) && twice
        == reorder(appended(once, batch), o);
    let keys = time_keys(once);
    assert forall|k: int, l: int| 0 <= k < l < keys.len() implies keys[k] >= keys[l] by {
        assert(once[k].timestamp >= once[l].timestamp);
    }
    lemma_identity_ranking(keys);
    lemma_ranking_unique(keys, order2, Seq::new(keys.len(), |i: int| i));
    assert(twice =~= once);
}

/// After a merge the matches are newest first.
pub proof fn lemma_merge_newest_first(
    existing: Seq<CachedMatch>,
    batch: Seq<CachedMatch>,
    merged: Seq<CachedMatch>,
)
    requires
        is_merge_of(existing, batch, merged),
    ensures
        newest_first(merged),
{
    let all = appended(existing, batch);
    let order = choose|order: Seq<int>| #[trigger] is_ranking(time_keys(all), order) && merged == reorder(all, order);
    lemma_reorder_by_time(all, order);
}

/// A copy of a list of names, equal to it.
fn copy_names(v: &Vec<String>) -> (r: Vec<String>)
    ensures
        r@ == v@,
{
    let mut r: Vec<String> = Vec::new();
    let mut i: usize = 0;
    while i < v.len()
        invariant
            0 <= i <= v@.len(),
            r@ == v@.subrange(0, i as int),
        decreases v@.len() - i,
    {
        r.push(v[i].clone());
        i = i + 1;
    }
    proof {
        assert(r@ =~= v@);
    }
    r
}

/// Whether some match of `matches` has the identifier `id`.
pub(crate) fn contains_id(matches: &Vec<CachedMatch>, id: &String) -> (r: bool)
    ensures
        r == has_id(matches@, id@),
{
    let mut i: usize = 0;
    while i < matches.len()
        invariant
            0 <= i <= matches@.len(),
            forall|j: int| 0 <= j < i ==> #[trigger] matches@[j].id@ != id@,
        decreases matches@.len() - i,
    {
        if matches[i].id == *id {
            return true;
        }
        i = i + 1;
    }
    false
}

impl CachedMatch {
    /// A copy with the same contents.
    pub fn duplicate(&self) -> (r: CachedMatch)
        ensures
            same_match(r, *self),
    {
        let enemies = copy_names(&self.enemies);
        CachedMatch {
            id: self.id.clone(),
            champion: self.champion.clone(),
            won: self.won,
            enemies,
            timestamp: self.timestamp,
        }
    }
}

impl CachedAccount {
    /// A copy equal to this value.
    pub fn duplicate(&self) -> (r: CachedAccount)
        ensures
            r == *self,
    {
        CachedAccount {
            puuid: self.puuid.clone(),
            summoner_name: self.summoner_name.clone(),
            summoner_level: self.summoner_level,
            cached_at: self.cached_at,
        }
    }
}

impl MatchCache {
    /// An empty cache for `player` in `region`, updated at `now`.
    pub fn new(player: &str, region: &str, now: i64) -> (r: MatchCache)
        ensures
            r.player@ == player@,
            r.region@ == region@,
            r.matches@.len() == 0,
            r.account.is_none(),
            r.last_updated == now,
    {
        MatchCache {
            player: String::from_str(player),
            region: String::from_str(region),
            last_updated: now,
            matches: Vec::new(),
            account: None,
        }
    }

    /// Remembers the player's account summary, fetched at `now`.
    pub fn set_account(&mut self, puuid: String, summoner_name: String, summoner_level: i32, now: i64)
        ensures
            final(self).account.is_some(),
            final(self).account->0.puuid == puuid,
            final(self).account->0.summoner_name == summoner_name,
            final(self).account->0.summoner_level == summoner_level,
            final(self).account->0.cached_at == now,
            final(self).player == old(self).player,
            final(self).region == old(self).region,
            final(self).last_updated == old(self).last_updated,
            final(self).matches == old(self).matches,
    {
        self.account = Some(CachedAccount { puuid, summoner_name, summoner_level, cached_at: now });
    }

    pub fn get_cached_account(&self) -> (r: Option<CachedAccount>)
        ensures
            r == self.account,
    {
        match &self.account {
            Some(a) => Some(a.duplicate()),
            None => None,
        }
    }

    /// Adds the matches of `new_matches` whose identifiers are not yet
    /// present, orders all matches newest first, and marks the cache updated
    /// at `now`.
    pub fn add_matches(&mut self, new_matches: Vec<CachedMatch>, now: i64)
        ensures
            is_merge_of(old(self).matches@, new_matches@, final(self).matches@),
            newest_first(final(self).matches@),
            ids_unique(old(self).matches@) ==> ids_unique(final(self).matches@),
            final(self).last_updated == now,
            final(self).player == old(self).player,
            final(self).region == old(self).region,
            final(self).account == old(self).account,
    {
        let ghost existing = self.matches@;
        let ghost batch = new_matches@;
        let mut all: Vec<CachedMatch> = Vec::new();
        std::mem::swap(&mut self.matches, &mut all);
        let mut rest = new_matches;
        let n = rest.len();
        let mut i: usize = 0;
        while i < n
            invariant
                n == batch.len(),
                0 <= i <= n,
                rest@ == batch.subrange(i as int, n as int),
                all@ == appended(existing, batch.subrange(0, i as int)),
            decreases n - i,
        {
            let m = rest.remove(0);
            proof {
                assert(batch.subrange(0, i + 1).drop_last() =~= batch.subrange(0, i as int));
                assert(batch.subrange(0, i + 1).last() == m);
            }
            if !contains_id(&all, &m.id) {
                all.push(m);
            }
            proof {
                assert(rest@ =~= batch.subrange(i + 1, n as int));
            }
            i = i + 1;
        }
        proof {
            assert(batch.subrange(0, n as int) =~= batch);
        }
        let mut keys: Vec<i128> = Vec::new();
        let mut j: usize = 0;
        while j < all.len()
            invariant
                0 <= j <= all@.len(),
                keys@.len() == j,
                forall|k: int| 0 <= k < j ==> #[trigger] keys@[k] as int == all@[k].timestamp as int,
            decreases all@.len() - j,
        {
            keys.push(all[j].timestamp as i128);
            j = j + 1;
        }
        let ghost gathered = all@;
        proof {
            assert(key_ints(keys@) =~= time_keys(gathered));
            lemma_appended_keeps(existing, batch);
        }
        let sorted = rank_by_key(all, &keys);
        proof {
            let order = choose|order: Seq<int>|
                is_ranking(key_ints(keys@), order) && sorted@ == reorder(gathered, order);
            lemma_reorder_by_time(gathered, order);
        }
        self.matches = sorted;
        self.last_updated = now;
    }

    /// The `count` newest matches, or all of them when there are fewer.
    pub fn get_recent_matches(&self, count: usize) -> (r: Vec<CachedMatch>)
        ensures
            r@.len() == if count < self.matches@.len() {
                count as int
            } else {
                self.matches@.len() as int
            },
            forall|i: int| 0 <= i < r@.len() ==> same_match(#[trigger] r@[i], self.matches@[i]),
    {
        let end = if count < self.matches.len() {
            count
        } else {
            self.matches.len()
        };
        let mut r: Vec<CachedMatch> = Vec::new();
        let mut i: usize = 0;
        while i < end
            invariant
                0 <= i <= end <= self.matches@.len(),
                r@.len() == i,
                forall|k: int| 0 <= k < i ==> same_match(#[trigger] r@[k], self.matches@[k]),
            decreases end - i,
        {
            r.push(self.matches[i].duplicate());
            i = i + 1;
        }
        r
    }

    /// Whether the whole minutes elapsed between the last update and `now`
    /// exceed `max_age_mins`.
    pub fn is_stale(&self, max_age_mins: u64, now: i64) -> (r: bool)
        ensures
            r == stale(self.last_updated as int, now as int, max_age_mins as int),
    {
        let age: i128 = now as i128 - self.last_updated as i128;
        let limit: i128 = max_age_mins as i128 + 1;
        proof {
            assert(limit * 60_000 <= 0x1_0000_0000_0000_0000 * 60_000) by (nonlinear_arith)
                requires
                    0 <= limit <= 0x1_0000_0000_0000_0000,
            ;
        }
        age >= limit * (MILLIS_PER_MINUTE as i128)
    }
}

} // verus!
