use vstd::prelude::*;
use vstd::string::StringExecFns;

verus! {

/// Fixed-point scale of every ratio in this crate: one whole is a million.
pub const SCALE: u64 = 1_000_000;

/// The three counters kept for one champion.
pub struct Tally {
    pub times_faced: nat,
    pub wins_against: nat,
    pub recency_score: nat,
}

/// One observed encounter: the champion, whether the tracked player won,
/// and the recency weight supplied by the caller.
pub struct Encounter {
    pub champion: Seq<char>,
    pub won: bool,
    pub weight: nat,
}

pub open spec fn empty_tally() -> Tally {
    Tally { times_faced: 0, wins_against: 0, recency_score: 0 }
}

/// The tallies after recording one encounter.
pub open spec fn recorded(
    m: Map<Seq<char>, Tally>,
    name: Seq<char>,
    won: bool,
    weight: nat,
) -> Map<Seq<char>, Tally> {
    let prev = if m.contains_key(name) {
        m[name]
    } else {
        empty_tally()
    };
    m.insert(
        name,
        Tally {
            times_faced: prev.times_faced + 1,
            wins_against: prev.wins_against + if won {
                1nat
            } else {
                0nat
            },
            recency_score: prev.recency_score + weight,
        },
    )
}

/// The tallies `m` after recording a sequence of encounters, in order.
pub open spec fn replay_onto(m: Map<Seq<char>, Tally>, evs: Seq<Encounter>) -> Map<Seq<char>, Tally>
    decreases evs.len(),
{
    if evs.len() == 0 {
        m
    } else {
        let e = evs.last();
        recorded(replay_onto(m, evs.drop_last()), e.champion, e.won, e.weight)
    }
}

/// The tallies after recording a whole sequence of encounters, in order,
/// starting from none.
pub open spec fn replay(evs: Seq<Encounter>) -> Map<Seq<char>, Tally> {
    replay_onto(Map::empty(), evs)
}

/// One encounter with each of `champions`, all with the same outcome and weight.
pub open spec fn encounters_with(champions: Seq<String>, won: bool, weight: nat) -> Seq<Encounter> {
    champions.map_values(|c: String| Encounter { champion: c@, won, weight })
}

/// Every tally can take `extra` more encounters of weight `weight` without
/// overflowing.
pub open spec fn has_room(m: Map<Seq<char>, Tally>, extra: nat, weight: nat) -> bool {
    &&& extra * weight <= u64::MAX
    &&& extra <= usize::MAX
    &&& forall|k: Seq<char>|
        #[trigger] m.contains_key(k) ==> m[k].times_faced + extra <= usize::MAX && m[k].recency_score
            + extra * weight <= u64::MAX
}

/// How many encounters of the sequence concern `name`.
pub open spec fn count_encounters(evs: Seq<Encounter>, name: Seq<char>) -> nat
    decreases evs.len(),
{
    if evs.len() == 0 {
        0
    } else {
        count_encounters(evs.drop_last(), name) + if evs.last().champion == name {
            1nat
        } else {
            0nat
        }
    }
}

/// How many encounters of the sequence concern `name` and were won.
pub open spec fn count_wins(evs: Seq<Encounter>, name: Seq<char>) -> nat
    decreases evs.len(),
{
    if evs.len() == 0 {
        0
    } else {
        count_wins(evs.drop_last(), name) + if evs.last().champion == name && evs.last().won {
            1nat
        } else {
            0nat
        }
    }
}

/// Win rate in millionths: `wins / times`, rounded down, and 0 when `times` is 0.
pub open spec fn win_rate_ppm(times: int, wins: int) -> int {
    if times == 0 {
        0
    } else {
        wins * SCALE / times
    }
}

/// Share of `total` games in millionths, rounded down, and 0 when `total` is 0.
pub open spec fn frequency_ppm(times: int, total: int) -> int {
    if total == 0 {
        0
    } else {
        times * SCALE / total
    }
}

/// Win rate in millionths of `wins` out of `times` games: the ratio rounded
/// down, and 0 when no game was played.
pub fn win_rate_of(times: usize, wins: usize) -> (r: u64)
    requires
        wins <= times,
    ensures
        r == win_rate_ppm(times as int, wins as int),
        r <= SCALE,
        times == 0 ==> r == 0,
        times > 0 ==> r * times <= wins * SCALE < (r + 1) * times,
{
    if times == 0 {
        0
    } else {
        let t = times as u128;
        let w = wins as u128;
        proof {
            lemma_ratio_bounds(w as int, t as int);
        }
        (w * (SCALE as u128) / t) as u64
    }
}

/// Counters for one champion.
#[derive(Debug)]
pub struct ChampionStats {
    pub name: String,
    pub times_faced: usize,
    pub wins_against: usize,
    /// Sum of the recency weights of all encounters.
    pub recency_score: u64,
}

impl ChampionStats {
    /// Wins never outnumber encounters.
    pub open spec fn wf(&self) -> bool {
        self.wins_against <= self.times_faced
    }

    pub open spec fn tally(&self) -> Tally {
        Tally {
            times_faced: self.times_faced as nat,
            wins_against: self.wins_against as nat,
            recency_score: self.recency_score as nat,
        }
    }

    pub fn new(name: String) -> (r: ChampionStats)
        ensures
            r.name == name,
            r.tally() == empty_tally(),
            r.wf(),
    {
        ChampionStats { name, times_faced: 0, wins_against: 0, recency_score: 0 }
    }

    /// Win rate in millionths.
    pub fn win_rate(&self) -> (r: u64)
        requires
            self.wf(),
        ensures
            r == win_rate_ppm(self.times_faced as int, self.wins_against as int),
            r <= SCALE,
            self.times_faced == 0 ==> r == 0,
            self.times_faced > 0 ==> r * self.times_faced <= self.wins_against * SCALE
                < (r + 1) * self.times_faced,
    {
        win_rate_of(self.times_faced, self.wins_against)
    }

    /// Share of `total_games` in which this champion was met, in millionths.
    pub fn frequency(&self, total_games: usize) -> (r: u128)
        ensures
            r == frequency_ppm(self.times_faced as int, total_games as int),
    {
        if total_games == 0 {
            0
        } else {
            let t = self.times_faced as u128;
            proof {
                vstd::arithmetic::mul::lemma_mul_upper_bound(
                    t as int,
                    0xffff_ffff_ffff_ffff,
                    SCALE as int,
                    SCALE as int,
                );
            }
            t * (SCALE as u128) / (total_games as u128)
        }
    }

    /// A copy equal to this value.
    pub fn duplicate(&self) -> (r: ChampionStats)
        ensures
            r == *self,
    {
        ChampionStats {
            name: self.name.clone(),
            times_faced: self.times_faced,
            wins_against: self.wins_against,
            recency_score: self.recency_score,
        }
    }
}

/// `wins * SCALE / times` lies in `[0, SCALE]` and is the floor of the ratio.
proof fn lemma_ratio_bounds(wins: int, times: int)
    requires
        0 <= wins <= times,
        times > 0,
    ensures
        0 <= wins * SCALE / times <= SCALE,
        (wins * SCALE / times) * times <= wins * SCALE < (wins * SCALE / times + 1) * times,
{
    let q = wins * SCALE / times;
    vstd::arithmetic::div_mod::lemma_fundamental_div_mod(wins * SCALE, times);
    vstd::arithmetic::div_mod::lemma_div_is_ordered(wins * SCALE, times * SCALE, times);
    vstd::arithmetic::div_mod::lemma_div_by_multiple(SCALE as int, times);
    vstd::arithmetic::div_mod::lemma_div_pos_is_pos(wins * SCALE, times);
    assert(wins * SCALE <= times * SCALE) by (nonlinear_arith)
        requires
            wins <= times,
    ;
    assert(times * SCALE == SCALE * times) by (nonlinear_arith);
    assert(q * times == times * q) by (nonlinear_arith);
    assert((q + 1) * times == q * times + times) by (nonlinear_arith);
}

/// For every sequence of encounters and every champion: the champion has
/// counters exactly when the sequence meets it, its `times_faced` is the number
/// of encounters with it, its `wins_against` the number of those won, and
/// `wins_against` never exceeds `times_faced`.
pub proof fn lemma_times_faced_counts_encounters(evs: Seq<Encounter>, name: Seq<char>)
    ensures
        replay(evs).contains_key(name) <==> count_encounters(evs, name) > 0,
        replay(evs).contains_key(name) ==> replay(evs)[name].times_faced == count_encounters(
            evs,
            name,
        ) && replay(evs)[name].wins_against == count_wins(evs, name)
            && replay(evs)[name].wins_against <= replay(evs)[name].times_faced,
        count_wins(evs, name) <= count_encounters(evs, name),
    decreases evs.len(),
{
    if evs.len() > 0 {
        lemma_times_faced_counts_encounters(evs.drop_last(), name);
    }
}

/// The tallies held by a sequence of stats, keyed by name.
pub open spec fn to_map(s: Seq<ChampionStats>) -> Map<Seq<char>, Tally>
    decreases s.len(),
{
    if s.len() == 0 {
        Map::empty()
    } else {
        to_map(s.drop_last()).insert(s.last().name@, s.last().tally())
    }
}

/// No two entries share a name.
pub open spec fn names_unique(s: Seq<ChampionStats>) -> bool {
    forall|i: int, j: int|
        0 <= i < s.len() && 0 <= j < s.len() && #[trigger] s[i].name@ == #[trigger] s[j].name@
            ==> i == j
}

proof fn lemma_to_map_keys(s: Seq<ChampionStats>, k: Seq<char>)
    ensures
        to_map(s).contains_key(k) <==> exists|i: int| 0 <= i < s.len() && #[trigger] s[i].name@ == k,
    decreases s.len(),
{
    if s.len() > 0 {
        lemma_to_map_keys(s.drop_last(), k);
        if to_map(s.drop_last()).contains_key(k) {
            let i = choose|i: int| 0 <= i < s.drop_last().len() && #[trigger] s.drop_last()[i].name@ == k;
            assert(s[i].name@ == k);
        }
        if exists|i: int| 0 <= i < s.len() && #[trigger] s[i].name@ == k {
            let i = choose|i: int| 0 <= i < s.len() && #[trigger] s[i].name@ == k;
            if i < s.len() - 1 {
                assert(s.drop_last()[i].name@ == k);
            }
        }
    }
}

proof fn lemma_to_map_value(s: Seq<ChampionStats>, i: int)
    requires
        names_unique(s),
        0 <= i < s.len(),
    ensures
        to_map(s).contains_key(s[i].name@),
        to_map(s)[s[i].name@] == s[i].tally(),
    decreases s.len(),
{
    if i < s.len() - 1 {
        assert(names_unique(s.drop_last()));
        lemma_to_map_value(s.drop_last(), i);
        assert(s.drop_last()[i] == s[i]);
        assert(s.last().name@ != s[i].name@);
    }
}

/// Where every entry is well formed, so is every tally of the map.
proof fn lemma_wins_bounded(s: Seq<ChampionStats>)
    requires
        names_unique(s),
        forall|i: int| 0 <= i < s.len() ==> #[trigger] s[i].wf(),
    ensures
        forall|k: Seq<char>| #[trigger]
            to_map(s).contains_key(k) ==> to_map(s)[k].wins_against <= to_map(s)[k].times_faced,
{
    assert forall|k: Seq<char>| #[trigger] to_map(s).contains_key(k) implies to_map(s)[k].wins_against
        <= to_map(s)[k].times_faced by {
        lemma_to_map_keys(s, k);
        let i = choose|i: int| 0 <= i < s.len() && #[trigger] s[i].name@ == k;
        lemma_to_map_value(s, i);
        assert(s[i].wf());
    }
}

proof fn lemma_to_map_update(s: Seq<ChampionStats>, i: int, x: ChampionStats)
    requires
        names_unique(s),
        0 <= i < s.len(),
        x.name@ == s[i].name@,
    ensures
        to_map(s.update(i, x)) == to_map(s).insert(x.name@, x.tally()),
    decreases s.len(),
{
    let t = s.update(i, x);
    assert(t.drop_last() =~= if i == s.len() - 1 {
        s.drop_last()
    } else {
        s.drop_last().update(i, x)
    });
    if i == s.len() - 1 {
        assert(to_map(t) =~= to_map(s).insert(x.name@, x.tally()));
    } else {
        assert(names_unique(s.drop_last()));
        lemma_to_map_update(s.drop_last(), i, x);
        assert(s.last().name@ != s[i].name@);
        assert(to_map(t) =~= to_map(s).insert(x.name@, x.tally()));
    }
}

/// Per-champion counters, one entry per distinct champion name.
pub struct ChampionStatsTracker {
    stats: Vec<ChampionStats>,
}

impl View for ChampionStatsTracker {
    type V = Map<Seq<char>, Tally>;

    closed spec fn view(&self) -> Map<Seq<char>, Tally> {
        to_map(self.stats@)
    }
}

impl ChampionStatsTracker {
    /// Names are unique and every entry is well formed.
    pub closed spec fn wf(&self) -> bool {
        &&& names_unique(self.stats@)
        &&& forall|i: int| 0 <= i < self.stats@.len() ==> #[trigger] self.stats@[i].wf()
    }

    pub fn new() -> (r: ChampionStatsTracker)
        ensures
            r@ == Map::<Seq<char>, Tally>::empty(),
            r.wf(),
    {
        ChampionStatsTracker { stats: Vec::new() }
    }

    /// Records one encounter with `champion_name`; `won_against` tells whether
    /// the tracked player won it, and `recency_weight` is added to the
    /// champion's recency score.
    pub fn add_champion_encounter(
        &mut self,
        champion_name: String,
        won_against: bool,
        recency_weight: u64,
    )
        requires
            old(self).wf(),
            old(self)@.contains_key(champion_name@) ==> old(self)@[champion_name@].times_faced
                < usize::MAX,
            old(self)@.contains_key(champion_name@) ==> old(self)@[champion_name@].recency_score
                + recency_weight <= u64::MAX,
        ensures
            final(self).wf(),
            final(self)@ == recorded(
                old(self)@,
                champion_name@,
                won_against,
                recency_weight as nat,
            ),
            final(self)@[champion_name@].times_faced == if old(self)@.contains_key(champion_name@) {
                old(self)@[champion_name@].times_faced + 1
            } else {
                1
            },
            forall|k: Seq<char>| #[trigger]
                final(self)@.contains_key(k) ==> final(self)@[k].wins_against
                    <= final(self)@[k].times_faced,
    {
        let ghost s = self.stats@;
        let mut i: usize = 0;
        while i < self.stats.len()
            invariant
                s == self.stats@,
                s == old(self).stats@,
                old(self).wf(),
                0 <= i <= s.len(),
                forall|j: int| 0 <= j < i ==> #[trigger] s[j].name@ != champion_name@,
            ensures
                i < s.len() ==> s[i as int].name@ == champion_name@,
            decreases s.len() - i,
        {
            if self.stats[i].name == champion_name {
                break;
            }
            i = i + 1;
        }
        if i < self.stats.len() {
            proof {
                lemma_to_map_value(s, i as int);
                assert(s[i as int].wf());
            }
            let old_entry = &self.stats[i];
            let entry = ChampionStats {
                name: champion_name,
                times_faced: old_entry.times_faced + 1,
                wins_against: if won_against {
                    old_entry.wins_against + 1
                } else {
                    old_entry.wins_against
                },
                recency_score: old_entry.recency_score + recency_weight,
            };
            proof {
                lemma_to_map_update(s, i as int, entry);
                assert(names_unique(s.update(i as int, entry)));
                assert(forall|j: int|
                    0 <= j < s.len() ==> #[trigger] s.update(i as int, entry)[j].wf());
                assert(to_map(s).insert(entry.name@, entry.tally()) =~= recorded(
                    to_map(s),
                    champion_name@,
                    won_against,
                    recency_weight as nat,
                ));
            }
            self.stats.set(i, entry);
        } else {
            proof {
                lemma_to_map_keys(s, champion_name@);
            }
            let entry = ChampionStats {
                name: champion_name,
                times_faced: 1,
                wins_against: if won_against {
                    1
                } else {
                    0
                },
                recency_score: recency_weight,
            };
            proof {
                assert(s.push(entry).drop_last() =~= s);
                assert(names_unique(s.push(entry)));
                assert(forall|j: int|
                    0 <= j < s.push(entry).len() ==> #[trigger] s.push(entry)[j].wf());
                assert(to_map(s.push(entry)) =~= recorded(
                    to_map(s),
                    champion_name@,
                    won_against,
                    recency_weight as nat,
                ));
            }
            self.stats.push(entry);
        }
        proof {
            lemma_wins_bounded(self.stats@);
        }
    }

    /// Every champion's counters, in no particular order.
    pub fn get_stats(&self) -> (r: Vec<ChampionStats>)
        requires
            self.wf(),
        ensures
            names_unique(r@),
            forall|i: int| 0 <= i < r@.len() ==> #[trigger] r@[i].wf(),
            forall|i: int|
                0 <= i < r@.len() ==> self@.contains_key(#[trigger] r@[i].name@)
                    && self@[r@[i].name@] == r@[i].tally(),
            forall|k: Seq<char>|
                self@.contains_key(k) ==> exists|i: int| 0 <= i < r@.len() && #[trigger] r@[i].name@ == k,
    {
        let mut r: Vec<ChampionStats> = Vec::new();
        let mut i: usize = 0;
        while i < self.stats.len()
            invariant
                0 <= i <= self.stats@.len(),
                r@ == self.stats@.subrange(0, i as int),
            decreases self.stats@.len() - i,
        {
            r.push(self.stats[i].duplicate());
            i = i + 1;
        }
        proof {
            assert(r@ =~= self.stats@);
            assert forall|i: int| 0 <= i < r@.len() implies self@.contains_key(#[trigger] r@[i].name@)
                && self@[r@[i].name@] == r@[i].tally() by {
                lemma_to_map_value(r@, i);
            }
            assert forall|k: Seq<char>| self@.contains_key(k) implies exists|i: int|
                0 <= i < r@.len() && #[trigger] r@[i].name@ == k by {
                lemma_to_map_keys(r@, k);
            }
        }
        r
    }

    /// The counters of one champion, if it was ever met.
    pub fn get_champion(&self, name: &str) -> (r: Option<ChampionStats>)
        requires
            self.wf(),
        ensures
            r.is_some() <==> self@.contains_key(name@),
            r.is_some() ==> r->0.name@ == name@ && r->0.tally() == self@[name@] && r->0.wf(),
    {
        let key = String::from_str(name);
        let mut i: usize = 0;
        while i < self.stats.len()
            invariant
                self.wf(),
                0 <= i <= self.stats@.len(),
                key@ == name@,
                forall|j: int| 0 <= j < i ==> #[trigger] self.stats@[j].name@ != name@,
            decreases self.stats@.len() - i,
        {
            if self.stats[i].name == key {
                proof {
                    lemma_to_map_value(self.stats@, i as int);
                }
                return Some(self.stats[i].duplicate());
            }
            i = i + 1;
        }
        proof {
            lemma_to_map_keys(self.stats@, name@);
        }
        None
    }

    /// Whether every champion can take `extra` more encounters of weight
    /// `weight` without a counter overflowing.
    pub fn has_room_for(&self, extra: usize, weight: u64) -> (r: bool)
        requires
            self.wf(),
        ensures
            r == has_room(self@, extra as nat, weight as nat),
    {
        proof {
            assert((extra as int) * (weight as int) <= 0xffff_ffff_ffff_ffff * 0xffff_ffff_ffff_ffff)
                by (nonlinear_arith)
                requires
                    0 <= extra <= 0xffff_ffff_ffff_ffff,
                    0 <= weight <= 0xffff_ffff_ffff_ffff,
            ;
        }
        let total_weight = (extra as u128) * (weight as u128);
        if total_weight > u64::MAX as u128 {
            return false;
        }
        let total_weight = total_weight as u64;
        let mut i: usize = 0;
        while i < self.stats.len()
            invariant
                self.wf(),
                0 <= i <= self.stats@.len(),
                total_weight == extra * weight,
                forall|j: int|
                    0 <= j < i ==> #[trigger] self.stats@[j].times_faced + extra <= usize::MAX
                        && self.stats@[j].recency_score + extra * weight <= u64::MAX,
            decreases self.stats@.len() - i,
        {
            let s = &self.stats[i];
            if s.times_faced > usize::MAX - extra || s.recency_score > u64::MAX - total_weight {
                proof {
                    lemma_to_map_value(self.stats@, i as int);
                }
                return false;
            }
            i = i + 1;
        }
        proof {
            assert forall|k: Seq<char>| #[trigger] self@.contains_key(k) implies self@[k].times_faced
                + extra <= usize::MAX && self@[k].recency_score + extra * weight <= u64::MAX by {
                lemma_to_map_keys(self.stats@, k);
                let j = choose|j: int| 0 <= j < self.stats@.len() && #[trigger] self.stats@[j].name@ == k;
                lemma_to_map_value(self.stats@, j);
            }
        }
        true
    }

    /// Records one encounter with each of `champions`, in order, all with the
    /// same outcome and weight.
    pub fn record_encounters(&mut self, champions: &Vec<String>, won: bool, weight: u64)
        requires
            old(self).wf(),
            has_room(old(self)@, champions@.len(), weight as nat),
        ensures
            final(self).wf(),
            final(self)@ == replay_onto(old(self)@, encounters_with(champions@, won, weight as nat)),
    {
        let ghost start = self@;
        let ghost evs = encounters_with(champions@, won, weight as nat);
        let n = champions.len();
        let mut i: usize = 0;
        while i < n
            invariant
                n == champions@.len(),
                0 <= i <= n,
                evs == encounters_with(champions@, won, weight as nat),
                self.wf(),
                self@ == replay_onto(start, evs.subrange(0, i as int)),
                has_room(self@, (n - i) as nat, weight as nat),
            decreases n - i,
        {
            let ghost before = self@;
            let name = champions[i].clone();
            proof {
                let rest = (n - i) as nat;
                assert(rest * weight == weight + (rest - 1) * weight) by (nonlinear_arith);
                assert((rest - 1) * weight >= 0) by (nonlinear_arith)
                    requires rest >= 1,
                ;
            }
            self.add_champion_encounter(name, won, weight);
            proof {
                let rest = (n - i - 1) as nat;
                assert(evs.subrange(0, i + 1).drop_last() =~= evs.subrange(0, i as int));
                assert(evs.subrange(0, i + 1).last() == evs[i as int]);
                assert(rest * weight <= (rest + 1) * weight) by (nonlinear_arith);
                assert((rest + 1) * weight == weight + rest * weight) by (nonlinear_arith);
                assert forall|k: Seq<char>| #[trigger] self@.contains_key(k) implies self@[k].times_faced
                    + rest <= usize::MAX && self@[k].recency_score + rest * weight <= u64::MAX by {
                    if k != name@ {
                        assert(before.contains_key(k));
                    }
                }
            }
            i = i + 1;
        }
        proof {
            assert(evs.subrange(0, n as int) =~= evs);
        }
    }
}

} // verus!
