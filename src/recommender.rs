use vstd::prelude::*;
use crate::champion_stats::{ChampionStats, SCALE, frequency_ppm, win_rate_of, win_rate_ppm};
use crate::ranking::{is_ranking, key_ints, rank_by_key, reorder};

verus! {

/// Recency score relative to the largest one, in millionths; 0 when the
/// largest is 0.
pub open spec fn recency_ppm(recency: int, max_recency: int) -> int {
    if max_recency == 0 {
        0
    } else {
        recency * SCALE / max_recency
    }
}

/// Ban score in millionths: four tenths of the frequency, half of the
/// player's loss rate against the champion, and a tenth of the relative
/// recency, rounded down.
pub open spec fn ban_score(stat: ChampionStats, total_games: int, max_recency: int) -> int {
    (4 * frequency_ppm(stat.times_faced as int, total_games) + 5 * (SCALE - win_rate_ppm(
        stat.times_faced as int,
        stat.wins_against as int,
    )) + recency_ppm(stat.recency_score as int, max_recency)) / 10
}

/// The largest recency score of the sequence, 0 when it is empty.
pub open spec fn max_recency(stats: Seq<ChampionStats>) -> nat
    decreases stats.len(),
{
    if stats.len() == 0 {
        0
    } else {
        let rest = max_recency(stats.drop_last());
        let last = stats.last().recency_score as nat;
        if last > rest {
            last
        } else {
            rest
        }
    }
}

/// The ban scores of all stats, position by position.
pub open spec fn ban_scores(stats: Seq<ChampionStats>, total_games: int) -> Seq<int> {
    stats.map_values(|s: ChampionStats| ban_score(s, total_games, max_recency(stats) as int))
}

/// A suggestion to ban one champion.
#[derive(Debug, Clone)]
pub struct BanRecommendation {
    pub champion_name: String,
    /// Ban score in millionths.
    pub score: u128,
    /// Share of the analysed games in which the champion was an opponent, in millionths.
    pub frequency: u128,
    /// The player's win rate against the champion, in millionths.
    pub win_rate: u64,
    pub times_faced: usize,
}

/// `r` is the recommendation that `stat` yields.
pub open spec fn is_recommendation_for(
    r: BanRecommendation,
    stat: ChampionStats,
    total_games: int,
    max_recency: int,
) -> bool {
    &&& r.champion_name@ == stat.name@
    &&& r.score == ban_score(stat, total_games, max_recency)
    &&& r.frequency == frequency_ppm(stat.times_faced as int, total_games)
    &&& r.win_rate == win_rate_ppm(stat.times_faced as int, stat.wins_against as int)
    &&& r.times_faced == stat.times_faced
}

/// How the player fares with one champion on their own team.
#[derive(Debug, Clone)]
pub struct AllyAnalysis {
    pub champion_name: String,
    pub times_played_together: usize,
    pub wins_together: usize,
    /// Win rate in millionths.
    pub win_rate: u64,
}

/// `a` is the analysis that `stat` yields.
pub open spec fn is_analysis_for(a: AllyAnalysis, stat: ChampionStats) -> bool {
    &&& a.champion_name@ == stat.name@
    &&& a.times_played_together == stat.times_faced
    &&& a.wins_together == stat.wins_against
    &&& a.win_rate == win_rate_ppm(stat.times_faced as int, stat.wins_against as int)
}

/// Keeps the stats of champions met at least `min` times.
pub open spec fn shared_enough(min: usize) -> spec_fn(ChampionStats) -> bool {
    |s: ChampionStats| s.times_faced >= min
}

/// Ally win rates, negated, so that the lowest rate ranks first.
pub open spec fn ally_keys(stats: Seq<ChampionStats>) -> Seq<int> {
    stats.map_values(|s: ChampionStats| -win_rate_ppm(s.times_faced as int, s.wins_against as int))
}

impl BanRecommendation {
    pub fn new(
        champion_name: String,
        score: u128,
        frequency: u128,
        win_rate: u64,
        times_faced: usize,
    ) -> (r: BanRecommendation)
        ensures
            r.champion_name == champion_name,
            r.score == score,
            r.frequency == frequency,
            r.win_rate == win_rate,
            r.times_faced == times_faced,
    {
        BanRecommendation { champion_name, score, frequency, win_rate, times_faced }
    }
}

impl AllyAnalysis {
    pub fn new(champion_name: String, times_played_together: usize, wins_together: usize) -> (r:
        AllyAnalysis)
        requires
            wins_together <= times_played_together,
        ensures
            r.champion_name == champion_name,
            r.times_played_together == times_played_together,
            r.wins_together == wins_together,
            r.win_rate == win_rate_ppm(times_played_together as int, wins_together as int),
    {
        let win_rate = win_rate_of(times_played_together, wins_together);
        AllyAnalysis { champion_name, times_played_together, wins_together, win_rate }
    }
}

proof fn lemma_div_at_most(x: int, d: int)
    requires
        0 <= x,
        1 <= d,
    ensures
        0 <= x / d <= x,
{
    vstd::arithmetic::div_mod::lemma_div_is_ordered_by_denominator(x, 1, d);
    vstd::arithmetic::div_mod::lemma_div_pos_is_pos(x, d);
}

/// Ban scores stay below 2^90.
proof fn lemma_score_bound(stat: ChampionStats, total_games: int, max_recency: int)
    requires
        stat.wf(),
        0 <= total_games,
        0 <= max_recency,
    ensures
        0 <= ban_score(stat, total_games, max_recency) < 0x400_0000_0000_0000_0000_0000,
{
    let t = stat.times_faced as int;
    let f = frequency_ppm(t, total_games);
    let w = win_rate_ppm(t, stat.wins_against as int);
    let r = recency_ppm(stat.recency_score as int, max_recency);
    assert(t * SCALE <= 0xffff_ffff_ffff_ffff * SCALE) by (nonlinear_arith)
        requires
            0 <= t <= 0xffff_ffff_ffff_ffff,
    ;
    assert(stat.recency_score * SCALE <= 0xffff_ffff_ffff_ffff * SCALE) by (nonlinear_arith)
        requires
            0 <= stat.recency_score <= 0xffff_ffff_ffff_ffff,
    ;
    if total_games > 0 {
        lemma_div_at_most(t * SCALE, total_games);
    }
    if max_recency > 0 {
        lemma_div_at_most(stat.recency_score * SCALE, max_recency);
    }
    if t > 0 {
        vstd::arithmetic::div_mod::lemma_div_is_ordered(
            stat.wins_against * SCALE,
            t * SCALE,
            t,
        );
        vstd::arithmetic::div_mod::lemma_div_by_multiple(SCALE as int, t);
        vstd::arithmetic::div_mod::lemma_div_pos_is_pos(stat.wins_against * SCALE, t);
        assert(stat.wins_against * SCALE <= t * SCALE) by (nonlinear_arith)
            requires
                stat.wins_against <= t,
        ;
        assert(t * SCALE == SCALE * t) by (nonlinear_arith);
    }
    assert(0 <= w <= SCALE);
    vstd::arithmetic::div_mod::lemma_div_pos_is_pos(4 * f + 5 * (SCALE - w) + r, 10);
    lemma_div_at_most(4 * f + 5 * (SCALE - w) + r, 10);
}

pub struct BanRecommender;

impl BanRecommender {
    /// Ban score of one champion in millionths, against `total_games` analysed
    /// games and the largest recency score `max_recency` among all champions.
    pub fn calculate_score(stats: &ChampionStats, total_games: usize, max_recency: u64) -> (r: u128)
        requires
            stats.wf(),
        ensures
            r == ban_score(*stats, total_games as int, max_recency as int),
            r < 0x400_0000_0000_0000_0000_0000,
    {
        proof {
            lemma_score_bound(*stats, total_games as int, max_recency as int);
        }
        let frequency = stats.frequency(total_games);
        let win_rate = stats.win_rate();
        let recency: u128 = if max_recency == 0 {
            0
        } else {
            let r = stats.recency_score as u128;
            proof {
                assert(r * SCALE <= 0xffff_ffff_ffff_ffff * SCALE) by (nonlinear_arith)
                    requires
                        0 <= r <= 0xffff_ffff_ffff_ffff,
                ;
            }
            r * (SCALE as u128) / (max_recency as u128)
        };
        (4 * frequency + 5 * ((SCALE - win_rate) as u128) + recency) / 10
    }

    /// The `top_n` champions most worth banning, highest score first; equal
    /// scores keep the order of `stats`. Empty when `stats` is.
    pub fn get_recommendations(stats: Vec<ChampionStats>, total_games: usize, top_n: usize) -> (r:
        Vec<BanRecommendation>)
        requires
            forall|i: int| 0 <= i < stats@.len() ==> #[trigger] stats@[i].wf(),
        ensures
            r@.len() == if top_n < stats@.len() {
                top_n as int
            } else {
                stats@.len() as int
            },
            forall|k: int, l: int| 0 <= k < l < r@.len() ==> #[trigger] r@[k].score >= #[trigger] r@[l].score,
            exists|order: Seq<int>|
                #[trigger] is_ranking(ban_scores(stats@, total_games as int), order) && forall|k: int|
                    0 <= k < r@.len() ==> is_recommendation_for(
                        #[trigger] r@[k],
                        stats@[order[k]],
                        total_games as int,
                        max_recency(stats@) as int,
                    ),
    {
        let n = stats.len();
        let mut max_r: u64 = 0;
        let mut i: usize = 0;
        while i < n
            invariant
                n == stats@.len(),
                0 <= i <= n,
                max_r == max_recency(stats@.subrange(0, i as int)),
            decreases n - i,
        {
            proof {
                assert(stats@.subrange(0, i + 1).drop_last() =~= stats@.subrange(0, i as int));
            }
            if stats[i].recency_score > max_r {
                max_r = stats[i].recency_score;
            }
            i = i + 1;
        }
        proof {
            assert(stats@.subrange(0, n as int) =~= stats@);
        }
        let ghost scores = ban_scores(stats@, total_games as int);
        let mut recs: Vec<BanRecommendation> = Vec::new();
        let mut keys: Vec<i128> = Vec::new();
        let mut i: usize = 0;
        while i < n
            invariant
                n == stats@.len(),
                0 <= i <= n,
                max_r == max_recency(stats@),
                scores == ban_scores(stats@, total_games as int),
                forall|j: int| 0 <= j < n ==> #[trigger] stats@[j].wf(),
                recs@.len() == i,
                keys@.len() == i,
                forall|j: int|
                    0 <= j < i ==> is_recommendation_for(
                        #[trigger] recs@[j],
                        stats@[j],
                        total_games as int,
                        max_r as int,
                    ),
                forall|j: int| 0 <= j < i ==> #[trigger] keys@[j] as int == scores[j],
            decreases n - i,
        {
            let s = &stats[i];
            let score = Self::calculate_score(s, total_games, max_r);
            let frequency = s.frequency(total_games);
            let win_rate = s.win_rate();
            recs.push(
                BanRecommendation::new(s.name.clone(), score, frequency, win_rate, s.times_faced),
            );
            keys.push(score as i128);
            i = i + 1;
        }
        let ghost all = recs@;
        let mut ranked = rank_by_key(recs, &keys);
        let ghost order = choose|order: Seq<int>|
            is_ranking(key_ints(keys@), order) && ranked@ == reorder(all, order);
        proof {
            assert(key_ints(keys@) =~= scores);
        }
        let ghost full = ranked@;
        ranked.truncate(top_n);
        proof {
            assert forall|k: int, l: int| 0 <= k < l < ranked@.len() implies #[trigger] ranked@[k].score
                >= #[trigger] ranked@[l].score by {
                assert(ranked@[k] == full[k]);
                assert(ranked@[l] == full[l]);
                assert(full[k] == all[order[k]]);
                assert(full[l] == all[order[l]]);
            }
            assert forall|k: int| 0 <= k < ranked@.len() implies is_recommendation_for(
                #[trigger] ranked@[k],
                stats@[order[k]],
                total_games as int,
                max_recency(stats@) as int,
            ) by {
                assert(ranked@[k] == full[k]);
                assert(full[k] == all[order[k]]);
            }
            assert(is_ranking(ban_scores(stats@, total_games as int), order));
        }
        ranked
    }

    /// The allies met at least `min_games_together` times, lowest win rate
    /// first; equal win rates keep the order of `ally_stats`.
    pub fn analyze_allies(ally_stats: Vec<ChampionStats>, min_games_together: usize) -> (r: Vec<
        AllyAnalysis,
    >)
        requires
            forall|i: int| 0 <= i < ally_stats@.len() ==> #[trigger] ally_stats@[i].wf(),
        ensures
            forall|k: int|
                0 <= k < r@.len() ==> #[trigger] r@[k].times_played_together >= min_games_together,
            forall|k: int, l: int|
                0 <= k < l < r@.len() ==> #[trigger] r@[k].win_rate <= #[trigger] r@[l].win_rate,
            r@.len() == ally_stats@.filter(shared_enough(min_games_together)).len(),
            exists|order: Seq<int>|
                #[trigger] is_ranking(
                    ally_keys(ally_stats@.filter(shared_enough(min_games_together))),
                    order,
                ) && forall|k: int|
                    0 <= k < r@.len() ==> is_analysis_for(
                        #[trigger] r@[k],
                        ally_stats@.filter(shared_enough(min_games_together))[order[k]],
                    ),
    {
        let n = ally_stats.len();
        let ghost pred = shared_enough(min_games_together);
        let ghost mut kept: Seq<ChampionStats> = Seq::empty();
        let mut found: Vec<AllyAnalysis> = Vec::new();
        let mut keys: Vec<i128> = Vec::new();
        let mut i: usize = 0;
        while i < n
            invariant
                n == ally_stats@.len(),
                0 <= i <= n,
                pred == shared_enough(min_games_together),
                forall|j: int| 0 <= j < n ==> #[trigger] ally_stats@[j].wf(),
                kept == ally_stats@.subrange(0, i as int).filter(pred),
                forall|j: int| 0 <= j < kept.len() ==> #[trigger] kept[j].wf(),
                found@.len() == kept.len(),
                keys@.len() == kept.len(),
                forall|j: int| 0 <= j < kept.len() ==> is_analysis_for(#[trigger] found@[j], kept[j]),
                forall|j: int| 0 <= j < kept.len() ==> #[trigger] keys@[j] as int == ally_keys(kept)[j],
            decreases n - i,
        {
            let s = &ally_stats[i];
            proof {
                reveal(Seq::filter);
                assert(ally_stats@.subrange(0, i + 1).drop_last() =~= ally_stats@.subrange(0, i as int));
            }
            if s.times_faced >= min_games_together {
                let win_rate = s.win_rate();
                found.push(
                    AllyAnalysis {
                        champion_name: s.name.clone(),
                        times_played_together: s.times_faced,
                        wins_together: s.wins_against,
                        win_rate,
                    },
                );
                keys.push(-(win_rate as i128));
                proof {
                    kept = kept.push(*s);
                }
            }
            i = i + 1;
        }
        proof {
            assert(ally_stats@.subrange(0, n as int) =~= ally_stats@);
        }
        let ghost all = found@;
        let ranked = rank_by_key(found, &keys);
        proof {
            let order = choose|order: Seq<int>|
                is_ranking(key_ints(keys@), order) && ranked@ == reorder(all, order);
            assert(key_ints(keys@) =~= ally_keys(kept));
            assert forall|k: int| 0 <= k < ranked@.len() implies is_analysis_for(
                #[trigger] ranked@[k],
                kept[order[k]],
            ) by {
                assert(ranked@[k] == all[order[k]]);
            }
            assert forall|k: int| 0 <= k < ranked@.len() implies #[trigger] ranked@[k].times_played_together
                >= min_games_together by {
                assert(ranked@[k] == all[order[k]]);
                assert(kept.contains(kept[order[k]]));
                ally_stats@.lemma_filter_pred(pred, order[k]);
            }
            assert forall|k: int, l: int| 0 <= k < l < ranked@.len() implies #[trigger] ranked@[k].win_rate
                <= #[trigger] ranked@[l].win_rate by {
                assert(ranked@[k] == all[order[k]]);
                assert(ranked@[l] == all[order[l]]);
            }
        }
        ranked
    }
}

} // verus!
