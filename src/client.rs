use vstd::prelude::*;
use vstd::string::StringExecFns;

verus! {

/// Pause before each request, in milliseconds.
pub const REQUEST_SPACING_MS: u64 = 150;

/// How many times a rate-limited request is tried again.
pub const MAX_RETRIES: u32 = 3;

/// The wait before the first retry, in milliseconds; each later retry waits
/// that much longer.
pub const RETRY_WAIT_STEP_MS: u64 = 2_000;

/// The routing cluster that serves match data for a platform region.
pub open spec fn routing_of(region: Seq<char>) -> Seq<char> {
    if region == "na1"@ || region == "br1"@ || region == "la1"@ || region == "la2"@ {
        "americas"@
    } else if region == "euw1"@ || region == "eun1"@ || region == "tr1"@ || region == "ru"@ {
        "europe"@
    } else if region == "kr"@ || region == "jp1"@ {
        "asia"@
    } else if region == "oc1"@ || region == "ph2"@ || region == "sg2"@ || region == "th2"@
        || region == "vn2"@ {
        "sea"@
    } else {
        "americas"@
    }
}

/// Whether `region` is one of `choices`.
fn is_one_of(region: &String, choices: &Vec<&'static str>) -> (r: bool)
    ensures
        r == exists|i: int| 0 <= i < choices@.len() && #[trigger] choices@[i]@ == region@,
{
    let mut i: usize = 0;
    while i < choices.len()
        invariant
            0 <= i <= choices@.len(),
            forall|j: int| 0 <= j < i ==> #[trigger] choices@[j]@ != region@,
        decreases choices@.len() - i,
    {
        if *region == String::from_str(choices[i]) {
            return true;
        }
        i = i + 1;
    }
    false
}

/// The routing cluster that serves match data for a platform region; unknown
/// regions go to the Americas.
pub fn get_regional_routing(region: &str) -> (r: &'static str)
    ensures
        r@ == routing_of(region@),
{
    let region = String::from_str(region);
    let americas = vec!["na1", "br1", "la1", "la2"];
    let europe = vec!["euw1", "eun1", "tr1", "ru"];
    let asia = vec!["kr", "jp1"];
    let sea = vec!["oc1", "ph2", "sg2", "th2", "vn2"];
    let in_americas = is_one_of(&region, &americas);
    let in_europe = is_one_of(&region, &europe);
    let in_asia = is_one_of(&region, &asia);
    let in_sea = is_one_of(&region, &sea);
    proof {
        if region@ == "na1"@ || region@ == "br1"@ || region@ == "la1"@ || region@ == "la2"@ {
            assert(americas@[0]@ == "na1"@);
            assert(americas@[1]@ == "br1"@);
            assert(americas@[2]@ == "la1"@);
            assert(americas@[3]@ == "la2"@);
        }
        if region@ == "euw1"@ || region@ == "eun1"@ || region@ == "tr1"@ || region@ == "ru"@ {
            assert(europe@[0]@ == "euw1"@);
            assert(europe@[1]@ == "eun1"@);
            assert(europe@[2]@ == "tr1"@);
            assert(europe@[3]@ == "ru"@);
        }
        if region@ == "kr"@ || region@ == "jp1"@ {
            assert(asia@[0]@ == "kr"@);
            assert(asia@[1]@ == "jp1"@);
        }
        if region@ == "oc1"@ || region@ == "ph2"@ || region@ == "sg2"@ || region@ == "th2"@
            || region@ == "vn2"@ {
            assert(sea@[0]@ == "oc1"@);
            assert(sea@[1]@ == "ph2"@);
            assert(sea@[2]@ == "sg2"@);
            assert(sea@[3]@ == "th2"@);
            assert(sea@[4]@ == "vn2"@);
        }
    }
    if in_americas {
        "americas"
    } else if in_europe {
        "europe"
    } else if in_asia {
        "asia"
    } else if in_sea {
        "sea"
    } else {
        "americas"
    }
}

/// What to do after the remote side answered that the rate limit was hit.
#[derive(Debug, Clone, Copy, PartialEq, Eq)]
pub enum RetryDecision {
    /// Wait this many milliseconds, then try again.
    WaitAndRetry(u64),
    /// Stop and report the rate limit.
    GiveUp,
}

/// The decision after a rate-limited answer, when `retry_count` retries
/// have already been made: give up after the last allowed retry, else wait
/// one step longer than before.
pub fn on_rate_limited(retry_count: u32) -> (r: RetryDecision)
    ensures
        retry_count >= MAX_RETRIES ==> r == RetryDecision::GiveUp,
        retry_count < MAX_RETRIES ==> r == RetryDecision::WaitAndRetry(
            (RETRY_WAIT_STEP_MS * (retry_count + 1)) as u64,
        ),
{
    if retry_count >= MAX_RETRIES {
        RetryDecision::GiveUp
    } else {
        RetryDecision::WaitAndRetry(RETRY_WAIT_STEP_MS * (retry_count as u64 + 1))
    }
}

} // verus!
