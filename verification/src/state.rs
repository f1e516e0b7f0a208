//! What the tray remembers between polls, and the rules on it that need no
//! network: sample histories, gates, waiting times and the price-table cadence.
use crate::burn::{Sample, Window};
use crate::config::Config;
use crate::pricing::PriceTable;
use crate::text::{opt_view, same};
use vstd::prelude::*;

verus! {

/// Samples kept per window.
pub const BURN_MAX_SAMPLES: usize = 480;

// ---------------------------------------------------------------------------
// Ranks
// ---------------------------------------------------------------------------

/// How bad things are, for notifications; later is worse.
#[derive(Debug, Clone, Copy, PartialEq, Eq, Structural, PartialOrd, Ord)]
pub enum BucketRank {
    /// Nothing is known yet.
    NoData,
    Normal,
    Warning,
    Throttled,
}

/// The rank of a remaining percentage.
pub open spec fn rank_of(remaining_pct: int) -> BucketRank {
    if remaining_pct <= 0 {
        BucketRank::Throttled
    } else if remaining_pct < 50 {
        BucketRank::Warning
    } else {
        BucketRank::Normal
    }
}

/// The position of a rank in the order.
pub open spec fn level(r: BucketRank) -> int {
    match r {
        BucketRank::NoData => -1,
        BucketRank::Normal => 0,
        BucketRank::Warning => 1,
        BucketRank::Throttled => 2,
    }
}

impl BucketRank {
    /// The rank of a remaining percentage.
    pub fn from_remaining(remaining_pct: i64) -> (r: BucketRank)
        ensures
            r == rank_of(remaining_pct as int),
    {
        if remaining_pct <= 0 {
            BucketRank::Throttled
        } else if remaining_pct < 50 {
            BucketRank::Warning
        } else {
            BucketRank::Normal
        }
    }

    /// Whether this rank is worse than another.
    pub fn worse_than(self, other: BucketRank) -> (r: bool)
        ensures
            r == (level(self) > level(other)),
    {
        match (self, other) {
            (BucketRank::Throttled, BucketRank::Throttled) => false,
            (BucketRank::Throttled, _) => true,
            (BucketRank::Warning, BucketRank::Normal) => true,
            (BucketRank::Warning, BucketRank::NoData) => true,
            (BucketRank::Normal, BucketRank::NoData) => true,
            _ => false,
        }
    }
}

// ---------------------------------------------------------------------------
// Sample histories
// ---------------------------------------------------------------------------

/// What a poll at `now` saw of a window.
pub open spec fn sample_of(w: Window, now: i64) -> Sample {
    Sample {
        t: now,
        used: w.used,
        total: w.total,
        remaining_pct: w.remaining_pct,
        start_at: w.start_at,
        reset_at: w.reset_at,
    }
}

/// Whether a window belongs to another epoch than the last sample: it began at
/// another time, or its count or percentage fell by two or more.
pub open spec fn rolled_over(last: Sample, w: Window) -> bool {
    ||| w.start_at != last.start_at
    ||| w.used + 1 < last.used
    ||| w.remaining_pct + 1 < last.remaining_pct
}

/// A history after a poll: emptied where the epoch rolled over, extended by the
/// new sample, and cut to the newest ones that are kept.
pub open spec fn sampled(history: Seq<Sample>, w: Window, now: i64) -> Seq<Sample> {
    let kept = if history.len() > 0 && rolled_over(history.last(), w) {
        Seq::empty()
    } else {
        history
    };
    let all = kept.push(sample_of(w, now));
    if all.len() > BURN_MAX_SAMPLES {
        all.skip(all.len() - BURN_MAX_SAMPLES)
    } else {
        all
    }
}

/// Records what a poll at `now` saw of a window.
pub fn record_sample(history: &mut Vec<Sample>, w: &Window, now: i64)
    ensures
        final(history)@ == sampled(old(history)@, *w, now),
{
    let n: usize = history.len();
    if n > 0 {
        let last = history[n - 1];
        if w.start_at != last.start_at || (w.used as i128 + 1) < last.used as i128 || (
        w.remaining_pct as i128 + 1) < last.remaining_pct as i128 {
            history.clear();
        }
    }
    history.push(
        Sample {
            t: now,
            used: w.used,
            total: w.total,
            remaining_pct: w.remaining_pct,
            start_at: w.start_at,
            reset_at: w.reset_at,
        },
    );
    let len: usize = history.len();
    if len > BURN_MAX_SAMPLES {
        let from: usize = len - BURN_MAX_SAMPLES;
        let newest = history.split_off(from);
        assert(newest@ =~= sampled(old(history)@, *w, now));
        *history = newest;
    }
}

/// A history never grows past the cap, its newest sample is the last poll's,
/// and where all its samples shared an epoch's start they still do.
pub proof fn law_history_is_capped_and_of_one_epoch(history: Seq<Sample>, w: Window, now: i64)
    requires
        forall|i: int, j: int|
            0 <= i < history.len() && 0 <= j < history.len() ==> (#[trigger] history[i]).start_at
                == (#[trigger] history[j]).start_at,
    ensures
        1 <= sampled(history, w, now).len() <= BURN_MAX_SAMPLES,
        sampled(history, w, now).last() == sample_of(w, now),
        forall|i: int|
            0 <= i < sampled(history, w, now).len() ==> (#[trigger] sampled(
                history,
                w,
                now,
            )[i]).start_at == w.start_at,
{
    let r = sampled(history, w, now);
    let kept = if history.len() > 0 && rolled_over(history.last(), w) {
        Seq::empty()
    } else {
        history
    };
    let all = kept.push(sample_of(w, now));
    assert forall|i: int| 0 <= i < all.len() implies (#[trigger] all[i]).start_at == w.start_at by {
        if i < kept.len() {
            assert(kept[i] == history[i]);
            assert(history[i].start_at == history[history.len() - 1].start_at);
        }
    }
    assert forall|i: int| 0 <= i < r.len() implies (#[trigger] r[i]).start_at == w.start_at by {
        let at = i + all.len() - r.len();
        assert(r[i] == all[at]);
    }
}

/// Sample histories by window id; no id occurs twice.
pub struct Histories {
    entries: Vec<(String, Vec<Sample>)>,
}

spec fn distinct_keys(s: Seq<(String, Vec<Sample>)>) -> bool {
    forall|i: int, j: int|
        0 <= i < j < s.len() ==> (#[trigger] s[i]).0@ != (#[trigger] s[j]).0@
}

impl Histories {
    #[verifier::type_invariant]
    spec fn well_formed(&self) -> bool {
        distinct_keys(self.entries@)
    }

    /// The history of a window; empty where there is none.
    pub closed spec fn of(&self, id: Seq<char>) -> Seq<Sample> {
        if exists|i: int| 0 <= i < self.entries@.len() && (#[trigger] self.entries@[i]).0@ == id {
            self.entries@[choose|i: int|
                0 <= i < self.entries@.len() && (#[trigger] self.entries@[i]).0@ == id].1@
        } else {
            Seq::empty()
        }
    }

    /// No history at all.
    pub fn new() -> (r: Histories)
        ensures
            forall|id: Seq<char>| #[trigger] r.of(id) == Seq::<Sample>::empty(),
    {
        Histories { entries: Vec::new() }
    }

    fn position(&self, id: &str) -> (r: Option<usize>)
        ensures
            match r {
                Some(i) => i < self.entries@.len() && self.entries@[i as int].0@ == id@,
                None => forall|i: int|
                    0 <= i < self.entries@.len() ==> (#[trigger] self.entries@[i]).0@ != id@,
            },
    {
        let mut i: usize = 0;
        while i < self.entries.len()
            invariant
                i <= self.entries@.len(),
                forall|j: int| 0 <= j < i ==> (#[trigger] self.entries@[j]).0@ != id@,
            decreases self.entries@.len() - i,
        {
            if same(self.entries[i].0.as_str(), id) {
                return Some(i);
            }
            i += 1;
        }
        None
    }

    proof fn lemma_of(&self, i: int)
        requires
            distinct_keys(self.entries@),
            0 <= i < self.entries@.len(),
        ensures
            self.of(self.entries@[i].0@) == self.entries@[i].1@,
    {
        let id = self.entries@[i].0@;
        let k = choose|k: int|
            0 <= k < self.entries@.len() && (#[trigger] self.entries@[k]).0@ == id;
        assert(self.entries@[k].0@ == id);
        if k < i {
            assert(self.entries@[k].0@ != self.entries@[i].0@);
        } else if i < k {
            assert(self.entries@[i].0@ != self.entries@[k].0@);
        }
    }

    /// The history of a window.
    pub fn get(&self, id: &str) -> (r: Vec<Sample>)
        ensures
            r@ == self.of(id@),
    {
        proof {
            use_type_invariant(self);
        }
        let mut out: Vec<Sample> = Vec::new();
        if let Some(i) = self.position(id) {
            proof {
                self.lemma_of(i as int);
            }
            let h = &self.entries[i].1;
            let mut j: usize = 0;
            while j < h.len()
                invariant
                    j <= h.len(),
                    out@ =~= h@.take(j as int),
                decreases h.len() - j,
            {
                out.push(h[j]);
                j += 1;
            }
            assert(h@.take(h.len() as int) =~= h@);
        }
        out
    }

    /// Records what a poll at `now` saw of a window.
    pub fn record(self, w: &Window, now: i64) -> (r: Histories)
        ensures
            r.of(w.id@) == sampled(self.of(w.id@), *w, now),
            forall|other: Seq<char>| other != w.id@ ==> #[trigger] r.of(other) == self.of(other),
    {
        proof {
            use_type_invariant(&self);
        }
        let ghost before = self;
        let at = self.position(w.id.as_str());
        let mut entries = self.entries;
        match at {
            Some(i) => {
                proof {
                    before.lemma_of(i as int);
                }
                let mut entry = entries.swap_remove(i);
                let ghost rest = entries@;
                record_sample(&mut entry.1, w, now);
                entries.push(entry);
                proof {
                    lemma_swapped_keys(before.entries@, rest, i as int);
                    assert(distinct_keys(entries@));
                }
                let r = Histories { entries };
                proof {
                    r.lemma_of(entries@.len() - 1);
                    assert(r.entries@.drop_last() =~= rest);
                    assert forall|other: Seq<char>| other != w.id@ implies #[trigger] r.of(other)
                        == before.of(other) by {
                        lemma_moved_of(before, r, i as int, other);
                    }
                }
                r
            },
            None => {
                let mut history: Vec<Sample> = Vec::new();
                record_sample(&mut history, w, now);
                entries.push((w.id.clone(), history));
                let r = Histories { entries };
                proof {
                    r.lemma_of(entries@.len() - 1);
                    assert(r.entries@.drop_last() =~= before.entries@);
                    assert forall|other: Seq<char>| other != w.id@ implies #[trigger] r.of(other)
                        == before.of(other) by {
                        lemma_extended_of(before, r, other);
                    }
                }
                r
            },
        }
    }
}

/// What is left of distinct keys after a swap-removal is distinct from the one removed.
proof fn lemma_swapped_keys(s: Seq<(String, Vec<Sample>)>, rest: Seq<(String, Vec<Sample>)>, at: int)
    requires
        distinct_keys(s),
        0 <= at < s.len(),
        rest == s.update(at, s.last()).drop_last(),
    ensures
        distinct_keys(rest),
        forall|i: int| 0 <= i < rest.len() ==> (#[trigger] rest[i]).0@ != s[at].0@,
{
    let n = s.len() - 1;
    assert forall|i: int| 0 <= i < rest.len() implies (#[trigger] rest[i]).0@ != s[at].0@ by {
        let k = if i == at {
            n
        } else {
            i
        };
        assert(rest[i] == s[k]);
        if k < at {
            assert(s[k].0@ != s[at].0@);
        } else {
            assert(s[at].0@ != s[k].0@);
        }
    }
    assert forall|i: int, j: int| 0 <= i < j < rest.len() implies (#[trigger] rest[i]).0@ != (
    #[trigger] rest[j]).0@ by {
        let a = if i == at {
            n
        } else {
            i
        };
        let b = if j == at {
            n
        } else {
            j
        };
        assert(rest[i] == s[a] && rest[j] == s[b]);
        if a < b {
            assert(s[a].0@ != s[b].0@);
        } else {
            assert(s[b].0@ != s[a].0@);
        }
    }
}

proof fn lemma_moved_of(a: Histories, b: Histories, at: int, id: Seq<char>)
    requires
        distinct_keys(a.entries@),
        distinct_keys(b.entries@),
        0 <= at < a.entries@.len(),
        b.entries@.len() == a.entries@.len(),
        b.entries@.drop_last() == a.entries@.update(at, a.entries@.last()).drop_last(),
        b.entries@.last().0@ == a.entries@[at].0@,
        id != a.entries@[at].0@,
    ensures
        a.of(id) == b.of(id),
{
    let n = a.entries@.len() - 1;
    assert forall|i: int| 0 <= i < n implies #[trigger] b.entries@[i] == a.entries@[if i == at {
        n
    } else {
        i
    }] by {
        assert(b.entries@.drop_last()[i] == b.entries@[i]);
        assert(a.entries@.update(at, a.entries@.last()).drop_last()[i] == b.entries@[i]);
    }
    if exists|i: int| 0 <= i < a.entries@.len() && (#[trigger] a.entries@[i]).0@ == id {
        let i = choose|i: int| 0 <= i < a.entries@.len() && (#[trigger] a.entries@[i]).0@ == id;
        let j = if i == n {
            at
        } else {
            i
        };
        assert(b.entries@[j] == a.entries@[i]);
        a.lemma_of(i);
        b.lemma_of(j);
    } else {
        assert forall|j: int| 0 <= j < b.entries@.len() implies (#[trigger] b.entries@[j]).0@
            != id by {
            if j < n {
                let k = if j == at {
                    n
                } else {
                    j
                };
                assert(b.entries@[j] == a.entries@[k]);
                assert(a.entries@[k].0@ != id);
            }
        }
    }
}

proof fn lemma_extended_of(a: Histories, b: Histories, id: Seq<char>)
    requires
        distinct_keys(a.entries@),
        distinct_keys(b.entries@),
        b.entries@.len() == a.entries@.len() + 1,
        b.entries@.drop_last() == a.entries@,
        b.entries@.last().0@ != id,
    ensures
        a.of(id) == b.of(id),
{
    assert forall|i: int| 0 <= i < a.entries@.len() implies #[trigger] b.entries@[i]
        == a.entries@[i] by {
        assert(b.entries@.drop_last()[i] == b.entries@[i]);
    }
    if exists|i: int| 0 <= i < a.entries@.len() && (#[trigger] a.entries@[i]).0@ == id {
        let i = choose|i: int| 0 <= i < a.entries@.len() && (#[trigger] a.entries@[i]).0@ == id;
        assert(b.entries@[i] == a.entries@[i]);
        a.lemma_of(i);
        b.lemma_of(i);
    } else {
        assert forall|j: int| 0 <= j < b.entries@.len() implies (#[trigger] b.entries@[j]).0@
            != id by {
            if j < a.entries@.len() {
                assert(b.entries@[j] == a.entries@[j]);
                assert(a.entries@[j].0@ != id);
            }
        }
    }
}

// ---------------------------------------------------------------------------
// State
// ---------------------------------------------------------------------------

/// What the tray remembers between polls.
pub struct AppState {
    /// Samples per window.
    pub histories: Histories,
    /// Windows of the most recent successful fetch, in display order.
    pub last_good: Option<Vec<Window>>,
    /// When that fetch happened, ms since the Unix epoch; 0 before the first.
    pub last_good_at: i64,
    /// Failures since the last success.
    pub fail_streak: u32,
    /// Whether there is an HTTP client to fetch with.
    pub has_client: bool,
    /// Whether the network is down: no polling.
    pub offline: bool,
    /// Whether the screen is locked: no polling.
    pub screen_locked: bool,
    /// Prices by model, where a price table has been fetched.
    pub price_table: Option<PriceTable>,
    /// Successful polls since the price table was last fetched.
    pub polls_since_pricing_refresh: u64,
}

impl Default for AppState {
    fn default() -> (r: AppState)
        ensures
            forall|id: Seq<char>| #[trigger] r.histories.of(id) == Seq::<Sample>::empty(),
            r.last_good is None,
            r.last_good_at == 0,
            r.fail_streak == 0,
            !r.has_client,
            !r.offline,
            !r.screen_locked,
            r.price_table is None,
            r.polls_since_pricing_refresh == 0,
    {
        AppState {
            histories: Histories::new(),
            last_good: None,
            last_good_at: 0,
            fail_streak: 0,
            has_client: false,
            offline: false,
            screen_locked: false,
            price_table: None,
            polls_since_pricing_refresh: 0,
        }
    }
}

/// Whether polling is off because nobody can see the icon.
pub fn is_screen_locked(state: &AppState) -> (r: bool)
    ensures
        r == state.screen_locked,
{
    state.screen_locked
}

/// Seconds as milliseconds, as far as they fit.
pub open spec fn millis(seconds: int) -> int {
    if seconds * 1000 > u64::MAX {
        u64::MAX as int
    } else {
        seconds * 1000
    }
}

/// Seconds as milliseconds, as far as they fit.
pub fn to_millis(seconds: u64) -> (r: u64)
    ensures
        r == millis(seconds as int),
{
    let ms: u128 = seconds as u128 * 1000;
    if ms > u64::MAX as u128 {
        u64::MAX
    } else {
        ms as u64
    }
}

/// The wait after a poll that was skipped: the plain interval, neither cut nor
/// backed off, so that the schedule stays aligned.
pub fn short_circuit_interval(cfg: &Config) -> (r: u64)
    ensures
        r == millis(cfg.refresh_seconds as int),
{
    to_millis(cfg.refresh_seconds)
}

/// Clears what every forced refresh overrides: the failure streak and the
/// cached belief that the network is down. The screen lock stays as it is.
pub fn clear_force_refresh_state(state: &mut AppState)
    ensures
        *final(state) == (AppState { fail_streak: 0, offline: false, ..*old(state) }),
{
    state.fail_streak = 0;
    state.offline = false;
}

/// Clearing twice is clearing once, and a locked screen stays locked.
pub proof fn law_forced_refresh_clears_once(s: AppState)
    ensures
        ({
            let once = AppState { fail_streak: 0, offline: false, ..s };
            let twice = AppState { fail_streak: 0, offline: false, ..once };
            twice == once && once.screen_locked == s.screen_locked
        }),
{
}

// ---------------------------------------------------------------------------
// Waiting
// ---------------------------------------------------------------------------

/// Milliseconds to wait at `now`: nothing before the first poll, else what is
/// left of the interval since the last one.
pub open spec fn wait_ms(last_refresh_at: Option<i64>, next_interval_ms: int, now: int) -> int {
    match last_refresh_at {
        None => 0,
        Some(at) => {
            let elapsed = if now > at {
                now - at
            } else {
                0
            };
            if next_interval_ms > elapsed {
                next_interval_ms - elapsed
            } else {
                0
            }
        },
    }
}

/// Milliseconds to wait at `now` before the next scheduled poll.
pub fn compute_wait_ms(last_refresh_at: Option<i64>, next_interval_ms: u64, now: i64) -> (r: u64)
    ensures
        r == wait_ms(last_refresh_at, next_interval_ms as int, now as int),
{
    match last_refresh_at {
        None => 0,
        Some(at) => {
            let elapsed: u64 = if now > at {
                (now as i128 - at as i128) as u64
            } else {
                0
            };
            if next_interval_ms > elapsed {
                next_interval_ms - elapsed
            } else {
                0
            }
        },
    }
}

/// The interval to arm: jittered, capped at the longest backoff, and a second
/// at least.
pub open spec fn armed_interval(returned_ms: int, max_backoff_seconds: int, jitter: int) -> int {
    let cap = max_backoff_seconds * 1000;
    let jittered = if returned_ms + jitter < cap {
        returned_ms + jitter
    } else {
        cap
    };
    if jittered < 1000 {
        1000
    } else if jittered > u64::MAX {
        u64::MAX as int
    } else {
        jittered
    }
}

/// The interval to arm after a poll that asked for `returned_ms`.
pub fn compute_next_interval(returned_ms: u64, max_backoff_seconds: u64, jitter: u32) -> (r: u64)
    ensures
        r == armed_interval(returned_ms as int, max_backoff_seconds as int, jitter as int),
{
    let cap: u128 = max_backoff_seconds as u128 * 1000;
    let sum: u128 = returned_ms as u128 + jitter as u128;
    let jittered: u128 = if sum < cap {
        sum
    } else {
        cap
    };
    if jittered < 1000 {
        1000
    } else if jittered > u64::MAX as u128 {
        u64::MAX
    } else {
        jittered as u64
    }
}

/// Jitter in 0 to 4999 ms, from the nanoseconds of the clock.
pub fn rand_jitter_ms(nanos: u32) -> (r: u32)
    ensures
        r == nanos % 5000,
        r < 5000,
{
    nanos % 5000
}

/// Milliseconds of the clock as a timestamp: 0 where it stands before the epoch.
pub fn now_ms(since_epoch: Option<u64>) -> (r: i64)
    ensures
        match since_epoch {
            Some(ms) => ms <= i64::MAX ==> r == ms,
            None => r == 0,
        },
        since_epoch is Some && since_epoch->0 > i64::MAX ==> r == i64::MAX,
{
    match since_epoch {
        Some(ms) => if ms > i64::MAX as u64 {
            i64::MAX
        } else {
            ms as i64
        },
        None => 0,
    }
}

/// The armed interval lies between a second and the longest backoff, and no
/// wait is longer than the interval it is part of.
pub proof fn law_waits_are_bounded(
    returned_ms: int,
    max_backoff_seconds: int,
    jitter: int,
    at: Option<i64>,
    now: int,
)
    requires
        returned_ms >= 0,
        max_backoff_seconds >= 0,
        jitter >= 0,
    ensures
        armed_interval(returned_ms, max_backoff_seconds, jitter) >= 1000,
        armed_interval(returned_ms, max_backoff_seconds, jitter) <= 1000 || armed_interval(
            returned_ms,
            max_backoff_seconds,
            jitter,
        ) <= max_backoff_seconds * 1000,
        0 <= wait_ms(at, armed_interval(returned_ms, max_backoff_seconds, jitter), now)
            <= armed_interval(returned_ms, max_backoff_seconds, jitter),
{
}

// ---------------------------------------------------------------------------
// Price table
// ---------------------------------------------------------------------------

/// The successful polls counted after one more.
pub open spec fn polls_after(s: AppState) -> int {
    if s.polls_since_pricing_refresh == u64::MAX {
        u64::MAX as int
    } else {
        s.polls_since_pricing_refresh + 1
    }
}

/// Whether the price table is due after one more successful poll.
pub open spec fn prices_due(cfg: Config, s: AppState) -> bool {
    &&& cfg.pricing_endpoint is Some
    &&& cfg.pricing_refresh_polls is Some
    &&& polls_after(s) >= cfg.pricing_refresh_polls->0
}

/// Counts a successful poll and says where to fetch the price table from, if it
/// is due.
pub fn pricing_refresh_artifact(cfg: &Config, s: &mut AppState) -> (r: Option<String>)
    ensures
        *final(s) == (AppState {
            polls_since_pricing_refresh: if cfg.pricing_endpoint is None
                || cfg.pricing_refresh_polls is None {
                old(s).polls_since_pricing_refresh
            } else if prices_due(*cfg, *old(s)) {
                0
            } else {
                polls_after(*old(s)) as u64
            },
            ..*old(s)
        }),
        opt_view(r) == (if prices_due(*cfg, *old(s)) && old(s).has_client {
            opt_view(cfg.pricing_endpoint)
        } else {
            None
        }),
{
    let url = match &cfg.pricing_endpoint {
        Some(u) => u,
        None => return None,
    };
    let interval: u64 = match cfg.pricing_refresh_polls {
        Some(i) => i,
        None => return None,
    };
    let polls: u64 = if s.polls_since_pricing_refresh == u64::MAX {
        u64::MAX
    } else {
        s.polls_since_pricing_refresh + 1
    };
    if polls < interval {
        s.polls_since_pricing_refresh = polls;
        return None;
    }
    s.polls_since_pricing_refresh = 0;
    if s.has_client {
        Some(url.clone())
    } else {
        None
    }
}

// ---------------------------------------------------------------------------
// Laws
// ---------------------------------------------------------------------------

/// Nothing left is the worst rank, less than half left the next, and half or more is
/// normal. The ranks are ordered so, with no data before all of them.
pub proof fn law_ranks_follow_the_quota(a: int, b: int)
    ensures
        rank_of(a) == BucketRank::Throttled <==> a <= 0,
        rank_of(a) == BucketRank::Warning <==> 0 < a < 50,
        rank_of(a) == BucketRank::Normal <==> 50 <= a,
        a <= b ==> level(rank_of(b)) <= level(rank_of(a)),
        level(rank_of(a)) == level(rank_of(b)) <==> rank_of(a) == rank_of(b),
        level(BucketRank::NoData) < level(rank_of(a)),
{
}

/// A poll extends a history by one sample with the window's numbers and the time of
/// the poll. What stood there before stays, but for the oldest samples past 480; all
/// of it goes where the window began at another time, or its count or its percentage
/// fell by more than one.
pub proof fn law_polls_extend_a_history(history: Seq<Sample>, w: Window, now: i64)
    ensures
        ({
            let r = sampled(history, w, now);
            let old = history.last();
            let same_epoch = history.len() == 0 || (w.start_at == old.start_at && w.used >= old.used
                - 1 && w.remaining_pct >= old.remaining_pct - 1);
            let n = vstd::math::min(history.len() as int, 479);
            &&& r.len() > 0
            &&& r.last().t == now
            &&& r.last().used == w.used
            &&& r.last().total == w.total
            &&& r.last().remaining_pct == w.remaining_pct
            &&& r.last().start_at == w.start_at
            &&& r.last().reset_at == w.reset_at
            &&& same_epoch ==> r.drop_last() == history.skip(history.len() - n)
            &&& !same_epoch ==> r.len() == 1
        }),
{
    let r = sampled(history, w, now);
    let n = vstd::math::min(history.len() as int, 479);
    if !(history.len() > 0 && rolled_over(history.last(), w)) {
        assert(r.drop_last() =~= history.skip(history.len() - n));
    }
}

/// The wait and the time that has passed since the last poll make up the interval,
/// until nothing is left of it. Before the first poll there is no wait, and a clock
/// that was set back does not lengthen it.
pub proof fn law_wait_is_what_is_left(at: i64, interval: int, now: int)
    requires
        0 <= interval,
    ensures
        wait_ms(None, interval, now) == 0,
        at <= now <= at + interval ==> wait_ms(Some(at), interval, now) + (now - at) == interval,
        now > at + interval ==> wait_ms(Some(at), interval, now) == 0,
        now < at ==> wait_ms(Some(at), interval, now) == interval,
{
}

/// The armed interval is what the poll asked for and the jitter, unless that is over
/// the longest backoff or under a second: then it is that end.
pub proof fn law_armed_interval_is_jittered_and_clamped(returned_ms: int, cap: int, jitter: int)
    requires
        0 <= cap * 1000 <= u64::MAX,
    ensures
        1000 <= returned_ms + jitter <= cap * 1000 ==> armed_interval(returned_ms, cap, jitter)
            == returned_ms + jitter,
        returned_ms + jitter > cap * 1000 && cap >= 1 ==> armed_interval(returned_ms, cap, jitter)
            == cap * 1000,
        returned_ms + jitter < 1000 || cap == 0 ==> armed_interval(returned_ms, cap, jitter) == 1000,
{
}

/// A thousand milliseconds make a second, as far as they can be counted.
pub proof fn law_seconds_are_a_thousand_milliseconds(seconds: int)
    requires
        0 <= seconds,
    ensures
        seconds <= 18_446_744_073_709_551 ==> millis(seconds) == 1000 * seconds,
        seconds > 18_446_744_073_709_551 ==> millis(seconds) == u64::MAX,
{
}

/// The price table is due at every `n`th successful poll, counted from the last time
/// it was; never without an endpoint or where no such number is configured.
pub proof fn law_prices_are_due_every_so_many_polls(cfg: Config, s: AppState)
    requires
        s.polls_since_pricing_refresh < u64::MAX,
    ensures
        prices_due(cfg, s) <==> cfg.pricing_endpoint is Some && (
        cfg.pricing_refresh_polls matches Some(n) && s.polls_since_pricing_refresh + 1 >= n),
        polls_after(s) == s.polls_since_pricing_refresh + 1,
{
}

} // verus!
