//! Burn-rate projection.
//!
//! A *window* is one quota epoch (5h, weekly, anything). A *sample* is what one
//! poll saw of it. The rate is the larger of a least-squares slope over the
//! recent samples and, if configured, the average since the epoch began. A
//! window that counts tokens is projected in tokens; one that only reports an
//! integer percentage is projected in percent.
use crate::ratio::{saturated, toward_zero, Integer, Ratio};
use crate::text::{clone_opt, same};
use vstd::prelude::*;

verus! {

/// Milliseconds in an hour.
pub const HOUR_MS: i64 = 3_600_000;

/// What one successful poll saw of a window.
#[derive(Debug, Clone, Copy, PartialEq, Eq, Structural)]
pub struct Sample {
    /// When the poll happened, ms since the Unix epoch.
    pub t: i64,
    /// Tokens consumed (0 where the provider reports only a percentage).
    pub used: i64,
    /// Tokens the epoch grants (0 where the provider reports only a percentage).
    pub total: i64,
    /// Percentage left, 0 to 100.
    pub remaining_pct: i64,
    /// Epoch start, ms since the Unix epoch.
    pub start_at: i64,
    /// Epoch reset, ms since the Unix epoch.
    pub reset_at: i64,
}

/// A quota window as the most recent successful fetch described it.
#[derive(Debug, PartialEq)]
pub struct Window {
    /// Stable label, such as `5h`; menu row label and history key.
    pub id: String,
    pub total: i64,
    pub used: i64,
    pub remaining_pct: i64,
    pub start_at: i64,
    pub reset_at: i64,
    /// What `used` counts: `None` means tokens, `cents` and `milliunits` money.
    pub count_unit: Option<String>,
    /// Currency of a money window.
    pub currency: Option<String>,
    /// Model that the entry was tagged with, for the price table.
    pub model: Option<String>,
}

impl Clone for Window {
    fn clone(&self) -> (r: Window)
        ensures
            r == *self,
    {
        Window {
            id: self.id.clone(),
            total: self.total,
            used: self.used,
            remaining_pct: self.remaining_pct,
            start_at: self.start_at,
            reset_at: self.reset_at,
            count_unit: clone_opt(&self.count_unit),
            currency: clone_opt(&self.currency),
            model: clone_opt(&self.model),
        }
    }
}

/// How burn rates are computed.
#[derive(Debug, Clone, Copy, PartialEq, Eq, Structural)]
pub struct BurnConfig {
    pub enabled: bool,
    /// How old the oldest sample has to be before a rate is computed.
    pub min_history_ms: i64,
    /// How far back the slope looks.
    pub lookback_ms: i64,
    /// Whether the average since the epoch began is a floor for the rate.
    pub use_epoch_average: bool,
}

impl Default for BurnConfig {
    fn default() -> (r: BurnConfig)
        ensures
            r.enabled,
            r.min_history_ms == 600_000,
            r.lookback_ms == 3_600_000,
            r.use_epoch_average,
    {
        BurnConfig {
            enabled: true,
            min_history_ms: 600_000,
            lookback_ms: 3_600_000,
            use_epoch_average: true,
        }
    }
}

// ---------------------------------------------------------------------------
// Slope
// ---------------------------------------------------------------------------

/// Which field of a sample a slope is taken over.
pub open spec fn key_is_used(key: Seq<char>) -> bool {
    key == "used"@
}

/// The field of `s` that a slope is taken over.
pub open spec fn field(s: Sample, used: bool) -> int {
    if used {
        s.used as int
    } else {
        s.remaining_pct as int
    }
}

/// Sum of the sample times, counted from `t0`.
pub open spec fn sum_t(s: Seq<Sample>, t0: int) -> int
    decreases s.len(),
{
    if s.len() == 0 {
        0
    } else {
        sum_t(s.drop_last(), t0) + (s.last().t - t0)
    }
}

/// Sum of the squared sample times, counted from `t0`.
pub open spec fn sum_tt(s: Seq<Sample>, t0: int) -> int
    decreases s.len(),
{
    if s.len() == 0 {
        0
    } else {
        sum_tt(s.drop_last(), t0) + (s.last().t - t0) * (s.last().t - t0)
    }
}

/// Sum of the sample values.
pub open spec fn sum_y(s: Seq<Sample>, used: bool) -> int
    decreases s.len(),
{
    if s.len() == 0 {
        0
    } else {
        sum_y(s.drop_last(), used) + field(s.last(), used)
    }
}

/// Sum of the products of sample time and value.
pub open spec fn sum_ty(s: Seq<Sample>, t0: int, used: bool) -> int
    decreases s.len(),
{
    if s.len() == 0 {
        0
    } else {
        sum_ty(s.drop_last(), t0, used) + (s.last().t - t0) * field(s.last(), used)
    }
}

/// `n` times the sum of squared deviations of the sample times from their mean.
pub open spec fn time_spread(s: Seq<Sample>, t0: int) -> int {
    s.len() * sum_tt(s, t0) - sum_t(s, t0) * sum_t(s, t0)
}

/// `n` times the sum of the products of the deviations of time and value.
pub open spec fn covariation(s: Seq<Sample>, t0: int, used: bool) -> int {
    s.len() * sum_ty(s, t0, used) - sum_t(s, t0) * sum_y(s, used)
}

/// Least-squares slope per hour as numerator and denominator; `None` with
/// fewer than two samples or where all of them carry the same time.
pub open spec fn slope(s: Seq<Sample>, used: bool) -> Option<(int, int)> {
    if s.len() < 2 || time_spread(s, s[0].t as int) <= 0 {
        None
    } else {
        Some((covariation(s, s[0].t as int, used) * HOUR_MS, time_spread(s, s[0].t as int)))
    }
}

/// The fraction of an optional `Ratio`.
pub open spec fn fraction(r: Option<Ratio>) -> Option<(int, int)> {
    match r {
        Some(v) => Some((v.num(), v.den())),
        None => None,
    }
}

/// Least-squares slope of the field `key` over `samples`, per hour.
pub fn slope_per_hour(samples: &[Sample], key: &str) -> (r: Option<Ratio>)
    requires
        key@ == "used"@ || key@ == "remaining_pct"@,
    ensures
        fraction(r) == slope(samples@, key_is_used(key@)),
{
    let n: usize = samples.len();
    if n < 2 {
        return None;
    }
    let used: bool = same(key, "used");
    let t0 = Integer::from_i64(samples[0].t);
    let mut st = Integer::zero();
    let mut stt = Integer::zero();
    let mut sy = Integer::zero();
    let mut sty = Integer::zero();
    let mut i: usize = 0;
    while i < n
        invariant
            n == samples.len(),
            i <= n,
            t0@ == samples@[0].t,
            st@ == sum_t(samples@.take(i as int), t0@),
            stt@ == sum_tt(samples@.take(i as int), t0@),
            sy@ == sum_y(samples@.take(i as int), used),
            sty@ == sum_ty(samples@.take(i as int), t0@, used),
        decreases n - i,
    {
        let s = samples[i];
        let x = Integer::from_i64(s.t).minus(&t0);
        let y = Integer::from_i64(if used {
            s.used
        } else {
            s.remaining_pct
        });
        proof {
            let next = samples@.take(i + 1);
            assert(next.drop_last() =~= samples@.take(i as int));
            assert(next.last() == s);
        }
        st = st.plus(&x);
        stt = stt.plus(&x.times(&x));
        sy = sy.plus(&y);
        sty = sty.plus(&x.times(&y));
        i += 1;
    }
    assert(samples@.take(n as int) =~= samples@);
    let count = Integer::from_u64(n as u64);
    let den = count.times(&stt).minus(&st.times(&st));
    if !den.is_positive() {
        return None;
    }
    let num = count.times(&sty).minus(&st.times(&sy)).times(&Integer::from_i64(HOUR_MS));
    Some(Ratio::new(num, den))
}

// ---------------------------------------------------------------------------
// Projection
// ---------------------------------------------------------------------------

/// A burn-rate projection.
pub struct BurnResult {
    /// Units per hour; never negative.
    pub rate_per_hour: Ratio,
    /// `token`, `pct` or `idle`.
    pub mode: &'static str,
    /// `token` or `pct`; kept so that labels stay right at rate zero.
    pub unit: &'static str,
    /// Whole milliseconds until nothing is left at this rate; `None` means never.
    pub exhaust_ms: Option<i64>,
    /// Milliseconds until the reset.
    pub remaining_ms: i64,
    /// Whether the window runs out before it resets.
    pub exhaust_before_reset: bool,
    /// Percentage left at the reset if the rate holds.
    pub projected_pct_left: Ratio,
}

/// A projection as a mathematical value.
pub struct Burn {
    pub rate: (int, int),
    pub mode: Seq<char>,
    pub unit: Seq<char>,
    pub exhaust_ms: Option<int>,
    pub remaining_ms: int,
    pub exhaust_before_reset: bool,
    pub projected_pct_left: (int, int),
}

impl View for BurnResult {
    type V = Burn;

    open spec fn view(&self) -> Burn {
        Burn {
            rate: (self.rate_per_hour.num(), self.rate_per_hour.den()),
            mode: self.mode@,
            unit: self.unit@,
            exhaust_ms: match self.exhaust_ms {
                Some(ms) => Some(ms as int),
                None => None,
            },
            remaining_ms: self.remaining_ms as int,
            exhaust_before_reset: self.exhaust_before_reset,
            projected_pct_left: (self.projected_pct_left.num(), self.projected_pct_left.den()),
        }
    }
}

/// The view of an optional projection.
pub open spec fn burn_view(r: Option<BurnResult>) -> Option<Burn> {
    match r {
        Some(b) => Some(b@),
        None => None,
    }
}

/// The samples at the end of `history` that are at most `lookback` ms old:
/// everything after the last one that is older.
pub open spec fn recent(history: Seq<Sample>, now: int, lookback: int) -> Seq<Sample>
    decreases history.len(),
{
    if history.len() == 0 || now - history.last().t > lookback {
        Seq::empty()
    } else {
        recent(history.drop_last(), now, lookback).push(history.last())
    }
}

/// Whether some sample counts tokens.
pub open spec fn any_used(s: Seq<Sample>) -> bool {
    exists|i: int| 0 <= i < s.len() && (#[trigger] s[i]).used > 0
}

/// Whether some sample carries a percentage.
pub open spec fn any_pct(s: Seq<Sample>) -> bool {
    exists|i: int| 0 <= i < s.len() && (#[trigger] s[i]).remaining_pct >= 0
}

/// `a > b` as fractions with positive denominators.
pub open spec fn exceeds(a: (int, int), b: (int, int)) -> bool {
    b.0 * a.1 < a.0 * b.1
}

/// The slope of the token count, where tokens are counted and it rises.
pub open spec fn token_slope(s: Seq<Sample>) -> Option<(int, int)> {
    match slope(s, true) {
        Some(r) => if any_used(s) && r.0 > 0 {
            Some(r)
        } else {
            None
        },
        None => None,
    }
}

/// Average consumption per hour since the epoch began, where it applies.
pub open spec fn epoch_average(w: Window, now: int, config: BurnConfig) -> Option<(int, int)> {
    if config.use_epoch_average && w.start_at > 0 && now > w.start_at && w.used > 0 {
        Some((w.used * HOUR_MS, now - w.start_at))
    } else {
        None
    }
}

/// The token rate: the slope, or the epoch average where that is larger.
pub open spec fn token_rate(w: Window, s: Seq<Sample>, now: int, config: BurnConfig) -> Option<
    (int, int),
> {
    match (epoch_average(w, now, config), token_slope(s)) {
        (Some(avg), Some(t)) => if exceeds(avg, t) {
            Some(avg)
        } else {
            Some(t)
        },
        (Some(avg), None) => Some(avg),
        (None, t) => t,
    }
}

/// The rate at which the percentage falls, where it does.
pub open spec fn pct_rate(s: Seq<Sample>) -> Option<(int, int)> {
    match slope(s, false) {
        Some(r) => if r.0 < 0 {
            Some((-r.0, r.1))
        } else {
            None
        },
        None => None,
    }
}

/// Mode, rate and unit: tokens where they are counted and move, else percent
/// where it falls, else idle.
pub open spec fn selection(w: Window, s: Seq<Sample>, now: int, config: BurnConfig) -> (
    Seq<char>,
    (int, int),
    Seq<char>,
) {
    let counted = w.total > 0;
    if counted && token_rate(w, s, now, config) is Some {
        ("token"@, token_rate(w, s, now, config)->0, "token"@)
    } else if pct_rate(s) is Some {
        ("pct"@, pct_rate(s)->0, "pct"@)
    } else if !counted && any_pct(s) {
        ("idle"@, (0, 1), "pct"@)
    } else {
        ("idle"@, (0, 1), "token"@)
    }
}

/// Milliseconds until `amount` is consumed at `rate` per hour, as a fraction.
pub open spec fn time_to_consume(amount: int, rate: (int, int)) -> (int, int) {
    (amount * rate.1 * HOUR_MS, rate.0)
}

/// What is left of `amount` after `ms` at `rate` per hour, as a fraction.
pub open spec fn left_after(amount: int, rate: (int, int), ms: int) -> (int, int) {
    (amount * rate.1 * HOUR_MS - rate.0 * ms, rate.1 * HOUR_MS)
}

/// A fraction, or 0 where it is negative.
pub open spec fn at_least_zero(f: (int, int)) -> (int, int) {
    if f.0 <= 0 {
        (0, 1)
    } else {
        f
    }
}

/// Milliseconds until the reset.
pub open spec fn until_reset(w: Window, now: int) -> int {
    saturated(w.reset_at - now)
}

/// The projection of a window from its recent samples.
pub open spec fn projection(w: Window, s: Seq<Sample>, now: int, config: BurnConfig) -> Burn {
    let (mode, rate, unit) = selection(w, s, now, config);
    let ms = until_reset(w, now);
    let (exhaust, left) = if mode == "pct"@ {
        (
            Some(time_to_consume(w.remaining_pct as int, rate)),
            at_least_zero(left_after(w.remaining_pct as int, rate, ms)),
        )
    } else if mode == "token"@ {
        let rest = left_after(w.total - w.used, rate, ms);
        (
            Some(time_to_consume(w.total - w.used, rate)),
            at_least_zero((100 * rest.0, rest.1 * w.total)),
        )
    } else {
        (None, (w.remaining_pct as int, 1))
    };
    Burn {
        rate,
        mode,
        unit,
        exhaust_ms: match exhaust {
            Some(e) => Some(saturated(toward_zero(e.0, e.1))),
            None => None,
        },
        remaining_ms: ms,
        exhaust_before_reset: match exhaust {
            Some(e) => e.0 < ms * e.1,
            None => false,
        },
        projected_pct_left: left,
    }
}

/// Whether there is enough history, recent and old, to project from.
pub open spec fn projectable(
    w: Window,
    history: Seq<Sample>,
    now: int,
    config: BurnConfig,
) -> bool {
    &&& config.enabled
    &&& history.len() >= 2
    &&& now - history[0].t >= config.min_history_ms
    &&& recent(history, now, config.lookback_ms as int).len() >= 2
    &&& w.reset_at > now
}

/// The projection of a window, where there is one.
pub open spec fn burn_of(
    w: Option<Window>,
    history: Seq<Sample>,
    now: int,
    config: BurnConfig,
) -> Option<Burn> {
    match w {
        Some(w) => if projectable(w, history, now, config) {
            Some(projection(w, recent(history, now, config.lookback_ms as int), now, config))
        } else {
            None
        },
        None => None,
    }
}

/// The samples at the end of `history` that are at most `lookback_ms` old.
pub fn recent_samples(history: &[Sample], now: i64, lookback_ms: i64) -> (r: Vec<Sample>)
    ensures
        r@ == recent(history@, now as int, lookback_ms as int),
{
    let n: usize = history.len();
    let mut from: usize = n;
    assert(history@.subrange(n as int, n as int) =~= Seq::<Sample>::empty());
    assert(history@.take(n as int) =~= history@);
    while from > 0 && now as i128 - history[from - 1].t as i128 <= lookback_ms as i128
        invariant
            n == history.len(),
            from <= n,
            recent(history@, now as int, lookback_ms as int) =~= recent(
                history@.take(from as int),
                now as int,
                lookback_ms as int,
            ) + history@.subrange(from as int, n as int),
        decreases from,
    {
        proof {
            let s = history@.take(from as int);
            assert(s.drop_last() =~= history@.take(from - 1));
            assert(s.last() == history@[from - 1]);
        }
        from -= 1;
    }
    proof {
        let s = history@.take(from as int);
        assert(from > 0 ==> s.last() == history@[from - 1]);
        assert(recent(s, now as int, lookback_ms as int) =~= Seq::<Sample>::empty());
    }
    let mut out: Vec<Sample> = Vec::new();
    let mut i: usize = from;
    while i < n
        invariant
            n == history.len(),
            from <= i <= n,
            out@ =~= history@.subrange(from as int, i as int),
        decreases n - i,
    {
        out.push(history[i]);
        i += 1;
    }
    out
}

fn has_used(s: &Vec<Sample>) -> (r: bool)
    ensures
        r == any_used(s@),
{
    let mut i: usize = 0;
    while i < s.len()
        invariant
            i <= s.len(),
            forall|j: int| 0 <= j < i ==> (#[trigger] s@[j]).used <= 0,
        decreases s.len() - i,
    {
        if s[i].used > 0 {
            return true;
        }
        i += 1;
    }
    false
}

fn has_pct(s: &Vec<Sample>) -> (r: bool)
    ensures
        r == any_pct(s@),
{
    let mut i: usize = 0;
    while i < s.len()
        invariant
            i <= s.len(),
            forall|j: int| 0 <= j < i ==> (#[trigger] s@[j]).remaining_pct < 0,
        decreases s.len() - i,
    {
        if s[i].remaining_pct >= 0 {
            return true;
        }
        i += 1;
    }
    false
}

/// The token rate of a window: the recent slope, or the epoch average where
/// that is larger.
pub fn select_token_rate(
    window: &Window,
    recent: &Vec<Sample>,
    now: i64,
    config: &BurnConfig,
) -> (r: Option<Ratio>)
    ensures
        fraction(r) == token_rate(*window, recent@, now as int, *config),
{
    let mut rate: Option<Ratio> = None;
    if has_used(recent) {
        if let Some(s) = slope_per_hour(recent.as_slice(), "used") {
            if s.is_positive() {
                rate = Some(s);
            }
        }
    }
    assert(fraction(rate) == token_slope(recent@));
    if config.use_epoch_average && window.start_at > 0 && now > window.start_at && window.used
        > 0 {
        let avg = Ratio::new(
            Integer::from_i64(window.used).times(&Integer::from_i64(HOUR_MS)),
            Integer::from_i64(now).minus(&Integer::from_i64(window.start_at)),
        );
        let larger: bool = match &rate {
            Some(t) => t.less_than(&avg),
            None => true,
        };
        if larger {
            rate = Some(avg);
        }
    }
    rate
}

/// The rate at which the percentage falls, where it does.
pub fn select_pct_rate(recent: &Vec<Sample>) -> (r: Option<Ratio>)
    ensures
        fraction(r) == pct_rate(recent@),
{
    proof {
        reveal_strlit("used");
        reveal_strlit("remaining_pct");
        assert("used"@.len() != "remaining_pct"@.len());
    }
    if let Some(s) = slope_per_hour(recent.as_slice(), "remaining_pct") {
        let falling = s.numerator().negated();
        let den = s.denominator();
        if falling.is_positive() {
            return Some(Ratio::new(falling, den));
        }
    }
    None
}

/// The projection of `window` from `history` at time `now`: `None` until enough
/// history has accumulated, when the feature is off, or when the window is
/// already past its reset.
pub fn compute_burn(
    window: Option<&Window>,
    history: &[Sample],
    now: i64,
    config: &BurnConfig,
) -> (r: Option<BurnResult>)
    ensures
        burn_view(r) == burn_of(
            match window {
                Some(w) => Some(*w),
                None => None,
            },
            history@,
            now as int,
            *config,
        ),
{
    let window = match window {
        Some(w) => w,
        None => return None,
    };
    if !config.enabled || history.len() < 2 {
        return None;
    }
    if (now as i128 - history[0].t as i128) < config.min_history_ms as i128 {
        return None;
    }
    let recent = recent_samples(history, now, config.lookback_ms);
    if recent.len() < 2 {
        return None;
    }
    let left: i128 = window.reset_at as i128 - now as i128;
    if left <= 0 {
        return None;
    }
    let remaining_ms: i64 = if left > i64::MAX as i128 {
        i64::MAX
    } else {
        left as i64
    };
    proof {
        reveal_strlit("token");
        reveal_strlit("pct");
        reveal_strlit("idle");
        assert("token"@.len() == 5 && "pct"@.len() == 3 && "idle"@.len() == 4);
    }
    let counted: bool = window.total > 0;
    let hour = Integer::from_i64(HOUR_MS);
    let ms = Integer::from_i64(remaining_ms);
    if counted {
        if let Some(rate) = select_token_rate(window, &recent, now, config) {
            let amount = Integer::from_i64(window.total).minus(&Integer::from_i64(window.used));
            let num = rate.numerator();
            let den = rate.denominator();
            proof {
                lemma_token_rate_positive(*window, recent@, now as int, *config);
            }
            let exhaust = amount.times(&den).times(&hour);
            let rest = exhaust.minus(&num.times(&ms));
            let whole = den.times(&hour);
            let total = Integer::from_i64(window.total);
            proof {
                assert(whole@ * total@ > 0) by (nonlinear_arith)
                    requires
                        whole@ > 0,
                        total@ > 0,
                ;
            }
            return Some(
                BurnResult {
                    mode: "token",
                    unit: "token",
                    exhaust_ms: Some(exhaust.truncated(&num)),
                    remaining_ms,
                    exhaust_before_reset: exhaust.less_than(&ms.times(&num)),
                    projected_pct_left: ratio_or_zero(
                        Integer::from_i64(100).times(&rest),
                        whole.times(&total),
                    ),
                    rate_per_hour: rate,
                },
            );
        }
    }
    if let Some(rate) = select_pct_rate(&recent) {
        let amount = Integer::from_i64(window.remaining_pct);
        let num = rate.numerator();
        let den = rate.denominator();
        let exhaust = amount.times(&den).times(&hour);
        return Some(
            BurnResult {
                mode: "pct",
                unit: "pct",
                exhaust_ms: Some(exhaust.truncated(&num)),
                remaining_ms,
                exhaust_before_reset: exhaust.less_than(&ms.times(&num)),
                projected_pct_left: ratio_or_zero(
                    exhaust.minus(&num.times(&ms)),
                    den.times(&hour),
                ),
                rate_per_hour: rate,
            },
        );
    }
    let unit: &'static str = if !counted && has_pct(&recent) {
        "pct"
    } else {
        "token"
    };
    Some(
        BurnResult {
            rate_per_hour: Ratio::from_u64(0),
            mode: "idle",
            unit,
            exhaust_ms: None,
            remaining_ms,
            exhaust_before_reset: false,
            projected_pct_left: Ratio::new(
                Integer::from_i64(window.remaining_pct),
                Integer::from_u64(1),
            ),
        },
    )
}

/// A token rate, where there is one, is positive.
proof fn lemma_token_rate_positive(w: Window, s: Seq<Sample>, now: int, config: BurnConfig)
    ensures
        token_rate(w, s, now, config) is Some ==> token_rate(w, s, now, config).unwrap().0 > 0
            && token_rate(w, s, now, config).unwrap().1 > 0,
{
    assert(w.used > 0 ==> w.used * HOUR_MS > 0) by (nonlinear_arith);
}

/// The projection behind the burn row of a window: none for a percentage that
/// does not move, so that idle percent-only windows get no row.
pub open spec fn burn_row(
    w: Option<Window>,
    history: Seq<Sample>,
    now: int,
    config: BurnConfig,
) -> Option<Burn> {
    match burn_of(w, history, now, config) {
        Some(b) => if b.unit == "pct"@ && b.rate.0 == 0 {
            None
        } else {
            Some(b)
        },
        None => None,
    }
}

/// The projection that the burn row of `window` shows, if it has a row.
pub fn decide_burn_row(
    window: Option<&Window>,
    history: &[Sample],
    now: i64,
    config: &BurnConfig,
) -> (r: Option<BurnResult>)
    ensures
        burn_view(r) == burn_row(
            match window {
                Some(w) => Some(*w),
                None => None,
            },
            history@,
            now as int,
            *config,
        ),
{
    let burn = match compute_burn(window, history, now, config) {
        Some(b) => b,
        None => return None,
    };
    let num = burn.rate_per_hour.numerator();
    let moves: bool = num.is_positive() || num.negated().is_positive();
    if same(burn.unit, "pct") && !moves {
        return None;
    }
    Some(burn)
}

/// A fraction, or 0 where it is negative.
fn ratio_or_zero(num: Integer, den: Integer) -> (r: Ratio)
    requires
        den@ > 0,
    ensures
        (r.num(), r.den()) == at_least_zero((num@, den@)),
{
    if num.is_positive() {
        Ratio::new(num, den)
    } else {
        Ratio::from_u64(0)
    }
}

// ---------------------------------------------------------------------------
// Laws
// ---------------------------------------------------------------------------

proof fn lemma_sum_t_shift(s: Seq<Sample>, a: int, b: int)
    ensures
        sum_t(s, b) == sum_t(s, a) + s.len() * (a - b),
    decreases s.len(),
{
    if s.len() > 0 {
        lemma_sum_t_shift(s.drop_last(), a, b);
        let k = s.drop_last().len();
        assert((k + 1) * (a - b) == k * (a - b) + (a - b)) by (nonlinear_arith);
    } else {
        assert(0 * (a - b) == 0) by (nonlinear_arith);
    }
}

proof fn lemma_sum_tt_shift(s: Seq<Sample>, a: int, b: int)
    ensures
        sum_tt(s, b) == sum_tt(s, a) + 2 * (a - b) * sum_t(s, a) + s.len() * ((a - b) * (a - b)),
    decreases s.len(),
{
    let d = a - b;
    if s.len() > 0 {
        lemma_sum_tt_shift(s.drop_last(), a, b);
        let k = s.drop_last().len() as int;
        let x = s.last().t - a;
        let st = sum_t(s.drop_last(), a);
        assert((x + d) * (x + d) == x * x + 2 * d * x + d * d) by (nonlinear_arith);
        assert(s.last().t - b == x + d);
        assert(2 * d * (st + x) == 2 * d * st + 2 * d * x) by (nonlinear_arith);
        assert((k + 1) * (d * d) == k * (d * d) + d * d) by (nonlinear_arith);
    } else {
        assert(2 * d * 0 == 0) by (nonlinear_arith);
        assert(0 * (d * d) == 0) by (nonlinear_arith);
    }
}

proof fn lemma_sum_ty_shift(s: Seq<Sample>, a: int, b: int, used: bool)
    ensures
        sum_ty(s, b, used) == sum_ty(s, a, used) + (a - b) * sum_y(s, used),
    decreases s.len(),
{
    let d = a - b;
    if s.len() > 0 {
        lemma_sum_ty_shift(s.drop_last(), a, b, used);
        let x = s.last().t - a;
        let y = field(s.last(), used);
        let sy = sum_y(s.drop_last(), used);
        assert((x + d) * y == x * y + d * y) by (nonlinear_arith);
        assert(s.last().t - b == x + d);
        assert(d * (sy + y) == d * sy + d * y) by (nonlinear_arith);
    } else {
        assert(d * 0 == 0) by (nonlinear_arith);
    }
}

/// The slope does not depend on the moment that times are counted from.
pub proof fn law_slope_ignores_time_origin(s: Seq<Sample>, a: int, b: int, used: bool)
    ensures
        time_spread(s, a) == time_spread(s, b),
        covariation(s, a, used) == covariation(s, b, used),
{
    lemma_sum_t_shift(s, a, b);
    lemma_sum_tt_shift(s, a, b);
    lemma_sum_ty_shift(s, a, b, used);
    let n = s.len() as int;
    let d = a - b;
    let st = sum_t(s, a);
    let stt = sum_tt(s, a);
    let sy = sum_y(s, used);
    let sty = sum_ty(s, a, used);
    assert(n * (stt + 2 * d * st + n * (d * d)) - (st + n * d) * (st + n * d) == n * stt - st * st)
        by (nonlinear_arith);
    assert(n * (sty + d * sy) - (st + n * d) * sy == n * sty - st * sy) by (nonlinear_arith);
}

/// Sum of the squared residuals that samples have from a line, times the square of
/// `line.2`. The line has the value `(line.0 + line.1 * (t - t0)) / line.2` at `t`.
pub open spec fn squared_residuals(
    s: Seq<Sample>,
    t0: int,
    used: bool,
    line: (int, int, int),
) -> int
    decreases s.len(),
{
    if s.len() == 0 {
        0
    } else {
        let e = residual(s.last(), t0, used, line);
        squared_residuals(s.drop_last(), t0, used, line) + e * e
    }
}

/// How far a sample lies above a line, times `line.2`.
pub open spec fn residual(s: Sample, t0: int, used: bool, line: (int, int, int)) -> int {
    line.2 * field(s, used) - line.0 - line.1 * (s.t - t0)
}

/// The line through the mean of the samples with their slope per millisecond.
pub open spec fn fitted_line(s: Seq<Sample>, t0: int, used: bool) -> (int, int, int) {
    let c = covariation(s, t0, used);
    let d = time_spread(s, t0);
    (sum_y(s, used) * d - c * sum_t(s, t0), s.len() * c, s.len() * d)
}

/// Sum of the residuals.
spec fn sum_e(s: Seq<Sample>, t0: int, used: bool, line: (int, int, int)) -> int
    decreases s.len(),
{
    if s.len() == 0 {
        0
    } else {
        sum_e(s.drop_last(), t0, used, line) + residual(s.last(), t0, used, line)
    }
}

/// Sum of the products of sample time and residual.
spec fn sum_te(s: Seq<Sample>, t0: int, used: bool, line: (int, int, int)) -> int
    decreases s.len(),
{
    if s.len() == 0 {
        0
    } else {
        sum_te(s.drop_last(), t0, used, line) + (s.last().t - t0) * residual(
            s.last(),
            t0,
            used,
            line,
        )
    }
}

/// The residuals of any line, summed plainly and by time.
proof fn lemma_residual_sums(s: Seq<Sample>, t0: int, used: bool, line: (int, int, int))
    ensures
        sum_e(s, t0, used, line) == line.2 * sum_y(s, used) - s.len() * line.0 - line.1 * sum_t(
            s,
            t0,
        ),
        sum_te(s, t0, used, line) == line.2 * sum_ty(s, t0, used) - line.0 * sum_t(s, t0) - line.1
            * sum_tt(s, t0),
    decreases s.len(),
{
    let (p, q, d) = line;
    if s.len() == 0 {
        assert(d * 0 == 0 && p * 0 == 0 && q * 0 == 0 && 0 * p == 0) by (nonlinear_arith);
    } else {
        let init = s.drop_last();
        lemma_residual_sums(init, t0, used, line);
        let x = s.last().t - t0;
        let y = field(s.last(), used);
        let n = init.len() as int;
        let sy = sum_y(init, used);
        let st = sum_t(init, t0);
        let stt = sum_tt(init, t0);
        let sty = sum_ty(init, t0, used);
        assert((d * sy - n * p - q * st) + (d * y - p - q * x) == d * (sy + y) - (n + 1) * p - q * (
        st + x)) by (nonlinear_arith);
        assert(x * (d * y - p - q * x) == d * (x * y) - p * x - q * (x * x)) by (nonlinear_arith);
        assert(d * (sty + x * y) == d * sty + d * (x * y)) by (nonlinear_arith);
        assert(p * (st + x) == p * st + p * x) by (nonlinear_arith);
        assert(q * (stt + x * x) == q * stt + q * (x * x)) by (nonlinear_arith);
    }
}

/// The squared residuals of two lines differ by those of their difference, and by
/// terms that vanish where the residuals of the first sum to zero.
proof fn lemma_squares_split(
    s: Seq<Sample>,
    t0: int,
    used: bool,
    best: (int, int, int),
    line: (int, int, int),
)
    ensures
        ({
            let u = line.2 * best.0 - best.2 * line.0;
            let v = line.2 * best.1 - best.2 * line.1;
            (best.2 * best.2) * squared_residuals(s, t0, used, line) == (line.2 * line.2)
                * squared_residuals(s, t0, used, best) + (2 * line.2) * (u * sum_e(
                s,
                t0,
                used,
                best,
            ) + v * sum_te(s, t0, used, best)) + (s.len() * (u * u) + (2 * u * v) * sum_t(s, t0)
                + (v * v) * sum_tt(s, t0))
        }),
    decreases s.len(),
{
    let u = line.2 * best.0 - best.2 * line.0;
    let v = line.2 * best.1 - best.2 * line.1;
    let b = best.2;
    let d = line.2;
    if s.len() == 0 {
        assert((b * b) * 0 == 0 && (d * d) * 0 == 0 && u * 0 == 0 && v * 0 == 0 && (2 * d) * 0 == 0
            && 0 * (u * u) == 0 && (2 * u * v) * 0 == 0 && (v * v) * 0 == 0) by (nonlinear_arith);
    } else {
        let init = s.drop_last();
        lemma_squares_split(init, t0, used, best, line);
        let x = s.last().t - t0;
        let y = field(s.last(), used);
        let e = residual(s.last(), t0, used, best);
        let r = residual(s.last(), t0, used, line);
        let w = u + v * x;
        assert(b * r == b * (d * y) - b * line.0 - b * (line.1 * x)) by (nonlinear_arith)
            requires
                r == d * y - line.0 - line.1 * x,
        ;
        assert(d * e == d * (b * y) - d * best.0 - d * (best.1 * x)) by (nonlinear_arith)
            requires
                e == b * y - best.0 - best.1 * x,
        ;
        assert(v * x == d * (best.1 * x) - b * (line.1 * x)) by (nonlinear_arith)
            requires
                v == d * best.1 - b * line.1,
        ;
        assert(b * (d * y) == d * (b * y)) by (nonlinear_arith);
        assert(b * r == d * e + w);
        let de = d * e;
        assert((b * b) * (r * r) == (b * r) * (b * r)) by (nonlinear_arith);
        assert((de + w) * (de + w) == de * de + 2 * (de * w) + w * w) by (nonlinear_arith);
        assert(de * de == (d * d) * (e * e) && 2 * (de * w) == (2 * d) * (e * w))
            by (nonlinear_arith)
            requires
                de == d * e,
        ;
        assert(e * w == u * e + v * (x * e) && w * w == u * u + (2 * u * v) * x + (v * v) * (x * x))
            by (nonlinear_arith)
            requires
                w == u + v * x,
        ;
        let q = squared_residuals(init, t0, used, line);
        let k = squared_residuals(init, t0, used, best);
        let se = sum_e(init, t0, used, best);
        let ste = sum_te(init, t0, used, best);
        let st = sum_t(init, t0);
        let stt = sum_tt(init, t0);
        let n = init.len() as int;
        assert((b * b) * (q + r * r) == (b * b) * q + (b * b) * (r * r)) by (nonlinear_arith);
        assert((d * d) * (k + e * e) == (d * d) * k + (d * d) * (e * e)) by (nonlinear_arith);
        assert((2 * d) * (u * (se + e) + v * (ste + x * e)) == (2 * d) * (u * se + v * ste) + (2
            * d) * (u * e + v * (x * e))) by (nonlinear_arith);
        assert((n + 1) * (u * u) == n * (u * u) + u * u) by (nonlinear_arith);
        assert((2 * u * v) * (st + x) == (2 * u * v) * st + (2 * u * v) * x) by (nonlinear_arith);
        assert((v * v) * (stt + x * x) == (v * v) * stt + (v * v) * (x * x)) by (nonlinear_arith);
    }
}

/// The residuals of the fitted line sum to zero, plainly and by time.
proof fn lemma_fitted_line_is_centred(s: Seq<Sample>, t0: int, used: bool)
    ensures
        sum_e(s, t0, used, fitted_line(s, t0, used)) == 0,
        sum_te(s, t0, used, fitted_line(s, t0, used)) == 0,
{
    lemma_residual_sums(s, t0, used, fitted_line(s, t0, used));
    let n = s.len() as int;
    let st = sum_t(s, t0);
    let stt = sum_tt(s, t0);
    let sy = sum_y(s, used);
    let sty = sum_ty(s, t0, used);
    let c = covariation(s, t0, used);
    let d = time_spread(s, t0);
    assert((n * d) * sy - n * (sy * d - c * st) - (n * c) * st == 0) by (nonlinear_arith);
    assert((n * d) * sty == d * (n * sty) && (n * c) * stt == c * (n * stt)) by (nonlinear_arith);
    assert((sy * d - c * st) * st == d * (st * sy) - c * (st * st)) by (nonlinear_arith);
    assert(d * (n * sty - st * sy) == d * (n * sty) - d * (st * sy)) by (nonlinear_arith);
    assert(c * (n * stt - st * st) == c * (n * stt) - c * (st * st)) by (nonlinear_arith);
    assert(d * c - c * d == 0) by (nonlinear_arith);
}

/// The slope is the least-squares slope: the sum of squared residuals of any line
/// is at least that of the line with this slope through the mean of the samples,
/// and is larger where the line has another slope.
pub proof fn law_slope_is_least_squares(s: Seq<Sample>, used: bool, line: (int, int, int))
    requires
        slope(s, used) is Some,
        line.2 > 0,
    ensures
        ({
            let m = slope(s, used)->0;
            let t0 = s[0].t as int;
            let best = fitted_line(s, t0, used);
            let least = squared_residuals(s, t0, used, best);
            let other = squared_residuals(s, t0, used, line);
            &&& best.2 > 0
            &&& m.0 * best.2 == best.1 * 3_600_000 * m.1
            &&& least * (line.2 * line.2) <= other * (best.2 * best.2)
            &&& line.1 * best.2 != best.1 * line.2 ==> least * (line.2 * line.2) < other * (best.2
                * best.2)
        }),
{
    let t0 = s[0].t as int;
    let best = fitted_line(s, t0, used);
    let n = s.len() as int;
    let st = sum_t(s, t0);
    let stt = sum_tt(s, t0);
    let c = covariation(s, t0, used);
    let d = time_spread(s, t0);
    let u = line.2 * best.0 - best.2 * line.0;
    let v = line.2 * best.1 - best.2 * line.1;
    let g = n * (u * u) + (2 * u * v) * st + (v * v) * stt;
    let least = squared_residuals(s, t0, used, best);
    let other = squared_residuals(s, t0, used, line);
    lemma_fitted_line_is_centred(s, t0, used);
    lemma_squares_split(s, t0, used, best, line);
    assert(n * d > 0 && (c * HOUR_MS) * (n * d) == (n * c) * HOUR_MS * d) by (nonlinear_arith)
        requires
            n > 0,
            d > 0,
    ;
    assert((2 * line.2) * (u * 0 + v * 0) == 0) by (nonlinear_arith);
    assert((best.2 * best.2) * other == (line.2 * line.2) * least + g);
    let w = n * u + v * st;
    assert(n * g == w * w + (v * v) * d) by {
        let a = n * u;
        let b = v * st;
        assert(n * g == n * (n * (u * u)) + n * ((2 * u * v) * st) + n * ((v * v) * stt))
            by (nonlinear_arith)
            requires
                g == n * (u * u) + (2 * u * v) * st + (v * v) * stt,
        ;
        assert(n * (n * (u * u)) == a * a) by (nonlinear_arith)
            requires
                a == n * u,
        ;
        assert(n * ((2 * u * v) * st) == 2 * (a * b)) by (nonlinear_arith)
            requires
                a == n * u,
                b == v * st,
        ;
        assert(n * ((v * v) * stt) == (v * v) * (n * stt)) by (nonlinear_arith);
        assert((a + b) * (a + b) == a * a + 2 * (a * b) + b * b) by (nonlinear_arith);
        assert(b * b == (v * v) * (st * st)) by (nonlinear_arith)
            requires
                b == v * st,
        ;
        assert((v * v) * (n * stt - st * st) == (v * v) * (n * stt) - (v * v) * (st * st))
            by (nonlinear_arith);
    }
    assert(w * w >= 0 && (v * v) * d >= 0 && (v != 0 ==> (v * v) * d > 0)) by (nonlinear_arith)
        requires
            d > 0,
    ;
    assert(n * g >= 0 ==> g >= 0) by (nonlinear_arith)
        requires
            n > 0,
    ;
    assert(n * g > 0 ==> g > 0) by (nonlinear_arith)
        requires
            n > 0,
    ;
    assert(line.2 * best.1 == best.1 * line.2 && best.2 * line.1 == line.1 * best.2
        && (best.2 * best.2) * other == other * (best.2 * best.2) && (line.2 * line.2) * least
        == least * (line.2 * line.2)) by (nonlinear_arith);
}

proof fn lemma_sum_tt_zero(s: Seq<Sample>, t: int)
    ensures
        sum_tt(s, t) >= 0,
        sum_tt(s, t) == 0 <==> (forall|i: int| 0 <= i < s.len() ==> (#[trigger] s[i]).t == t),
    decreases s.len(),
{
    if s.len() > 0 {
        let init = s.drop_last();
        lemma_sum_tt_zero(init, t);
        let x = s.last().t - t;
        assert(x * x >= 0) by (nonlinear_arith);
        assert(x * x == 0 <==> x == 0) by (nonlinear_arith);
        if sum_tt(s, t) == 0 {
            assert forall|i: int| 0 <= i < s.len() implies (#[trigger] s[i]).t == t by {
                if i < init.len() {
                    assert(init[i].t == t);
                }
            }
        }
        if forall|i: int| 0 <= i < s.len() ==> (#[trigger] s[i]).t == t {
            assert forall|i: int| 0 <= i < init.len() implies (#[trigger] init[i]).t == t by {
                assert(s[i].t == t);
            }
            assert(s[s.len() - 1].t == t);
        }
    }
}

/// The spread of the sample times is never negative, and it is zero exactly
/// where all samples carry one time: a slope exists for any two distinct times.
pub proof fn law_spread_is_zero_only_at_one_time(s: Seq<Sample>, t0: int)
    ensures
        time_spread(s, t0) >= 0,
        time_spread(s, t0) == 0 <==> (forall|i: int, j: int|
            0 <= i < s.len() && 0 <= j < s.len() ==> (#[trigger] s[i]).t == (#[trigger] s[j]).t),
    decreases s.len(),
{
    if s.len() == 0 {
        assert(0 * sum_tt(s, t0) == 0) by (nonlinear_arith);
    } else {
        let init = s.drop_last();
        let last = s.last().t as int;
        law_spread_is_zero_only_at_one_time(init, t0);
        lemma_sum_tt_shift(init, t0, last);
        lemma_sum_tt_zero(init, last);
        let k = init.len() as int;
        let x = last - t0;
        let st = sum_t(init, t0);
        let stt = sum_tt(init, t0);
        assert((k + 1) * (stt + x * x) - (st + x) * (st + x) == (k * stt - st * st) + (stt + 2 * (
        -x) * st + k * ((-x) * (-x)))) by (nonlinear_arith);
        assert(time_spread(s, t0) == time_spread(init, t0) + sum_tt(init, last));
        if time_spread(s, t0) == 0 {
            assert forall|i: int, j: int| 0 <= i < s.len() && 0 <= j < s.len() implies (
            #[trigger] s[i]).t == (#[trigger] s[j]).t by {
                assert(i < k ==> init[i].t == last);
                assert(j < k ==> init[j].t == last);
            }
        }
        if forall|i: int, j: int|
            0 <= i < s.len() && 0 <= j < s.len() ==> (#[trigger] s[i]).t == (#[trigger] s[j]).t {
            assert forall|i: int, j: int| 0 <= i < k && 0 <= j < k implies (#[trigger] init[i]).t
                == (#[trigger] init[j]).t by {
                assert(s[i].t == s[j].t);
            }
            assert forall|i: int| 0 <= i < k implies (#[trigger] init[i]).t == last by {
                assert(s[i].t == s[k].t);
            }
        }
    }
}

proof fn lemma_flat_sums(s: Seq<Sample>, t0: int, used: bool, y: int)
    requires
        forall|i: int| 0 <= i < s.len() ==> field(#[trigger] s[i], used) == y,
    ensures
        sum_y(s, used) == s.len() * y,
        sum_ty(s, t0, used) == y * sum_t(s, t0),
    decreases s.len(),
{
    if s.len() > 0 {
        let init = s.drop_last();
        assert forall|i: int| 0 <= i < init.len() implies field(#[trigger] init[i], used) == y by {
            assert(field(s[i], used) == y);
        }
        lemma_flat_sums(init, t0, used, y);
        let k = init.len() as int;
        let x = s.last().t - t0;
        let st = sum_t(init, t0);
        assert(field(s[k], used) == y);
        assert((k + 1) * y == k * y + y) by (nonlinear_arith);
        assert(y * (st + x) == y * st + x * y) by (nonlinear_arith);
    } else {
        assert(0 * y == 0) by (nonlinear_arith);
        assert(y * 0 == 0) by (nonlinear_arith);
    }
}

/// A value that never moves has slope zero.
pub proof fn law_flat_values_have_no_slope(s: Seq<Sample>, t0: int, used: bool, y: int)
    requires
        forall|i: int| 0 <= i < s.len() ==> field(#[trigger] s[i], used) == y,
    ensures
        covariation(s, t0, used) == 0,
{
    lemma_flat_sums(s, t0, used, y);
    let n = s.len() as int;
    let st = sum_t(s, t0);
    assert(n * (y * st) - st * (n * y) == 0) by (nonlinear_arith);
}

/// A percent-only window whose percentage stands still gets no burn row.
pub proof fn law_flat_pct_window_has_no_row(
    w: Window,
    history: Seq<Sample>,
    now: int,
    config: BurnConfig,
    pct: int,
)
    requires
        w.total <= 0,
        pct >= 0,
        forall|i: int|
            0 <= i < recent(history, now, config.lookback_ms as int).len() ==> (
            #[trigger] recent(history, now, config.lookback_ms as int)[i]).remaining_pct == pct,
    ensures
        burn_row(Some(w), history, now, config) is None,
{
    let s = recent(history, now, config.lookback_ms as int);
    if projectable(w, history, now, config) {
        assert forall|i: int| 0 <= i < s.len() implies field(#[trigger] s[i], false) == pct by {
            assert(s[i].remaining_pct == pct);
        }
        law_flat_values_have_no_slope(s, s[0].t as int, false, pct);
        assert(s[0].remaining_pct >= 0);
        assert(any_pct(s));
        assert(0 * HOUR_MS == 0);
        assert(pct_rate(s) is None);
        reveal_strlit("token");
        reveal_strlit("pct");
        reveal_strlit("idle");
        assert("token"@.len() == 5 && "pct"@.len() == 3 && "idle"@.len() == 4);
    }
}

/// A window that counts tokens gets a burn row whenever there is a projection.
pub proof fn law_counted_window_keeps_its_row(
    w: Window,
    history: Seq<Sample>,
    now: int,
    config: BurnConfig,
)
    requires
        w.total > 0,
    ensures
        burn_row(Some(w), history, now, config) == burn_of(Some(w), history, now, config),
{
    reveal_strlit("token");
    reveal_strlit("pct");
    assert("token"@.len() == 5 && "pct"@.len() == 3);
}

/// The rate is never negative, and a window is said to run out early exactly
/// where the whole milliseconds until it is empty are fewer than those until
/// its reset.
pub proof fn law_warning_means_empty_before_reset(
    w: Window,
    history: Seq<Sample>,
    now: int,
    config: BurnConfig,
)
    requires
        burn_of(Some(w), history, now, config) is Some,
    ensures
        ({
            let b = burn_of(Some(w), history, now, config)->0;
            &&& b.rate.0 >= 0
            &&& b.rate.1 > 0
            &&& b.exhaust_before_reset <==> (b.exhaust_ms is Some && b.exhaust_ms->0
                < b.remaining_ms)
        }),
{
    let s = recent(history, now, config.lookback_ms as int);
    lemma_token_rate_positive(w, s, now, config);
    let (mode, rate, unit) = selection(w, s, now, config);
    reveal_strlit("token");
    reveal_strlit("pct");
    reveal_strlit("idle");
    assert("token"@.len() == 5 && "pct"@.len() == 3 && "idle"@.len() == 4);
    let ms = until_reset(w, now);
    let e = if mode == "pct"@ {
        time_to_consume(w.remaining_pct as int, rate)
    } else {
        time_to_consume(w.total - w.used, rate)
    };
    if mode != "idle"@ {
        lemma_whole_part_below(e.0, e.1, ms);
    }
}

proof fn lemma_whole_part_below(num: int, den: int, ms: int)
    requires
        den > 0,
        0 < ms <= i64::MAX,
    ensures
        num < ms * den <==> saturated(toward_zero(num, den)) < ms,
{
    if num >= 0 {
        vstd::arithmetic::div_mod::lemma_fundamental_div_mod(num, den);
        let q = num / den;
        if num < ms * den {
            assert(q < ms) by (nonlinear_arith)
                requires
                    num < ms * den,
                    den * q <= num,
                    den > 0,
            ;
        } else {
            assert(q >= ms) by (nonlinear_arith)
                requires
                    num >= ms * den,
                    num < den * q + den,
                    den > 0,
            ;
        }
    } else {
        assert(ms * den > 0) by (nonlinear_arith)
            requires
                ms > 0,
                den > 0,
        ;
        vstd::arithmetic::div_mod::lemma_div_pos_is_pos(-num, den);
    }
}

/// The slope through two samples is that of the line through them, per hour: of the
/// tokens used or of the percentage left.
pub proof fn law_two_samples_make_a_line(a: Sample, b: Sample)
    ensures
        a.t == b.t ==> slope(seq![a, b], true) is None && slope(seq![a, b], false) is None,
        a.t != b.t ==> {
            &&& slope(seq![a, b], true) matches Some(m) && m.1 > 0 && m.0 * (b.t - a.t) == (b.used
                - a.used) * 3_600_000 * m.1
            &&& slope(seq![a, b], false) matches Some(m) && m.1 > 0 && m.0 * (b.t - a.t) == (
            b.remaining_pct - a.remaining_pct) * 3_600_000 * m.1
        },
{
    let s = seq![a, b];
    let t0 = a.t as int;
    let d = b.t - a.t;
    assert(s.drop_last() =~= seq![a]);
    assert(seq![a].drop_last() =~= Seq::<Sample>::empty());
    reveal_with_fuel(sum_t, 3);
    reveal_with_fuel(sum_tt, 3);
    assert(sum_t(s, t0) == d);
    assert(0 * 0 == 0);
    assert(sum_tt(s, t0) == d * d);
    assert(time_spread(s, t0) == 2 * (d * d) - d * d);
    assert(d != 0 ==> d * d > 0) by (nonlinear_arith);
    assert(d == 0 ==> d * d == 0) by (nonlinear_arith);
    lemma_two_samples(a, b, true);
    lemma_two_samples(a, b, false);
}

proof fn lemma_two_samples(a: Sample, b: Sample, used: bool)
    ensures
        covariation(seq![a, b], a.t as int, used) * 3_600_000 * (b.t - a.t) == (field(b, used)
            - field(a, used)) * 3_600_000 * ((b.t - a.t) * (b.t - a.t)),
{
    let s = seq![a, b];
    let t0 = a.t as int;
    let d = b.t - a.t;
    let y = field(b, used);
    let x = field(a, used);
    assert(s.drop_last() =~= seq![a]);
    assert(seq![a].drop_last() =~= Seq::<Sample>::empty());
    reveal_with_fuel(sum_t, 3);
    reveal_with_fuel(sum_y, 3);
    reveal_with_fuel(sum_ty, 3);
    assert(sum_t(s, t0) == d);
    assert(sum_y(s, used) == x + y);
    assert(0 * x == 0) by (nonlinear_arith);
    assert(sum_ty(s, t0, used) == d * y);
    assert(2 * (d * y) - d * (x + y) == (y - x) * d) by (nonlinear_arith);
    let z = y - x;
    assert((z * d) * 3_600_000 * d == z * 3_600_000 * (d * d)) by (nonlinear_arith);
}

/// The recent samples are the longest end of the history in which no sample is older
/// than the lookback.
pub proof fn law_recent_samples_end_the_history(history: Seq<Sample>, now: int, lookback: int)
    ensures
        ({
            let r = recent(history, now, lookback);
            let from = history.len() - r.len();
            &&& 0 <= from <= history.len()
            &&& r == history.skip(from)
            &&& forall|i: int| 0 <= i < r.len() ==> now - (#[trigger] r[i]).t <= lookback
            &&& from > 0 ==> now - history[from - 1].t > lookback
        }),
    decreases history.len(),
{
    if history.len() > 0 && now - history.last().t <= lookback {
        let init = history.drop_last();
        law_recent_samples_end_the_history(init, now, lookback);
        let q = recent(init, now, lookback);
        let r = recent(history, now, lookback);
        let from = history.len() - r.len();
        assert(r == q.push(history.last()));
        assert(q == init.skip(from));
        assert(r =~= history.skip(from));
        assert forall|i: int| 0 <= i < r.len() implies now - (#[trigger] r[i]).t <= lookback by {
            if i < q.len() {
                assert(r[i] == q[i]);
            }
        }
        if from > 0 {
            assert(history[from - 1] == init[from - 1]);
        }
    } else {
        assert(recent(history, now, lookback) =~= history.skip(history.len() as int));
    }
}

/// There is a projection exactly where the feature is on, the history is old enough,
/// its last two samples are recent, and the reset is still to come.
pub proof fn law_projection_needs_two_recent_samples(
    w: Window,
    history: Seq<Sample>,
    now: int,
    config: BurnConfig,
)
    ensures
        burn_of(None, history, now, config) is None,
        burn_of(Some(w), history, now, config) is Some <==> {
            let n = history.len() as int;
            &&& config.enabled
            &&& n >= 2
            &&& now - history[0].t >= config.min_history_ms
            &&& now - history[n - 1].t <= config.lookback_ms
            &&& now - history[n - 2].t <= config.lookback_ms
            &&& now < w.reset_at
        },
{
    let r = recent(history, now, config.lookback_ms as int);
    let n = history.len() as int;
    law_recent_samples_end_the_history(history, now, config.lookback_ms as int);
    let from = n - r.len();
    if n >= 2 {
        if r.len() >= 2 {
            assert(r[r.len() - 1] == history[n - 1]);
            assert(r[r.len() - 2] == history[n - 2]);
        } else if r.len() == 1 {
            assert(from - 1 == n - 2);
        } else {
            assert(from - 1 == n - 1);
        }
    }
}

/// A window that is projected in tokens starts from its unused ones. They last as
/// many whole milliseconds as the rate allows; the window runs out early exactly
/// where the rate consumes more than them before the reset; and what is left at the
/// reset is, in percent of the total, what the rate does not consume until then.
pub proof fn law_unused_tokens_are_projected(
    w: Window,
    history: Seq<Sample>,
    now: int,
    config: BurnConfig,
)
    requires
        burn_of(Some(w), history, now, config) matches Some(b) && b.mode == "token"@,
    ensures
        ({
            let b = burn_of(Some(w), history, now, config)->0;
            let unused = w.total - w.used;
            let (n, d) = b.rate;
            let (p, q) = b.projected_pct_left;
            let burned = n * b.remaining_ms;
            let budget = unused * d * 3_600_000;
            &&& w.total > 0 && n > 0 && d > 0 && q > 0
            &&& b.unit == "token"@
            &&& b.remaining_ms == vstd::math::min(w.reset_at - now, i64::MAX as int)
            &&& b.exhaust_ms matches Some(e) && (budget >= 0 ==> 0 <= e && n * e <= budget && (e
                == i64::MAX || budget < n * (e + 1))) && (budget < 0 ==> e <= 0)
            &&& b.exhaust_before_reset <==> budget < burned
            &&& budget <= burned ==> p == 0
            &&& burned <= budget ==> p * (d * 3_600_000 * w.total) == 100 * (budget - burned) * q
            &&& 0 <= p && (unused >= 0 ==> p * w.total <= 100 * unused * q)
        }),
{
    let s = recent(history, now, config.lookback_ms as int);
    lemma_token_rate_positive(w, s, now, config);
    reveal_strlit("token");
    reveal_strlit("pct");
    reveal_strlit("idle");
    assert("token"@.len() == 5 && "pct"@.len() == 3 && "idle"@.len() == 4);
    let b = burn_of(Some(w), history, now, config)->0;
    let (n, d) = b.rate;
    let (p, q) = b.projected_pct_left;
    let unused = w.total - w.used;
    let until = b.remaining_ms;
    let budget = unused * d * 3_600_000;
    let burned = n * until;
    let k = d * 3_600_000;
    assert(unused >= 0 ==> budget >= 0) by (nonlinear_arith)
        requires
            budget == unused * d * 3_600_000,
            d > 0,
    ;
    lemma_whole_milliseconds(budget, n);
    assert(until * n == n * until) by (nonlinear_arith);
    assert(burned > 0) by (nonlinear_arith)
        requires
            burned == n * until,
            n > 0,
            until > 0,
    ;
    let total = w.total as int;
    assert(k * total > 0) by (nonlinear_arith)
        requires
            k > 0,
            total > 0,
    ;
    assert(100 * (budget - burned) > 0 ==> p == 100 * (budget - burned) && q == k * total);
    if burned < budget {
        assert(p * (k * total) == 100 * (budget - burned) * q);
        assert(unused * k == budget) by (nonlinear_arith)
            requires
                budget == unused * d * 3_600_000,
                k == d * 3_600_000,
        ;
        assert(p * total <= 100 * unused * q) by (nonlinear_arith)
            requires
                p == 100 * (budget - burned),
                q == k * total,
                unused * k == budget,
                burned > 0,
                total > 0,
        ;
    } else {
        assert(p == 0 && q == 1);
        assert(0 * (k * total) == 0 && 0 * total == 0) by (nonlinear_arith);
        assert(100 * 0 * q == 0);
    }
}

/// A window that is projected in percent starts from the percentage that is left, in
/// the same way.
pub proof fn law_percentage_left_is_projected(
    w: Window,
    history: Seq<Sample>,
    now: int,
    config: BurnConfig,
)
    requires
        burn_of(Some(w), history, now, config) matches Some(b) && b.mode == "pct"@,
    ensures
        ({
            let b = burn_of(Some(w), history, now, config)->0;
            let (n, d) = b.rate;
            let (p, q) = b.projected_pct_left;
            let burned = n * b.remaining_ms;
            let budget = w.remaining_pct * d * 3_600_000;
            &&& n > 0 && d > 0 && q > 0
            &&& b.unit == "pct"@
            &&& b.remaining_ms == vstd::math::min(w.reset_at - now, i64::MAX as int)
            &&& b.exhaust_ms matches Some(e) && (budget >= 0 ==> 0 <= e && n * e <= budget && (e
                == i64::MAX || budget < n * (e + 1))) && (budget < 0 ==> e <= 0)
            &&& b.exhaust_before_reset <==> budget < burned
            &&& budget <= burned ==> p == 0
            &&& burned <= budget ==> p * (d * 3_600_000) == (budget - burned) * q
            &&& 0 <= p && (w.remaining_pct >= 0 ==> p <= w.remaining_pct * q)
        }),
{
    let s = recent(history, now, config.lookback_ms as int);
    lemma_token_rate_positive(w, s, now, config);
    reveal_strlit("token");
    reveal_strlit("pct");
    reveal_strlit("idle");
    assert("token"@.len() == 5 && "pct"@.len() == 3 && "idle"@.len() == 4);
    let b = burn_of(Some(w), history, now, config)->0;
    let (n, d) = b.rate;
    let (p, q) = b.projected_pct_left;
    let left = w.remaining_pct as int;
    let until = b.remaining_ms;
    let budget = left * d * 3_600_000;
    let burned = n * until;
    let k = d * 3_600_000;
    assert(left >= 0 ==> budget >= 0) by (nonlinear_arith)
        requires
            budget == left * d * 3_600_000,
            d > 0,
    ;
    lemma_whole_milliseconds(budget, n);
    assert(until * n == n * until) by (nonlinear_arith);
    assert(burned > 0) by (nonlinear_arith)
        requires
            burned == n * until,
            n > 0,
            until > 0,
    ;
    assert(left * k == budget) by (nonlinear_arith)
        requires
            budget == left * d * 3_600_000,
            k == d * 3_600_000,
    ;
    if burned < budget {
        assert(p == budget - burned && q == k);
    } else {
        assert(p == 0 && q == 1);
        assert(0 * k == 0) by (nonlinear_arith);
    }
}

/// The whole milliseconds that a budget lasts, capped at the largest `i64`.
proof fn lemma_whole_milliseconds(budget: int, n: int)
    requires
        n > 0,
    ensures
        ({
            let e = saturated(toward_zero(budget, n));
            &&& budget >= 0 ==> 0 <= e <= i64::MAX && n * e <= budget
            &&& budget >= 0 && e < i64::MAX ==> budget < n * (e + 1)
            &&& budget < 0 ==> e <= 0
        }),
{
    if budget < 0 {
        vstd::arithmetic::div_mod::lemma_div_pos_is_pos(-budget, n);
    } else {
        let q = budget / n;
        vstd::arithmetic::div_mod::lemma_fundamental_div_mod(budget, n);
        vstd::arithmetic::div_mod::lemma_div_pos_is_pos(budget, n);
        assert(n * (q + 1) == n * q + n) by (nonlinear_arith);
        let e = saturated(q);
        assert(n * e <= n * q) by (nonlinear_arith)
            requires
                n > 0,
                e <= q,
        ;
    }
}

/// An idle window keeps what it has: no rate, no warning, no moment at which it runs
/// out, and the present percentage at the reset.
pub proof fn law_idle_windows_keep_their_percentage(
    w: Window,
    history: Seq<Sample>,
    now: int,
    config: BurnConfig,
)
    requires
        burn_of(Some(w), history, now, config) matches Some(b) && b.mode != "token"@ && b.mode
            != "pct"@,
    ensures
        ({
            let b = burn_of(Some(w), history, now, config)->0;
            &&& b.mode == "idle"@
            &&& b.rate.0 == 0
            &&& b.exhaust_ms is None
            &&& !b.exhaust_before_reset
            &&& b.projected_pct_left.0 == w.remaining_pct * b.projected_pct_left.1
        }),
{
    reveal_strlit("token");
    reveal_strlit("pct");
    reveal_strlit("idle");
    assert("token"@.len() == 5 && "pct"@.len() == 3 && "idle"@.len() == 4);
}

/// A window is projected in tokens exactly where it counts them and they move: its
/// recent count rises, or its average since the epoch began is to be used. It is
/// projected in percent exactly where it is not and the recent percentage falls.
pub proof fn law_what_moves_is_projected(
    w: Window,
    history: Seq<Sample>,
    now: int,
    config: BurnConfig,
)
    requires
        burn_of(Some(w), history, now, config) is Some,
    ensures
        ({
            let b = burn_of(Some(w), history, now, config)->0;
            let s = recent(history, now, config.lookback_ms as int);
            let rises = slope(s, true) matches Some(m) && m.0 > 0 && (exists|i: int|
                0 <= i < s.len() && (#[trigger] s[i]).used > 0);
            let averaged = config.use_epoch_average && 0 < w.start_at < now && w.used > 0;
            let falls = slope(s, false) matches Some(m) && m.0 < 0;
            let tokens = w.total > 0 && (rises || averaged);
            &&& b.mode == "token"@ <==> tokens
            &&& b.mode == "pct"@ <==> !tokens && falls
            &&& b.mode == "idle"@ <==> !tokens && !falls
        }),
{
    reveal_strlit("token");
    reveal_strlit("pct");
    reveal_strlit("idle");
    assert("token"@.len() == 5 && "pct"@.len() == 3 && "idle"@.len() == 4);
    let s = recent(history, now, config.lookback_ms as int);
    assert(any_used(s) <==> exists|i: int| 0 <= i < s.len() && (#[trigger] s[i]).used > 0);
}

/// The token rate is the larger of the recent slope and, where it is to be used, the
/// average since the epoch began; the percent rate is how fast the percentage falls.
pub proof fn law_rate_is_the_larger_one(
    w: Window,
    history: Seq<Sample>,
    now: int,
    config: BurnConfig,
)
    requires
        burn_of(Some(w), history, now, config) is Some,
    ensures
        ({
            let b = burn_of(Some(w), history, now, config)->0;
            let s = recent(history, now, config.lookback_ms as int);
            let (n, d) = b.rate;
            let averaged = config.use_epoch_average && 0 < w.start_at < now && w.used > 0;
            let age = now - w.start_at;
            let is_average = n * age == w.used * 3_600_000 * d;
            let is_slope = slope(s, true) matches Some(m) && n * m.1 == m.0 * d;
            &&& b.mode == "token"@ && averaged ==> n * age >= w.used * 3_600_000 * d && (is_average
                || is_slope)
            &&& b.mode == "token"@ && !averaged ==> is_slope
            &&& b.mode == "token"@ && any_used(s) ==> (slope(s, true) matches Some(m) ==> n * m.1
                >= m.0 * d)
            &&& b.mode == "pct"@ ==> (slope(s, false) matches Some(m) && n * m.1 == -m.0 * d)
        }),
{
    reveal_strlit("token");
    reveal_strlit("pct");
    reveal_strlit("idle");
    assert("token"@.len() == 5 && "pct"@.len() == 3 && "idle"@.len() == 4);
    let b = burn_of(Some(w), history, now, config)->0;
    let s = recent(history, now, config.lookback_ms as int);
    let (n, d) = b.rate;
    lemma_token_rate_positive(w, s, now, config);
    let averaged = config.use_epoch_average && 0 < w.start_at < now && w.used > 0;
    let age = now - w.start_at;
    let u = w.used * 3_600_000;
    assert(averaged ==> epoch_average(w, now, config) == Some((u, age)));
    if let Some(m) = slope(s, true) {
        assert(m.1 > 0);
        assert(m.0 * age == age * m.0 && u * m.1 == m.1 * u && n * m.1 == m.1 * n) by (nonlinear_arith);
        assert(m.0 <= 0 ==> m.0 * d <= 0 && n * m.1 >= 0) by (nonlinear_arith)
            requires
                m.1 > 0,
                d > 0,
                n >= 0,
        ;
    }
}

/// A row is shown for every projection but that of a percentage that stands still.
pub proof fn law_only_a_still_percentage_has_no_row(
    w: Window,
    history: Seq<Sample>,
    now: int,
    config: BurnConfig,
)
    ensures
        burn_row(None, history, now, config) is None,
        match burn_of(Some(w), history, now, config) {
            Some(b) => burn_row(Some(w), history, now, config) == (if b.unit == "pct"@ && b.mode
                == "idle"@ {
                None
            } else {
                Some(b)
            }),
            None => burn_row(Some(w), history, now, config) is None,
        },
        burn_of(Some(w), history, now, config) matches Some(b) ==> (b.unit == "pct"@ || b.unit
            == "token"@) && (w.total > 0 && b.mode == "idle"@ ==> b.unit == "token"@),
        burn_of(Some(w), history, now, config) matches Some(b) ==> w.total <= 0 && b.mode
            == "idle"@ ==> (b.unit == "pct"@ <==> exists|i: int|
            0 <= i < recent(history, now, config.lookback_ms as int).len() && (#[trigger] recent(
                history,
                now,
                config.lookback_ms as int,
            )[i]).remaining_pct >= 0),
{
    reveal_strlit("token");
    reveal_strlit("pct");
    reveal_strlit("idle");
    assert("token"@.len() == 5 && "pct"@.len() == 3 && "idle"@.len() == 4);
    let s = recent(history, now, config.lookback_ms as int);
    lemma_token_rate_positive(w, s, now, config);
}

/// Of two windows with the same total, rate and reset, the one that has used more
/// runs out sooner and has less left at the reset.
pub proof fn law_more_used_is_sooner_empty(
    v: Window,
    w: Window,
    past: Seq<Sample>,
    history: Seq<Sample>,
    now: int,
    config: BurnConfig,
)
    requires
        burn_of(Some(v), past, now, config) matches Some(a) && burn_of(
            Some(w),
            history,
            now,
            config,
        ) matches Some(b) && a.mode == "token"@ && b.mode == "token"@ && a.rate == b.rate,
        v.total == w.total,
        v.reset_at == w.reset_at,
        v.reset_at - now <= i64::MAX,
        v.used <= w.used <= w.total,
    ensures
        ({
            let a = burn_of(Some(v), past, now, config)->0;
            let b = burn_of(Some(w), history, now, config)->0;
            &&& b.exhaust_ms->0 <= a.exhaust_ms->0
            &&& a.exhaust_before_reset ==> b.exhaust_before_reset
            &&& b.projected_pct_left.0 * a.projected_pct_left.1 <= a.projected_pct_left.0
                * b.projected_pct_left.1
        }),
{
    law_unused_tokens_are_projected(v, past, now, config);
    law_unused_tokens_are_projected(w, history, now, config);
    let a = burn_of(Some(v), past, now, config)->0;
    let b = burn_of(Some(w), history, now, config)->0;
    let (n, d) = a.rate;
    let x = v.total - v.used;
    let y = w.total - w.used;
    let bx = x * d * 3_600_000;
    let by = y * d * 3_600_000;
    assert(by <= bx) by (nonlinear_arith)
        requires
            by == y * d * 3_600_000,
            bx == x * d * 3_600_000,
            y <= x,
            d > 0,
    ;
    let e = a.exhaust_ms->0;
    let f = b.exhaust_ms->0;
    if e < f {
        assert(n * (e + 1) <= n * f) by (nonlinear_arith)
            requires
                e + 1 <= f,
                n > 0,
        ;
    }
    let burned = n * (v.reset_at - now);
    let (p, q) = a.projected_pct_left;
    let (r, t) = b.projected_pct_left;
    let k = d * 3_600_000 * w.total;
    assert(k > 0) by (nonlinear_arith)
        requires
            k == d * 3_600_000 * w.total,
            d > 0,
            w.total > 0,
    ;
    if burned < by {
        assert(r * q <= p * t) by (nonlinear_arith)
            requires
                r * k == 100 * (by - burned) * t,
                p * k == 100 * (bx - burned) * q,
                by <= bx,
                k > 0,
                q > 0,
                t > 0,
        ;
    } else {
        assert(0 * q == 0 && p * t >= 0) by (nonlinear_arith)
            requires
                p >= 0,
                t > 0,
        ;
    }
}

/// A slope is taken over the used amount for its key, and over the percentage left for
/// the other one.
pub proof fn law_keys_name_their_field(s: Sample)
    ensures
        field(s, key_is_used("used"@)) == s.used,
        field(s, key_is_used("remaining_pct"@)) == s.remaining_pct,
{
    reveal_strlit("used");
    reveal_strlit("remaining_pct");
    assert("used"@.len() != "remaining_pct"@.len());
}

} // verus!
