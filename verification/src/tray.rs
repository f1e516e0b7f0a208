//! The compact menu: two fixed windows, named `5h` and `weekly`, with one burn
//! row each.
use crate::burn::{burn_row, burn_view, Burn, BurnConfig, BurnResult, Sample, Window};
use crate::ratio::{
    as_double, double_of, lemma_double_has_the_sign, lemma_double_is_not_negative, nearest_even,
    saturated, Integer, Ratio,
};
use crate::render::since;
use crate::text::{
    decimal, numeral, push_i64, push_natural, push_repeated, push_u64, repeated, same,
};
use crate::util::{filled_cells, part_of, parted};
use vstd::prelude::*;

verus! {

/// Time until a reset, rounded down: `now`, `22m`, `1h 5m`, `7d 0h`.
pub open spec fn reset_text(ms: int) -> Seq<char> {
    let mins = ms / 60_000;
    let h = mins / 60;
    if ms <= 0 {
        "now"@
    } else if mins < 60 {
        decimal(mins) + "m"@
    } else if h < 24 {
        if mins % 60 == 0 {
            decimal(h) + "h"@
        } else {
            decimal(h) + "h "@ + decimal(mins % 60) + "m"@
        }
    } else {
        decimal(h / 24) + "d "@ + decimal(h % 24) + "h"@
    }
}

/// Time until a reset, rounded down.
pub fn fmt_reset(ms: i64) -> (r: String)
    ensures
        r@ == reset_text(ms as int),
{
    if ms <= 0 {
        return "now".to_owned();
    }
    let mins: i64 = ms / 60_000;
    let h: i64 = mins / 60;
    let m: i64 = mins % 60;
    let mut out = String::new();
    if mins < 60 {
        push_i64(&mut out, mins);
        out.append("m");
    } else if h < 24 {
        push_i64(&mut out, h);
        if m == 0 {
            out.append("h");
        } else {
            out.append("h ");
            push_i64(&mut out, m);
            out.append("m");
        }
    } else {
        push_i64(&mut out, h / 24);
        out.append("d ");
        push_i64(&mut out, h % 24);
        out.append("h");
    }
    assert(out@ =~= reset_text(ms as int));
    out
}

/// A bar of 22 cells.
pub open spec fn cells(pct: int) -> Seq<char> {
    "  "@ + repeated('\u{2588}', filled_cells(pct)) + repeated(
        '\u{2591}',
        (22 - filled_cells(pct)) as nat,
    )
}

/// A bar of 22 cells.
pub fn bar_markup(filled_pct: i64) -> (r: String)
    ensures
        r@ == cells(filled_pct as int),
{
    let clamped: i64 = if filled_pct < 0 {
        0
    } else if filled_pct > 100 {
        100
    } else {
        filled_pct
    };
    let filled: i64 = (clamped * 22 + 50) / 100;
    let mut out = "  ".to_owned();
    push_repeated(&mut out, '\u{2588}', filled as usize);
    push_repeated(&mut out, '\u{2591}', (22 - filled) as usize);
    out
}

/// A double without decimals, halves to the even neighbour. `None` stands for an
/// infinite one.
pub open spec fn whole_double(d: Option<(int, int)>) -> Seq<char> {
    match d {
        Some(v) => numeral(nearest_even(v.0, v.1) as nat),
        None => "inf"@,
    }
}

/// A number, taken as a double, without decimals.
pub open spec fn whole_text(f: (int, int)) -> Seq<char> {
    if f.0 < 0 {
        "-"@ + whole_double(as_double((-f.0, f.1)))
    } else {
        whole_double(as_double(f))
    }
}

/// A rate, taken as a double, without decimals, or in thousands with one decimal.
/// The thousands are a double again.
pub open spec fn short_rate(rate: (int, int)) -> Seq<char> {
    match as_double(rate) {
        Some(r) => if r.0 >= 1000 * r.1 {
            let k = double_of(parted(r, 1000));
            let tenths = nearest_even(10 * k.0, k.1) as nat;
            numeral(tenths / 10) + "."@ + numeral(tenths % 10) + "k"@
        } else {
            whole_text(rate)
        },
        None => if rate.0 >= 0 {
            "infk"@
        } else {
            whole_text(rate)
        },
    }
}

fn push_whole(out: &mut String, f: &Ratio)
    ensures
        final(out)@ == old(out)@ + whole_text((f.num(), f.den())),
{
    let ghost g = (f.num(), f.den());
    let num = f.numerator();
    let negative: bool = num.less_than(&Integer::zero());
    if negative {
        out.append("-");
    }
    let size = Ratio::new(
        if negative {
            num.negated()
        } else {
            num
        },
        f.denominator(),
    );
    match size.to_double() {
        Some(d) => {
            proof {
                lemma_double_has_the_sign((size.num(), size.den()));
            }
            push_natural(out, &d.numerator().rounded_even(&d.denominator()));
        },
        None => {
            out.append("inf");
        },
    }
    assert(out@ =~= old(out)@ + whole_text(g));
}

fn push_short_rate(out: &mut String, b: &BurnResult)
    ensures
        final(out)@ == old(out)@ + short_rate(b@.rate),
{
    let ghost before = out@;
    let ghost rate = b@.rate;
    let negative: bool = b.rate_per_hour.numerator().less_than(&Integer::zero());
    match b.rate_per_hour.to_double() {
        Some(r) => {
            let limit = Integer::from_u64(1000).times(&r.denominator());
            if r.numerator().less_than(&limit) {
                push_whole(out, &b.rate_per_hour);
            } else {
                proof {
                    lemma_double_has_the_sign(rate);
                }
                let k = part_of(&r, 1000);
                let num = k.numerator();
                let den = k.denominator();
                proof {
                    lemma_double_is_not_negative(parted((r.num(), r.den()), 1000));
                }
                let tenths = Integer::from_u64(10).times(&num).rounded_even(&den);
                let (whole, tenth) = tenths.tenth();
                push_natural(out, &whole);
                out.append(".");
                push_u64(out, tenth as u64);
                out.append("k");
                assert(out@ =~= before + short_rate(rate));
            }
        },
        None => {
            if negative {
                push_whole(out, &b.rate_per_hour);
            } else {
                out.append("infk");
                assert(out@ =~= before + short_rate(rate));
            }
        },
    }
}

/// The burn row of a window that lasts until its reset.
pub open spec fn pace_text(b: Burn) -> Seq<char> {
    "· on pace to have ~"@ + whole_text(b.projected_pct_left) + "% left at reset ("@ + (if b.unit
        == "pct"@ {
        whole_text(b.rate) + "%/h"@
    } else {
        short_rate(b.rate) + " tok/h"@
    }) + ")"@
}

/// The burn row of a window that lasts until its reset.
pub fn burn_label(b: &BurnResult) -> (r: String)
    ensures
        r@ == pace_text(b@),
{
    let mut out = "· on pace to have ~".to_owned();
    push_whole(&mut out, &b.projected_pct_left);
    out.append("% left at reset (");
    if same(b.unit, "pct") {
        push_whole(&mut out, &b.rate_per_hour);
        out.append("%/h");
    } else {
        push_short_rate(&mut out, b);
        out.append(" tok/h");
    }
    out.append(")");
    assert(out@ =~= pace_text(b@));
    out
}

/// The burn row of a window that runs out before its reset.
pub open spec fn warning_text(b: Burn) -> Seq<char> {
    "⚠ "@ + short_rate(b.rate) + (if b.unit == "pct"@ {
        "%/h"@
    } else {
        " tok/h"@
    }) + " → exhausts ~"@ + reset_text(whole_seconds(b.exhaust_ms)) + " before reset"@
}

/// Milliseconds cut off to whole seconds, none where they are negative.
pub open spec fn whole_seconds(ms: Option<int>) -> int {
    match ms {
        Some(m) => if m < 0 {
            0
        } else {
            m / 1000 * 1000
        },
        None => 0,
    }
}

/// The burn row of a window that runs out before its reset.
pub fn burn_warning_label(b: &BurnResult) -> (r: String)
    requires
        b.exhaust_ms is Some,
    ensures
        r@ == warning_text(b@),
{
    let ms: i64 = match b.exhaust_ms {
        Some(m) => if m < 0 {
            0
        } else {
            m / 1000 * 1000
        },
        None => 0,
    };
    let mut out = "⚠ ".to_owned();
    push_short_rate(&mut out, b);
    if same(b.unit, "pct") {
        out.append("%/h");
    } else {
        out.append(" tok/h");
    }
    out.append(" → exhausts ~");
    out.append(fmt_reset(ms).as_str());
    out.append(" before reset");
    assert(out@ =~= warning_text(b@));
    out
}

// ---------------------------------------------------------------------------
// All rows
// ---------------------------------------------------------------------------

/// What the compact menu shows; empty texts stand for hidden rows.
#[derive(Debug)]
pub struct TrayRows {
    pub header: String,
    pub window_5h_label: String,
    pub window_5h_bar: String,
    pub window_weekly_label: String,
    pub window_weekly_bar: String,
    pub burn_5h: String,
    pub burn_weekly: String,
    pub error: String,
}

/// The label of a window, empty where there is none.
pub open spec fn row_label(name: Seq<char>, w: Option<Window>, now: int) -> Seq<char> {
    match w {
        Some(x) => "  "@ + name + ": "@ + decimal(x.remaining_pct as int) + "% left · resets in "@
            + reset_text(saturated(x.reset_at - now)),
        None => ""@,
    }
}

/// The bar of a window, empty where there is none.
pub open spec fn row_bar(w: Option<Window>) -> Seq<char> {
    match w {
        Some(x) => cells(x.remaining_pct as int),
        None => ""@,
    }
}

/// The burn row of a window, empty where there is none.
pub open spec fn row_burn(b: Option<BurnResult>) -> Seq<char> {
    match b {
        Some(x) => "  "@ + (if x.exhaust_before_reset {
            warning_text(x@)
        } else {
            pace_text(x@)
        }),
        None => ""@,
    }
}

/// Whether a projection can be shown: one that runs out says when.
pub open spec fn is_showable(b: Option<BurnResult>) -> bool {
    b matches Some(x) ==> x.exhaust_before_reset ==> x.exhaust_ms is Some
}

fn label_of(name: &str, w: &Option<Window>, now_ms: i64) -> (r: String)
    ensures
        r@ == row_label(name@, *w, now_ms as int),
{
    match w {
        Some(x) => {
            let mut out = "  ".to_owned().concat(name).concat(": ");
            push_i64(&mut out, x.remaining_pct);
            out.append("% left · resets in ");
            out.append(fmt_reset(since(now_ms, x.reset_at)).as_str());
            assert(out@ =~= row_label(name@, *w, now_ms as int));
            out
        },
        None => "".to_owned(),
    }
}

fn bar_of(w: &Option<Window>) -> (r: String)
    ensures
        r@ == row_bar(*w),
{
    match w {
        Some(x) => bar_markup(x.remaining_pct),
        None => "".to_owned(),
    }
}

fn burn_of(b: &Option<BurnResult>) -> (r: String)
    requires
        is_showable(*b),
    ensures
        r@ == row_burn(*b),
{
    match b {
        Some(x) => if x.exhaust_before_reset {
            "  ".to_owned().concat(burn_warning_label(x).as_str())
        } else {
            "  ".to_owned().concat(burn_label(x).as_str())
        },
        None => "".to_owned(),
    }
}

/// What the compact menu is built from.
pub struct TrayState {
    pub five_h: Option<Window>,
    pub weekly: Option<Window>,
    pub burn_5h: Option<BurnResult>,
    pub burn_weekly: Option<BurnResult>,
    pub error: Option<String>,
    pub now_ms: i64,
}

/// The rows of the compact menu.
pub fn update(plan_label: &str, state: &TrayState) -> (r: TrayRows)
    requires
        is_showable(state.burn_5h),
        is_showable(state.burn_weekly),
    ensures
        r.header@ == "Plan: "@ + plan_label@,
        r.window_5h_label@ == row_label("5h"@, state.five_h, state.now_ms as int),
        r.window_5h_bar@ == row_bar(state.five_h),
        r.window_weekly_label@ == row_label("weekly"@, state.weekly, state.now_ms as int),
        r.window_weekly_bar@ == row_bar(state.weekly),
        r.burn_5h@ == row_burn(state.burn_5h),
        r.burn_weekly@ == row_burn(state.burn_weekly),
        r.error@ == (match state.error {
            Some(e) => "  ⚠ Error: "@ + e@,
            None => ""@,
        }),
{
    TrayRows {
        header: "Plan: ".to_owned().concat(plan_label),
        window_5h_label: label_of("5h", &state.five_h, state.now_ms),
        window_5h_bar: bar_of(&state.five_h),
        window_weekly_label: label_of("weekly", &state.weekly, state.now_ms),
        window_weekly_bar: bar_of(&state.weekly),
        burn_5h: burn_of(&state.burn_5h),
        burn_weekly: burn_of(&state.burn_weekly),
        error: match &state.error {
            Some(e) => "  ⚠ Error: ".to_owned().concat(e.as_str()),
            None => "".to_owned(),
        },
    }
}

/// Every projection of a window can be shown, and so can every one that was decided
/// to have a row.
pub proof fn law_projections_are_showable(
    b: Option<BurnResult>,
    w: Option<Window>,
    history: Seq<Sample>,
    now: int,
    config: BurnConfig,
)
    requires
        burn_view(b) == crate::burn::burn_of(w, history, now, config) || burn_view(b) == burn_row(
            w,
            history,
            now,
            config,
        ),
    ensures
        is_showable(b),
{
}

/// Times until a reset read in their two largest units, all cut off: minutes below an
/// hour, hours and minutes below a day, days and hours above; `now` where it is past.
pub proof fn law_reset_times_read_in_two_units(d: int, h: int, m: int, ms: int)
    requires
        0 <= d,
        0 <= h < 24,
        0 <= m < 60,
        0 <= ms < 60_000,
    ensures
        ({
            let t = ((d * 24 + h) * 60 + m) * 60_000 + ms;
            &&& t > 0 && d == 0 && h == 0 ==> reset_text(t) == decimal(m) + "m"@
            &&& d == 0 && h > 0 && m > 0 ==> reset_text(t) == decimal(h) + "h "@ + decimal(m) + "m"@
            &&& d == 0 && h > 0 && m == 0 ==> reset_text(t) == decimal(h) + "h"@
            &&& d > 0 ==> reset_text(t) == decimal(d) + "d "@ + decimal(h) + "h"@
            &&& reset_text(-t) == "now"@
        }),
{
    let mins = (d * 24 + h) * 60 + m;
    let t = mins * 60_000 + ms;
    assert(t / 60_000 == mins);
    assert(mins / 60 == d * 24 + h && mins % 60 == m);
    assert((d * 24 + h) / 24 == d && (d * 24 + h) % 24 == h);
}

/// The bar of the compact menu holds 22 cells, as many of them filled as are nearest to
/// the percentage.
pub proof fn law_cells_show_the_percentage(pct: int, n: int)
    requires
        0 <= pct <= 100,
        0 <= n <= 22,
        100 * n - 50 <= 22 * pct < 100 * n + 50,
    ensures
        cells(pct) == "  "@ + repeated('\u{2588}', n as nat) + repeated(
            '\u{2591}',
            (22 - n) as nat,
        ),
{
    assert(filled_cells(pct) == n);
}

/// Numbers without decimals are the nearest integer to the number as a double, of two
/// equally near ones the even, with a minus sign where they are negative. One beyond
/// all doubles reads as infinite.
pub proof fn law_whole_numbers_are_the_nearest(f: (int, int), i: nat)
    requires
        f.1 > 0,
        f.0 >= 0,
    ensures
        ({
            let d = double_of(f);
            let finite = !crate::ratio::overflows(d);
            &&& finite && crate::util::evenly_rounds_to(d, i as int) ==> whole_text(f) == numeral(i)
            &&& !finite ==> whole_text(f) == "inf"@ && short_rate(f) == "infk"@
            &&& f.0 > 0 ==> whole_text((-f.0, f.1)) == "-"@ + whole_text(f)
        }),
{
    let d = double_of(f);
    lemma_double_is_not_negative(f);
    if crate::util::evenly_rounds_to(d, i as int) {
        crate::util::lemma_evenly_rounds_to(d, i as int);
    }
}

/// Rates below a thousand are whole numbers; from there on they are thousands with the
/// nearest tenth.
pub proof fn law_short_rates_are_thousands(rate: (int, int), tenths: nat)
    requires
        rate.1 > 0,
        rate.0 >= 0,
        !crate::ratio::overflows(double_of(rate)),
    ensures
        ({
            let r = double_of(rate);
            let k = double_of((r.0, 1000 * r.1));
            &&& r.0 < 1000 * r.1 ==> short_rate(rate) == whole_text(rate)
            &&& r.0 >= 1000 * r.1 && crate::util::evenly_rounds_to((10 * k.0, k.1), tenths as int)
                ==> short_rate(rate) == numeral(tenths / 10) + "."@ + numeral(tenths % 10) + "k"@
        }),
{
    let r = double_of(rate);
    lemma_double_is_not_negative(rate);
    let k = double_of((r.0, 1000 * r.1));
    lemma_double_is_not_negative((r.0, 1000 * r.1));
    if crate::util::evenly_rounds_to((10 * k.0, k.1), tenths as int) {
        crate::util::lemma_evenly_rounds_to((10 * k.0, k.1), tenths as int);
    }
}

/// A window that runs out warns, with its rate and the whole seconds until then; any
/// other says what is left at the reset, with its rate.
pub proof fn law_compact_rows_warn_or_pace(b: BurnResult, ms: int)
    ensures
        ({
            let v = b@;
            let row = row_burn(Some(b));
            let unit = if v.unit == "pct"@ {
                "%/h"@
            } else {
                " tok/h"@
            };
            &&& b.exhaust_before_reset ==> row == "  "@ + warning_text(v)
            &&& !b.exhaust_before_reset ==> row == "  "@ + pace_text(v)
            &&& v.exhaust_ms == Some(ms) && ms >= 0 ==> warning_text(v) == "⚠ "@ + short_rate(v.rate)
                + unit + " → exhausts ~"@ + reset_text(ms - ms % 1000) + " before reset"@
            &&& v.unit == "pct"@ ==> pace_text(v) == "· on pace to have ~"@ + whole_text(
                v.projected_pct_left,
            ) + "% left at reset ("@ + (whole_text(v.rate) + "%/h"@) + ")"@
            &&& v.unit != "pct"@ ==> pace_text(v) == "· on pace to have ~"@ + whole_text(
                v.projected_pct_left,
            ) + "% left at reset ("@ + (short_rate(v.rate) + " tok/h"@) + ")"@
            &&& row_burn(None).len() == 0
        }),
{
    reveal_strlit("");
    if ms >= 0 {
        assert(ms / 1000 * 1000 == ms - ms % 1000);
    }
}

/// The compact rows name the window, its percentage and the time until its reset; a
/// window that is missing leaves its rows empty.
pub proof fn law_compact_labels_count_down(name: Seq<char>, w: Window, now: int)
    requires
        i64::MIN <= w.reset_at - now <= i64::MAX,
    ensures
        row_label(name, Some(w), now) == "  "@ + name + ": "@ + decimal(w.remaining_pct as int)
            + "% left · resets in "@ + reset_text(w.reset_at - now),
        row_bar(Some(w)) == cells(w.remaining_pct as int),
        row_label(name, None, now).len() == 0,
        row_bar(None).len() == 0,
{
    reveal_strlit("");
}

} // verus!
