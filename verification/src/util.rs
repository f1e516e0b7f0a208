//! Formatting of everything the menu shows: durations, rates, costs, bars and
//! the composed rows. Pure functions from values to text.
use crate::burn::{Burn, BurnResult};
use crate::natural::Natural;
use crate::ratio::{
    double_of, law_small_fractions_are_finite, lemma_double_is_not_negative, nearest, nearest_even,
    overflows, saturated, Integer, Ratio,
};
use crate::text::{
    decimal, digit, is_some_text, lower, lowered, numeral, opt_str_view, push_i64, push_natural, push_repeated,
    push_u64, repeated, same, trim, trimmed,
};
use vstd::arithmetic::power2::pow2;
use vstd::prelude::*;

verus! {

// ---------------------------------------------------------------------------
// Durations
// ---------------------------------------------------------------------------

/// Whole minutes of a duration, rounded down or up; negative durations count as zero.
pub open spec fn minutes(ms: int, floor: bool) -> nat {
    let abs = if ms < 0 {
        0
    } else {
        ms
    };
    if floor {
        (abs / 60_000) as nat
    } else {
        ((abs + 59_999) / 60_000) as nat
    }
}

/// `5m`, `1h`, `1h 5m`, `2d`, `2d 3h`.
pub open spec fn minutes_text(mins: nat) -> Seq<char> {
    let h = mins / 60;
    let m = mins % 60;
    if mins < 60 {
        numeral(mins) + "m"@
    } else if h < 24 {
        if m == 0 {
            numeral(h) + "h"@
        } else {
            numeral(h) + "h "@ + numeral(m) + "m"@
        }
    } else if h % 24 == 0 {
        numeral(h / 24) + "d"@
    } else {
        numeral(h / 24) + "d "@ + numeral(h % 24) + "h"@
    }
}

/// A duration such as `5m`, `1h 5m` or `2d 3h`. Countdowns round up to the
/// minute (`floor == false`), ages round down.
pub fn fmt_duration(ms: i64, floor: bool) -> (r: String)
    ensures
        r@ == minutes_text(minutes(ms as int, floor)),
{
    let abs: u64 = if ms < 0 {
        0
    } else {
        ms as u64
    };
    let mins: u64 = if floor {
        abs / 60_000
    } else {
        (abs + 59_999) / 60_000
    };
    let mut out = String::new();
    if mins < 60 {
        push_u64(&mut out, mins);
        out.append("m");
        assert(out@ =~= minutes_text(mins as nat));
        return out;
    }
    let h: u64 = mins / 60;
    let m: u64 = mins % 60;
    if h < 24 {
        push_u64(&mut out, h);
        if m == 0 {
            out.append("h");
        } else {
            out.append("h ");
            push_u64(&mut out, m);
            out.append("m");
        }
        assert(out@ =~= minutes_text(mins as nat));
        return out;
    }
    push_u64(&mut out, h / 24);
    if h % 24 == 0 {
        out.append("d");
    } else {
        out.append("d ");
        push_u64(&mut out, h % 24);
        out.append("h");
    }
    assert(out@ =~= minutes_text(mins as nat));
    out
}

/// `30s`, `5m`, `2h`: the largest unit that a duration fills, rounded down.
pub open spec fn age_text(ms: int) -> Seq<char> {
    let s = if ms < 0 {
        0
    } else {
        ms / 1000
    };
    if s < 60 {
        numeral(s as nat) + "s"@
    } else if s / 60 < 60 {
        numeral((s / 60) as nat) + "m"@
    } else {
        numeral((s / 60 / 60) as nat) + "h"@
    }
}

/// How long ago something happened, such as `30s`, `5m` or `2h`.
pub fn fmt_age(ms: i64) -> (r: String)
    ensures
        r@ == age_text(ms as int),
{
    let s: u64 = if ms < 0 {
        0
    } else {
        ms as u64 / 1000
    };
    let m: u64 = s / 60;
    let mut out = String::new();
    if s < 60 {
        push_u64(&mut out, s);
        out.append("s");
    } else if m < 60 {
        push_u64(&mut out, m);
        out.append("m");
    } else {
        push_u64(&mut out, m / 60);
        out.append("h");
    }
    assert(out@ =~= age_text(ms as int));
    out
}

// ---------------------------------------------------------------------------
// Rates
// ---------------------------------------------------------------------------

/// A fraction divided by a whole number.
pub open spec fn parted(f: (int, int), by: int) -> (int, int) {
    (f.0, by * f.1)
}

/// A rate that is a double: `850` below a thousand, `1.2k` below a hundred
/// thousand (`1k` where the tenth is zero), `120k` above. The thousands and their
/// tenths are doubles again.
pub open spec fn double_rate_text(r: (int, int)) -> Seq<char> {
    let k = double_of(parted(r, 1000));
    let t = double_of((10 * k.0, k.1));
    let tenths = saturated(nearest(t.0, t.1));
    if r.0 < 1000 * r.1 {
        decimal(saturated(nearest(r.0, r.1)))
    } else if k.0 >= 100 * k.1 {
        decimal(saturated(nearest(k.0, k.1))) + "k"@
    } else if tenths % 10 == 0 {
        decimal(tenths / 10) + "k"@
    } else {
        decimal(tenths / 10) + "."@ + decimal(tenths % 10) + "k"@
    }
}

/// The text of a rate, taken as a double; zero unless that is positive and finite.
pub open spec fn rate_text(rate: (int, int)) -> Seq<char> {
    if rate.0 <= 0 || overflows(double_of(rate)) {
        "0"@
    } else {
        double_rate_text(double_of(rate))
    }
}

/// The fraction of an optional number.
pub open spec fn fraction_of(r: Option<&Ratio>) -> Option<(int, int)> {
    match r {
        Some(v) => Some((v.num(), v.den())),
        None => None,
    }
}

/// The text of an optional rate; one that is no number reads as zero.
pub open spec fn opt_rate_text(rate: Option<(int, int)>) -> Seq<char> {
    match rate {
        Some(v) => rate_text(v),
        None => "0"@,
    }
}

/// The double nearest to a number that is positive, where it is finite.
fn positive_double(f: Option<&Ratio>) -> (r: Option<Ratio>)
    ensures
        match r {
            Some(v) => {
                &&& f is Some && f->0.num() > 0 && f->0.den() > 0
                &&& !overflows(double_of((f->0.num(), f->0.den())))
                &&& (v.num(), v.den()) == double_of((f->0.num(), f->0.den()))
                &&& v.num() >= 0
            },
            None => f is None || f->0.num() <= 0 || overflows(
                double_of((f->0.num(), f->0.den())),
            ),
        },
{
    match f {
        Some(v) => {
            if v.is_positive() {
                proof {
                    lemma_double_is_not_negative((v.num(), v.den()));
                }
                v.to_double()
            } else {
                None
            }
        },
        None => None,
    }
}

/// The double nearest to a part of a double.
pub(crate) fn part_of(d: &Ratio, by: u64) -> (r: Ratio)
    requires
        d.num() >= 0,
        by >= 2,
        !overflows((d.num(), d.den())),
    ensures
        (r.num(), r.den()) == double_of(parted((d.num(), d.den()), by as int)),
{
    let den = d.denominator();
    let below = Integer::from_u64(by).times(&den);
    let ghost f = parted((d.num(), d.den()), by as int);
    let ghost h = pow2(1023) as int;
    proof {
        vstd::arithmetic::power2::lemma_pow2_unfold(1024);
        vstd::arithmetic::power2::lemma_pow2_pos(1023);
        assert(f.1 > 0 && den@ * (2 * h) <= f.1 * h) by (nonlinear_arith)
            requires
                f.1 == by * den@,
                by >= 2,
                den@ > 0,
                h > 0,
        ;
        law_small_fractions_are_finite(f);
    }
    match Ratio::new(d.numerator(), below).to_double() {
        Some(v) => v,
        None => d.copy(),
    }
}

/// The nearest integer to a fraction that is not negative is not negative.
proof fn lemma_nearest_not_negative(f: (int, int))
    requires
        f.0 >= 0,
        f.1 > 0,
    ensures
        nearest(f.0, f.1) >= 0,
{
    vstd::arithmetic::div_mod::lemma_div_pos_is_pos(2 * f.0 + f.1, 2 * f.1);
}

/// Compact rate label: `850`, `1.2k`, `12k`. `None` stands for a rate that is
/// not a finite number.
pub fn fmt_rate(rate: Option<&Ratio>) -> (r: String)
    ensures
        r@ == opt_rate_text(fraction_of(rate)),
{
    let rate = match positive_double(rate) {
        Some(v) => v,
        None => return "0".to_owned(),
    };
    let num = rate.numerator();
    let den = rate.denominator();
    let ghost d = (num@, den@);
    let mut out = String::new();
    if num.less_than(&Integer::from_u64(1000).times(&den)) {
        push_i64(&mut out, num.rounded(&den));
        assert(out@ =~= double_rate_text(d));
        return out;
    }
    let thousands = part_of(&rate, 1000);
    let k = thousands.numerator();
    let k_den = thousands.denominator();
    if !k.less_than(&Integer::from_u64(100).times(&k_den)) {
        push_i64(&mut out, k.rounded(&k_den));
        out.append("k");
        assert(out@ =~= double_rate_text(d));
        return out;
    }
    let scaled = Ratio::new(Integer::from_u64(10).times(&k), k_den);
    proof {
        lemma_double_is_not_negative(parted(d, 1000));
        vstd::arithmetic::power2::lemma2_to64();
        vstd::arithmetic::power2::lemma_pow2_strictly_increases(10, 1023);
        assert(10 * k@ < k_den@ * pow2(1023)) by (nonlinear_arith)
            requires
                k@ < 100 * k_den@,
                k_den@ > 0,
                pow2(1023) > 1024,
        ;
        law_small_fractions_are_finite((10 * k@, k_den@));
        lemma_double_is_not_negative((10 * k@, k_den@));
    }
    let tenths: i64 = match scaled.to_double() {
        Some(t) => t.numerator().rounded(&t.denominator()),
        None => 0,
    };
    proof {
        lemma_nearest_not_negative(double_of((10 * k@, k_den@)));
    }
    push_i64(&mut out, tenths / 10);
    if tenths % 10 != 0 {
        out.append(".");
        push_i64(&mut out, tenths % 10);
    }
    out.append("k");
    assert(out@ =~= double_rate_text(d));
    out
}

// ---------------------------------------------------------------------------
// Bars
// ---------------------------------------------------------------------------

/// A percentage brought into 0 to 100.
pub open spec fn clamp_pct(pct: int) -> int {
    if pct < 0 {
        0
    } else if pct > 100 {
        100
    } else {
        pct
    }
}

/// How many of 22 cells a percentage fills, to the nearest cell.
pub open spec fn filled_cells(pct: int) -> nat {
    ((clamp_pct(pct) * 22 + 50) / 100) as nat
}

/// The bar of a percentage.
pub open spec fn bar_text(pct: int) -> Seq<char> {
    "  ["@ + repeated('\u{2588}', filled_cells(pct)) + " "@ + repeated(
        '\u{2591}',
        (22 - filled_cells(pct)) as nat,
    ) + "]"@
}

/// Plain-text progress bar of 22 cells.
pub fn bar_markup(fraction_pct: i64) -> (r: String)
    ensures
        r@ == bar_text(fraction_pct as int),
{
    let clamped: i64 = if fraction_pct < 0 {
        0
    } else if fraction_pct > 100 {
        100
    } else {
        fraction_pct
    };
    let filled: i64 = (clamped * 22 + 50) / 100;
    let mut out = String::new();
    out.append("  [");
    push_repeated(&mut out, '\u{2588}', filled as usize);
    out.append(" ");
    push_repeated(&mut out, '\u{2591}', (22 - filled) as usize);
    out.append("]");
    assert(out@ =~= bar_text(fraction_pct as int));
    out
}

// ---------------------------------------------------------------------------
// Money
// ---------------------------------------------------------------------------

/// The display symbol of a currency: that of a known code, in any case, or a known
/// symbol itself; `$` for anything else.
pub open spec fn symbol_of(currency: Seq<char>) -> Seq<char> {
    let code = lowered(currency);
    if code == "eur"@ || currency == "€"@ {
        "€"@
    } else if code == "gbp"@ || currency == "£"@ {
        "£"@
    } else if code == "jpy"@ || code == "cny"@ || code == "rmb"@ || currency == "¥"@ {
        "¥"@
    } else if code == "krw"@ || currency == "₩"@ {
        "₩"@
    } else if code == "inr"@ || currency == "₹"@ {
        "₹"@
    } else {
        "$"@
    }
}

/// The symbol of an optional currency; white space around it is ignored.
pub open spec fn symbol_text(currency: Option<Seq<char>>) -> Seq<char> {
    match currency {
        Some(c) => symbol_of(trimmed(c)),
        None => "$"@,
    }
}

/// The display symbol of a configured currency.
pub fn currency_symbol(currency: Option<&str>) -> (r: &'static str)
    ensures
        r@ == symbol_text(opt_str_view(currency)),
{
    let given = match currency {
        Some(c) => trim(c),
        None => return "$",
    };
    let code = lower(given.as_str());
    let c = code.as_str();
    let g = given.as_str();
    if same(c, "eur") || same(g, "€") {
        "€"
    } else if same(c, "gbp") || same(g, "£") {
        "£"
    } else if same(c, "jpy") || same(c, "cny") || same(c, "rmb") || same(g, "¥") {
        "¥"
    } else if same(c, "krw") || same(g, "₩") {
        "₩"
    } else if same(c, "inr") || same(g, "₹") {
        "₹"
    } else {
        "$"
    }
}

/// Ten to the power `k`.
pub open spec fn ten_to(k: nat) -> nat
    decreases k,
{
    if k == 0 {
        1
    } else {
        10 * ten_to((k - 1) as nat)
    }
}

/// The last `places` decimal digits of `n`, leading zeros kept.
pub open spec fn padded(n: nat, places: nat) -> Seq<char>
    decreases places,
{
    if places == 0 {
        Seq::empty()
    } else {
        padded(n / 10, (places - 1) as nat).push(digit((n % 10) as int))
    }
}

/// `n / 10^places` as a decimal fraction without trailing zeros.
pub open spec fn fixed_text(n: nat, places: nat) -> Seq<char>
    decreases places,
{
    if places == 0 {
        numeral(n)
    } else if n % 10 == 0 {
        fixed_text(n / 10, (places - 1) as nat)
    } else {
        numeral(n / ten_to(places)) + "."@ + padded(n, places)
    }
}

/// Appends the last `places` decimal digits of `n`, leading zeros kept.
pub fn push_padded(out: &mut String, n: &Natural, places: u32)
    ensures
        final(out)@ == old(out)@ + padded(n@, places as nat),
    decreases places,
{
    if places > 0 {
        let (rest, d) = n.tenth();
        push_padded(out, &rest, places - 1);
        out.push((48 + d) as char);
    }
    assert(out@ =~= old(out)@ + padded(n@, places as nat));
}

/// Appends `n / 10^places` as a decimal fraction without trailing zeros.
pub fn push_fixed(out: &mut String, n: &Natural, places: u32)
    ensures
        final(out)@ == old(out)@ + fixed_text(n@, places as nat),
    decreases places,
{
    if places == 0 {
        push_natural(out, n);
        return;
    }
    let (tenth, last) = n.tenth();
    if last == 0 {
        push_fixed(out, &tenth, places - 1);
        return;
    }
    let mut whole = tenth;
    let mut i: u32 = 1;
    assert(ten_to(1) == 10) by {
        reveal_with_fuel(ten_to, 2);
    }
    while i < places
        invariant
            1 <= i <= places,
            whole@ == n@ / ten_to(i as nat),
        decreases places - i,
    {
        proof {
            lemma_ten_to_positive(i as nat);
            vstd::arithmetic::div_mod::lemma_div_denominator(
                n@ as int,
                ten_to(i as nat) as int,
                10,
            );
            assert(ten_to(i as nat) * 10 == 10 * ten_to(i as nat));
        }
        let (next, _) = whole.tenth();
        whole = next;
        i += 1;
    }
    push_natural(out, &whole);
    out.append(".");
    push_padded(out, n, places);
    assert(out@ =~= old(out)@ + fixed_text(n@, places as nat));
}

proof fn lemma_ten_to_positive(k: nat)
    ensures
        ten_to(k) > 0,
    decreases k,
{
    if k > 0 {
        lemma_ten_to_positive((k - 1) as nat);
    }
}

/// A cost that is a double, in units of the currency: four decimals below 0.01,
/// three below 1, two below 100, none above; trailing zeros dropped.
pub open spec fn units_text(u: (int, int)) -> Seq<char> {
    if 100 * u.0 < u.1 {
        fixed_text(nearest_even(10_000 * u.0, u.1) as nat, 4)
    } else if u.0 < u.1 {
        fixed_text(nearest_even(1000 * u.0, u.1) as nat, 3)
    } else if u.0 < 100 * u.1 {
        fixed_text(nearest_even(100 * u.0, u.1) as nat, 2)
    } else {
        decimal(saturated(nearest(u.0, u.1)))
    }
}

/// A number of cents in units of the currency, with the rate and its hundredth
/// each taken as doubles.
pub open spec fn cost_text(cents: (int, int)) -> Seq<char> {
    if cents.0 <= 0 || overflows(double_of(cents)) {
        "0"@
    } else {
        units_text(double_of(parted(double_of(cents), 100)))
    }
}

/// The text of an optional cost; one that is no number reads as zero.
pub open spec fn opt_cost_text(cents: Option<(int, int)>, currency: Option<Seq<char>>) -> Seq<
    char,
> {
    symbol_text(currency) + match cents {
        Some(v) => cost_text(v),
        None => "0"@,
    }
}

/// Cost per hour from a rate in cents, such as `$5.23`. `None` stands for a
/// rate that is not a finite number.
pub fn fmt_cost(cents_per_hour: Option<&Ratio>, currency: Option<&str>) -> (r: String)
    ensures
        r@ == opt_cost_text(fraction_of(cents_per_hour), opt_str_view(currency)),
{
    let mut out = String::new();
    out.append(currency_symbol(currency));
    let ghost symbol = symbol_text(opt_str_view(currency));
    assert(out@ =~= symbol);
    let cents = match positive_double(cents_per_hour) {
        Some(v) => v,
        None => {
            out.append("0");
            return out;
        },
    };
    let units = part_of(&cents, 100);
    let num = units.numerator();
    let den = units.denominator();
    proof {
        lemma_double_is_not_negative(parted((cents.num(), cents.den()), 100));
    }
    let hundred = Integer::from_u64(100);
    if hundred.times(&num).less_than(&den) {
        push_fixed(&mut out, &Integer::from_u64(10_000).times(&num).rounded_even(&den), 4);
    } else if num.less_than(&den) {
        push_fixed(&mut out, &Integer::from_u64(1000).times(&num).rounded_even(&den), 3);
    } else if num.less_than(&hundred.times(&den)) {
        push_fixed(&mut out, &hundred.times(&num).rounded_even(&den), 2);
    } else {
        push_i64(&mut out, num.rounded(&den));
    }
    assert(out@ =~= symbol + units_text((num@, den@)));
    out
}

// ---------------------------------------------------------------------------
// Rows
// ---------------------------------------------------------------------------

/// Whether a window counts money.
pub open spec fn counts_money(count_unit: Option<Seq<char>>) -> bool {
    count_unit == Some("cents"@) || count_unit == Some("milliunits"@)
}

/// The rate of a burn row with its unit.
pub open spec fn burn_rate_text(
    burn: Burn,
    count_unit: Option<Seq<char>>,
    currency: Option<Seq<char>>,
    cost_fragment: Option<Seq<char>>,
) -> Seq<char> {
    let base = if burn.unit == "pct"@ {
        rate_text(burn.rate) + "/h"@
    } else if counts_money(count_unit) {
        symbol_text(currency) + cost_text(burn.rate) + "/h"@
    } else {
        rate_text(burn.rate) + " tok/h"@
    };
    match cost_fragment {
        Some(extra) => base + " · "@ + extra,
        None => base,
    }
}

/// The burn row: a pace, or a warning where the window runs out early.
pub open spec fn burn_text(
    burn: Burn,
    count_unit: Option<Seq<char>>,
    currency: Option<Seq<char>>,
    cost_fragment: Option<Seq<char>>,
) -> Seq<char> {
    let rate = burn_rate_text(burn, count_unit, currency, cost_fragment);
    if burn.exhaust_before_reset {
        let ms = match burn.exhaust_ms {
            Some(ms) => ms,
            None => i64::MAX as int,
        };
        "  ⚠ "@ + rate + " → exhausts ~"@ + minutes_text(minutes(ms, false)) + " before reset"@
    } else {
        "  · on pace to have ~"@ + decimal(
            saturated(nearest(burn.projected_pct_left.0, burn.projected_pct_left.1)),
        ) + "% left at reset ("@ + rate + ")"@
    }
}

/// The informational line under a window's bar.
pub fn burn_row_label(
    burn: &BurnResult,
    count_unit: Option<&str>,
    currency: Option<&str>,
    cost_fragment: Option<&str>,
) -> (r: String)
    ensures
        r@ == burn_text(
            burn@,
            opt_str_view(count_unit),
            opt_str_view(currency),
            opt_str_view(cost_fragment),
        ),
{
    let money: bool = is_some_text(count_unit, "cents") || is_some_text(count_unit, "milliunits");
    let mut rate = if same(burn.unit, "pct") {
        fmt_rate(Some(&burn.rate_per_hour)).concat("/h")
    } else if money {
        fmt_cost(Some(&burn.rate_per_hour), currency).concat("/h")
    } else {
        fmt_rate(Some(&burn.rate_per_hour)).concat(" tok/h")
    };
    if let Some(extra) = cost_fragment {
        rate.append(" · ");
        rate.append(extra);
    }
    let ghost unit = opt_str_view(count_unit);
    let ghost money_in = opt_str_view(currency);
    let ghost extra = opt_str_view(cost_fragment);
    assert(money == counts_money(unit));
    assert(rate@ =~= burn_rate_text(burn@, unit, money_in, extra));
    let mut out = String::new();
    if burn.exhaust_before_reset {
        let ms: i64 = match burn.exhaust_ms {
            Some(ms) => ms,
            None => i64::MAX,
        };
        out.append("  ⚠ ");
        out.append(rate.as_str());
        out.append(" → exhausts ~");
        out.append(fmt_duration(ms, false).as_str());
        out.append(" before reset");
    } else {
        out.append("  · on pace to have ~");
        let left = burn.projected_pct_left.numerator();
        push_i64(&mut out, left.rounded(&burn.projected_pct_left.denominator()));
        out.append("% left at reset (");
        out.append(rate.as_str());
        out.append(")");
    }
    assert(out@ =~= burn_text(burn@, unit, money_in, extra));
    out
}

/// The row of a window that was just fetched.
pub open spec fn window_text(label: Seq<char>, remaining_pct: int, resets_in_ms: int) -> Seq<char> {
    "  "@ + label + ": "@ + decimal(remaining_pct) + "% left · resets in "@ + minutes_text(
        minutes(resets_in_ms, false),
    )
}

/// What is appended to the row of a window that is from the last good fetch.
pub open spec fn stale_note(stale: bool) -> Seq<char> {
    if stale {
        " (stale)"@
    } else {
        Seq::empty()
    }
}

/// The row of a window: `  5h: 80% left · resets in 4h`, and
/// `  5h: 80% left · resets in 4h (stale)` where the window is from the last good
/// fetch and a later one failed. How old it is, the menu appends to that.
pub fn window_label(label: &str, remaining_pct: i64, resets_in_ms: i64, stale: bool) -> (r: String)
    ensures
        r@ == window_text(label@, remaining_pct as int, resets_in_ms as int) + stale_note(stale),
{
    let mut out = String::new();
    out.append("  ");
    out.append(label);
    out.append(": ");
    push_i64(&mut out, remaining_pct);
    out.append("% left · resets in ");
    out.append(fmt_duration(resets_in_ms, false).as_str());
    if stale {
        out.append(" (stale)");
    }
    assert(out@ =~= window_text(label@, remaining_pct as int, resets_in_ms as int) + stale_note(
        stale,
    ));
    out
}

// ---------------------------------------------------------------------------
// Laws
// ---------------------------------------------------------------------------

/// A countdown that has not ended never reads `0m`, and an age never reads
/// more than has passed.
pub proof fn law_countdowns_round_up_and_ages_down(ms: int)
    requires
        ms > 0,
    ensures
        minutes(ms, false) >= 1,
        minutes(ms, false) * 60_000 >= ms,
        minutes(ms, true) * 60_000 <= ms,
        minutes(ms, true) <= minutes(ms, false) <= minutes(ms, true) + 1,
{
}

/// Every bar is 27 characters long and holds 22 cells, as many of them filled
/// as the percentage says, and percentages out of range draw the nearest one.
pub proof fn law_bar_has_22_cells(pct: int)
    ensures
        bar_text(pct).len() == 27,
        filled_cells(pct) <= 22,
        bar_text(pct) == bar_text(clamp_pct(pct)),
        forall|i: int| 3 <= i < 3 + filled_cells(pct) ==> bar_text(pct)[i] == '\u{2588}',
        forall|i: int| 4 + filled_cells(pct) <= i < 26 ==> bar_text(pct)[i] == '\u{2591}',
{
    reveal_strlit("  [");
    reveal_strlit(" ");
    reveal_strlit("]");
}

/// A larger percentage never fills fewer cells.
pub proof fn law_bar_is_monotone(a: int, b: int)
    requires
        a <= b,
    ensures
        filled_cells(a) <= filled_cells(b),
{
}

/// Minutes are counted in full on the way up and begun on the way down; before zero
/// there is none.
pub proof fn law_minutes_are_whole(ms: int)
    ensures
        ms <= 0 ==> minutes(ms, true) == 0 && minutes(ms, false) == 0,
        ms >= 0 ==> minutes(ms, true) * 60_000 <= ms < (minutes(ms, true) + 1) * 60_000,
        ms > 0 ==> (minutes(ms, false) - 1) * 60_000 < ms <= minutes(ms, false) * 60_000,
{
}

/// Durations read in their two largest units: minutes below an hour, hours and
/// minutes below a day, days and hours above, and a unit that is zero is left out.
pub proof fn law_durations_read_in_two_units(d: nat, h: nat, m: nat)
    requires
        h < 24,
        m < 60,
    ensures
        minutes_text(m) == numeral(m) + "m"@,
        h > 0 && m > 0 ==> minutes_text(60 * h + m) == numeral(h) + "h "@ + numeral(m) + "m"@,
        h > 0 ==> minutes_text(60 * h) == numeral(h) + "h"@,
        d > 0 && h > 0 ==> minutes_text(1440 * d + 60 * h + m) == numeral(d) + "d "@ + numeral(h)
            + "h"@,
        d > 0 ==> minutes_text(1440 * d + m) == numeral(d) + "d"@,
{
    assert((1440 * d + 60 * h + m) / 60 == 24 * d + h);
    assert((24 * d + h) / 24 == d && (24 * d + h) % 24 == h);
    assert((1440 * d + m) / 60 == 24 * d);
}

/// Ages read in their largest unit, of which they hold that many in full: seconds
/// below a minute, minutes below an hour, hours above.
pub proof fn law_ages_read_in_one_unit(n: int, ms: int)
    requires
        0 <= ms,
    ensures
        0 <= n < 60 && 1000 * n <= ms < 1000 * (n + 1) ==> age_text(ms) == numeral(n as nat) + "s"@,
        1 <= n < 60 && 60_000 * n <= ms < 60_000 * (n + 1) ==> age_text(ms) == numeral(n as nat)
            + "m"@,
        1 <= n && 3_600_000 * n <= ms < 3_600_000 * (n + 1) ==> age_text(ms) == numeral(n as nat)
            + "h"@,
        age_text(-ms) == age_text(0),
{
    if 1 <= n < 60 && 60_000 * n <= ms < 60_000 * (n + 1) {
        assert(60 * n <= ms / 1000 < 60 * (n + 1));
        assert(ms / 1000 / 60 == n);
    }
    if 1 <= n && 3_600_000 * n <= ms < 3_600_000 * (n + 1) {
        assert(3600 * n <= ms / 1000 < 3600 * (n + 1));
        assert(60 * n <= ms / 1000 / 60 < 60 * (n + 1));
        assert(ms / 1000 / 60 / 60 == n);
    }
}

/// A bar fills the cells nearest to its percentage, and none or all of them outside
/// 0 to 100. It stands in brackets, indented, full cells first.
pub proof fn law_bar_fills_the_nearest_cells(pct: int)
    ensures
        0 <= pct <= 100 ==> 100 * filled_cells(pct) - 50 <= 22 * pct < 100 * filled_cells(pct) + 50,
        pct < 0 ==> filled_cells(pct) == 0,
        pct > 100 ==> filled_cells(pct) == 22,
        bar_text(pct) == "  ["@ + Seq::new(filled_cells(pct), |i: int| '█') + " "@ + Seq::new(
            (22 - filled_cells(pct)) as nat,
            |i: int| '░',
        ) + "]"@,
{
    assert(repeated('█', filled_cells(pct)) =~= Seq::new(filled_cells(pct), |i: int| '█'));
    let rest = (22 - filled_cells(pct)) as nat;
    assert(repeated('░', rest) =~= Seq::new(rest, |i: int| '░'));
}

/// A rate reads as its text, and one that is no number as zero.
pub proof fn law_rates_that_are_no_numbers_read_zero(rate: (int, int))
    ensures
        opt_rate_text(Some(rate)) == rate_text(rate),
        opt_rate_text(None) == "0"@,
{
}

/// Rates that are not positive or not finite read zero. Below a thousand the text is
/// the nearest integer to the rate as a double, halves up; from a hundred thousand on
/// that of its thousandth; in between the thousandth with the nearest tenth, which is
/// left out where it is zero.
pub proof fn law_rates_read_to_the_nearest(rate: (int, int), i: int)
    requires
        rate.1 > 0,
        0 <= i <= i64::MAX,
    ensures
        ({
            let r = double_of(rate);
            let k = double_of((r.0, 1000 * r.1));
            let t = double_of((10 * k.0, k.1));
            let shown = rate.0 > 0 && r.0 < r.1 * pow2(1024);
            &&& !shown ==> rate_text(rate) == "0"@
            &&& shown && r.0 < 1000 * r.1 && rounds_to(r, i) ==> rate_text(rate) == decimal(i)
            &&& shown && r.0 >= 1000 * r.1 && k.0 >= 100 * k.1 && rounds_to(k, i) ==> rate_text(rate)
                == decimal(i) + "k"@
            &&& shown && r.0 >= 1000 * r.1 && k.0 < 100 * k.1 && rounds_to(t, i) ==> rate_text(rate)
                == (if i % 10 == 0 {
                decimal(i / 10) + "k"@
            } else {
                decimal(i / 10) + "."@ + decimal(i % 10) + "k"@
            })
        }),
{
    let r = double_of(rate);
    if rate.0 > 0 {
        lemma_double_is_not_negative(rate);
        let k = double_of((r.0, 1000 * r.1));
        lemma_double_is_not_negative((r.0, 1000 * r.1));
        let t = double_of((10 * k.0, k.1));
        lemma_double_is_not_negative((10 * k.0, k.1));
        if rounds_to(r, i) {
            lemma_rounds_to(r, i);
        }
        if rounds_to(k, i) {
            lemma_rounds_to(k, i);
        }
        if rounds_to(t, i) {
            lemma_rounds_to(t, i);
        }
    }
}

/// Whether an integer is the nearest to a fraction, of two equally near ones the upper.
pub open spec fn rounds_to(f: (int, int), i: int) -> bool {
    (2 * i - 1) * f.1 <= 2 * f.0 < (2 * i + 1) * f.1
}

proof fn lemma_rounds_to(f: (int, int), i: int)
    requires
        f.0 >= 0,
        f.1 > 0,
        rounds_to(f, i),
    ensures
        nearest(f.0, f.1) == i,
{
    let x = 2 * f.0 + f.1;
    let y = 2 * f.1;
    assert((2 * i - 1) * f.1 == 2 * (i * f.1) - f.1 && (2 * i + 1) * f.1 == 2 * (i * f.1) + f.1 && i
        * y == 2 * (i * f.1)) by (nonlinear_arith)
        requires
            y == 2 * f.1,
    ;
    vstd::arithmetic::div_mod::lemma_fundamental_div_mod_converse(x, y, i, x - i * y);
}

/// Costs that are not positive or not finite read zero. Otherwise the cents as a
/// double make units as a double, and those are written to the nearest of the
/// decimals that their size leaves: four below a hundredth of a unit, three below
/// one, two below a hundred, none above.
pub proof fn law_costs_read_to_the_nearest(cents: (int, int), n: nat)
    requires
        cents.1 > 0,
        n <= i64::MAX,
    ensures
        ({
            let c = double_of(cents);
            let u = double_of((c.0, 100 * c.1));
            let shown = cents.0 > 0 && c.0 < c.1 * pow2(1024);
            &&& !shown ==> cost_text(cents) == "0"@
            &&& shown && 100 * u.0 < u.1 && evenly_rounds_to((10_000 * u.0, u.1), n as int)
                ==> cost_text(cents) == fixed_text(n, 4)
            &&& shown && u.1 <= 100 * u.0 && u.0 < u.1 && evenly_rounds_to((1000 * u.0, u.1), n as int)
                ==> cost_text(cents) == fixed_text(n, 3)
            &&& shown && u.1 <= u.0 && u.0 < 100 * u.1 && evenly_rounds_to((100 * u.0, u.1), n as int)
                ==> cost_text(cents) == fixed_text(n, 2)
            &&& shown && u.0 >= 100 * u.1 && rounds_to(u, n as int) ==> cost_text(cents) == decimal(
                n as int,
            )
        }),
{
    let c = double_of(cents);
    if cents.0 > 0 {
        lemma_double_is_not_negative(cents);
        let u = double_of((c.0, 100 * c.1));
        lemma_double_is_not_negative((c.0, 100 * c.1));
        if rounds_to(u, n as int) {
            lemma_rounds_to(u, n as int);
        }
        if evenly_rounds_to((10_000 * u.0, u.1), n as int) {
            lemma_evenly_rounds_to((10_000 * u.0, u.1), n as int);
        }
        if evenly_rounds_to((1000 * u.0, u.1), n as int) {
            lemma_evenly_rounds_to((1000 * u.0, u.1), n as int);
        }
        if evenly_rounds_to((100 * u.0, u.1), n as int) {
            lemma_evenly_rounds_to((100 * u.0, u.1), n as int);
        }
    }
}

/// A cost reads as the symbol of its currency and the amount, and one that is no number
/// as the symbol and a zero.
pub proof fn law_costs_follow_their_symbol(cents: (int, int), currency: Option<Seq<char>>)
    ensures
        opt_cost_text(Some(cents), currency) == symbol_text(currency) + cost_text(cents),
        opt_cost_text(None, currency) == symbol_text(currency) + "0"@,
{
}

/// Whether an integer is the nearest to a fraction, of two equally near ones the even.
pub open spec fn evenly_rounds_to(f: (int, int), i: int) -> bool {
    &&& (2 * i - 1) * f.1 <= 2 * f.0 <= (2 * i + 1) * f.1
    &&& 2 * f.0 == (2 * i - 1) * f.1 || 2 * f.0 == (2 * i + 1) * f.1 ==> i % 2 == 0
}

/// The integer that a fraction rounds to is the one that rounding gives.
pub proof fn lemma_evenly_rounds_to(f: (int, int), i: int)
    requires
        f.0 >= 0,
        f.1 > 0,
        evenly_rounds_to(f, i),
    ensures
        nearest_even(f.0, f.1) == i,
{
    let (x, y) = f;
    let q = x / y;
    vstd::arithmetic::div_mod::lemma_fundamental_div_mod(x, y);
    vstd::arithmetic::div_mod::lemma_mod_bound(x, y);
    assert((2 * i - 1) * y == 2 * (i * y) - y && (2 * i + 1) * y == 2 * (i * y) + y && y * q == q * y)
        by (nonlinear_arith);
    let d = i - q;
    assert(i * y == q * y + d * y) by (nonlinear_arith)
        requires
            d == i - q,
    ;
    assert(0 <= d <= 1) by (nonlinear_arith)
        requires
            2 * (d * y) - y <= 2 * (x % y),
            2 * (x % y) <= 2 * (d * y) + y,
            0 <= x % y < y,
            y > 0,
    ;
    assert(0 * y == 0 && 1 * y == y) by (nonlinear_arith);
}

/// A decimal fraction drops its trailing zeros, and the point with them; the digits
/// behind the point are as many as are left, leading zeros kept.
pub proof fn law_decimal_fractions_drop_trailing_zeros(n: nat, places: nat)
    ensures
        fixed_text(n, 0) == numeral(n),
        fixed_text(10 * n, places + 1) == fixed_text(n, places),
        n % 10 != 0 ==> fixed_text(n, 1) == numeral(n / 10) + "."@ + seq![digit((n % 10) as int)],
        n % 10 != 0 ==> fixed_text(n, 2) == numeral(n / 100) + "."@ + seq![
            digit((n / 10 % 10) as int),
            digit((n % 10) as int),
        ],
        n % 10 != 0 ==> fixed_text(n, 3) == numeral(n / 1000) + "."@ + seq![
            digit((n / 100 % 10) as int),
            digit((n / 10 % 10) as int),
            digit((n % 10) as int),
        ],
        n % 10 != 0 ==> fixed_text(n, 4) == numeral(n / 10_000) + "."@ + seq![
            digit((n / 1000 % 10) as int),
            digit((n / 100 % 10) as int),
            digit((n / 10 % 10) as int),
            digit((n % 10) as int),
        ],
{
    reveal_with_fuel(padded, 5);
    reveal_with_fuel(ten_to, 5);
    assert(ten_to(1) == 10 && ten_to(2) == 100 && ten_to(3) == 1000 && ten_to(4) == 10_000);
    assert(n / 10 / 10 == n / 100 && n / 10 / 10 / 10 == n / 1000);
    assert(padded(n, 1) =~= seq![digit((n % 10) as int)]);
    assert(padded(n, 2) =~= seq![digit((n / 10 % 10) as int), digit((n % 10) as int)]);
    assert(padded(n, 3) =~= seq![
        digit((n / 100 % 10) as int),
        digit((n / 10 % 10) as int),
        digit((n % 10) as int),
    ]);
    assert(padded(n, 4) =~= seq![
        digit((n / 1000 % 10) as int),
        digit((n / 100 % 10) as int),
        digit((n / 10 % 10) as int),
        digit((n % 10) as int),
    ]);
}

/// A currency's code, in any case and with white space around it, or its symbol, gives
/// its symbol; everything else the dollar's.
pub proof fn law_currencies_have_their_symbol(c: Seq<char>)
    ensures
        ({
            let code = lowered(trimmed(c));
            let shown = symbol_text(Some(c));
            let euro = code == "eur"@ || trimmed(c) == "€"@;
            let pound = code == "gbp"@ || trimmed(c) == "£"@;
            let yen = code == "jpy"@ || code == "cny"@ || code == "rmb"@ || trimmed(c) == "¥"@;
            let won = code == "krw"@ || trimmed(c) == "₩"@;
            let rupee = code == "inr"@ || trimmed(c) == "₹"@;
            &&& euro ==> shown == "€"@
            &&& !euro && pound ==> shown == "£"@
            &&& !euro && !pound && yen ==> shown == "¥"@
            &&& !euro && !pound && !yen && won ==> shown == "₩"@
            &&& !euro && !pound && !yen && !won && rupee ==> shown == "₹"@
            &&& !euro && !pound && !yen && !won && !rupee ==> shown == "$"@
        }),
        symbol_text(None) == "$"@,
{
}

/// The burn row of a window that runs out warns and says when; that of any other says
/// how much is left at the reset, to the nearest percent. Both give the rate: of a
/// percentage per hour, of money as a cost, of tokens as tokens, and behind it the
/// cost where there is one.
pub proof fn law_burn_rows_say_when_or_how_much(
    b: Burn,
    count_unit: Option<Seq<char>>,
    currency: Option<Seq<char>>,
    extra: Seq<char>,
    left: int,
)
    ensures
        ({
            let money = count_unit == Some("cents"@) || count_unit == Some("milliunits"@);
            let rate = if b.unit == "pct"@ {
                rate_text(b.rate) + "/h"@
            } else if money {
                symbol_text(currency) + cost_text(b.rate) + "/h"@
            } else {
                rate_text(b.rate) + " tok/h"@
            };
            let plain = burn_text(b, count_unit, currency, None);
            let priced = burn_text(b, count_unit, currency, Some(extra));
            let more = rate + " · "@ + extra;
            &&& b.exhaust_before_reset ==> (b.exhaust_ms matches Some(ms) ==> plain == "  ⚠ "@ + rate
                + " → exhausts ~"@ + minutes_text(minutes(ms, false)) + " before reset"@ && priced
                == "  ⚠ "@ + more + " → exhausts ~"@ + minutes_text(minutes(ms, false))
                + " before reset"@)
            &&& !b.exhaust_before_reset && b.projected_pct_left.0 >= 0 && b.projected_pct_left.1 > 0
                && 0 <= left <= i64::MAX && rounds_to(b.projected_pct_left, left) ==> plain
                == "  · on pace to have ~"@ + decimal(left) + "% left at reset ("@ + rate + ")"@
                && priced == "  · on pace to have ~"@ + decimal(left) + "% left at reset ("@ + more
                + ")"@
        }),
{
    let p = b.projected_pct_left;
    if p.0 >= 0 && p.1 > 0 && rounds_to(p, left) {
        lemma_rounds_to(p, left);
    }
}

/// A window's row names it, its percentage and the minutes begun until its reset, and
/// is marked only where it is old.
pub proof fn law_window_rows_count_down(label: Seq<char>, pct: int, ms: int)
    ensures
        window_text(label, pct, ms) == "  "@ + label + ": "@ + decimal(pct) + "% left · resets in "@
            + minutes_text(minutes(ms, false)),
        stale_note(false).len() == 0,
        stale_note(true) == " (stale)"@,
{
}

} // verus!
