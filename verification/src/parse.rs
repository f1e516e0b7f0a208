//! Reading quota windows from a provider's answer.
//!
//! Which fields are read, and in which units, comes from the instance's
//! `PlanShape`; nothing here knows a provider.
use crate::burn::Window;
use crate::json::{
    as_double_bits, as_integer, as_text, at_pointer, first_element, json_at, json_double,
    json_first, json_integer, json_member, json_of, json_text, member, opt_json, Json,
};
use crate::provider::{PlanShape, WindowShape};
use crate::ratio::{double_den, double_exponent, double_num, saturated, toward_zero, Ratio};
use crate::text::{clone_opt, opt_view, same};
use crate::util::clamp_pct;
use serde_json::Value;
use vstd::prelude::*;

verus! {

/// A double cut off to an integer, kept within `i64`; 0 where it is no number.
pub open spec fn double_as_integer(bits: u64) -> int {
    if double_exponent(bits) == 0x7ff {
        0
    } else {
        saturated(toward_zero(double_num(bits), double_den(bits)))
    }
}

/// A finite double cut off to an integer.
pub fn truncate_double(bits: u64) -> (r: i64)
    ensures
        r == double_as_integer(bits),
{
    match Ratio::from_double_bits(bits) {
        Some(v) => {
            let num = v.numerator();
            let den = v.denominator();
            num.truncated(&den)
        },
        None => 0,
    }
}

/// The integer of a field: the field's own, or its double cut off, if the field
/// is a number at all.
pub open spec fn field_number(entry: Json, key: Seq<char>) -> Option<int> {
    match json_member(entry, key) {
        Some(v) => match json_integer(v) {
            Some(i) => Some(i as int),
            None => match json_double(v) {
                Some(bits) => Some(double_as_integer(bits)),
                None => None,
            },
        },
        None => None,
    }
}

/// The integer of a field, if it is a number.
fn number_at(entry: &Value, key: &str) -> (r: Option<i64>)
    ensures
        match r {
            Some(i) => field_number(json_of(*entry), key@) == Some(i as int),
            None => field_number(json_of(*entry), key@) is None,
        },
{
    match member(entry, key) {
        Some(v) => match as_integer(v) {
            Some(i) => Some(i),
            None => match as_double_bits(v) {
                Some(bits) => Some(truncate_double(bits)),
                None => None,
            },
        },
        None => None,
    }
}

/// The integer of a field, 0 where it is missing or no number.
pub fn num(v: &Value, key: &str) -> (r: i64)
    ensures
        r == (match field_number(json_of(*v), key@) {
            Some(i) => i,
            None => 0,
        }),
{
    match number_at(v, key) {
        Some(i) => i,
        None => 0,
    }
}

/// The percentage of a field, brought into 0 to 100.
pub fn pct(v: &Value, key: &str) -> (r: i64)
    ensures
        r == clamp_pct(
            match field_number(json_of(*v), key@) {
                Some(i) => i,
                None => 0,
            },
        ),
{
    let n: i64 = num(v, key);
    if n < 0 {
        0
    } else if n > 100 {
        100
    } else {
        n
    }
}

/// The text that a JSON pointer leads to in an entry, if it is one.
pub open spec fn model_text(entry: Json, path: Seq<char>) -> Option<Seq<char>> {
    match json_at(entry, path) {
        Some(v) => json_text(v),
        None => None,
    }
}

/// The model id at a JSON pointer of an entry.
pub fn model_id_at(entry: &Value, path: &str) -> (r: Option<String>)
    ensures
        opt_view(r) == model_text(json_of(*entry), path@),
{
    match at_pointer(entry, path) {
        Some(v) => match as_text(v) {
            Some(t) => Some(t.to_owned()),
            None => None,
        },
        None => None,
    }
}

// ---------------------------------------------------------------------------
// One window
// ---------------------------------------------------------------------------

/// What an entry said about one window; `None` where a field was missing.
#[derive(Debug)]
pub struct EntryFields {
    pub total: Option<i64>,
    pub used: Option<i64>,
    pub remaining_pct: Option<i64>,
    pub start: Option<i64>,
    pub reset: Option<i64>,
    pub model: Option<String>,
}

/// An optional integer, 0 where it is missing.
pub open spec fn or_zero(i: Option<i64>) -> int {
    match i {
        Some(v) => v as int,
        None => 0,
    }
}

/// The percentage left: as reported, else from the counts, where there are any.
pub open spec fn percent_left(f: EntryFields) -> int {
    match f.remaining_pct {
        Some(p) => clamp_pct(p as int),
        None => if or_zero(f.total) > 0 {
            clamp_pct(100 - toward_zero(100 * or_zero(f.used), or_zero(f.total)))
        } else {
            0
        },
    }
}

/// When the window resets, within `i64`: the reset field as a point in time, or
/// `now` later by it.
pub open spec fn reset_time(f: EntryFields, w: WindowShape, now: int) -> int {
    let raw = saturated(or_zero(f.reset) * w.reset_unit_ms);
    if w.reset_is_absolute_epoch {
        raw
    } else {
        saturated(now + raw)
    }
}

/// Whether `r` is the window that the fields describe.
pub open spec fn is_window_of(r: Window, f: EntryFields, w: WindowShape, now: int) -> bool {
    &&& r.id@ == w.id@
    &&& r.total == or_zero(f.total)
    &&& r.used == or_zero(f.used)
    &&& r.remaining_pct == percent_left(f)
    &&& r.start_at == saturated(or_zero(f.start) * w.start_unit_ms)
    &&& r.reset_at == reset_time(f, w, now)
    &&& r.count_unit == w.count_unit
    &&& r.currency == w.currency
    &&& r.model == f.model
}

fn zero_if_missing(i: Option<i64>) -> (r: i64)
    ensures
        r == or_zero(i),
{
    match i {
        Some(v) => v,
        None => 0,
    }
}

fn saturate(i: i128) -> (r: i64)
    ensures
        r == saturated(i as int),
{
    if i > i64::MAX as i128 {
        i64::MAX
    } else if i < i64::MIN as i128 {
        i64::MIN
    } else {
        i as i64
    }
}

fn scaled(i: i64, unit: i64) -> (r: i64)
    ensures
        r == saturated(i * unit),
{
    proof {
        let m: int = 0x8000_0000_0000_0000;
        assert(-(m * m) <= i * unit <= m * m) by (nonlinear_arith)
            requires
                -m <= i <= m,
                -m <= unit <= m,
                m == 0x8000_0000_0000_0000,
        ;
        assert(m * m == 0x4000_0000_0000_0000_0000_0000_0000_0000int) by (nonlinear_arith)
            requires
                m == 0x8000_0000_0000_0000,
        ;
    }
    saturate(i as i128 * unit as i128)
}

/// `100 * used / total` without its fractional part.
fn used_percent(used: i64, total: i64) -> (r: i128)
    requires
        total > 0,
    ensures
        r == toward_zero(100 * used, total as int),
{
    let scaled: i128 = 100 * (used as i128);
    if scaled >= 0 {
        scaled / (total as i128)
    } else {
        let q: i128 = (-scaled) / (total as i128);
        -q
    }
}

/// The window that an entry's fields describe.
pub fn build_window(f: EntryFields, w: &WindowShape, now_ms: i64) -> (r: Window)
    ensures
        is_window_of(r, f, *w, now_ms as int),
{
    let total: i64 = zero_if_missing(f.total);
    let used: i64 = zero_if_missing(f.used);
    let percent: i128 = match f.remaining_pct {
        Some(p) => p as i128,
        None => if total > 0 {
            100 - used_percent(used, total)
        } else {
            0
        },
    };
    let remaining_pct: i64 = if percent < 0 {
        0
    } else if percent > 100 {
        100
    } else {
        percent as i64
    };
    let raw: i64 = scaled(zero_if_missing(f.reset), w.reset_unit_ms);
    Window {
        id: w.id.clone(),
        total,
        used,
        remaining_pct,
        start_at: scaled(zero_if_missing(f.start), w.start_unit_ms),
        reset_at: if w.reset_is_absolute_epoch {
            raw
        } else {
            saturate(now_ms as i128 + raw as i128)
        },
        count_unit: clone_opt(&w.count_unit),
        currency: clone_opt(&w.currency),
        model: f.model,
    }
}

/// The name of the field that holds the start of a window.
pub open spec fn start_key(w: WindowShape) -> Seq<char> {
    match w.start_field {
        Some(k) => k@,
        None => "start_time"@,
    }
}

/// The name of the field that holds the reset of a window.
pub open spec fn reset_key(w: WindowShape) -> Seq<char> {
    match w.reset_field {
        Some(k) => k@,
        None => "remains_time"@,
    }
}

/// Whether a number was read from the field it should be.
pub open spec fn read_from(i: Option<i64>, entry: Json, key: Seq<char>) -> bool {
    match i {
        Some(v) => field_number(entry, key) == Some(v as int),
        None => field_number(entry, key) is None,
    }
}

/// Whether `f` is what an entry says about a window.
pub open spec fn is_fields_of(f: EntryFields, entry: Json, w: WindowShape) -> bool {
    &&& read_from(f.total, entry, w.field_prefix@ + "_total_count"@)
    &&& read_from(f.used, entry, w.field_prefix@ + "_usage_count"@)
    &&& read_from(f.remaining_pct, entry, w.field_prefix@ + "_remaining_percent"@)
    &&& read_from(f.start, entry, start_key(w))
    &&& read_from(f.reset, entry, reset_key(w))
    &&& opt_view(f.model) == (match w.pricing_model_path {
        Some(p) => model_text(entry, p@),
        None => None,
    })
}

/// What an entry says about a window.
pub fn read_fields(entry: &Value, w: &WindowShape) -> (r: EntryFields)
    ensures
        is_fields_of(r, json_of(*entry), *w),
{
    let prefix = w.field_prefix.as_str();
    let total_key = prefix.to_owned().concat("_total_count");
    let used_key = prefix.to_owned().concat("_usage_count");
    let percent_key = prefix.to_owned().concat("_remaining_percent");
    let start = match &w.start_field {
        Some(k) => number_at(entry, k.as_str()),
        None => number_at(entry, "start_time"),
    };
    let reset = match &w.reset_field {
        Some(k) => number_at(entry, k.as_str()),
        None => number_at(entry, "remains_time"),
    };
    EntryFields {
        total: number_at(entry, total_key.as_str()),
        used: number_at(entry, used_key.as_str()),
        remaining_pct: number_at(entry, percent_key.as_str()),
        start,
        reset,
        model: match &w.pricing_model_path {
            Some(p) => model_id_at(entry, p.as_str()),
            None => None,
        },
    }
}

/// Whether `r` is the window that an entry describes.
pub open spec fn is_parsed_window(r: Window, entry: Json, w: WindowShape, now: int) -> bool {
    exists|f: EntryFields| #[trigger] is_fields_of(f, entry, w) && is_window_of(r, f, w, now)
}

/// The window that an entry describes.
pub fn parse_one_window(entry: &Value, w: &WindowShape, now_ms: i64) -> (r: Window)
    ensures
        is_parsed_window(r, json_of(*entry), *w, now_ms as int),
{
    let fields = read_fields(entry, w);
    let ghost f = fields;
    let r = build_window(fields, w, now_ms);
    assert(is_fields_of(f, json_of(*entry), *w) && is_window_of(r, f, *w, now_ms as int));
    r
}

// ---------------------------------------------------------------------------
// The whole answer
// ---------------------------------------------------------------------------

/// The entry that the windows are read from: the answer itself, or the first
/// element of the array at the configured path.
pub open spec fn entry_of(payload: Json, path: Seq<char>) -> Option<Json> {
    if path == "/"@ {
        Some(payload)
    } else {
        match json_at(payload, path) {
            Some(v) => json_first(v),
            None => None,
        }
    }
}

/// The entry that the windows are read from.
pub fn first_entry<'a>(payload: &'a Value, shape: &PlanShape) -> (r: Option<&'a Value>)
    ensures
        opt_json(r) == entry_of(json_of(*payload), shape.entries_path@),
{
    if same(shape.entries_path.as_str(), "/") {
        Some(payload)
    } else {
        match at_pointer(payload, shape.entries_path.as_str()) {
            Some(v) => first_element(v),
            None => None,
        }
    }
}

/// Why an answer could not be read.
#[derive(Debug)]
pub enum ParseError {
    /// There is no entry at the configured path.
    MissingEntry { path: String },
}

impl ParseError {
    /// The error as text.
    pub fn message(&self) -> (r: String)
        ensures
            match *self {
                ParseError::MissingEntry { path } => r@ == "payload missing entry at "@ + path@,
            },
    {
        match self {
            ParseError::MissingEntry { path } => "payload missing entry at ".to_owned().concat(
                path.as_str(),
            ),
        }
    }
}

/// Whether `r` holds the windows of a shape, in order, read from one entry.
pub open spec fn is_parsed_plan(
    r: Seq<Window>,
    entry: Json,
    shapes: Seq<WindowShape>,
    now: int,
) -> bool {
    &&& r.len() == shapes.len()
    &&& forall|i: int|
        0 <= i < shapes.len() ==> is_parsed_window(#[trigger] r[i], entry, shapes[i], now)
}

/// Reads every window of the shape from an answer. Fails exactly where there is
/// no entry; missing fields read as zero.
pub fn parse_plan(payload: &Value, shape: &PlanShape, now_ms: i64) -> (r: Result<
    Vec<Window>,
    ParseError,
>)
    ensures
        match r {
            Ok(windows) => match entry_of(json_of(*payload), shape.entries_path@) {
                Some(entry) => is_parsed_plan(
                    windows@,
                    entry,
                    shape.windows@,
                    now_ms as int,
                ),
                None => false,
            },
            Err(ParseError::MissingEntry { path }) => entry_of(
                json_of(*payload),
                shape.entries_path@,
            ) is None && path@ == shape.entries_path@,
        },
{
    let entry = match first_entry(payload, shape) {
        Some(e) => e,
        None => return Err(ParseError::MissingEntry { path: shape.entries_path.clone() }),
    };
    let mut windows: Vec<Window> = Vec::new();
    let mut i: usize = 0;
    while i < shape.windows.len()
        invariant
            i <= shape.windows@.len(),
            windows@.len() == i,
            forall|j: int|
                0 <= j < i ==> is_parsed_window(
                    #[trigger] windows@[j],
                    json_of(*entry),
                    shape.windows@[j],
                    now_ms as int,
                ),
        decreases shape.windows@.len() - i,
    {
        windows.push(parse_one_window(entry, &shape.windows[i], now_ms));
        i += 1;
    }
    Ok(windows)
}

/// Every window that is read has a percentage between 0 and 100 and carries its
/// shape's id, unit and currency.
pub proof fn law_parsed_windows_are_in_range(
    windows: Seq<Window>,
    entry: Json,
    shapes: Seq<WindowShape>,
    now: int,
    i: int,
)
    requires
        is_parsed_plan(windows, entry, shapes, now),
        0 <= i < shapes.len(),
    ensures
        0 <= windows[i].remaining_pct <= 100,
        windows[i].id@ == shapes[i].id@,
        windows[i].count_unit == shapes[i].count_unit,
        windows[i].currency == shapes[i].currency,
{
    assert(is_parsed_window(windows[i], entry, shapes[i], now));
}

/// A window whose reset is reported as a time left resets exactly that much
/// after the poll.
pub proof fn law_countdown_is_time_left(r: Window, f: EntryFields, w: WindowShape, now: int)
    requires
        is_window_of(r, f, w, now),
        !w.reset_is_absolute_epoch,
        i64::MIN <= or_zero(f.reset) * w.reset_unit_ms <= i64::MAX,
        i64::MIN <= now + or_zero(f.reset) * w.reset_unit_ms <= i64::MAX,
    ensures
        r.reset_at - now == or_zero(f.reset) * w.reset_unit_ms,
{
}

/// A window whose reset is reported as a point in time resets at that time, in the
/// unit of the reset field, whenever it is polled and however its start is counted.
pub proof fn law_absolute_reset_is_kept(r: Window, f: EntryFields, w: WindowShape, now: int)
    requires
        is_window_of(r, f, w, now),
        w.reset_is_absolute_epoch,
        f.reset is Some,
        i64::MIN <= f.reset->0 * w.reset_unit_ms <= i64::MAX,
    ensures
        r.reset_at == f.reset->0 * w.reset_unit_ms,
{
}

/// The start and the reset of a window each depend on their own field and unit
/// alone: two shapes and answers that agree in the one give the same time, whatever
/// the other.
pub proof fn law_start_and_reset_are_independent(
    r: Window,
    q: Window,
    f: EntryFields,
    g: EntryFields,
    w: WindowShape,
    v: WindowShape,
    now: int,
    later: int,
)
    requires
        is_window_of(r, f, w, now),
        is_window_of(q, g, v, later),
    ensures
        f.reset == g.reset && w.reset_unit_ms == v.reset_unit_ms && w.reset_is_absolute_epoch
            == v.reset_is_absolute_epoch && (now == later || w.reset_is_absolute_epoch)
            ==> r.reset_at == q.reset_at,
        f.start == g.start && w.start_unit_ms == v.start_unit_ms ==> r.start_at == q.start_at,
{
}

/// A reported percentage is shown as it is, within 0 to 100. Without one the counts
/// tell: the share that is not used, with the used share cut off to whole percents.
/// Without either nothing is left.
pub proof fn law_percentage_is_reported_or_counted(
    r: Window,
    f: EntryFields,
    w: WindowShape,
    now: int,
)
    requires
        is_window_of(r, f, w, now),
    ensures
        f.remaining_pct matches Some(p) ==> {
            &&& 0 <= p <= 100 ==> r.remaining_pct == p
            &&& p < 0 ==> r.remaining_pct == 0
            &&& p > 100 ==> r.remaining_pct == 100
        },
        f.remaining_pct is None && r.total > 0 && 0 <= r.used <= r.total ==> {
            &&& (100 - r.remaining_pct) * r.total <= 100 * r.used
            &&& 100 * r.used < (101 - r.remaining_pct) * r.total
        },
        f.remaining_pct is None && r.total > 0 && r.used > r.total ==> r.remaining_pct == 0,
        f.remaining_pct is None && r.total > 0 && r.used < 0 ==> r.remaining_pct == 100,
        f.remaining_pct is None && r.total <= 0 ==> r.remaining_pct == 0,
{
    let t = r.total as int;
    let u = 100 * r.used;
    if f.remaining_pct is None && t > 0 {
        if u >= 0 {
            let q = u / t;
            vstd::arithmetic::div_mod::lemma_fundamental_div_mod(u, t);
            vstd::arithmetic::div_mod::lemma_div_pos_is_pos(u, t);
            assert(t * q == q * t && (q + 1) * t == q * t + t) by (nonlinear_arith);
            if r.used <= t {
                assert(q <= 100) by (nonlinear_arith)
                    requires
                        q * t <= u,
                        u <= 100 * t,
                        t > 0,
                ;
            } else {
                assert(q >= 100) by (nonlinear_arith)
                    requires
                        u < (q + 1) * t,
                        u > 100 * t,
                        t > 0,
                ;
            }
        } else {
            vstd::arithmetic::div_mod::lemma_div_pos_is_pos(-u, t);
        }
    }
}

/// Counts are taken over as they are and start times are scaled by their unit; a
/// field that is missing reads as zero.
pub proof fn law_counts_and_start_are_kept(r: Window, f: EntryFields, w: WindowShape, now: int)
    requires
        is_window_of(r, f, w, now),
    ensures
        f.total matches Some(n) ==> r.total == n,
        f.total is None ==> r.total == 0,
        f.used matches Some(n) ==> r.used == n,
        f.used is None ==> r.used == 0,
        f.start matches Some(n) ==> (i64::MIN <= n * w.start_unit_ms <= i64::MAX ==> r.start_at == n
            * w.start_unit_ms),
        f.start is None ==> r.start_at == 0,
        f.reset is None && w.reset_is_absolute_epoch ==> r.reset_at == 0,
        f.reset is None && !w.reset_is_absolute_epoch && i64::MIN <= now <= i64::MAX ==> r.reset_at
            == now,
        r.model == f.model,
{
    assert(0 * w.start_unit_ms == 0 && 0 * w.reset_unit_ms == 0) by (nonlinear_arith);
}

/// Times that leave the range of an `i64` end at its ends instead of wrapping round.
pub proof fn law_times_saturate(r: Window, f: EntryFields, w: WindowShape, now: int)
    requires
        is_window_of(r, f, w, now),
        f.start is Some,
        f.reset is Some,
    ensures
        f.start->0 * w.start_unit_ms > i64::MAX ==> r.start_at == i64::MAX,
        f.start->0 * w.start_unit_ms < i64::MIN ==> r.start_at == i64::MIN,
        w.reset_is_absolute_epoch && f.reset->0 * w.reset_unit_ms > i64::MAX ==> r.reset_at
            == i64::MAX,
        w.reset_is_absolute_epoch && f.reset->0 * w.reset_unit_ms < i64::MIN ==> r.reset_at
            == i64::MIN,
        !w.reset_is_absolute_epoch && now >= 0 && now + f.reset->0 * w.reset_unit_ms > i64::MAX
            && f.reset->0 * w.reset_unit_ms <= i64::MAX ==> r.reset_at == i64::MAX,
        !w.reset_is_absolute_epoch && now >= 0 && f.reset->0 * w.reset_unit_ms > i64::MAX
            ==> r.reset_at == i64::MAX,
{
}

/// Fields are read from the entry under their names: the counts and the percentage under
/// the window's prefix, the start and the reset under the configured names or the usual
/// ones. A field that is missing or no number reads as missing.
pub proof fn law_fields_are_read_by_name(f: EntryFields, entry: Json, w: WindowShape)
    requires
        is_fields_of(f, entry, w),
    ensures
        f.total matches Some(n) ==> field_number(entry, w.field_prefix@ + "_total_count"@) == Some(
            n as int,
        ),
        f.total is None ==> field_number(entry, w.field_prefix@ + "_total_count"@) is None,
        f.used matches Some(n) ==> field_number(entry, w.field_prefix@ + "_usage_count"@) == Some(
            n as int,
        ),
        f.used is None ==> field_number(entry, w.field_prefix@ + "_usage_count"@) is None,
        f.remaining_pct matches Some(n) ==> field_number(
            entry,
            w.field_prefix@ + "_remaining_percent"@,
        ) == Some(n as int),
        f.remaining_pct is None ==> field_number(entry, w.field_prefix@ + "_remaining_percent"@)
            is None,
        ({
            let start = match w.start_field {
                Some(k) => field_number(entry, k@),
                None => field_number(entry, "start_time"@),
            };
            let reset = match w.reset_field {
                Some(k) => field_number(entry, k@),
                None => field_number(entry, "remains_time"@),
            };
            &&& f.start matches Some(n) ==> start == Some(n as int)
            &&& f.start is None ==> start is None
            &&& f.reset matches Some(n) ==> reset == Some(n as int)
            &&& f.reset is None ==> reset is None
        }),
        w.pricing_model_path is None ==> f.model is None,
        w.pricing_model_path matches Some(p) ==> (json_at(entry, p@) matches Some(v) ==> opt_view(
            f.model,
        ) == json_text(v)),
        w.pricing_model_path matches Some(p) ==> (json_at(entry, p@) is None ==> f.model is None),
{
}

/// A member that is an integer reads as that integer; one that is another number as its
/// double without the fractional part; anything else is no number.
pub proof fn law_numbers_are_read_as_integers(
    members: Map<Seq<char>, Json>,
    key: Seq<char>,
    n: i64,
    bits: u64,
)
    requires
        members.contains_key(key),
    ensures
        ({
            let r = field_number(Json::Object(members), key);
            &&& members[key] == (Json::Number { integer: Some(n), double: bits }) ==> r == Some(
                n as int,
            )
            &&& members[key] == (Json::Number { integer: None, double: bits }) ==> r == Some(
                double_as_integer(bits),
            )
            &&& members[key] is Text || members[key] is Bool || members[key] is Null
                || members[key] is Array || members[key] is Object ==> r is None
        }),
        double_exponent(bits) != 0x7ff && double_num(bits) >= 0 && double_num(bits) < i64::MAX
            * double_den(bits) ==> double_as_integer(bits) * double_den(bits) <= double_num(bits) < (
        double_as_integer(bits) + 1) * double_den(bits),
        double_exponent(bits) == 0x7ff ==> double_as_integer(bits) == 0,
        double_exponent(bits) != 0x7ff && double_num(bits) < 0 ==> double_as_integer(bits) <= 0,
        double_exponent(bits) != 0x7ff && double_num(bits) >= i64::MAX * double_den(bits)
            ==> double_as_integer(bits) == i64::MAX,
{
    if double_exponent(bits) != 0x7ff {
        let x = double_num(bits);
        let y = double_den(bits);
        let s = crate::ratio::double_scale(bits);
        vstd::arithmetic::power2::lemma_pow2_pos(if s < 0 {
            (-s) as nat
        } else {
            0
        });
        crate::ratio::law_cutting_off_is_toward_zero(x, y);
        let q = toward_zero(x, y);
        if x >= i64::MAX * y {
            assert(x >= 0 && q >= i64::MAX) by (nonlinear_arith)
                requires
                    x >= 0 ==> x < (q + 1) * y,
                    x >= i64::MAX * y,
                    y > 0,
            ;
        }
        if x >= 0 && x < i64::MAX * y {
            assert(q <= i64::MAX) by (nonlinear_arith)
                requires
                    q * y <= x,
                    x < i64::MAX * y,
                    y > 0,
            ;
        }
    }
}

/// The windows are read from the answer itself where the path is `/`, else from the
/// first element of the array that the path leads to.
pub proof fn law_entries_stand_at_their_path(payload: Json, path: Seq<char>, items: Seq<Json>)
    ensures
        entry_of(payload, "/"@) == Some(payload),
        path != "/"@ && json_at(payload, path) is None ==> entry_of(payload, path) is None,
        path != "/"@ && json_at(payload, path) == Some(Json::Array(items)) && items.len() > 0
            ==> entry_of(payload, path) == Some(items[0]),
        path != "/"@ && json_at(payload, path) == Some(Json::Array(items)) && items.len() == 0
            ==> entry_of(payload, path) is None,
        path != "/"@ && (json_at(payload, path) matches Some(v) && !(v is Array)) ==> entry_of(
            payload,
            path,
        ) is None,
{
}

/// There is one window per shape, in order, and each is the one that the fields of the
/// entry describe by its own shape, as of the time of the poll.
pub proof fn law_windows_are_read_by_their_shapes(
    windows: Seq<Window>,
    entry: Json,
    shapes: Seq<WindowShape>,
    now: int,
    i: int,
) -> (f: EntryFields)
    requires
        is_parsed_plan(windows, entry, shapes, now),
        0 <= i < shapes.len(),
    ensures
        windows.len() == shapes.len(),
        is_fields_of(f, entry, shapes[i]),
        is_window_of(windows[i], f, shapes[i], now),
{
    assert(is_parsed_window(windows[i], entry, shapes[i], now));
    choose|f: EntryFields| #[trigger]
        is_fields_of(f, entry, shapes[i]) && is_window_of(windows[i], f, shapes[i], now)
}

} // verus!
