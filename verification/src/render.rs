//! What the tray shows: the chip in the panel and the menu behind it.
use crate::burn::{Burn, BurnResult, Window};
use crate::config::Config;
use crate::icon::{
    bucket, bucket_for, dot_color, ring_file, ring_svg, static_file, static_svg_path,
    write_ring_svg, Bucket, SvgFile,
};
use crate::instance::joined;
use crate::menu::{
    initial_menu, installed, opt_texts, put_row, rebuilt, texts, Menu, MenuInner, ERROR_ID,
    HEADER_ID, MAX_SLOTS, THROTTLED_ID,
};
use crate::pricing::{cost_fragment, cost_per_hour, priced, PriceTable};
use crate::provider::RingColors;
use crate::ratio::{saturated, Integer, Ratio};
use crate::text::{decimal, opt_str, opt_str_view, opt_view, push_i64};
use crate::util::{
    age_text, bar_markup, bar_text, burn_row_label, burn_text, fmt_age, stale_note, window_label,
    window_text,
};
use vstd::prelude::*;

verus! {

// ---------------------------------------------------------------------------
// The chip
// ---------------------------------------------------------------------------

/// Text beside the icon: none, the icon says it all.
pub const CHIP_TITLE: &'static str = "";

/// Status of a chip that is shown.
pub const CHIP_STATUS: &'static str = "Active";

/// An icon that does not show a percentage.
#[derive(Debug, Clone, Copy, PartialEq, Eq, Structural)]
pub enum StaticIcon {
    Normal,
    Throttled,
    Error,
    Offline,
}

impl StaticIcon {
    /// The icon's name, part of its file name.
    pub open spec fn title(self) -> Seq<char> {
        match self {
            StaticIcon::Normal => "normal"@,
            StaticIcon::Throttled => "throttled"@,
            StaticIcon::Error => "error"@,
            StaticIcon::Offline => "offline"@,
        }
    }

    /// The icon's name, part of its file name.
    pub fn name(self) -> (r: &'static str)
        ensures
            r@ == self.title(),
    {
        match self {
            StaticIcon::Normal => "normal",
            StaticIcon::Throttled => "throttled",
            StaticIcon::Error => "error",
            StaticIcon::Offline => "offline",
        }
    }
}

/// The icon of a chip.
#[derive(Debug, Clone, Copy, PartialEq, Eq, Structural)]
pub enum ChipIcon {
    Static(StaticIcon),
    /// The ring at a percentage; hosts without SVG get its pixels.
    Ring { pct: i64, bucket: Bucket },
}

/// The chip in the panel.
#[derive(Debug)]
pub struct Chip {
    pub icon: ChipIcon,
    /// Shown on hovering and read out to those who do not see the icon.
    pub tip: String,
}

/// Path of the file that holds an icon, below `dir`.
pub open spec fn icon_path(dir: Seq<char>, icon: ChipIcon, hash: u64) -> Seq<char> {
    joined(
        dir,
        match icon {
            ChipIcon::Static(s) => static_file(s.title(), hash),
            ChipIcon::Ring { pct, bucket } => ring_file(pct as int, hash),
        },
    )
}

/// The file that holds an icon, and its contents where it has to be written:
/// static icons are there from the start.
pub fn icon_file(dir: &str, icon: ChipIcon, colors: &RingColors) -> (r: (String, Option<SvgFile>))
    ensures
        r.0@ == icon_path(dir@, icon, colors.cached_hash),
        match icon {
            ChipIcon::Static(s) => r.1 is None,
            ChipIcon::Ring { pct, bucket } => r.1 matches Some(f) && f.path@ == r.0@ && f.svg@
                == ring_svg(pct as int, dot_color(bucket, *colors), colors.outer@),
        },
{
    match icon {
        ChipIcon::Static(s) => (static_svg_path(dir, s.name(), colors), None),
        ChipIcon::Ring { pct, bucket } => {
            let file = write_ring_svg(dir, pct, bucket, colors);
            (file.path.clone(), Some(file))
        },
    }
}

/// The chip before the first poll.
pub fn render_initial(cfg: &Config) -> (r: Chip)
    ensures
        r.icon == ChipIcon::Static(StaticIcon::Normal),
        r.tip@ == cfg.label@,
{
    Chip { icon: ChipIcon::Static(StaticIcon::Normal), tip: cfg.label.clone() }
}

/// The chip while the network is down.
pub fn offline_chip(cfg: &Config) -> (r: Chip)
    ensures
        r.icon == ChipIcon::Static(StaticIcon::Offline),
        r.tip@ == cfg.label@ + " — offline"@,
{
    Chip {
        icon: ChipIcon::Static(StaticIcon::Offline),
        tip: cfg.label.clone().concat(" — offline"),
    }
}

/// The chip of an error without data to show.
pub fn error_chip(cfg: &Config) -> (r: Chip)
    ensures
        r.icon == ChipIcon::Static(StaticIcon::Error),
        r.tip@ == cfg.label@ + " — stale data"@,
{
    Chip {
        icon: ChipIcon::Static(StaticIcon::Error),
        tip: cfg.label.clone().concat(" — stale data"),
    }
}

/// Whether a window is used up.
pub open spec fn any_exhausted(windows: Seq<Window>) -> bool {
    exists|i: int| 0 <= i < windows.len() && (#[trigger] windows[i]).remaining_pct <= 0
}

/// The icon of old data: exhaustion where any window is used up, else the ring
/// of the first window, else the error icon.
pub open spec fn stale_icon(windows: Seq<Window>, yellow: int) -> ChipIcon {
    if any_exhausted(windows) {
        ChipIcon::Static(StaticIcon::Throttled)
    } else if windows.len() > 0 {
        ChipIcon::Ring {
            pct: windows[0].remaining_pct,
            bucket: bucket(windows[0].remaining_pct as int, false, yellow, false),
        }
    } else {
        ChipIcon::Static(StaticIcon::Error)
    }
}

/// The percentage of the first window, 0 where there is none.
pub open spec fn first_pct(windows: Seq<Window>) -> int {
    if windows.len() > 0 {
        windows[0].remaining_pct as int
    } else {
        0
    }
}

/// The chip of an error with old data to show.
pub fn stale_chip(cfg: &Config, windows: &Vec<Window>) -> (r: Chip)
    ensures
        r.icon == stale_icon(windows@, cfg.thresholds.yellow as int),
        r.tip@ == cfg.label@ + " — stale data ("@ + decimal(first_pct(windows@)) + "%)"@,
{
    let mut exhausted = false;
    let mut i: usize = 0;
    while i < windows.len()
        invariant
            i <= windows.len(),
            exhausted == exists|j: int|
                0 <= j < i && (#[trigger] windows@[j]).remaining_pct <= 0,
        decreases windows.len() - i,
    {
        if windows[i].remaining_pct <= 0 {
            exhausted = true;
        }
        i += 1;
    }
    assert(exhausted == any_exhausted(windows@));
    let icon = if exhausted {
        ChipIcon::Static(StaticIcon::Throttled)
    } else if windows.len() > 0 {
        let pct: i64 = windows[0].remaining_pct;
        ChipIcon::Ring { pct, bucket: bucket_for(pct, false, cfg.thresholds.yellow, None) }
    } else {
        ChipIcon::Static(StaticIcon::Error)
    };
    let pct: i64 = if windows.len() > 0 {
        windows[0].remaining_pct
    } else {
        0
    };
    let mut tip = cfg.label.clone().concat(" — stale data (");
    push_i64(&mut tip, pct);
    tip.append("%)");
    Chip { icon, tip }
}

/// The icon of fresh data.
pub open spec fn fresh_icon(pct: i64, yellow: int, runs_out: bool) -> ChipIcon {
    let b = bucket(pct as int, false, yellow, runs_out);
    match b {
        Bucket::Throttled => ChipIcon::Static(StaticIcon::Throttled),
        _ => ChipIcon::Ring { pct, bucket: b },
    }
}

/// The chip of fresh data: the first window's ring, or exhaustion.
pub fn fresh_chip(cfg: &Config, pct: i64, burn: Option<&BurnResult>) -> (r: Chip)
    ensures
        r.icon == fresh_icon(pct, cfg.thresholds.yellow as int, crate::icon::runs_out(burn)),
        r.tip@ == cfg.label@ + " — "@ + decimal(pct as int) + "% remaining"@,
{
    let bucket = bucket_for(pct, false, cfg.thresholds.yellow, burn);
    let icon = match bucket {
        Bucket::Throttled => ChipIcon::Static(StaticIcon::Throttled),
        _ => ChipIcon::Ring { pct, bucket },
    };
    let mut tip = cfg.label.clone().concat(" — ");
    push_i64(&mut tip, pct);
    tip.append("% remaining");
    Chip { icon, tip }
}

// ---------------------------------------------------------------------------
// The menu
// ---------------------------------------------------------------------------

/// Time from `at` to `now`, within `i64`.
pub fn since(at: i64, now: i64) -> (r: i64)
    ensures
        r == saturated(now - at),
{
    let d: i128 = now as i128 - at as i128;
    if d > i64::MAX as i128 {
        i64::MAX
    } else if d < i64::MIN as i128 {
        i64::MIN
    } else {
        d as i64
    }
}

/// Time until a reset: nothing where it is past.
pub open spec fn time_left(reset_at: int, now: int) -> int {
    if saturated(reset_at - now) < 0 {
        0
    } else {
        saturated(reset_at - now)
    }
}

/// What is added to the rows of old data.
pub open spec fn age_note(stale: bool, age: int) -> Seq<char> {
    if stale && age > 0 {
        " · last update "@ + age_text(age) + " ago"@
    } else {
        ""@
    }
}

/// The label row of a window: a window of old data is marked as stale, and behind
/// the mark stands its age.
pub open spec fn label_row(w: Window, now: int, stale: bool, age: int) -> Seq<char> {
    window_text(w.id@, w.remaining_pct as int, time_left(w.reset_at as int, now)) + stale_note(
        stale,
    ) + age_note(stale, age)
}

/// The cost that is shown behind a burn rate: half of the tokens count as
/// prompt, half as completion.
pub open spec fn row_cost(w: Window, b: Burn, table: Option<PriceTable>) -> Option<Seq<char>> {
    match table {
        Some(t) => cost_fragment(priced(t, opt_view(w.model)), Some(b.rate), Some((1, 2))),
        None => None,
    }
}

/// The burn row of a window, where it has a projection.
pub open spec fn projection_row(w: Window, b: Option<Burn>, table: Option<PriceTable>) -> Option<
    Seq<char>,
> {
    match b {
        Some(burn) => Some(
            burn_text(burn, opt_view(w.count_unit), opt_view(w.currency), row_cost(w, burn, table)),
        ),
        None => None,
    }
}

/// Windows with their projections, as mathematical values.
pub open spec fn projected(pairs: Seq<(&Window, Option<&BurnResult>)>) -> Seq<
    (Window, Option<Burn>),
> {
    Seq::new(
        pairs.len(),
        |i: int|
            (
                *pairs[i].0,
                match pairs[i].1 {
                    Some(b) => Some(b@),
                    None => None,
                },
            ),
    )
}

/// The label rows of windows.
pub open spec fn label_rows(
    pairs: Seq<(Window, Option<Burn>)>,
    now: int,
    stale: bool,
    age: int,
) -> Seq<Seq<char>> {
    Seq::new(pairs.len(), |i: int| label_row(pairs[i].0, now, stale, age))
}

/// The bars of windows.
pub open spec fn bar_rows(pairs: Seq<(Window, Option<Burn>)>) -> Seq<Seq<char>> {
    Seq::new(pairs.len(), |i: int| bar_text(pairs[i].0.remaining_pct as int))
}

/// The burn rows of windows.
pub open spec fn burn_rows(
    pairs: Seq<(Window, Option<Burn>)>,
    table: Option<PriceTable>,
) -> Seq<Option<Seq<char>>> {
    Seq::new(pairs.len(), |i: int| projection_row(pairs[i].0, pairs[i].1, table))
}

/// The text of the throttled row.
pub open spec fn throttled_text(stale: bool) -> Seq<char> {
    if stale {
        "  ⚠ Throttled (stale)"@
    } else {
        "  ⚠ Throttled"@
    }
}

/// The text of the error row; empty where there is no error.
pub open spec fn error_text(error: Option<Seq<char>>, stale: bool) -> Seq<char> {
    match error {
        Some(msg) => "  ⚠ Error: "@ + msg + (if stale {
            " (showing cached data)"@
        } else {
            ""@
        }),
        None => ""@,
    }
}

/// A menu with a plan in its header.
pub open spec fn headed(m: Menu, label: Seq<char>) -> Menu {
    put_row(m, HEADER_ID, "Plan: "@ + label, m.items[HEADER_ID].visible)
}

/// The menu of a poll.
pub open spec fn menu_of(
    label: Seq<char>,
    pairs: Seq<(Window, Option<Burn>)>,
    error: Option<Seq<char>>,
    stale: bool,
    age: int,
    throttled: bool,
    table: Option<PriceTable>,
    now: int,
) -> Menu {
    let rows = rebuilt(
        headed(initial_menu(), label),
        label_rows(pairs, now, stale, age),
        bar_rows(pairs),
        burn_rows(pairs, table),
    );
    put_row(
        put_row(rows, THROTTLED_ID, throttled_text(stale), throttled && !stale),
        ERROR_ID,
        error_text(error, stale),
        error is Some,
    )
}

/// An optional table as a value.
pub open spec fn table_value(table: Option<&PriceTable>) -> Option<PriceTable> {
    match table {
        Some(t) => Some(*t),
        None => None,
    }
}

/// Half, the share of prompt tokens that costs are computed with.
fn half() -> (r: Ratio)
    ensures
        r.num() == 1,
        r.den() == 2,
{
    Ratio::new(Integer::from_u64(1), Integer::from_u64(2))
}

fn projection_label(w: &Window, burn: Option<&BurnResult>, table: Option<&PriceTable>) -> (r:
    Option<String>)
    ensures
        opt_view(r) == projection_row(
            *w,
            match burn {
                Some(b) => Some(b@),
                None => None,
            },
            table_value(table),
        ),
{
    match burn {
        Some(b) => {
            let cost = match table {
                Some(t) => {
                    let share = half();
                    cost_per_hour(t, opt_str(&w.model), Some(&b.rate_per_hour), Some(&share))
                },
                None => None,
            };
            Some(
                burn_row_label(
                    b,
                    opt_str(&w.count_unit),
                    opt_str(&w.currency),
                    opt_str(&cost),
                ),
            )
        },
        None => None,
    }
}

/// The menu of a poll: a header, three rows per window, and the throttled and
/// error rows where they apply. `age_ms` is the age of old data; a price table
/// adds costs to the burn rows.
pub fn build_menu_state(
    plan_label: &str,
    windows: &[(&Window, Option<&BurnResult>)],
    error: Option<&str>,
    stale: bool,
    age_ms: i64,
    throttled: bool,
    price_table: Option<&PriceTable>,
    now_ms: i64,
) -> (r: MenuInner)
    requires
        windows@.len() <= MAX_SLOTS,
    ensures
        r.wf(),
        r@ == menu_of(
            plan_label@,
            projected(windows@),
            opt_str_view(error),
            stale,
            age_ms as int,
            throttled,
            table_value(price_table),
            now_ms as int,
        ),
{
    let mut m = MenuInner::new();
    m.set_header("Plan: ".to_owned().concat(plan_label).as_str());
    let mut labels: Vec<String> = Vec::new();
    let mut bars: Vec<String> = Vec::new();
    let mut burns: Vec<Option<String>> = Vec::new();
    let note = if stale && age_ms > 0 {
        " · last update ".to_owned().concat(fmt_age(age_ms).as_str()).concat(" ago")
    } else {
        "".to_owned()
    };
    let mut i: usize = 0;
    while i < windows.len()
        invariant
            i <= windows@.len(),
            note@ == age_note(stale, age_ms as int),
            labels@.len() == i,
            bars@.len() == i,
            burns@.len() == i,
            forall|j: int|
                0 <= j < i ==> (#[trigger] labels@[j])@ == label_row(
                    *windows@[j].0,
                    now_ms as int,
                    stale,
                    age_ms as int,
                ),
            forall|j: int|
                0 <= j < i ==> (#[trigger] bars@[j])@ == bar_text(
                    windows@[j].0.remaining_pct as int,
                ),
            forall|j: int|
                0 <= j < i ==> opt_view(#[trigger] burns@[j]) == projection_row(
                    *windows@[j].0,
                    projected(windows@)[j].1,
                    table_value(price_table),
                ),
        decreases windows@.len() - i,
    {
        let w = windows[i].0;
        let left: i64 = since(now_ms, w.reset_at);
        let resets_in: i64 = if left < 0 {
            0
        } else {
            left
        };
        labels.push(
            window_label(w.id.as_str(), w.remaining_pct, resets_in, stale).concat(note.as_str()),
        );
        bars.push(bar_markup(w.remaining_pct));
        burns.push(projection_label(w, windows[i].1, price_table));
        i += 1;
    }
    let ghost pairs = projected(windows@);
    assert(texts(labels@) =~= label_rows(pairs, now_ms as int, stale, age_ms as int));
    assert(texts(bars@) =~= bar_rows(pairs));
    assert(opt_texts(burns@) =~= burn_rows(pairs, table_value(price_table)));
    m.rebuild_window_rows(labels.as_slice(), bars.as_slice(), burns.as_slice());
    if stale {
        m.set_throttled("  ⚠ Throttled (stale)", false);
    } else {
        m.set_throttled("  ⚠ Throttled", throttled);
    }
    match error {
        Some(msg) => {
            let mut text = "  ⚠ Error: ".to_owned().concat(msg);
            if stale {
                text.append(" (showing cached data)");
            } else {
                text.append("");
            }
            m.set_error(text.as_str(), true);
        },
        None => m.set_error("", false),
    }
    m
}

/// The menu of an error without data to show.
pub open spec fn error_menu_of(label: Seq<char>, msg: Seq<char>) -> Menu {
    put_row(headed(initial_menu(), label), ERROR_ID, "  ⚠ Error: "@ + msg, true)
}

/// The menu of an error without data to show: a header and the error row.
pub fn build_error_menu_state(plan_label: &str, msg: &str) -> (r: MenuInner)
    ensures
        r.wf(),
        r@ == error_menu_of(plan_label@, msg@),
{
    let mut m = MenuInner::new();
    m.set_header("Plan: ".to_owned().concat(plan_label).as_str());
    m.set_error("  ⚠ Error: ".to_owned().concat(msg).as_str(), true);
    m
}

/// Puts a freshly built menu in place of the live one.
pub fn install_menu_into(target: &mut MenuInner, source: MenuInner)
    requires
        old(target).wf(),
        source.wf(),
    ensures
        final(target).wf(),
        final(target)@ == installed(old(target)@, source@),
{
    target.install(source);
}

/// What a poll does to the live menu.
#[derive(Debug)]
pub enum MenuChange {
    /// It stays.
    Keep,
    /// It says that the network is down, above what it showed.
    Offline,
    /// A freshly built one takes its place.
    Install(MenuInner),
}

/// The live menu while the network is down: old rows stay.
pub open spec fn offline_menu(m: Menu) -> Menu {
    put_row(
        put_row(m, HEADER_ID, "Plan: …"@, m.items[HEADER_ID].visible),
        ERROR_ID,
        "  ⚠ Offline — local network unavailable (showing cached data)"@,
        true,
    )
}

impl MenuChange {
    /// Whether a change can be applied.
    pub open spec fn wf(&self) -> bool {
        match *self {
            MenuChange::Install(m) => m.wf(),
            _ => true,
        }
    }

    /// The live menu after the change.
    pub open spec fn result(&self, live: Menu) -> Menu {
        match *self {
            MenuChange::Keep => live,
            MenuChange::Offline => offline_menu(live),
            MenuChange::Install(m) => installed(live, m@),
        }
    }

    /// Changes the live menu.
    pub fn apply(self, live: &mut MenuInner)
        requires
            old(live).wf(),
            self.wf(),
        ensures
            final(live).wf(),
            final(live)@ == self.result(old(live)@),
    {
        match self {
            MenuChange::Keep => {},
            MenuChange::Offline => {
                live.set_header("Plan: …");
                live.set_error(
                    "  ⚠ Offline — local network unavailable (showing cached data)",
                    true,
                );
            },
            MenuChange::Install(m) => install_menu_into(live, m),
        }
    }
}

// ---------------------------------------------------------------------------
// Laws
// ---------------------------------------------------------------------------

/// The icon of fresh data is the ring at the window's percentage, in the warning state
/// where the yellow threshold is reached or the quota runs out early, and the throttled
/// icon where nothing is left.
pub proof fn law_fresh_icon_is_the_ring(pct: i64, yellow: int, runs_out: bool)
    ensures
        pct <= 0 ==> fresh_icon(pct, yellow, runs_out) == ChipIcon::Static(StaticIcon::Throttled),
        pct > 0 && (100 - pct >= yellow || runs_out) ==> fresh_icon(pct, yellow, runs_out) == (
        ChipIcon::Ring { pct, bucket: Bucket::Warning }),
        pct > 0 && 100 - pct < yellow && !runs_out ==> fresh_icon(pct, yellow, runs_out) == (
        ChipIcon::Ring { pct, bucket: Bucket::Normal }),
{
}

/// The icon of old data is the throttled one where any window has nothing left, else
/// the first window's ring, without regard to projections; without windows it is the
/// error icon.
pub proof fn law_stale_icon_shows_the_worst(windows: Seq<Window>, yellow: int, i: int)
    ensures
        windows.len() == 0 ==> stale_icon(windows, yellow) == ChipIcon::Static(StaticIcon::Error),
        0 <= i < windows.len() && windows[i].remaining_pct <= 0 ==> stale_icon(windows, yellow)
            == ChipIcon::Static(StaticIcon::Throttled),
        windows.len() > 0 && (forall|k: int|
            0 <= k < windows.len() ==> (#[trigger] windows[k]).remaining_pct > 0) ==> stale_icon(
            windows,
            yellow,
        ) == (ChipIcon::Ring {
            pct: windows[0].remaining_pct,
            bucket: if 100 - windows[0].remaining_pct >= yellow {
                Bucket::Warning
            } else {
                Bucket::Normal
            },
        }),
        windows.len() > 0 ==> first_pct(windows) == windows[0].remaining_pct,
        windows.len() == 0 ==> first_pct(windows) == 0,
{
}

/// The icons have files of their own names below the directory.
pub proof fn law_icons_have_their_files(dir: Seq<char>, pct: i64, bucket: Bucket, hash: u64)
    ensures
        icon_path(dir, ChipIcon::Ring { pct, bucket }, hash) == joined(
            dir,
            ring_file(pct as int, hash),
        ),
        icon_path(dir, ChipIcon::Static(StaticIcon::Normal), hash) == joined(
            dir,
            static_file("normal"@, hash),
        ),
        icon_path(dir, ChipIcon::Static(StaticIcon::Throttled), hash) == joined(
            dir,
            static_file("throttled"@, hash),
        ),
        icon_path(dir, ChipIcon::Static(StaticIcon::Error), hash) == joined(
            dir,
            static_file("error"@, hash),
        ),
        icon_path(dir, ChipIcon::Static(StaticIcon::Offline), hash) == joined(
            dir,
            static_file("offline"@, hash),
        ),
{
}

/// The menu of a poll names the plan, shows for every window its label row, its bar and
/// its burn row, in order, hides the burn row where there is no projection, shows the
/// throttled row where fresh data has nothing left, and the error row exactly where
/// there is an error.
pub proof fn law_menu_shows_what_was_polled(
    label: Seq<char>,
    pairs: Seq<(Window, Option<Burn>)>,
    error: Option<Seq<char>>,
    stale: bool,
    age: int,
    throttled: bool,
    table: Option<PriceTable>,
    now: int,
    i: int,
)
    requires
        0 <= i < pairs.len() <= MAX_SLOTS,
    ensures
        ({
            let m = menu_of(label, pairs, error, stale, age, throttled, table, now).items;
            let (w, b) = pairs[i];
            let left = crate::ratio::saturated(w.reset_at - now);
            let shown_left = if left < 0 {
                0
            } else {
                left
            };
            let id = if i < 33 {
                100 + 3 * i
            } else {
                208 + 3 * i
            };
            let base = window_text(w.id@, w.remaining_pct as int, shown_left);
            &&& m[1].label == "Plan: "@ + label && m[1].visible
            &&& m[id as i32].visible
            &&& !stale ==> m[id as i32].label == base
            &&& stale && age <= 0 ==> m[id as i32].label == base + " (stale)"@
            &&& stale && age > 0 ==> m[id as i32].label == base + " (stale)"@ + (
            " · last update "@ + age_text(age) + " ago"@)
            &&& m[(id + 1) as i32].visible && m[(id + 1) as i32].label == bar_text(
                w.remaining_pct as int,
            )
            &&& m[(id + 2) as i32].visible == (b is Some)
            &&& b matches Some(burn) ==> (table is None ==> m[(id + 2) as i32].label == burn_text(
                burn,
                opt_view(w.count_unit),
                opt_view(w.currency),
                None,
            ))
            &&& b matches Some(burn) ==> (table matches Some(t) ==> m[(id + 2) as i32].label
                == burn_text(
                burn,
                opt_view(w.count_unit),
                opt_view(w.currency),
                cost_fragment(priced(t, opt_view(w.model)), Some(burn.rate), Some((1, 2))),
            ))
            &&& m[200].visible == (throttled && !stale)
            &&& !stale ==> m[200].label == "  ⚠ Throttled"@
            &&& stale ==> m[200].label == "  ⚠ Throttled (stale)"@
            &&& m[210].visible == (error is Some)
            &&& error matches Some(e) ==> m[210].label == (if stale {
                "  ⚠ Error: "@ + e + " (showing cached data)"@
            } else {
                "  ⚠ Error: "@ + e
            })
        }),
{
    reveal_strlit("");
    assert(""@ =~= Seq::<char>::empty());
    crate::menu::lemma_initial_wf();
    let h = headed(initial_menu(), label);
    assert(crate::menu::menu_wf(h));
    let labels = label_rows(pairs, now, stale, age);
    let bars = bar_rows(pairs);
    let burns = burn_rows(pairs, table);
    crate::menu::law_rebuild_shows_exactly_the_windows(h, labels, bars, burns);
    let r = rebuilt(h, labels, bars, burns);
    assert(crate::menu::window_reads(r.items, labels, bars, burns, i));
    let (w, b) = pairs[i];
    let base = window_text(w.id@, w.remaining_pct as int, time_left(w.reset_at as int, now));
    assert(base + Seq::<char>::empty() + Seq::<char>::empty() =~= base);
    assert(base + " (stale)"@ + Seq::<char>::empty() =~= base + " (stale)"@);
    assert(crate::menu::is_fixed(HEADER_ID) && crate::menu::is_fixed(THROTTLED_ID)
        && crate::menu::is_fixed(ERROR_ID)) by {
        let t = crate::menu::fixed_tail();
        assert(t[0] == THROTTLED_ID && t[1] == ERROR_ID);
    }
    assert(r.items[HEADER_ID] == h.items[HEADER_ID]);
    if let Some(e) = error {
        assert("  ⚠ Error: "@ + e + Seq::<char>::empty() =~= "  ⚠ Error: "@ + e);
    }
}

/// The menu of an error without data names the plan and shows the error alone.
pub proof fn law_error_menu_shows_the_error(label: Seq<char>, msg: Seq<char>)
    ensures
        ({
            let m = error_menu_of(label, msg);
            &&& m.slots == 0
            &&& m.items[1].label == "Plan: "@ + label && m.items[1].visible
            &&& m.items[210].label == "  ⚠ Error: "@ + msg && m.items[210].visible
            &&& !m.items[200].visible
        }),
{
}

/// While the network is down the menu keeps its rows and says so above them: the header
/// is shown as before, and the two rows whose labels change stay the items they were.
/// This, like keeping the menu, can be done at any time.
pub proof fn law_offline_menu_keeps_its_rows(m: Menu, id: i32)
    requires
        m.items.contains_key(1),
        m.items.contains_key(210),
    ensures
        ({
            let r = MenuChange::Offline.result(m);
            &&& id != 1 && id != 210 ==> r.items[id] == m.items[id]
            &&& r.items[210].visible
            &&& r.items[210].label
                == "  ⚠ Offline — local network unavailable (showing cached data)"@
            &&& r.items[1].label == "Plan: …"@
            &&& r.items[1].visible == m.items[1].visible
            &&& id == 1 || id == 210 ==> {
                &&& r.items[id].id == m.items[id].id
                &&& r.items[id].enabled == m.items[id].enabled
                &&& r.items[id].separator == m.items[id].separator
                &&& r.items[id].action == m.items[id].action
            }
            &&& r.items.dom() =~= m.items.dom()
            &&& r.slots == m.slots
        }),
        MenuChange::Keep.result(m) == m,
        MenuChange::Keep.wf() && MenuChange::Offline.wf(),
{
}

} // verus!
