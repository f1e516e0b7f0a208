//! One poll, from the decision to make it to what it shows and when the next one
//! is due.
//!
//! A poll asks the keyring, the provider and, where it is due, the price list.
//! None of them is asked here. Each function below takes the answer to one
//! question and decides what comes next.
use crate::burn::{burn_row, burn_view, decide_burn_row, Burn, BurnResult, Sample, Window};
use crate::config::Config;
use crate::menu::MAX_SLOTS;
use crate::notify::{Notification, Urgency};
use crate::pricing::PriceTable;
use crate::ratio::saturated;
use crate::render::{
    build_error_menu_state, build_menu_state, error_chip, error_menu_of, fresh_chip, fresh_icon,
    menu_of, offline_chip, projected, since, stale_chip, stale_icon, Chip, ChipIcon, MenuChange,
    StaticIcon,
};
use crate::scheduler::{interval, next_interval};
use crate::state::{
    clear_force_refresh_state, is_screen_locked, level, millis, polls_after,
    pricing_refresh_artifact, prices_due, rank_of, sampled, short_circuit_interval, to_millis,
    AppState, BucketRank, Histories,
};
use crate::text::{decimal, opt_view, push_i64};
use vstd::prelude::*;

verus! {

/// Seconds that the keyring is waited for.
pub const KEY_PROBE_SECONDS: u64 = 2;

/// Seconds that the price list is waited for.
pub const PRICING_FETCH_SECONDS: u64 = 10;

/// What a poll leaves behind.
#[derive(Debug)]
pub struct Outcome {
    /// The new chip; the old one stays where there is none.
    pub chip: Option<Chip>,
    pub menu: MenuChange,
    pub notification: Option<Notification>,
    /// Milliseconds until the next poll.
    pub interval_ms: u64,
}

// ---------------------------------------------------------------------------
// Gates
// ---------------------------------------------------------------------------

/// What a poll does first.
#[derive(Debug)]
pub enum Begin {
    /// Ask the keyring for the key.
    ProbeKey,
    /// Nothing more: the poll is over.
    Finish(Outcome),
}

/// Whether an outcome shows that the network is down.
pub open spec fn is_offline_outcome(o: Outcome, cfg: Config) -> bool {
    &&& o.chip matches Some(c) && c.icon == ChipIcon::Static(StaticIcon::Offline) && c.tip@
        == cfg.label@ + " — offline"@
    &&& o.menu == MenuChange::Offline
    &&& o.notification is None
    &&& o.interval_ms == millis(cfg.refresh_seconds as int)
}

/// Whether an outcome leaves everything as it is.
pub open spec fn is_skipped_outcome(o: Outcome, cfg: Config) -> bool {
    &&& o.chip is None
    &&& o.menu == MenuChange::Keep
    &&& o.notification is None
    &&& o.interval_ms == millis(cfg.refresh_seconds as int)
}

/// Begins a poll: without a network, or behind a locked screen, there is none.
pub fn begin(cfg: &Config, state: &AppState) -> (r: Begin)
    ensures
        match r {
            Begin::Finish(o) => if state.offline {
                is_offline_outcome(o, *cfg)
            } else {
                state.screen_locked && is_skipped_outcome(o, *cfg)
            },
            Begin::ProbeKey => !state.offline && !state.screen_locked,
        },
{
    if state.offline {
        Begin::Finish(
            Outcome {
                chip: Some(offline_chip(cfg)),
                menu: MenuChange::Offline,
                notification: None,
                interval_ms: short_circuit_interval(cfg),
            },
        )
    } else if is_screen_locked(state) {
        Begin::Finish(
            Outcome {
                chip: None,
                menu: MenuChange::Keep,
                notification: None,
                interval_ms: short_circuit_interval(cfg),
            },
        )
    } else {
        Begin::ProbeKey
    }
}

/// Begins a poll that was asked for: it overrides the failure streak and the
/// belief that the network is down, but not a locked screen.
pub fn force_refresh_now(cfg: &Config, state: &mut AppState) -> (r: Begin)
    ensures
        *final(state) == (AppState { fail_streak: 0, offline: false, ..*old(state) }),
        match r {
            Begin::Finish(o) => old(state).screen_locked && is_skipped_outcome(o, *cfg),
            Begin::ProbeKey => !old(state).screen_locked,
        },
{
    clear_force_refresh_state(state);
    begin(cfg, state)
}

// ---------------------------------------------------------------------------
// The key
// ---------------------------------------------------------------------------

/// What came of asking for the key.
#[derive(Debug)]
pub enum KeyProbe {
    Found(String),
    /// There is none.
    Missing,
    /// The keyring did not answer in time.
    TimedOut,
}

/// What a poll does with the key.
#[derive(Debug)]
pub enum Keyed {
    /// Ask the provider.
    Fetch { api_key: String },
    Finish(Outcome),
}

/// Whether an outcome shows an error without data, and keeps the normal pace.
pub open spec fn is_error_outcome(o: Outcome, cfg: Config, msg: Seq<char>) -> bool {
    &&& o.chip matches Some(c) && c.icon == ChipIcon::Static(StaticIcon::Error) && c.tip@
        == cfg.label@ + " — stale data"@
    &&& o.menu matches MenuChange::Install(m) && m.wf() && m@ == error_menu_of(cfg.label@, msg)
    &&& o.notification is None
    &&& o.interval_ms == millis(cfg.refresh_seconds as int)
}

/// Shows an error without data.
pub fn render_error(cfg: &Config, msg: &str) -> (r: Outcome)
    ensures
        is_error_outcome(r, *cfg, msg@),
{
    Outcome {
        chip: Some(error_chip(cfg)),
        menu: MenuChange::Install(build_error_menu_state(cfg.label.as_str(), msg)),
        notification: None,
        interval_ms: to_millis(cfg.refresh_seconds),
    }
}

/// Goes on with a poll once the keyring was asked.
pub fn on_key(cfg: &Config, state: &AppState, probe: KeyProbe) -> (r: Keyed)
    ensures
        match probe {
            KeyProbe::Found(key) => if state.has_client {
                r == (Keyed::Fetch { api_key: key })
            } else {
                r matches Keyed::Finish(o) && is_error_outcome(
                    o,
                    *cfg,
                    "HTTP client not initialized"@,
                )
            },
            KeyProbe::Missing => r matches Keyed::Finish(o) && is_error_outcome(
                o,
                *cfg,
                "No API key configured"@,
            ),
            KeyProbe::TimedOut => r matches Keyed::Finish(o) && is_error_outcome(
                o,
                *cfg,
                "Secret Service unavailable (keyring not ready) — will retry next refresh"@,
            ),
        },
{
    match probe {
        KeyProbe::Found(api_key) => {
            if state.has_client {
                Keyed::Fetch { api_key }
            } else {
                Keyed::Finish(render_error(cfg, "HTTP client not initialized"))
            }
        },
        KeyProbe::Missing => Keyed::Finish(render_error(cfg, "No API key configured")),
        KeyProbe::TimedOut => Keyed::Finish(
            render_error(
                cfg,
                "Secret Service unavailable (keyring not ready) — will retry next refresh",
            ),
        ),
    }
}

// ---------------------------------------------------------------------------
// The provider's answer
// ---------------------------------------------------------------------------

/// The windows that are remembered; none before the first success.
pub open spec fn remembered(last_good: Option<Vec<Window>>) -> Seq<Window> {
    match last_good {
        Some(w) => w@,
        None => Seq::empty(),
    }
}

/// Whether everything that is remembered fits a menu.
pub open spec fn fits_menu(state: AppState) -> bool {
    remembered(state.last_good).len() <= MAX_SLOTS
}

/// The rank before a poll.
pub open spec fn previous_rank(last_good: Option<Vec<Window>>) -> BucketRank {
    let w = remembered(last_good);
    if w.len() > 0 {
        rank_of(w[0].remaining_pct as int)
    } else {
        BucketRank::NoData
    }
}

/// A successful fetch that is not shown yet.
#[derive(Debug)]
pub struct Fresh {
    pub windows: Vec<Window>,
    pub prev_rank: BucketRank,
}

/// What a poll does with the provider's answer.
#[derive(Debug)]
pub enum Fetched {
    /// Ask for the price list, then show the windows.
    FetchPrices { url: String, fresh: Fresh },
    /// Show the windows.
    Show { fresh: Fresh },
    Finish(Outcome),
}

/// How old the remembered windows are; 0 where there never were any.
pub open spec fn age_of(last_good_at: int, now: int) -> int {
    if last_good_at > 0 {
        saturated(now - last_good_at)
    } else {
        0
    }
}

/// Windows without projections.
pub open spec fn unprojected(windows: Seq<Window>) -> Seq<(Window, Option<Burn>)> {
    Seq::new(windows.len(), |i: int| (windows[i], None))
}

/// Whether an outcome shows an error over old windows, and backs off.
pub open spec fn is_stale_outcome(
    o: Outcome,
    cfg: Config,
    err: Seq<char>,
    windows: Seq<Window>,
    age: int,
    fail_streak: nat,
    now: int,
) -> bool {
    &&& o.chip matches Some(c) && c.icon == stale_icon(windows, cfg.thresholds.yellow as int)
        && c.tip@ == cfg.label@ + " — stale data ("@ + decimal(
        crate::render::first_pct(windows),
    ) + "%)"@
    &&& o.menu matches MenuChange::Install(m) && m.wf() && m@ == menu_of(
        cfg.label@,
        unprojected(windows),
        Some(err),
        true,
        age,
        windows.len() > 0 && windows[0].remaining_pct <= 0,
        None,
        now,
    )
    &&& o.notification is None
    &&& o.interval_ms == millis(
        interval(
            cfg.refresh_seconds as int,
            cfg.refresh_min_seconds as int,
            cfg.refresh_max_backoff_seconds as int,
            100,
            cfg.thresholds.yellow as int,
            cfg.thresholds.red as int,
            fail_streak,
        ),
    )
}

/// Shows an error over old windows. The pace does not depend on how much quota
/// the old windows had left, only on the failures in a row.
pub fn render_error_with_stale(
    cfg: &Config,
    err: &str,
    stale_windows: &Vec<Window>,
    age_ms: i64,
    fail_streak: u32,
    now_ms: i64,
) -> (r: Outcome)
    requires
        stale_windows@.len() <= MAX_SLOTS,
    ensures
        is_stale_outcome(
            r,
            *cfg,
            err@,
            stale_windows@,
            age_ms as int,
            fail_streak as nat,
            now_ms as int,
        ),
{
    let chip = stale_chip(cfg, stale_windows);
    let mut pairs: Vec<(&Window, Option<&BurnResult>)> = Vec::new();
    let mut i: usize = 0;
    while i < stale_windows.len()
        invariant
            i <= stale_windows@.len(),
            projected(pairs@) =~= unprojected(stale_windows@).take(i as int),
        decreases stale_windows@.len() - i,
    {
        let ghost before = projected(pairs@);
        pairs.push((&stale_windows[i], None));
        assert(projected(pairs@) =~= before.push((stale_windows@[i as int], None)));
        i += 1;
    }
    assert(projected(pairs@) =~= unprojected(stale_windows@));
    let throttled = stale_windows.len() > 0 && stale_windows[0].remaining_pct <= 0;
    let menu = build_menu_state(
        cfg.label.as_str(),
        pairs.as_slice(),
        Some(err),
        true,
        age_ms,
        throttled,
        None,
        now_ms,
    );
    Outcome {
        chip: Some(chip),
        menu: MenuChange::Install(menu),
        notification: None,
        interval_ms: to_millis(
            next_interval(
                cfg.refresh_seconds,
                cfg.refresh_min_seconds,
                cfg.refresh_max_backoff_seconds,
                100,
                cfg.thresholds.yellow,
                cfg.thresholds.red,
                fail_streak,
            ),
        ),
    }
}

/// The failures in a row after one more.
pub open spec fn one_more_failure(fail_streak: u32) -> u32 {
    if fail_streak == u32::MAX {
        u32::MAX
    } else {
        (fail_streak + 1) as u32
    }
}

/// What every answer of the provider leaves alone.
pub open spec fn same_surroundings(before: AppState, after: AppState) -> bool {
    &&& after.histories == before.histories
    &&& after.has_client == before.has_client
    &&& after.offline == before.offline
    &&& after.screen_locked == before.screen_locked
    &&& after.price_table == before.price_table
}

/// Whether `r` and `after` are what a fetch of at least one window leads to.
pub open spec fn accepts(
    cfg: Config,
    before: AppState,
    after: AppState,
    windows: Seq<Window>,
    now: i64,
    r: Fetched,
) -> bool {
    let fresh_ok = |f: Fresh|
        f.windows@ == windows && f.prev_rank == previous_rank(before.last_good);
    &&& same_surroundings(before, after)
    &&& after.last_good is Some
    &&& remembered(after.last_good) == windows
    &&& after.last_good_at == now
    &&& after.fail_streak == 0
    &&& after.polls_since_pricing_refresh == (if cfg.pricing_endpoint is None
        || cfg.pricing_refresh_polls is None {
        before.polls_since_pricing_refresh as int
    } else if prices_due(cfg, before) {
        0
    } else {
        polls_after(before)
    })
    &&& if prices_due(cfg, before) && before.has_client {
        r matches Fetched::FetchPrices { url, fresh } && Some(url@) == opt_view(
            cfg.pricing_endpoint,
        ) && fresh_ok(fresh)
    } else {
        r matches Fetched::Show { fresh } && fresh_ok(fresh)
    }
}

/// Whether `r` and `after` are what a failed fetch leads to; `keeps` says whether
/// the old windows stay for the next failure.
pub open spec fn rejects(
    cfg: Config,
    before: AppState,
    after: AppState,
    err: Seq<char>,
    keeps: bool,
    now: int,
    r: Fetched,
) -> bool {
    &&& same_surroundings(before, after)
    &&& after.last_good == (if keeps {
        before.last_good
    } else {
        None
    })
    &&& after.last_good_at == before.last_good_at
    &&& after.fail_streak == one_more_failure(before.fail_streak)
    &&& after.polls_since_pricing_refresh == before.polls_since_pricing_refresh
    &&& r matches Fetched::Finish(o) && is_stale_outcome(
        o,
        cfg,
        err,
        remembered(before.last_good),
        age_of(before.last_good_at as int, now),
        after.fail_streak as nat,
        now,
    )
}

fn copy_windows(windows: &Vec<Window>) -> (r: Vec<Window>)
    ensures
        r@ == windows@,
{
    let mut out: Vec<Window> = Vec::new();
    let mut i: usize = 0;
    while i < windows.len()
        invariant
            i <= windows@.len(),
            out@ =~= windows@.take(i as int),
        decreases windows@.len() - i,
    {
        out.push(windows[i].clone());
        i += 1;
    }
    assert(windows@.take(windows@.len() as int) =~= windows@);
    out
}

fn rank_before(last_good: &Option<Vec<Window>>) -> (r: BucketRank)
    ensures
        r == previous_rank(*last_good),
{
    match last_good {
        Some(w) => if w.len() > 0 {
            BucketRank::from_remaining(w[0].remaining_pct)
        } else {
            BucketRank::NoData
        },
        None => BucketRank::NoData,
    }
}

/// Shows a failed fetch over what is remembered.
fn fail(cfg: &Config, state: &mut AppState, err: &str, keep: bool, now_ms: i64) -> (r: Fetched)
    requires
        fits_menu(*old(state)),
    ensures
        rejects(*cfg, *old(state), *final(state), err@, keep, now_ms as int, r),
{
    state.fail_streak = if state.fail_streak == u32::MAX {
        u32::MAX
    } else {
        state.fail_streak + 1
    };
    let age: i64 = if state.last_good_at > 0 {
        since(state.last_good_at, now_ms)
    } else {
        0
    };
    let outcome = match &state.last_good {
        Some(w) => render_error_with_stale(cfg, err, w, age, state.fail_streak, now_ms),
        None => {
            let none: Vec<Window> = Vec::new();
            render_error_with_stale(cfg, err, &none, age, state.fail_streak, now_ms)
        },
    };
    if !keep {
        state.last_good = None;
    }
    Fetched::Finish(outcome)
}

/// Goes on with a poll once the provider was asked. Windows are remembered and
/// shown; an answer without windows and a failure are shown as an error over the
/// windows remembered from before, which an empty answer then forgets.
pub fn on_fetched(
    cfg: &Config,
    state: &mut AppState,
    result: Result<Vec<Window>, String>,
    now_ms: i64,
) -> (r: Fetched)
    requires
        fits_menu(*old(state)),
        result matches Ok(w) ==> w@.len() <= MAX_SLOTS,
    ensures
        fits_menu(*final(state)),
        match result {
            Ok(w) => if w@.len() > 0 {
                accepts(*cfg, *old(state), *final(state), w@, now_ms, r)
            } else {
                rejects(
                    *cfg,
                    *old(state),
                    *final(state),
                    "API returned no quota windows"@,
                    false,
                    now_ms as int,
                    r,
                )
            },
            Err(e) => rejects(*cfg, *old(state), *final(state), e@, true, now_ms as int, r),
        },
{
    match result {
        Ok(windows) => {
            if windows.len() == 0 {
                return fail(cfg, state, "API returned no quota windows", false, now_ms);
            }
            let prev_rank = rank_before(&state.last_good);
            state.fail_streak = 0;
            state.last_good = Some(copy_windows(&windows));
            state.last_good_at = now_ms;
            let fresh = Fresh { windows, prev_rank };
            match pricing_refresh_artifact(cfg, state) {
                Some(url) => Fetched::FetchPrices { url, fresh },
                None => Fetched::Show { fresh },
            }
        },
        Err(e) => fail(cfg, state, e.as_str(), true, now_ms),
    }
}

// ---------------------------------------------------------------------------
// Showing the windows
// ---------------------------------------------------------------------------

/// A window's history after all windows of a poll were recorded.
pub open spec fn recorded(
    history: Seq<Sample>,
    windows: Seq<Window>,
    id: Seq<char>,
    now: i64,
) -> Seq<Sample>
    decreases windows.len(),
{
    if windows.len() == 0 {
        history
    } else {
        let before = recorded(history, windows.drop_last(), id, now);
        if windows.last().id@ == id {
            sampled(before, windows.last(), now)
        } else {
            before
        }
    }
}

/// The notification of a change of rank: only for the worse, and never for the
/// first rank.
pub open spec fn is_notification(
    n: Option<Notification>,
    cfg: Config,
    prev: BucketRank,
    new: BucketRank,
) -> bool {
    if prev == BucketRank::NoData || level(new) <= level(prev) {
        n is None
    } else {
        match n {
            Some(m) => if new == BucketRank::Throttled {
                &&& m.tag@ == "throttled"@
                &&& m.title@ == cfg.label@ + " — throttled"@
                &&& m.body@ == "Quota exhausted. The menu shows when it resets."@
                &&& m.urgency == Urgency::Critical
            } else {
                &&& m.tag@ == "warning"@
                &&& m.title@ == cfg.label@ + " — running low"@
                &&& m.body@ == "Usage reached "@ + decimal(
                    saturated(100 - cfg.thresholds.yellow),
                ) + "% (threshold: "@ + decimal(cfg.thresholds.yellow as int) + "%)."@
                &&& m.urgency == Urgency::Normal
            },
            None => false,
        }
    }
}

/// The notification of a change of rank, where there is one.
pub fn threshold_notification(cfg: &Config, prev: BucketRank, new: BucketRank) -> (r: Option<
    Notification,
>)
    requires
        new != BucketRank::NoData,
    ensures
        is_notification(r, *cfg, prev, new),
{
    match prev {
        BucketRank::NoData => return None,
        _ => {},
    }
    if !new.worse_than(prev) {
        return None;
    }
    match new {
        BucketRank::Throttled => Some(
            Notification {
                tag: "throttled",
                title: cfg.label.clone().concat(" — throttled"),
                body: "Quota exhausted. The menu shows when it resets.".to_owned(),
                urgency: Urgency::Critical,
            },
        ),
        _ => {
            let mut body = "Usage reached ".to_owned();
            push_i64(&mut body, since(cfg.thresholds.yellow, 100));
            body.append("% (threshold: ");
            push_i64(&mut body, cfg.thresholds.yellow);
            body.append("%).");
            Some(
                Notification {
                    tag: "warning",
                    title: cfg.label.clone().concat(" — running low"),
                    body,
                    urgency: Urgency::Normal,
                },
            )
        },
    }
}

/// The price table in use once a poll has asked for a new one.
pub open spec fn prices_in_use(before: Option<PriceTable>, new: Option<PriceTable>) -> Option<
    PriceTable,
> {
    match new {
        Some(t) => Some(t),
        None => before,
    }
}

/// The projection that a window's row shows.
pub open spec fn shown_burn(w: Window, histories: Histories, cfg: Config, now: int) -> Option<
    Burn,
> {
    burn_row(Some(w), histories.of(w.id@), now, cfg.burn_warning)
}

/// Windows, each with the projection that its row shows.
pub open spec fn shown_pairs(
    windows: Seq<Window>,
    histories: Histories,
    cfg: Config,
    now: int,
) -> Seq<(Window, Option<Burn>)> {
    Seq::new(windows.len(), |i: int| (windows[i], shown_burn(windows[i], histories, cfg, now)))
}

/// Whether an outcome shows fresh windows.
pub open spec fn is_fresh_outcome(
    o: Outcome,
    cfg: Config,
    fresh: Fresh,
    state: AppState,
    now: int,
) -> bool {
    let pct = fresh.windows@[0].remaining_pct;
    let first = shown_burn(fresh.windows@[0], state.histories, cfg, now);
    &&& o.chip matches Some(c) && c.icon == fresh_icon(
        pct,
        cfg.thresholds.yellow as int,
        first is Some && first->0.exhaust_before_reset,
    ) && c.tip@ == cfg.label@ + " — "@ + decimal(pct as int) + "% remaining"@
    &&& o.menu matches MenuChange::Install(m) && m.wf() && m@ == menu_of(
        cfg.label@,
        shown_pairs(fresh.windows@, state.histories, cfg, now),
        None,
        false,
        saturated(now - state.last_good_at),
        pct <= 0,
        state.price_table,
        now,
    )
    &&& is_notification(o.notification, cfg, fresh.prev_rank, rank_of(pct as int))
    &&& o.interval_ms == millis(
        interval(
            cfg.refresh_seconds as int,
            cfg.refresh_min_seconds as int,
            cfg.refresh_max_backoff_seconds as int,
            pct as int,
            cfg.thresholds.yellow as int,
            cfg.thresholds.red as int,
            0,
        ),
    )
}

/// Records what a poll saw of its windows.
fn record_all(histories: Histories, windows: &Vec<Window>, now_ms: i64) -> (r: Histories)
    ensures
        forall|id: Seq<char>| #[trigger]
            r.of(id) == recorded(histories.of(id), windows@, id, now_ms),
{
    let ghost before = histories;
    let mut h = histories;
    let mut i: usize = 0;
    assert(windows@.take(0) =~= Seq::<Window>::empty());
    while i < windows.len()
        invariant
            i <= windows@.len(),
            forall|id: Seq<char>| #[trigger]
                h.of(id) == recorded(before.of(id), windows@.take(i as int), id, now_ms),
        decreases windows@.len() - i,
    {
        let ghost prev = h;
        h = h.record(&windows[i], now_ms);
        proof {
            assert(windows@.take(i + 1).drop_last() =~= windows@.take(i as int));
            assert forall|id: Seq<char>| #[trigger] h.of(id) == recorded(
                before.of(id),
                windows@.take(i + 1),
                id,
                now_ms,
            ) by {
                assert(prev.of(id) == recorded(before.of(id), windows@.take(i as int), id, now_ms));
            }
        }
        i += 1;
    }
    assert(windows@.take(windows@.len() as int) =~= windows@);
    h
}

/// The projections of windows, from their own histories.
fn project_all(windows: &Vec<Window>, histories: &Histories, cfg: &Config, now_ms: i64) -> (r: Vec<
    Option<BurnResult>,
>)
    ensures
        r@.len() == windows@.len(),
        forall|i: int|
            0 <= i < r@.len() ==> burn_view(#[trigger] r@[i]) == shown_burn(
                windows@[i],
                *histories,
                *cfg,
                now_ms as int,
            ),
{
    let mut out: Vec<Option<BurnResult>> = Vec::new();
    let mut i: usize = 0;
    while i < windows.len()
        invariant
            i <= windows@.len(),
            out@.len() == i,
            forall|j: int|
                0 <= j < i ==> burn_view(#[trigger] out@[j]) == shown_burn(
                    windows@[j],
                    *histories,
                    *cfg,
                    now_ms as int,
                ),
        decreases windows@.len() - i,
    {
        let history = histories.get(windows[i].id.as_str());
        out.push(
            decide_burn_row(Some(&windows[i]), history.as_slice(), now_ms, &cfg.burn_warning),
        );
        i += 1;
    }
    out
}

/// Ends a poll that got windows: they are recorded, projected and shown.
/// `table` is the price list, where one was asked for and came.
pub fn show(
    cfg: &Config,
    state: &mut AppState,
    fresh: &Fresh,
    table: Option<PriceTable>,
    now_ms: i64,
) -> (r: Outcome)
    requires
        0 < fresh.windows@.len() <= MAX_SLOTS,
    ensures
        final(state).last_good == old(state).last_good,
        final(state).last_good_at == old(state).last_good_at,
        final(state).fail_streak == old(state).fail_streak,
        final(state).has_client == old(state).has_client,
        final(state).offline == old(state).offline,
        final(state).screen_locked == old(state).screen_locked,
        final(state).polls_since_pricing_refresh == old(state).polls_since_pricing_refresh,
        final(state).price_table == prices_in_use(old(state).price_table, table),
        forall|id: Seq<char>| #[trigger]
            final(state).histories.of(id) == recorded(
                old(state).histories.of(id),
                fresh.windows@,
                id,
                now_ms,
            ),
        is_fresh_outcome(r, *cfg, *fresh, *final(state), now_ms as int),
{
    if let Some(t) = table {
        state.price_table = Some(t);
    }
    let mut histories = Histories::new();
    std::mem::swap(&mut histories, &mut state.histories);
    state.histories = record_all(histories, &fresh.windows, now_ms);
    let burns = project_all(&fresh.windows, &state.histories, cfg, now_ms);
    let mut pairs: Vec<(&Window, Option<&BurnResult>)> = Vec::new();
    let mut i: usize = 0;
    while i < fresh.windows.len()
        invariant
            i <= fresh.windows@.len() == burns@.len(),
            pairs@.len() == i,
            forall|j: int|
                0 <= j < i ==> (#[trigger] projected(pairs@)[j]) == (
                    fresh.windows@[j],
                    burn_view(burns@[j]),
                ),
        decreases fresh.windows@.len() - i,
    {
        let ghost before = projected(pairs@);
        pairs.push((&fresh.windows[i], burns[i].as_ref()));
        assert(projected(pairs@) =~= before.push(
            (fresh.windows@[i as int], burn_view(burns@[i as int])),
        ));
        i += 1;
    }
    assert(projected(pairs@) =~= shown_pairs(
        fresh.windows@,
        state.histories,
        *cfg,
        now_ms as int,
    ));
    let pct: i64 = fresh.windows[0].remaining_pct;
    let age: i64 = since(state.last_good_at, now_ms);
    let menu = build_menu_state(
        cfg.label.as_str(),
        pairs.as_slice(),
        None,
        false,
        age,
        pct <= 0,
        state.price_table.as_ref(),
        now_ms,
    );
    assert(burn_view(burns@[0]) == shown_burn(
        fresh.windows@[0],
        state.histories,
        *cfg,
        now_ms as int,
    ));
    Outcome {
        chip: Some(fresh_chip(cfg, pct, burns[0].as_ref())),
        menu: MenuChange::Install(menu),
        notification: threshold_notification(
            cfg,
            fresh.prev_rank,
            BucketRank::from_remaining(pct),
        ),
        interval_ms: to_millis(
            next_interval(
                cfg.refresh_seconds,
                cfg.refresh_min_seconds,
                cfg.refresh_max_backoff_seconds,
                pct,
                cfg.thresholds.yellow,
                cfg.thresholds.red,
                0,
            ),
        ),
    }
}

// ---------------------------------------------------------------------------
// Laws
// ---------------------------------------------------------------------------

/// The windows that an accepted answer hands on.
pub open spec fn fresh_of(r: Fetched) -> Option<Fresh> {
    match r {
        Fetched::FetchPrices { fresh, .. } => Some(fresh),
        Fetched::Show { fresh } => Some(fresh),
        Fetched::Finish(_) => None,
    }
}

/// A rank is notified once: where two polls in a row find the same rank, or the
/// second a better one, the second sends no notification.
pub proof fn law_a_rank_is_notified_once(
    cfg: Config,
    s0: AppState,
    s1: AppState,
    s2: AppState,
    s3: AppState,
    w1: Seq<Window>,
    w2: Seq<Window>,
    t1: i64,
    t2: i64,
    r1: Fetched,
    r2: Fetched,
    n: Option<Notification>,
)
    requires
        w1.len() > 0,
        w2.len() > 0,
        accepts(cfg, s0, s1, w1, t1, r1),
        s2.last_good == s1.last_good,
        accepts(cfg, s2, s3, w2, t2, r2),
        level(rank_of(w2[0].remaining_pct as int)) <= level(rank_of(w1[0].remaining_pct as int)),
        fresh_of(r2) matches Some(f) && is_notification(
            n,
            cfg,
            f.prev_rank,
            rank_of(w2[0].remaining_pct as int),
        ),
    ensures
        n is None,
{
}

/// A window's history is made of that window's samples alone: windows with other
/// ids neither add to it nor clear it.
pub proof fn law_histories_are_separate(
    history: Seq<Sample>,
    windows: Seq<Window>,
    id: Seq<char>,
    now: i64,
)
    requires
        forall|i: int| 0 <= i < windows.len() ==> (#[trigger] windows[i]).id@ != id,
    ensures
        recorded(history, windows, id, now) == history,
    decreases windows.len(),
{
    if windows.len() > 0 {
        assert(windows.last().id@ != id);
        assert forall|i: int| 0 <= i < windows.drop_last().len() implies (
        #[trigger] windows.drop_last()[i]).id@ != id by {
            assert(windows.drop_last()[i] == windows[i]);
        }
        law_histories_are_separate(history, windows.drop_last(), id, now);
    }
}

/// A success ends the backoff: the failure after it waits as a first failure does,
/// however many there were before.
pub proof fn law_success_ends_backoff(
    cfg: Config,
    s0: AppState,
    s1: AppState,
    s2: AppState,
    windows: Seq<Window>,
    err: Seq<char>,
    keeps: bool,
    t1: i64,
    t2: int,
    r1: Fetched,
    r2: Fetched,
)
    requires
        accepts(cfg, s0, s1, windows, t1, r1),
        rejects(cfg, s1, s2, err, keeps, t2, r2),
    ensures
        r2 matches Fetched::Finish(o) && o.interval_ms == millis(
            interval(
                cfg.refresh_seconds as int,
                cfg.refresh_min_seconds as int,
                cfg.refresh_max_backoff_seconds as int,
                100,
                cfg.thresholds.yellow as int,
                cfg.thresholds.red as int,
                1,
            ),
        ),
{
}

/// After a failure the old windows are still there to be shown again: two
/// failures in a row show the same rows.
pub proof fn law_failures_keep_old_windows(
    cfg: Config,
    a: AppState,
    b: AppState,
    c: AppState,
    err: Seq<char>,
    now: int,
    r1: Fetched,
    r2: Fetched,
)
    requires
        rejects(cfg, a, b, err, true, now, r1),
        rejects(cfg, b, c, err, true, now, r2),
    ensures
        c.last_good == a.last_good,
        match (r1, r2) {
            (Fetched::Finish(o1), Fetched::Finish(o2)) => match (o1.menu, o2.menu) {
                (MenuChange::Install(m1), MenuChange::Install(m2)) => m1@ == m2@,
                _ => false,
            },
            _ => false,
        },
{
}

/// Every rise in rank is notified, and nothing else: where the rank before is known
/// and the new one is worse, there is a notification, and it is the critical one
/// where nothing is left.
pub proof fn law_every_rise_is_notified(
    n: Option<Notification>,
    cfg: Config,
    prev: BucketRank,
    new: BucketRank,
)
    requires
        is_notification(n, cfg, prev, new),
        new != BucketRank::NoData,
    ensures
        n is Some <==> (prev == BucketRank::Normal && new != BucketRank::Normal) || (prev
            == BucketRank::Warning && new == BucketRank::Throttled),
        n matches Some(m) ==> {
            &&& new == BucketRank::Throttled ==> m.urgency == Urgency::Critical && m.tag@
                == "throttled"@ && m.title@ == cfg.label@ + " — throttled"@ && m.body@
                == "Quota exhausted. The menu shows when it resets."@
            &&& new == BucketRank::Warning ==> m.urgency == Urgency::Normal && m.tag@ == "warning"@
                && m.title@ == cfg.label@ + " — running low"@
        },
{
}

/// Over two polls in a row that found windows: the second notifies that the quota is
/// exhausted exactly where the first window had some left before and has none now,
/// that it runs low exactly where it fell from half or more to less than that, and
/// of nothing else.
pub proof fn law_polls_notify_what_got_worse(
    cfg: Config,
    s0: AppState,
    s1: AppState,
    s2: AppState,
    s3: AppState,
    s4: AppState,
    w1: Seq<Window>,
    w2: Seq<Window>,
    t1: i64,
    t2: i64,
    now: int,
    r1: Fetched,
    r2: Fetched,
    o: Outcome,
)
    requires
        w1.len() > 0,
        w2.len() > 0,
        accepts(cfg, s0, s1, w1, t1, r1),
        s2.last_good == s1.last_good,
        accepts(cfg, s2, s3, w2, t2, r2),
        fresh_of(r2) matches Some(f) && is_fresh_outcome(o, cfg, f, s4, now),
    ensures
        ({
            let before = w1[0].remaining_pct;
            let after = w2[0].remaining_pct;
            let throttled = o.notification matches Some(m) && m.urgency == Urgency::Critical
                && m.title@ == cfg.label@ + " — throttled"@;
            let low = o.notification matches Some(m) && m.urgency == Urgency::Normal && m.title@
                == cfg.label@ + " — running low"@;
            &&& throttled <==> before > 0 && after <= 0
            &&& low <==> before >= 50 && 0 < after < 50
            &&& o.notification is None <==> !(before > 0 && after <= 0) && !(before >= 50 && 0
                < after < 50)
        }),
{
}

/// The first poll that finds windows notifies of nothing, however bad they are.
pub proof fn law_the_first_poll_is_silent(
    cfg: Config,
    before: AppState,
    after: AppState,
    shown: AppState,
    windows: Seq<Window>,
    at: i64,
    now: int,
    r: Fetched,
    o: Outcome,
)
    requires
        before.last_good matches Some(w) ==> w@.len() == 0,
        accepts(cfg, before, after, windows, at, r),
        fresh_of(r) matches Some(f) && is_fresh_outcome(o, cfg, f, shown, now),
    ensures
        o.notification is None,
{
}

/// A fetch that found windows is remembered with its time and ends the failures, and its
/// windows go on to be shown.
pub proof fn law_a_success_is_remembered(
    cfg: Config,
    before: AppState,
    after: AppState,
    windows: Seq<Window>,
    now: i64,
    r: Fetched,
)
    requires
        accepts(cfg, before, after, windows, now, r),
    ensures
        after.last_good matches Some(w) && w@ == windows,
        after.last_good_at == now,
        after.fail_streak == 0,
        after.offline == before.offline,
        after.screen_locked == before.screen_locked,
        after.has_client == before.has_client,
        after.price_table == before.price_table,
        after.histories == before.histories,
        fresh_of(r) matches Some(f) && f.windows@ == windows,
        r is FetchPrices ==> before.has_client && (cfg.pricing_endpoint matches Some(u)
            && r->url@ == u@),
        cfg.pricing_endpoint is None || cfg.pricing_refresh_polls is None || !before.has_client
            ==> r is Show,
        (cfg.pricing_endpoint is Some && before.has_client && before.polls_since_pricing_refresh
            < u64::MAX) ==> (cfg.pricing_refresh_polls matches Some(n) ==> (r is FetchPrices
            <==> before.polls_since_pricing_refresh + 1 >= n)),
        (cfg.pricing_endpoint is Some && before.polls_since_pricing_refresh < u64::MAX) ==> (
        cfg.pricing_refresh_polls matches Some(n) ==> after.polls_since_pricing_refresh == (
        if before.polls_since_pricing_refresh + 1 >= n {
            0
        } else {
            before.polls_since_pricing_refresh + 1
        })),
        cfg.pricing_endpoint is None || cfg.pricing_refresh_polls is None
            ==> after.polls_since_pricing_refresh == before.polls_since_pricing_refresh,
{
}

/// A failure is counted, shows the error over what is remembered, and waits as the
/// failures in a row demand, without regard to the remembered quota. An answer without
/// windows forgets them, any other failure keeps them.
pub proof fn law_a_failure_is_counted_and_shown(
    cfg: Config,
    before: AppState,
    after: AppState,
    err: Seq<char>,
    keeps: bool,
    now: int,
    r: Fetched,
)
    requires
        rejects(cfg, before, after, err, keeps, now, r),
        fits_menu(before),
    ensures
        before.fail_streak < u32::MAX ==> after.fail_streak == before.fail_streak + 1,
        before.fail_streak == u32::MAX ==> after.fail_streak == u32::MAX,
        keeps ==> after.last_good == before.last_good,
        !keeps ==> after.last_good is None,
        after.last_good_at == before.last_good_at,
        after.offline == before.offline,
        after.screen_locked == before.screen_locked,
        after.price_table == before.price_table,
        after.histories == before.histories,
        after.polls_since_pricing_refresh == before.polls_since_pricing_refresh,
        r matches Fetched::Finish(o) && {
            &&& o.notification is None
            &&& o.interval_ms == millis(
                interval(
                    cfg.refresh_seconds as int,
                    cfg.refresh_min_seconds as int,
                    cfg.refresh_max_backoff_seconds as int,
                    100,
                    cfg.thresholds.yellow as int,
                    cfg.thresholds.red as int,
                    after.fail_streak as nat,
                ),
            )
            &&& before.last_good is None ==> (o.chip matches Some(c) && c.icon == ChipIcon::Static(
                StaticIcon::Error,
            ) && c.tip@ == cfg.label@ + " — stale data ("@ + decimal(0) + "%)"@)
            &&& before.last_good matches Some(w) ==> (w@.len() > 0 ==> (o.chip matches Some(c)
                && c.tip@ == cfg.label@ + " — stale data ("@ + decimal(
                w@[0].remaining_pct as int,
            ) + "%)"@))
            &&& o.menu matches MenuChange::Install(m) && (remembered(before.last_good).len() > 0
                ==> m@.items[210].visible && m@.items[210].label == "  ⚠ Error: "@ + err
                + " (showing cached data)"@ && !m@.items[200].visible)
        },
{
    let w = remembered(before.last_good);
    if w.len() > 0 {
        crate::render::law_menu_shows_what_was_polled(
            cfg.label@,
            unprojected(w),
            Some(err),
            true,
            age_of(before.last_good_at as int, now),
            w.len() > 0 && w[0].remaining_pct <= 0,
            None,
            now,
            0,
        );
    }
}

/// Fresh windows are shown as they are: the first one's percentage in the tip, its ring
/// or the throttled icon as the chip, every row without a stale mark, the throttled row
/// where the first has nothing left, no error, and the next poll as its quota demands.
pub proof fn law_fresh_windows_are_shown(
    o: Outcome,
    cfg: Config,
    fresh: Fresh,
    state: AppState,
    now: int,
    i: int,
)
    requires
        is_fresh_outcome(o, cfg, fresh, state, now),
        0 <= i < fresh.windows@.len() <= MAX_SLOTS,
    ensures
        ({
            let pct = fresh.windows@[0].remaining_pct;
            let w = fresh.windows@[i];
            let id = if i < 33 {
                100 + 3 * i
            } else {
                208 + 3 * i
            };
            let b = burn_row(Some(w), state.histories.of(w.id@), now, cfg.burn_warning);
            let first = burn_row(
                Some(fresh.windows@[0]),
                state.histories.of(fresh.windows@[0].id@),
                now,
                cfg.burn_warning,
            );
            &&& o.chip matches Some(c) && c.tip@ == cfg.label@ + " — "@ + decimal(pct as int)
                + "% remaining"@ && (pct <= 0 ==> c.icon == ChipIcon::Static(StaticIcon::Throttled))
                && (pct > 0 ==> (c.icon matches ChipIcon::Ring { pct: p, bucket } && p == pct && (
            bucket == crate::icon::Bucket::Warning <==> 100 - pct >= cfg.thresholds.yellow || (
            first matches Some(f) && f.exhaust_before_reset))))
            &&& o.menu matches MenuChange::Install(m) && {
                &&& m@.items[1].label == "Plan: "@ + cfg.label@
                &&& m@.items[(id as i32)].visible
                &&& m@.items[((id + 2) as i32)].visible == (b is Some)
                &&& m@.items[200].visible == (pct <= 0)
                &&& !m@.items[210].visible
            }
            &&& o.interval_ms == millis(
                interval(
                    cfg.refresh_seconds as int,
                    cfg.refresh_min_seconds as int,
                    cfg.refresh_max_backoff_seconds as int,
                    pct as int,
                    cfg.thresholds.yellow as int,
                    cfg.thresholds.red as int,
                    0,
                ),
            )
        }),
{
    crate::render::law_menu_shows_what_was_polled(
        cfg.label@,
        shown_pairs(fresh.windows@, state.histories, cfg, now),
        None,
        false,
        saturated(now - state.last_good_at),
        fresh.windows@[0].remaining_pct <= 0,
        state.price_table,
        now,
        i,
    );
}

/// A poll that cannot be made waits for the plain interval and sends nothing: without a
/// network it says so, behind a locked screen it changes nothing.
pub proof fn law_skipped_polls_wait_the_plain_interval(o: Outcome, cfg: Config)
    ensures
        is_offline_outcome(o, cfg) ==> o.notification is None && o.interval_ms == millis(
            cfg.refresh_seconds as int,
        ) && o.menu == MenuChange::Offline && (o.chip matches Some(c) && c.icon
            == ChipIcon::Static(StaticIcon::Offline) && c.tip@ == cfg.label@ + " — offline"@),
        is_skipped_outcome(o, cfg) ==> o.notification is None && o.interval_ms == millis(
            cfg.refresh_seconds as int,
        ) && o.menu == MenuChange::Keep && o.chip is None,
{
}

/// An error without data shows itself alone and keeps the plain interval.
pub proof fn law_errors_without_data_show_the_message(o: Outcome, cfg: Config, msg: Seq<char>)
    requires
        is_error_outcome(o, cfg, msg),
    ensures
        o.notification is None,
        o.interval_ms == millis(cfg.refresh_seconds as int),
        o.chip matches Some(c) && c.icon == ChipIcon::Static(StaticIcon::Error) && c.tip@
            == cfg.label@ + " — stale data"@,
        o.menu matches MenuChange::Install(m) && m@.items[210].visible && m@.items[210].label
            == "  ⚠ Error: "@ + msg && m@.items[1].label == "Plan: "@ + cfg.label@,
{
    crate::render::law_error_menu_shows_the_error(cfg.label@, msg);
}

/// Every window of a poll is recorded once in its own history, where no other window of
/// the poll has its id; a new price list replaces the old one, and none keeps it.
pub proof fn law_each_window_is_recorded(
    history: Seq<Sample>,
    windows: Seq<Window>,
    i: int,
    now: i64,
    old_table: Option<PriceTable>,
    new_table: Option<PriceTable>,
)
    requires
        0 <= i < windows.len(),
        forall|k: int|
            0 <= k < windows.len() && k != i ==> (#[trigger] windows[k]).id@ != windows[i].id@,
    ensures
        recorded(history, windows, windows[i].id@, now) == sampled(history, windows[i], now),
        new_table is Some ==> prices_in_use(old_table, new_table) == new_table,
        new_table is None ==> prices_in_use(old_table, new_table) == old_table,
    decreases windows.len(),
{
    let init = windows.drop_last();
    let id = windows[i].id@;
    if i == windows.len() - 1 {
        assert forall|k: int| 0 <= k < init.len() implies (#[trigger] init[k]).id@ != id by {
            assert(init[k] == windows[k]);
        }
        law_histories_are_separate(history, init, id, now);
    } else {
        assert(init[i] == windows[i]);
        assert(windows.last().id@ != id);
        assert forall|k: int| 0 <= k < init.len() && k != i implies (#[trigger] init[k]).id@
            != init[i].id@ by {
            assert(init[k] == windows[k]);
        }
        law_each_window_is_recorded(history, init, i, now, old_table, new_table);
    }
}

/// The remembered windows are as old as the time since they were fetched; before the
/// first there is no age.
pub proof fn law_age_is_time_since_success(at: int, now: int)
    ensures
        at > 0 && i64::MIN <= now - at <= i64::MAX ==> age_of(at, now) == now - at,
        at <= 0 ==> age_of(at, now) == 0,
{
}

/// Behind an error the remembered windows are shown as they were, marked as old and with
/// the time since they were fetched, without projections; the icon is that of old data.
pub proof fn law_old_windows_are_shown_with_their_age(
    cfg: Config,
    before: AppState,
    after: AppState,
    err: Seq<char>,
    keeps: bool,
    now: int,
    r: Fetched,
    i: int,
)
    requires
        rejects(cfg, before, after, err, keeps, now, r),
        before.last_good matches Some(w) && 0 <= i < w@.len() <= MAX_SLOTS,
        0 < before.last_good_at < now,
        now - before.last_good_at <= i64::MAX,
    ensures
        ({
            let w = before.last_good->0@;
            let left = saturated(w[i].reset_at - now);
            let id = if i < 33 {
                100 + 3 * i
            } else {
                208 + 3 * i
            };
            r matches Fetched::Finish(o) && {
                &&& o.chip matches Some(c) && c.icon == stale_icon(w, cfg.thresholds.yellow as int)
                &&& o.menu matches MenuChange::Install(m) && {
                    &&& m@.items[1].label == "Plan: "@ + cfg.label@
                    &&& m@.items[(id as i32)].visible
                    &&& m@.items[(id as i32)].label == crate::util::window_text(
                        w[i].id@,
                        w[i].remaining_pct as int,
                        if left < 0 {
                            0
                        } else {
                            left
                        },
                    ) + " (stale)"@ + (" · last update "@ + crate::util::age_text(
                        now - before.last_good_at,
                    ) + " ago"@)
                    &&& m@.items[((id + 1) as i32)].label == crate::util::bar_text(
                        w[i].remaining_pct as int,
                    )
                    &&& !m@.items[((id + 2) as i32)].visible
                }
            }
        }),
{
    let w = before.last_good->0@;
    crate::render::law_menu_shows_what_was_polled(
        cfg.label@,
        unprojected(w),
        Some(err),
        true,
        age_of(before.last_good_at as int, now),
        w.len() > 0 && w[0].remaining_pct <= 0,
        None,
        now,
        i,
    );
}

/// The rows of fresh windows: their label without a mark, their bar, and their
/// projection, with its cost where there is a price list.
pub proof fn law_fresh_rows_read_as_polled(
    o: Outcome,
    cfg: Config,
    fresh: Fresh,
    state: AppState,
    now: int,
    i: int,
)
    requires
        is_fresh_outcome(o, cfg, fresh, state, now),
        0 <= i < fresh.windows@.len() <= MAX_SLOTS,
    ensures
        ({
            let w = fresh.windows@[i];
            let left = saturated(w.reset_at - now);
            let id = if i < 33 {
                100 + 3 * i
            } else {
                208 + 3 * i
            };
            let b = burn_row(Some(w), state.histories.of(w.id@), now, cfg.burn_warning);
            o.menu matches MenuChange::Install(m) && {
                &&& m@.items[(id as i32)].label == crate::util::window_text(
                    w.id@,
                    w.remaining_pct as int,
                    if left < 0 {
                        0
                    } else {
                        left
                    },
                )
                &&& m@.items[((id + 1) as i32)].label == crate::util::bar_text(
                    w.remaining_pct as int,
                )
                &&& b matches Some(burn) ==> (state.price_table is None ==> m@.items[((id
                    + 2) as i32)].label == crate::util::burn_text(
                    burn,
                    opt_view(w.count_unit),
                    opt_view(w.currency),
                    None,
                ))
                &&& b matches Some(burn) ==> (state.price_table matches Some(t) ==> m@.items[((id
                    + 2) as i32)].label == crate::util::burn_text(
                    burn,
                    opt_view(w.count_unit),
                    opt_view(w.currency),
                    crate::pricing::cost_fragment(
                        crate::pricing::priced(t, opt_view(w.model)),
                        Some(burn.rate),
                        Some((1, 2)),
                    ),
                ))
            }
        }),
{
    crate::render::law_menu_shows_what_was_polled(
        cfg.label@,
        shown_pairs(fresh.windows@, state.histories, cfg, now),
        None,
        false,
        saturated(now - state.last_good_at),
        fresh.windows@[0].remaining_pct <= 0,
        state.price_table,
        now,
        i,
    );
}

/// What a notification of a low quota says: how much was used, by the threshold.
pub proof fn law_low_quota_is_told_with_the_threshold(
    n: Option<Notification>,
    cfg: Config,
    prev: BucketRank,
)
    requires
        is_notification(n, cfg, prev, BucketRank::Warning),
        n is Some,
        i64::MIN <= 100 - cfg.thresholds.yellow <= i64::MAX,
    ensures
        n->0.body@ == "Usage reached "@ + decimal(100 - cfg.thresholds.yellow)
            + "% (threshold: "@ + decimal(cfg.thresholds.yellow as int) + "%)."@,
{
}

} // verus!
