//! The tray's event loop: what each event does to the state, and what it asks for.
use crate::menu::MenuCommand;
use crate::network::NetEvent;
use crate::pricing::PriceTable;
use crate::screenlock::LockEvent;
use crate::state::{
    armed_interval, clear_force_refresh_state, compute_next_interval, compute_wait_ms, wait_ms,
    AppState,
};
use crate::text::{trim, trimmed};
use vstd::prelude::*;
use vstd::utf8::{decode_utf8, valid_utf8};

verus! {

/// The state that the tray starts with: a client to fetch with, and the price
/// list, where one is configured and came.
pub fn starting_state(price_table: Option<PriceTable>) -> (r: AppState)
    ensures
        forall|id: Seq<char>| #[trigger]
            r.histories.of(id) == Seq::<crate::burn::Sample>::empty(),
        r.last_good is None,
        r.last_good_at == 0,
        r.fail_streak == 0,
        r.has_client,
        !r.offline,
        !r.screen_locked,
        r.price_table == price_table,
        r.polls_since_pricing_refresh == 0,
{
    let mut s = AppState::default();
    s.has_client = true;
    s.price_table = price_table;
    s
}

// ---------------------------------------------------------------------------
// Events
// ---------------------------------------------------------------------------

/// How asking the user for a key ended.
#[derive(Debug, Clone, Copy, PartialEq, Eq, Structural)]
pub enum KeyEntry {
    /// A key was entered and stored.
    Stored,
    Cancelled,
    Failed,
}

/// What the loop woke up for; `None` in place of an event means that its source
/// is gone.
#[derive(Debug)]
pub enum LoopEvent {
    /// The next scheduled poll is due.
    Tick,
    Command(Option<MenuCommand>),
    Net(Option<NetEvent>),
    Lock(Option<LockEvent>),
    Key(KeyEntry),
}

/// What the loop does next.
#[derive(Debug, Clone, Copy, PartialEq, Eq, Structural)]
pub enum LoopAction {
    /// Wait for the next event.
    Wait,
    /// Poll now.
    Poll,
    /// Show that the network is down.
    ShowOffline,
    OpenDashboard,
    AskForKey,
    /// End the loop, and with it the tray.
    Quit,
    /// End the loop alone.
    Stop,
}

/// Whether an event asks for a poll out of turn.
pub open spec fn forces_poll(e: LoopEvent) -> bool {
    ||| e == LoopEvent::Command(Some(MenuCommand::Refresh))
    ||| e == LoopEvent::Net(Some(NetEvent::ForceRefresh))
    ||| e == LoopEvent::Lock(Some(LockEvent::ForceRefresh))
}

/// The state after an event.
pub open spec fn state_after(s: AppState, e: LoopEvent) -> AppState {
    if forces_poll(e) {
        AppState { fail_streak: 0, offline: false, ..s }
    } else {
        match e {
            LoopEvent::Net(Some(NetEvent::Connectivity(online))) => AppState {
                offline: !online,
                ..s
            },
            LoopEvent::Lock(Some(LockEvent::ScreenLock(locked))) => AppState {
                screen_locked: locked,
                ..s
            },
            LoopEvent::Key(KeyEntry::Stored) => AppState { fail_streak: 0, ..s },
            _ => s,
        }
    }
}

/// What an event asks for.
pub open spec fn action_of(e: LoopEvent) -> LoopAction {
    match e {
        LoopEvent::Tick => LoopAction::Poll,
        LoopEvent::Command(Some(MenuCommand::Refresh)) => LoopAction::Poll,
        LoopEvent::Command(Some(MenuCommand::OpenDashboard)) => LoopAction::OpenDashboard,
        LoopEvent::Command(Some(MenuCommand::SetApiKey)) => LoopAction::AskForKey,
        LoopEvent::Command(Some(MenuCommand::Quit)) => LoopAction::Quit,
        LoopEvent::Command(None) => LoopAction::Stop,
        LoopEvent::Net(Some(NetEvent::Connectivity(online))) => if online {
            LoopAction::Wait
        } else {
            LoopAction::ShowOffline
        },
        LoopEvent::Net(Some(NetEvent::ForceRefresh)) => LoopAction::Poll,
        LoopEvent::Net(None) => LoopAction::Wait,
        LoopEvent::Lock(Some(LockEvent::ScreenLock(_))) => LoopAction::Wait,
        LoopEvent::Lock(Some(LockEvent::ForceRefresh)) => LoopAction::Poll,
        LoopEvent::Lock(None) => LoopAction::Wait,
        LoopEvent::Key(KeyEntry::Stored) => LoopAction::Poll,
        LoopEvent::Key(KeyEntry::Cancelled) => LoopAction::Wait,
        LoopEvent::Key(KeyEntry::Failed) => LoopAction::Wait,
    }
}

/// Takes an event in and says what to do next.
pub fn on_event(state: &mut AppState, event: LoopEvent) -> (r: LoopAction)
    ensures
        *final(state) == state_after(*old(state), event),
        r == action_of(event),
{
    match event {
        LoopEvent::Tick => LoopAction::Poll,
        LoopEvent::Command(cmd) => match cmd {
            Some(MenuCommand::Refresh) => {
                clear_force_refresh_state(state);
                LoopAction::Poll
            },
            Some(MenuCommand::OpenDashboard) => LoopAction::OpenDashboard,
            Some(MenuCommand::SetApiKey) => LoopAction::AskForKey,
            Some(MenuCommand::Quit) => LoopAction::Quit,
            None => LoopAction::Stop,
        },
        LoopEvent::Net(net) => match net {
            Some(NetEvent::Connectivity(online)) => {
                state.offline = !online;
                if online {
                    LoopAction::Wait
                } else {
                    LoopAction::ShowOffline
                }
            },
            Some(NetEvent::ForceRefresh) => {
                clear_force_refresh_state(state);
                LoopAction::Poll
            },
            None => LoopAction::Wait,
        },
        LoopEvent::Lock(lock) => match lock {
            Some(LockEvent::ScreenLock(locked)) => {
                state.screen_locked = locked;
                LoopAction::Wait
            },
            Some(LockEvent::ForceRefresh) => {
                clear_force_refresh_state(state);
                LoopAction::Poll
            },
            None => LoopAction::Wait,
        },
        LoopEvent::Key(entry) => match entry {
            KeyEntry::Stored => {
                state.fail_streak = 0;
                LoopAction::Poll
            },
            KeyEntry::Cancelled => LoopAction::Wait,
            KeyEntry::Failed => LoopAction::Wait,
        },
    }
}

// ---------------------------------------------------------------------------
// Schedule
// ---------------------------------------------------------------------------

/// When the last poll was and how long to wait after it.
#[derive(Debug, Clone, Copy, PartialEq, Eq, Structural)]
pub struct Schedule {
    pub last_refresh_at: Option<i64>,
    pub next_interval_ms: u64,
}

impl Schedule {
    /// Before the first poll.
    pub fn new() -> (r: Schedule)
        ensures
            r.last_refresh_at is None,
            r.next_interval_ms == 0,
    {
        Schedule { last_refresh_at: None, next_interval_ms: 0 }
    }

    /// The wait until the next poll, at least a millisecond.
    pub open spec fn sleep(self, now: int) -> int {
        let wait = wait_ms(self.last_refresh_at, self.next_interval_ms as int, now);
        if wait < 1 {
            1
        } else {
            wait
        }
    }

    /// The wait until the next poll, at least a millisecond.
    pub fn sleep_ms(&self, now: i64) -> (r: u64)
        ensures
            r == self.sleep(now as int),
    {
        let wait: u64 = compute_wait_ms(self.last_refresh_at, self.next_interval_ms, now);
        if wait < 1 {
            1
        } else {
            wait
        }
    }

    /// The schedule after a poll that ended at `now` and asked for `interval_ms`.
    pub fn polled(interval_ms: u64, max_backoff_seconds: u64, jitter: u32, now: i64) -> (r:
        Schedule)
        ensures
            r.last_refresh_at == Some(now),
            r.next_interval_ms == armed_interval(
                interval_ms as int,
                max_backoff_seconds as int,
                jitter as int,
            ),
    {
        Schedule {
            last_refresh_at: Some(now),
            next_interval_ms: compute_next_interval(interval_ms, max_backoff_seconds, jitter),
        }
    }
}

// ---------------------------------------------------------------------------
// Asking for the key
// ---------------------------------------------------------------------------

/// A program that asks the user for a key.
#[derive(Debug, Clone, Copy, PartialEq, Eq, Structural)]
pub enum Dialog {
    Zenity,
    Kdialog,
}

/// The arguments, as texts.
pub open spec fn arguments(args: Seq<String>) -> Seq<Seq<char>> {
    args.map_values(|a: String| a@)
}

/// The arguments that a dialog is started with for the keyring entry `app`.
pub open spec fn dialog_arguments(d: Dialog, app: Seq<char>) -> Seq<Seq<char>> {
    match d {
        Dialog::Zenity => seq![
            "--entry"@,
            "--title="@ + app + " API Key"@,
            "--text=Enter your API key (stored in your OS keyring as `application "@ + app
                + "`):"@,
            "--hide-text"@,
        ],
        Dialog::Kdialog => seq![
            "--password"@,
            "Enter your API key (stored in your OS keyring as `application "@ + app + "`) — "@ + app
                + " API Key"@ + ":"@,
        ],
    }
}

impl Dialog {
    /// The program's name.
    pub fn program(self) -> (r: &'static str)
        ensures
            r@ == (match self {
                Dialog::Zenity => "zenity"@,
                Dialog::Kdialog => "kdialog"@,
            }),
    {
        match self {
            Dialog::Zenity => "zenity",
            Dialog::Kdialog => "kdialog",
        }
    }

    /// The arguments that the program is started with for the keyring entry `app`.
    pub fn args(self, app: &str) -> (r: Vec<String>)
        ensures
            arguments(r@) == dialog_arguments(self, app@),
    {
        let mut args: Vec<String> = Vec::new();
        match self {
            Dialog::Zenity => {
                args.push("--entry".to_owned());
                args.push("--title=".to_owned().concat(app).concat(" API Key"));
                args.push(
                    "--text=Enter your API key (stored in your OS keyring as `application ".to_owned().concat(
                    app).concat("`):"),
                );
                args.push("--hide-text".to_owned());
            },
            Dialog::Kdialog => {
                args.push("--password".to_owned());
                args.push(
                    "Enter your API key (stored in your OS keyring as `application ".to_owned().concat(
                    app).concat("`) — ").concat(app).concat(" API Key").concat(":"),
                );
            },
        }
        assert(arguments(args@) =~= dialog_arguments(self, app@));
        args
    }
}

/// What bytes read as, where some of them may be no UTF-8.
pub uninterp spec fn lossy_text(bytes: Seq<u8>) -> Seq<char>;

/// `String::from_utf8_lossy` decodes well-formed UTF-8. In anything else it puts
/// replacement characters, depending on the bytes alone; where they stand is not
/// spelt out.
#[verifier::external_body]
fn text_from_utf8_lossy(bytes: &[u8]) -> (r: String)
    ensures
        r@ == lossy_text(bytes@),
        valid_utf8(bytes@) ==> r@ == decode_utf8(bytes@),
{
    String::from_utf8_lossy(bytes).into_owned()
}

/// What came of starting a dialog.
#[derive(Debug)]
pub enum DialogResult {
    /// It ended well and printed these bytes.
    Printed(Vec<u8>),
    /// The user closed it.
    Cancelled,
    /// There is no such program.
    Missing,
}

/// What to do after a dialog.
#[derive(Debug)]
pub enum AfterDialog {
    /// Store this key.
    Store(String),
    /// Nothing: the user does not want to.
    Cancelled,
    /// Try this program.
    Try(Dialog),
    /// Give up: there is no program to ask with.
    NoDialog,
}

/// What to do after a dialog: what was entered is stored without the white space
/// around it, a missing program makes way for the next.
pub fn after_dialog(tried: Dialog, result: DialogResult) -> (r: AfterDialog)
    ensures
        match result {
            DialogResult::Printed(bytes) => r matches AfterDialog::Store(key) && key@ == trimmed(
                lossy_text(bytes@),
            ) && (valid_utf8(bytes@) ==> key@ == trimmed(decode_utf8(bytes@))),
            DialogResult::Cancelled => r == AfterDialog::Cancelled,
            DialogResult::Missing => match tried {
                Dialog::Zenity => r == AfterDialog::Try(Dialog::Kdialog),
                Dialog::Kdialog => r == AfterDialog::NoDialog,
            },
        },
{
    match result {
        DialogResult::Printed(bytes) => {
            let text = text_from_utf8_lossy(bytes.as_slice());
            AfterDialog::Store(trim(text.as_str()))
        },
        DialogResult::Cancelled => AfterDialog::Cancelled,
        DialogResult::Missing => match tried {
            Dialog::Zenity => AfterDialog::Try(Dialog::Kdialog),
            Dialog::Kdialog => AfterDialog::NoDialog,
        },
    }
}

/// What the user is told where there is no program to ask with.
pub fn no_dialog_message(app: &str) -> (r: String)
    ensures
        r@
            == "no GUI prompt tool available (tried zenity, kdialog). From a terminal: `secret-tool store --label='"@
            + app@ + " API Key"@ + "' application "@ + app@ + "`"@,
{
    "no GUI prompt tool available (tried zenity, kdialog). From a terminal: `secret-tool store --label='".to_owned().concat(
    app).concat(" API Key").concat("' application ").concat(app).concat("`")
}

// ---------------------------------------------------------------------------
// Laws
// ---------------------------------------------------------------------------

/// The first poll does not wait.
pub proof fn law_first_poll_is_immediate(s: Schedule, now: int)
    requires
        s.last_refresh_at is None,
    ensures
        s.sleep(now) == 1,
{
}

/// However often a poll is asked for, the state is as after the first time.
pub proof fn law_forcing_twice_is_forcing_once(s: AppState, a: LoopEvent, b: LoopEvent)
    requires
        forces_poll(a),
        forces_poll(b),
    ensures
        state_after(state_after(s, a), b) == state_after(s, a),
        action_of(a) == LoopAction::Poll,
{
}

/// Coming back online clears the backoff and polls: the events of that change,
/// taken in one after the other, leave an online state without failures.
pub proof fn law_reconnecting_polls(s: AppState)
    ensures
        ({
            let up = LoopEvent::Net(Some(NetEvent::Connectivity(true)));
            let force = LoopEvent::Net(Some(NetEvent::ForceRefresh));
            let t = state_after(state_after(s, up), force);
            &&& !t.offline
            &&& t.fail_streak == 0
            &&& t.screen_locked == s.screen_locked
            &&& action_of(force) == LoopAction::Poll
        }),
{
}

/// Unlocking the screen polls, and the poll is not held back by the lock.
pub proof fn law_unlocking_polls(s: AppState)
    ensures
        ({
            let open = LoopEvent::Lock(Some(LockEvent::ScreenLock(false)));
            let force = LoopEvent::Lock(Some(LockEvent::ForceRefresh));
            let t = state_after(state_after(s, open), force);
            &&& !t.screen_locked
            &&& !t.offline
            &&& action_of(force) == LoopAction::Poll
        }),
{
}

/// The screen lock and the network are independent: events of the one never
/// change what is known of the other, but for a poll that is asked for.
pub proof fn law_lock_and_network_are_independent(s: AppState, e: LoopEvent)
    ensures
        !(e is Lock) ==> state_after(s, e).screen_locked == s.screen_locked,
        !(e is Net) && !forces_poll(e) ==> state_after(s, e).offline == s.offline,
{
}

/// Every event does one thing: a tick polls, a command does what it names, news of the
/// network or the screen are taken over, and a poll that is asked for forgets failures
/// and a network that was down. Sources that are gone stop nothing, but for the menu.
pub proof fn law_every_event_does_its_part(s: AppState, online: bool, locked: bool)
    ensures
        action_of(LoopEvent::Tick) == LoopAction::Poll,
        state_after(s, LoopEvent::Tick) == s,
        action_of(LoopEvent::Command(Some(MenuCommand::Refresh))) == LoopAction::Poll,
        state_after(s, LoopEvent::Command(Some(MenuCommand::Refresh))) == (AppState {
            fail_streak: 0,
            offline: false,
            ..s
        }),
        action_of(LoopEvent::Command(Some(MenuCommand::OpenDashboard)))
            == LoopAction::OpenDashboard,
        state_after(s, LoopEvent::Command(Some(MenuCommand::OpenDashboard))) == s,
        action_of(LoopEvent::Command(Some(MenuCommand::SetApiKey))) == LoopAction::AskForKey,
        state_after(s, LoopEvent::Command(Some(MenuCommand::SetApiKey))) == s,
        action_of(LoopEvent::Command(Some(MenuCommand::Quit))) == LoopAction::Quit,
        action_of(LoopEvent::Command(None)) == LoopAction::Stop,
        state_after(s, LoopEvent::Net(Some(NetEvent::Connectivity(online)))) == (AppState {
            offline: !online,
            ..s
        }),
        action_of(LoopEvent::Net(Some(NetEvent::Connectivity(true)))) == LoopAction::Wait,
        action_of(LoopEvent::Net(Some(NetEvent::Connectivity(false)))) == LoopAction::ShowOffline,
        state_after(s, LoopEvent::Lock(Some(LockEvent::ScreenLock(locked)))) == (AppState {
            screen_locked: locked,
            ..s
        }),
        action_of(LoopEvent::Lock(Some(LockEvent::ScreenLock(locked)))) == LoopAction::Wait,
        action_of(LoopEvent::Net(None)) == LoopAction::Wait,
        action_of(LoopEvent::Lock(None)) == LoopAction::Wait,
        state_after(s, LoopEvent::Net(None)) == s,
        state_after(s, LoopEvent::Lock(None)) == s,
        action_of(LoopEvent::Key(KeyEntry::Stored)) == LoopAction::Poll,
        state_after(s, LoopEvent::Key(KeyEntry::Stored)) == (AppState { fail_streak: 0, ..s }),
        action_of(LoopEvent::Key(KeyEntry::Cancelled)) == LoopAction::Wait,
        action_of(LoopEvent::Key(KeyEntry::Failed)) == LoopAction::Wait,
        state_after(s, LoopEvent::Key(KeyEntry::Cancelled)) == s,
        state_after(s, LoopEvent::Key(KeyEntry::Failed)) == s,
{
}

/// The loop sleeps until the interval since the last poll is over, a millisecond at
/// least.
pub proof fn law_sleep_ends_with_the_interval(s: Schedule, now: int)
    ensures
        s.last_refresh_at matches Some(at) ==> (at <= now < at + s.next_interval_ms ==> now
            + s.sleep(now) == at + s.next_interval_ms),
        s.last_refresh_at matches Some(at) ==> (now >= at + s.next_interval_ms ==> s.sleep(now)
            == 1),
{
}

/// The dialogs ask for the key of the keyring entry without showing what is typed.
pub proof fn law_dialogs_hide_what_is_typed(app: Seq<char>)
    ensures
        dialog_arguments(Dialog::Zenity, app).len() == 4,
        dialog_arguments(Dialog::Zenity, app)[0] == "--entry"@,
        dialog_arguments(Dialog::Zenity, app)[1] == "--title="@ + app + " API Key"@,
        dialog_arguments(Dialog::Zenity, app)[2]
            == "--text=Enter your API key (stored in your OS keyring as `application "@ + app
            + "`):"@,
        dialog_arguments(Dialog::Zenity, app)[3] == "--hide-text"@,
        dialog_arguments(Dialog::Kdialog, app).len() == 2,
        dialog_arguments(Dialog::Kdialog, app)[0] == "--password"@,
        dialog_arguments(Dialog::Kdialog, app)[1]
            == "Enter your API key (stored in your OS keyring as `application "@ + app + "`) — "@
            + app + " API Key"@ + ":"@,
{
}

} // verus!
