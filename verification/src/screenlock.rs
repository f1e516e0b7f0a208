//! Screen lock: from the screen saver's states to events of the tray.
use vstd::prelude::*;

verus! {

/// What happened to the screen.
#[derive(Debug, Clone, PartialEq, Eq, Structural)]
pub enum LockEvent {
    /// The screen was locked or unlocked.
    ScreenLock(bool),
    /// Refresh now, whatever the schedule says.
    ForceRefresh,
}

/// The events of the first state: only a locked screen is worth one.
pub open spec fn startup_events(locked: bool) -> Seq<LockEvent> {
    if locked {
        seq![LockEvent::ScreenLock(true)]
    } else {
        Seq::empty()
    }
}

/// The events of a change; a repeated state is no change.
pub open spec fn transition_events(last: bool, new: bool) -> Seq<LockEvent> {
    if new == last {
        Seq::empty()
    } else if new {
        seq![LockEvent::ScreenLock(true)]
    } else {
        seq![LockEvent::ScreenLock(false), LockEvent::ForceRefresh]
    }
}

/// The state that a query came back with; unlocked where it failed.
pub fn initial_state(queried: Option<bool>) -> (r: bool)
    ensures
        r == (queried == Some(true)),
{
    match queried {
        Some(locked) => locked,
        None => false,
    }
}

/// The events of the first state.
pub fn on_startup(locked: bool) -> (r: Vec<LockEvent>)
    ensures
        r@ == startup_events(locked),
{
    let mut events: Vec<LockEvent> = Vec::new();
    if locked {
        events.push(LockEvent::ScreenLock(true));
    }
    events
}

/// The events of a change.
pub fn on_active_changed(last: bool, new: bool) -> (r: Vec<LockEvent>)
    ensures
        r@ == transition_events(last, new),
{
    let mut events: Vec<LockEvent> = Vec::new();
    if new == last {
        return events;
    }
    events.push(LockEvent::ScreenLock(new));
    if !new {
        events.push(LockEvent::ForceRefresh);
    }
    events
}

/// A refresh is forced exactly when the screen is unlocked, and the unlocking is
/// reported before it.
pub proof fn law_unlocking_forces_a_refresh(last: bool, new: bool)
    ensures
        transition_events(last, new).contains(LockEvent::ForceRefresh) <==> (last && !new),
        last && !new ==> transition_events(last, new)[0] == LockEvent::ScreenLock(false),
{
    let e = transition_events(last, new);
    if last && !new {
        assert(e[1] == LockEvent::ForceRefresh);
    }
}

/// Locking is reported alone, unlocking with a refresh behind it, and no change as
/// nothing; at the start only a locked screen is reported.
pub proof fn law_every_change_is_reported(last: bool, new: bool)
    ensures
        last == new ==> transition_events(last, new).len() == 0,
        !last && new ==> transition_events(last, new) == seq![LockEvent::ScreenLock(true)],
        last && !new ==> transition_events(last, new) == seq![
            LockEvent::ScreenLock(false),
            LockEvent::ForceRefresh,
        ],
        startup_events(true) == seq![LockEvent::ScreenLock(true)],
        startup_events(false).len() == 0,
{
}

} // verus!
