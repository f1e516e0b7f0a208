//! Connectivity: from the network manager's states to events of the tray.
use vstd::prelude::*;

verus! {

/// State of the network manager in which the machine is fully online.
pub const CONNECTED_GLOBAL: u32 = 70;

/// What happened to the network.
#[derive(Debug, Clone, PartialEq, Eq, Structural)]
pub enum NetEvent {
    /// Whether the machine is online has been reported.
    Connectivity(bool),
    /// Refresh now, whatever the schedule says.
    ForceRefresh,
}

/// The events of the first state: only being offline is worth one.
pub open spec fn startup_events(state: u32) -> Seq<NetEvent> {
    if state == CONNECTED_GLOBAL {
        Seq::empty()
    } else {
        seq![NetEvent::Connectivity(false)]
    }
}

/// The events of a change of state; a repeated state is no change.
pub open spec fn transition_events(last: u32, new: u32) -> Seq<NetEvent> {
    if new == last {
        Seq::empty()
    } else if new == CONNECTED_GLOBAL {
        seq![NetEvent::Connectivity(true), NetEvent::ForceRefresh]
    } else {
        seq![NetEvent::Connectivity(false)]
    }
}

/// The state that a query came back with; online where it failed.
pub fn initial_state(queried: Option<u32>) -> (r: u32)
    ensures
        r == (match queried {
            Some(s) => s,
            None => CONNECTED_GLOBAL,
        }),
{
    match queried {
        Some(s) => s,
        None => CONNECTED_GLOBAL,
    }
}

/// The events of the first state.
pub fn on_startup(state: u32) -> (r: Vec<NetEvent>)
    ensures
        r@ == startup_events(state),
{
    let mut events: Vec<NetEvent> = Vec::new();
    if state != CONNECTED_GLOBAL {
        events.push(NetEvent::Connectivity(false));
    }
    events
}

/// The events of a change of state.
pub fn on_state_changed(last: u32, new: u32) -> (r: Vec<NetEvent>)
    ensures
        r@ == transition_events(last, new),
{
    let mut events: Vec<NetEvent> = Vec::new();
    if new == last {
        return events;
    }
    let online = new == CONNECTED_GLOBAL;
    events.push(NetEvent::Connectivity(online));
    if online {
        events.push(NetEvent::ForceRefresh);
    }
    events
}

/// A refresh is forced exactly when the machine comes online, and being online is
/// reported before it.
pub proof fn law_reconnecting_forces_a_refresh(last: u32, new: u32)
    ensures
        transition_events(last, new).contains(NetEvent::ForceRefresh) <==> (last
            != CONNECTED_GLOBAL && new == CONNECTED_GLOBAL),
        last != CONNECTED_GLOBAL && new == CONNECTED_GLOBAL ==> transition_events(last, new)[0]
            == NetEvent::Connectivity(true),
{
    let e = transition_events(last, new);
    if last != CONNECTED_GLOBAL && new == CONNECTED_GLOBAL {
        assert(e[1] == NetEvent::ForceRefresh);
    }
}

/// A change is reported as being online exactly where the new state is 70, with a refresh
/// behind it, else as being offline alone; no change is reported as nothing, and at the
/// start only being offline is.
pub proof fn law_every_change_is_reported(last: u32, new: u32)
    ensures
        last == new ==> transition_events(last, new).len() == 0,
        last != new && new == 70 ==> transition_events(last, new) == seq![
            NetEvent::Connectivity(true),
            NetEvent::ForceRefresh,
        ],
        last != new && new != 70 ==> transition_events(last, new) == seq![
            NetEvent::Connectivity(false),
        ],
        new == 70 ==> startup_events(new).len() == 0,
        new != 70 ==> startup_events(new) == seq![NetEvent::Connectivity(false)],
{
}

} // verus!
