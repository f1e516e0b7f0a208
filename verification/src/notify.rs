//! Desktop notifications: what is sent to the notification portal, and to the
//! notification server where there is no portal.
use vstd::prelude::*;

verus! {

pub const NOTIF_BUS: &'static str = "org.freedesktop.Notifications";

pub const NOTIF_PATH: &'static str = "/org/freedesktop/Notifications";

pub const NOTIF_IFACE: &'static str = "org.freedesktop.Notifications";

pub const PORTAL_NOTIF_IFACE: &'static str = "org.freedesktop.portal.Notification";

pub const PORTAL_APP_ID: &'static str = "llm-quota-tray.desktop";

/// How urgent a notification is.
#[derive(Debug, Clone, Copy, PartialEq, Eq, Structural)]
pub enum Urgency {
    Low,
    Normal,
    Critical,
}

impl Urgency {
    /// The urgency's place in the notification server's order.
    pub open spec fn byte(self) -> int {
        match self {
            Urgency::Low => 0,
            Urgency::Normal => 1,
            Urgency::Critical => 2,
        }
    }

    /// The portal's word for the urgency.
    pub open spec fn priority(self) -> Seq<char> {
        match self {
            Urgency::Low => "low"@,
            Urgency::Normal => "normal"@,
            Urgency::Critical => "urgent"@,
        }
    }

    /// The byte of the notification server's `urgency` hint.
    pub fn to_byte(self) -> (r: u8)
        ensures
            r == self.byte(),
    {
        match self {
            Urgency::Low => 0,
            Urgency::Normal => 1,
            Urgency::Critical => 2,
        }
    }

    /// The portal's `priority` field.
    pub fn to_priority(self) -> (r: &'static str)
        ensures
            r@ == self.priority(),
    {
        match self {
            Urgency::Low => "low",
            Urgency::Normal => "normal",
            Urgency::Critical => "urgent",
        }
    }
}

/// A notification.
#[derive(Debug)]
pub struct Notification {
    /// Kind of the notification; a new one replaces the shown one of its kind.
    pub tag: &'static str,
    pub title: String,
    pub body: String,
    pub urgency: Urgency,
}

/// The fields of a notification, name by name.
pub open spec fn fields_view(f: Seq<(&'static str, String)>) -> Seq<(Seq<char>, Seq<char>)> {
    f.map_values(|p: (&'static str, String)| (p.0@, p.1@))
}

/// What the portal is told about a notification.
pub open spec fn portal_fields_of(n: Notification, token: Option<Seq<char>>) -> Seq<
    (Seq<char>, Seq<char>),
> {
    let base = seq![
        ("title"@, n.title@),
        ("body"@, n.body@),
        ("priority"@, n.urgency.priority()),
    ];
    match token {
        Some(t) => base.push(("activation_token"@, t)),
        None => base,
    }
}

/// What the portal is told about a notification: title, body, priority, and the
/// activation token where there is one.
pub fn portal_fields(n: &Notification, activation_token: Option<&str>) -> (r: Vec<
    (&'static str, String),
>)
    ensures
        fields_view(r@) == portal_fields_of(*n, crate::text::opt_str_view(activation_token)),
{
    let mut fields: Vec<(&'static str, String)> = Vec::new();
    fields.push(("title", n.title.clone()));
    fields.push(("body", n.body.clone()));
    fields.push(("priority", n.urgency.to_priority().to_owned()));
    if let Some(token) = activation_token {
        fields.push(("activation_token", token.to_owned()));
    }
    assert(fields_view(fields@) =~= portal_fields_of(
        *n,
        crate::text::opt_str_view(activation_token),
    ));
    fields
}

/// A notification as the notification server takes it.
#[derive(Debug)]
pub struct DirectNotification {
    pub app_name: &'static str,
    pub replaces_id: u32,
    pub icon: &'static str,
    pub summary: String,
    pub body: String,
    /// Value of the `urgency` hint.
    pub urgency: u8,
    /// Value of the `x-canonical-private-synchronous` hint.
    pub synchronous: &'static str,
    /// Milliseconds until it goes away; the server decides where it is negative.
    pub expire_timeout: i32,
}

/// A notification as the notification server takes it.
pub fn direct_notification(n: &Notification) -> (r: DirectNotification)
    ensures
        r.app_name@ == "llm-quota-tray.desktop"@,
        r.replaces_id == 0,
        r.icon@ == ""@,
        r.summary@ == n.title@,
        r.body@ == n.body@,
        r.urgency == n.urgency.byte(),
        r.synchronous@ == n.tag@,
        r.expire_timeout == -1,
{
    DirectNotification {
        app_name: PORTAL_APP_ID,
        replaces_id: 0,
        icon: "",
        summary: n.title.clone(),
        body: n.body.clone(),
        urgency: n.urgency.to_byte(),
        synchronous: n.tag,
        expire_timeout: -1,
    }
}

/// How a notification goes out, given which ways failed so far.
#[derive(Debug, Clone, Copy, PartialEq, Eq, Structural)]
pub enum Route {
    Portal,
    Direct,
    GivenUp,
}

/// The way to try after one failed.
pub fn next_route(failed: Route) -> (r: Route)
    ensures
        r == (match failed {
            Route::Portal => Route::Direct,
            Route::Direct => Route::GivenUp,
            Route::GivenUp => Route::GivenUp,
        }),
{
    match failed {
        Route::Portal => Route::Direct,
        Route::Direct => Route::GivenUp,
        Route::GivenUp => Route::GivenUp,
    }
}

/// The two encodings of urgency agree: different urgencies have different bytes
/// and different priorities.
pub proof fn law_urgency_encodings_agree(a: Urgency, b: Urgency)
    ensures
        a.byte() == b.byte() <==> a == b,
        a.priority() == b.priority() <==> a == b,
{
    reveal_strlit("low");
    reveal_strlit("normal");
    reveal_strlit("urgent");
    assert("low"@.len() == 3 && "normal"@.len() == 6 && "urgent"@.len() == 6);
    assert("normal"@[0] == 'n' && "urgent"@[0] == 'u');
}

/// The portal is told title, body and priority of a notification under those names, and
/// the activation token where there is one, and nothing else. More urgent notifications
/// rank higher with the notification server.
pub proof fn law_portal_is_told_the_notification(n: Notification, token: Seq<char>)
    ensures
        portal_fields_of(n, None).len() == 3,
        portal_fields_of(n, None)[0] == ("title"@, n.title@),
        portal_fields_of(n, None)[1] == ("body"@, n.body@),
        portal_fields_of(n, None)[2].0 == "priority"@,
        n.urgency == Urgency::Critical ==> portal_fields_of(n, None)[2].1 == "urgent"@,
        n.urgency == Urgency::Normal ==> portal_fields_of(n, None)[2].1 == "normal"@,
        n.urgency == Urgency::Low ==> portal_fields_of(n, None)[2].1 == "low"@,
        portal_fields_of(n, Some(token)) == portal_fields_of(n, None).push(
            ("activation_token"@, token),
        ),
        0 == Urgency::Low.byte(),
        Urgency::Low.byte() + 1 == Urgency::Normal.byte(),
        Urgency::Normal.byte() + 1 == Urgency::Critical.byte(),
{
}

} // verus!
