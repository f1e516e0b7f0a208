//! Opening a link through the desktop portal.
use crate::text::opt_str_view;
use vstd::prelude::*;

verus! {

pub const PORTAL_BUS: &'static str = "org.freedesktop.portal.Desktop";

pub const PORTAL_PATH: &'static str = "/org/freedesktop/portal/desktop";

pub const PORTAL_IFACE: &'static str = "org.freedesktop.portal.OpenURI";

/// The options of a call, name by name.
pub open spec fn options_view(o: Seq<(&'static str, String)>) -> Seq<(Seq<char>, Seq<char>)> {
    o.map_values(|p: (&'static str, String)| (p.0@, p.1@))
}

/// The options of a call that opens a link: the activation token as it is, where
/// there is one, and nothing else.
pub open spec fn open_uri_options(token: Option<Seq<char>>) -> Seq<(Seq<char>, Seq<char>)> {
    match token {
        Some(t) => seq![("activation_token"@, t)],
        None => Seq::empty(),
    }
}

/// The options of a call that opens a link.
pub fn build_open_uri_options(activation_token: Option<&str>) -> (r: Vec<(&'static str, String)>)
    ensures
        options_view(r@) == open_uri_options(opt_str_view(activation_token)),
{
    let mut options: Vec<(&'static str, String)> = Vec::new();
    if let Some(token) = activation_token {
        options.push(("activation_token", token.to_owned()));
    }
    assert(options_view(options@) =~= open_uri_options(opt_str_view(activation_token)));
    options
}

/// How a link is opened.
#[derive(Debug, Clone, Copy, PartialEq, Eq, Structural)]
pub enum Opener {
    /// Not at all: there is no link.
    Nothing,
    Portal,
    /// The `xdg-open` command.
    Command,
}

/// The way to open a link: the portal first, the command where it failed.
pub fn choose_opener(url: &str, portal_failed: bool) -> (r: Opener)
    ensures
        r == (if url@.len() == 0 {
            Opener::Nothing
        } else if portal_failed {
            Opener::Command
        } else {
            Opener::Portal
        }),
{
    if url.is_empty() {
        Opener::Nothing
    } else if portal_failed {
        Opener::Command
    } else {
        Opener::Portal
    }
}

/// A link is opened with the activation token, under its name and as it is, where there
/// is one, and with no option else.
pub proof fn law_only_the_token_is_passed_on(token: Seq<char>)
    ensures
        open_uri_options(Some(token)) == seq![("activation_token"@, token)],
        open_uri_options(None).len() == 0,
{
}

} // verus!
