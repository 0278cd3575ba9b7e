//! The decisions of the desktop tray: what a menu entry does, the request it
//! sends to the local API, and how the backend is started.
use vstd::prelude::*;

use crate::text::{append_str, str_is, string_from_chars};

verus! {

/// What a tray menu entry asks for.
#[derive(Debug, Clone, Copy, PartialEq, Eq, Structural)]
pub enum MenuAction {
    /// Show the main window.
    Open,
    /// Turn protection on, then show the main window.
    EnableProtection,
    /// Turn protection off, then show the main window.
    DisableProtection,
    /// Leave the application.
    Quit,
    /// An entry the tray does not know: nothing happens.
    Ignore,
}

/// The action of a menu entry, by its id.
pub open spec fn menu_action_of(id: Seq<char>) -> MenuAction {
    if id == "open"@ {
        MenuAction::Open
    } else if id == "enable_protection"@ {
        MenuAction::EnableProtection
    } else if id == "disable_protection"@ {
        MenuAction::DisableProtection
    } else if id == "quit"@ {
        MenuAction::Quit
    } else {
        MenuAction::Ignore
    }
}

/// The action of a menu entry.
pub fn menu_action(id: &str) -> (a: MenuAction)
    ensures
        a == menu_action_of(id@),
{
    if str_is(id, "open") {
        MenuAction::Open
    } else if str_is(id, "enable_protection") {
        MenuAction::EnableProtection
    } else if str_is(id, "disable_protection") {
        MenuAction::DisableProtection
    } else if str_is(id, "quit") {
        MenuAction::Quit
    } else {
        MenuAction::Ignore
    }
}

/// The API path that a menu action posts to, if any.
pub fn api_path_of(action: MenuAction) -> (p: Option<&'static str>)
    ensures
        action == MenuAction::EnableProtection ==> (p matches Some(s) && s@
            == "/protection/enable"@),
        action == MenuAction::DisableProtection ==> (p matches Some(s) && s@
            == "/protection/disable"@),
        action != MenuAction::EnableProtection && action != MenuAction::DisableProtection ==> p
            is None,
{
    match action {
        MenuAction::EnableProtection => Some("/protection/enable"),
        MenuAction::DisableProtection => Some("/protection/disable"),
        _ => None,
    }
}

/// The request that the tray sends to the local API for a path.
pub open spec fn post_request(path: Seq<char>) -> Seq<char> {
    "POST "@ + path
        + " HTTP/1.1\r\nHost: 127.0.0.1:4780\r\nConnection: close\r\nContent-Length: 0\r\n\r\n"@
}

/// Writes the request that the tray sends to the local API for a path.
pub fn api_post_request(path: &str) -> (r: String)
    ensures
        r@ == post_request(path@),
{
    let mut out: Vec<char> = Vec::new();
    append_str(&mut out, "POST ");
    append_str(&mut out, path);
    append_str(
        &mut out,
        " HTTP/1.1\r\nHost: 127.0.0.1:4780\r\nConnection: close\r\nContent-Length: 0\r\n\r\n",
    );
    string_from_chars(out.as_slice())
}

/// The arguments that start the backend: `dev-run --db <database>`.
pub fn sidecar_args(db_path: &str) -> (r: Vec<String>)
    ensures
        r@.len() == 3,
        r@[0]@ == "dev-run"@,
        r@[1]@ == "--db"@,
        r@[2]@ == db_path@,
{
    let mut r: Vec<String> = Vec::new();
    r.push("dev-run".to_owned());
    r.push("--db".to_owned());
    r.push(db_path.to_owned());
    r
}

} // verus!
