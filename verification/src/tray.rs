//! The tray menu's connect/disconnect item: what a click does in each
//! connection state. Showing windows and sending events is the caller's.
use vstd::prelude::*;

use crate::models::ConnectionStatus;
use crate::xray::{contains_text, text_contains};

verus! {

/// What a click on the tray's connect/disconnect item does.
#[derive(Debug, Clone, Copy, PartialEq, Eq, Structural)]
pub enum TrayToggle {
    /// Announce `disconnecting` and stop the connection (announcing
    /// `connected` again when the stop fails).
    Disconnect,
    /// Show the main window and ask it to connect with the server it has
    /// selected.
    RequestConnect,
    /// Nothing while a stop is under way.
    Wait,
}

/// What a click does: a connection that is up or coming up is stopped; one
/// that is down or failed is requested; nothing while it goes down.
pub fn tray_toggle(status: ConnectionStatus) -> (r: TrayToggle)
    ensures
        (status == ConnectionStatus::Connected || status == ConnectionStatus::Connecting) ==> r
            == TrayToggle::Disconnect,
        (status == ConnectionStatus::Disconnected || status == ConnectionStatus::Error) ==> r
            == TrayToggle::RequestConnect,
        status == ConnectionStatus::Disconnecting ==> r == TrayToggle::Wait,
{
    match status {
        ConnectionStatus::Connected | ConnectionStatus::Connecting => TrayToggle::Disconnect,
        ConnectionStatus::Disconnected | ConnectionStatus::Error => TrayToggle::RequestConnect,
        ConnectionStatus::Disconnecting => TrayToggle::Wait,
    }
}


/// The label of the connect/disconnect item after a
/// `connection-status-changed` event with this payload: `Disconnect` when
/// it says `connected` (and not `disconnected`), `Connect` otherwise.
pub fn toggle_label(payload: &str) -> (r: &'static str)
    ensures
        r@ == (if text_contains(payload@, "connected"@) && !text_contains(payload@, "disconnected"@) {
            "Disconnect"@
        } else {
            "Connect"@
        }),
{
    if contains_text(payload, "connected") && !contains_text(payload, "disconnected") {
        "Disconnect"
    } else {
        "Connect"
    }
}

} // verus!
