//! What the bookkeeping tells a client: that a popup was dismissed, or that
//! the client broke the protocol.

use vstd::prelude::*;
use wayland_protocols::xdg::shell::server::{xdg_popup, xdg_wm_base};
use crate::popup::PopupKind;
use crate::surfaces::SurfaceId;

verus! {

/// A violation of the protocol that is reported to the client.
#[derive(Clone, Copy, Debug, PartialEq, Eq, Structural)]
pub enum ProtocolError {
    /// A grab was requested for a popup that is already mapped.
    InvalidGrab,
    /// A grab was requested for a popup that was not opened on the topmost
    /// popup.
    NotTheTopmostPopup,
}

/// Calls `u32::from` on `xdg_popup::Error::InvalidGrab`: the number that
/// the error has on the wire. The protocol description gives `invalid_grab`
/// the value 0, and the conversion of the generated enum to `u32` yields
/// the value of the variant. This is believed, not proved.
#[verifier::external_body]
fn invalid_grab_code() -> (code: u32)
    ensures
        code == 0,
{
    u32::from(xdg_popup::Error::InvalidGrab)
}

/// Calls `u32::from` on `xdg_wm_base::Error::NotTheTopmostPopup`: the
/// number that the error has on the wire. The protocol description gives
/// `not_the_topmost_popup` the value 2, and the conversion of the generated
/// enum to `u32` yields the value of the variant. This is believed, not
/// proved.
#[verifier::external_body]
fn not_the_topmost_popup_code() -> (code: u32)
    ensures
        code == 2,
{
    u32::from(xdg_wm_base::Error::NotTheTopmostPopup)
}

impl ProtocolError {
    /// The number of the error on the wire.
    pub open spec fn wire_code(self) -> u32 {
        match self {
            ProtocolError::InvalidGrab => 0,
            ProtocolError::NotTheTopmostPopup => 2,
        }
    }

    /// The text that accompanies the error.
    pub open spec fn text(self) -> Seq<char> {
        match self {
            ProtocolError::InvalidGrab => "xdg_popup already is mapped"@,
            ProtocolError::NotTheTopmostPopup => "xdg_popup was not created on the topmost popup"@,
        }
    }

    /// The number of the error on the wire.
    pub fn code(&self) -> (code: u32)
        ensures
            code == self.wire_code(),
    {
        match self {
            ProtocolError::InvalidGrab => invalid_grab_code(),
            ProtocolError::NotTheTopmostPopup => not_the_topmost_popup_code(),
        }
    }

    /// The text that accompanies the error.
    pub fn message(&self) -> (message: &'static str)
        ensures
            message@ == self.text(),
    {
        match self {
            ProtocolError::InvalidGrab => "xdg_popup already is mapped",
            ProtocolError::NotTheTopmostPopup => "xdg_popup was not created on the topmost popup",
        }
    }
}

/// Something that is sent to the client of a surface.
#[derive(Clone, Copy, Debug, PartialEq, Eq, Structural)]
pub enum ClientEvent {
    /// The popup on `surface` was dismissed.
    PopupDone { surface: SurfaceId },
    /// The client broke the protocol; the error is posted on `surface`.
    Error { surface: SurfaceId, error: ProtocolError },
}

/// The notifications that tell the clients of `popups`, one after the
/// other, that their popup was dismissed.
pub open spec fn done_events(popups: Seq<PopupKind>) -> Seq<ClientEvent> {
    popups.map_values(|popup: PopupKind| ClientEvent::PopupDone { surface: popup.id() })
}

} // verus!
