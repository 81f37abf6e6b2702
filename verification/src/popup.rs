//! Handles to popups.

use vstd::prelude::*;
use crate::surfaces::{SurfaceId, Surfaces};
use crate::utils::{Point, Serial};

verus! {

/// A handle to a popup of the xdg shell: the identity of its surface.
#[derive(Clone, Copy, Debug, PartialEq, Eq, Structural)]
pub struct PopupSurface {
    pub surface: SurfaceId,
}

/// A handle to a popup, whatever protocol it came by.
#[derive(Clone, Copy, Debug, PartialEq, Eq, Structural)]
pub enum PopupKind {
    /// A popup of the xdg shell.
    Xdg(PopupSurface),
}

impl PopupKind {
    /// The identity of the popup's surface.
    pub open spec fn id(self) -> SurfaceId {
        match self {
            PopupKind::Xdg(xdg) => xdg.surface,
        }
    }

    /// The handle to the popup on `surface`.
    pub open spec fn on(surface: SurfaceId) -> PopupKind {
        PopupKind::Xdg(PopupSurface { surface })
    }

    /// The handle to the xdg popup on `surface`.
    pub fn xdg(surface: SurfaceId) -> (kind: PopupKind)
        ensures
            kind == PopupKind::on(surface),
    {
        PopupKind::Xdg(PopupSurface { surface })
    }

    /// The identity of the popup's surface.
    pub fn wl_surface(&self) -> (surface: SurfaceId)
        ensures
            surface == self.id(),
    {
        match self {
            PopupKind::Xdg(xdg) => xdg.surface,
        }
    }

    /// Whether the popup's surface still exists.
    pub fn alive(&self, surfaces: &Surfaces) -> (alive: bool)
        ensures
            alive == surfaces.is_alive(self.id()),
    {
        surfaces.alive(self.wl_surface())
    }

    /// The declared parent of the popup, once it has one.
    pub fn parent(&self, surfaces: &Surfaces) -> (parent: Option<SurfaceId>)
        ensures
            parent == surfaces.parent_of(self.id()),
    {
        surfaces.parent(self.wl_surface())
    }

    /// The placement of the popup relative to its parent.
    pub fn location(&self, surfaces: &Surfaces) -> (location: Point)
        ensures
            location == surfaces.location_of(self.id()),
    {
        surfaces.location(self.wl_surface())
    }
}

/// Why a grab was denied.
#[derive(Clone, Copy, Debug, PartialEq, Eq, Structural)]
pub enum PopupGrabError {
    /// The root of the popup cannot be resolved.
    DeadResource,
    /// The target of the grab is no popup, or its surface is gone.
    NoPopup,
    /// The popup is already mapped.
    InvalidGrab,
    /// The popup that the target was opened on no longer holds a grab.
    ParentDismissed,
    /// The target was not opened on the popup that holds the topmost grab.
    NotTheTopmostPopup,
}

/// A handle to the keyboard of a seat.
#[derive(Clone, Copy, Debug, PartialEq, Eq, Structural)]
pub struct KeyboardHandle(pub u64);

/// The identity of a seat.
pub type SeatId = u64;

/// What the bookkeeping reads of a seat: its identity and its keyboard, if
/// it has one.
#[derive(Clone, Copy, Debug, PartialEq, Eq, Structural)]
pub struct Seat {
    pub id: SeatId,
    pub keyboard: Option<KeyboardHandle>,
}

impl Seat {
    /// The keyboard of the seat, if it has one.
    pub fn get_keyboard(&self) -> (keyboard: Option<KeyboardHandle>)
        ensures
            keyboard == self.keyboard,
    {
        self.keyboard
    }
}

/// A grab that was granted: the seat whose chain of grabs holds it, the
/// popup, the serial it was taken with, the serial of the grab below it and
/// the keyboard of the seat at that moment.
#[derive(Clone, Copy, Debug, PartialEq, Eq, Structural)]
pub struct PopupGrab {
    pub seat: SeatId,
    pub popup: PopupKind,
    pub serial: Serial,
    pub previous_serial: Option<Serial>,
    pub keyboard: Option<KeyboardHandle>,
}

impl PopupGrab {
    /// Bundles what belongs to a granted grab.
    pub fn new(
        seat: SeatId,
        popup: PopupKind,
        serial: Serial,
        previous_serial: Option<Serial>,
        keyboard: Option<KeyboardHandle>,
    ) -> (grab: PopupGrab)
        ensures
            grab == (PopupGrab { seat, popup, serial, previous_serial, keyboard }),
    {
        PopupGrab { seat, popup, serial, previous_serial, keyboard }
    }
}

} // verus!
