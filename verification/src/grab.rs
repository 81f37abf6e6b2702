//! The chain of explicit grabs that the popups of one seat hold.

use vstd::prelude::*;
use crate::popup::{PopupGrabError, PopupKind, SeatId};
use crate::surfaces::{SurfaceId, Surfaces};
use crate::utils::Serial;

verus! {

/// The model of a chain of grabs: the seat, and the popups that hold a grab
/// with the serial of each, the topmost last.
pub struct ChainModel {
    pub seat: SeatId,
    pub grabs: Seq<(PopupKind, Serial)>,
}

/// Whether a popup on `surface` holds one of `grabs`.
pub open spec fn holds_grab(grabs: Seq<(PopupKind, Serial)>, surface: SurfaceId) -> bool {
    exists|i: int| 0 <= i < grabs.len() && (#[trigger] grabs[i]).0.id() == surface
}

/// What a chain that holds `grabs` answers when `popup` asks for a grab.
///
/// A popup without a parent is refused as a dead resource. The grab is
/// granted, with the serial of the topmost grab, where the popup was opened
/// on the popup that holds the topmost grab; and, without that serial,
/// where nothing holds a grab and the popup was opened on a surface that is
/// no popup. Otherwise it is refused: because the parent was dismissed,
/// where the parent is a popup that holds no grab; else because the popup
/// was not opened on the topmost popup.
pub open spec fn grab_answer(
    grabs: Seq<(PopupKind, Serial)>,
    surfaces: &Surfaces,
    popup: PopupKind,
) -> Result<Option<Serial>, PopupGrabError> {
    match surfaces.parent_of(popup.id()) {
        None => Err(PopupGrabError::DeadResource),
        Some(parent) => {
            if grabs.len() > 0 && grabs.last().0.id() == parent {
                Ok(Some(grabs.last().1))
            } else if grabs.len() == 0 && !surfaces.has_popup_role(parent) {
                Ok(None)
            } else if surfaces.has_popup_role(parent) && !holds_grab(grabs, parent) {
                Err(PopupGrabError::ParentDismissed)
            } else {
                Err(PopupGrabError::NotTheTopmostPopup)
            }
        },
    }
}

/// The test that keeps the grabs of popups whose surface is alive.
pub open spec fn grab_is_alive(surfaces: &Surfaces) -> spec_fn((PopupKind, Serial)) -> bool {
    |grab: (PopupKind, Serial)| surfaces.is_alive(grab.0.id())
}

impl ChainModel {
    /// Whether a popup holds a grab.
    pub open spec fn active(self) -> bool {
        self.grabs.len() > 0
    }

    /// The chain after `popup` asked for a grab with `serial`: longer by
    /// that grab where it was granted, the same where it was refused.
    pub open spec fn after_grab(
        self,
        surfaces: &Surfaces,
        popup: PopupKind,
        serial: Serial,
    ) -> ChainModel {
        if grab_answer(self.grabs, surfaces, popup) is Ok {
            ChainModel { seat: self.seat, grabs: self.grabs.push((popup, serial)) }
        } else {
            self
        }
    }

    /// The chain without the grabs of popups whose surface is dead.
    pub open spec fn cleaned(self, surfaces: &Surfaces) -> ChainModel {
        ChainModel { seat: self.seat, grabs: self.grabs.filter(grab_is_alive(surfaces)) }
    }
}

/// The chain of grabs of one seat.
#[derive(Debug)]
pub struct PopupGrabInner {
    seat: SeatId,
    grabs: Vec<(PopupKind, Serial)>,
}

impl View for PopupGrabInner {
    type V = ChainModel;

    closed spec fn view(&self) -> ChainModel {
        ChainModel { seat: self.seat, grabs: self.grabs@ }
    }
}

impl PopupGrabInner {
    /// The chain of `seat`, in which nothing holds a grab yet.
    pub fn new(seat: SeatId) -> (chain: PopupGrabInner)
        ensures
            chain@ == (ChainModel { seat, grabs: Seq::empty() }),
    {
        PopupGrabInner { seat, grabs: Vec::new() }
    }

    /// The seat whose chain this is.
    pub fn seat(&self) -> (seat: SeatId)
        ensures
            seat == self@.seat,
    {
        self.seat
    }

    /// The popups that hold a grab with the serial of each, the topmost
    /// last.
    pub fn grabs(&self) -> (grabs: &Vec<(PopupKind, Serial)>)
        ensures
            grabs@ == self@.grabs,
    {
        &self.grabs
    }

    /// Whether a popup holds a grab.
    pub fn active(&self) -> (active: bool)
        ensures
            active == self@.active(),
    {
        !self.grabs.is_empty()
    }

    /// Whether the chain is still needed: whether a popup holds a grab.
    pub fn alive(&self) -> (alive: bool)
        ensures
            alive == self@.active(),
    {
        self.active()
    }

    /// The popup that holds the topmost grab, with the serial of that grab.
    pub fn current_grab(&self) -> (current: Option<(PopupKind, Serial)>)
        ensures
            current == if self@.grabs.len() > 0 {
                Some(self@.grabs.last())
            } else {
                None
            },
    {
        if self.grabs.len() > 0 {
            Some(self.grabs[self.grabs.len() - 1])
        } else {
            None
        }
    }

    /// Whether a popup on `surface` holds a grab.
    pub fn holds(&self, surface: SurfaceId) -> (held: bool)
        ensures
            held == holds_grab(self@.grabs, surface),
    {
        let mut i: usize = 0;
        while i < self.grabs.len()
            invariant
                i <= self.grabs.len(),
                forall|j: int| 0 <= j < i ==> (#[trigger] self.grabs@[j]).0.id() != surface,
            decreases self.grabs.len() - i,
        {
            if self.grabs[i].0.wl_surface() == surface {
                return true;
            }
            i += 1;
        }
        false
    }

    /// Asks for a grab for `popup` with `serial`. Where it is granted, the
    /// popup becomes the topmost of the chain, and the serial of the grab
    /// below it is returned. Where it is refused, the chain stays as it is.
    pub fn grab(
        &mut self,
        surfaces: &Surfaces,
        popup: PopupKind,
        serial: Serial,
    ) -> (answer: Result<
        Option<Serial>,
        PopupGrabError,
    >)
        ensures
            answer == grab_answer(old(self)@.grabs, surfaces, popup),
            final(self)@ == old(self)@.after_grab(surfaces, popup, serial),
    {
        let parent = match popup.parent(surfaces) {
            Some(parent) => parent,
            None => {
                return Err(PopupGrabError::DeadResource);
            },
        };
        let previous = match self.current_grab() {
            Some((top, top_serial)) => {
                if top.wl_surface() != parent {
                    if surfaces.is_popup(parent) && !self.holds(parent) {
                        return Err(PopupGrabError::ParentDismissed);
                    }
                    return Err(PopupGrabError::NotTheTopmostPopup);
                }
                Some(top_serial)
            },
            None => {
                if surfaces.is_popup(parent) {
                    assert(!holds_grab(self@.grabs, parent));
                    return Err(PopupGrabError::ParentDismissed);
                }
                None
            },
        };
        self.grabs.push((popup, serial));
        Ok(previous)
    }

    /// Lets go of the grabs of popups whose surface is dead.
    pub fn cleanup(&mut self, surfaces: &Surfaces)
        ensures
            final(self)@ == old(self)@.cleaned(surfaces),
    {
        let mut kept: Vec<(PopupKind, Serial)> = Vec::new();
        let mut i: usize = 0;
        proof {
            reveal(Seq::filter);
            assert(self.grabs@.take(0) =~= Seq::empty());
        }
        while i < self.grabs.len()
            invariant
                i <= self.grabs.len(),
                self.seat == old(self).seat,
                self.grabs@ == old(self).grabs@,
                kept@ == self.grabs@.take(i as int).filter(grab_is_alive(surfaces)),
            decreases self.grabs.len() - i,
        {
            let grab = self.grabs[i];
            proof {
                reveal(Seq::filter);
                assert(self.grabs@.take(i as int + 1).drop_last() =~= self.grabs@.take(i as int));
            }
            if grab.0.alive(surfaces) {
                kept.push(grab);
            }
            i += 1;
        }
        assert(self.grabs@.take(i as int) =~= self.grabs@);
        self.grabs = kept;
    }
}

} // verus!
