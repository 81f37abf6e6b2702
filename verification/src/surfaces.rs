//! The per-surface state that the protocol layer records and that the popup
//! bookkeeping reads: liveness, the popup role, the declared parent, the
//! placement and the committed flag.

use vstd::prelude::*;
use crate::utils::Point;

verus! {

/// The identity of a surface: its position in the table of surfaces.
/// Identities are never reused.
pub type SurfaceId = usize;

/// What is recorded for one surface.
#[derive(Clone, Copy, Debug, PartialEq, Eq, Structural)]
pub struct SurfaceData {
    /// False once the client has destroyed the surface.
    pub alive: bool,
    /// Whether the surface carries the popup role.
    pub popup: bool,
    /// The declared parent surface, once there is one.
    pub parent: Option<SurfaceId>,
    /// The placement relative to the parent.
    pub location: Point,
    /// Whether the popup has been committed and is mapped.
    pub committed: bool,
}

/// The table of all surfaces that were ever created. A surface that was
/// destroyed keeps its entry; an identity without an entry reads as a dead
/// surface without role, parent or placement.
#[derive(Debug)]
pub struct Surfaces {
    entries: Vec<SurfaceData>,
}

impl View for Surfaces {
    type V = Seq<SurfaceData>;

    closed spec fn view(&self) -> Seq<SurfaceData> {
        self.entries@
    }
}

impl Surfaces {
    /// Whether `surface` has an entry.
    pub open spec fn knows(&self, surface: SurfaceId) -> bool {
        surface < self@.len()
    }

    /// Whether `surface` exists and has not been destroyed.
    pub open spec fn is_alive(&self, surface: SurfaceId) -> bool {
        self.knows(surface) && self@[surface as int].alive
    }

    /// Whether `surface` carries the popup role.
    pub open spec fn has_popup_role(&self, surface: SurfaceId) -> bool {
        self.knows(surface) && self@[surface as int].popup
    }

    /// The declared parent of `surface`, if it has one.
    pub open spec fn parent_of(&self, surface: SurfaceId) -> Option<SurfaceId> {
        if self.knows(surface) {
            self@[surface as int].parent
        } else {
            None
        }
    }

    /// The placement of `surface` relative to its parent; the origin for a
    /// surface without an entry.
    pub open spec fn location_of(&self, surface: SurfaceId) -> Point {
        if self.knows(surface) {
            self@[surface as int].location
        } else {
            Point { x: 0, y: 0 }
        }
    }

    /// Whether `surface` is recorded as committed.
    pub open spec fn is_committed(&self, surface: SurfaceId) -> bool {
        self.knows(surface) && self@[surface as int].committed
    }

    /// An empty table.
    pub fn new() -> (surfaces: Surfaces)
        ensures
            surfaces@ == Seq::<SurfaceData>::empty(),
    {
        Surfaces { entries: Vec::new() }
    }

    /// The number of surfaces that were ever created.
    pub fn len(&self) -> (n: usize)
        ensures
            n == self@.len(),
    {
        self.entries.len()
    }

    /// Records a new live surface without a role and returns its identity.
    pub fn create_surface(&mut self) -> (surface: SurfaceId)
        ensures
            surface == old(self)@.len(),
            final(self)@ == old(self)@.push(
                (SurfaceData {
                    alive: true,
                    popup: false,
                    parent: None,
                    location: Point { x: 0, y: 0 },
                    committed: false,
                }),
            ),
    {
        let surface = self.entries.len();
        self.entries.push(
            SurfaceData {
                alive: true,
                popup: false,
                parent: None,
                location: Point { x: 0, y: 0 },
                committed: false,
            },
        );
        surface
    }

    /// Records a new live surface with the popup role, not yet committed,
    /// and returns its identity.
    pub fn create_popup(&mut self, parent: Option<SurfaceId>, location: Point) -> (surface:
        SurfaceId)
        ensures
            surface == old(self)@.len(),
            final(self)@ == old(self)@.push(
                (SurfaceData { alive: true, popup: true, parent, location, committed: false }),
            ),
    {
        let surface = self.entries.len();
        self.entries.push(
            SurfaceData { alive: true, popup: true, parent, location, committed: false },
        );
        surface
    }

    /// Records whether `surface` carries the popup role. An unknown surface
    /// is left alone.
    pub fn set_role(&mut self, surface: SurfaceId, popup: bool)
        ensures
            !old(self).knows(surface) ==> final(self)@ == old(self)@,
            old(self).knows(surface) ==> final(self)@ == old(self)@.update(
                surface as int,
                (SurfaceData { popup, ..old(self)@[surface as int] }),
            ),
    {
        if surface < self.entries.len() {
            let entry = self.entries[surface];
            self.entries.set(surface, SurfaceData { popup, ..entry });
        }
    }

    /// Declares the parent of `surface`. An unknown surface is left alone.
    pub fn set_parent(&mut self, surface: SurfaceId, parent: Option<SurfaceId>)
        ensures
            !old(self).knows(surface) ==> final(self)@ == old(self)@,
            old(self).knows(surface) ==> final(self)@ == old(self)@.update(
                surface as int,
                (SurfaceData { parent, ..old(self)@[surface as int] }),
            ),
    {
        if surface < self.entries.len() {
            let entry = self.entries[surface];
            self.entries.set(surface, SurfaceData { parent, ..entry });
        }
    }

    /// Moves `surface` relative to its parent. An unknown surface is left
    /// alone.
    pub fn set_location(&mut self, surface: SurfaceId, location: Point)
        ensures
            !old(self).knows(surface) ==> final(self)@ == old(self)@,
            old(self).knows(surface) ==> final(self)@ == old(self)@.update(
                surface as int,
                (SurfaceData { location, ..old(self)@[surface as int] }),
            ),
    {
        if surface < self.entries.len() {
            let entry = self.entries[surface];
            self.entries.set(surface, SurfaceData { location, ..entry });
        }
    }

    /// Records whether `surface` has been committed. An unknown surface is
    /// left alone.
    pub fn set_committed(&mut self, surface: SurfaceId, committed: bool)
        ensures
            !old(self).knows(surface) ==> final(self)@ == old(self)@,
            old(self).knows(surface) ==> final(self)@ == old(self)@.update(
                surface as int,
                (SurfaceData { committed, ..old(self)@[surface as int] }),
            ),
    {
        if surface < self.entries.len() {
            let entry = self.entries[surface];
            self.entries.set(surface, SurfaceData { committed, ..entry });
        }
    }

    /// Records that the client destroyed `surface`. Everything else that is
    /// known of it stays. An unknown surface is left alone.
    pub fn destroy(&mut self, surface: SurfaceId)
        ensures
            !old(self).knows(surface) ==> final(self)@ == old(self)@,
            old(self).knows(surface) ==> final(self)@ == old(self)@.update(
                surface as int,
                (SurfaceData { alive: false, ..old(self)@[surface as int] }),
            ),
    {
        if surface < self.entries.len() {
            let entry = self.entries[surface];
            self.entries.set(surface, SurfaceData { alive: false, ..entry });
        }
    }

    /// Whether `surface` exists and has not been destroyed.
    pub fn alive(&self, surface: SurfaceId) -> (alive: bool)
        ensures
            alive == self.is_alive(surface),
    {
        surface < self.entries.len() && self.entries[surface].alive
    }

    /// Whether `surface` carries the popup role.
    pub fn is_popup(&self, surface: SurfaceId) -> (popup: bool)
        ensures
            popup == self.has_popup_role(surface),
    {
        surface < self.entries.len() && self.entries[surface].popup
    }

    /// The declared parent of `surface`, if it has one.
    pub fn parent(&self, surface: SurfaceId) -> (parent: Option<SurfaceId>)
        ensures
            parent == self.parent_of(surface),
    {
        if surface < self.entries.len() {
            self.entries[surface].parent
        } else {
            None
        }
    }

    /// The placement of `surface` relative to its parent.
    pub fn location(&self, surface: SurfaceId) -> (location: Point)
        ensures
            location == self.location_of(surface),
    {
        if surface < self.entries.len() {
            self.entries[surface].location
        } else {
            Point { x: 0, y: 0 }
        }
    }

    /// Whether `surface` is recorded as committed.
    pub fn committed(&self, surface: SurfaceId) -> (committed: bool)
        ensures
            committed == self.is_committed(surface),
    {
        surface < self.entries.len() && self.entries[surface].committed
    }
}

} // verus!
