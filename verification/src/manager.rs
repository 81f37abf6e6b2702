//! The registry of popups: those that wait for a parent, the hierarchy
//! below each toplevel surface, and the chains of grabs.

use vstd::prelude::*;
use crate::grab::{grab_answer, ChainModel, PopupGrabInner};
use crate::model::{
    first_index, first_index_is_first, first_index_is_only, forest_destroyed_early,
    forest_dismissed, forest_hosts, placements, within_i32, NodeModel, Placement, TreeModel,
};
use crate::popup::{PopupGrab, PopupGrabError, PopupKind, Seat, SeatId};
use crate::protocol::{done_events, ClientEvent, ProtocolError};
use crate::surfaces::{SurfaceId, Surfaces};
use crate::tree::PopupTree;
use crate::utils::{DeadResource, Point, Serial};

verus! {

/// The surface that is reached from `surface` by going from each popup to
/// its declared parent, at most `steps` times: the first surface on the way
/// that carries no popup role. There is none where a popup on the way has
/// no parent, or where the steps run out.
pub open spec fn ascend(surfaces: &Surfaces, surface: SurfaceId, steps: nat) -> Option<SurfaceId>
    decreases steps,
{
    if !surfaces.has_popup_role(surface) {
        Some(surface)
    } else if steps == 0 {
        None
    } else {
        match surfaces.parent_of(surface) {
            Some(parent) => ascend(surfaces, parent, (steps - 1) as nat),
            None => None,
        }
    }
}

/// The toplevel surface that `popup` belongs to: the nearest surface above
/// it that carries no popup role. On the way up there are no more popups
/// than there are surfaces, unless the parents form a circle.
pub open spec fn root_of(surfaces: &Surfaces, popup: PopupKind) -> Option<SurfaceId> {
    match surfaces.parent_of(popup.id()) {
        Some(parent) => ascend(surfaces, parent, surfaces@.len()),
        None => None,
    }
}

/// The test for the tree below the toplevel surface `root`.
pub open spec fn rooted_at(root: SurfaceId) -> spec_fn(TreeModel) -> bool {
    |tree: TreeModel| tree.root == root
}

/// The test for the chain of grabs of `seat`.
pub open spec fn chain_of(seat: SeatId) -> spec_fn(ChainModel) -> bool {
    |chain: ChainModel| chain.seat == seat
}

/// The test for a popup on `surface`.
pub open spec fn popup_on(surface: SurfaceId) -> spec_fn(PopupKind) -> bool {
    |popup: PopupKind| popup.id() == surface
}

/// The test that keeps the popups whose surface is alive.
pub open spec fn popup_is_alive(surfaces: &Surfaces) -> spec_fn(PopupKind) -> bool {
    |popup: PopupKind| surfaces.is_alive(popup.id())
}

/// The test that keeps the trees that hold a popup.
pub open spec fn tree_is_alive() -> spec_fn(TreeModel) -> bool {
    |tree: TreeModel| tree.nodes.len() > 0
}

/// The test that keeps the chains in which a popup holds a grab.
pub open spec fn chain_is_active() -> spec_fn(ChainModel) -> bool {
    |chain: ChainModel| chain.active()
}

/// The trees, each after its popups with a dead surface were dropped.
pub open spec fn trees_cleaned(trees: Seq<TreeModel>, surfaces: &Surfaces) -> Seq<TreeModel> {
    Seq::new(trees.len(), |i: int| trees[i].cleaned(surfaces))
}

/// The popups in the trees that were destroyed before a popup that was
/// opened on them, tree after tree.
pub open spec fn trees_destroyed_early(trees: Seq<TreeModel>, surfaces: &Surfaces) -> Seq<
    PopupKind,
>
    decreases trees.len(),
{
    if trees.len() == 0 {
        Seq::empty()
    } else {
        trees_destroyed_early(trees.drop_last(), surfaces) + forest_destroyed_early(
            trees.last().nodes,
            surfaces,
        )
    }
}

/// The chains, each without the grabs of popups with a dead surface.
pub open spec fn chains_cleaned(chains: Seq<ChainModel>, surfaces: &Surfaces) -> Seq<ChainModel> {
    Seq::new(chains.len(), |i: int| chains[i].cleaned(surfaces))
}

/// The model of the registry.
pub struct ManagerModel {
    /// The popups that wait for a parent, in no particular order.
    pub unmapped: Seq<PopupKind>,
    /// The hierarchies, one for each toplevel surface that got a popup.
    pub trees: Seq<TreeModel>,
    /// The chains of grabs, one for each seat that asked for a grab.
    pub grabs: Seq<ChainModel>,
    /// What was sent to clients, in the order in which it was sent.
    pub events: Seq<ClientEvent>,
}

impl ManagerModel {
    /// The registry that holds nothing.
    pub open spec fn empty() -> ManagerModel {
        ManagerModel {
            unmapped: Seq::empty(),
            trees: Seq::empty(),
            grabs: Seq::empty(),
            events: Seq::empty(),
        }
    }

    /// Whether every toplevel surface has at most one hierarchy and every
    /// seat at most one chain of grabs.
    pub open spec fn well_formed(self) -> bool {
        &&& forall|i: int, j: int|
            0 <= i < j < self.trees.len() ==> (#[trigger] self.trees[i]).root
                != (#[trigger] self.trees[j]).root
        &&& forall|i: int, j: int|
            0 <= i < j < self.grabs.len() ==> (#[trigger] self.grabs[i]).seat
                != (#[trigger] self.grabs[j]).seat
    }

    /// Whether a popup on `surface` waits for a parent.
    pub open spec fn holds_unmapped(self, surface: SurfaceId) -> bool {
        first_index(self.unmapped, popup_on(surface)) < self.unmapped.len()
    }

    /// Whether a popup on `surface` is in one of the hierarchies.
    pub open spec fn holds_mapped(self, surface: SurfaceId) -> bool {
        exists|k: int|
            0 <= k < self.trees.len() && forest_hosts((#[trigger] self.trees[k]).nodes, surface)
    }

    /// Whether the registry holds a popup on `surface`.
    pub open spec fn tracks(self, surface: SurfaceId) -> bool {
        self.holds_unmapped(surface) || self.holds_mapped(surface)
    }

    /// The tree below the toplevel surface `root`; without popups where the
    /// registry has none for it.
    pub open spec fn tree_of(self, root: SurfaceId) -> TreeModel {
        let at = first_index(self.trees, rooted_at(root));
        if 0 <= at < self.trees.len() {
            self.trees[at]
        } else {
            TreeModel { root, nodes: Seq::empty() }
        }
    }

    /// The grabs that the popups of `seat` hold, the topmost last.
    pub open spec fn grabs_of(self, seat: SeatId) -> Seq<(PopupKind, Serial)> {
        let at = first_index(self.grabs, chain_of(seat));
        if 0 <= at < self.grabs.len() {
            self.grabs[at].grabs
        } else {
            Seq::empty()
        }
    }

    /// The registry after `popup` was put into the hierarchy below its
    /// toplevel surface `root`; the hierarchy is new where `root` had none.
    pub open spec fn with_mapped(
        self,
        surfaces: &Surfaces,
        root: SurfaceId,
        popup: PopupKind,
    ) -> ManagerModel {
        let at = first_index(self.trees, rooted_at(root));
        ManagerModel {
            trees: if 0 <= at < self.trees.len() {
                self.trees.update(at, self.trees[at].with_popup(surfaces, popup))
            } else {
                self.trees.push(TreeModel { root, nodes: seq![NodeModel::leaf(popup)] })
            },
            ..self
        }
    }

    /// The registry after `popup` was attached to the hierarchy of its
    /// toplevel surface: unchanged where that surface cannot be resolved.
    pub open spec fn add_popup(self, surfaces: &Surfaces, popup: PopupKind) -> ManagerModel {
        match root_of(surfaces, popup) {
            Some(root) => self.with_mapped(surfaces, root, popup),
            None => self,
        }
    }

    /// The registry after `kind` was announced: attached at once where it
    /// has a parent, else waiting for one.
    pub open spec fn track_popup(self, surfaces: &Surfaces, kind: PopupKind) -> ManagerModel {
        if surfaces.parent_of(kind.id()) is Some {
            self.add_popup(surfaces, kind)
        } else {
            ManagerModel { unmapped: self.unmapped.push(kind), ..self }
        }
    }

    /// The registry after a commit on `surface`: where `surface` carries
    /// the popup role and a popup on it waits for a parent, the first such
    /// popup waits no longer (the last waiting popup takes its place) and is
    /// attached to the hierarchy of its toplevel surface, if that can be
    /// resolved.
    pub open spec fn commit(self, surfaces: &Surfaces, surface: SurfaceId) -> ManagerModel {
        let at = first_index(self.unmapped, popup_on(surface));
        if surfaces.has_popup_role(surface) && 0 <= at < self.unmapped.len() {
            ManagerModel {
                unmapped: self.unmapped.update(at, self.unmapped.last()).drop_last(),
                ..self
            }.add_popup(surfaces, self.unmapped[at])
        } else {
            self
        }
    }

    /// The popups below the toplevel surface `surface`, each before what
    /// was opened on it, with their positions relative to that surface.
    pub open spec fn popups_for_surface(self, surfaces: &Surfaces, surface: SurfaceId) -> Seq<
        Placement,
    > {
        self.tree_of(surface).located(surfaces)
    }

    /// The registry after the popup on the surface of `popup` was dismissed
    /// from the hierarchy below `surface`, with all that was opened on it.
    /// Every popup that leaves is told so. Nothing happens where `surface`
    /// is dead or has no hierarchy.
    pub open spec fn dismiss_popup(
        self,
        surfaces: &Surfaces,
        surface: SurfaceId,
        popup: PopupKind,
    ) -> ManagerModel {
        let at = first_index(self.trees, rooted_at(surface));
        if surfaces.is_alive(surface) && 0 <= at < self.trees.len() {
            ManagerModel {
                trees: self.trees.update(at, self.trees[at].without(popup.id())),
                events: self.events + done_events(
                    forest_dismissed(self.trees[at].nodes, popup.id()),
                ),
                ..self
            }
        } else {
            self
        }
    }

    /// The registry after what is dead was reclaimed: the grabs of popups
    /// with a dead surface and the chains that then hold no grab; in every
    /// hierarchy the popups with a dead surface, with all that was opened on
    /// them, and the hierarchies that then hold no popup; and the waiting
    /// popups with a dead surface.
    pub open spec fn cleanup(self, surfaces: &Surfaces) -> ManagerModel {
        ManagerModel {
            unmapped: self.unmapped.filter(popup_is_alive(surfaces)),
            trees: trees_cleaned(self.trees, surfaces).filter(tree_is_alive()),
            grabs: chains_cleaned(self.grabs, surfaces).filter(chain_is_active()),
            events: self.events,
        }
    }

    /// The popups in the hierarchies that were destroyed before a popup
    /// that was opened on them. Such a popup shows a client that broke the
    /// protocol.
    pub open spec fn destroyed_early(self, surfaces: &Surfaces) -> Seq<PopupKind> {
        trees_destroyed_early(self.trees, surfaces)
    }

    /// The registry with a chain of grabs for `seat`: a new one, in which
    /// nothing holds a grab, where the seat had none.
    pub open spec fn with_chain(self, seat: SeatId) -> ManagerModel {
        if first_index(self.grabs, chain_of(seat)) < self.grabs.len() {
            self
        } else {
            ManagerModel {
                grabs: self.grabs.push(ChainModel { seat, grabs: Seq::empty() }),
                ..self
            }
        }
    }

    /// The registry with one more thing sent.
    pub open spec fn with_event(self, event: ClientEvent) -> ManagerModel {
        ManagerModel { events: self.events.push(event), ..self }
    }

    /// What is answered when the popup on `target` asks for a grab on
    /// `seat`.
    ///
    /// The request is refused without any effect where `target` is no live
    /// popup, and where its toplevel surface cannot be resolved. A popup
    /// that is already committed is refused, and its client is sent a
    /// protocol error. After that the seat has a chain of grabs, and the
    /// chain decides: a refusal because the parent was dismissed dismisses
    /// the popup as well; one because the popup is not the topmost sends
    /// the client a protocol error.
    pub open spec fn grab_outcome(
        self,
        surfaces: &Surfaces,
        target: SurfaceId,
        seat: Seat,
    ) -> Result<
        Option<Serial>,
        PopupGrabError,
    > {
        let popup = PopupKind::on(target);
        if !(surfaces.has_popup_role(target) && surfaces.is_alive(target)) {
            Err(PopupGrabError::NoPopup)
        } else if root_of(surfaces, popup) is None {
            Err(PopupGrabError::DeadResource)
        } else if surfaces.is_committed(target) {
            Err(PopupGrabError::InvalidGrab)
        } else {
            grab_answer(self.grabs_of(seat.id), surfaces, popup)
        }
    }

    /// The registry after the popup on `target` asked for a grab on `seat`
    /// with `serial`.
    pub open spec fn grab_popup(
        self,
        surfaces: &Surfaces,
        target: SurfaceId,
        seat: Seat,
        serial: Serial,
    ) -> ManagerModel {
        let popup = PopupKind::on(target);
        let ready = self.with_chain(seat.id);
        let at = first_index(ready.grabs, chain_of(seat.id));
        match self.grab_outcome(surfaces, target, seat) {
            Err(PopupGrabError::NoPopup) => self,
            Err(PopupGrabError::DeadResource) if root_of(surfaces, popup) is None => self,
            Err(PopupGrabError::InvalidGrab) => self.with_event(
                ClientEvent::Error { surface: target, error: ProtocolError::InvalidGrab },
            ),
            Err(PopupGrabError::ParentDismissed) => ready.dismiss_popup(
                surfaces,
                root_of(surfaces, popup).unwrap(),
                popup,
            ),
            Err(PopupGrabError::NotTheTopmostPopup) => ready.with_event(
                ClientEvent::Error { surface: target, error: ProtocolError::NotTheTopmostPopup },
            ),
            Err(PopupGrabError::DeadResource) => ready,
            Ok(_) => ManagerModel {
                grabs: ready.grabs.update(at, ready.grabs[at].after_grab(surfaces, popup, serial)),
                ..ready
            },
        }
    }
}

/// Finds the toplevel surface that `popup` belongs to, by going from its
/// declared parent upwards for as long as the surface reached is itself a
/// popup. Fails where the popup has no parent, where a popup on the way has
/// none, or where the way does not end.
pub fn find_popup_root_surface(surfaces: &Surfaces, popup: &PopupKind) -> (root: Result<
    SurfaceId,
    DeadResource,
>)
    ensures
        root == match root_of(surfaces, *popup) {
            Some(surface) => Ok::<SurfaceId, DeadResource>(surface),
            None => Err(DeadResource),
        },
{
    let mut parent = match popup.parent(surfaces) {
        Some(parent) => parent,
        None => {
            return Err(DeadResource);
        },
    };
    let mut steps: usize = surfaces.len();
    while surfaces.is_popup(parent)
        invariant
            root_of(surfaces, *popup) == ascend(surfaces, parent, steps as nat),
        decreases steps,
    {
        if steps == 0 {
            return Err(DeadResource);
        }
        parent = match surfaces.parent(parent) {
            Some(above) => above,
            None => {
                return Err(DeadResource);
            },
        };
        steps -= 1;
    }
    Ok(parent)
}

/// Helper to track popups.
#[derive(Debug)]
pub struct PopupManager {
    unmapped_popups: Vec<PopupKind>,
    popup_trees: Vec<PopupTree>,
    popup_grabs: Vec<PopupGrabInner>,
    events: Vec<ClientEvent>,
}

/// The models of some trees, in their order.
pub closed spec fn trees_view(trees: Seq<PopupTree>) -> Seq<TreeModel> {
    Seq::new(trees.len(), |i: int| trees[i]@)
}

/// The models of some chains, in their order.
pub closed spec fn chains_view(chains: Seq<PopupGrabInner>) -> Seq<ChainModel> {
    Seq::new(chains.len(), |i: int| chains[i]@)
}

impl View for PopupManager {
    type V = ManagerModel;

    closed spec fn view(&self) -> ManagerModel {
        ManagerModel {
            unmapped: self.unmapped_popups@,
            trees: trees_view(self.popup_trees@),
            grabs: chains_view(self.popup_grabs@),
            events: self.events@,
        }
    }
}

/// Lets every chain go of the grabs of popups with a dead surface, and
/// drops the chains that then hold no grab.
fn cleanup_grabs(chains: &mut Vec<PopupGrabInner>, surfaces: &Surfaces)
    ensures
        chains_view(final(chains)@) == chains_cleaned(chains_view(old(chains)@), surfaces).filter(
            chain_is_active(),
        ),
{
    let ghost origin = chains_view(chains@);
    let ghost cleaned = chains_cleaned(origin, surfaces);
    let ghost mut k: int = 0;
    let mut i: usize = 0;
    proof {
        reveal(Seq::filter);
        assert(cleaned.take(0) =~= Seq::empty());
        assert(chains_view(chains@).take(0) =~= Seq::empty());
        assert(origin.skip(0) =~= origin);
    }
    while i < chains.len()
        invariant
            i <= chains.len(),
            origin == chains_view(old(chains)@),
            cleaned == chains_cleaned(origin, surfaces),
            0 <= k <= origin.len(),
            chains_view(chains@).len() == chains.len(),
            origin.len() - k == chains.len() - i,
            chains_view(chains@).skip(i as int) == origin.skip(k),
            chains_view(chains@).take(i as int) == cleaned.take(k).filter(chain_is_active()),
        decreases chains.len() - i,
    {
        let ghost before = chains_view(chains@);
        proof {
            reveal(Seq::filter);
            assert(before.skip(i as int)[0] == before[i as int]);
            assert(origin.skip(k)[0] == origin[k]);
            assert(cleaned.take(k + 1).drop_last() =~= cleaned.take(k));
        }
        let chain = &mut chains[i];
        chain.cleanup(surfaces);
        if chains[i].alive() {
            proof {
                let after = chains_view(chains@);
                assert(after.take(i as int + 1) =~= before.take(i as int).push(cleaned[k]));
                assert(after.skip(i as int + 1) =~= before.skip(i as int).skip(1));
                assert(origin.skip(k).skip(1) =~= origin.skip(k + 1));
            }
            i += 1;
        } else {
            chains.remove(i);
            proof {
                let after = chains_view(chains@);
                assert(after.take(i as int) =~= before.take(i as int));
                assert(after.skip(i as int) =~= before.skip(i as int).skip(1));
                assert(origin.skip(k).skip(1) =~= origin.skip(k + 1));
            }
        }
        proof {
            k = k + 1;
        }
    }
    proof {
        assert(origin.skip(k).len() == 0);
        assert(cleaned.take(k) =~= cleaned);
        assert(chains_view(chains@).take(i as int) =~= chains_view(chains@));
    }
}

/// Drops from every tree the popups with a dead surface, with all that was
/// opened on them, and drops the trees that then hold no popup. Returns the
/// popups that were destroyed before a popup that was opened on them.
fn cleanup_trees(trees: &mut Vec<PopupTree>, surfaces: &Surfaces) -> (reported: Vec<PopupKind>)
    ensures
        trees_view(final(trees)@) == trees_cleaned(trees_view(old(trees)@), surfaces).filter(
            tree_is_alive(),
        ),
        reported@ == trees_destroyed_early(trees_view(old(trees)@), surfaces),
{
    let ghost origin = trees_view(trees@);
    let ghost cleaned = trees_cleaned(origin, surfaces);
    let ghost mut k: int = 0;
    let mut i: usize = 0;
    let mut reported: Vec<PopupKind> = Vec::new();
    proof {
        reveal(Seq::filter);
        assert(cleaned.take(0) =~= Seq::empty());
        assert(trees_view(trees@).take(0) =~= Seq::empty());
        assert(origin.skip(0) =~= origin);
        assert(origin.take(0) =~= Seq::empty());
    }
    while i < trees.len()
        invariant
            i <= trees.len(),
            origin == trees_view(old(trees)@),
            cleaned == trees_cleaned(origin, surfaces),
            0 <= k <= origin.len(),
            trees_view(trees@).len() == trees.len(),
            origin.len() - k == trees.len() - i,
            trees_view(trees@).skip(i as int) == origin.skip(k),
            trees_view(trees@).take(i as int) == cleaned.take(k).filter(tree_is_alive()),
            reported@ == trees_destroyed_early(origin.take(k), surfaces),
        decreases trees.len() - i,
    {
        let ghost before = trees_view(trees@);
        proof {
            reveal(Seq::filter);
            assert(before.skip(i as int)[0] == before[i as int]);
            assert(origin.skip(k)[0] == origin[k]);
            assert(cleaned.take(k + 1).drop_last() =~= cleaned.take(k));
            assert(origin.take(k + 1).drop_last() =~= origin.take(k));
        }
        let tree = &mut trees[i];
        tree.cleanup(surfaces, &mut reported);
        if trees[i].alive() {
            proof {
                let after = trees_view(trees@);
                assert(after.take(i as int + 1) =~= before.take(i as int).push(cleaned[k]));
                assert(after.skip(i as int + 1) =~= before.skip(i as int).skip(1));
                assert(origin.skip(k).skip(1) =~= origin.skip(k + 1));
            }
            i += 1;
        } else {
            trees.remove(i);
            proof {
                let after = trees_view(trees@);
                assert(after.take(i as int) =~= before.take(i as int));
                assert(after.skip(i as int) =~= before.skip(i as int).skip(1));
                assert(origin.skip(k).skip(1) =~= origin.skip(k + 1));
            }
        }
        proof {
            k = k + 1;
        }
    }
    proof {
        assert(origin.skip(k).len() == 0);
        assert(cleaned.take(k) =~= cleaned);
        assert(origin.take(k) =~= origin);
        assert(trees_view(trees@).take(i as int) =~= trees_view(trees@));
    }
    reported
}

/// Drops the popups with a dead surface.
fn retain_alive(popups: &mut Vec<PopupKind>, surfaces: &Surfaces)
    ensures
        final(popups)@ == old(popups)@.filter(popup_is_alive(surfaces)),
{
    let mut kept: Vec<PopupKind> = Vec::new();
    let mut i: usize = 0;
    proof {
        reveal(Seq::filter);
        assert(popups@.take(0) =~= Seq::empty());
    }
    while i < popups.len()
        invariant
            i <= popups.len(),
            popups@ == old(popups)@,
            kept@ == popups@.take(i as int).filter(popup_is_alive(surfaces)),
        decreases popups.len() - i,
    {
        let popup = popups[i];
        proof {
            reveal(Seq::filter);
            assert(popups@.take(i as int + 1).drop_last() =~= popups@.take(i as int));
        }
        if popup.alive(surfaces) {
            kept.push(popup);
        }
        i += 1;
    }
    assert(popups@.take(i as int) =~= popups@);
    *popups = kept;
}

impl PopupManager {
    /// Create a new [`PopupManager`].
    pub fn new() -> (manager: PopupManager)
        ensures
            manager@ == ManagerModel::empty(),
    {
        let manager = PopupManager {
            unmapped_popups: Vec::new(),
            popup_trees: Vec::new(),
            popup_grabs: Vec::new(),
            events: Vec::new(),
        };
        proof {
            assert(manager@.trees =~= Seq::empty());
            assert(manager@.grabs =~= Seq::empty());
        }
        manager
    }

    /// The position of the tree below `root` among the trees, or their
    /// number.
    fn tree_position(&self, root: SurfaceId) -> (at: usize)
        ensures
            at == first_index(self@.trees, rooted_at(root)),
            at <= self.popup_trees.len(),
            self@.trees.len() == self.popup_trees.len(),
    {
        let mut i: usize = 0;
        while i < self.popup_trees.len()
            invariant
                i <= self.popup_trees.len(),
                self@.trees.len() == self.popup_trees.len(),
                forall|j: int| 0 <= j < i ==> (#[trigger] self@.trees[j]).root != root,
            decreases self.popup_trees.len() - i,
        {
            if self.popup_trees[i].root() == root {
                proof {
                    first_index_is_only(self@.trees, rooted_at(root), i as int);
                }
                return i;
            }
            i += 1;
        }
        proof {
            first_index_is_only(self@.trees, rooted_at(root), i as int);
        }
        i
    }

    /// Start tracking a new popup.
    ///
    /// A popup that has a parent is attached to the hierarchy of its
    /// toplevel surface at once, which fails where that surface cannot be
    /// resolved. A popup without a parent waits for one: it is attached on
    /// its first commit.
    pub fn track_popup(&mut self, surfaces: &Surfaces, kind: PopupKind) -> (outcome: Result<
        (),
        DeadResource,
    >)
        ensures
            final(self)@ == old(self)@.track_popup(surfaces, kind),
            outcome is Err <==> surfaces.parent_of(kind.id()) is Some && root_of(surfaces, kind)
                is None,
    {
        if kind.parent(surfaces).is_some() {
            self.add_popup(surfaces, kind)
        } else {
            self.unmapped_popups.push(kind);
            Ok(())
        }
    }

    /// Needs to be called for [`PopupManager`] to correctly update its
    /// internal state: on every commit of a surface.
    pub fn commit(&mut self, surfaces: &Surfaces, surface: SurfaceId)
        ensures
            final(self)@ == old(self)@.commit(surfaces, surface),
    {
        if surfaces.is_popup(surface) {
            let mut i: usize = 0;
            while i < self.unmapped_popups.len()
                invariant
                    i <= self.unmapped_popups.len(),
                    self@ == old(self)@,
                    self.unmapped_popups@ == self@.unmapped,
                    surfaces.has_popup_role(surface),
                    forall|j: int| 0 <= j < i ==> (#[trigger] self@.unmapped[j]).id() != surface,
                decreases self.unmapped_popups.len() - i,
            {
                if self.unmapped_popups[i].wl_surface() == surface {
                    proof {
                        first_index_is_only(self@.unmapped, popup_on(surface), i as int);
                    }
                    let popup = self.unmapped_popups.swap_remove(i);
                    assert(self@ == (ManagerModel {
                        unmapped: old(self)@.unmapped.update(
                            i as int,
                            old(self)@.unmapped.last(),
                        ).drop_last(),
                        ..old(self)@
                    }));
                    // at this point the popup must have a parent,
                    // or it would have raised a protocol error
                    let _ = self.add_popup(surfaces, popup);
                    return ;
                }
                i += 1;
            }
            proof {
                first_index_is_only(self@.unmapped, popup_on(surface), i as int);
            }
        }
    }

    /// Attaches `popup` to the hierarchy of its toplevel surface, which is
    /// made where that surface has none yet.
    pub fn add_popup(&mut self, surfaces: &Surfaces, popup: PopupKind) -> (added: Result<
        (),
        DeadResource,
    >)
        ensures
            final(self)@ == old(self)@.add_popup(surfaces, popup),
            added is Err <==> root_of(surfaces, popup) is None,
    {
        let root = match find_popup_root_surface(surfaces, &popup) {
            Ok(root) => root,
            Err(dead) => {
                return Err(dead);
            },
        };
        let at = self.tree_position(root);
        if at == self.popup_trees.len() {
            self.popup_trees.push(PopupTree::new(root));
        }
        let ghost before = self@;
        let tree = &mut self.popup_trees[at];
        tree.insert(surfaces, popup);
        proof {
            let expected = old(self)@.add_popup(surfaces, popup);
            assert(self@.trees =~= expected.trees);
        }
        Ok(())
    }

    /// Finds the popup belonging to a given surface, if any: among the
    /// popups that wait for a parent, then in the hierarchies.
    pub fn find_popup(&self, surface: SurfaceId) -> (found: Option<PopupKind>)
        ensures
            found == if self@.tracks(surface) {
                Some(PopupKind::on(surface))
            } else {
                None
            },
    {
        let mut i: usize = 0;
        while i < self.unmapped_popups.len()
            invariant
                i <= self.unmapped_popups.len(),
                self.unmapped_popups@ == self@.unmapped,
                forall|j: int| 0 <= j < i ==> (#[trigger] self@.unmapped[j]).id() != surface,
            decreases self.unmapped_popups.len() - i,
        {
            if self.unmapped_popups[i].wl_surface() == surface {
                proof {
                    first_index_is_only(self@.unmapped, popup_on(surface), i as int);
                }
                return Some(self.unmapped_popups[i]);
            }
            i += 1;
        }
        proof {
            first_index_is_only(self@.unmapped, popup_on(surface), i as int);
        }
        let mut k: usize = 0;
        while k < self.popup_trees.len()
            invariant
                k <= self.popup_trees.len(),
                self@.trees.len() == self.popup_trees.len(),
                !self@.holds_unmapped(surface),
                forall|j: int|
                    0 <= j < k ==> !forest_hosts((#[trigger] self@.trees[j]).nodes, surface),
            decreases self.popup_trees.len() - k,
        {
            let found = self.popup_trees[k].find(surface);
            if found.is_some() {
                assert(forest_hosts(self@.trees[k as int].nodes, surface));
                return found;
            }
            k += 1;
        }
        None
    }

    /// Returns the popups and their positions relative to a given toplevel
    /// surface, if any: each popup before what was opened on it.
    pub fn popups_for_surface(&self, surfaces: &Surfaces, surface: SurfaceId) -> (placed: Vec<
        (PopupKind, Point),
    >)
        requires
            within_i32(self@.popups_for_surface(surfaces, surface)),
        ensures
            placements(placed@) == self@.popups_for_surface(surfaces, surface),
    {
        let at = self.tree_position(surface);
        if at < self.popup_trees.len() {
            self.popup_trees[at].iter_popups(surfaces)
        } else {
            let placed: Vec<(PopupKind, Point)> = Vec::new();
            assert(placements(placed@) =~= Seq::<Placement>::empty());
            placed
        }
    }

    /// Whether every position that `popups_for_surface` would report for
    /// `surface` can be held in an `i32`.
    pub fn offsets_fit(&self, surfaces: &Surfaces, surface: SurfaceId) -> (fit: bool)
        ensures
            fit == within_i32(self@.popups_for_surface(surfaces, surface)),
    {
        let at = self.tree_position(surface);
        if at < self.popup_trees.len() {
            self.popup_trees[at].offsets_fit(surfaces)
        } else {
            true
        }
    }

    /// Dismisses `popup` and all that was opened on it from the hierarchy
    /// below `surface`, and tells every popup that leaves so. Nothing
    /// happens where `surface` is dead or has no hierarchy, or where the
    /// popup is not in it.
    pub fn dismiss_popup(
        &mut self,
        surfaces: &Surfaces,
        surface: SurfaceId,
        popup: &PopupKind,
    ) -> (dismissed: Result<
        (),
        DeadResource,
    >)
        ensures
            dismissed is Ok,
            final(self)@ == old(self)@.dismiss_popup(surfaces, surface, *popup),
    {
        if !surfaces.alive(surface) {
            return Ok(());
        }
        let at = self.tree_position(surface);
        if at < self.popup_trees.len() {
            let mut notified: Vec<PopupKind> = Vec::new();
            let tree = &mut self.popup_trees[at];
            tree.dismiss_popup(popup, &mut notified);
            let ghost sent = self.events@;
            let ghost trees = self.popup_trees@;
            let mut i: usize = 0;
            assert(sent + done_events(notified@.take(0)) =~= sent);
            while i < notified.len()
                invariant
                    i <= notified.len(),
                    self.unmapped_popups == old(self).unmapped_popups,
                    self.popup_grabs == old(self).popup_grabs,
                    self.popup_trees@ == trees,
                    self.events@ == sent + done_events(notified@.take(i as int)),
                decreases notified.len() - i,
            {
                self.events.push(ClientEvent::PopupDone { surface: notified[i].wl_surface() });
                proof {
                    assert(sent + done_events(notified@.take(i as int + 1)) =~= (sent + done_events(
                        notified@.take(i as int),
                    )).push(ClientEvent::PopupDone { surface: notified@[i as int].id() }));
                }
                i += 1;
            }
            proof {
                assert(notified@.take(i as int) =~= notified@);
                let expected = old(self)@.dismiss_popup(surfaces, surface, *popup);
                assert(self@.trees =~= expected.trees);
            }
        }
        Ok(())
    }

    /// Needs to be called periodically (but not necessarily frequently)
    /// to cleanup internal resources.
    ///
    /// Returns the popups that were destroyed before a popup that was
    /// opened on them. They are dropped like every dead popup, with all
    /// that was opened on them; each shows a client that broke the
    /// protocol and can no longer be told so.
    pub fn cleanup(&mut self, surfaces: &Surfaces) -> (reported: Vec<PopupKind>)
        ensures
            final(self)@ == old(self)@.cleanup(surfaces),
            reported@ == old(self)@.destroyed_early(surfaces),
    {
        cleanup_grabs(&mut self.popup_grabs, surfaces);
        let reported = cleanup_trees(&mut self.popup_trees, surfaces);
        retain_alive(&mut self.unmapped_popups, surfaces);
        reported
    }

    /// The position of the chain of `seat` among the chains, or their
    /// number.
    fn chain_position(&self, seat: SeatId) -> (at: usize)
        ensures
            at == first_index(self@.grabs, chain_of(seat)),
            at <= self.popup_grabs.len(),
            self@.grabs.len() == self.popup_grabs.len(),
    {
        let mut i: usize = 0;
        while i < self.popup_grabs.len()
            invariant
                i <= self.popup_grabs.len(),
                self@.grabs.len() == self.popup_grabs.len(),
                forall|j: int| 0 <= j < i ==> (#[trigger] self@.grabs[j]).seat != seat,
            decreases self.popup_grabs.len() - i,
        {
            if self.popup_grabs[i].seat() == seat {
                proof {
                    first_index_is_only(self@.grabs, chain_of(seat), i as int);
                }
                return i;
            }
            i += 1;
        }
        proof {
            first_index_is_only(self@.grabs, chain_of(seat), i as int);
        }
        i
    }

    /// Take an explicit grab for the popup on the surface `popup`.
    ///
    /// Returns a [`PopupGrab`] on success or a [`PopupGrabError`] if the
    /// grab has been denied.
    pub fn grab_popup(
        &mut self,
        surfaces: &Surfaces,
        popup: SurfaceId,
        seat: &Seat,
        serial: Serial,
    ) -> (grab: Result<
        PopupGrab,
        PopupGrabError,
    >)
        ensures
            final(self)@ == old(self)@.grab_popup(surfaces, popup, *seat, serial),
            grab == match old(self)@.grab_outcome(surfaces, popup, *seat) {
                Ok(previous) => Ok::<PopupGrab, PopupGrabError>(
                    PopupGrab {
                        seat: seat.id,
                        popup: PopupKind::on(popup),
                        serial,
                        previous_serial: previous,
                        keyboard: seat.keyboard,
                    },
                ),
                Err(denied) => Err(denied),
            },
    {
        if !(surfaces.is_popup(popup) && surfaces.alive(popup)) {
            return Err(PopupGrabError::NoPopup);
        }
        let kind = PopupKind::xdg(popup);
        let root = match find_popup_root_surface(surfaces, &kind) {
            Ok(root) => root,
            Err(_) => {
                return Err(PopupGrabError::DeadResource);
            },
        };
        if surfaces.committed(popup) {
            self.events.push(
                ClientEvent::Error { surface: popup, error: ProtocolError::InvalidGrab },
            );
            return Err(PopupGrabError::InvalidGrab);
        }
        // The chain of a seat that holds no grab is not among the chains:
        // it is made here, and reclaimed by `cleanup`.
        let at = self.chain_position(seat.id);
        if at == self.popup_grabs.len() {
            self.popup_grabs.push(PopupGrabInner::new(seat.id));
        }
        let ghost ready = self@;
        proof {
            assert(ready.grabs =~= old(self)@.with_chain(seat.id).grabs);
            first_index_is_first(old(self)@.grabs, chain_of(seat.id));
            first_index_is_only(ready.grabs, chain_of(seat.id), at as int);
        }
        let chain = &mut self.popup_grabs[at];
        let answer = chain.grab(surfaces, kind, serial);
        proof {
            assert(self@.grabs =~= ready.grabs.update(
                at as int,
                ready.grabs[at as int].after_grab(surfaces, kind, serial),
            ));
        }
        match answer {
            Ok(previous) => {
                Ok(PopupGrab::new(seat.id, kind, serial, previous, seat.get_keyboard()))
            },
            Err(denied) => {
                proof {
                    assert(self@.grabs =~= ready.grabs);
                }
                match denied {
                    PopupGrabError::ParentDismissed => {
                        let _ = self.dismiss_popup(surfaces, root, &kind);
                    },
                    PopupGrabError::NotTheTopmostPopup => {
                        self.events.push(
                            ClientEvent::Error {
                                surface: popup,
                                error: ProtocolError::NotTheTopmostPopup,
                            },
                        );
                    },
                    _ => {},
                }
                Err(denied)
            },
        }
    }

    /// The popups that wait for a parent.
    pub fn unmapped_popups(&self) -> (popups: &Vec<PopupKind>)
        ensures
            popups@ == self@.unmapped,
    {
        &self.unmapped_popups
    }

    /// The hierarchies, one for each toplevel surface that got a popup.
    pub fn popup_trees(&self) -> (trees: &Vec<PopupTree>)
        ensures
            trees_view(trees@) == self@.trees,
    {
        &self.popup_trees
    }

    /// The chains of grabs, one for each seat that asked for a grab.
    pub fn popup_grabs(&self) -> (chains: &Vec<PopupGrabInner>)
        ensures
            chains_view(chains@) == self@.grabs,
    {
        &self.popup_grabs
    }

    /// What was sent to clients and has not been taken yet, in the order in
    /// which it was sent.
    pub fn events(&self) -> (events: &Vec<ClientEvent>)
        ensures
            events@ == self@.events,
    {
        &self.events
    }

    /// Takes what was sent to clients, so that it can be delivered.
    pub fn take_events(&mut self) -> (events: Vec<ClientEvent>)
        ensures
            events@ == old(self)@.events,
            final(self)@ == (ManagerModel { events: Seq::empty(), ..old(self)@ }),
    {
        let mut events: Vec<ClientEvent> = Vec::new();
        std::mem::swap(&mut self.events, &mut events);
        events
    }
}

} // verus!
