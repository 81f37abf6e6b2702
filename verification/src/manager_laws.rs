//! What holds of the registry whatever was done with it.

use vstd::prelude::*;
use crate::grab::{grab_is_alive, ChainModel};
use crate::manager::{
    ascend, chain_is_active, chain_of, chains_cleaned, popup_is_alive, popup_on, root_of,
    rooted_at, tree_is_alive, trees_cleaned, trees_destroyed_early, ManagerModel,
};
use crate::model::{
    first_index, first_index_is_first, first_index_is_only, forest_dismissed, forest_hosts,
    forest_popups, NodeModel, TreeModel,
};
use crate::popup::{PopupGrabError, PopupKind, Seat, SeatId};
use crate::protocol::{done_events, ClientEvent, ProtocolError};
use crate::surfaces::{SurfaceId, Surfaces};
use crate::tree_laws::{
    all_alive, cleaned_trees_hold_the_living, cleaning_spares_the_living,
    forest_hosts_iff_a_tree_hosts, forest_with_popup_hosts_one_more, the_dismissed_is_gone,
    the_living_are_not_reported,
};
use crate::utils::Serial;

verus! {

/// A filter keeps a sequence as it is where every item passes.
pub proof fn filter_keeps_what_passes<T>(items: Seq<T>, passes: spec_fn(T) -> bool)
    requires
        forall|i: int| 0 <= i < items.len() ==> passes(#[trigger] items[i]),
    ensures
        items.filter(passes) == items,
    decreases items.len(),
{
    reveal(Seq::filter);
    if items.len() > 0 {
        filter_keeps_what_passes(items.drop_last(), passes);
        assert(items.drop_last().push(items.last()) =~= items);
    }
}

/// What a filter keeps was there before, and passes.
pub proof fn filter_keeps_only_what_passes<T>(items: Seq<T>, passes: spec_fn(T) -> bool)
    ensures
        forall|i: int|
            0 <= i < items.filter(passes).len() ==> passes(#[trigger] items.filter(passes)[i])
                && items.contains(items.filter(passes)[i]),
        forall|i: int|
            0 <= i < items.len() && passes(items[i]) ==> items.filter(passes).contains(
                #[trigger] items[i],
            ),
    decreases items.len(),
{
    reveal(Seq::filter);
    if items.len() > 0 {
        let front = items.drop_last();
        filter_keeps_only_what_passes(front, passes);
        let kept = items.filter(passes);
        assert forall|i: int| 0 <= i < kept.len() implies passes(#[trigger] kept[i])
            && items.contains(kept[i]) by {
            if i < front.filter(passes).len() {
                let at = choose|at: int|
                    0 <= at < front.len() && front[at] == front.filter(passes)[i];
                assert(items[at] == kept[i]);
            } else {
                assert(items[items.len() - 1] == kept[i]);
            }
        }
        assert forall|i: int| 0 <= i < items.len() && passes(items[i]) implies kept.contains(
            #[trigger] items[i],
        ) by {
            if i < front.len() {
                assert(front[i] == items[i]);
                let at = choose|at: int|
                    0 <= at < front.filter(passes).len() && front.filter(passes)[at] == front[i];
                assert(kept[at] == items[i]);
            } else {
                assert(kept[kept.len() - 1] == items[i]);
            }
        }
    }
}

/// A surface that is reached on the way up is no popup, and it is reached
/// as well where more steps are allowed.
pub proof fn ascent_ends_at_a_toplevel(
    surfaces: &Surfaces,
    surface: SurfaceId,
    steps: nat,
    more: nat,
)
    requires
        ascend(surfaces, surface, steps) is Some,
        steps <= more,
    ensures
        !surfaces.has_popup_role(ascend(surfaces, surface, steps).unwrap()),
        ascend(surfaces, surface, more) == ascend(surfaces, surface, steps),
    decreases steps,
{
    if surfaces.has_popup_role(surface) {
        ascent_ends_at_a_toplevel(
            surfaces,
            surfaces.parent_of(surface).unwrap(),
            (steps - 1) as nat,
            (more - 1) as nat,
        );
    }
}

/// The toplevel surface of a popup is no popup, and it is the toplevel
/// surface of the popup that the popup was opened on, where that is one.
pub proof fn root_is_shared_with_the_parent(surfaces: &Surfaces, popup: PopupKind)
    requires
        root_of(surfaces, popup) is Some,
    ensures
        !surfaces.has_popup_role(root_of(surfaces, popup).unwrap()),
        surfaces.parent_of(popup.id()) is Some,
        !surfaces.has_popup_role(surfaces.parent_of(popup.id()).unwrap()) ==> root_of(
            surfaces,
            popup,
        ) == surfaces.parent_of(popup.id()),
        surfaces.has_popup_role(surfaces.parent_of(popup.id()).unwrap()) ==> root_of(
            surfaces,
            PopupKind::on(surfaces.parent_of(popup.id()).unwrap()),
        ) == root_of(surfaces, popup),
{
    let parent = surfaces.parent_of(popup.id()).unwrap();
    let steps = surfaces@.len();
    ascent_ends_at_a_toplevel(surfaces, parent, steps, steps);
    if surfaces.has_popup_role(parent) {
        let above = surfaces.parent_of(parent).unwrap();
        ascent_ends_at_a_toplevel(surfaces, above, (steps - 1) as nat, steps);
    }
}

/// A popup that was announced with success is held by the registry, and so
/// is everything that the registry held.
pub proof fn tracked_popups_are_held(
    manager: ManagerModel,
    surfaces: &Surfaces,
    kind: PopupKind,
    surface: SurfaceId,
)
    ensures
        manager.tracks(surface) ==> manager.track_popup(surfaces, kind).tracks(surface),
        surfaces.parent_of(kind.id()) is None || root_of(surfaces, kind) is Some
            ==> manager.track_popup(surfaces, kind).tracks(kind.id()),
{
    let after = manager.track_popup(surfaces, kind);
    if surfaces.parent_of(kind.id()) is Some {
        attached_popups_are_held(manager, surfaces, kind, surface);
        attached_popups_are_held(manager, surfaces, kind, kind.id());
        assert(manager.tracks(surface) ==> after.tracks(surface));
    } else {
        assert(after.trees == manager.trees);
        assert(manager.holds_mapped(surface) ==> after.holds_mapped(surface));
        first_index_is_first(manager.unmapped, popup_on(surface));
        first_index_is_first(after.unmapped, popup_on(surface));
        first_index_is_first(after.unmapped, popup_on(kind.id()));
        if manager.holds_unmapped(surface) {
            let at = first_index(manager.unmapped, popup_on(surface));
            assert(after.unmapped[at] == manager.unmapped[at]);
        }
        assert(after.unmapped[manager.unmapped.len() as int] == kind);
    }
}

/// After a popup was attached to the hierarchy of its toplevel surface, the
/// registry holds it and everything that it held, and nothing else.
pub proof fn attached_popups_are_held(
    manager: ManagerModel,
    surfaces: &Surfaces,
    popup: PopupKind,
    surface: SurfaceId,
)
    ensures
        manager.add_popup(surfaces, popup).holds_unmapped(surface) == manager.holds_unmapped(
            surface,
        ),
        manager.add_popup(surfaces, popup).holds_mapped(surface) <==> manager.holds_mapped(surface)
            || (root_of(surfaces, popup) is Some && surface == popup.id()),
{
    let after = manager.add_popup(surfaces, popup);
    if let Some(root) = root_of(surfaces, popup) {
        let at = first_index(manager.trees, rooted_at(root));
        first_index_is_first(manager.trees, rooted_at(root));
        if at < manager.trees.len() {
            let tree = manager.trees[at];
            tree_with_popup_hosts_one_more(tree, surfaces, popup, surface);
            if after.holds_mapped(surface) {
                let k = choose|k: int|
                    0 <= k < after.trees.len() && forest_hosts(
                        (#[trigger] after.trees[k]).nodes,
                        surface,
                    );
                if k != at {
                    assert(forest_hosts(manager.trees[k].nodes, surface));
                } else {
                    assert(forest_hosts(manager.trees[at].nodes, surface) || surface
                        == popup.id());
                }
            }
            if manager.holds_mapped(surface) {
                let k = choose|k: int|
                    0 <= k < manager.trees.len() && forest_hosts(
                        (#[trigger] manager.trees[k]).nodes,
                        surface,
                    );
                assert(forest_hosts(after.trees[k].nodes, surface));
            }
            if surface == popup.id() {
                assert(forest_hosts(after.trees[at].nodes, surface));
            }
        } else {
            let sprout = TreeModel { root, nodes: seq![NodeModel::leaf(popup)] };
            forest_hosts_iff_a_tree_hosts(sprout.nodes, surface);
            forest_hosts_iff_a_tree_hosts(Seq::<NodeModel>::empty(), surface);
            assert(forest_hosts(sprout.nodes, surface) <==> surface == popup.id()) by {
                if surface == popup.id() {
                    assert(sprout.nodes[0].hosts(surface));
                }
            }
            if after.holds_mapped(surface) {
                let k = choose|k: int|
                    0 <= k < after.trees.len() && forest_hosts(
                        (#[trigger] after.trees[k]).nodes,
                        surface,
                    );
                if k < manager.trees.len() {
                    assert(forest_hosts(manager.trees[k].nodes, surface));
                }
            }
            if manager.holds_mapped(surface) {
                let k = choose|k: int|
                    0 <= k < manager.trees.len() && forest_hosts(
                        (#[trigger] manager.trees[k]).nodes,
                        surface,
                    );
                assert(forest_hosts(after.trees[k].nodes, surface));
            }
            if surface == popup.id() {
                assert(forest_hosts(after.trees[manager.trees.len() as int].nodes, surface));
            }
        }
    }
}

/// A tree into which a popup was inserted holds that popup and what it
/// held.
pub proof fn tree_with_popup_hosts_one_more(
    tree: TreeModel,
    surfaces: &Surfaces,
    popup: PopupKind,
    surface: SurfaceId,
)
    ensures
        forest_hosts(tree.with_popup(surfaces, popup).nodes, surface) <==> forest_hosts(
            tree.nodes,
            surface,
        ) || surface == popup.id(),
{
    let grown = tree.with_popup(surfaces, popup).nodes;
    match surfaces.parent_of(popup.id()) {
        Some(parent) if forest_hosts(tree.nodes, parent) => {
            forest_with_popup_hosts_one_more(tree.nodes, parent, popup, surface);
        },
        _ => {
            forest_hosts_iff_a_tree_hosts(grown, surface);
            forest_hosts_iff_a_tree_hosts(tree.nodes, surface);
            forest_hosts_iff_a_tree_hosts(Seq::<NodeModel>::empty(), surface);
            if forest_hosts(grown, surface) {
                let i = choose|i: int| 0 <= i < grown.len() && (#[trigger] grown[i]).hosts(surface);
                if i < tree.nodes.len() {
                    assert(tree.nodes[i].hosts(surface));
                }
            }
            if forest_hosts(tree.nodes, surface) {
                let i = choose|i: int|
                    0 <= i < tree.nodes.len() && (#[trigger] tree.nodes[i]).hosts(surface);
                assert(grown[i].hosts(surface));
            }
            if surface == popup.id() {
                assert(grown[tree.nodes.len() as int].hosts(surface));
            }
        },
    }
}

/// A commit loses no popup whose toplevel surface can be resolved, and
/// adds none: the registry holds after it what it held before.
pub proof fn commit_keeps_what_is_held(
    manager: ManagerModel,
    surfaces: &Surfaces,
    committed: SurfaceId,
    surface: SurfaceId,
)
    requires
        root_of(surfaces, PopupKind::on(committed)) is Some,
    ensures
        manager.commit(surfaces, committed).tracks(surface) <==> manager.tracks(surface),
{
    let at = first_index(manager.unmapped, popup_on(committed));
    first_index_is_first(manager.unmapped, popup_on(committed));
    if surfaces.has_popup_role(committed) && at < manager.unmapped.len() {
        let fewer = ManagerModel {
            unmapped: manager.unmapped.update(at, manager.unmapped.last()).drop_last(),
            ..manager
        };
        let popup = manager.unmapped[at];
        assert(popup == PopupKind::on(committed));
        attached_popups_are_held(fewer, surfaces, popup, surface);
        first_index_is_first(manager.unmapped, popup_on(surface));
        first_index_is_first(fewer.unmapped, popup_on(surface));
        if fewer.holds_unmapped(surface) {
            let i = first_index(fewer.unmapped, popup_on(surface));
            if i == at {
                assert(manager.unmapped[manager.unmapped.len() - 1].id() == surface);
            } else {
                assert(manager.unmapped[i].id() == surface);
            }
        }
        if manager.holds_unmapped(surface) && surface != committed {
            let i = first_index(manager.unmapped, popup_on(surface));
            if i == manager.unmapped.len() - 1 {
                assert(fewer.unmapped[at].id() == surface);
            } else {
                assert(fewer.unmapped[i].id() == surface);
            }
        }
    }
}

/// A popup that was announced without a parent waits for one, and the
/// hierarchies stay as they are.
pub proof fn popup_without_parent_waits(manager: ManagerModel, surfaces: &Surfaces, kind: PopupKind)
    requires
        surfaces.parent_of(kind.id()) is None,
    ensures
        manager.track_popup(surfaces, kind).unmapped == manager.unmapped.push(kind),
        manager.track_popup(surfaces, kind).trees == manager.trees,
        manager.track_popup(surfaces, kind).holds_unmapped(kind.id()),
{
    let after = manager.track_popup(surfaces, kind);
    first_index_is_first(after.unmapped, popup_on(kind.id()));
    assert(after.unmapped[manager.unmapped.len() as int] == kind);
}

/// A popup that waits for a parent goes on waiting while other popups are
/// announced and other surfaces are committed.
pub proof fn waiting_popup_keeps_waiting(
    manager: ManagerModel,
    surfaces: &Surfaces,
    waiting: SurfaceId,
    kind: PopupKind,
    committed: SurfaceId,
)
    requires
        manager.holds_unmapped(waiting),
        committed != waiting,
    ensures
        manager.track_popup(surfaces, kind).holds_unmapped(waiting),
        manager.commit(surfaces, committed).holds_unmapped(waiting),
{
    let at = first_index(manager.unmapped, popup_on(waiting));
    first_index_is_first(manager.unmapped, popup_on(waiting));
    let announced = manager.track_popup(surfaces, kind);
    first_index_is_first(announced.unmapped, popup_on(waiting));
    assert(announced.unmapped[at] == manager.unmapped[at]);
    let after = manager.commit(surfaces, committed);
    let gone = first_index(manager.unmapped, popup_on(committed));
    first_index_is_first(manager.unmapped, popup_on(committed));
    first_index_is_first(after.unmapped, popup_on(waiting));
    if surfaces.has_popup_role(committed) && gone < manager.unmapped.len() {
        if at == manager.unmapped.len() - 1 {
            assert(after.unmapped[gone] == manager.unmapped[at]);
        } else {
            assert(after.unmapped[at] == manager.unmapped[at]);
        }
    }
}

/// After the cleaning no hierarchy without popups is left, no waiting popup
/// with a dead surface, no popup with a dead surface in any hierarchy, and
/// no chain in which nothing holds a grab; and every grab that is left is
/// that of a popup with a live surface.
pub proof fn cleanup_leaves_no_dead(manager: ManagerModel, surfaces: &Surfaces)
    ensures
        forall|k: int|
            0 <= k < manager.cleanup(surfaces).trees.len() ==> (#[trigger] manager.cleanup(
                surfaces,
            ).trees[k]).nodes.len() > 0,
        forall|k: int, surface: SurfaceId|
            0 <= k < manager.cleanup(surfaces).trees.len() && #[trigger] forest_hosts(
                manager.cleanup(surfaces).trees[k].nodes,
                surface,
            ) ==> surfaces.is_alive(surface),
        forall|i: int|
            0 <= i < manager.cleanup(surfaces).unmapped.len() ==> surfaces.is_alive(
                (#[trigger] manager.cleanup(surfaces).unmapped[i]).id(),
            ),
        forall|k: int|
            0 <= k < manager.cleanup(surfaces).grabs.len() ==> (#[trigger] manager.cleanup(
                surfaces,
            ).grabs[k]).active(),
        forall|k: int, i: int|
            0 <= k < manager.cleanup(surfaces).grabs.len() && 0 <= i < manager.cleanup(
                surfaces,
            ).grabs[k].grabs.len() ==> surfaces.is_alive(
                (#[trigger] manager.cleanup(surfaces).grabs[k].grabs[i]).0.id(),
            ),
        manager.cleanup(surfaces).events == manager.events,
{
    let after = manager.cleanup(surfaces);
    let trees = trees_cleaned(manager.trees, surfaces);
    let chains = chains_cleaned(manager.grabs, surfaces);
    filter_keeps_only_what_passes(manager.unmapped, popup_is_alive(surfaces));
    filter_keeps_only_what_passes(trees, tree_is_alive());
    filter_keeps_only_what_passes(chains, chain_is_active());
    assert forall|k: int, surface: SurfaceId|
        0 <= k < after.trees.len() && #[trigger] forest_hosts(
            after.trees[k].nodes,
            surface,
        ) implies surfaces.is_alive(surface) by {
        assert(trees.contains(after.trees[k]));
        let at = choose|at: int| 0 <= at < trees.len() && trees[at] == after.trees[k];
        cleaned_trees_hold_the_living(manager.trees[at].nodes, surfaces, surface);
    }
    assert forall|k: int, i: int|
        0 <= k < after.grabs.len() && 0 <= i < after.grabs[k].grabs.len() implies surfaces.is_alive(
        (#[trigger] after.grabs[k].grabs[i]).0.id()) by {
        assert(chains.contains(after.grabs[k]));
        let at = choose|at: int| 0 <= at < chains.len() && chains[at] == after.grabs[k];
        filter_keeps_only_what_passes(manager.grabs[at].grabs, grab_is_alive(surfaces));
    }
}

/// After the cleaning the registry holds only popups with a live surface,
/// and none that it did not hold before.
pub proof fn cleanup_keeps_only_the_living(
    manager: ManagerModel,
    surfaces: &Surfaces,
    surface: SurfaceId,
)
    requires
        manager.cleanup(surfaces).tracks(surface),
    ensures
        surfaces.is_alive(surface),
        manager.tracks(surface),
{
    let after = manager.cleanup(surfaces);
    let trees = trees_cleaned(manager.trees, surfaces);
    filter_keeps_only_what_passes(manager.unmapped, popup_is_alive(surfaces));
    filter_keeps_only_what_passes(trees, tree_is_alive());
    first_index_is_first(after.unmapped, popup_on(surface));
    first_index_is_first(manager.unmapped, popup_on(surface));
    if after.holds_unmapped(surface) {
        let kept = after.unmapped[first_index(after.unmapped, popup_on(surface))];
        assert(manager.unmapped.contains(kept));
        let at = choose|at: int| 0 <= at < manager.unmapped.len() && manager.unmapped[at] == kept;
        assert(manager.unmapped[at].id() == surface);
    } else {
        let k = choose|k: int|
            0 <= k < after.trees.len() && forest_hosts((#[trigger] after.trees[k]).nodes, surface);
        assert(trees.contains(after.trees[k]));
        let at = choose|at: int| 0 <= at < trees.len() && trees[at] == after.trees[k];
        cleaned_trees_hold_the_living(manager.trees[at].nodes, surfaces, surface);
        assert(forest_hosts(manager.trees[at].nodes, surface));
    }
}

/// The cleaning leaves the registry as it is where nothing is dead: where
/// every waiting popup, every popup in a hierarchy and every popup that
/// holds a grab has a live surface, every hierarchy holds a popup, and in
/// every chain a popup holds a grab.
pub proof fn cleanup_spares_the_living(manager: ManagerModel, surfaces: &Surfaces)
    requires
        all_alive(manager.unmapped, surfaces),
        forall|k: int|
            0 <= k < manager.trees.len() ==> (#[trigger] manager.trees[k]).nodes.len() > 0
                && all_alive(forest_popups(manager.trees[k].nodes), surfaces),
        forall|k: int|
            0 <= k < manager.grabs.len() ==> (#[trigger] manager.grabs[k]).active() && forall|
                i: int,
            |
                0 <= i < manager.grabs[k].grabs.len() ==> surfaces.is_alive(
                    (#[trigger] manager.grabs[k].grabs[i]).0.id(),
                ),
    ensures
        manager.cleanup(surfaces) == manager,
        manager.destroyed_early(surfaces) == Seq::<PopupKind>::empty(),
{
    nothing_to_report_of_the_living(manager.trees, surfaces);
    let trees = trees_cleaned(manager.trees, surfaces);
    let chains = chains_cleaned(manager.grabs, surfaces);
    filter_keeps_what_passes(manager.unmapped, popup_is_alive(surfaces));
    assert forall|k: int| 0 <= k < manager.trees.len() implies #[trigger] trees[k]
        == manager.trees[k] by {
        cleaning_spares_the_living(manager.trees[k].nodes, surfaces);
    }
    assert(trees =~= manager.trees);
    filter_keeps_what_passes(trees, tree_is_alive());
    assert forall|k: int| 0 <= k < manager.grabs.len() implies #[trigger] chains[k]
        == manager.grabs[k] by {
        filter_keeps_what_passes(manager.grabs[k].grabs, grab_is_alive(surfaces));
    }
    assert(chains =~= manager.grabs);
    filter_keeps_what_passes(chains, chain_is_active());
}

/// The cleaning reports nothing of trees in which every popup has a live
/// surface.
proof fn nothing_to_report_of_the_living(trees: Seq<TreeModel>, surfaces: &Surfaces)
    requires
        forall|k: int|
            0 <= k < trees.len() ==> all_alive(forest_popups((#[trigger] trees[k]).nodes), surfaces),
    ensures
        trees_destroyed_early(trees, surfaces) == Seq::<PopupKind>::empty(),
    decreases trees.len(),
{
    if trees.len() > 0 {
        let front = trees.drop_last();
        assert forall|k: int| 0 <= k < front.len() implies all_alive(
            forest_popups((#[trigger] front[k]).nodes),
            surfaces,
        ) by {
            assert(front[k] == trees[k]);
        }
        nothing_to_report_of_the_living(front, surfaces);
        the_living_are_not_reported(trees.last().nodes, surfaces);
        assert(trees[trees.len() - 1] == trees.last());
        assert(trees_destroyed_early(trees, surfaces) =~= Seq::<PopupKind>::empty());
    }
}

/// Looking for the first wanted item finds the same place after an item
/// was replaced by one that is wanted exactly if it was.
pub proof fn first_index_after_update<T>(
    items: Seq<T>,
    wanted: spec_fn(T) -> bool, at: int, item: T,
)
    requires
        0 <= at < items.len(),
        wanted(item) == wanted(items[at]),
    ensures
        first_index(items.update(at, item), wanted) == first_index(items, wanted),
{
    let first = first_index(items, wanted);
    first_index_is_first(items, wanted);
    let changed = items.update(at, item);
    assert forall|j: int| 0 <= j < first implies !wanted(#[trigger] changed[j]) by {
        if j != at {
            assert(changed[j] == items[j]);
        }
    }
    first_index_is_only(changed, wanted, first);
}

/// A grab that is asked for a committed popup is refused as invalid; the
/// client is told so, and nothing else changes: no chain of grabs, no
/// hierarchy, no waiting popup.
pub proof fn grab_of_committed_popup_is_invalid(
    manager: ManagerModel,
    surfaces: &Surfaces,
    target: SurfaceId,
    seat: Seat,
    serial: Serial,
)
    requires
        surfaces.has_popup_role(target),
        surfaces.is_alive(target),
        root_of(surfaces, PopupKind::on(target)) is Some,
        surfaces.is_committed(target),
    ensures
        manager.grab_outcome(surfaces, target, seat) == Err::<Option<Serial>, PopupGrabError>(
            PopupGrabError::InvalidGrab,
        ),
        manager.grab_popup(surfaces, target, seat, serial) == manager.with_event(
            ClientEvent::Error { surface: target, error: ProtocolError::InvalidGrab },
        ),
        manager.grab_popup(surfaces, target, seat, serial).grabs == manager.grabs,
{
}

/// A grab that is refused as invalid was asked for a committed popup, and
/// changes no chain of grabs.
pub proof fn invalid_grab_changes_no_chain(
    manager: ManagerModel,
    surfaces: &Surfaces,
    target: SurfaceId,
    seat: Seat,
    serial: Serial,
)
    requires
        manager.grab_outcome(surfaces, target, seat) == Err::<Option<Serial>, PopupGrabError>(
            PopupGrabError::InvalidGrab,
        ),
    ensures
        surfaces.is_committed(target),
        manager.grab_popup(surfaces, target, seat, serial).grabs == manager.grabs,
{
}

/// A grab that is refused leaves the grabs of every seat as they are. One
/// that is refused because the popup was not opened on the topmost popup
/// changes nothing else either, but that the client is told so.
pub proof fn refused_grab_changes_no_chain(
    manager: ManagerModel,
    surfaces: &Surfaces,
    target: SurfaceId,
    seat: Seat,
    serial: Serial,
    other: SeatId,
)
    requires
        manager.grab_outcome(surfaces, target, seat) is Err,
    ensures
        manager.grab_popup(surfaces, target, seat, serial).grabs_of(other) == manager.grabs_of(
            other,
        ),
        manager.grab_outcome(surfaces, target, seat) == Err::<Option<Serial>, PopupGrabError>(
            PopupGrabError::NotTheTopmostPopup,
        ) ==> manager.grab_popup(surfaces, target, seat, serial) == manager.with_chain(
            seat.id,
        ).with_event(
            ClientEvent::Error { surface: target, error: ProtocolError::NotTheTopmostPopup },
        ),
{
    chain_is_there_or_empty(manager, seat.id, other);
}

/// Giving a seat a chain in which nothing holds a grab changes the grabs of
/// no seat.
pub proof fn chain_is_there_or_empty(manager: ManagerModel, seat: SeatId, other: SeatId)
    ensures
        manager.with_chain(seat).grabs_of(other) == manager.grabs_of(other),
        first_index(manager.with_chain(seat).grabs, chain_of(seat)) < manager.with_chain(
            seat,
        ).grabs.len(),
{
    let ready = manager.with_chain(seat);
    first_index_is_first(manager.grabs, chain_of(seat));
    first_index_is_first(manager.grabs, chain_of(other));
    let mine = first_index(manager.grabs, chain_of(seat));
    let theirs = first_index(manager.grabs, chain_of(other));
    if mine == manager.grabs.len() {
        assert(ready.grabs[mine].seat == seat);
        assert forall|j: int| 0 <= j < mine implies !chain_of(seat)(#[trigger] ready.grabs[j]) by {
            assert(ready.grabs[j] == manager.grabs[j]);
        }
        first_index_is_only(ready.grabs, chain_of(seat), mine);
        if theirs < manager.grabs.len() {
            assert forall|j: int| 0 <= j < theirs implies !chain_of(other)(
                #[trigger] ready.grabs[j],
            ) by {
                assert(ready.grabs[j] == manager.grabs[j]);
            }
            assert(ready.grabs[theirs] == manager.grabs[theirs]);
            first_index_is_only(ready.grabs, chain_of(other), theirs);
        } else if other == seat {
        } else {
            assert forall|j: int| 0 <= j < ready.grabs.len() implies !chain_of(other)(
                #[trigger] ready.grabs[j],
            ) by {
                if j < manager.grabs.len() {
                    assert(ready.grabs[j] == manager.grabs[j]);
                }
            }
            first_index_is_only(ready.grabs, chain_of(other), ready.grabs.len() as int);
        }
    }
}

/// A grab that is granted makes the popup the topmost of the grabs of its
/// seat, and leaves the grabs of every other seat as they are.
pub proof fn granted_grab_is_the_topmost(
    manager: ManagerModel,
    surfaces: &Surfaces,
    target: SurfaceId,
    seat: Seat,
    serial: Serial,
    other: SeatId,
)
    requires
        manager.grab_outcome(surfaces, target, seat) is Ok,
    ensures
        manager.grab_popup(surfaces, target, seat, serial).grabs_of(seat.id) == manager.grabs_of(
            seat.id,
        ).push((PopupKind::on(target), serial)),
        other != seat.id ==> manager.grab_popup(surfaces, target, seat, serial).grabs_of(other)
            == manager.grabs_of(other),
        manager.grab_popup(surfaces, target, seat, serial).trees == manager.trees,
        manager.grab_popup(surfaces, target, seat, serial).events == manager.events,
{
    let ready = manager.with_chain(seat.id);
    let after = manager.grab_popup(surfaces, target, seat, serial);
    let at = first_index(ready.grabs, chain_of(seat.id));
    chain_is_there_or_empty(manager, seat.id, seat.id);
    chain_is_there_or_empty(manager, seat.id, other);
    first_index_is_first(ready.grabs, chain_of(seat.id));
    let grown = ready.grabs[at].after_grab(surfaces, PopupKind::on(target), serial);
    first_index_after_update(ready.grabs, chain_of(seat.id), at, grown);
    if other != seat.id {
        first_index_after_update(ready.grabs, chain_of(other), at, grown);
        first_index_is_first(ready.grabs, chain_of(other));
    }
}

/// Where the hierarchy below a live toplevel surface holds no popup twice,
/// a popup that was dismissed from it is held by it no longer; and the
/// popups that left were told so, in the order in which they left.
pub proof fn dismissed_popup_is_not_listed(
    manager: ManagerModel,
    surfaces: &Surfaces,
    surface: SurfaceId,
    popup: PopupKind,
)
    requires
        surfaces.is_alive(surface),
        manager.tree_of(surface).popups().no_duplicates(),
    ensures
        !forest_hosts(
            manager.dismiss_popup(surfaces, surface, popup).tree_of(surface).nodes,
            popup.id(),
        ),
        manager.dismiss_popup(surfaces, surface, popup).tree_of(surface) == manager.tree_of(
            surface,
        ).without(popup.id()),
        manager.dismiss_popup(surfaces, surface, popup).events == manager.events + done_events(
            forest_dismissed(manager.tree_of(surface).nodes, popup.id()),
        ),
{
    let at = first_index(manager.trees, rooted_at(surface));
    first_index_is_first(manager.trees, rooted_at(surface));
    the_dismissed_is_gone(manager.tree_of(surface).nodes, popup.id());
    if at < manager.trees.len() {
        first_index_after_update(
            manager.trees,
            rooted_at(surface),
            at,
            manager.trees[at].without(popup.id()),
        );
    } else {
        assert(manager.events + done_events(Seq::<PopupKind>::empty()) =~= manager.events);
    }
}

/// Of two items that a filter keeps, the first stood before the second.
pub proof fn filter_keeps_the_order<T>(items: Seq<T>, passes: spec_fn(T) -> bool)
    ensures
        forall|i: int, j: int|
            #![trigger items.filter(passes)[i], items.filter(passes)[j]]
            0 <= i < j < items.filter(passes).len() ==> exists|a: int, b: int|
                #![trigger items[a], items[b]]
                0 <= a < b < items.len() && items[a] == items.filter(passes)[i] && items[b]
                    == items.filter(passes)[j],
    decreases items.len(),
{
    reveal(Seq::filter);
    if items.len() > 0 {
        let front = items.drop_last();
        let kept = items.filter(passes);
        filter_keeps_the_order(front, passes);
        filter_keeps_only_what_passes(front, passes);
        assert forall|i: int, j: int|
            #![trigger kept[i], kept[j]]
            0 <= i < j < kept.len() implies exists|a: int, b: int|
            #![trigger items[a], items[b]]
            0 <= a < b < items.len() && items[a] == kept[i] && items[b] == kept[j] by {
            if j < front.filter(passes).len() {
                let (a, b) = choose|a: int, b: int|
                    #![trigger front[a], front[b]]
                    0 <= a < b < front.len() && front[a] == front.filter(passes)[i] && front[b]
                        == front.filter(passes)[j];
                assert(items[a] == kept[i] && items[b] == kept[j]);
            } else {
                assert(front.contains(front.filter(passes)[i]));
                let a = choose|a: int| 0 <= a < front.len() && front[a] == front.filter(passes)[i];
                assert(items[a] == kept[i] && items[items.len() - 1] == kept[j]);
            }
        }
    }
}

/// The registry that holds nothing is well formed.
pub proof fn empty_registry_is_well_formed()
    ensures
        ManagerModel::empty().well_formed(),
{
}

/// Whatever is done with a well-formed registry leaves it well formed: no
/// toplevel surface gets a second hierarchy, and no seat a second chain of
/// grabs.
pub proof fn registry_stays_well_formed(
    manager: ManagerModel,
    surfaces: &Surfaces,
    popup: PopupKind,
    surface: SurfaceId,
    seat: Seat,
    serial: Serial,
)
    requires
        manager.well_formed(),
    ensures
        manager.add_popup(surfaces, popup).well_formed(),
        manager.track_popup(surfaces, popup).well_formed(),
        manager.commit(surfaces, surface).well_formed(),
        manager.dismiss_popup(surfaces, surface, popup).well_formed(),
        manager.cleanup(surfaces).well_formed(),
        manager.grab_popup(surfaces, surface, seat, serial).well_formed(),
{
    attaching_keeps_well_formed(manager, surfaces, popup);
    let at = first_index(manager.unmapped, popup_on(surface));
    if surfaces.has_popup_role(surface) && 0 <= at < manager.unmapped.len() {
        let fewer = ManagerModel {
            unmapped: manager.unmapped.update(at, manager.unmapped.last()).drop_last(),
            ..manager
        };
        attaching_keeps_well_formed(fewer, surfaces, manager.unmapped[at]);
    }
    dismissing_keeps_well_formed(manager, surfaces, surface, popup);
    cleaning_keeps_well_formed(manager, surfaces);
    let ready = manager.with_chain(seat.id);
    first_index_is_first(manager.grabs, chain_of(seat.id));
    assert(ready.well_formed());
    let target = PopupKind::on(surface);
    if let Some(root) = root_of(surfaces, target) {
        dismissing_keeps_well_formed(ready, surfaces, root, target);
    }
    chain_is_there_or_empty(manager, seat.id, seat.id);
    let at = first_index(ready.grabs, chain_of(seat.id));
    first_index_is_first(ready.grabs, chain_of(seat.id));
    let granted = ManagerModel {
        grabs: ready.grabs.update(at, ready.grabs[at].after_grab(surfaces, target, serial)),
        ..ready
    };
    assert(granted.well_formed()) by {
        assert forall|i: int, j: int| 0 <= i < j < granted.grabs.len() implies (
        #[trigger] granted.grabs[i]).seat != (#[trigger] granted.grabs[j]).seat by {
            assert(granted.grabs[i].seat == ready.grabs[i].seat);
            assert(granted.grabs[j].seat == ready.grabs[j].seat);
        }
    }
}

/// Attaching a popup gives no toplevel surface a second hierarchy.
proof fn attaching_keeps_well_formed(manager: ManagerModel, surfaces: &Surfaces, popup: PopupKind)
    requires
        manager.well_formed(),
    ensures
        manager.add_popup(surfaces, popup).well_formed(),
{
    if let Some(root) = root_of(surfaces, popup) {
        first_index_is_first(manager.trees, rooted_at(root));
    }
}

/// Dismissing a popup leaves every hierarchy below its toplevel surface.
proof fn dismissing_keeps_well_formed(
    manager: ManagerModel,
    surfaces: &Surfaces,
    surface: SurfaceId,
    popup: PopupKind,
)
    requires
        manager.well_formed(),
    ensures
        manager.dismiss_popup(surfaces, surface, popup).well_formed(),
{
}

/// The cleaning drops hierarchies and chains, and makes none.
proof fn cleaning_keeps_well_formed(manager: ManagerModel, surfaces: &Surfaces)
    requires
        manager.well_formed(),
    ensures
        manager.cleanup(surfaces).well_formed(),
{
    let after = manager.cleanup(surfaces);
    let trees = trees_cleaned(manager.trees, surfaces);
    let chains = chains_cleaned(manager.grabs, surfaces);
    filter_keeps_the_order(trees, tree_is_alive());
    filter_keeps_the_order(chains, chain_is_active());
    assert forall|i: int, j: int| 0 <= i < j < after.trees.len() implies (
    #[trigger] after.trees[i]).root != (#[trigger] after.trees[j]).root by {
        let (a, b) = choose|a: int, b: int|
            #![trigger trees[a], trees[b]]
            0 <= a < b < trees.len() && trees[a] == after.trees[i] && trees[b] == after.trees[j];
        assert(manager.trees[a].root != manager.trees[b].root);
    }
    assert forall|i: int, j: int| 0 <= i < j < after.grabs.len() implies (
    #[trigger] after.grabs[i]).seat != (#[trigger] after.grabs[j]).seat by {
        let (a, b) = choose|a: int, b: int|
            #![trigger chains[a], chains[b]]
            0 <= a < b < chains.len() && chains[a] == after.grabs[i] && chains[b]
                == after.grabs[j];
        assert(manager.grabs[a].seat != manager.grabs[b].seat);
    }
}

} // verus!
