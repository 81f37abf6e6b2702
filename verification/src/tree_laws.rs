//! What holds of every hierarchy of popups.

use vstd::prelude::*;
use crate::model::{
    forest_cleaned, forest_destroyed_early, forest_dismissed, forest_first_host, forest_hosts,
    forest_keeps_parents, forest_located, forest_popups, forest_with_popup, forest_without,
    NodeModel, Placement, TreeModel,
};
use crate::popup::PopupKind;
use crate::surfaces::{SurfaceId, Surfaces};

verus! {

/// Something is in a concatenation exactly if it is in one of the parts.
pub proof fn contains_of_concat<T>(a: Seq<T>, b: Seq<T>, x: T)
    ensures
        (a + b).contains(x) <==> a.contains(x) || b.contains(x),
{
    if a.contains(x) {
        let i = choose|i: int| 0 <= i < a.len() && a[i] == x;
        assert((a + b)[i] == x);
    }
    if b.contains(x) {
        let i = choose|i: int| 0 <= i < b.len() && b[i] == x;
        assert((a + b)[a.len() + i] == x);
    }
    if (a + b).contains(x) {
        let i = choose|i: int| 0 <= i < (a + b).len() && (a + b)[i] == x;
        if i < a.len() {
            assert(a[i] == x);
        } else {
            assert(b[i - a.len()] == x);
        }
    }
}

/// The first tree that holds a popup on `surface` is a tree that holds one,
/// and no tree before it does.
pub proof fn first_host_is_first(nodes: Seq<NodeModel>, surface: SurfaceId)
    ensures
        0 <= forest_first_host(nodes, surface) <= nodes.len(),
        forall|j: int|
            0 <= j < forest_first_host(nodes, surface) ==> !(#[trigger] nodes[j]).hosts(surface),
        forest_first_host(nodes, surface) < nodes.len() ==> nodes[forest_first_host(
            nodes,
            surface,
        )].hosts(surface),
    decreases nodes.len(),
{
    if nodes.len() > 0 && !nodes[0].hosts(surface) {
        let rest = nodes.skip(1);
        first_host_is_first(rest, surface);
        assert forall|j: int| 0 <= j < forest_first_host(nodes, surface) implies !(
        #[trigger] nodes[j]).hosts(surface) by {
            if j > 0 {
                assert(nodes[j] == rest[j - 1]);
            }
        }
    }
}

/// Some trees hold a popup on `surface` exactly if one of them does.
pub proof fn forest_hosts_iff_a_tree_hosts(nodes: Seq<NodeModel>, surface: SurfaceId)
    ensures
        forest_hosts(nodes, surface) <==> exists|i: int|
            0 <= i < nodes.len() && (#[trigger] nodes[i]).hosts(surface),
{
    first_host_is_first(nodes, surface);
    if forest_hosts(nodes, surface) {
        assert(nodes[forest_first_host(nodes, surface)].hosts(surface));
    }
}

/// A hierarchy holds a popup on `surface` exactly if its list of popups
/// names that popup.
pub proof fn hosts_iff_listed(node: NodeModel, surface: SurfaceId)
    ensures
        node.hosts(surface) <==> node.popups().contains(PopupKind::on(surface)),
    decreases node,
{
    forest_hosts_iff_listed(node.children, surface);
    contains_of_concat(seq![node.popup], forest_popups(node.children), PopupKind::on(surface));
    if node.popup.id() == surface {
        assert(seq![node.popup][0] == PopupKind::on(surface));
    }
}

/// The same for a sequence of trees.
pub proof fn forest_hosts_iff_listed(nodes: Seq<NodeModel>, surface: SurfaceId)
    ensures
        forest_hosts(nodes, surface) <==> forest_popups(nodes).contains(PopupKind::on(surface)),
    decreases nodes,
{
    if nodes.len() == 0 {
    } else {
        hosts_iff_listed(nodes[0], surface);
        forest_hosts_iff_listed(nodes.skip(1), surface);
        contains_of_concat(
            nodes[0].popups(),
            forest_popups(nodes.skip(1)),
            PopupKind::on(surface),
        );
    }
}

/// After `popup` was inserted below `parent`, the trees hold what they held
/// before and, where a node was on `parent`, the new popup.
pub proof fn with_popup_hosts_one_more(
    node: NodeModel,
    parent: SurfaceId,
    popup: PopupKind,
    surface: SurfaceId,
)
    ensures
        node.with_popup(parent, popup).hosts(surface) <==> node.hosts(surface) || (node.hosts(
            parent,
        ) && surface == popup.id()),
    decreases node,
{
    if node.popup.id() == parent {
        let grown = node.children.push(NodeModel::leaf(popup));
        forest_hosts_iff_a_tree_hosts(grown, surface);
        forest_hosts_iff_a_tree_hosts(node.children, surface);
        forest_hosts_iff_a_tree_hosts(Seq::<NodeModel>::empty(), surface);
        if forest_hosts(grown, surface) {
            let i = choose|i: int| 0 <= i < grown.len() && (#[trigger] grown[i]).hosts(surface);
            if i < node.children.len() {
                assert(node.children[i].hosts(surface));
            }
        }
        if forest_hosts(node.children, surface) {
            let i = choose|i: int|
                0 <= i < node.children.len() && (#[trigger] node.children[i]).hosts(surface);
            assert(grown[i].hosts(surface));
        }
        if surface == popup.id() {
            assert(grown[node.children.len() as int].hosts(surface));
        }
    } else {
        forest_with_popup_hosts_one_more(node.children, parent, popup, surface);
    }
}

/// The same for a sequence of trees.
pub proof fn forest_with_popup_hosts_one_more(
    nodes: Seq<NodeModel>,
    parent: SurfaceId,
    popup: PopupKind,
    surface: SurfaceId,
)
    ensures
        forest_hosts(forest_with_popup(nodes, parent, popup), surface) <==> forest_hosts(
            nodes,
            surface,
        ) || (forest_hosts(nodes, parent) && surface == popup.id()),
    decreases nodes,
{
    let first = forest_first_host(nodes, parent);
    let grown = forest_with_popup(nodes, parent, popup);
    first_host_is_first(nodes, parent);
    forest_hosts_iff_a_tree_hosts(nodes, surface);
    forest_hosts_iff_a_tree_hosts(grown, surface);
    if first < nodes.len() {
        with_popup_hosts_one_more(nodes[first], parent, popup, surface);
        if forest_hosts(grown, surface) {
            let i = choose|i: int| 0 <= i < grown.len() && (#[trigger] grown[i]).hosts(surface);
            if i != first {
                assert(nodes[i].hosts(surface));
            }
        }
        if forest_hosts(nodes, surface) {
            let i = choose|i: int| 0 <= i < nodes.len() && (#[trigger] nodes[i]).hosts(surface);
            assert(grown[i].hosts(surface));
        }
        if surface == popup.id() {
            assert(grown[first].hosts(surface));
        }
    }
}

/// Some trees hold a popup in one of two parts exactly if they hold it in
/// the parts put together.
pub proof fn forest_hosts_of_concat(a: Seq<NodeModel>, b: Seq<NodeModel>, surface: SurfaceId)
    ensures
        forest_hosts(a + b, surface) <==> forest_hosts(a, surface) || forest_hosts(b, surface),
{
    forest_hosts_iff_listed(a, surface);
    forest_hosts_iff_listed(b, surface);
    forest_hosts_iff_listed(a + b, surface);
    forest_popups_of_concat(a, b);
    contains_of_concat(forest_popups(a), forest_popups(b), PopupKind::on(surface));
}

/// The popups of trees put together are the popups of the first part,
/// then those of the second.
pub proof fn forest_popups_of_concat(a: Seq<NodeModel>, b: Seq<NodeModel>)
    ensures
        forest_popups(a + b) == forest_popups(a) + forest_popups(b),
    decreases a.len(),
{
    if a.len() == 0 {
        assert(a + b =~= b);
        assert(forest_popups(a) + forest_popups(b) =~= forest_popups(b));
    } else {
        assert((a + b).skip(1) =~= a.skip(1) + b);
        forest_popups_of_concat(a.skip(1), b);
        assert(forest_popups(a + b) =~= forest_popups(a) + forest_popups(b));
    }
}

/// The popups of a single tree.
pub proof fn forest_popups_of_one(node: NodeModel)
    ensures
        forest_popups(seq![node]) == node.popups(),
{
    let one = seq![node];
    assert(one.skip(1).len() == 0);
    assert(forest_popups(one.skip(1)) =~= Seq::<PopupKind>::empty());
    assert(forest_popups(one) =~= node.popups());
}

/// Dismissing a popup that the trees do not hold changes nothing and tells
/// nobody.
pub proof fn dismissing_the_absent_is_idle(nodes: Seq<NodeModel>, target: SurfaceId)
    requires
        !forest_hosts(nodes, target),
    ensures
        forest_without(nodes, target) == nodes,
        forest_dismissed(nodes, target) == Seq::<PopupKind>::empty(),
    decreases nodes,
{
    if nodes.len() > 0 {
        first_host_is_first(nodes, target);
        forest_hosts_iff_a_tree_hosts(nodes, target);
        forest_hosts_iff_a_tree_hosts(nodes.skip(1), target);
        assert(!nodes[0].hosts(target));
        if forest_hosts(nodes.skip(1), target) {
            let i = choose|i: int|
                0 <= i < nodes.skip(1).len() && (#[trigger] nodes.skip(1)[i]).hosts(target);
            assert(nodes[i + 1].hosts(target));
        }
        dismissing_the_absent_is_idle(nodes[0].children, target);
        dismissing_the_absent_is_idle(nodes.skip(1), target);
        assert(nodes[0].without(target) == nodes[0]);
        assert(seq![nodes[0]] + nodes.skip(1) =~= nodes);
        assert(Seq::<PopupKind>::empty() + Seq::<PopupKind>::empty() =~= Seq::<PopupKind>::empty());
    }
}

/// Dismissing a popup that the trees hold tells that popup so.
pub proof fn dismissing_tells_the_popup(nodes: Seq<NodeModel>, target: SurfaceId)
    requires
        forest_hosts(nodes, target),
    ensures
        forest_dismissed(nodes, target).contains(PopupKind::on(target)),
    decreases nodes,
{
    forest_hosts_iff_a_tree_hosts(nodes, target);
    if nodes[0].popup.id() == target {
        let listed = nodes[0].popups();
        assert(listed.reverse()[listed.len() - 1] == listed[0]);
    } else {
        let below = forest_dismissed(nodes[0].children, target);
        let beside = forest_dismissed(nodes.skip(1), target);
        contains_of_concat(below, beside, PopupKind::on(target));
        if nodes[0].hosts(target) {
            dismissing_tells_the_popup(nodes[0].children, target);
        } else {
            let i = choose|i: int| 0 <= i < nodes.len() && (#[trigger] nodes[i]).hosts(target);
            assert(nodes.skip(1)[i - 1].hosts(target));
            forest_hosts_iff_a_tree_hosts(nodes.skip(1), target);
            dismissing_tells_the_popup(nodes.skip(1), target);
        }
    }
}

/// The popups that are told that they were dismissed are exactly those
/// that left: every popup that the trees held is still held or was told,
/// as often as it was held.
pub proof fn dismissed_are_those_that_left(nodes: Seq<NodeModel>, target: SurfaceId)
    ensures
        forest_popups(nodes).to_multiset() == forest_popups(
            forest_without(nodes, target),
        ).to_multiset().add(forest_dismissed(nodes, target).to_multiset()),
    decreases nodes,
{
    let left = forest_without(nodes, target);
    let told = forest_dismissed(nodes, target);
    if nodes.len() == 0 {
        let nothing = Seq::<PopupKind>::empty();
        vstd::seq_lib::lemma_multiset_commutative(nothing, nothing);
        assert(nothing + nothing =~= nothing);
    } else {
        let rest = nodes.skip(1);
        vstd::seq_lib::lemma_multiset_commutative(nodes[0].popups(), forest_popups(rest));
        if nodes[0].popup.id() == target {
            nodes[0].popups().lemma_reverse_to_multiset();
            assert(forest_popups(nodes).to_multiset() =~= forest_popups(left).to_multiset().add(
                told.to_multiset(),
            ));
        } else {
            let below = nodes[0].children;
            dismissed_are_those_that_left(below, target);
            dismissed_are_those_that_left(rest, target);
            let kept = nodes[0].without(target);
            forest_popups_of_concat(seq![kept], forest_without(rest, target));
            forest_popups_of_one(kept);
            vstd::seq_lib::lemma_multiset_commutative(
                kept.popups(),
                forest_popups(forest_without(rest, target)),
            );
            vstd::seq_lib::lemma_multiset_commutative(
                seq![nodes[0].popup],
                forest_popups(below),
            );
            vstd::seq_lib::lemma_multiset_commutative(
                seq![kept.popup],
                forest_popups(kept.children),
            );
            vstd::seq_lib::lemma_multiset_commutative(
                forest_dismissed(below, target),
                forest_dismissed(rest, target),
            );
            assert(forest_popups(nodes).to_multiset() =~= forest_popups(left).to_multiset().add(
                told.to_multiset(),
            ));
        }
    }
}

/// Where no popup is held twice, a popup that was dismissed is held no
/// longer.
pub proof fn the_dismissed_is_gone(nodes: Seq<NodeModel>, target: SurfaceId)
    requires
        forest_popups(nodes).no_duplicates(),
    ensures
        !forest_hosts(forest_without(nodes, target), target),
{
    let wanted = PopupKind::on(target);
    let left = forest_popups(forest_without(nodes, target));
    let told = forest_dismissed(nodes, target);
    forest_hosts_iff_listed(forest_without(nodes, target), target);
    if forest_hosts(nodes, target) {
        dismissing_tells_the_popup(nodes, target);
        dismissed_are_those_that_left(nodes, target);
        forest_popups(nodes).lemma_multiset_has_no_duplicates();
        forest_popups(nodes).to_multiset_ensures();
        left.to_multiset_ensures();
        told.to_multiset_ensures();
        assert(told.to_multiset().count(wanted) > 0);
        assert(forest_popups(nodes).to_multiset().count(wanted) == left.to_multiset().count(
            wanted,
        ) + told.to_multiset().count(wanted));
        assert(forest_popups(nodes).to_multiset().contains(wanted));
        assert(left.to_multiset().count(wanted) == 0);
    } else {
        dismissing_the_absent_is_idle(nodes, target);
    }
}

/// In the list of the popups of a hierarchy, the popups that were opened
/// on a popup stand together behind it: a popup is listed before, and told
/// of its dismissal after, everything that was opened on it.
pub proof fn children_are_listed_behind(node: NodeModel, i: int)
    requires
        0 <= i < node.children.len(),
    ensures
        node.popups()[0] == node.popup,
        exists|at: int|
            1 <= at && at + node.children[i].popups().len() <= node.popups().len()
                && #[trigger] node.popups().subrange(
                at,
                at + node.children[i].popups().len(),
            ) == node.children[i].popups(),
{
    let before = node.children.take(i);
    let after = node.children.skip(i + 1);
    let child = node.children[i];
    assert(node.children =~= before + (seq![child] + after));
    forest_popups_of_concat(before, seq![child] + after);
    forest_popups_of_concat(seq![child], after);
    forest_popups_of_one(child);
    let at: int = 1 + forest_popups(before).len() as int;
    assert(node.popups().subrange(at, at + child.popups().len()) =~= child.popups());
}

/// After the cleaning, every popup that the trees hold has a live surface,
/// and was held before.
pub proof fn cleaned_trees_hold_the_living(
    nodes: Seq<NodeModel>,
    surfaces: &Surfaces,
    surface: SurfaceId,
)
    requires
        forest_hosts(forest_cleaned(nodes, surfaces), surface),
    ensures
        surfaces.is_alive(surface),
        forest_hosts(nodes, surface),
    decreases nodes,
{
    if nodes.len() > 0 {
        let rest = nodes.skip(1);
        let first = nodes[0].cleaned(surfaces);
        assert(nodes =~= seq![nodes[0]] + rest);
        forest_hosts_of_concat(seq![nodes[0]], rest, surface);
        forest_hosts_iff_a_tree_hosts(seq![nodes[0]], surface);
        if surfaces.is_alive(nodes[0].popup.id()) {
            forest_hosts_of_concat(seq![first], forest_cleaned(rest, surfaces), surface);
            forest_hosts_iff_a_tree_hosts(seq![first], surface);
            if forest_hosts(seq![first], surface) {
                assert(first.hosts(surface));
                if first.popup.id() != surface {
                    cleaned_trees_hold_the_living(nodes[0].children, surfaces, surface);
                }
                assert(seq![nodes[0]][0].hosts(surface));
            } else {
                cleaned_trees_hold_the_living(rest, surfaces, surface);
            }
        } else {
            cleaned_trees_hold_the_living(rest, surfaces, surface);
        }
    }
}

/// Whether the surface of every one of `popups` is alive.
pub open spec fn all_alive(popups: Seq<PopupKind>, surfaces: &Surfaces) -> bool {
    forall|i: int| 0 <= i < popups.len() ==> surfaces.is_alive((#[trigger] popups[i]).id())
}

/// The cleaning leaves trees alone in which every popup has a live
/// surface.
pub proof fn cleaning_spares_the_living(nodes: Seq<NodeModel>, surfaces: &Surfaces)
    requires
        all_alive(forest_popups(nodes), surfaces),
    ensures
        forest_cleaned(nodes, surfaces) == nodes,
    decreases nodes,
{
    if nodes.len() > 0 {
        let rest = nodes.skip(1);
        let own = nodes[0].popups();
        let listed = forest_popups(nodes);
        assert(listed[0] == nodes[0].popup);
        let below = forest_popups(nodes[0].children);
        assert forall|i: int| 0 <= i < below.len() implies surfaces.is_alive(
            (#[trigger] below[i]).id(),
        ) by {
            assert(listed[i + 1] == below[i]);
        }
        assert forall|i: int| 0 <= i < forest_popups(rest).len() implies surfaces.is_alive(
            (#[trigger] forest_popups(rest)[i]).id(),
        ) by {
            assert(listed[own.len() + i] == forest_popups(rest)[i]);
        }
        cleaning_spares_the_living(nodes[0].children, surfaces);
        cleaning_spares_the_living(rest, surfaces);
        assert(nodes[0].cleaned(surfaces) == nodes[0]);
        assert(seq![nodes[0]] + rest =~= nodes);
    }
}

/// Every popup that the cleaning reports has a dead surface and was held
/// by the trees.
pub proof fn reported_popups_are_dead(nodes: Seq<NodeModel>, surfaces: &Surfaces, at: int)
    requires
        0 <= at < forest_destroyed_early(nodes, surfaces).len(),
    ensures
        !surfaces.is_alive(forest_destroyed_early(nodes, surfaces)[at].id()),
        forest_popups(nodes).contains(forest_destroyed_early(nodes, surfaces)[at]),
    decreases nodes,
{
    let first = nodes[0].destroyed_early(surfaces);
    let below = forest_destroyed_early(nodes[0].children, surfaces);
    let rest = nodes.skip(1);
    let reported = forest_destroyed_early(nodes, surfaces)[at];
    contains_of_concat(nodes[0].popups(), forest_popups(rest), reported);
    contains_of_concat(seq![nodes[0].popup], forest_popups(nodes[0].children), reported);
    if at >= first.len() {
        reported_popups_are_dead(rest, surfaces, at - first.len());
    } else if at < below.len() {
        reported_popups_are_dead(nodes[0].children, surfaces, at);
    } else {
        assert(seq![nodes[0].popup][0] == reported);
    }
}

/// The cleaning reports nothing where every popup has a live surface.
pub proof fn the_living_are_not_reported(nodes: Seq<NodeModel>, surfaces: &Surfaces)
    requires
        all_alive(forest_popups(nodes), surfaces),
    ensures
        forest_destroyed_early(nodes, surfaces) == Seq::<PopupKind>::empty(),
{
    if forest_destroyed_early(nodes, surfaces).len() > 0 {
        reported_popups_are_dead(nodes, surfaces, 0);
        let reported = forest_destroyed_early(nodes, surfaces)[0];
        let i = choose|i: int|
            0 <= i < forest_popups(nodes).len() && forest_popups(nodes)[i] == reported;
        assert(surfaces.is_alive(forest_popups(nodes)[i].id()));
    }
    assert(forest_destroyed_early(nodes, surfaces) =~= Seq::<PopupKind>::empty());
}

/// The positions of `placements` moved by `(dx, dy)`.
pub open spec fn moved(placements: Seq<Placement>, dx: int, dy: int) -> Seq<Placement> {
    Seq::new(
        placements.len(),
        |i: int|
            Placement {
                popup: placements[i].popup,
                x: placements[i].x + dx,
                y: placements[i].y + dy,
            },
    )
}

/// The listing with positions names the popups of the plain listing, in the
/// same order, and the first position is the sum of where the parent is and
/// the placement of the popup itself.
pub proof fn located_lists_the_popups(node: NodeModel, surfaces: &Surfaces, x: int, y: int)
    ensures
        node.located(surfaces, x, y).len() == node.popups().len(),
        forall|i: int|
            0 <= i < node.popups().len() ==> (#[trigger] node.located(surfaces, x, y)[i]).popup
                == node.popups()[i],
        node.located(surfaces, x, y)[0] == (Placement {
            popup: node.popup,
            x: x + surfaces.location_of(node.popup.id()).x,
            y: y + surfaces.location_of(node.popup.id()).y,
        }),
    decreases node,
{
    let own = surfaces.location_of(node.popup.id());
    forest_located_lists_the_popups(node.children, surfaces, x + own.x, y + own.y);
}

/// The same for a sequence of trees.
pub proof fn forest_located_lists_the_popups(
    nodes: Seq<NodeModel>,
    surfaces: &Surfaces,
    x: int,
    y: int,
)
    ensures
        forest_located(nodes, surfaces, x, y).len() == forest_popups(nodes).len(),
        forall|i: int|
            0 <= i < forest_popups(nodes).len() ==> (#[trigger] forest_located(
                nodes,
                surfaces,
                x,
                y,
            )[i]).popup == forest_popups(nodes)[i],
    decreases nodes,
{
    if nodes.len() > 0 {
        located_lists_the_popups(nodes[0], surfaces, x, y);
        forest_located_lists_the_popups(nodes.skip(1), surfaces, x, y);
    }
}

/// Where the parent of a hierarchy moves, every popup of the hierarchy
/// moves with it by as much.
pub proof fn positions_move_with_the_parent(
    node: NodeModel,
    surfaces: &Surfaces,
    x: int,
    y: int,
    dx: int,
    dy: int,
)
    ensures
        node.located(surfaces, x + dx, y + dy) == moved(node.located(surfaces, x, y), dx, dy),
    decreases node,
{
    let own = surfaces.location_of(node.popup.id());
    forest_positions_move_with_the_parent(node.children, surfaces, x + own.x, y + own.y, dx, dy);
    assert(node.located(surfaces, x + dx, y + dy) =~= moved(
        node.located(surfaces, x, y),
        dx,
        dy,
    ));
}

/// The same for a sequence of trees.
pub proof fn forest_positions_move_with_the_parent(
    nodes: Seq<NodeModel>,
    surfaces: &Surfaces,
    x: int,
    y: int,
    dx: int,
    dy: int,
)
    ensures
        forest_located(nodes, surfaces, x + dx, y + dy) == moved(
            forest_located(nodes, surfaces, x, y),
            dx,
            dy,
        ),
    decreases nodes,
{
    if nodes.len() == 0 {
        assert(forest_located(nodes, surfaces, x + dx, y + dy) =~= moved(
            forest_located(nodes, surfaces, x, y),
            dx,
            dy,
        ));
    } else {
        positions_move_with_the_parent(nodes[0], surfaces, x, y, dx, dy);
        forest_positions_move_with_the_parent(nodes.skip(1), surfaces, x, y, dx, dy);
        assert(forest_located(nodes, surfaces, x + dx, y + dy) =~= moved(
            forest_located(nodes, surfaces, x, y),
            dx,
            dy,
        ));
    }
}

/// Whether two tables of surfaces place every one of `popups` alike.
pub open spec fn placed_alike(popups: Seq<PopupKind>, one: &Surfaces, other: &Surfaces) -> bool {
    forall|i: int|
        0 <= i < popups.len() ==> one.location_of((#[trigger] popups[i]).id())
            == other.location_of(popups[i].id())
}

/// The positions of the popups of some trees depend on the placements of
/// these popups alone.
pub proof fn positions_depend_on_placements(
    nodes: Seq<NodeModel>,
    one: &Surfaces,
    other: &Surfaces,
    x: int,
    y: int,
)
    requires
        placed_alike(forest_popups(nodes), one, other),
    ensures
        forest_located(nodes, one, x, y) == forest_located(nodes, other, x, y),
    decreases nodes,
{
    if nodes.len() > 0 {
        let rest = nodes.skip(1);
        let own = nodes[0].popups();
        let below = nodes[0].children;
        let listed = forest_popups(nodes);
        let place = one.location_of(nodes[0].popup.id());
        assert(listed[0] == nodes[0].popup);
        assert forall|i: int| 0 <= i < forest_popups(below).len() implies one.location_of(
            (#[trigger] forest_popups(below)[i]).id(),
        ) == other.location_of(forest_popups(below)[i].id()) by {
            assert(listed[i + 1] == forest_popups(below)[i]);
        }
        assert forall|i: int| 0 <= i < forest_popups(rest).len() implies one.location_of(
            (#[trigger] forest_popups(rest)[i]).id(),
        ) == other.location_of(forest_popups(rest)[i].id()) by {
            assert(listed[own.len() + i] == forest_popups(rest)[i]);
        }
        positions_depend_on_placements(below, one, other, x + place.x, y + place.y);
        positions_depend_on_placements(rest, one, other, x, y);
        assert(other.location_of(listed[0].id()) == place);
        assert(nodes[0].located(one, x, y) =~= nodes[0].located(other, x, y));
    }
}

/// Where only the placement of one popup changes, by `(dx, dy)`, the
/// position of that popup and the positions of all popups below it change
/// by `(dx, dy)`.
pub proof fn moving_a_popup_moves_what_is_below(
    node: NodeModel,
    before: &Surfaces,
    after: &Surfaces,
    x: int,
    y: int,
    dx: int,
    dy: int,
)
    requires
        after.location_of(node.popup.id()).x == before.location_of(node.popup.id()).x + dx,
        after.location_of(node.popup.id()).y == before.location_of(node.popup.id()).y + dy,
        placed_alike(forest_popups(node.children), before, after),
    ensures
        node.located(after, x, y) == moved(node.located(before, x, y), dx, dy),
{
    let place = before.location_of(node.popup.id());
    positions_depend_on_placements(
        node.children,
        before,
        after,
        x + place.x + dx,
        y + place.y + dy,
    );
    forest_positions_move_with_the_parent(
        node.children,
        before,
        x + place.x,
        y + place.y,
        dx,
        dy,
    );
    assert(node.located(after, x, y) =~= moved(node.located(before, x, y), dx, dy));
}

/// Inserting a popup below the surface that it declares as its parent
/// keeps every popup below its declared parent.
pub proof fn insertion_keeps_parents(
    node: NodeModel,
    surfaces: &Surfaces,
    parent: SurfaceId,
    popup: PopupKind,
)
    requires
        node.keeps_parents(surfaces),
        surfaces.parent_of(popup.id()) == Some(parent),
    ensures
        node.with_popup(parent, popup).keeps_parents(surfaces),
    decreases node,
{
    let grown = node.with_popup(parent, popup);
    if node.popup.id() == parent {
        assert forall|i: int| 0 <= i < grown.children.len() implies surfaces.parent_of(
            (#[trigger] grown.children[i]).popup.id(),
        ) == Some(grown.popup.id()) && grown.children[i].keeps_parents(surfaces) by {
            if i < node.children.len() {
                assert(grown.children[i] == node.children[i]);
            }
        }
    } else {
        let first = forest_first_host(node.children, parent);
        first_host_is_first(node.children, parent);
        if first < node.children.len() {
            insertion_keeps_parents(node.children[first], surfaces, parent, popup);
        }
        assert forall|i: int| 0 <= i < grown.children.len() implies surfaces.parent_of(
            (#[trigger] grown.children[i]).popup.id(),
        ) == Some(grown.popup.id()) && grown.children[i].keeps_parents(surfaces) by {
            assert(node.children[i].keeps_parents(surfaces));
        }
    }
}

/// The same for a whole tree, whatever parent the popup declares.
pub proof fn tree_insertion_keeps_parents(tree: TreeModel, surfaces: &Surfaces, popup: PopupKind)
    requires
        forest_keeps_parents(tree.nodes, surfaces),
    ensures
        forest_keeps_parents(tree.with_popup(surfaces, popup).nodes, surfaces),
{
    let grown = tree.with_popup(surfaces, popup).nodes;
    match surfaces.parent_of(popup.id()) {
        Some(parent) if forest_hosts(tree.nodes, parent) => {
            let first = forest_first_host(tree.nodes, parent);
            first_host_is_first(tree.nodes, parent);
            insertion_keeps_parents(tree.nodes[first], surfaces, parent, popup);
            assert forall|i: int| 0 <= i < grown.len() implies (#[trigger] grown[i]).keeps_parents(
                surfaces,
            ) by {
                assert(tree.nodes[i].keeps_parents(surfaces));
            }
        },
        _ => {
            assert forall|i: int| 0 <= i < grown.len() implies (#[trigger] grown[i]).keeps_parents(
                surfaces,
            ) by {
                if i < tree.nodes.len() {
                    assert(grown[i] == tree.nodes[i]);
                }
            }
        },
    }
}

/// Dismissing a popup and cleaning keep every popup below its declared
/// parent.
pub proof fn removal_keeps_parents(nodes: Seq<NodeModel>, surfaces: &Surfaces, target: SurfaceId)
    requires
        forest_keeps_parents(nodes, surfaces),
    ensures
        forest_keeps_parents(forest_without(nodes, target), surfaces),
        forest_keeps_parents(forest_cleaned(nodes, surfaces), surfaces),
    decreases nodes,
{
    if nodes.len() > 0 {
        let rest = nodes.skip(1);
        let below = nodes[0].children;
        assert(nodes[0].keeps_parents(surfaces));
        assert forall|i: int| 0 <= i < rest.len() implies (#[trigger] rest[i]).keeps_parents(
            surfaces,
        ) by {
            assert(rest[i] == nodes[i + 1]);
        }
        assert forall|i: int| 0 <= i < below.len() implies (#[trigger] below[i]).keeps_parents(
            surfaces,
        ) by {}
        removal_keeps_parents(rest, surfaces, target);
        removal_keeps_parents(below, surfaces, target);
        roots_of_what_is_left(below, surfaces, target);
        parents_stay_where_roots_stay(nodes[0], forest_without(below, target), surfaces);
        parents_stay_where_roots_stay(nodes[0], forest_cleaned(below, surfaces), surfaces);
        let left = forest_without(nodes, target);
        assert forall|i: int| 0 <= i < left.len() implies (#[trigger] left[i]).keeps_parents(
            surfaces,
        ) by {
            if nodes[0].popup.id() == target {
                assert(left[i] == rest[i]);
            } else if i > 0 {
                assert(left[i] == forest_without(rest, target)[i - 1]);
            } else {
                assert(left[0] == nodes[0].without(target));
            }
        }
        let clean = forest_cleaned(nodes, surfaces);
        assert forall|i: int| 0 <= i < clean.len() implies (#[trigger] clean[i]).keeps_parents(
            surfaces,
        ) by {
            if !surfaces.is_alive(nodes[0].popup.id()) {
            } else if i > 0 {
                assert(clean[i] == forest_cleaned(rest, surfaces)[i - 1]);
            } else {
                assert(clean[0] == nodes[0].cleaned(surfaces));
            }
        }
    }
}

/// The popups that stand at the top of what is left of some trees stood at
/// the top of the trees.
pub proof fn roots_of_what_is_left(nodes: Seq<NodeModel>, surfaces: &Surfaces, target: SurfaceId)
    ensures
        forall|i: int|
            0 <= i < forest_without(nodes, target).len() ==> exists|j: int|
                0 <= j < nodes.len() && (#[trigger] nodes[j]).popup == (#[trigger] forest_without(
                    nodes,
                    target,
                )[i]).popup,
        forall|i: int|
            0 <= i < forest_cleaned(nodes, surfaces).len() ==> exists|j: int|
                0 <= j < nodes.len() && (#[trigger] nodes[j]).popup == (#[trigger] forest_cleaned(
                    nodes,
                    surfaces,
                )[i]).popup,
    decreases nodes.len(),
{
    if nodes.len() > 0 {
        let rest = nodes.skip(1);
        roots_of_what_is_left(rest, surfaces, target);
        let left = forest_without(nodes, target);
        assert forall|i: int| 0 <= i < left.len() implies exists|j: int|
            0 <= j < nodes.len() && (#[trigger] nodes[j]).popup == (#[trigger] left[i]).popup by {
            if nodes[0].popup.id() == target {
                assert(nodes[i + 1].popup == left[i].popup);
            } else if i == 0 {
                assert(left[0] == nodes[0].without(target));
                assert(nodes[0].popup == left[0].popup);
            } else {
                let inner = forest_without(rest, target);
                assert(left[i] == inner[i - 1]);
                let j = choose|j: int|
                    0 <= j < rest.len() && (#[trigger] rest[j]).popup == inner[i - 1].popup;
                assert(nodes[j + 1].popup == left[i].popup);
            }
        }
        let clean = forest_cleaned(nodes, surfaces);
        assert forall|i: int| 0 <= i < clean.len() implies exists|j: int|
            0 <= j < nodes.len() && (#[trigger] nodes[j]).popup == (#[trigger] clean[i]).popup by {
            let inner = forest_cleaned(rest, surfaces);
            if surfaces.is_alive(nodes[0].popup.id()) && i == 0 {
                assert(clean[0] == nodes[0].cleaned(surfaces));
                assert(nodes[0].popup == clean[0].popup);
            } else {
                let at = if surfaces.is_alive(nodes[0].popup.id()) {
                    i - 1
                } else {
                    i
                };
                assert(clean[i] == inner[at]);
                let j = choose|j: int|
                    0 <= j < rest.len() && (#[trigger] rest[j]).popup == inner[at].popup;
                assert(nodes[j + 1].popup == clean[i].popup);
            }
        }
    }
}

/// A popup keeps what is below it below its declared parent where the
/// popups that are left directly below it stood there before.
proof fn parents_stay_where_roots_stay(node: NodeModel, left: Seq<NodeModel>, surfaces: &Surfaces)
    requires
        node.keeps_parents(surfaces),
        forest_keeps_parents(left, surfaces),
        forall|i: int|
            0 <= i < left.len() ==> exists|j: int|
                0 <= j < node.children.len() && (#[trigger] node.children[j]).popup
                    == (#[trigger] left[i]).popup,
    ensures
        (NodeModel { popup: node.popup, children: left }).keeps_parents(surfaces),
{
    let kept = NodeModel { popup: node.popup, children: left };
    assert forall|i: int| 0 <= i < kept.children.len() implies surfaces.parent_of(
        (#[trigger] kept.children[i]).popup.id(),
    ) == Some(kept.popup.id()) && kept.children[i].keeps_parents(surfaces) by {
        let j = choose|j: int|
            0 <= j < node.children.len() && (#[trigger] node.children[j]).popup == left[i].popup;
        assert(left[i].keeps_parents(surfaces));
    }
}

} // verus!
