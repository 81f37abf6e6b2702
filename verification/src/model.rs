//! The mathematical model of the popup hierarchy: what a tree of popups is,
//! and what inserting, dismissing, cleaning and listing do to it.

use vstd::prelude::*;
use crate::popup::PopupKind;
use crate::surfaces::{SurfaceId, Surfaces};
use crate::utils::Point;

verus! {

/// The model of a node: a popup and, in the order in which they were
/// opened, the popups that were opened on it.
pub struct NodeModel {
    pub popup: PopupKind,
    pub children: Seq<NodeModel>,
}

/// The model of the hierarchy below one toplevel surface: the popups that
/// were opened on the toplevel surface itself, each with what is below it.
pub struct TreeModel {
    pub root: SurfaceId,
    pub nodes: Seq<NodeModel>,
}

/// A popup with its position relative to the toplevel surface: the sum of
/// the placements of the popup and of everything it was opened on.
pub struct Placement {
    pub popup: PopupKind,
    pub x: int,
    pub y: int,
}

impl NodeModel {
    /// A node without children.
    pub open spec fn leaf(popup: PopupKind) -> NodeModel {
        NodeModel { popup, children: Seq::empty() }
    }

    /// The popups of this node and below, each before what was opened on
    /// it, siblings in the order in which they were opened.
    pub open spec fn popups(self) -> Seq<PopupKind>
        decreases self,
    {
        seq![self.popup] + forest_popups(self.children)
    }

    /// Whether a popup on `surface` is at this node or below.
    pub open spec fn hosts(self, surface: SurfaceId) -> bool
        decreases self, 0int,
    {
        self.popup.id() == surface || forest_hosts(self.children, surface)
    }

    /// This node after `popup`, whose parent is `parent`, became a new last
    /// child of the first node at or below this one that is on `parent`.
    /// Without such a node nothing changes.
    pub open spec fn with_popup(self, parent: SurfaceId, popup: PopupKind) -> NodeModel
        decreases self,
    {
        if self.popup.id() == parent {
            NodeModel { popup: self.popup, children: self.children.push(NodeModel::leaf(popup)) }
        } else {
            NodeModel {
                popup: self.popup,
                children: forest_with_popup(self.children, parent, popup),
            }
        }
    }

    /// This node, which is itself not on `target`, after the search for a
    /// popup on `target` went through what is below it.
    pub open spec fn without(self, target: SurfaceId) -> NodeModel
        decreases self,
    {
        NodeModel { popup: self.popup, children: forest_without(self.children, target) }
    }

    /// This node after every popup below it whose surface is dead was
    /// dropped, with all that was below such a popup.
    pub open spec fn cleaned(self, surfaces: &Surfaces) -> NodeModel
        decreases self,
    {
        NodeModel { popup: self.popup, children: forest_cleaned(self.children, surfaces) }
    }

    /// The popups at this node and below that were destroyed before a popup
    /// that was opened on them: those with a dead surface that have a popup
    /// with a live surface directly below them. They are listed in the order
    /// in which the cleaning meets them: siblings in the order in which they
    /// were opened, each popup after what is below it.
    pub open spec fn destroyed_early(self, surfaces: &Surfaces) -> Seq<PopupKind>
        decreases self,
    {
        let below = forest_destroyed_early(self.children, surfaces);
        if !surfaces.is_alive(self.popup.id()) && forest_has_living_root(
            self.children,
            surfaces,
        ) {
            below.push(self.popup)
        } else {
            below
        }
    }

    /// Whether, at this node and below, every popup that stands below
    /// another one declares that one as its parent.
    pub open spec fn keeps_parents(self, surfaces: &Surfaces) -> bool
        decreases self,
    {
        forall|i: int|
            0 <= i < self.children.len() ==> surfaces.parent_of(
                (#[trigger] self.children[i]).popup.id(),
            ) == Some(self.popup.id()) && self.children[i].keeps_parents(surfaces)
    }

    /// The popups at and below this node in the order of `popups`, each
    /// with its position, where this node's parent is at `(x, y)`.
    pub open spec fn located(self, surfaces: &Surfaces, x: int, y: int) -> Seq<Placement>
        decreases self,
    {
        let own = surfaces.location_of(self.popup.id());
        seq![Placement { popup: self.popup, x: x + own.x, y: y + own.y }] + forest_located(
            self.children,
            surfaces,
            x + own.x,
            y + own.y,
        )
    }
}

/// The popups of some trees, tree after tree.
pub open spec fn forest_popups(nodes: Seq<NodeModel>) -> Seq<PopupKind>
    decreases nodes,
{
    if nodes.len() == 0 {
        Seq::empty()
    } else {
        nodes[0].popups() + forest_popups(nodes.skip(1))
    }
}

/// The position of the first tree that holds a popup on `surface`; the
/// number of trees if none does.
pub open spec fn forest_first_host(nodes: Seq<NodeModel>, surface: SurfaceId) -> int
    decreases nodes, 0int,
{
    if nodes.len() == 0 {
        0
    } else if nodes[0].hosts(surface) {
        0
    } else {
        1 + forest_first_host(nodes.skip(1), surface)
    }
}

/// Whether one of the trees holds a popup on `surface`.
pub open spec fn forest_hosts(nodes: Seq<NodeModel>, surface: SurfaceId) -> bool
    decreases nodes, 1int,
{
    forest_first_host(nodes, surface) < nodes.len()
}

/// Some trees after `popup`, whose parent is `parent`, became a new last
/// child of a node on `parent`: the first such node of the first tree
/// that has one. Without such a node nothing changes.
pub open spec fn forest_with_popup(
    nodes: Seq<NodeModel>,
    parent: SurfaceId,
    popup: PopupKind,
) -> Seq<
    NodeModel,
>
    decreases nodes,
{
    let first = forest_first_host(nodes, parent);
    if 0 <= first < nodes.len() {
        nodes.update(first, nodes[first].with_popup(parent, popup))
    } else {
        nodes
    }
}

/// What is left of some trees after a popup on `target` was dismissed. The
/// trees are searched in order. A tree whose root is on `target` leaves as
/// a whole and ends the search among its siblings; any other tree is
/// searched below its root.
pub open spec fn forest_without(nodes: Seq<NodeModel>, target: SurfaceId) -> Seq<NodeModel>
    decreases nodes,
{
    if nodes.len() == 0 {
        nodes
    } else if nodes[0].popup.id() == target {
        nodes.skip(1)
    } else {
        seq![nodes[0].without(target)] + forest_without(nodes.skip(1), target)
    }
}

/// The popups that leave when a popup on `target` is dismissed from some
/// trees, in the order in which they are told so: of each tree that
/// leaves, what was opened last first, and every popup after all that was
/// opened on it.
pub open spec fn forest_dismissed(nodes: Seq<NodeModel>, target: SurfaceId) -> Seq<PopupKind>
    decreases nodes,
{
    if nodes.len() == 0 {
        Seq::empty()
    } else if nodes[0].popup.id() == target {
        nodes[0].popups().reverse()
    } else {
        forest_dismissed(nodes[0].children, target) + forest_dismissed(nodes.skip(1), target)
    }
}

/// Some trees after every popup whose surface is dead was dropped, with all
/// that was below it.
pub open spec fn forest_cleaned(nodes: Seq<NodeModel>, surfaces: &Surfaces) -> Seq<NodeModel>
    decreases nodes,
{
    if nodes.len() == 0 {
        nodes
    } else if surfaces.is_alive(nodes[0].popup.id()) {
        seq![nodes[0].cleaned(surfaces)] + forest_cleaned(nodes.skip(1), surfaces)
    } else {
        forest_cleaned(nodes.skip(1), surfaces)
    }
}

/// Whether the popup at the top of one of the trees has a live surface.
pub open spec fn forest_has_living_root(nodes: Seq<NodeModel>, surfaces: &Surfaces) -> bool {
    exists|i: int| 0 <= i < nodes.len() && surfaces.is_alive((#[trigger] nodes[i]).popup.id())
}

/// The popups of some trees that were destroyed before a popup that was
/// opened on them, tree after tree.
pub open spec fn forest_destroyed_early(nodes: Seq<NodeModel>, surfaces: &Surfaces) -> Seq<
    PopupKind,
>
    decreases nodes,
{
    if nodes.len() == 0 {
        Seq::empty()
    } else {
        nodes[0].destroyed_early(surfaces) + forest_destroyed_early(nodes.skip(1), surfaces)
    }
}

/// Whether in each of the trees every popup that stands below another one
/// declares that one as its parent.
pub open spec fn forest_keeps_parents(nodes: Seq<NodeModel>, surfaces: &Surfaces) -> bool {
    forall|i: int| 0 <= i < nodes.len() ==> (#[trigger] nodes[i]).keeps_parents(surfaces)
}

/// The popups of some trees with their positions, where the parent of the
/// trees' roots is at `(x, y)`.
pub open spec fn forest_located(nodes: Seq<NodeModel>, surfaces: &Surfaces, x: int, y: int) -> Seq<
    Placement,
>
    decreases nodes,
{
    if nodes.len() == 0 {
        Seq::empty()
    } else {
        nodes[0].located(surfaces, x, y) + forest_located(nodes.skip(1), surfaces, x, y)
    }
}

/// Whether both coordinates of every position are numbers that an `i32`
/// holds.
pub open spec fn within_i32(placements: Seq<Placement>) -> bool {
    forall|i: int|
        0 <= i < placements.len() ==> i32::MIN <= (#[trigger] placements[i]).x <= i32::MAX
            && i32::MIN <= placements[i].y <= i32::MAX
}

/// The positions that a list of popups and points stands for.
pub open spec fn placements(placed: Seq<(PopupKind, Point)>) -> Seq<Placement> {
    placed.map_values(
        |entry: (PopupKind, Point)|
            Placement { popup: entry.0, x: entry.1.x as int, y: entry.1.y as int },
    )
}

impl TreeModel {
    /// The popups of the tree, each before what was opened on it.
    pub open spec fn popups(self) -> Seq<PopupKind> {
        forest_popups(self.nodes)
    }

    /// The popups of the tree with their positions relative to the
    /// toplevel surface.
    pub open spec fn located(self, surfaces: &Surfaces) -> Seq<Placement> {
        forest_located(self.nodes, surfaces, 0, 0)
    }

    /// The tree after `popup` was inserted: below the first node that is on
    /// the popup's declared parent, or, where the popup has no parent or no
    /// node is on it, directly below the toplevel surface.
    pub open spec fn with_popup(self, surfaces: &Surfaces, popup: PopupKind) -> TreeModel {
        match surfaces.parent_of(popup.id()) {
            Some(parent) if forest_hosts(self.nodes, parent) => TreeModel {
                root: self.root,
                nodes: forest_with_popup(self.nodes, parent, popup),
            },
            _ => TreeModel { root: self.root, nodes: self.nodes.push(NodeModel::leaf(popup)) },
        }
    }

    /// The tree after a popup on `target` was dismissed.
    pub open spec fn without(self, target: SurfaceId) -> TreeModel {
        TreeModel { root: self.root, nodes: forest_without(self.nodes, target) }
    }

    /// The tree after every popup whose surface is dead was dropped, with
    /// all that was below it.
    pub open spec fn cleaned(self, surfaces: &Surfaces) -> TreeModel {
        TreeModel { root: self.root, nodes: forest_cleaned(self.nodes, surfaces) }
    }

    /// The popups of the tree that were destroyed before a popup that was
    /// opened on them.
    pub open spec fn destroyed_early(self, surfaces: &Surfaces) -> Seq<PopupKind> {
        forest_destroyed_early(self.nodes, surfaces)
    }
}

/// The position of the first of `items` that is `wanted`; the number of
/// items if none is.
pub open spec fn first_index<T>(items: Seq<T>, wanted: spec_fn(T) -> bool) -> int
    decreases items.len(),
{
    if items.len() == 0 {
        0
    } else if wanted(items[0]) {
        0
    } else {
        1 + first_index(items.skip(1), wanted)
    }
}

/// `first_index` is a position or the length; nothing before it is wanted,
/// and the item at it is.
pub proof fn first_index_is_first<T>(items: Seq<T>, wanted: spec_fn(T) -> bool)
    ensures
        0 <= first_index(items, wanted) <= items.len(),
        forall|j: int| 0 <= j < first_index(items, wanted) ==> !wanted(#[trigger] items[j]),
        first_index(items, wanted) < items.len() ==> wanted(items[first_index(items, wanted)]),
    decreases items.len(),
{
    if items.len() > 0 && !wanted(items[0]) {
        let rest = items.skip(1);
        first_index_is_first(rest, wanted);
        assert forall|j: int| 0 <= j < first_index(items, wanted) implies !wanted(
            #[trigger] items[j],
        ) by {
            if j > 0 {
                assert(items[j] == rest[j - 1]);
            }
        }
    }
}

/// A position before which nothing is wanted, and which is the length or
/// holds a wanted item, is `first_index`.
pub proof fn first_index_is_only<T>(items: Seq<T>, wanted: spec_fn(T) -> bool, at: int)
    requires
        0 <= at <= items.len(),
        forall|j: int| 0 <= j < at ==> !wanted(#[trigger] items[j]),
        at < items.len() ==> wanted(items[at]),
    ensures
        first_index(items, wanted) == at,
{
    first_index_is_first(items, wanted);
}

/// The cleaning leaves some of the trees exactly if the popup at the top
/// of one of them has a live surface.
pub proof fn cleaning_leaves_the_living_roots(nodes: Seq<NodeModel>, surfaces: &Surfaces)
    ensures
        forest_cleaned(nodes, surfaces).len() > 0 <==> forest_has_living_root(nodes, surfaces),
    decreases nodes.len(),
{
    if nodes.len() > 0 {
        let rest = nodes.skip(1);
        cleaning_leaves_the_living_roots(rest, surfaces);
        if forest_has_living_root(rest, surfaces) {
            let i = choose|i: int|
                0 <= i < rest.len() && surfaces.is_alive((#[trigger] rest[i]).popup.id());
            assert(nodes[i + 1] == rest[i]);
        }
        if forest_has_living_root(nodes, surfaces) && !surfaces.is_alive(nodes[0].popup.id()) {
            let i = choose|i: int|
                0 <= i < nodes.len() && surfaces.is_alive((#[trigger] nodes[i]).popup.id());
            assert(rest[i - 1] == nodes[i]);
        }
    }
}

/// All positions of a concatenation fit exactly if those of both parts do.
pub proof fn within_i32_of_concat(a: Seq<Placement>, b: Seq<Placement>)
    ensures
        within_i32(a + b) <==> within_i32(a) && within_i32(b),
{
    if within_i32(a + b) {
        assert forall|i: int| 0 <= i < a.len() implies i32::MIN <= (#[trigger] a[i]).x <= i32::MAX
            && i32::MIN <= a[i].y <= i32::MAX by {
            assert((a + b)[i] == a[i]);
        }
        assert forall|i: int| 0 <= i < b.len() implies i32::MIN <= (#[trigger] b[i]).x <= i32::MAX
            && i32::MIN <= b[i].y <= i32::MAX by {
            assert((a + b)[a.len() + i] == b[i]);
        }
    }
}

} // verus!
