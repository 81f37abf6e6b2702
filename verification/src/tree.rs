//! The hierarchy of popups below one toplevel surface.

use vstd::prelude::*;
use crate::model::{
    cleaning_leaves_the_living_roots, forest_cleaned, forest_destroyed_early, forest_dismissed,
    forest_first_host, forest_hosts, forest_located, forest_popups, forest_with_popup,
    forest_without, placements, within_i32, within_i32_of_concat, NodeModel, Placement,
    TreeModel,
};
use crate::popup::PopupKind;
use crate::surfaces::{SurfaceId, Surfaces};
use crate::utils::Point;

verus! {

/// One popup with the popups that were opened on it.
#[derive(Debug)]
pub struct PopupNode {
    surface: PopupKind,
    children: Vec<PopupNode>,
}

/// The popups below one toplevel surface.
#[derive(Debug)]
pub struct PopupTree {
    root: SurfaceId,
    nodes: Vec<PopupNode>,
}

impl View for PopupNode {
    type V = NodeModel;

    closed spec fn view(&self) -> NodeModel {
        node_model(*self)
    }
}

impl View for PopupTree {
    type V = TreeModel;

    closed spec fn view(&self) -> TreeModel {
        TreeModel { root: self.root, nodes: forest_view(self.nodes@) }
    }
}

/// The model of a node: its popup and the models of its children.
spec fn node_model(node: PopupNode) -> NodeModel
    decreases node,
{
    NodeModel { popup: node.surface, children: forest_view(node.children@) }
}

/// The models of some nodes, in their order.
pub closed spec fn forest_view(nodes: Seq<PopupNode>) -> Seq<NodeModel>
    decreases nodes,
{
    if nodes.len() == 0 {
        Seq::empty()
    } else {
        forest_view(nodes.drop_last()).push(node_model(nodes.last()))
    }
}

/// The model of a sequence of nodes holds the model of each node at the
/// node's own position.
pub proof fn forest_view_is_pointwise(nodes: Seq<PopupNode>)
    ensures
        forest_view(nodes).len() == nodes.len(),
        forall|i: int| 0 <= i < nodes.len() ==> #[trigger] forest_view(nodes)[i] == nodes[i]@,
    decreases nodes.len(),
{
    if nodes.len() > 0 {
        forest_view_is_pointwise(nodes.drop_last());
    }
}

/// The order in which the popups at and below a node are told that they
/// were dismissed, written down as the traversal that tells them.
spec fn notified(node: NodeModel) -> Seq<PopupKind>
    decreases node,
{
    forest_notified(node.children).push(node.popup)
}

/// The same for some trees: the last tree is told first.
spec fn forest_notified(nodes: Seq<NodeModel>) -> Seq<PopupKind>
    decreases nodes,
{
    if nodes.len() == 0 {
        Seq::empty()
    } else {
        forest_notified(nodes.skip(1)) + notified(nodes[0])
    }
}

/// Turning a concatenation round turns both parts round and swaps them.
proof fn reverse_of_concat(a: Seq<PopupKind>, b: Seq<PopupKind>)
    ensures
        (a + b).reverse() =~= b.reverse() + a.reverse(),
{
}

/// The traversal that tells the popups of their dismissal meets them in
/// the reverse of the order in which they are listed.
proof fn notified_is_reverse_of_popups(node: NodeModel)
    ensures
        notified(node) == node.popups().reverse(),
    decreases node,
{
    forest_notified_is_reverse_of_popups(node.children);
    reverse_of_concat(seq![node.popup], forest_popups(node.children));
    assert(seq![node.popup].reverse() =~= seq![node.popup]);
    assert(notified(node) =~= node.popups().reverse());
}

/// The same for some trees.
proof fn forest_notified_is_reverse_of_popups(nodes: Seq<NodeModel>)
    ensures
        forest_notified(nodes) == forest_popups(nodes).reverse(),
    decreases nodes,
{
    if nodes.len() == 0 {
        assert(forest_popups(nodes).reverse() =~= Seq::<PopupKind>::empty());
    } else {
        notified_is_reverse_of_popups(nodes[0]);
        forest_notified_is_reverse_of_popups(nodes.skip(1));
        reverse_of_concat(nodes[0].popups(), forest_popups(nodes.skip(1)));
    }
}

/// Makes `popup` a new last child of a node on `parent`: of the first such
/// node in the first of `nodes` that has one at or below it. Says whether
/// there was such a node.
fn insert_among(nodes: &mut Vec<PopupNode>, parent: SurfaceId, popup: PopupKind) -> (inserted: bool)
    ensures
        inserted == forest_hosts(forest_view(old(nodes)@), parent),
        forest_view(final(nodes)@) == forest_with_popup(forest_view(old(nodes)@), parent, popup),
    decreases forest_view(old(nodes)@),
{
    let ghost origin = forest_view(nodes@);
    let mut i: usize = 0;
    proof {
        forest_view_is_pointwise(nodes@);
        assert(origin.skip(0) =~= origin);
    }
    while i < nodes.len()
        invariant
            i <= nodes.len(),
            origin == forest_view(old(nodes)@),
            forest_view(nodes@) == origin,
            origin.len() == nodes.len(),
            forest_first_host(origin, parent) == i + forest_first_host(
                origin.skip(i as int),
                parent,
            ),
        decreases nodes.len() - i,
    {
        proof {
            forest_view_is_pointwise(nodes@);
            assert(origin.skip(i as int)[0] == origin[i as int]);
            assert(origin.skip(i as int).skip(1) =~= origin.skip(i as int + 1));
        }
        let child = &mut nodes[i];
        if child.insert_under(parent, popup) {
            proof {
                forest_view_is_pointwise(nodes@);
                assert(forest_view(nodes@) =~= origin.update(
                    i as int,
                    origin[i as int].with_popup(parent, popup),
                ));
            }
            return true;
        }
        proof {
            forest_view_is_pointwise(nodes@);
            assert(forest_view(nodes@) =~= origin);
        }
        i += 1;
    }
    false
}

/// Dismisses a popup on the surface of `popup` from `nodes` and from below
/// them, and appends to `notified` the popups that left.
fn dismiss_among(nodes: &mut Vec<PopupNode>, popup: &PopupKind, notified: &mut Vec<PopupKind>)
    ensures
        forest_view(final(nodes)@) == forest_without(forest_view(old(nodes)@), popup.id()),
        final(notified)@ == old(notified)@ + forest_dismissed(
            forest_view(old(nodes)@),
            popup.id(),
        ),
    decreases forest_view(old(nodes)@),
{
    let ghost target = popup.id();
    let ghost origin = forest_view(nodes@);
    let ghost mut k: int = 0;
    let mut i: usize = 0;
    proof {
        forest_view_is_pointwise(nodes@);
        assert(origin.skip(0) =~= origin);
        assert(origin.take(0) + forest_without(origin, target) =~= forest_without(origin, target));
    }
    while i < nodes.len()
        invariant
            i <= nodes.len(),
            origin == forest_view(old(nodes)@),
            target == popup.id(),
            forest_view(nodes@).len() == nodes.len(),
            0 <= k <= origin.len(),
            forest_view(nodes@).skip(i as int) == origin.skip(k),
            forest_without(origin, target) == forest_view(nodes@).take(i as int) + forest_without(
                origin.skip(k),
                target,
            ),
            old(notified)@ + forest_dismissed(origin, target) == notified@ + forest_dismissed(
                origin.skip(k),
                target,
            ),
        decreases nodes.len() - i,
    {
        let ghost before = forest_view(nodes@);
        let ghost told = notified@;
        proof {
            forest_view_is_pointwise(nodes@);
            assert(before.skip(i as int)[0] == before[i as int]);
            assert(origin.skip(k)[0] == origin[k]);
            assert(origin.skip(k).skip(1) =~= origin.skip(k + 1));
            assert(before.skip(i as int).skip(1) =~= before.skip(i as int + 1));
        }
        let child = &mut nodes[i];
        let matched = child.dismiss_popup(popup, notified);
        if matched {
            nodes.remove(i);
            proof {
                forest_view_is_pointwise(nodes@);
                assert(forest_view(nodes@) =~= before.take(i as int) + before.skip(i as int + 1));
            }
            return ;
        }
        proof {
            forest_view_is_pointwise(nodes@);
            let middle = origin[k].without(target);
            let after = forest_view(nodes@);
            assert(after =~= before.update(i as int, middle));
            assert(after.take(i as int + 1) =~= before.take(i as int).push(middle));
            assert(after.skip(i as int + 1) =~= before.skip(i as int + 1));
            assert(before.take(i as int) + (seq![middle] + forest_without(
                origin.skip(k + 1),
                target,
            )) =~= before.take(i as int).push(middle) + forest_without(
                origin.skip(k + 1),
                target,
            ));
            assert(told + (forest_dismissed(origin[k].children, target) + forest_dismissed(
                origin.skip(k + 1),
                target,
            )) =~= (told + forest_dismissed(origin[k].children, target)) + forest_dismissed(
                origin.skip(k + 1),
                target,
            ));
            k = k + 1;
        }
        i += 1;
    }
    proof {
        let after = forest_view(nodes@);
        assert(origin.skip(k).len() == 0);
        assert(after.take(i as int) =~= after);
        assert(after + Seq::<NodeModel>::empty() =~= after);
        assert(notified@ + Seq::<PopupKind>::empty() =~= notified@);
    }
}

/// Drops from `nodes` and from below them every popup whose surface is
/// dead, with all that was opened on it, and appends to `reported` the
/// popups that were destroyed before a popup that was opened on them.
fn cleanup_among(nodes: &mut Vec<PopupNode>, surfaces: &Surfaces, reported: &mut Vec<PopupKind>)
    ensures
        forest_view(final(nodes)@) == forest_cleaned(forest_view(old(nodes)@), surfaces),
        final(reported)@ == old(reported)@ + forest_destroyed_early(
            forest_view(old(nodes)@),
            surfaces,
        ),
    decreases forest_view(old(nodes)@),
{
    let ghost origin = forest_view(nodes@);
    let ghost mut k: int = 0;
    let mut i: usize = 0;
    proof {
        forest_view_is_pointwise(nodes@);
        assert(origin.skip(0) =~= origin);
        assert(origin.take(0) + forest_cleaned(origin, surfaces) =~= forest_cleaned(
            origin,
            surfaces,
        ));
    }
    while i < nodes.len()
        invariant
            i <= nodes.len(),
            origin == forest_view(old(nodes)@),
            forest_view(nodes@).len() == nodes.len(),
            0 <= k <= origin.len(),
            forest_view(nodes@).skip(i as int) == origin.skip(k),
            forest_cleaned(origin, surfaces) == forest_view(nodes@).take(i as int) + forest_cleaned(
                origin.skip(k),
                surfaces,
            ),
            old(reported)@ + forest_destroyed_early(origin, surfaces) == reported@
                + forest_destroyed_early(origin.skip(k), surfaces),
        decreases nodes.len() - i,
    {
        let ghost before = forest_view(nodes@);
        let ghost told = reported@;
        proof {
            forest_view_is_pointwise(nodes@);
            assert(before.skip(i as int)[0] == before[i as int]);
            assert(origin.skip(k)[0] == origin[k]);
            assert(origin.skip(k).skip(1) =~= origin.skip(k + 1));
            assert(before.skip(i as int).skip(1) =~= before.skip(i as int + 1));
        }
        let child = &mut nodes[i];
        child.cleanup(surfaces, reported);
        proof {
            assert(told + (origin[k].destroyed_early(surfaces) + forest_destroyed_early(
                origin.skip(k + 1),
                surfaces,
            )) =~= (told + origin[k].destroyed_early(surfaces)) + forest_destroyed_early(
                origin.skip(k + 1),
                surfaces,
            ));
        }
        if nodes[i].popup().alive(surfaces) {
            proof {
                forest_view_is_pointwise(nodes@);
                let middle = origin[k].cleaned(surfaces);
                let after = forest_view(nodes@);
                assert(after =~= before.update(i as int, middle));
                assert(after.take(i as int + 1) =~= before.take(i as int).push(middle));
                assert(after.skip(i as int + 1) =~= before.skip(i as int + 1));
                assert(before.take(i as int) + (seq![middle] + forest_cleaned(
                    origin.skip(k + 1),
                    surfaces,
                )) =~= before.take(i as int).push(middle) + forest_cleaned(
                    origin.skip(k + 1),
                    surfaces,
                ));
            }
            i += 1;
        } else {
            nodes.remove(i);
            proof {
                forest_view_is_pointwise(nodes@);
                let after = forest_view(nodes@);
                assert(after.take(i as int) =~= before.take(i as int));
                assert(after.skip(i as int) =~= before.skip(i as int + 1));
            }
        }
        proof {
            k = k + 1;
        }
    }
    proof {
        let after = forest_view(nodes@);
        assert(origin.skip(k).len() == 0);
        assert(after.take(i as int) =~= after);
        assert(after + Seq::<NodeModel>::empty() =~= after);
        assert(reported@ + Seq::<PopupKind>::empty() =~= reported@);
    }
}

/// Appends to `placed` the popups of `nodes` and below with their
/// positions, where the parent of `nodes` is at `loc`.
fn locate_among(
    nodes: &Vec<PopupNode>,
    surfaces: &Surfaces,
    loc: Point,
    placed: &mut Vec<(PopupKind, Point)>,
)
    requires
        within_i32(forest_located(forest_view(nodes@), surfaces, loc.x as int, loc.y as int)),
    ensures
        placements(final(placed)@) == placements(old(placed)@) + forest_located(
            forest_view(nodes@),
            surfaces,
            loc.x as int,
            loc.y as int,
        ),
    decreases forest_view(nodes@),
{
    let ghost origin = forest_view(nodes@);
    let ghost all = forest_located(origin, surfaces, loc.x as int, loc.y as int);
    let mut i: usize = 0;
    proof {
        forest_view_is_pointwise(nodes@);
        assert(origin.skip(0) =~= origin);
    }
    while i < nodes.len()
        invariant
            i <= nodes.len(),
            origin == forest_view(nodes@),
            origin.len() == nodes.len(),
            forall|j: int| 0 <= j < nodes.len() ==> #[trigger] origin[j] == nodes[j]@,
            all == forest_located(origin, surfaces, loc.x as int, loc.y as int),
            within_i32(forest_located(origin.skip(i as int), surfaces, loc.x as int, loc.y as int)),
            placements(old(placed)@) + all == placements(placed@) + forest_located(
                origin.skip(i as int),
                surfaces,
                loc.x as int,
                loc.y as int,
            ),
        decreases nodes.len() - i,
    {
        let child = &nodes[i];
        let ghost rest = forest_located(
            origin.skip(i as int + 1),
            surfaces,
            loc.x as int,
            loc.y as int,
        );
        let ghost so_far = placements(placed@);
        proof {
            assert(origin.skip(i as int)[0] == child@);
            assert(origin.skip(i as int).skip(1) =~= origin.skip(i as int + 1));
            within_i32_of_concat(child@.located(surfaces, loc.x as int, loc.y as int), rest);
        }
        let mut below = child.iter_popups_relative_to(surfaces, loc);
        let ghost added = placements(below@);
        placed.append(&mut below);
        proof {
            assert(placements(placed@) =~= so_far + added);
            assert(so_far + (added + rest) =~= (so_far + added) + rest);
        }
        i += 1;
    }
    proof {
        assert(placements(placed@) + Seq::<Placement>::empty() =~= placements(placed@));
    }
}

/// Whether the positions of the popups of `nodes` and below can be held in
/// an `i32`, where the parent of `nodes` is at `loc`.
fn fit_among(nodes: &Vec<PopupNode>, surfaces: &Surfaces, loc: Point) -> (fit: bool)
    ensures
        fit == within_i32(
            forest_located(forest_view(nodes@), surfaces, loc.x as int, loc.y as int),
        ),
    decreases forest_view(nodes@),
{
    let ghost origin = forest_view(nodes@);
    let mut i: usize = 0;
    proof {
        forest_view_is_pointwise(nodes@);
        assert(origin.skip(0) =~= origin);
    }
    while i < nodes.len()
        invariant
            i <= nodes.len(),
            origin == forest_view(nodes@),
            origin.len() == nodes.len(),
            forall|j: int| 0 <= j < nodes.len() ==> #[trigger] origin[j] == nodes[j]@,
            within_i32(forest_located(origin, surfaces, loc.x as int, loc.y as int)) == within_i32(
                forest_located(origin.skip(i as int), surfaces, loc.x as int, loc.y as int),
            ),
        decreases nodes.len() - i,
    {
        let child = &nodes[i];
        proof {
            assert(origin.skip(i as int)[0] == child@);
            assert(origin.skip(i as int).skip(1) =~= origin.skip(i as int + 1));
            within_i32_of_concat(
                child@.located(surfaces, loc.x as int, loc.y as int),
                forest_located(origin.skip(i as int + 1), surfaces, loc.x as int, loc.y as int),
            );
        }
        if !child.offsets_fit(surfaces, loc) {
            return false;
        }
        i += 1;
    }
    true
}

/// Looks among `nodes` and below them for a popup on `surface`.
fn find_among(nodes: &Vec<PopupNode>, surface: SurfaceId) -> (found: Option<PopupKind>)
    ensures
        found == if forest_hosts(forest_view(nodes@), surface) {
            Some(PopupKind::on(surface))
        } else {
            None
        },
    decreases forest_view(nodes@),
{
    let ghost origin = forest_view(nodes@);
    let mut i: usize = 0;
    proof {
        forest_view_is_pointwise(nodes@);
        assert(origin.skip(0) =~= origin);
    }
    while i < nodes.len()
        invariant
            i <= nodes.len(),
            origin == forest_view(nodes@),
            origin.len() == nodes.len(),
            forall|j: int| 0 <= j < nodes.len() ==> #[trigger] origin[j] == nodes[j]@,
            forest_first_host(origin, surface) == i + forest_first_host(
                origin.skip(i as int),
                surface,
            ),
        decreases nodes.len() - i,
    {
        let child = &nodes[i];
        proof {
            assert(origin.skip(i as int)[0] == child@);
            assert(origin.skip(i as int).skip(1) =~= origin.skip(i as int + 1));
        }
        let found = child.find(surface);
        if found.is_some() {
            return found;
        }
        i += 1;
    }
    None
}

impl PopupNode {
    /// The model of a node is made of its popup and the models of its
    /// children.
    proof fn view_unfolds(&self)
        ensures
            self@.popup == self.surface,
            self@.children == forest_view(self.children@),
    {
    }

    /// A node for `surface` without children.
    pub fn new(surface: PopupKind) -> (node: PopupNode)
        ensures
            node@ == NodeModel::leaf(surface),
    {
        PopupNode { surface, children: Vec::new() }
    }

    /// The popup of this node.
    pub fn popup(&self) -> (popup: PopupKind)
        ensures
            popup == self@.popup,
    {
        self.surface
    }

    /// The popups that were opened on the popup of this node, in the order
    /// in which they were opened.
    pub fn children(&self) -> (children: &Vec<PopupNode>)
        ensures
            forest_view(children@) == self@.children,
    {
        &self.children
    }

    /// The popups at and below this node, each before what was opened on
    /// it, with their positions relative to the toplevel surface, where this
    /// node's parent is at `loc`.
    pub fn iter_popups_relative_to(&self, surfaces: &Surfaces, loc: Point) -> (placed: Vec<
        (PopupKind, Point),
    >)
        requires
            within_i32(self@.located(surfaces, loc.x as int, loc.y as int)),
        ensures
            placements(placed@) == self@.located(surfaces, loc.x as int, loc.y as int),
        decreases self@,
    {
        let own = self.surface.location(surfaces);
        let ghost all = self@.located(surfaces, loc.x as int, loc.y as int);
        let ghost below = forest_located(self@.children, surfaces, loc.x + own.x, loc.y + own.y);
        proof {
            self.view_unfolds();
            assert(all[0].x == loc.x + own.x && all[0].y == loc.y + own.y);
            within_i32_of_concat(all.take(1), below);
            assert(all =~= all.take(1) + below);
        }
        let relative_to = Point { x: loc.x + own.x, y: loc.y + own.y };
        let mut placed: Vec<(PopupKind, Point)> = Vec::new();
        placed.push((self.surface, relative_to));
        assert(placements(placed@) =~= all.take(1));
        locate_among(&self.children, surfaces, relative_to, &mut placed);
        placed
    }

    /// Whether every position that `iter_popups_relative_to` would report
    /// for `loc` can be held in an `i32`.
    pub fn offsets_fit(&self, surfaces: &Surfaces, loc: Point) -> (fit: bool)
        ensures
            fit == within_i32(self@.located(surfaces, loc.x as int, loc.y as int)),
        decreases self@,
    {
        let own = self.surface.location(surfaces);
        let ghost all = self@.located(surfaces, loc.x as int, loc.y as int);
        let ghost below = forest_located(self@.children, surfaces, loc.x + own.x, loc.y + own.y);
        proof {
            self.view_unfolds();
            assert(all[0].x == loc.x + own.x && all[0].y == loc.y + own.y);
            within_i32_of_concat(all.take(1), below);
            assert(all =~= all.take(1) + below);
        }
        match (loc.x.checked_add(own.x), loc.y.checked_add(own.y)) {
            (Some(x), Some(y)) => {
                assert(within_i32(all.take(1)));
                fit_among(&self.children, surfaces, Point { x, y })
            },
            _ => false,
        }
    }

    /// The popup on `surface` at this node or below, if there is one.
    pub fn find(&self, surface: SurfaceId) -> (found: Option<PopupKind>)
        ensures
            found == if self@.hosts(surface) {
                Some(PopupKind::on(surface))
            } else {
                None
            },
        decreases self@,
    {
        proof {
            self.view_unfolds();
        }
        if self.surface.wl_surface() == surface {
            Some(self.surface)
        } else {
            find_among(&self.children, surface)
        }
    }

    /// Makes `popup` a new last child of the first node at or below this one
    /// that is on `parent`, and says whether there was such a node.
    pub fn insert_under(&mut self, parent: SurfaceId, popup: PopupKind) -> (inserted: bool)
        ensures
            inserted == old(self)@.hosts(parent),
            final(self)@ == old(self)@.with_popup(parent, popup),
        decreases old(self)@,
    {
        proof {
            self.view_unfolds();
        }
        if self.surface.wl_surface() == parent {
            self.children.push(PopupNode::new(popup));
            proof {
                self.view_unfolds();
                forest_view_is_pointwise(self.children@);
                forest_view_is_pointwise(old(self).children@);
                assert(self@.children =~= old(self)@.children.push(NodeModel::leaf(popup)));
            }
            true
        } else {
            let inserted = insert_among(&mut self.children, parent, popup);
            proof {
                self.view_unfolds();
            }
            inserted
        }
    }

    /// Makes `popup` a child of the node at or below this one that is on the
    /// popup's declared parent, and says whether there was such a node. A
    /// popup without a parent is not inserted.
    pub fn insert(&mut self, surfaces: &Surfaces, popup: PopupKind) -> (inserted: bool)
        ensures
            inserted == match surfaces.parent_of(popup.id()) {
                Some(parent) => old(self)@.hosts(parent),
                None => false,
            },
            final(self)@ == match surfaces.parent_of(popup.id()) {
                Some(parent) => old(self)@.with_popup(parent, popup),
                None => old(self)@,
            },
    {
        match popup.parent(surfaces) {
            Some(parent) => self.insert_under(parent, popup),
            None => false,
        }
    }

    /// Tells every popup at and below this node that it was dismissed, by
    /// appending it to `notified`: what was opened last first, and each
    /// popup after everything that was opened on it.
    pub fn send_done(&self, notified: &mut Vec<PopupKind>)
        ensures
            final(notified)@ == old(notified)@ + self@.popups().reverse(),
        decreases self@,
    {
        let ghost below = self@.children;
        proof {
            self.view_unfolds();
            forest_view_is_pointwise(self.children@);
            notified_is_reverse_of_popups(self@);
            assert(old(notified)@ + Seq::<PopupKind>::empty() =~= old(notified)@);
        }
        let mut i: usize = self.children.len();
        while i > 0
            invariant
                i <= self.children.len(),
                below == self@.children,
                below.len() == self.children.len(),
                forall|j: int|
                    0 <= j < self.children@.len() ==> #[trigger] below[j] == self.children@[j]@,
                notified@ == old(notified)@ + forest_notified(below.skip(i as int)),
            decreases i,
        {
            i -= 1;
            let child = &self.children[i];
            proof {
                notified_is_reverse_of_popups(child@);
                assert(below.skip(i as int)[0] == child@);
                assert(below.skip(i as int).skip(1) =~= below.skip(i as int + 1));
            }
            child.send_done(notified);
        }
        assert(below.skip(0) =~= below);
        notified.push(self.surface);
    }

    /// Dismisses the popup on the surface of `popup`. Where this node is
    /// that popup, it tells itself and everything below it so, and returns
    /// `true`: the caller then drops the node. Otherwise it searches below
    /// itself, drops what it finds there, and returns `false`.
    pub fn dismiss_popup(&mut self, popup: &PopupKind, notified: &mut Vec<PopupKind>) -> (matched:
        bool)
        ensures
            matched == (old(self)@.popup.id() == popup.id()),
            matched ==> final(self)@ == old(self)@ && final(notified)@ == old(notified)@ + old(
                self,
            )@.popups().reverse(),
            !matched ==> final(self)@ == old(self)@.without(popup.id()) && final(notified)@ == old(
                notified,
            )@ + forest_dismissed(old(self)@.children, popup.id()),
        decreases old(self)@,
    {
        proof {
            self.view_unfolds();
        }
        if self.surface.wl_surface() == popup.wl_surface() {
            self.send_done(notified);
            true
        } else {
            dismiss_among(&mut self.children, popup, notified);
            proof {
                self.view_unfolds();
            }
            false
        }
    }

    /// Drops every popup below this node whose surface is dead, with all
    /// that was opened on it, whether or not that is still alive. A popup
    /// that was destroyed before a popup that was opened on it shows a
    /// client that broke the protocol: every such popup at this node and
    /// below is appended to `reported`.
    pub fn cleanup(&mut self, surfaces: &Surfaces, reported: &mut Vec<PopupKind>)
        ensures
            final(self)@ == old(self)@.cleaned(surfaces),
            final(reported)@ == old(reported)@ + old(self)@.destroyed_early(surfaces),
        decreases old(self)@,
    {
        proof {
            self.view_unfolds();
            cleaning_leaves_the_living_roots(self@.children, surfaces);
        }
        cleanup_among(&mut self.children, surfaces, reported);
        proof {
            self.view_unfolds();
            forest_view_is_pointwise(self.children@);
        }
        if !self.surface.alive(surfaces) && !self.children.is_empty() {
            // The client destroyed a popup before destroying all that was
            // opened on it. Its surface is gone, so the client cannot be
            // told: the popup is reported to the caller.
            reported.push(self.surface);
        }
    }
}

impl PopupTree {
    /// The empty hierarchy below the toplevel surface `root`.
    pub fn new(root: SurfaceId) -> (tree: PopupTree)
        ensures
            tree@ == (TreeModel { root, nodes: Seq::empty() }),
    {
        PopupTree { root, nodes: Vec::new() }
    }

    /// The toplevel surface that the popups of this tree were opened on.
    pub fn root(&self) -> (root: SurfaceId)
        ensures
            root == self@.root,
    {
        self.root
    }

    /// The popups that were opened on the toplevel surface itself, in the
    /// order in which they were opened.
    pub fn nodes(&self) -> (nodes: &Vec<PopupNode>)
        ensures
            forest_view(nodes@) == self@.nodes,
    {
        &self.nodes
    }

    /// Whether the tree holds a popup.
    pub fn alive(&self) -> (alive: bool)
        ensures
            alive == (self@.nodes.len() > 0),
    {
        proof {
            forest_view_is_pointwise(self.nodes@);
        }
        !self.nodes.is_empty()
    }

    /// The popups of the tree, each before what was opened on it, with
    /// their positions relative to the toplevel surface.
    pub fn iter_popups(&self, surfaces: &Surfaces) -> (placed: Vec<(PopupKind, Point)>)
        requires
            within_i32(self@.located(surfaces)),
        ensures
            placements(placed@) == self@.located(surfaces),
    {
        let mut placed: Vec<(PopupKind, Point)> = Vec::new();
        assert(placements(placed@) =~= Seq::<Placement>::empty());
        locate_among(&self.nodes, surfaces, Point { x: 0, y: 0 }, &mut placed);
        assert(Seq::<Placement>::empty() + self@.located(surfaces) =~= self@.located(surfaces));
        placed
    }

    /// Whether every position that `iter_popups` would report can be held
    /// in an `i32`.
    pub fn offsets_fit(&self, surfaces: &Surfaces) -> (fit: bool)
        ensures
            fit == within_i32(self@.located(surfaces)),
    {
        fit_among(&self.nodes, surfaces, Point { x: 0, y: 0 })
    }

    /// The popup on `surface` in this tree, if there is one.
    pub fn find(&self, surface: SurfaceId) -> (found: Option<PopupKind>)
        ensures
            found == if forest_hosts(self@.nodes, surface) {
                Some(PopupKind::on(surface))
            } else {
                None
            },
    {
        find_among(&self.nodes, surface)
    }

    /// Inserts `popup` below the first node that is on its declared parent.
    /// Where it has no parent, or no node is on it, the popup is put
    /// directly below the toplevel surface.
    pub fn insert(&mut self, surfaces: &Surfaces, popup: PopupKind)
        ensures
            final(self)@ == old(self)@.with_popup(surfaces, popup),
    {
        let inserted = match popup.parent(surfaces) {
            Some(parent) => insert_among(&mut self.nodes, parent, popup),
            None => false,
        };
        if !inserted {
            let ghost before = self.nodes@;
            self.nodes.push(PopupNode::new(popup));
            proof {
                forest_view_is_pointwise(self.nodes@);
                forest_view_is_pointwise(before);
                assert(self@.nodes =~= old(self)@.nodes.push(NodeModel::leaf(popup)));
            }
        }
    }

    /// Dismisses the popup on the surface of `popup` with all that was
    /// opened on it, and appends to `notified` the popups that left, in the
    /// order in which they are to be told.
    pub fn dismiss_popup(&mut self, popup: &PopupKind, notified: &mut Vec<PopupKind>)
        ensures
            final(self)@ == old(self)@.without(popup.id()),
            final(notified)@ == old(notified)@ + forest_dismissed(old(self)@.nodes, popup.id()),
    {
        dismiss_among(&mut self.nodes, popup, notified);
    }

    /// Drops every popup whose surface is dead, with all that was opened on
    /// it, and appends to `reported` the popups that were destroyed before
    /// a popup that was opened on them.
    pub fn cleanup(&mut self, surfaces: &Surfaces, reported: &mut Vec<PopupKind>)
        ensures
            final(self)@ == old(self)@.cleaned(surfaces),
            final(reported)@ == old(reported)@ + old(self)@.destroyed_early(surfaces),
    {
        cleanup_among(&mut self.nodes, surfaces, reported);
    }
}

} // verus!
