use popup_manager::popup::PopupKind;
use popup_manager::surfaces::Surfaces;
use popup_manager::tree::{PopupNode, PopupTree};
use popup_manager::utils::Point;

fn k(surface: usize) -> PopupKind {
    PopupKind::xdg(surface)
}

fn shape(node: &PopupNode) -> String {
    let below: Vec<String> = node.children().iter().map(shape).collect();
    format!("{}[{}]", node.popup().wl_surface(), below.join(","))
}

fn tree_shape(tree: &PopupTree) -> String {
    let below: Vec<String> = tree.nodes().iter().map(shape).collect();
    below.join(",")
}

/// r=0; a=1, b=2 on r; c=3, d=4 on a; e=5 on c; f=6 on b.
fn family() -> (Surfaces, PopupTree) {
    let mut surfaces = Surfaces::new();
    let r = surfaces.create_surface();
    let a = surfaces.create_popup(Some(r), Point::new(10, 100));
    let b = surfaces.create_popup(Some(r), Point::new(20, 200));
    let c = surfaces.create_popup(Some(a), Point::new(1, 2));
    let d = surfaces.create_popup(Some(a), Point::new(3, 4));
    let e = surfaces.create_popup(Some(c), Point::new(-5, -6));
    let f = surfaces.create_popup(Some(b), Point::new(7, 8));
    let mut tree = PopupTree::new(r);
    for popup in [a, b, c, d, e, f] {
        tree.insert(&surfaces, k(popup));
    }
    (surfaces, tree)
}

#[test]
fn new_node_is_a_leaf() {
    let node = PopupNode::new(k(4));
    assert_eq!(node.popup(), k(4));
    assert!(node.children().is_empty());
}

#[test]
fn new_tree_is_not_alive() {
    let tree = PopupTree::new(3);
    assert_eq!(tree.root(), 3);
    assert!(!tree.alive());
    assert!(tree.nodes().is_empty());
}

#[test]
fn insert_puts_each_popup_below_its_parent() {
    let (_, tree) = family();
    assert!(tree.alive());
    assert_eq!(tree_shape(&tree), "1[3[5[]],4[]],2[6[]]");
}

#[test]
fn insert_without_a_node_for_the_parent_makes_a_root() {
    let mut surfaces = Surfaces::new();
    let r = surfaces.create_surface();
    let a = surfaces.create_popup(Some(r), Point::new(0, 0));
    let b = surfaces.create_popup(Some(a), Point::new(0, 0));
    let lone = surfaces.create_popup(None, Point::new(0, 0));
    let mut tree = PopupTree::new(r);
    tree.insert(&surfaces, k(b));
    tree.insert(&surfaces, k(a));
    tree.insert(&surfaces, k(lone));
    assert_eq!(tree_shape(&tree), "2[],1[],3[]");
}

#[test]
fn insert_takes_the_first_node_on_the_parent() {
    let mut surfaces = Surfaces::new();
    let r = surfaces.create_surface();
    let a = surfaces.create_popup(Some(r), Point::new(0, 0));
    let b = surfaces.create_popup(Some(a), Point::new(0, 0));
    let mut tree = PopupTree::new(r);
    tree.insert(&surfaces, k(a));
    tree.insert(&surfaces, k(a));
    tree.insert(&surfaces, k(b));
    assert_eq!(tree_shape(&tree), "1[2[]],1[]");
}

#[test]
fn node_insert_says_whether_it_found_the_parent() {
    let mut surfaces = Surfaces::new();
    let r = surfaces.create_surface();
    let a = surfaces.create_popup(Some(r), Point::new(0, 0));
    let b = surfaces.create_popup(Some(a), Point::new(0, 0));
    let c = surfaces.create_popup(Some(b), Point::new(0, 0));
    let stray = surfaces.create_popup(Some(r), Point::new(0, 0));
    let lone = surfaces.create_popup(None, Point::new(0, 0));
    let mut node = PopupNode::new(k(a));
    assert!(node.insert(&surfaces, k(b)));
    assert!(node.insert(&surfaces, k(c)));
    assert!(!node.insert(&surfaces, k(stray)));
    assert!(!node.insert(&surfaces, k(lone)));
    assert_eq!(shape(&node), "1[2[3[]]]");
    assert!(node.insert_under(b, k(stray)));
    assert!(!node.insert_under(r, k(lone)));
    assert_eq!(shape(&node), "1[2[3[],4[]]]");
}

#[test]
fn iter_popups_sums_the_offsets_along_the_path() {
    let (surfaces, tree) = family();
    assert!(tree.offsets_fit(&surfaces));
    assert_eq!(
        tree.iter_popups(&surfaces),
        vec![
            (k(1), Point::new(10, 100)),
            (k(3), Point::new(11, 102)),
            (k(5), Point::new(6, 96)),
            (k(4), Point::new(13, 104)),
            (k(2), Point::new(20, 200)),
            (k(6), Point::new(27, 208)),
        ]
    );
}

#[test]
fn iter_popups_relative_to_starts_from_the_given_point() {
    let (surfaces, tree) = family();
    let a = &tree.nodes()[0];
    assert!(a.offsets_fit(&surfaces, Point::new(1000, 2000)));
    assert_eq!(
        a.iter_popups_relative_to(&surfaces, Point::new(1000, 2000)),
        vec![
            (k(1), Point::new(1010, 2100)),
            (k(3), Point::new(1011, 2102)),
            (k(5), Point::new(1006, 2096)),
            (k(4), Point::new(1013, 2104)),
        ]
    );
}

#[test]
fn moving_a_popup_moves_it_and_what_is_below() {
    let (mut surfaces, tree) = family();
    surfaces.set_location(1, Point::new(15, 90));
    assert_eq!(
        tree.iter_popups(&surfaces),
        vec![
            (k(1), Point::new(15, 90)),
            (k(3), Point::new(16, 92)),
            (k(5), Point::new(11, 86)),
            (k(4), Point::new(18, 94)),
            (k(2), Point::new(20, 200)),
            (k(6), Point::new(27, 208)),
        ]
    );
}

#[test]
fn offsets_that_leave_i32_do_not_fit() {
    let mut surfaces = Surfaces::new();
    let r = surfaces.create_surface();
    let a = surfaces.create_popup(Some(r), Point::new(i32::MAX, 0));
    let b = surfaces.create_popup(Some(a), Point::new(0, i32::MIN));
    let mut tree = PopupTree::new(r);
    tree.insert(&surfaces, k(a));
    tree.insert(&surfaces, k(b));
    assert!(tree.offsets_fit(&surfaces));
    assert_eq!(
        tree.iter_popups(&surfaces),
        vec![(k(a), Point::new(i32::MAX, 0)), (k(b), Point::new(i32::MAX, i32::MIN))]
    );
    surfaces.set_location(b, Point::new(1, 0));
    assert!(!tree.offsets_fit(&surfaces));
    surfaces.set_location(b, Point::new(0, -1));
    assert!(tree.offsets_fit(&surfaces));
    surfaces.set_location(a, Point::new(0, i32::MIN));
    assert!(!tree.offsets_fit(&surfaces));
    assert!(!tree.nodes()[0].offsets_fit(&surfaces, Point::new(0, -1)));
    assert!(tree.nodes()[0].offsets_fit(&surfaces, Point::new(0, 1)));
}

#[test]
fn find_looks_at_every_node() {
    let (_, tree) = family();
    for popup in 1..=6 {
        assert_eq!(tree.find(popup), Some(k(popup)));
    }
    assert_eq!(tree.find(0), None);
    assert_eq!(tree.find(7), None);
    assert_eq!(tree.nodes()[0].find(5), Some(k(5)));
    assert_eq!(tree.nodes()[0].find(6), None);
}

#[test]
fn send_done_tells_the_last_opened_first_and_the_node_last() {
    let (_, tree) = family();
    let mut told = vec![k(99)];
    tree.nodes()[0].send_done(&mut told);
    assert_eq!(told, vec![k(99), k(4), k(5), k(3), k(1)]);
}

#[test]
fn dismiss_drops_the_popup_with_all_below() {
    let (_, mut tree) = family();
    let mut told = Vec::new();
    tree.dismiss_popup(&k(3), &mut told);
    assert_eq!(told, vec![k(5), k(3)]);
    assert_eq!(tree_shape(&tree), "1[4[]],2[6[]]");
    tree.dismiss_popup(&k(1), &mut told);
    assert_eq!(told, vec![k(5), k(3), k(4), k(1)]);
    assert_eq!(tree_shape(&tree), "2[6[]]");
    tree.dismiss_popup(&k(2), &mut told);
    assert_eq!(told, vec![k(5), k(3), k(4), k(1), k(6), k(2)]);
    assert!(!tree.alive());
}

#[test]
fn dismiss_of_an_absent_popup_changes_nothing() {
    let (_, mut tree) = family();
    let mut told = Vec::new();
    tree.dismiss_popup(&k(42), &mut told);
    assert!(told.is_empty());
    assert_eq!(tree_shape(&tree), "1[3[5[]],4[]],2[6[]]");
}

#[test]
fn node_dismiss_says_whether_the_node_itself_is_meant() {
    let (_, mut tree) = family();
    let mut node = PopupNode::new(k(1));
    node.insert_under(1, k(3));
    node.insert_under(3, k(5));
    node.insert_under(1, k(4));
    let mut told = Vec::new();
    assert!(!node.dismiss_popup(&k(5), &mut told));
    assert_eq!(told, vec![k(5)]);
    assert_eq!(shape(&node), "1[3[],4[]]");
    assert!(node.dismiss_popup(&k(1), &mut told));
    assert_eq!(told, vec![k(5), k(4), k(3), k(1)]);
    assert_eq!(shape(&node), "1[3[],4[]]");
    assert!(!node.dismiss_popup(&k(77), &mut told));
    assert_eq!(told.len(), 4);
    tree.dismiss_popup(&k(6), &mut told);
    assert_eq!(told.len(), 5);
}

#[test]
fn dismiss_stops_among_siblings_at_the_first_match() {
    let mut surfaces = Surfaces::new();
    let r = surfaces.create_surface();
    let a = surfaces.create_popup(Some(r), Point::new(0, 0));
    let mut tree = PopupTree::new(r);
    tree.insert(&surfaces, k(a));
    surfaces.set_parent(a, None);
    tree.insert(&surfaces, k(a));
    assert_eq!(tree_shape(&tree), "1[],1[]");
    let mut told = Vec::new();
    tree.dismiss_popup(&k(a), &mut told);
    assert_eq!(told, vec![k(a)]);
    assert_eq!(tree_shape(&tree), "1[]");
}

#[test]
fn cleanup_drops_dead_popups_with_their_living_children() {
    let (mut surfaces, mut tree) = family();
    surfaces.destroy(3);
    surfaces.destroy(6);
    let mut reported = Vec::new();
    tree.cleanup(&surfaces, &mut reported);
    assert_eq!(tree_shape(&tree), "1[4[]],2[]");
    assert_eq!(reported, vec![k(3)]);
    surfaces.destroy(1);
    surfaces.destroy(2);
    tree.cleanup(&surfaces, &mut reported);
    assert!(!tree.alive());
    assert_eq!(reported, vec![k(3), k(1)]);
}

#[test]
fn cleanup_reports_each_popup_that_died_before_a_child() {
    let (mut surfaces, mut tree) = family();
    surfaces.destroy(5);
    surfaces.destroy(3);
    surfaces.destroy(1);
    surfaces.destroy(2);
    let mut reported = vec![k(99)];
    tree.cleanup(&surfaces, &mut reported);
    assert_eq!(reported, vec![k(99), k(1), k(2)]);
    assert!(!tree.alive());
}

#[test]
fn cleanup_reports_nothing_where_the_children_died_too() {
    let (mut surfaces, mut tree) = family();
    surfaces.destroy(6);
    surfaces.destroy(2);
    surfaces.destroy(5);
    let mut reported = Vec::new();
    tree.cleanup(&surfaces, &mut reported);
    assert!(reported.is_empty());
    assert_eq!(tree_shape(&tree), "1[3[],4[]]");
}

#[test]
fn cleanup_leaves_the_living_alone() {
    let (surfaces, mut tree) = family();
    let mut reported = Vec::new();
    tree.cleanup(&surfaces, &mut reported);
    assert!(reported.is_empty());
    assert_eq!(tree_shape(&tree), "1[3[5[]],4[]],2[6[]]");
}

#[test]
fn node_cleanup_does_not_look_at_the_node_itself() {
    let (mut surfaces, tree) = family();
    assert!(tree.alive());
    let mut node = PopupNode::new(k(1));
    node.insert_under(1, k(3));
    node.insert_under(3, k(5));
    node.insert_under(1, k(4));
    surfaces.destroy(1);
    surfaces.destroy(5);
    let mut reported = Vec::new();
    node.cleanup(&surfaces, &mut reported);
    assert_eq!(shape(&node), "1[3[],4[]]");
    assert_eq!(reported, vec![k(1)]);
}
