use popup_manager::popup::PopupKind;
use popup_manager::protocol::ProtocolError;
use popup_manager::surfaces::Surfaces;
use popup_manager::utils::Point;

#[test]
fn new_table_knows_no_surface() {
    let surfaces = Surfaces::new();
    assert_eq!(surfaces.len(), 0);
    assert!(!surfaces.alive(0));
    assert!(!surfaces.is_popup(0));
    assert_eq!(surfaces.parent(0), None);
    assert_eq!(surfaces.location(0), Point::new(0, 0));
    assert!(!surfaces.committed(0));
}

#[test]
fn created_surfaces_are_numbered_in_order() {
    let mut surfaces = Surfaces::new();
    let r = surfaces.create_surface();
    let a = surfaces.create_popup(Some(r), Point::new(5, -7));
    let b = surfaces.create_popup(None, Point::new(1, 1));
    assert_eq!((r, a, b), (0, 1, 2));
    assert_eq!(surfaces.len(), 3);
    assert!(surfaces.alive(r) && surfaces.alive(a) && surfaces.alive(b));
    assert!(!surfaces.is_popup(r));
    assert!(surfaces.is_popup(a));
    assert!(surfaces.is_popup(b));
    assert_eq!(surfaces.parent(r), None);
    assert_eq!(surfaces.parent(a), Some(r));
    assert_eq!(surfaces.parent(b), None);
    assert_eq!(surfaces.location(a), Point::new(5, -7));
    assert!(!surfaces.committed(a));
}

#[test]
fn setters_change_one_thing_of_one_surface() {
    let mut surfaces = Surfaces::new();
    let r = surfaces.create_surface();
    let a = surfaces.create_popup(None, Point::new(5, -7));
    let b = surfaces.create_popup(None, Point::new(1, 1));
    surfaces.set_parent(a, Some(r));
    assert_eq!(surfaces.parent(a), Some(r));
    assert_eq!(surfaces.parent(b), None);
    surfaces.set_location(a, Point::new(9, 9));
    assert_eq!(surfaces.location(a), Point::new(9, 9));
    assert_eq!(surfaces.location(b), Point::new(1, 1));
    surfaces.set_committed(a, true);
    assert!(surfaces.committed(a));
    assert!(!surfaces.committed(b));
    surfaces.set_committed(a, false);
    assert!(!surfaces.committed(a));
    surfaces.set_role(r, true);
    assert!(surfaces.is_popup(r));
    assert!(surfaces.is_popup(a));
    surfaces.set_role(r, false);
    assert!(!surfaces.is_popup(r));
    assert!(surfaces.alive(r));
    surfaces.destroy(a);
    assert!(!surfaces.alive(a));
    assert!(surfaces.alive(b));
    assert!(surfaces.is_popup(a));
    assert_eq!(surfaces.parent(a), Some(r));
    assert_eq!(surfaces.location(a), Point::new(9, 9));
}

#[test]
fn setters_leave_unknown_surfaces_alone() {
    let mut surfaces = Surfaces::new();
    let r = surfaces.create_surface();
    surfaces.set_role(5, true);
    surfaces.set_parent(5, Some(r));
    surfaces.set_location(5, Point::new(1, 2));
    surfaces.set_committed(5, true);
    surfaces.destroy(5);
    assert_eq!(surfaces.len(), 1);
    assert!(surfaces.alive(r));
    assert_eq!(surfaces.parent(5), None);
    assert!(!surfaces.committed(5));
}

#[test]
fn popup_handle_reads_the_table() {
    let mut surfaces = Surfaces::new();
    let r = surfaces.create_surface();
    let a = surfaces.create_popup(Some(r), Point::new(5, -7));
    let kind = PopupKind::xdg(a);
    assert_eq!(kind.wl_surface(), a);
    assert!(kind.alive(&surfaces));
    assert_eq!(kind.parent(&surfaces), Some(r));
    assert_eq!(kind.location(&surfaces), Point::new(5, -7));
    surfaces.destroy(a);
    assert!(!kind.alive(&surfaces));
    assert_eq!(kind, PopupKind::xdg(a));
    assert_ne!(kind, PopupKind::xdg(r));
}

#[test]
fn protocol_errors_have_their_wire_codes() {
    assert_eq!(ProtocolError::InvalidGrab.code(), 0);
    assert_eq!(ProtocolError::NotTheTopmostPopup.code(), 2);
    assert_eq!(ProtocolError::InvalidGrab.message(), "xdg_popup already is mapped");
    assert_eq!(
        ProtocolError::NotTheTopmostPopup.message(),
        "xdg_popup was not created on the topmost popup"
    );
}
