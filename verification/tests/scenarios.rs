use popup_manager::manager::PopupManager;
use popup_manager::popup::{KeyboardHandle, PopupGrabError, PopupKind, Seat};
use popup_manager::protocol::{ClientEvent, ProtocolError};
use popup_manager::surfaces::Surfaces;
use popup_manager::utils::{Point, Serial};

fn done(surface: usize) -> ClientEvent {
    ClientEvent::PopupDone { surface }
}

#[test]
fn popup_tracked_before_commit_joins_its_parent() {
    let mut surfaces = Surfaces::new();
    let mut manager = PopupManager::new();
    let r = surfaces.create_surface();
    let a = surfaces.create_popup(Some(r), Point::new(10, 20));
    assert_eq!(manager.track_popup(&surfaces, PopupKind::xdg(a)), Ok(()));
    manager.commit(&surfaces, a);
    assert_eq!(
        manager.popups_for_surface(&surfaces, r),
        vec![(PopupKind::xdg(a), Point::new(10, 20))]
    );

    let b = surfaces.create_popup(None, Point::new(1, 2));
    assert_eq!(manager.track_popup(&surfaces, PopupKind::xdg(b)), Ok(()));
    assert_eq!(manager.find_popup(b), Some(PopupKind::xdg(b)));
    assert_eq!(manager.popups_for_surface(&surfaces, r).len(), 1);
    surfaces.set_parent(b, Some(a));
    manager.commit(&surfaces, b);
    assert_eq!(
        manager.popups_for_surface(&surfaces, r),
        vec![
            (PopupKind::xdg(a), Point::new(10, 20)),
            (PopupKind::xdg(b), Point::new(11, 22)),
        ]
    );
    assert_eq!(manager.find_popup(b), Some(PopupKind::xdg(b)));

    assert_eq!(manager.dismiss_popup(&surfaces, r, &PopupKind::xdg(a)), Ok(()));
    assert!(manager.popups_for_surface(&surfaces, r).is_empty());
    assert_eq!(manager.find_popup(a), None);
    assert_eq!(manager.find_popup(b), None);
    assert_eq!(manager.take_events(), vec![done(b), done(a)]);
}

#[test]
fn popup_tracked_with_its_parent_is_attached_at_once() {
    let mut surfaces = Surfaces::new();
    let mut manager = PopupManager::new();
    let r = surfaces.create_surface();
    let a = surfaces.create_popup(Some(r), Point::new(10, 20));
    manager.track_popup(&surfaces, PopupKind::xdg(a)).unwrap();
    manager.commit(&surfaces, a);
    {
        let trees = manager.popup_trees();
        assert_eq!(trees.len(), 1);
        assert_eq!(trees[0].root(), r);
        assert_eq!(trees[0].nodes().len(), 1);
        assert_eq!(trees[0].nodes()[0].popup(), PopupKind::xdg(a));
        assert!(trees[0].nodes()[0].children().is_empty());
    }

    let b = surfaces.create_popup(Some(a), Point::new(1, 2));
    manager.track_popup(&surfaces, PopupKind::xdg(b)).unwrap();
    assert!(manager.unmapped_popups().is_empty());
    manager.commit(&surfaces, b);
    {
        let trees = manager.popup_trees();
        assert_eq!(trees.len(), 1);
        assert_eq!(trees[0].nodes().len(), 1);
        let top = &trees[0].nodes()[0];
        assert_eq!(top.popup(), PopupKind::xdg(a));
        assert_eq!(top.children().len(), 1);
        assert_eq!(top.children()[0].popup(), PopupKind::xdg(b));
        assert!(top.children()[0].children().is_empty());
    }
    assert_eq!(manager.find_popup(b), Some(PopupKind::xdg(b)));

    manager.dismiss_popup(&surfaces, r, &PopupKind::xdg(a)).unwrap();
    assert!(manager.popups_for_surface(&surfaces, r).is_empty());
    assert_eq!(manager.find_popup(a), None);
    assert_eq!(manager.find_popup(b), None);
    assert_eq!(manager.take_events(), vec![done(b), done(a)]);
}

#[test]
fn grab_chain_follows_the_topmost_popup() {
    let mut surfaces = Surfaces::new();
    let mut manager = PopupManager::new();
    let seat = Seat { id: 7, keyboard: Some(KeyboardHandle(3)) };
    let r = surfaces.create_surface();
    let a = surfaces.create_popup(Some(r), Point::new(0, 0));
    let b = surfaces.create_popup(Some(a), Point::new(0, 0));
    manager.track_popup(&surfaces, PopupKind::xdg(a)).unwrap();
    manager.track_popup(&surfaces, PopupKind::xdg(b)).unwrap();

    let first = manager.grab_popup(&surfaces, a, &seat, Serial(1)).unwrap();
    assert_eq!(first.previous_serial, None);
    assert_eq!(first.serial, Serial(1));
    assert_eq!(first.popup, PopupKind::xdg(a));
    assert_eq!(first.seat, 7);
    assert_eq!(first.keyboard, Some(KeyboardHandle(3)));

    let second = manager.grab_popup(&surfaces, b, &seat, Serial(2)).unwrap();
    assert_eq!(second.previous_serial, Some(Serial(1)));

    assert_eq!(
        manager.grab_popup(&surfaces, a, &seat, Serial(3)),
        Err(PopupGrabError::NotTheTopmostPopup)
    );
    assert_eq!(
        manager.take_events(),
        vec![ClientEvent::Error { surface: a, error: ProtocolError::NotTheTopmostPopup }]
    );
    assert_eq!(ProtocolError::NotTheTopmostPopup.code(), 2);
    assert_eq!(ProtocolError::InvalidGrab.code(), 0);
}
