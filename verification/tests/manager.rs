use popup_manager::manager::{find_popup_root_surface, PopupManager};
use popup_manager::popup::{KeyboardHandle, PopupGrab, PopupGrabError, PopupKind, Seat};
use popup_manager::protocol::{ClientEvent, ProtocolError};
use popup_manager::surfaces::Surfaces;
use popup_manager::utils::{DeadResource, Point, Serial};

fn k(surface: usize) -> PopupKind {
    PopupKind::xdg(surface)
}

fn seat(id: u64) -> Seat {
    Seat { id, keyboard: Some(KeyboardHandle(id + 100)) }
}

fn chain(manager: &PopupManager, seat: u64) -> Vec<(PopupKind, Serial)> {
    manager
        .popup_grabs()
        .iter()
        .find(|chain| chain.seat() == seat)
        .map(|chain| chain.grabs().clone())
        .unwrap_or_default()
}

/// r=0; a=1 on r; b=2 on a; c=3 on b; other=4 on r; all tracked.
fn mapped() -> (Surfaces, PopupManager) {
    let mut surfaces = Surfaces::new();
    let mut manager = PopupManager::new();
    let r = surfaces.create_surface();
    let a = surfaces.create_popup(Some(r), Point::new(1, 10));
    let b = surfaces.create_popup(Some(a), Point::new(2, 20));
    let c = surfaces.create_popup(Some(b), Point::new(3, 30));
    let other = surfaces.create_popup(Some(r), Point::new(4, 40));
    for popup in [a, b, c, other] {
        assert_eq!(manager.track_popup(&surfaces, k(popup)), Ok(()));
    }
    (surfaces, manager)
}

#[test]
fn new_manager_holds_nothing() {
    let manager = PopupManager::new();
    assert!(manager.unmapped_popups().is_empty());
    assert!(manager.popup_trees().is_empty());
    assert!(manager.popup_grabs().is_empty());
    assert!(manager.events().is_empty());
    assert_eq!(manager.find_popup(0), None);
}

#[test]
fn root_is_the_first_surface_above_that_is_no_popup() {
    let (mut surfaces, _) = mapped();
    assert_eq!(find_popup_root_surface(&surfaces, &k(1)), Ok(0));
    assert_eq!(find_popup_root_surface(&surfaces, &k(3)), Ok(0));
    let lone = surfaces.create_popup(None, Point::new(0, 0));
    assert_eq!(find_popup_root_surface(&surfaces, &k(lone)), Err(DeadResource));
    let child = surfaces.create_popup(Some(lone), Point::new(0, 0));
    assert_eq!(find_popup_root_surface(&surfaces, &k(child)), Err(DeadResource));
    assert_eq!(find_popup_root_surface(&surfaces, &k(0)), Err(DeadResource));
    assert_eq!(find_popup_root_surface(&surfaces, &k(99)), Err(DeadResource));
}

#[test]
fn root_of_a_popup_on_an_unknown_surface_is_that_surface() {
    let mut surfaces = Surfaces::new();
    let a = surfaces.create_popup(Some(50), Point::new(0, 0));
    assert_eq!(find_popup_root_surface(&surfaces, &k(a)), Ok(50));
}

#[test]
fn root_of_popups_in_a_circle_cannot_be_resolved() {
    let mut surfaces = Surfaces::new();
    let a = surfaces.create_popup(None, Point::new(0, 0));
    let b = surfaces.create_popup(Some(a), Point::new(0, 0));
    surfaces.set_parent(a, Some(b));
    assert_eq!(find_popup_root_surface(&surfaces, &k(a)), Err(DeadResource));
    assert_eq!(find_popup_root_surface(&surfaces, &k(b)), Err(DeadResource));
    surfaces.set_parent(a, Some(a));
    assert_eq!(find_popup_root_surface(&surfaces, &k(a)), Err(DeadResource));
}

#[test]
fn root_is_found_through_as_many_popups_as_there_are() {
    let mut surfaces = Surfaces::new();
    let mut parent = 100;
    let mut last = 0;
    for _ in 0..20 {
        last = surfaces.create_popup(Some(parent), Point::new(0, 0));
        parent = last;
    }
    assert_eq!(find_popup_root_surface(&surfaces, &k(last)), Ok(100));
}

#[test]
fn track_popup_with_a_parent_attaches_it() {
    let (surfaces, manager) = mapped();
    assert!(manager.unmapped_popups().is_empty());
    assert_eq!(manager.popup_trees().len(), 1);
    assert_eq!(manager.popup_trees()[0].root(), 0);
    assert_eq!(
        manager.popups_for_surface(&surfaces, 0),
        vec![
            (k(1), Point::new(1, 10)),
            (k(2), Point::new(3, 30)),
            (k(3), Point::new(6, 60)),
            (k(4), Point::new(4, 40)),
        ]
    );
}

#[test]
fn track_popup_without_a_parent_lets_it_wait() {
    let (mut surfaces, mut manager) = mapped();
    let lone = surfaces.create_popup(None, Point::new(0, 0));
    assert_eq!(manager.track_popup(&surfaces, k(lone)), Ok(()));
    assert_eq!(manager.unmapped_popups(), &vec![k(lone)]);
    assert_eq!(manager.popups_for_surface(&surfaces, 0).len(), 4);
    assert_eq!(manager.find_popup(lone), Some(k(lone)));

    let next = surfaces.create_popup(Some(0), Point::new(0, 0));
    manager.track_popup(&surfaces, k(next)).unwrap();
    manager.commit(&surfaces, next);
    manager.commit(&surfaces, 0);
    manager.dismiss_popup(&surfaces, 0, &k(next)).unwrap();
    manager.cleanup(&surfaces);
    assert_eq!(manager.unmapped_popups(), &vec![k(lone)]);

    surfaces.set_parent(lone, Some(3));
    manager.commit(&surfaces, lone);
    assert!(manager.unmapped_popups().is_empty());
    assert_eq!(
        manager.popups_for_surface(&surfaces, 0),
        vec![
            (k(1), Point::new(1, 10)),
            (k(2), Point::new(3, 30)),
            (k(3), Point::new(6, 60)),
            (k(lone), Point::new(6, 60)),
            (k(4), Point::new(4, 40)),
        ]
    );
}

#[test]
fn track_popup_fails_where_the_root_cannot_be_resolved() {
    let mut surfaces = Surfaces::new();
    let mut manager = PopupManager::new();
    let lone = surfaces.create_popup(None, Point::new(0, 0));
    let child = surfaces.create_popup(Some(lone), Point::new(0, 0));
    assert_eq!(manager.track_popup(&surfaces, k(child)), Err(DeadResource));
    assert_eq!(manager.add_popup(&surfaces, k(lone)), Err(DeadResource));
    assert!(manager.unmapped_popups().is_empty());
    assert!(manager.popup_trees().is_empty());
    assert_eq!(manager.find_popup(child), None);
}

#[test]
fn commit_of_a_waiting_popup_without_root_drops_it() {
    let mut surfaces = Surfaces::new();
    let mut manager = PopupManager::new();
    let lone = surfaces.create_popup(None, Point::new(0, 0));
    manager.track_popup(&surfaces, k(lone)).unwrap();
    manager.commit(&surfaces, lone);
    assert!(manager.unmapped_popups().is_empty());
    assert!(manager.popup_trees().is_empty());
    assert_eq!(manager.find_popup(lone), None);
}

#[test]
fn commit_ignores_surfaces_that_are_no_popup_or_do_not_wait() {
    let (mut surfaces, mut manager) = mapped();
    let plain = surfaces.create_surface();
    manager.track_popup(&surfaces, k(plain)).unwrap();
    assert_eq!(manager.unmapped_popups(), &vec![k(plain)]);
    surfaces.set_parent(plain, Some(0));
    manager.commit(&surfaces, plain);
    assert_eq!(manager.unmapped_popups(), &vec![k(plain)]);
    manager.commit(&surfaces, 1);
    manager.commit(&surfaces, 77);
    assert_eq!(manager.popups_for_surface(&surfaces, 0).len(), 4);
}

#[test]
fn commit_takes_the_first_that_waits_and_moves_the_last_there() {
    let mut surfaces = Surfaces::new();
    let mut manager = PopupManager::new();
    let r = surfaces.create_surface();
    let a = surfaces.create_popup(None, Point::new(0, 0));
    let b = surfaces.create_popup(None, Point::new(0, 0));
    let c = surfaces.create_popup(None, Point::new(0, 0));
    for popup in [a, b, c] {
        manager.track_popup(&surfaces, k(popup)).unwrap();
    }
    surfaces.set_parent(a, Some(r));
    manager.commit(&surfaces, a);
    assert_eq!(manager.unmapped_popups(), &vec![k(c), k(b)]);
    assert_eq!(manager.popups_for_surface(&surfaces, r), vec![(k(a), Point::new(0, 0))]);
}

#[test]
fn each_root_has_its_own_tree() {
    let mut surfaces = Surfaces::new();
    let mut manager = PopupManager::new();
    let r1 = surfaces.create_surface();
    let r2 = surfaces.create_surface();
    let a = surfaces.create_popup(Some(r1), Point::new(1, 1));
    let b = surfaces.create_popup(Some(r2), Point::new(2, 2));
    let c = surfaces.create_popup(Some(r1), Point::new(3, 3));
    for popup in [a, b, c] {
        manager.track_popup(&surfaces, k(popup)).unwrap();
    }
    assert_eq!(manager.popup_trees().len(), 2);
    assert_eq!(
        manager.popups_for_surface(&surfaces, r1),
        vec![(k(a), Point::new(1, 1)), (k(c), Point::new(3, 3))]
    );
    assert_eq!(manager.popups_for_surface(&surfaces, r2), vec![(k(b), Point::new(2, 2))]);
    assert!(manager.popups_for_surface(&surfaces, a).is_empty());
    assert!(manager.offsets_fit(&surfaces, r1));
    assert!(manager.offsets_fit(&surfaces, a));
}

#[test]
fn find_popup_locates_every_tracked_popup() {
    let (mut surfaces, mut manager) = mapped();
    let lone = surfaces.create_popup(None, Point::new(0, 0));
    manager.track_popup(&surfaces, k(lone)).unwrap();
    for popup in [1, 2, 3, 4, lone] {
        assert_eq!(manager.find_popup(popup), Some(k(popup)));
    }
    assert_eq!(manager.find_popup(0), None);
    assert_eq!(manager.find_popup(42), None);
}

#[test]
fn find_popup_finds_no_dead_popup_after_cleanup() {
    let (mut surfaces, mut manager) = mapped();
    let lone = surfaces.create_popup(None, Point::new(0, 0));
    let gone = surfaces.create_popup(None, Point::new(0, 0));
    manager.track_popup(&surfaces, k(lone)).unwrap();
    manager.track_popup(&surfaces, k(gone)).unwrap();
    surfaces.destroy(3);
    surfaces.destroy(4);
    surfaces.destroy(gone);
    assert_eq!(manager.find_popup(3), Some(k(3)));
    manager.cleanup(&surfaces);
    for popup in [1, 2, lone] {
        assert_eq!(manager.find_popup(popup), Some(k(popup)));
    }
    for popup in [3, 4, gone] {
        assert_eq!(manager.find_popup(popup), None);
    }
}

#[test]
fn popups_for_surface_follows_a_moved_popup() {
    let (mut surfaces, manager) = mapped();
    surfaces.set_location(2, Point::new(-8, 5));
    assert_eq!(
        manager.popups_for_surface(&surfaces, 0),
        vec![
            (k(1), Point::new(1, 10)),
            (k(2), Point::new(-7, 15)),
            (k(3), Point::new(-4, 45)),
            (k(4), Point::new(4, 40)),
        ]
    );
}

#[test]
fn offsets_fit_tells_when_a_position_leaves_i32() {
    let (mut surfaces, manager) = mapped();
    assert!(manager.offsets_fit(&surfaces, 0));
    surfaces.set_location(3, Point::new(i32::MAX - 3, 0));
    assert!(manager.offsets_fit(&surfaces, 0));
    surfaces.set_location(3, Point::new(i32::MAX - 2, 0));
    assert!(!manager.offsets_fit(&surfaces, 0));
    assert!(manager.offsets_fit(&surfaces, 9));
}

#[test]
fn dismiss_popup_tells_the_leaves_before_their_ancestors() {
    let (surfaces, mut manager) = mapped();
    assert_eq!(manager.dismiss_popup(&surfaces, 0, &k(1)), Ok(()));
    assert_eq!(manager.popups_for_surface(&surfaces, 0), vec![(k(4), Point::new(4, 40))]);
    assert_eq!(
        manager.events(),
        &vec![
            ClientEvent::PopupDone { surface: 3 },
            ClientEvent::PopupDone { surface: 2 },
            ClientEvent::PopupDone { surface: 1 },
        ]
    );
    for popup in [1, 2, 3] {
        assert_eq!(manager.find_popup(popup), None);
    }
    assert_eq!(manager.find_popup(4), Some(k(4)));
}

#[test]
fn dismiss_popup_is_idle_for_what_is_not_there() {
    let (mut surfaces, mut manager) = mapped();
    assert_eq!(manager.dismiss_popup(&surfaces, 0, &k(42)), Ok(()));
    assert_eq!(manager.dismiss_popup(&surfaces, 1, &k(2)), Ok(()));
    assert_eq!(manager.dismiss_popup(&surfaces, 77, &k(2)), Ok(()));
    assert_eq!(manager.dismiss_popup(&surfaces, 0, &k(4)), Ok(()));
    assert_eq!(manager.dismiss_popup(&surfaces, 0, &k(4)), Ok(()));
    assert_eq!(manager.take_events(), vec![ClientEvent::PopupDone { surface: 4 }]);
    assert!(manager.events().is_empty());
    surfaces.destroy(0);
    assert_eq!(manager.dismiss_popup(&surfaces, 0, &k(1)), Ok(()));
    assert!(manager.events().is_empty());
    assert_eq!(manager.popups_for_surface(&surfaces, 0).len(), 3);
}

#[test]
fn cleanup_reclaims_what_is_dead() {
    let (mut surfaces, mut manager) = mapped();
    let r2 = surfaces.create_surface();
    let x = surfaces.create_popup(Some(r2), Point::new(0, 0));
    let waiting = surfaces.create_popup(None, Point::new(0, 0));
    let gone = surfaces.create_popup(None, Point::new(0, 0));
    for popup in [x, waiting, gone] {
        manager.track_popup(&surfaces, k(popup)).unwrap();
    }
    manager.grab_popup(&surfaces, 1, &seat(1), Serial(1)).unwrap();
    manager.grab_popup(&surfaces, 2, &seat(1), Serial(2)).unwrap();
    manager.grab_popup(&surfaces, x, &seat(2), Serial(3)).unwrap();
    assert_eq!(manager.popup_trees().len(), 2);
    assert_eq!(manager.popup_grabs().len(), 2);

    surfaces.destroy(2);
    surfaces.destroy(x);
    surfaces.destroy(gone);
    assert_eq!(manager.cleanup(&surfaces), vec![k(2)]);

    assert_eq!(manager.unmapped_popups(), &vec![k(waiting)]);
    assert_eq!(manager.popup_trees().len(), 1);
    assert!(manager.popup_trees().iter().all(|tree| tree.alive()));
    assert_eq!(
        manager.popups_for_surface(&surfaces, 0),
        vec![(k(1), Point::new(1, 10)), (k(4), Point::new(4, 40))]
    );
    assert!(manager.popups_for_surface(&surfaces, r2).is_empty());
    assert_eq!(manager.popup_grabs().len(), 1);
    assert_eq!(chain(&manager, 1), vec![(k(1), Serial(1))]);
    assert!(chain(&manager, 2).is_empty());
    assert!(manager.events().is_empty());
}

#[test]
fn manager_cleanup_leaves_the_living_alone() {
    let (mut surfaces, mut manager) = mapped();
    let waiting = surfaces.create_popup(None, Point::new(0, 0));
    manager.track_popup(&surfaces, k(waiting)).unwrap();
    manager.grab_popup(&surfaces, 1, &seat(1), Serial(1)).unwrap();
    let before = manager.popups_for_surface(&surfaces, 0);
    assert!(manager.cleanup(&surfaces).is_empty());
    assert!(manager.cleanup(&surfaces).is_empty());
    assert_eq!(manager.popups_for_surface(&surfaces, 0), before);
    assert_eq!(manager.unmapped_popups(), &vec![k(waiting)]);
    assert_eq!(chain(&manager, 1), vec![(k(1), Serial(1))]);
}

#[test]
fn cleanup_reports_the_popups_of_every_tree() {
    let mut surfaces = Surfaces::new();
    let mut manager = PopupManager::new();
    let r1 = surfaces.create_surface();
    let r2 = surfaces.create_surface();
    let a = surfaces.create_popup(Some(r1), Point::new(0, 0));
    let b = surfaces.create_popup(Some(r2), Point::new(0, 0));
    let a1 = surfaces.create_popup(Some(a), Point::new(0, 0));
    let b1 = surfaces.create_popup(Some(b), Point::new(0, 0));
    let b2 = surfaces.create_popup(Some(b1), Point::new(0, 0));
    for popup in [a, b, a1, b1, b2] {
        manager.track_popup(&surfaces, k(popup)).unwrap();
    }
    surfaces.destroy(a);
    surfaces.destroy(b1);
    assert_eq!(manager.cleanup(&surfaces), vec![k(a), k(b1)]);
    assert_eq!(manager.popup_trees().len(), 1);
    assert_eq!(manager.popups_for_surface(&surfaces, r2), vec![(k(b), Point::new(0, 0))]);
    assert!(manager.cleanup(&surfaces).is_empty());
}

#[test]
fn cleanup_drops_trees_that_were_emptied_by_dismissal() {
    let (surfaces, mut manager) = mapped();
    manager.dismiss_popup(&surfaces, 0, &k(1)).unwrap();
    manager.dismiss_popup(&surfaces, 0, &k(4)).unwrap();
    assert_eq!(manager.popup_trees().len(), 1);
    manager.cleanup(&surfaces);
    assert!(manager.popup_trees().is_empty());
    manager.track_popup(&surfaces, k(4)).unwrap();
    assert_eq!(manager.popup_trees().len(), 1);
    assert_eq!(manager.popups_for_surface(&surfaces, 0), vec![(k(4), Point::new(4, 40))]);
}

#[test]
fn grab_popup_bundles_what_belongs_to_the_grab() {
    let (surfaces, mut manager) = mapped();
    assert_eq!(
        manager.grab_popup(&surfaces, 1, &seat(1), Serial(5)),
        Ok(PopupGrab::new(1, k(1), Serial(5), None, Some(KeyboardHandle(101))))
    );
    let bare = Seat { id: 1, keyboard: None };
    assert_eq!(
        manager.grab_popup(&surfaces, 2, &bare, Serial(6)),
        Ok(PopupGrab {
            seat: 1,
            popup: k(2),
            serial: Serial(6),
            previous_serial: Some(Serial(5)),
            keyboard: None,
        })
    );
    assert_eq!(chain(&manager, 1), vec![(k(1), Serial(5)), (k(2), Serial(6))]);
    assert!(manager.events().is_empty());
    assert_eq!(seat(1).get_keyboard(), Some(KeyboardHandle(101)));
}

#[test]
fn grabs_of_different_seats_do_not_meet() {
    let (surfaces, mut manager) = mapped();
    manager.grab_popup(&surfaces, 1, &seat(1), Serial(1)).unwrap();
    assert_eq!(
        manager.grab_popup(&surfaces, 1, &seat(2), Serial(2)).unwrap().previous_serial,
        None
    );
    assert_eq!(
        manager.grab_popup(&surfaces, 2, &seat(1), Serial(3)).unwrap().previous_serial,
        Some(Serial(1))
    );
    assert_eq!(chain(&manager, 1), vec![(k(1), Serial(1)), (k(2), Serial(3))]);
    assert_eq!(chain(&manager, 2), vec![(k(1), Serial(2))]);
}

#[test]
fn grab_popup_refuses_what_is_no_live_popup() {
    let (mut surfaces, mut manager) = mapped();
    assert_eq!(
        manager.grab_popup(&surfaces, 0, &seat(1), Serial(1)),
        Err(PopupGrabError::NoPopup)
    );
    assert_eq!(
        manager.grab_popup(&surfaces, 99, &seat(1), Serial(1)),
        Err(PopupGrabError::NoPopup)
    );
    surfaces.destroy(1);
    assert_eq!(
        manager.grab_popup(&surfaces, 1, &seat(1), Serial(1)),
        Err(PopupGrabError::NoPopup)
    );
    assert!(manager.popup_grabs().is_empty());
    assert!(manager.events().is_empty());
}

#[test]
fn grab_popup_refuses_a_popup_without_root() {
    let (mut surfaces, mut manager) = mapped();
    let lone = surfaces.create_popup(None, Point::new(0, 0));
    assert_eq!(
        manager.grab_popup(&surfaces, lone, &seat(1), Serial(1)),
        Err(PopupGrabError::DeadResource)
    );
    assert!(manager.popup_grabs().is_empty());
    assert!(manager.events().is_empty());
}

#[test]
fn grab_of_a_committed_popup_is_invalid_and_touches_no_chain() {
    let (mut surfaces, mut manager) = mapped();
    manager.grab_popup(&surfaces, 1, &seat(1), Serial(1)).unwrap();
    surfaces.set_committed(2, true);
    let before = chain(&manager, 1);
    assert_eq!(
        manager.grab_popup(&surfaces, 2, &seat(1), Serial(2)),
        Err(PopupGrabError::InvalidGrab)
    );
    assert_eq!(
        manager.grab_popup(&surfaces, 2, &seat(3), Serial(2)),
        Err(PopupGrabError::InvalidGrab)
    );
    assert_eq!(chain(&manager, 1), before);
    assert_eq!(manager.popup_grabs().len(), 1);
    let error = ClientEvent::Error { surface: 2, error: ProtocolError::InvalidGrab };
    assert_eq!(manager.take_events(), vec![error, error]);
    assert_eq!(manager.popups_for_surface(&surfaces, 0).len(), 4);
}

#[test]
fn grab_below_the_topmost_is_reported_and_leaves_the_chain() {
    let (surfaces, mut manager) = mapped();
    manager.grab_popup(&surfaces, 1, &seat(1), Serial(1)).unwrap();
    manager.grab_popup(&surfaces, 2, &seat(1), Serial(2)).unwrap();
    let before = chain(&manager, 1);
    assert_eq!(
        manager.grab_popup(&surfaces, 4, &seat(1), Serial(3)),
        Err(PopupGrabError::NotTheTopmostPopup)
    );
    assert_eq!(chain(&manager, 1), before);
    assert_eq!(
        manager.take_events(),
        vec![ClientEvent::Error { surface: 4, error: ProtocolError::NotTheTopmostPopup }]
    );
    assert_eq!(manager.popups_for_surface(&surfaces, 0).len(), 4);
}

#[test]
fn grab_on_a_dismissed_parent_dismisses_the_popup() {
    let (mut surfaces, mut manager) = mapped();
    manager.grab_popup(&surfaces, 1, &seat(1), Serial(1)).unwrap();
    manager.grab_popup(&surfaces, 2, &seat(1), Serial(2)).unwrap();
    surfaces.destroy(2);
    manager.cleanup(&surfaces);
    let again = surfaces.create_popup(Some(2), Point::new(0, 0));
    assert_eq!(manager.track_popup(&surfaces, k(again)), Ok(()));
    let below = surfaces.create_popup(Some(again), Point::new(0, 0));
    assert_eq!(manager.track_popup(&surfaces, k(below)), Ok(()));
    assert_eq!(manager.find_popup(below), Some(k(below)));
    assert_eq!(
        manager.grab_popup(&surfaces, again, &seat(1), Serial(3)),
        Err(PopupGrabError::ParentDismissed)
    );
    assert_eq!(chain(&manager, 1), vec![(k(1), Serial(1))]);
    assert_eq!(manager.find_popup(again), None);
    assert_eq!(manager.find_popup(below), None);
    assert_eq!(
        manager.take_events(),
        vec![
            ClientEvent::PopupDone { surface: below },
            ClientEvent::PopupDone { surface: again },
        ]
    );
}

#[test]
fn refused_first_grab_leaves_a_chain_that_cleanup_reclaims() {
    let (surfaces, mut manager) = mapped();
    assert_eq!(
        manager.grab_popup(&surfaces, 2, &seat(1), Serial(1)),
        Err(PopupGrabError::ParentDismissed)
    );
    assert_eq!(manager.popup_grabs().len(), 1);
    assert!(!manager.popup_grabs()[0].active());
    assert_eq!(manager.find_popup(2), None);
    manager.cleanup(&surfaces);
    assert!(manager.popup_grabs().is_empty());
}
