use popup_manager::grab::PopupGrabInner;
use popup_manager::popup::{PopupGrabError, PopupKind};
use popup_manager::surfaces::Surfaces;
use popup_manager::utils::{Point, Serial};

fn k(surface: usize) -> PopupKind {
    PopupKind::xdg(surface)
}

/// r=0; a=1 on r; b=2 on a; c=3 on b; other=4 on r; lone=5 without parent.
fn world() -> Surfaces {
    let mut surfaces = Surfaces::new();
    let r = surfaces.create_surface();
    let a = surfaces.create_popup(Some(r), Point::new(0, 0));
    let b = surfaces.create_popup(Some(a), Point::new(0, 0));
    surfaces.create_popup(Some(b), Point::new(0, 0));
    surfaces.create_popup(Some(r), Point::new(0, 0));
    surfaces.create_popup(None, Point::new(0, 0));
    surfaces
}

#[test]
fn new_chain_is_not_active() {
    let chain = PopupGrabInner::new(9);
    assert_eq!(chain.seat(), 9);
    assert!(!chain.active());
    assert!(!chain.alive());
    assert_eq!(chain.current_grab(), None);
    assert!(chain.grabs().is_empty());
    assert!(!chain.holds(1));
}

#[test]
fn first_grab_has_no_previous_serial() {
    let surfaces = world();
    let mut chain = PopupGrabInner::new(0);
    assert_eq!(chain.grab(&surfaces, k(1), Serial(11)), Ok(None));
    assert!(chain.active());
    assert!(chain.alive());
    assert_eq!(chain.current_grab(), Some((k(1), Serial(11))));
    assert!(chain.holds(1));
    assert!(!chain.holds(2));
}

#[test]
fn grab_on_the_topmost_returns_its_serial() {
    let surfaces = world();
    let mut chain = PopupGrabInner::new(0);
    assert_eq!(chain.grab(&surfaces, k(1), Serial(11)), Ok(None));
    assert_eq!(chain.grab(&surfaces, k(2), Serial(22)), Ok(Some(Serial(11))));
    assert_eq!(chain.grab(&surfaces, k(3), Serial(33)), Ok(Some(Serial(22))));
    assert_eq!(
        chain.grabs(),
        &vec![(k(1), Serial(11)), (k(2), Serial(22)), (k(3), Serial(33))]
    );
}

#[test]
fn grab_below_the_topmost_is_refused() {
    let surfaces = world();
    let mut chain = PopupGrabInner::new(0);
    chain.grab(&surfaces, k(1), Serial(1)).unwrap();
    chain.grab(&surfaces, k(2), Serial(2)).unwrap();
    let before = chain.grabs().clone();
    assert_eq!(
        chain.grab(&surfaces, k(1), Serial(3)),
        Err(PopupGrabError::NotTheTopmostPopup)
    );
    assert_eq!(
        chain.grab(&surfaces, k(2), Serial(3)),
        Err(PopupGrabError::NotTheTopmostPopup)
    );
    assert_eq!(
        chain.grab(&surfaces, k(4), Serial(3)),
        Err(PopupGrabError::NotTheTopmostPopup)
    );
    assert_eq!(chain.grabs(), &before);
}

#[test]
fn grab_on_a_popup_without_grab_is_refused_as_dismissed() {
    let surfaces = world();
    let mut chain = PopupGrabInner::new(0);
    assert_eq!(
        chain.grab(&surfaces, k(2), Serial(1)),
        Err(PopupGrabError::ParentDismissed)
    );
    assert!(!chain.active());
    chain.grab(&surfaces, k(1), Serial(1)).unwrap();
    assert_eq!(
        chain.grab(&surfaces, k(3), Serial(2)),
        Err(PopupGrabError::ParentDismissed)
    );
    assert_eq!(chain.grabs(), &vec![(k(1), Serial(1))]);
}

#[test]
fn grab_of_a_popup_without_parent_is_a_dead_resource() {
    let surfaces = world();
    let mut chain = PopupGrabInner::new(0);
    assert_eq!(
        chain.grab(&surfaces, k(5), Serial(1)),
        Err(PopupGrabError::DeadResource)
    );
    assert_eq!(
        chain.grab(&surfaces, k(77), Serial(1)),
        Err(PopupGrabError::DeadResource)
    );
    assert!(!chain.active());
}

#[test]
fn chain_cleanup_lets_go_of_dead_popups() {
    let mut surfaces = world();
    let mut chain = PopupGrabInner::new(0);
    chain.grab(&surfaces, k(1), Serial(1)).unwrap();
    chain.grab(&surfaces, k(2), Serial(2)).unwrap();
    chain.grab(&surfaces, k(3), Serial(3)).unwrap();
    chain.cleanup(&surfaces);
    assert_eq!(chain.grabs().len(), 3);
    surfaces.destroy(2);
    chain.cleanup(&surfaces);
    assert_eq!(chain.grabs(), &vec![(k(1), Serial(1)), (k(3), Serial(3))]);
    surfaces.destroy(1);
    surfaces.destroy(3);
    chain.cleanup(&surfaces);
    assert!(!chain.active());
    assert!(!chain.alive());
}

#[test]
fn grab_after_the_parent_left_is_refused_as_dismissed() {
    let mut surfaces = world();
    let mut chain = PopupGrabInner::new(0);
    chain.grab(&surfaces, k(1), Serial(1)).unwrap();
    surfaces.destroy(1);
    chain.cleanup(&surfaces);
    assert_eq!(
        chain.grab(&surfaces, k(2), Serial(2)),
        Err(PopupGrabError::ParentDismissed)
    );
    assert!(chain.grabs().is_empty());
}
