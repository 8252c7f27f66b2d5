use maolan_plugins::common::gesture::GestureTracker;

#[test]
fn each_drag_begins_and_ends_once() {
    let mut g = GestureTracker::new(3);
    assert_eq!(g.active, vec![false, false, false]);
    assert!(g.on_set(1));
    assert!(!g.on_set(1));
    assert!(g.on_release(1));
    assert!(!g.on_release(1));
    assert!(g.on_toggle(2));
    assert_eq!(g.active, vec![false, false, false]);
    assert!(g.on_set(0));
    assert!(!g.on_toggle(0));
    assert_eq!(g.active, vec![false, false, false]);
}
