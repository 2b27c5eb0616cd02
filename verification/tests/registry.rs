use signal_relay::registry::Registry;

fn s(text: &str) -> String {
    text.to_string()
}

#[test]
fn new_registry_is_empty() {
    let registry = Registry::new();
    assert!(registry.is_empty());
    assert!(registry.lookup_room(&s("A")).is_none());
}

#[test]
fn create_room_binds_host_without_viewers() {
    let mut registry = Registry::new();
    registry.create_room(s("A"), 7);
    assert!(!registry.is_empty());
    let room = registry.lookup_room(&s("A")).unwrap();
    assert_eq!(room.host(), Some(7));
    assert_eq!(room.viewer_count(), 0);
    assert_eq!(room.viewer_sessions(), Vec::<u64>::new());
    assert!(registry.lookup_room(&s("a")).is_none());
}

#[test]
fn create_room_overwrites_existing_room() {
    let mut registry = Registry::new();
    registry.create_room(s("A"), 1);
    assert!(registry.add_viewer(&s("A"), s("v1"), 10));
    registry.create_room(s("A"), 2);
    let room = registry.lookup_room(&s("A")).unwrap();
    assert_eq!(room.host(), Some(2));
    assert_eq!(room.viewer_count(), 0);
    assert_eq!(room.viewer(&s("v1")), None);
}

#[test]
fn add_viewer_fails_without_room() {
    let mut registry = Registry::new();
    registry.create_room(s("A"), 1);
    assert!(!registry.add_viewer(&s("B"), s("v1"), 10));
    assert!(registry.lookup_room(&s("B")).is_none());
    assert_eq!(registry.lookup_room(&s("A")).unwrap().viewer_count(), 0);
}

#[test]
fn add_viewer_keeps_join_order() {
    let mut registry = Registry::new();
    registry.create_room(s("A"), 1);
    assert!(registry.add_viewer(&s("A"), s("v1"), 10));
    assert!(registry.add_viewer(&s("A"), s("v2"), 11));
    assert!(registry.add_viewer(&s("A"), s("v3"), 12));
    let room = registry.lookup_room(&s("A")).unwrap();
    assert_eq!(room.host(), Some(1));
    assert_eq!(room.viewer_count(), 3);
    assert_eq!(room.viewer_sessions(), vec![10, 11, 12]);
    assert_eq!(room.viewer(&s("v1")), Some(10));
    assert_eq!(room.viewer(&s("v2")), Some(11));
    assert_eq!(room.viewer(&s("v3")), Some(12));
    assert_eq!(room.viewer(&s("v4")), None);
}

#[test]
fn viewer_ids_stay_unique_within_a_room() {
    let mut registry = Registry::new();
    registry.create_room(s("A"), 1);
    assert!(registry.add_viewer(&s("A"), s("v1"), 10));
    assert!(registry.add_viewer(&s("A"), s("v2"), 11));
    assert!(registry.add_viewer(&s("A"), s("v1"), 12));
    let room = registry.lookup_room(&s("A")).unwrap();
    assert_eq!(room.viewer_count(), 2);
    assert_eq!(room.viewer(&s("v1")), Some(12));
    assert_eq!(room.viewer_sessions(), vec![12, 11]);
    registry.always_consistent();
}

#[test]
fn same_viewer_id_in_two_rooms() {
    let mut registry = Registry::new();
    registry.create_room(s("A"), 1);
    registry.create_room(s("B"), 2);
    assert!(registry.add_viewer(&s("A"), s("v"), 10));
    assert!(registry.add_viewer(&s("B"), s("v"), 20));
    assert_eq!(registry.lookup_room(&s("A")).unwrap().viewer(&s("v")), Some(10));
    assert_eq!(registry.lookup_room(&s("B")).unwrap().viewer(&s("v")), Some(20));
}

#[test]
fn remove_host_deletes_only_that_room() {
    let mut registry = Registry::new();
    registry.create_room(s("A"), 1);
    registry.create_room(s("B"), 2);
    registry.create_room(s("C"), 3);
    assert!(registry.add_viewer(&s("B"), s("v"), 20));
    registry.remove_host(&s("B"));
    assert!(registry.lookup_room(&s("B")).is_none());
    assert_eq!(registry.lookup_room(&s("A")).unwrap().host(), Some(1));
    assert_eq!(registry.lookup_room(&s("C")).unwrap().host(), Some(3));
    registry.remove_host(&s("B"));
    assert!(!registry.is_empty());
    registry.remove_host(&s("A"));
    registry.remove_host(&s("C"));
    assert!(registry.is_empty());
}

#[test]
fn remove_viewer_leaves_room_and_others() {
    let mut registry = Registry::new();
    registry.create_room(s("A"), 1);
    assert!(registry.add_viewer(&s("A"), s("v1"), 10));
    assert!(registry.add_viewer(&s("A"), s("v2"), 11));
    assert!(registry.add_viewer(&s("A"), s("v3"), 12));
    registry.remove_viewer(&s("A"), &s("v2"));
    let room = registry.lookup_room(&s("A")).unwrap();
    assert_eq!(room.host(), Some(1));
    assert_eq!(room.viewer_sessions(), vec![10, 12]);
    assert_eq!(room.viewer(&s("v2")), None);
    registry.remove_viewer(&s("A"), &s("nobody"));
    registry.remove_viewer(&s("Z"), &s("v1"));
    assert_eq!(registry.lookup_room(&s("A")).unwrap().viewer_count(), 2);
    assert!(registry.lookup_room(&s("Z")).is_none());
}

#[test]
fn clear_empties_the_registry() {
    let mut registry = Registry::new();
    registry.create_room(s("A"), 1);
    registry.create_room(s("B"), 2);
    assert!(registry.add_viewer(&s("A"), s("v1"), 10));
    registry.clear();
    assert!(registry.is_empty());
    assert!(registry.lookup_room(&s("A")).is_none());
    assert!(registry.lookup_room(&s("B")).is_none());
    registry.clear();
    assert!(registry.is_empty());
}

#[test]
fn room_codes_are_compared_exactly() {
    let mut registry = Registry::new();
    registry.create_room(s(""), 1);
    registry.create_room(s("caf\u{e9}"), 2);
    assert_eq!(registry.lookup_room(&s("")).unwrap().host(), Some(1));
    assert_eq!(registry.lookup_room(&s("caf\u{e9}")).unwrap().host(), Some(2));
    assert!(registry.lookup_room(&s("cafe")).is_none());
    assert!(registry.lookup_room(&s(" ")).is_none());
}
