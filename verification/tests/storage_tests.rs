use falldown::ProtocolError;
use falldown::falldown::{Collider, CollisionGroups, QueryKind, Shape};
use falldown::storage::{DetailedComponentEvent, RemovalFlaggedStorage};

#[test]
fn insert_and_remove_publish_their_events_in_order() {
    let mut s: RemovalFlaggedStorage<u32, u32> = RemovalFlaggedStorage::new();
    let r = s.register_detailed_reader();
    // three inserts and two removes on tracked slots
    s.insert(3, 30);
    s.insert(5, 50);
    s.insert(7, 70);
    assert_eq!(s.remove(5), Ok(50));
    assert_eq!(s.remove(3), Ok(30));
    let events = s.read_detailed(&r).unwrap();
    assert_eq!(events.len(), 5);
    assert!(matches!(events[0], DetailedComponentEvent::Inserted(3)));
    assert!(matches!(events[1], DetailedComponentEvent::Inserted(5)));
    assert!(matches!(events[2], DetailedComponentEvent::Inserted(7)));
    // each Removed carries the value the slot held at removal time
    assert!(matches!(events[3], DetailedComponentEvent::Removed(5, 50)));
    assert!(matches!(events[4], DetailedComponentEvent::Removed(3, 30)));
}

#[test]
fn replacing_in_place_publishes_modified() {
    let mut s: RemovalFlaggedStorage<u32, u32> = RemovalFlaggedStorage::new();
    let r = s.register_detailed_reader();
    s.insert(1, 10);
    s.insert(1, 11);
    assert_eq!(s.replace(1, 12), Ok(11));
    let events = s.read_detailed(&r).unwrap();
    assert_eq!(events.len(), 3);
    assert!(matches!(events[0], DetailedComponentEvent::Inserted(1)));
    assert!(matches!(events[1], DetailedComponentEvent::Modified(1)));
    assert!(matches!(events[2], DetailedComponentEvent::Modified(1)));
    assert_eq!(s.get(1).copied(), Ok(12));
}

#[test]
fn mutable_access_is_flagged_as_modification() {
    let mut s: RemovalFlaggedStorage<u32, u32> = RemovalFlaggedStorage::new();
    let r = s.register_detailed_reader();
    s.insert(6, 60);
    *s.get_mut(6).unwrap() = 66;
    // a mutable access that writes nothing still counts
    let _ = s.get_mut(6).unwrap();
    assert_eq!(s.get(6).copied(), Ok(66));
    let events = s.read_detailed(&r).unwrap();
    assert_eq!(events.len(), 3);
    assert!(matches!(events[1], DetailedComponentEvent::Modified(6)));
    assert!(matches!(events[2], DetailedComponentEvent::Modified(6)));
    assert!(s.get_mut(9).is_err());
}

#[test]
fn vacant_access_fails_with_no_such_component() {
    let mut s: RemovalFlaggedStorage<u32, u32> = RemovalFlaggedStorage::new();
    assert_eq!(s.get(9).copied(), Err(ProtocolError::NoSuchComponent));
    assert_eq!(s.remove(9), Err(ProtocolError::NoSuchComponent));
    assert_eq!(s.replace(9, 1), Err(ProtocolError::NoSuchComponent));
}

#[test]
fn collider_removal_projects_the_handle() {
    let mut s: RemovalFlaggedStorage<Collider, Option<u64>> = RemovalFlaggedStorage::new();
    let r = s.register_detailed_reader();
    let c = Collider::new(
        Shape::Ball(5_000),
        CollisionGroups { membership: 2, whitelist: 1 },
        QueryKind::Contacts,
    );
    s.insert(4, c);
    // never synchronized: payload is None
    let gone = s.remove(4).unwrap();
    assert!(gone.handle.is_none());
    // synchronized collider: payload carries the handle
    let mut c2 = c;
    c2.handle = Some(42);
    s.insert(4, c2);
    s.remove(4).unwrap();
    let events = s.read_detailed(&r).unwrap();
    assert_eq!(events.len(), 4);
    assert!(matches!(events[1], DetailedComponentEvent::Removed(4, None)));
    assert!(matches!(events[3], DetailedComponentEvent::Removed(4, Some(42))));
}

#[test]
fn ids_lists_occupied_slots_in_increasing_order() {
    let mut s: RemovalFlaggedStorage<u32, u32> = RemovalFlaggedStorage::new();
    s.insert(8, 1);
    s.insert(2, 2);
    s.insert(5, 3);
    s.remove(5).unwrap();
    assert_eq!(s.ids(), vec![2, 8]);
}
