use falldown::Entity;
use falldown::ProtocolError;
use falldown::falldown::{
    QueryKind, Shape, Transform, enemy_collision_group, player_collision_group,
};
use falldown::world::{ContactEvent, EntityCollisionWorld};

fn e(index: u32) -> Entity {
    Entity { index, generation: 0 }
}

#[test]
fn contact_starts_exactly_at_touching_distance() {
    // radii 15000 + 5000: touching iff squared distance <= 20000^2
    let mut w = EntityCollisionWorld::new();
    let h1 = w.add(
        Transform::at(0, 0, 0),
        Shape::Ball(15_000),
        player_collision_group(),
        QueryKind::Contacts,
        e(1),
    );
    let h2 = w.add(
        Transform::at(20_000, 0, 0),
        Shape::Ball(5_000),
        enemy_collision_group(),
        QueryKind::Contacts,
        e(2),
    );
    w.update();
    assert_eq!(w.contact_events().as_slice(), &[ContactEvent::Started(h1, h2)]);
    // one milli-unit farther: the contact stops
    w.set_position(h2, Transform::at(20_001, 0, 0)).unwrap();
    w.update();
    assert_eq!(w.contact_events().as_slice(), &[ContactEvent::Stopped(h1, h2)]);
    // no transition while apart
    w.update();
    assert!(w.contact_events().is_empty());
}

#[test]
fn contact_is_emitted_once_per_transition() {
    let mut w = EntityCollisionWorld::new();
    let h1 = w.add(
        Transform::at(0, 0, 0),
        Shape::Ball(15_000),
        player_collision_group(),
        QueryKind::Contacts,
        e(1),
    );
    let h2 = w.add(
        Transform::at(1_000, 0, 0),
        Shape::Ball(5_000),
        enemy_collision_group(),
        QueryKind::Contacts,
        e(2),
    );
    w.update();
    assert_eq!(w.contact_events().len(), 1);
    w.update();
    // still overlapping: no new transition
    assert!(w.contact_events().is_empty());
    let _ = (h1, h2);
}

#[test]
fn non_interacting_groups_never_touch() {
    let mut w = EntityCollisionWorld::new();
    // two enemies at the same spot: their groups do not whitelist each other
    w.add(
        Transform::at(0, 0, 0),
        Shape::Ball(5_000),
        enemy_collision_group(),
        QueryKind::Contacts,
        e(1),
    );
    w.add(
        Transform::at(0, 0, 0),
        Shape::Ball(5_000),
        enemy_collision_group(),
        QueryKind::Contacts,
        e(2),
    );
    w.update();
    assert!(w.contact_events().is_empty());
}

#[test]
fn batch_removal_drops_entries_and_stops_their_contacts() {
    let mut w = EntityCollisionWorld::new();
    let h1 = w.add(
        Transform::at(0, 0, 0),
        Shape::Ball(15_000),
        player_collision_group(),
        QueryKind::Contacts,
        e(1),
    );
    let h2 = w.add(
        Transform::at(0, 0, 0),
        Shape::Ball(5_000),
        enemy_collision_group(),
        QueryKind::Contacts,
        e(2),
    );
    w.update();
    assert_eq!(w.contact_events().len(), 1);
    w.remove(&vec![h2]);
    assert!(w.owner_of(h2).is_none());
    assert_eq!(w.owner_of(h1), Some(e(1)));
    w.update();
    assert_eq!(w.contact_events().as_slice(), &[ContactEvent::Stopped(h1, h2)]);
}

#[test]
fn addressing_a_missing_entry_fails_fast() {
    let mut w = EntityCollisionWorld::new();
    assert_eq!(
        w.set_position(99, Transform::at(0, 0, 0)),
        Err(ProtocolError::NoSuchHandle)
    );
    assert!(w.owner_of(99).is_none());
}
