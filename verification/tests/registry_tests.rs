use falldown::ProtocolError;
use falldown::registry::EntityRegistry;

#[test]
fn recycled_slots_get_a_new_generation() {
    let mut reg = EntityRegistry::new();
    let a = reg.create();
    assert_eq!(a.index, 0);
    assert_eq!(a.generation, 0);
    assert!(reg.is_alive(a));
    reg.delete(a).unwrap();
    assert!(!reg.is_alive(a));
    let b = reg.create();
    assert_eq!(b.index, 0);
    assert_eq!(b.generation, 1);
    assert!(reg.is_alive(b));
    // the stale identifier does not pass for the new occupant
    assert!(!reg.is_alive(a));
}

#[test]
fn deleting_a_gone_entity_fails_fast() {
    let mut reg = EntityRegistry::new();
    let a = reg.create();
    reg.delete(a).unwrap();
    assert_eq!(reg.delete(a), Err(ProtocolError::InvalidEntity));
}

#[test]
fn spawner_cadence_is_exact() {
    let mut sp = falldown::falldown::Spawner::new(100);
    assert_eq!(sp.spawn_countdown, 100);
    assert_eq!(sp.remaining, 100);
    assert!(!sp.advance_and_reset(30));
    assert_eq!(sp.spawn_countdown, 70);
    assert!(sp.advance_and_reset(70));
    assert_eq!(sp.spawn_countdown, 100);
    assert!(sp.advance_and_reset(250));
    assert_eq!(sp.spawn_countdown, 100);
}

#[test]
fn plus_or_minus_flips_only_the_sign() {
    for _ in 0..32 {
        let v = falldown::util::plus_or_minus(5);
        assert!(v == 5 || v == -5);
    }
}
