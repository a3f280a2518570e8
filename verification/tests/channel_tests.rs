use falldown::ProtocolError;
use falldown::channel::{EventChannel, ReaderId};

#[test]
fn reader_sees_only_events_after_registration() {
    let mut ch: EventChannel<u32> = EventChannel::new();
    ch.single_write(1);
    let r = ch.register_reader();
    ch.single_write(2);
    ch.single_write(3);
    let got = ch.read(&r).unwrap();
    assert_eq!(got, vec![2, 3]);
}

#[test]
fn no_event_delivered_twice_and_none_skipped() {
    let mut ch: EventChannel<u32> = EventChannel::new();
    let r = ch.register_reader();
    ch.single_write(10);
    ch.single_write(20);
    assert_eq!(ch.read(&r).unwrap(), vec![10, 20]);
    assert_eq!(ch.read(&r).unwrap(), Vec::<u32>::new());
    ch.single_write(30);
    assert_eq!(ch.read(&r).unwrap(), vec![30]);
}

#[test]
fn multi_reader_independence() {
    let mut ch: EventChannel<u32> = EventChannel::new();
    let r1 = ch.register_reader();
    ch.single_write(1);
    ch.single_write(2);
    let r2 = ch.register_reader();
    ch.single_write(3);
    // r2 consumes fast, r1 slowly; each sees exactly its own suffix once.
    assert_eq!(ch.read(&r2).unwrap(), vec![3]);
    ch.single_write(4);
    assert_eq!(ch.read(&r2).unwrap(), vec![4]);
    assert_eq!(ch.read(&r1).unwrap(), vec![1, 2, 3, 4]);
    assert_eq!(ch.read(&r1).unwrap(), Vec::<u32>::new());
    assert_eq!(ch.read(&r2).unwrap(), Vec::<u32>::new());
}

#[test]
fn unregistered_cursor_fails_fast() {
    let mut ch: EventChannel<u32> = EventChannel::new();
    ch.single_write(1);
    let bogus = ReaderId { id: 7 };
    assert_eq!(ch.read(&bogus), Err(ProtocolError::NoSuchReader));
}
