use nsqd_core::guid::{guid_to_hex, Guid, GuidError, GuidFactory};

#[test]
fn test_guid_generation() {
    let mut factory = GuidFactory::new(1);

    let guid1 = factory.new_guid().unwrap();
    let guid2 = factory.new_guid().unwrap();

    assert!(guid2 > guid1);
}

#[test]
fn test_guid_to_hex() {
    let guid: Guid = 1234567890;
    let hex = guid_to_hex(guid);
    assert_eq!(hex, *b"00000000499602d2");
}

#[test]
fn guid_time_backwards_is_refused() {
    let mut factory = GuidFactory::new(1);
    let later: u128 = 1_700_000_000_000_000_000;
    assert!(factory.next_guid_at(later).is_ok());
    assert_eq!(factory.next_guid_at(later - (1 << 21)), Err(GuidError::TimeBackwards));
}

#[test]
fn guid_sequence_runs_out_within_one_tick() {
    let mut factory = GuidFactory::new(3);
    let now: u128 = 1_700_000_000_000_000_000;
    let first = factory.next_guid_at(now).unwrap();
    let mut last = first;
    for _ in 1..4096 {
        let id = factory.next_guid_at(now).unwrap();
        assert_eq!(id, last + 1);
        last = id;
    }
    assert_eq!(factory.next_guid_at(now), Err(GuidError::SequenceExpired));
    // the sequence has wrapped: within the same tick nothing above the last is left
    assert_eq!(factory.next_guid_at(now), Err(GuidError::IDBackwards));
    // the next tick starts a new sequence
    let next = factory.next_guid_at(now + (1 << 20)).unwrap();
    assert!(next > last);
}

#[test]
fn guid_layout() {
    let mut factory = GuidFactory::new(5);
    // tick 1288834974288 + 1, node 5, sequence 0
    let nanos: u128 = (1288834974288u128 + 1) << 20;
    assert_eq!(factory.next_guid_at(nanos), Ok((1 << 22) | (5 << 12)));
    assert_eq!(factory.next_guid_at(nanos), Ok((1 << 22) | (5 << 12) | 1));
    assert_eq!(guid_to_hex((1 << 22) | (5 << 12) | 1), *b"0000000000405001");
    assert_eq!(guid_to_hex(-1), *b"ffffffffffffffff");
}

#[test]
fn guid_without_a_clock_reading() {
    let mut factory = GuidFactory::new(1);
    let now: u128 = 1_700_000_000_000_000_000;
    let first = factory.next_guid_for(Some(now)).unwrap();
    // a clock that reads earlier than the epoch counts as time gone backwards
    assert_eq!(factory.next_guid_for(None), Err(GuidError::TimeBackwards));
    // and changes nothing: the sequence goes on where it was
    assert_eq!(factory.next_guid_for(Some(now)), Ok(first + 1));
}

#[test]
fn clock_reading_as_a_time() {
    assert_eq!(nsqd_core::clock::nanos_or_epoch(Some(17)), 17);
    assert_eq!(nsqd_core::clock::nanos_or_epoch(Some(u128::MAX)), u128::MAX);
    assert_eq!(nsqd_core::clock::nanos_or_epoch(None), 0);
}
