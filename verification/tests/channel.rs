use bytes::Bytes;
use nsqd_core::channel::Channel;
use nsqd_core::client_v2::{Client, ClientV2, State};
use nsqd_core::errors::NsqError;
use nsqd_core::message::{Message, MessageID};
use nsqd_core::options::Options;

const MS: u128 = 1_000_000;

fn opts(capacity: usize, max_consumers: usize) -> Options {
    let mut o = Options::new();
    o.mem_queue_size = capacity;
    o.max_channel_subscribers = max_consumers;
    o.msg_timeout = 1000;
    o
}

fn id(n: u8) -> MessageID {
    let mut id = *b"000000000000000a";
    id[15] = b'a' + n;
    id
}

fn msg(n: u8) -> Message {
    Message::new_at(id(n), Bytes::from(vec![n; 3]), 42)
}

fn subscriber(cid: i64) -> Client {
    let mut c = ClientV2::new(cid, "127.0.0.1:5000".to_string(), &Options::new(), 0);
    c.subscribe().unwrap();
    Client::V2(c)
}

fn channel_with_ready_consumer(capacity: usize, cid: i64, credit: u64) -> Channel {
    let mut ch = Channel::new("chan".to_string(), &opts(capacity, 8));
    ch.add_client(subscriber(cid)).unwrap();
    ch.set_ready(cid, credit).unwrap();
    ch
}

fn fatal_code(e: NsqError) -> String {
    match e {
        NsqError::FatalClientErr(code, _) => code,
        other => panic!("not a fatal client error: {:?}", other),
    }
}

#[test]
fn test_multi() {
    let mut ch = Channel::new("chan".to_string(), &opts(4, 2));
    ch.add_client(subscriber(1)).unwrap();
    ch.add_client(subscriber(2)).unwrap();
    assert_eq!(ch.client_count(), 2);
}

#[test]
fn add_client_up_to_the_limit() {
    let mut ch = Channel::new("chan".to_string(), &opts(4, 3));
    for cid in 1..=3 {
        assert!(ch.add_client(subscriber(cid)).is_ok());
    }
    assert_eq!(ch.client_count(), 3);
    assert!(matches!(ch.add_client(subscriber(4)), Err(NsqError::MaxSubscriberReached(3))));
    assert_eq!(ch.client_count(), 3);
    assert!(!ch.has_client(4));
    // attached already: taken again, nothing changes, even at the limit
    assert!(ch.add_client(subscriber(2)).is_ok());
    assert_eq!(ch.client_count(), 3);
}

#[test]
fn add_client_keeps_the_first_registration() {
    let mut ch = channel_with_ready_consumer(4, 1, 5);
    ch.add_client(subscriber(1)).unwrap();
    ch.put_message_at(msg(0), 0).unwrap();
    // the credit stated before the second attach is still there
    assert!(ch.pop_ready_message_at(1, 0).is_some());
}

#[test]
fn add_client_with_no_room_at_all() {
    let mut ch = Channel::new("chan".to_string(), &opts(4, 0));
    assert!(matches!(ch.add_client(subscriber(1)), Err(NsqError::MaxSubscriberReached(0))));
}

#[test]
fn put_then_pop_returns_the_message() {
    let mut ch = channel_with_ready_consumer(4, 1, 1);
    let m = msg(0);
    ch.put_message_at(m.clone(), 10).unwrap();
    let got = ch.pop_ready_message_at(1, 20).unwrap();
    assert_eq!(got.id(), m.id());
    assert_eq!(got.body(), m.body());
    assert_eq!(got.timestamp(), 42);
    assert_eq!(got.attempts(), 0);
    assert_eq!(got.client_id(), Some(1));
    assert_eq!(got.delivery_ts(), Some(20));
    assert_eq!(got.pri(), 20 + 1000 * MS);
    assert!(ch.is_in_flight(&m.id()));
    assert_eq!(ch.depth(), 0);
    assert_eq!(ch.msg_count(), 1);
}

#[test]
fn pop_is_first_in_first_out() {
    let mut ch = channel_with_ready_consumer(4, 1, 3);
    for n in 0..3 {
        ch.put_message_at(msg(n), 0).unwrap();
    }
    for n in 0..3 {
        assert_eq!(ch.pop_ready_message_at(1, 0).unwrap().id(), id(n));
    }
    assert!(ch.pop_ready_message_at(1, 0).is_none());
}

#[test]
fn pop_needs_credit_and_a_subscription() {
    let mut ch = channel_with_ready_consumer(4, 1, 1);
    ch.put_message_at(msg(0), 0).unwrap();
    ch.put_message_at(msg(1), 0).unwrap();
    // not attached
    assert!(ch.pop_ready_message_at(9, 0).is_none());
    assert!(ch.pop_ready_message_at(1, 0).is_some());
    // the one credit is used up
    assert!(ch.pop_ready_message_at(1, 0).is_none());
    assert_eq!(ch.depth(), 1);
    ch.set_ready(1, 1).unwrap();
    assert!(ch.pop_ready_message_at(1, 0).is_some());
    // a connection that never subscribed gets no credit
    let mut ch = Channel::new("chan".to_string(), &opts(4, 2));
    ch.add_client(Client::V2(ClientV2::new(5, "a".to_string(), &Options::new(), 0))).unwrap();
    assert_eq!(fatal_code(ch.set_ready(5, 1).unwrap_err()), "E_INVALID");
    assert_eq!(fatal_code(ch.set_ready(6, 1).unwrap_err()), "E_INVALID");
}

#[test]
fn any_ready_count_is_taken() {
    let mut ch = channel_with_ready_consumer(4, 1, 1);
    ch.set_ready(1, u64::MAX).unwrap();
    ch.put_message_at(msg(0), 0).unwrap();
    assert!(ch.pop_ready_message_at(1, 0).is_some());
    ch.set_ready(1, 0).unwrap();
    ch.put_message_at(msg(1), 0).unwrap();
    assert!(ch.pop_ready_message_at(1, 0).is_none());
}

#[test]
fn touch_by_another_is_an_error_whatever_the_clock_reads() {
    let mut ch = channel_with_ready_consumer(4, 1, 1);
    ch.put_message_at(msg(0), 0).unwrap();
    ch.pop_ready_message_at(1, 0).unwrap();
    assert_eq!(fatal_code(ch.touch(id(0), 2).unwrap_err()), "E_TOUCH_FAILED");
    assert_eq!(fatal_code(ch.touch(id(1), 1).unwrap_err()), "E_TOUCH_FAILED");
    assert!(ch.touch(id(0), 1).is_ok());
}

#[test]
fn length_of_the_stored_form() {
    assert_eq!(msg(0).checked_len(), Some(29));
    assert_eq!(msg(0).len(), 29);
    assert_eq!(Message::new_at(id(0), Bytes::new(), 0).checked_len(), Some(26));
}

#[test]
fn put_refuses_a_known_identifier() {
    let mut ch = channel_with_ready_consumer(4, 1, 1);
    ch.put_message_at(msg(0), 0).unwrap();
    assert_eq!(fatal_code(ch.put_message_at(msg(0), 0).unwrap_err()), "E_INVALID");
    ch.pop_ready_message_at(1, 0).unwrap();
    // in flight now: still known
    assert_eq!(fatal_code(ch.put_message_at(msg(0), 0).unwrap_err()), "E_INVALID");
    assert_eq!(fatal_code(ch.put_message_at(msg(0).defer(5), 0).unwrap_err()), "E_INVALID");
    ch.put_message_at(msg(1).defer(5), 0).unwrap();
    assert_eq!(fatal_code(ch.put_message_at(msg(1), 0).unwrap_err()), "E_INVALID");
    assert_eq!(ch.depth(), 0);
    assert_eq!(ch.deferred_count(), 1);
}

#[test]
fn put_hands_the_message_back_when_the_buffer_is_full() {
    let mut ch = Channel::new("chan".to_string(), &opts(2, 2));
    ch.put_message_at(msg(0), 0).unwrap();
    ch.put_message_at(msg(1), 0).unwrap();
    match ch.put_message_at(msg(2), 0) {
        Err(NsqError::AsyncChannelSendError(back)) => assert_eq!(back.id(), id(2)),
        other => panic!("unexpected: {:?}", other),
    }
    assert_eq!(ch.depth(), 2);
}

#[test]
fn deferred_message_waits_for_its_time() {
    let mut ch = channel_with_ready_consumer(4, 1, 10);
    let t0: u128 = 1_000 * MS;
    ch.put_message_at(msg(0).defer(50), t0).unwrap();
    assert_eq!(ch.deferred_count(), 1);
    assert!(ch.pop_ready_message_at(1, t0).is_none());
    assert!(ch.pop_ready_message_at(1, t0 + 50 * MS - 1).is_none());
    assert_eq!(ch.deferred_count(), 1);
    // exactly at the deadline
    let got = ch.pop_ready_message_at(1, t0 + 50 * MS).unwrap();
    assert_eq!(got.id(), id(0));
    assert_eq!(ch.deferred_count(), 0);
}

#[test]
fn deferred_messages_come_in_order_of_their_deadlines() {
    let mut ch = channel_with_ready_consumer(8, 1, 10);
    ch.put_message_at(msg(0).defer(30), 0).unwrap();
    ch.put_message_at(msg(1).defer(10), 0).unwrap();
    ch.put_message_at(msg(2).defer(20), 0).unwrap();
    ch.put_message_at(msg(3).defer(10), 0).unwrap();
    assert!(ch.pop_ready_message_at(1, 9 * MS).is_none());
    assert_eq!(ch.pop_ready_message_at(1, 25 * MS).unwrap().id(), id(1));
    assert_eq!(ch.pop_ready_message_at(1, 25 * MS).unwrap().id(), id(3));
    assert_eq!(ch.pop_ready_message_at(1, 25 * MS).unwrap().id(), id(2));
    assert!(ch.pop_ready_message_at(1, 25 * MS).is_none());
    assert_eq!(ch.pop_ready_message_at(1, 30 * MS).unwrap().id(), id(0));
}

#[test]
fn defer_time_too_large_is_refused() {
    let mut ch = Channel::new("chan".to_string(), &opts(4, 2));
    let r = ch.put_message_at(msg(0).defer(1), u128::MAX);
    match r {
        Err(NsqError::FatalClientErr(code, desc)) => {
            assert_eq!(code, "E_INVALID");
            assert_eq!(desc, "The defer time is too large");
        }
        other => panic!("unexpected: {:?}", other),
    }
    assert_eq!(ch.deferred_count(), 0);
}

#[test]
fn push_and_pop_deferred() {
    let mut ch = Channel::new("chan".to_string(), &opts(4, 2));
    ch.push_defered_msg_at(msg(0).defer(7), 100).unwrap();
    ch.push_defered_msg_at(msg(1), 50).unwrap();
    assert!(ch.pop_defered_msg(49).is_none());
    assert_eq!(ch.pop_defered_msg(50).unwrap().id(), id(1));
    assert!(ch.pop_defered_msg(100 + 7 * MS - 1).is_none());
    assert_eq!(ch.pop_defered_msg(100 + 7 * MS).unwrap().id(), id(0));
    assert!(ch.pop_defered_msg(u128::MAX).is_none());
}

#[test]
fn finish_by_the_holder_takes_the_message_out() {
    let mut ch = channel_with_ready_consumer(4, 1, 2);
    ch.put_message_at(msg(0), 0).unwrap();
    ch.put_message_at(msg(1), 0).unwrap();
    ch.pop_ready_message_at(1, 0).unwrap();
    ch.pop_ready_message_at(1, 0).unwrap();
    assert!(ch.finish(id(0), 1).is_ok());
    assert!(!ch.is_in_flight(&id(0)));
    assert!(ch.is_in_flight(&id(1)));
    assert_eq!(ch.in_flight_count(), 1);
}

#[test]
fn finish_by_another_is_an_error_and_changes_nothing() {
    let mut ch = channel_with_ready_consumer(4, 1, 2);
    ch.add_client(subscriber(2)).unwrap();
    ch.put_message_at(msg(0), 0).unwrap();
    ch.pop_ready_message_at(1, 0).unwrap();
    assert_eq!(fatal_code(ch.finish(id(0), 2).unwrap_err()), "E_FIN_FAILED");
    assert_eq!(fatal_code(ch.finish(id(5), 1).unwrap_err()), "E_FIN_FAILED");
    assert!(ch.is_in_flight(&id(0)));
    assert_eq!(ch.in_flight_count(), 1);
    // and once finished, a second FIN is an error too
    ch.finish(id(0), 1).unwrap();
    assert_eq!(fatal_code(ch.finish(id(0), 1).unwrap_err()), "E_FIN_FAILED");
}

#[test]
fn requeue_without_delay_is_ready_again() {
    let mut ch = channel_with_ready_consumer(4, 1, 2);
    ch.put_message_at(msg(0), 0).unwrap();
    ch.pop_ready_message_at(1, 0).unwrap();
    ch.requeue_at(id(0), 1, 0, 5).unwrap();
    assert_eq!(ch.in_flight_count(), 0);
    assert_eq!(ch.depth(), 1);
    assert_eq!(ch.requeue_count(), 1);
    let again = ch.pop_ready_message_at(1, 6).unwrap();
    assert_eq!(again.id(), id(0));
    assert_eq!(again.attempts(), 1);
    assert_eq!(&again.body()[..], &[0u8, 0, 0]);
}

#[test]
fn requeue_with_delay_waits() {
    let mut ch = channel_with_ready_consumer(4, 1, 2);
    ch.put_message_at(msg(0), 0).unwrap();
    ch.pop_ready_message_at(1, 0).unwrap();
    ch.requeue_at(id(0), 1, 20, 1000).unwrap();
    assert_eq!(ch.deferred_count(), 1);
    assert!(ch.pop_ready_message_at(1, 1000 + 20 * MS - 1).is_none());
    assert_eq!(ch.pop_ready_message_at(1, 1000 + 20 * MS).unwrap().id(), id(0));
}

#[test]
fn requeue_by_another_is_an_error() {
    let mut ch = channel_with_ready_consumer(4, 1, 2);
    ch.put_message_at(msg(0), 0).unwrap();
    ch.pop_ready_message_at(1, 0).unwrap();
    assert_eq!(fatal_code(ch.requeue_at(id(0), 2, 0, 0).unwrap_err()), "E_REQ_FAILED");
    assert_eq!(fatal_code(ch.requeue_at(id(0), 1, 1, u128::MAX).unwrap_err()), "E_INVALID");
    assert!(ch.is_in_flight(&id(0)));
}

#[test]
fn requeue_into_a_full_buffer_hands_the_message_back() {
    let mut ch = channel_with_ready_consumer(1, 1, 2);
    ch.put_message_at(msg(0), 0).unwrap();
    ch.pop_ready_message_at(1, 0).unwrap();
    ch.put_message_at(msg(1), 0).unwrap();
    match ch.requeue_at(id(0), 1, 0, 0) {
        Err(NsqError::AsyncChannelSendError(back)) => {
            assert_eq!(back.id(), id(0));
            assert_eq!(back.attempts(), 1);
        }
        other => panic!("unexpected: {:?}", other),
    }
    assert_eq!(ch.in_flight_count(), 0);
    assert_eq!(ch.depth(), 1);
}

#[test]
fn touch_moves_the_timeout() {
    let mut ch = channel_with_ready_consumer(4, 1, 2);
    ch.put_message_at(msg(0), 0).unwrap();
    ch.pop_ready_message_at(1, 0).unwrap();
    // due at 1000 ms; touched at 900 ms it is due at 1900 ms
    ch.touch_at(id(0), 1, 900 * MS).unwrap();
    assert!(ch.sweep_at(1000 * MS).is_empty());
    assert!(ch.is_in_flight(&id(0)));
    ch.sweep_at(1900 * MS);
    assert!(!ch.is_in_flight(&id(0)));
    assert_eq!(fatal_code(ch.touch_at(id(0), 1, 0).unwrap_err()), "E_TOUCH_FAILED");
}

#[test]
fn sweep_requeues_what_has_timed_out() {
    let mut ch = channel_with_ready_consumer(4, 1, 3);
    for n in 0..3 {
        ch.put_message_at(msg(n), 0).unwrap();
    }
    ch.pop_ready_message_at(1, 0).unwrap();
    ch.pop_ready_message_at(1, 500 * MS).unwrap();
    ch.pop_ready_message_at(1, 0).unwrap();
    assert!(ch.sweep_at(1000 * MS - 1).is_empty());
    assert_eq!(ch.in_flight_count(), 3);
    assert!(ch.sweep_at(1000 * MS).is_empty());
    assert_eq!(ch.in_flight_count(), 1);
    assert!(ch.is_in_flight(&id(1)));
    assert_eq!(ch.depth(), 2);
    assert_eq!(ch.timeout_count(), 2);
    // each once only: a second sweep finds nothing
    ch.sweep_at(1000 * MS);
    assert_eq!(ch.timeout_count(), 2);
    ch.set_ready(1, 2).unwrap();
    let a = ch.pop_ready_message_at(1, 1000 * MS).unwrap();
    let b = ch.pop_ready_message_at(1, 1000 * MS).unwrap();
    assert_eq!((a.id(), a.attempts()), (id(0), 1));
    assert_eq!((b.id(), b.attempts()), (id(2), 1));
    // a FIN that comes after the timeout finds nothing
    ch.sweep_at(u128::MAX);
    assert_eq!(fatal_code(ch.finish(id(1), 1).unwrap_err()), "E_FIN_FAILED");
}

#[test]
fn sweep_spills_when_the_buffer_is_full() {
    let mut ch = channel_with_ready_consumer(1, 1, 3);
    ch.put_message_at(msg(0), 0).unwrap();
    ch.pop_ready_message_at(1, 0).unwrap();
    ch.put_message_at(msg(1), 0).unwrap();
    ch.pop_ready_message_at(1, 0).unwrap();
    let spilled = ch.sweep_at(u128::MAX);
    assert_eq!(spilled.len(), 1);
    assert_eq!(spilled[0].id(), id(1));
    assert_eq!(ch.depth(), 1);
    assert_eq!(ch.in_flight_count(), 0);
}

#[test]
fn a_leaving_consumer_gives_its_messages_back() {
    let mut ch = channel_with_ready_consumer(4, 1, 2);
    ch.add_client(subscriber(2)).unwrap();
    ch.set_ready(2, 1).unwrap();
    for n in 0..3 {
        ch.put_message_at(msg(n), 0).unwrap();
    }
    ch.pop_ready_message_at(1, 0).unwrap();
    ch.pop_ready_message_at(2, 0).unwrap();
    ch.pop_ready_message_at(1, 0).unwrap();
    assert!(ch.remove_client(1).is_empty());
    assert!(!ch.has_client(1));
    assert!(ch.has_client(2));
    assert_eq!(ch.depth(), 2);
    assert_eq!(ch.in_flight_count(), 1);
    assert!(ch.is_in_flight(&id(1)));
    ch.set_ready(2, 2).unwrap();
    assert_eq!(ch.pop_ready_message_at(2, 0).unwrap().id(), id(0));
    assert_eq!(ch.pop_ready_message_at(2, 0).unwrap().id(), id(2));
}

#[test]
fn exit_happens_once() {
    let mut ch = channel_with_ready_consumer(4, 1, 1);
    ch.put_message_at(msg(0), 0).unwrap();
    ch.put_message_at(msg(1), 0).unwrap();
    ch.put_message_at(msg(2).defer(5), 0).unwrap();
    ch.put_message_at(msg(3).defer(1), 0).unwrap();
    ch.pop_ready_message_at(1, 0).unwrap();
    let flushed = ch.exit(false).unwrap();
    let ids: Vec<MessageID> = flushed.iter().map(|m| m.id()).collect();
    assert_eq!(ids, vec![id(1), id(0), id(3), id(2)]);
    assert!(ch.exiting());
    assert_eq!(ch.depth() + ch.in_flight_count() + ch.deferred_count(), 0);
    assert!(matches!(ch.exit(false), Err(NsqError::Exiting)));
    assert!(matches!(ch.exit(true), Err(NsqError::Exiting)));
    assert!(matches!(ch.put_message_at(msg(4), 0), Err(NsqError::Exiting)));
    assert!(matches!(ch.add_client(subscriber(7)), Err(NsqError::Exiting)));
    // the consumers were told to close
    assert_eq!(fatal_code(ch.set_ready(1, 1).unwrap_err()), "E_INVALID");
    assert!(ch.close().is_empty());
}

#[test]
fn exit_of_a_deleted_channel_discards() {
    let mut ch = Channel::new("chan".to_string(), &opts(4, 2));
    ch.put_message_at(msg(0), 0).unwrap();
    assert!(ch.exit(true).unwrap().is_empty());
    assert_eq!(ch.depth(), 0);
}

#[test]
fn close_client_stops_delivery() {
    let mut ch = channel_with_ready_consumer(4, 1, 2);
    ch.put_message_at(msg(0), 0).unwrap();
    ch.put_message_at(msg(1), 0).unwrap();
    ch.pop_ready_message_at(1, 0).unwrap();
    ch.close_client(1).unwrap();
    assert!(ch.pop_ready_message_at(1, 0).is_none());
    // what it holds can still be answered for
    ch.finish(id(0), 1).unwrap();
    assert_eq!(fatal_code(ch.close_client(1).unwrap_err()), "E_INVALID");
}

#[test]
fn clock_variants_work() {
    let mut ch = channel_with_ready_consumer(4, 1, 2);
    ch.put_message(msg(0)).unwrap();
    let got = ch.pop_ready_message(1).unwrap();
    assert_eq!(got.id(), id(0));
    assert!(got.delivery_ts().unwrap() > 1_600_000_000 * 1_000_000_000);
    ch.touch(id(0), 1).unwrap();
    assert!(ch.sweep().is_empty());
    ch.requeue(id(0), 1, 0).unwrap();
    assert_eq!(ch.depth(), 1);
    ch.push_defered_msg(msg(1).defer(60_000)).unwrap();
    assert!(ch.pop_ready_message(1).is_some());
    assert!(ch.pop_ready_message(1).is_none());
    let m = Message::new(id(2), Bytes::new());
    assert!(m.timestamp() > 1_600_000_000 * 1_000_000_000);
    assert_eq!(
        ClientV2::new(1, "a".to_string(), &Options::new(), 0).state(),
        State::Init
    );
}
