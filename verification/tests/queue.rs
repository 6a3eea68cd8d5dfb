use dont_need_stability::db::record::RecordClass;
use dont_need_stability::db::{Database, InMemoryDatabase, RecordData, ResourceRecord, Zone};
use dont_need_stability::dispatcher::{next, process_packet, Event, State};
use dont_need_stability::queue::PacketQueue;
use dont_need_stability::wire::{encode, Header, Message, OpCode, Question, ResponseCode};

#[test]
fn queue_gives_items_back_in_the_order_they_came() {
    let mut q = PacketQueue::new(3);
    assert!(q.is_empty());
    assert_eq!(q.capacity(), 3);
    assert!(q.offer(1));
    assert!(q.offer(2));
    assert_eq!(q.len(), 2);
    assert_eq!(q.take(), Some(1));
    assert!(q.offer(3));
    assert!(q.offer(4));
    assert_eq!(q.take(), Some(2));
    assert_eq!(q.take(), Some(3));
    assert_eq!(q.take(), Some(4));
    assert_eq!(q.take(), None);
    assert!(q.is_empty());
    assert_eq!(q.dropped(), 0);
}

#[test]
fn full_queue_drops_the_newest_and_counts_it() {
    let mut q = PacketQueue::new(2);
    assert!(q.offer("a"));
    assert!(q.offer("b"));
    assert!(!q.offer("c"));
    assert!(!q.offer("d"));
    assert_eq!(q.dropped(), 2);
    assert_eq!(q.len(), 2);
    assert_eq!(q.take(), Some("a"));
    assert!(q.offer("e"));
    assert_eq!(q.dropped(), 2);
    assert_eq!(q.take(), Some("b"));
    assert_eq!(q.take(), Some("e"));
    assert_eq!(q.take(), None);
}

#[test]
fn queue_without_room_drops_everything() {
    let mut q = PacketQueue::new(0);
    assert!(!q.offer(1u8));
    assert_eq!(q.take(), None);
    assert_eq!(q.dropped(), 1);
}

fn store() -> InMemoryDatabase {
    let mut db = InMemoryDatabase::new();
    db.add_zone(Zone {
        origin: "example.com.".to_string(),
        ttl: 7200,
        records: vec![ResourceRecord {
            name: "example.com.".to_string(),
            ttl: 7200,
            class: RecordClass::IN,
            data: RecordData::A([192, 0, 2, 1]),
        }],
    })
    .unwrap();
    db
}

fn query(questions: Vec<Question>) -> Vec<u8> {
    encode(&Message {
        header: Header {
            id: 21,
            response: false,
            opcode: OpCode::Query,
            authoritative: false,
            truncated: false,
            recursion_desired: false,
            recursion_available: false,
            rcode: ResponseCode::NoError,
        },
        questions,
        answers: vec![],
        authority: vec![],
        additional: vec![],
    })
    .unwrap()
}

fn a_query() -> Vec<u8> {
    query(vec![Question { name: "example.com.".to_string(), qtype: 1, qclass: 1 }])
}

#[test]
fn worker_goes_from_datagram_to_reply() {
    let db = store();
    let mut state = next(&db, State::Idle, Event::Start, 60);
    assert_eq!(state, State::Receiving);
    state = next(&db, state, Event::Datagram(a_query()), 60);
    assert_eq!(state, State::Decoding(a_query()));
    state = next(&db, state, Event::Step, 60);
    assert!(matches!(state, State::Resolving(_)));
    state = next(&db, state, Event::Step, 60);
    assert!(matches!(state, State::Encoding(_)));
    state = next(&db, state, Event::Step, 60);
    assert_eq!(state, State::Sending(process_packet(&db, &a_query(), 60).unwrap()));
    state = next(&db, state, Event::Sent, 60);
    assert_eq!(state, State::Receiving);
}

#[test]
fn worker_drops_what_is_no_message() {
    let db = store();
    let state = next(&db, State::Decoding(vec![1, 2, 3]), Event::Step, 60);
    assert_eq!(state, State::Receiving);
}

#[test]
fn worker_drops_a_message_without_question() {
    let db = store();
    let state = next(&db, State::Decoding(query(vec![])), Event::Step, 60);
    assert!(matches!(state, State::Resolving(_)));
    assert_eq!(next(&db, state, Event::Step, 60), State::Receiving);
}

#[test]
fn shutdown_stops_the_worker_in_every_state() {
    let db = store();
    let states = [
        State::Idle,
        State::Receiving,
        State::Decoding(a_query()),
        State::Sending(vec![1]),
        State::Stopped,
    ];
    for s in states {
        assert_eq!(next(&db, s, Event::Shutdown, 60), State::Stopped);
    }
}

#[test]
fn stopped_worker_stays_stopped() {
    let db = store();
    for e in [Event::Start, Event::Datagram(a_query()), Event::Step, Event::Sent, Event::Shutdown] {
        assert_eq!(next(&db, State::Stopped, e, 60), State::Stopped);
    }
}

#[test]
fn events_that_a_state_does_not_wait_for_leave_it_as_it_is() {
    let db = store();
    assert_eq!(next(&db, State::Idle, Event::Datagram(a_query()), 60), State::Idle);
    assert_eq!(next(&db, State::Idle, Event::Step, 60), State::Idle);
    assert_eq!(next(&db, State::Receiving, Event::Start, 60), State::Receiving);
    assert_eq!(next(&db, State::Receiving, Event::Step, 60), State::Receiving);
    assert_eq!(next(&db, State::Receiving, Event::Sent, 60), State::Receiving);
    assert_eq!(next(&db, State::Sending(vec![7]), Event::Step, 60), State::Sending(vec![7]));
    assert_eq!(
        next(&db, State::Sending(vec![7]), Event::Datagram(a_query()), 60),
        State::Sending(vec![7])
    );
    assert_eq!(
        next(&db, State::Decoding(a_query()), Event::Sent, 60),
        State::Decoding(a_query())
    );
}
