use rmq_rpc::client::{prepare_call, start_call, uuid_string};
use rmq_rpc::pending::{Dispatch, PendingReplies};
use rmq_rpc::publish::{direct_reply_to_queue, MissingProperty, Publication};
use rmq_rpc::reply::{ReplyPoll, ReplySlot, ResolveAction};
use rmq_rpc::responder::AutoResponder;

fn random_id() -> [u8; 16] {
    *uuid::Uuid::new_v4().as_bytes()
}

fn is_uuid_v4_text(s: &str) -> bool {
    let chars: Vec<char> = s.chars().collect();
    if chars.len() != 36 {
        return false;
    }
    for (i, c) in chars.iter().enumerate() {
        let ok = if i == 8 || i == 13 || i == 18 || i == 23 {
            *c == '-'
        } else {
            c.is_ascii_digit() || ('a'..='f').contains(c)
        };
        if !ok {
            return false;
        }
    }
    chars[14] == '4' && matches!(chars[19], '8' | '9' | 'a' | 'b')
}

#[test]
fn message_sent() {
    let call = prepare_call("message_sent", "Hello".as_bytes().to_vec(), random_id());
    assert_eq!(String::from_utf8_lossy(&call.request.payload), "Hello".to_owned());
    assert_eq!(call.request.routing_key, "message_sent");
    assert_eq!(call.request.exchange, "");
}

#[test]
fn message_has_reply_to_queue() {
    let call = prepare_call("message_has_reply_to_queue", "Hello".as_bytes().to_vec(), random_id());
    assert!(call.request.reply_to.is_some());
    assert!(call
        .request
        .reply_to
        .clone()
        .unwrap()
        .contains("amq.rabbitmq.reply-to"));
}

#[test]
fn message_has_correlation_id() {
    let call = prepare_call("message_has_correlation_id", "Hello".as_bytes().to_vec(), random_id());
    assert!(call.request.correlation_id.is_some());
    assert_eq!(call.request.correlation_id, Some(call.correlation_id.clone()));
}

#[test]
fn returns_response() {
    let mut pending: PendingReplies<u32> = PendingReplies::new();
    let mut slot: ReplySlot<Vec<u8>, u32> = ReplySlot::new();

    let call = prepare_call("returns_response", "Ping".as_bytes().to_vec(), random_id());
    pending.register(call.correlation_id.clone(), 7);
    assert!(matches!(slot.poll(1), ReplyPoll::Pending));

    let mut server: AutoResponder<Vec<u8>> = AutoResponder::new(true, "Pong".as_bytes().to_vec());
    let reply = server
        .on_delivery(
            call.request.payload.clone(),
            call.request.reply_to.clone(),
            call.request.correlation_id.clone(),
        )
        .unwrap()
        .unwrap();
    assert_eq!(reply.routing_key, "amq.rabbitmq.reply-to");

    let waiting = match pending.dispatch(reply.correlation_id.clone()) {
        Dispatch::Resolve(r) => r,
        _ => panic!("the reply did not reach its call"),
    };
    assert_eq!(waiting, 7);
    assert!(matches!(slot.resolve(reply.payload.clone()), ResolveAction::Wake(1)));
    let got = match slot.poll(2) {
        ReplyPoll::Ready(v) => Some(v),
        ReplyPoll::Pending => None,
    };
    assert!(got.is_some());
    assert_eq!(String::from_utf8_lossy(&got.unwrap()).to_string(), "Pong");
}

#[test]
fn resolves_to_specified_result() {
    let mut reply: ReplySlot<String, u32> = ReplySlot::new();
    assert!(matches!(reply.poll(1), ReplyPoll::Pending));
    assert!(matches!(reply.resolve("Hello!".to_owned()), ResolveAction::Wake(1)));
    let got = match reply.poll(2) {
        ReplyPoll::Ready(v) => v,
        ReplyPoll::Pending => panic!("the reply was not there"),
    };
    assert_eq!(got, "Hello!")
}

#[test]
fn resolve_before_any_poll_finds_no_waiter() {
    let mut reply: ReplySlot<String, u32> = ReplySlot::new();
    assert!(!reply.is_awaited());
    assert!(matches!(reply.resolve("early".to_owned()), ResolveAction::NeverAwaited));
    assert!(matches!(reply.poll(3), ReplyPoll::Ready(ref v) if v == "early"));
    assert!(reply.is_awaited());
}

#[test]
fn latest_waker_is_woken() {
    let mut reply: ReplySlot<u8, u32> = ReplySlot::new();
    assert!(matches!(reply.poll(1), ReplyPoll::Pending));
    assert!(matches!(reply.poll(2), ReplyPoll::Pending));
    assert!(matches!(reply.resolve(9), ResolveAction::Wake(2)));
}

#[test]
fn correlation_ids_are_uuid_v4_text() {
    let a = prepare_call("q", vec![1, 2, 3], random_id());
    let b = prepare_call("q", vec![1, 2, 3], random_id());
    assert!(is_uuid_v4_text(&a.correlation_id));
    assert!(is_uuid_v4_text(&b.correlation_id));
    assert_ne!(a.correlation_id, b.correlation_id);
    assert!(is_uuid_v4_text(&uuid_string(random_id())));
}

#[test]
fn request_carries_payload_and_properties() {
    let call = prepare_call("work", vec![0, 255, 7], random_id());
    assert_eq!(call.request.payload, vec![0, 255, 7]);
    assert_eq!(call.request.reply_to, Some("amq.rabbitmq.reply-to".to_owned()));
    assert_eq!(direct_reply_to_queue(), "amq.rabbitmq.reply-to");
}

#[test]
fn dispatch_routes_each_reply_once() {
    let mut pending: PendingReplies<&str> = PendingReplies::new();
    assert!(pending.register("a".to_owned(), "first").is_none());
    assert!(pending.register("b".to_owned(), "second").is_none());
    assert!(matches!(pending.dispatch(Some("b".to_owned())), Dispatch::Resolve("second")));
    assert!(matches!(pending.dispatch(Some("b".to_owned())), Dispatch::UnknownCorrelationId));
    assert!(matches!(pending.dispatch(Some("a".to_owned())), Dispatch::Resolve("first")));
    assert!(matches!(pending.dispatch(Some("a".to_owned())), Dispatch::UnknownCorrelationId));
}

#[test]
fn dispatch_without_correlation_id() {
    let mut pending: PendingReplies<u8> = PendingReplies::new();
    pending.register("x".to_owned(), 1);
    assert!(matches!(pending.dispatch(None), Dispatch::MissingCorrelationId));
    assert!(matches!(pending.dispatch(Some("y".to_owned())), Dispatch::UnknownCorrelationId));
    assert!(matches!(pending.dispatch(Some("x".to_owned())), Dispatch::Resolve(1)));
}

#[test]
fn register_replaces_a_waiting_call() {
    let mut pending: PendingReplies<u8> = PendingReplies::new();
    assert_eq!(pending.register("id".to_owned(), 1), None);
    assert_eq!(pending.register("id".to_owned(), 2), Some(1));
    assert!(matches!(pending.dispatch(Some("id".to_owned())), Dispatch::Resolve(2)));
    assert!(matches!(pending.dispatch(Some("id".to_owned())), Dispatch::UnknownCorrelationId));
}

#[test]
fn publication_to_queue() {
    let p = Publication::to_queue("jobs", b"Ping".to_vec(), Some("c-1"), None);
    assert_eq!(p.exchange, "");
    assert_eq!(p.routing_key, "jobs");
    assert_eq!(p.payload, b"Ping".to_vec());
    assert_eq!(p.correlation_id, Some("c-1".to_owned()));
    assert_eq!(p.reply_to, None);
    let q = Publication::to_queue("jobs", vec![], None, Some("answers"));
    assert_eq!(q.correlation_id, None);
    assert_eq!(q.reply_to, Some("answers".to_owned()));
}

#[test]
fn reply_needs_reply_to_then_correlation_id() {
    assert_eq!(
        Publication::reply(None, None, vec![1]).err(),
        Some(MissingProperty::ReplyTo)
    );
    assert_eq!(
        Publication::reply(None, Some("c".to_owned()), vec![1]).err(),
        Some(MissingProperty::ReplyTo)
    );
    assert_eq!(
        Publication::reply(Some("q".to_owned()), None, vec![1]).err(),
        Some(MissingProperty::CorrelationId)
    );
    let r = Publication::reply(Some("q".to_owned()), Some("c".to_owned()), vec![1]).unwrap();
    assert_eq!(r.exchange, "");
    assert_eq!(r.routing_key, "q");
    assert_eq!(r.correlation_id, Some("c".to_owned()));
    assert_eq!(r.reply_to, None);
    assert_eq!(r.payload, vec![1]);
}

#[test]
fn responder_records_every_delivery() {
    let mut quiet: AutoResponder<u32> = AutoResponder::new(false, b"Pong".to_vec());
    assert!(matches!(quiet.on_delivery(1, None, None), Ok(None)));
    assert!(matches!(quiet.on_delivery(2, Some("q".to_owned()), Some("c".to_owned())), Ok(None)));
    assert_eq!(quiet.processed_deliveries(), &vec![1, 2]);

    let mut answering: AutoResponder<u32> = AutoResponder::new(true, b"Pong".to_vec());
    assert!(matches!(answering.on_delivery(3, None, Some("c".to_owned())), Err(MissingProperty::ReplyTo)));
    assert!(matches!(
        answering.on_delivery(4, Some("q".to_owned()), None),
        Err(MissingProperty::CorrelationId)
    ));
    let reply = answering
        .on_delivery(5, Some("q".to_owned()), Some("c".to_owned()))
        .unwrap()
        .unwrap();
    assert_eq!(reply.payload, b"Pong".to_vec());
    assert_eq!(reply.routing_key, "q");
    assert_eq!(reply.correlation_id, Some("c".to_owned()));
    assert_eq!(answering.processed_deliveries(), &vec![3, 4, 5]);
}

#[test]
fn start_call_registers_before_the_request_goes_out() {
    let mut pending: PendingReplies<u32> = PendingReplies::new();
    let call = start_call(&mut pending, "work", b"Ping".to_vec(), random_id(), 11);
    assert!(is_uuid_v4_text(&call.correlation_id));
    assert_eq!(call.request.routing_key, "work");
    assert_eq!(call.request.payload, b"Ping".to_vec());
    assert_eq!(call.request.correlation_id, Some(call.correlation_id.clone()));
    assert_eq!(call.request.reply_to, Some("amq.rabbitmq.reply-to".to_owned()));
    // A reply that comes at once finds the call.
    let mut server: AutoResponder<u8> = AutoResponder::new(true, b"Pong".to_vec());
    let reply = server
        .on_delivery(0, call.request.reply_to.clone(), call.request.correlation_id.clone())
        .unwrap()
        .unwrap();
    assert!(matches!(pending.dispatch(reply.correlation_id.clone()), Dispatch::Resolve(11)));
}

#[test]
fn other_calls_do_not_disturb_a_waiting_call() {
    let mut pending: PendingReplies<u32> = PendingReplies::new();
    let first = start_call(&mut pending, "q", vec![1], random_id(), 1);
    let second = start_call(&mut pending, "q", vec![2], random_id(), 2);
    assert!(matches!(pending.dispatch(Some(second.correlation_id.clone())), Dispatch::Resolve(2)));
    assert!(matches!(pending.dispatch(Some("stranger".to_owned())), Dispatch::UnknownCorrelationId));
    let third = start_call(&mut pending, "q", vec![3], random_id(), 3);
    assert!(matches!(pending.dispatch(Some(first.correlation_id.clone())), Dispatch::Resolve(1)));
    assert!(matches!(pending.dispatch(Some(third.correlation_id.clone())), Dispatch::Resolve(3)));
}

#[test]
fn polls_around_the_reply() {
    let mut slot: ReplySlot<&str, u32> = ReplySlot::new();
    assert!(matches!(slot.poll(1), ReplyPoll::Pending));
    assert!(matches!(slot.poll(2), ReplyPoll::Pending));
    assert!(matches!(slot.resolve("done"), ResolveAction::Wake(2)));
    assert!(matches!(slot.poll(3), ReplyPoll::Ready("done")));
    assert!(matches!(slot.poll(4), ReplyPoll::Ready("done")));
}

#[test]
fn responder_run_over_a_sequence() {
    let mut server: AutoResponder<u32> = AutoResponder::new(true, b"Pong".to_vec());
    let mut records: Vec<Vec<u32>> = vec![server.processed_deliveries().clone()];
    for i in 0..5u32 {
        let reply = server
            .on_delivery(i, Some(format!("queue-{}", i)), Some(format!("id-{}", i)))
            .unwrap()
            .unwrap();
        assert_eq!(reply.routing_key, format!("queue-{}", i));
        assert_eq!(reply.correlation_id, Some(format!("id-{}", i)));
        assert_eq!(reply.payload, b"Pong".to_vec());
        assert_eq!(reply.exchange, "");
        records.push(server.processed_deliveries().clone());
    }
    assert_eq!(server.processed_deliveries(), &vec![0, 1, 2, 3, 4]);
    for j in 0..records.len() {
        for k in j..records.len() {
            assert!(records[k].starts_with(&records[j]));
        }
    }

    let mut quiet: AutoResponder<u32> = AutoResponder::new(false, b"Pong".to_vec());
    for i in 0..3u32 {
        assert!(matches!(
            quiet.on_delivery(i, Some("q".to_owned()), Some("c".to_owned())),
            Ok(None)
        ));
    }
    assert_eq!(quiet.processed_deliveries(), &vec![0, 1, 2]);
}

#[test]
fn uuid_text_of_given_bytes() {
    let bytes: [u8; 16] = [0, 1, 2, 3, 4, 5, 6, 7, 8, 9, 10, 11, 12, 13, 14, 255];
    assert_eq!(uuid_string(bytes), "00010203-0405-0607-0809-0a0b0c0d0eff");
    assert_eq!(uuid_string([0xab; 16]), "abababab-abab-abab-abab-abababababab");
    let call = prepare_call("q", vec![], bytes);
    assert_eq!(call.correlation_id, "00010203-0405-0607-0809-0a0b0c0d0eff");
    assert_eq!(call.request.correlation_id, Some("00010203-0405-0607-0809-0a0b0c0d0eff".to_owned()));
}
