use pubsub::facade::{
    close_command, outcome, publish_command, subscribe_command, unsubscribe_command,
};
use pubsub::{Operation, PubSub, PubSubError};
use std::collections::HashSet;
use std::sync::mpsc;
use uuid::Uuid;

#[test]
fn test_pubsub() {
    let (pubsub, mut broker) = PubSub::new();
    let (id, receiver) = pubsub.subscribe().unwrap();
    assert!(Uuid::parse_str(&id).is_ok());
    pubsub.publish("hello").unwrap();
    assert!(broker.step());
    assert!(broker.step());
    let msg = receiver.recv().unwrap();
    assert_eq!(msg, "hello");
}

#[test]
fn test_unsub() {
    let (pubsub, mut broker) = PubSub::new();
    let (id, receiver) = pubsub.subscribe().unwrap();
    assert!(Uuid::parse_str(&id).is_ok());
    pubsub.unsubscribe(&id).unwrap();
    pubsub.publish("hello").unwrap();
    assert!(broker.step());
    assert!(broker.step());
    assert!(broker.step());
    match receiver.recv() {
        Ok(_) => panic!("Received message after unsubscribing"),
        Err(_) => {}
    }
}

#[test]
fn unsubscribe_then_publish_hi_is_not_received() {
    let (pubsub, mut broker) = PubSub::new();
    let (id, receiver) = pubsub.subscribe().unwrap();
    pubsub.unsubscribe(&id).unwrap();
    pubsub.publish("hi").unwrap();
    for _ in 0..3 {
        assert!(broker.step());
    }
    assert!(receiver.try_recv().is_err());
}

#[test]
fn subscribe_ids_are_distinct_version_4_uuids() {
    let (pubsub, mut broker) = PubSub::new();
    let mut ids = HashSet::new();
    let mut receivers = Vec::new();
    for _ in 0..100 {
        let (id, receiver) = pubsub.subscribe().unwrap();
        assert_eq!(id.len(), 36);
        assert_eq!(id, id.to_lowercase());
        let parsed = Uuid::parse_str(&id).unwrap();
        assert_eq!(parsed.get_version_num(), 4);
        assert!(ids.insert(id));
        receivers.push(receiver);
    }
    for _ in 0..100 {
        assert!(broker.step());
    }
    assert_eq!(broker.subscriber_count(), 100);
}

#[test]
fn unsubscribe_of_unknown_id_is_accepted() {
    let (pubsub, mut broker) = PubSub::new();
    assert!(pubsub.unsubscribe("never-subscribed").is_ok());
    assert!(broker.step());
    assert_eq!(broker.subscriber_count(), 0);
}

#[test]
fn fan_out_through_the_facade() {
    let (pubsub, mut broker) = PubSub::new();
    let (_, a) = pubsub.subscribe().unwrap();
    let (_, b) = pubsub.subscribe().unwrap();
    let (_, c) = pubsub.subscribe().unwrap();
    pubsub.publish("m1").unwrap();
    pubsub.publish("m2").unwrap();
    for _ in 0..5 {
        assert!(broker.step());
    }
    for receiver in [&a, &b, &c] {
        assert_eq!(receiver.recv().unwrap(), "m1");
        assert_eq!(receiver.recv().unwrap(), "m2");
    }
}

#[test]
fn dropped_receiver_does_not_fail_publish() {
    let (pubsub, mut broker) = PubSub::new();
    let (_, gone) = pubsub.subscribe().unwrap();
    let (_, kept) = pubsub.subscribe().unwrap();
    drop(gone);
    assert!(pubsub.publish("x").is_ok());
    assert!(pubsub.publish("y").is_ok());
    for _ in 0..4 {
        assert!(broker.step());
    }
    assert_eq!(broker.subscriber_count(), 1);
    assert_eq!(kept.recv().unwrap(), "x");
    assert_eq!(kept.recv().unwrap(), "y");
}

#[test]
fn destroying_the_facade_closes_receivers() {
    let (pubsub, mut broker) = PubSub::new();
    let (_, receiver) = pubsub.subscribe().unwrap();
    drop(pubsub);
    assert!(broker.step());
    assert!(!broker.step());
    drop(broker);
    assert!(receiver.recv().is_err());
}

#[test]
fn close_stops_the_broker_and_closes_receivers() {
    let (pubsub, mut broker) = PubSub::new();
    let (_, receiver) = pubsub.subscribe().unwrap();
    pubsub.close().unwrap();
    assert!(broker.step());
    assert!(!broker.step());
    assert!(receiver.recv().is_err());
}

#[test]
fn calls_fail_once_the_broker_is_gone() {
    let (pubsub, broker) = PubSub::new();
    drop(broker);
    let err = pubsub.publish("late").unwrap_err();
    assert_eq!(err.message(), "Failed to send operation to broker");
    assert!(!err.cause().is_empty());
    assert!(pubsub.subscribe().is_err());
    assert!(pubsub.unsubscribe("id").is_err());
    assert!(pubsub.close().is_err());
}

#[test]
fn outcome_maps_refused_send_to_error() {
    assert!(outcome(Ok(())).is_ok());
    let err = outcome(Err(mpsc::SendError(Operation::Close))).unwrap_err();
    assert_eq!(err.message(), "Failed to send operation to broker");
}

#[test]
fn error_keeps_message_and_cause() {
    let err = PubSubError::new("boom".to_string(), "because".to_string());
    assert_eq!(err.message(), "boom");
    assert_eq!(err.cause(), "because");
}

#[test]
fn interleaved_producers_keep_their_own_order() {
    let (pubsub, mut broker) = PubSub::new();
    let (_, receiver) = pubsub.subscribe().unwrap();
    assert!(broker.step());
    for i in 0..1000 {
        pubsub.publish(&format!("0-{}", i)).unwrap();
        if i % 3 != 0 {
            pubsub.publish(&format!("1-{}", i)).unwrap();
        }
    }
    for i in 0..1000 {
        if i % 3 == 0 {
            pubsub.publish(&format!("1-{}", i)).unwrap();
        }
    }
    for _ in 0..2000 {
        assert!(broker.step());
    }
    let mut next = [0usize, 0usize];
    let mut got: Vec<(usize, usize)> = Vec::new();
    for _ in 0..2000 {
        let msg = receiver.recv().unwrap();
        let (t, i) = msg.split_once('-').unwrap();
        got.push((t.parse().unwrap(), i.parse().unwrap()));
    }
    for (t, i) in &got {
        if *t == 0 {
            assert_eq!(*i, next[0]);
            next[0] += 1;
        }
    }
    let ones: Vec<usize> = got.iter().filter(|(t, _)| *t == 1).map(|(_, i)| *i).collect();
    let mut expected: Vec<usize> = (0..1000).filter(|i| i % 3 != 0).collect();
    expected.extend((0..1000).filter(|i| i % 3 == 0));
    assert_eq!(ones, expected);
    assert_eq!(next[0], 1000);
}

#[test]
fn commands_carry_their_arguments() {
    match publish_command("payload") {
        Operation::Pub(m) => assert_eq!(m, "payload"),
        _ => panic!("expected a publish command"),
    }
    match unsubscribe_command("some-id") {
        Operation::Unsub(i) => assert_eq!(i, "some-id"),
        _ => panic!("expected an unsubscribe command"),
    }
    assert!(matches!(close_command(), Operation::Close));
    let (sender, receiver) = mpsc::channel();
    match subscribe_command("sub-id".to_string(), sender) {
        Operation::Sub { id, sender } => {
            assert_eq!(id, "sub-id");
            sender.send("through".to_string()).unwrap();
            assert_eq!(receiver.recv().unwrap(), "through");
        }
        _ => panic!("expected a subscribe command"),
    }
}

#[test]
fn refused_send_names_the_closed_channel() {
    let (pubsub, broker) = PubSub::new();
    drop(broker);
    let err = pubsub.close().unwrap_err();
    assert_eq!(err.cause(), "sending on a closed channel");
    let direct = PubSubError::from_send_error(mpsc::SendError(Operation::Close));
    assert_eq!(direct.message(), "Failed to send operation to broker");
    assert_eq!(direct.cause(), "sending on a closed channel");
}
