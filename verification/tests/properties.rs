//! Concrete checks of the delivery and durability behaviour: fresh ids,
//! visibility timeouts, permanent acks, crash recovery, and the smaller
//! helpers around the engine, all at fixed times chosen by the test.

use rqs::app_types::JsonResponse;
use rqs::exchange_api::ExchangeToQueueError;
use rqs::exchange_api::ExchangeType;
use rqs::message_api::GetMessageResponse;
use rqs::queue_api::NewQueueRequest;
use rqs::rqs::RQS;
use rqs::rqs::RQSLogLine;
use rqs::rqs_queue::MessageLogLine;
use rqs::rqs_types::RQSError;
use rqs::rqs_types::RQSEvent;
use rqs::rqs_utils::next_backoff_nanos;
use rqs::rqs_utils::DEFAULT_BACKOFF;

#[test]
fn consume_returns_fresh_increasing_ids() {
    let mut rqs = RQS::new();
    rqs.create_queue("queue_1".to_string(), 5).unwrap();
    let first_id = rqs
        .new_message_at("queue_1".to_string(), "a".to_string(), "1".to_string(), 100)
        .unwrap();
    assert_eq!(first_id, 1);
    let first = rqs.get_message_at("queue_1".to_string(), 100).unwrap().unwrap();
    assert_eq!(first.id, 1);

    // the first message is in flight, so a consume finds the fresh one
    let second_id = rqs
        .new_message_at("queue_1".to_string(), "b".to_string(), "2".to_string(), 101)
        .unwrap();
    assert!(second_id > first_id);
    let second = rqs.get_message_at("queue_1".to_string(), 101).unwrap().unwrap();
    assert_eq!(second.id, 2);
}

#[test]
fn consumed_message_hidden_until_timeout_elapses() {
    let mut rqs = RQS::new();
    rqs.create_queue("queue_1".to_string(), 5).unwrap();
    rqs.new_message_at("queue_1".to_string(), "a".to_string(), "1".to_string(), 100)
        .unwrap();

    let taken = rqs.get_message_at("queue_1".to_string(), 100).unwrap();
    assert!(taken.is_some());
    // hidden strictly within the five seconds
    assert!(rqs.get_message_at("queue_1".to_string(), 103).unwrap().is_none());
    // exactly five seconds later is still within the timeout
    assert!(rqs.get_message_at("queue_1".to_string(), 105).unwrap().is_none());
    // strictly after the timeout the message is eligible again
    let again = rqs.get_message_at("queue_1".to_string(), 106).unwrap().unwrap();
    assert_eq!(again.id, 1);
}

#[test]
fn ack_removes_in_flight_message_permanently() {
    let mut rqs = RQS::new();
    rqs.create_queue("queue_1".to_string(), 5).unwrap();
    let id = rqs
        .new_message_at("queue_1".to_string(), "a".to_string(), "1".to_string(), 100)
        .unwrap();
    let taken = rqs.get_message_at("queue_1".to_string(), 100).unwrap().unwrap();
    assert_eq!(taken.id, id);

    rqs.ack_message_at("queue_1".to_string(), id, 101).unwrap();
    assert!(rqs.get_queues()[0].get_messages().is_empty());
    // long after the timeout would have expired, nothing comes back
    assert!(rqs.get_message_at("queue_1".to_string(), 10_000).unwrap().is_none());
    // and the id is never assigned again
    let next = rqs
        .new_message_at("queue_1".to_string(), "b".to_string(), "2".to_string(), 102)
        .unwrap();
    assert!(next > id);
}

#[test]
fn ack_refused_when_not_in_flight() {
    let mut rqs = RQS::new();
    rqs.create_queue("queue_1".to_string(), 5).unwrap();
    let id = rqs
        .new_message_at("queue_1".to_string(), "a".to_string(), "1".to_string(), 100)
        .unwrap();

    // never read: cannot be acked
    let err = rqs.ack_message_at("queue_1".to_string(), id, 100).unwrap_err();
    assert!(matches!(err, RQSError::MessageNotFoundOrNotInFlight(_)));
    assert_eq!(rqs.get_queues()[0].get_messages().len(), 1);

    // read, but the visibility timeout has expired: another consumer may
    // hold it now, so the ack is refused too
    rqs.get_message_at("queue_1".to_string(), 100).unwrap().unwrap();
    let err = rqs.ack_message_at("queue_1".to_string(), id, 106).unwrap_err();
    assert!(matches!(err, RQSError::MessageNotFoundOrNotInFlight(_)));
    assert_eq!(rqs.get_queues()[0].get_messages().len(), 1);

    // an id nothing carries is refused as well
    let err = rqs.ack_message_at("queue_1".to_string(), 999, 100).unwrap_err();
    assert!(matches!(err, RQSError::MessageNotFoundOrNotInFlight(_)));
}

#[test]
fn duplicate_create_fails_and_changes_nothing() {
    let mut rqs = RQS::new();
    rqs.create_queue("queue_1".to_string(), 5).unwrap();
    let err = rqs.create_queue("queue_1".to_string(), 7).unwrap_err();
    assert!(matches!(err, RQSError::QueueAlreadyExists(_)));
    assert_eq!(err.message(), "Queue with name queue_1 already exists");
    assert_eq!(rqs.get_queues().len(), 1);
    assert_eq!(rqs.get_queues()[0].get_visibility_timeout(), 5);
}

#[test]
fn delete_of_missing_queue_fails_and_changes_nothing() {
    let mut rqs = RQS::new();
    rqs.create_queue("queue_1".to_string(), 5).unwrap();
    let err = rqs.delete_queue("queue_2".to_string()).unwrap_err();
    assert!(matches!(err, RQSError::QueueNotFound(_)));
    assert_eq!(err.message(), "Queue with name queue_2 does not exist");
    assert_eq!(rqs.get_queues().len(), 1);
}

#[test]
fn operations_on_missing_queue_report_queue_not_found() {
    let mut rqs = RQS::new();
    let err = rqs
        .new_message_at("nope".to_string(), "a".to_string(), "1".to_string(), 100)
        .unwrap_err();
    assert!(matches!(err, RQSError::QueueNotFound(_)));
    let err = rqs.get_message_at("nope".to_string(), 100).unwrap_err();
    assert!(matches!(err, RQSError::QueueNotFound(_)));
    let err = rqs.ack_message_at("nope".to_string(), 1, 100).unwrap_err();
    assert!(matches!(err, RQSError::QueueNotFound(_)));
}

#[test]
fn restart_reconstructs_queue_and_in_flight_state() {
    let mut rqs = RQS::new();
    rqs.create_queue("queue_1".to_string(), 5).unwrap();
    rqs.new_message_at("queue_1".to_string(), "hello".to_string(), "{a:1}".to_string(), 100)
        .unwrap();
    let taken = rqs.get_message_at("queue_1".to_string(), 100).unwrap().unwrap();
    assert_eq!(taken.id, 1);
    assert_eq!(taken.message_id, "hello");
    assert_eq!(taken.message_content, "{a:1}");
    assert!(rqs.get_message_at("queue_1".to_string(), 100).unwrap().is_none());

    // restart: replay the event log, then the queue's message log
    let events = vec![RQSEvent::QueueCreated {
        queue_id: "queue_1".to_string(),
        visibility_timeout: 5,
    }];
    let records: Vec<MessageLogLine> = rqs.get_queues()[0]
        .get_messages()
        .iter()
        .map(|m| m.duplicate())
        .collect();
    let mut revived = RQS::new();
    revived.revive_from_log(&events).unwrap();
    revived
        .revive_queue_from_log(&"queue_1".to_string(), &records)
        .unwrap();
    assert_eq!(rqs, revived);
    // the message is still in flight after the restart
    assert!(revived.get_message_at("queue_1".to_string(), 100).unwrap().is_none());
}

#[test]
fn recreate_after_delete_takes_the_new_timeout() {
    let mut rqs = RQS::new();
    rqs.create_queue("queue_1".to_string(), 5).unwrap();
    rqs.delete_queue("queue_1".to_string()).unwrap();
    rqs.create_queue("queue_1".to_string(), 9).unwrap();
    assert_eq!(rqs.get_queues().len(), 1);
    assert_eq!(rqs.get_queues()[0].get_visibility_timeout(), 9);

    let events = vec![
        RQSEvent::QueueCreated { queue_id: "queue_1".to_string(), visibility_timeout: 5 },
        RQSEvent::QueueDeleted { queue_id: "queue_1".to_string() },
        RQSEvent::QueueCreated { queue_id: "queue_1".to_string(), visibility_timeout: 9 },
    ];
    let mut revived = RQS::new();
    revived.revive_from_log(&events).unwrap();
    assert_eq!(revived.get_queues()[0].get_visibility_timeout(), 9);
    assert_eq!(rqs, revived);
}

#[test]
fn replay_of_impossible_log_is_refused() {
    let events = vec![RQSEvent::QueueDeleted { queue_id: "queue_1".to_string() }];
    let mut rqs = RQS::new();
    assert!(rqs.revive_from_log(&events).is_err());
}

#[test]
fn message_log_replay_takes_last_write_per_id() {
    let mut rqs = RQS::new();
    rqs.create_queue("queue_1".to_string(), 5).unwrap();
    // an append-only log: the publish record, then the read-marked record
    let records = vec![
        MessageLogLine {
            id: 1,
            message_id: "hello".to_string(),
            message_content: "{a:1}".to_string(),
            timestamp: 100,
            read_at: None,
        },
        MessageLogLine {
            id: 1,
            message_id: "hello".to_string(),
            message_content: "{a:1}".to_string(),
            timestamp: 100,
            read_at: Some(100),
        },
    ];
    rqs.revive_queue_from_log(&"queue_1".to_string(), &records).unwrap();
    let q = &rqs.get_queues()[0];
    assert_eq!(q.get_messages().len(), 1);
    assert_eq!(q.get_messages()[0].read_at, Some(100));
    assert_eq!(q.get_last_id(), 1);
    // the next id continues above the highest replayed id
    let next = rqs
        .new_message_at("queue_1".to_string(), "b".to_string(), "2".to_string(), 101)
        .unwrap();
    assert_eq!(next, 2);
}

#[test]
fn event_log_line_round_trip() {
    let created = RQSEvent::QueueCreated {
        queue_id: "queue_1".to_string(),
        visibility_timeout: 5,
    };
    let line = created.to_log_line(42);
    assert_eq!(line.event, "QueueCreated");
    assert_eq!(line.queue_id, "queue_1");
    assert_eq!(line.visibility_timeout, 5);
    assert_eq!(line.timestamp, 42);
    match line.to_event().unwrap() {
        RQSEvent::QueueCreated { queue_id, visibility_timeout } => {
            assert_eq!(queue_id, "queue_1");
            assert_eq!(visibility_timeout, 5);
        }
        _ => panic!("decoded as the wrong event"),
    }

    let deleted = RQSEvent::QueueDeleted { queue_id: "queue_2".to_string() };
    let line = deleted.to_log_line(43);
    assert_eq!(line.event, "QueueDeleted");
    assert_eq!(line.visibility_timeout, 0);
    match line.to_event().unwrap() {
        RQSEvent::QueueDeleted { queue_id } => assert_eq!(queue_id, "queue_2"),
        _ => panic!("decoded as the wrong event"),
    }
}

#[test]
fn unknown_event_tag_is_corrupt() {
    let line = RQSLogLine {
        event: "QueueRenamed".to_string(),
        visibility_timeout: 0,
        queue_id: "queue_1".to_string(),
        timestamp: 1,
    };
    let err = line.to_event().unwrap_err();
    assert!(matches!(err, RQSError::CorruptLog(_)));
    assert_eq!(
        err.message(),
        "Log line is corrupt; the unknown event was QueueRenamed"
    );
}

#[test]
fn backoff_grows_by_one_base_unit_per_attempt() {
    assert_eq!(DEFAULT_BACKOFF, 1000);
    assert_eq!(next_backoff_nanos(1), 1000);
    assert_eq!(next_backoff_nanos(2), 2000);
    assert_eq!(next_backoff_nanos(3), 3000);
    assert_eq!(next_backoff_nanos(0), 0);
}

#[test]
fn eligibility_boundaries() {
    let unread = MessageLogLine {
        id: 1,
        message_id: "a".to_string(),
        message_content: "1".to_string(),
        timestamp: 100,
        read_at: None,
    };
    assert!(unread.is_eligible(5, 100));
    assert!(!unread.is_in_flight(5, 100));

    let read = MessageLogLine { read_at: Some(100), ..unread };
    assert!(!read.is_eligible(5, 100));
    assert!(read.is_in_flight(5, 100));
    assert!(!read.is_eligible(5, 105));
    assert!(read.is_eligible(5, 106));
    assert!(!read.is_in_flight(5, 106));
    // a clock that runs backwards still counts the message as held
    assert!(!read.is_eligible(5, 99));
    assert!(read.is_in_flight(5, 99));
}

#[test]
fn exchange_routing_targets() {
    let queue_ids = vec!["a".to_string(), "b".to_string(), "a".to_string()];
    let fanout = ExchangeType::FANOUT.resolve_targets(&queue_ids, &"a".to_string());
    assert_eq!(fanout, vec!["a", "b", "a"]);
    let by_id = ExchangeType::ID.resolve_targets(&queue_ids, &"a".to_string());
    assert_eq!(by_id, vec!["a", "a"]);
    let none = ExchangeType::ID.resolve_targets(&queue_ids, &"c".to_string());
    assert!(none.is_empty());
}

#[test]
fn exchange_error_descriptions() {
    let missing = ExchangeToQueueError::NoMatchingQueueError("queue_9".to_string());
    assert_eq!(missing.to_string(), "No queue with id queue_9 was found");
    let failed = ExchangeToQueueError::UnableToAddError;
    assert_eq!(failed.to_string(), "Something went wrong. Please try again.");
}

#[test]
fn request_and_response_shapes_hold_their_fields() {
    let resp = GetMessageResponse::new("id".to_string(), "body".to_string(), "u-1".to_string());
    assert_eq!(resp.message_id, "id");
    assert_eq!(resp.content, "body");
    assert_eq!(resp.uuid, "u-1");

    let req = NewQueueRequest { read_timeout: 30, queue_id: "q".to_string() };
    assert_eq!(req.read_timeout, 30);

    let envelope = JsonResponse::new(Some("ok".to_string()), None::<String>);
    let (data, error) = envelope.into_parts();
    assert_eq!(data, Some("ok".to_string()));
    assert_eq!(error, None);
}

#[test]
fn batch_consume_takes_oldest_eligible_up_to_limit() {
    let mut rqs = RQS::new();
    rqs.create_queue("queue_1".to_string(), 5).unwrap();
    for (message_id, content) in [("a", "1"), ("b", "2"), ("c", "3")] {
        rqs.new_message_at(
            "queue_1".to_string(),
            message_id.to_string(),
            content.to_string(),
            100,
        )
        .unwrap();
    }

    let batch = rqs.get_messages_at("queue_1".to_string(), 2, 100).unwrap();
    assert_eq!(batch.len(), 2);
    assert_eq!(batch[0].id, 1);
    assert_eq!(batch[1].id, 2);
    assert_eq!(batch[0].read_at, Some(100));

    // only the third message is still eligible
    let rest = rqs.get_messages_at("queue_1".to_string(), 10, 101).unwrap();
    assert_eq!(rest.len(), 1);
    assert_eq!(rest[0].id, 3);

    // everything is now in flight; a batch of any size finds nothing
    assert!(rqs.get_messages_at("queue_1".to_string(), 10, 101).unwrap().is_empty());
    // a zero-sized batch never dispatches
    assert!(rqs.get_messages_at("queue_1".to_string(), 0, 200).unwrap().is_empty());
    // and a batch on a missing queue is refused
    assert!(rqs.get_messages_at("queue_9".to_string(), 1, 100).is_err());
}
