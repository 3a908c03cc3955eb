//! The engine exercised as its callers do: queues created and deleted,
//! messages published and consumed, and state revived from recorded events.

use rqs::rqs::RQS;
use rqs::rqs_types::RQSEvent;

fn created(queue_id: &str, visibility_timeout: u32) -> RQSEvent {
    RQSEvent::QueueCreated { queue_id: queue_id.to_string(), visibility_timeout }
}

fn deleted(queue_id: &str) -> RQSEvent {
    RQSEvent::QueueDeleted { queue_id: queue_id.to_string() }
}

fn names_of(rqs: &RQS) -> Vec<String> {
    rqs.get_queues().iter().map(|q| q.get_name().clone()).collect()
}

#[test]
fn test_revive() {
    let mut rqs = RQS::new();
    let no_events: Vec<RQSEvent> = Vec::new();
    rqs.revive_from_log(&no_events).expect("Revive of an empty log failed");
    rqs.create_queue("queue_1".to_string(), 10)
        .expect("Could not create queue_1");
    rqs.create_queue("queue_2".to_string(), 10)
        .expect("Could not create queue_2");
    rqs.delete_queue("queue_1".to_string())
        .expect("Could not delete queue_1");

    // the event log as the three successful operations recorded it
    let events = vec![created("queue_1", 10), created("queue_2", 10), deleted("queue_1")];
    let mut rqs_from_revive = RQS::new();
    rqs_from_revive.revive_from_log(&events).expect("Could not revive");
    assert_eq!(rqs, rqs_from_revive);
}

#[test]
fn test_revive_and_add() {
    let events = vec![created("queue_1", 10), created("queue_2", 10), deleted("queue_1")];
    let mut rqs_from_revive = RQS::new();
    rqs_from_revive.revive_from_log(&events).expect("Could not revive");
    rqs_from_revive
        .create_queue("queue_3".to_string(), 10)
        .expect("Could not create queue_3");
    let names = names_of(&rqs_from_revive);
    assert_eq!(names, vec!["queue_2", "queue_3"]);
}

#[test]
fn test_queue_already_exists() {
    let mut rqs = RQS::new();
    rqs.create_queue("queue_1".to_string(), 10)
        .expect("Could not create queue_1");
    assert!(rqs.create_queue("queue_1".to_string(), 10).is_err());
}

#[test]
fn test_queue_to_delete_does_not_exist() {
    let mut rqs = RQS::new();
    rqs.create_queue("queue_1".to_string(), 10)
        .expect("Could not create queue_1");
    assert!(rqs.delete_queue("queue_2".to_string()).is_err());
}

#[test]
fn test_create_message() {
    let mut rqs = RQS::new();
    rqs.create_queue("queue_1".to_string(), 10)
        .expect("Could not create queue_1");
    rqs.new_message(
        "queue_1".to_string(),
        "hello".to_string(),
        "{helloworlditsme: 1}".to_string(),
    )
    .expect("Failed to send message");

    // the records the caller would persist as the queue's message log
    let queues = rqs.get_queues();
    let lines = queues[0].get_messages();
    assert_eq!(lines.len(), 1);
    let message = &lines[0];
    assert_eq!(message.message_id, "hello");
    assert_eq!(message.message_content, "{helloworlditsme: 1}");
}

#[test]
fn test_create_and_consume_message() {
    let mut rqs = RQS::new();
    rqs.create_queue("queue_1".to_string(), 10)
        .expect("Could not create queue_1");
    rqs.new_message(
        "queue_1".to_string(),
        "hello".to_string(),
        "{helloworlditsme: 1}".to_string(),
    )
    .expect("Failed to send message");

    let message = rqs.get_message("queue_1".to_string()).unwrap().unwrap();
    assert_eq!(message.message_id, "hello");
    assert_eq!(message.message_content, "{helloworlditsme: 1}");
    assert_eq!(message.id, 1);
}

#[test]
fn test_message_visibility_timeout() {
    let mut rqs = RQS::new();
    rqs.create_queue("queue_1".to_string(), 10)
        .expect("Could not create queue_1");
    rqs.new_message(
        "queue_1".to_string(),
        "hello".to_string(),
        "{helloworlditsme: 1}".to_string(),
    )
    .expect("Failed to send message");

    let message = rqs.get_message("queue_1".to_string()).unwrap().unwrap();
    assert_eq!(message.message_id, "hello");
    assert_eq!(message.message_content, "{helloworlditsme: 1}");
    assert_eq!(message.id, 1);

    let message = rqs.get_message("queue_1".to_string()).unwrap();
    assert!(message.is_none());
}

#[test]
fn test_create_queue_request() {
    let mut rqs = RQS::new();
    rqs.create_queue("queue_1".to_string(), 5)
        .expect("Failed to create queue request");
    assert_eq!(names_of(&rqs), vec!["queue_1"]);
}

#[test]
fn test_create_and_delete_queue_request() {
    let mut rqs = RQS::new();
    rqs.create_queue("queue_1".to_string(), 5)
        .expect("Failed to create queue request");
    rqs.delete_queue("queue_1".to_string())
        .expect("Failed to delete queue");
    assert_eq!(names_of(&rqs), Vec::<String>::new());
}

#[test]
fn test_multiple_concurrent_queue_requests() {
    // requests serialize on the registry lock; both creations complete
    let mut rqs = RQS::new();
    rqs.create_queue("queue_1".to_string(), 5)
        .expect("Could not create queue_1");
    rqs.create_queue("queue_2".to_string(), 5)
        .expect("Could not create queue_2");
    assert_eq!(names_of(&rqs), vec!["queue_1", "queue_2"]);

    // should also be able to revive the queues
    let events = vec![created("queue_1", 5), created("queue_2", 5)];
    let mut revived = RQS::new();
    revived.revive_from_log(&events).expect("Could not revive");
    assert_eq!(names_of(&revived), vec!["queue_1", "queue_2"]);
}
