use spaceone::command_relay::{CommandPriority, CommandRelay, CommandType, DtnCommand, RelayStatus};

fn direct(action: &str) -> CommandType {
    CommandType::Direct { action: action.to_string(), params: String::new() }
}

#[test]
fn test_enqueue_and_process() {
    let mut relay = CommandRelay::new("dtn://mars/");

    let cmd = DtnCommand::new(
        "rover-01",
        CommandType::Direct { action: "move".into(), params: "forward 10m".into() },
        CommandPriority::Routine,
    );

    relay.enqueue(cmd);
    assert_eq!(relay.stats().queued, 1);

    let events = relay.process_queue();
    assert_eq!(events.len(), 1);
    assert_eq!(events[0].event_type, "command_sent");
}

#[test]
fn command_relay_test_priority_ordering() {
    let mut relay = CommandRelay::new("dtn://mars/");

    relay.enqueue(DtnCommand::new("r1", CommandType::Direct { action: "a".into(), params: "".into() }, CommandPriority::Routine));
    relay.enqueue(DtnCommand::new("r2", CommandType::Direct { action: "b".into(), params: "".into() }, CommandPriority::SafeMode));
    relay.enqueue(DtnCommand::new("r3", CommandType::Direct { action: "c".into(), params: "".into() }, CommandPriority::Critical));

    let events = relay.process_queue();
    assert!(events.iter().any(|e| e.command_id.contains("r2")));
}

#[test]
fn relay_sends_safe_mode_first_then_critical() {
    let mut relay = CommandRelay::new("dtn://mars/");
    relay.enqueue(DtnCommand::new_with("r1", direct("a"), CommandPriority::Routine, "u1", 0));
    relay.enqueue(DtnCommand::new_with("r2", direct("b"), CommandPriority::SafeMode, "u2", 0));
    relay.enqueue(DtnCommand::new_with("r3", direct("c"), CommandPriority::Critical, "u3", 0));
    let events = relay.process_queue();
    let ids: Vec<&str> = events.iter().map(|e| e.command_id.as_str()).collect();
    assert_eq!(ids, vec!["r2-u2", "r3-u3", "r1-u1"]);
    assert_eq!(events[0].message, "Command sent to r2");
    let st = relay.stats();
    assert_eq!(st.queued, 0);
    assert_eq!(st.in_transit, 3);
    assert_eq!(st.max_concurrent, 3);
}

#[test]
fn relay_transit_limit_keeps_the_fourth_command_queued() {
    let mut relay = CommandRelay::new("dtn://mars/");
    for i in 0..4u32 {
        let uuid = format!("u{}", i);
        relay.enqueue(DtnCommand::new_with("hab", direct("x"), CommandPriority::High, &uuid, 0));
    }
    let events = relay.process_queue();
    assert_eq!(events.len(), 3);
    let st = relay.stats();
    assert_eq!(st.in_transit, 3);
    assert_eq!(st.queued, 1);
    // The limit is still reached: the next pass sends nothing.
    let again = relay.process_queue();
    assert!(again.is_empty());
    assert_eq!(relay.stats().queued, 1);
}

#[test]
fn relay_oversized_command_is_retried_then_failed() {
    let mut relay = CommandRelay::new("dtn://mars/");
    let mut cmd = DtnCommand::new_with("rover", direct("upload"), CommandPriority::Routine, "big", 0);
    cmd.payload = vec![0u8; 65536 - 127];
    relay.enqueue(cmd);

    let first = relay.process_queue();
    assert_eq!(first.len(), 1);
    assert_eq!(first[0].event_type, "retry_scheduled");
    assert_eq!(first[0].message, "Retry 2/3");
    assert_eq!(relay.stats().queued, 1);

    let second = relay.process_queue();
    assert_eq!(second[0].event_type, "retry_scheduled");
    assert_eq!(second[0].message, "Retry 3/3");

    let third = relay.process_queue();
    assert_eq!(third[0].event_type, "command_failed");
    assert_eq!(third[0].message, "Failed after 3 retries: Bundle exceeds max size (64KB)");
    let st = relay.stats();
    assert_eq!(st.queued, 0);
    assert_eq!(st.completed_total, 1);
    assert_eq!(st.failed_total, 1);
}

#[test]
fn relay_payload_at_the_limit_is_sent() {
    let mut relay = CommandRelay::new("dtn://mars/");
    let mut cmd = DtnCommand::new_with("rover", direct("upload"), CommandPriority::Routine, "edge", 0);
    cmd.payload = vec![0u8; 65536 - 128];
    relay.enqueue(cmd);
    let events = relay.process_queue();
    assert_eq!(events[0].event_type, "command_sent");
}

#[test]
fn relay_cancel_removes_only_a_queued_command() {
    let mut relay = CommandRelay::new("dtn://mars/");
    let id = relay.enqueue(DtnCommand::new_with("rover", direct("a"), CommandPriority::Routine, "c1", 0));
    assert_eq!(id, "rover-c1");
    assert!(!relay.cancel_command("rover-none"));
    assert!(relay.cancel_command(&id));
    assert_eq!(relay.stats().queued, 0);
    assert!(!relay.cancel_command(&id));
}

#[test]
fn relay_timeout_after_twenty_minutes() {
    let mut relay = CommandRelay::new("dtn://mars/");
    relay.enqueue(DtnCommand::new_with("rover", direct("a"), CommandPriority::Routine, "old", 1_000));
    relay.enqueue(DtnCommand::new_with("rover", direct("b"), CommandPriority::Routine, "new", 600_000));
    relay.process_queue();
    assert_eq!(relay.stats().in_transit, 2);

    // Exactly twenty minutes: still in transit.
    let none = relay.check_transit_status_at(1_201_000);
    assert!(none.is_empty());

    let events = relay.check_transit_status_at(1_201_001);
    assert_eq!(events.len(), 1);
    assert_eq!(events[0].event_type, "delivery_timeout");
    assert_eq!(events[0].command_id, "rover-old");
    assert_eq!(events[0].message, "Delivery timeout — assuming loss");
    let st = relay.stats();
    assert_eq!(st.in_transit, 1);
    assert_eq!(st.completed_total, 1);
    assert_eq!(st.failed_total, 1);
}

#[test]
fn relay_new_command_fields() {
    let c = DtnCommand::new_with("hab-01", CommandType::SafeMode { reason: "dust".into() }, CommandPriority::SafeMode, "abc", 42);
    assert_eq!(c.id, "hab-01-abc");
    assert_eq!(c.target, "hab-01");
    assert_eq!(c.max_lifetime_hours, 24);
    assert_eq!(c.created_at, 42);
    assert_eq!(c.status, RelayStatus::Queued);
    assert_eq!(c.retry_count, 0);
    assert_eq!(c.max_retries, 3);
    assert!(c.error.is_none());
    assert_eq!(CommandPriority::SafeMode.sort_key(), 0);
    assert_eq!(CommandPriority::Routine.sort_key(), 3);
}
