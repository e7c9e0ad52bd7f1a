use goose::message::Message;
use goose::telemetry::{
    build_recipe_execution, create_session_execution, fail_execution, succeed_execution,
    SessionResult, SessionType,
};
use goose::transport::configuration_failure_events;
use goose::wire::{encode_wire_event, frame_wire_event, WireEvent};

fn meta(e: &Vec<(String, String)>) -> Vec<(&str, &str)> {
    e.iter().map(|(k, v)| (k.as_str(), v.as_str())).collect()
}

#[test]
fn session_record_starts_with_the_server_metadata() {
    let e = create_session_execution("s-1", "streaming", None, None);
    assert_eq!(e.session_id, "s-1");
    assert_eq!(e.session_type, SessionType::Interactive);
    assert_eq!(
        meta(&e.metadata),
        vec![
            ("execution_mode", "server"),
            ("session_type", "streaming"),
            ("interface", "ui"),
            ("session_mode", "chat"),
        ]
    );
    assert!(e.result.is_none());
}

#[test]
fn recipe_invocations_carry_the_recipe_pairs() {
    let e = create_session_execution("s-2", "streaming", Some("daily"), Some("1.2"));
    assert_eq!(
        meta(&e.metadata),
        vec![
            ("execution_mode", "server"),
            ("session_type", "streaming"),
            ("interface", "ui"),
            ("recipe_name", "daily"),
            ("session_mode", "recipe"),
            ("recipe_version", "1.2"),
        ]
    );
}

#[test]
fn finalization_fills_result_counts_and_duration() {
    let e = create_session_execution("s-3", "ask", None, None);
    let failed = fail_execution(e, "boom".to_string(), 250, Some(4), None);
    assert_eq!(failed.result, Some(SessionResult::Error("boom".to_string())));
    assert_eq!(failed.duration_ms, Some(250));
    assert_eq!(failed.message_count, Some(4));
    assert_eq!(failed.turn_count, None);

    let e2 = create_session_execution("s-4", "ask", None, None);
    let ok = succeed_execution(e2, 100, 2, 1);
    assert_eq!(ok.result, Some(SessionResult::Success));
    assert_eq!(ok.message_count, Some(2));
    assert_eq!(ok.turn_count, Some(1));
    assert_eq!(ok.duration_ms, Some(100));
}

#[test]
fn recipe_record_is_built_whole() {
    let r = build_recipe_execution("daily", "1.2", SessionResult::Success, 42, "streaming");
    assert_eq!(r.recipe_name, "daily");
    assert_eq!(r.recipe_version, "1.2");
    assert_eq!(r.result, SessionResult::Success);
    assert_eq!(r.duration_ms, 42);
    assert_eq!(
        meta(&r.metadata),
        vec![
            ("interface", "ui"),
            ("execution_mode", "server"),
            ("session_type", "streaming"),
        ]
    );
}

#[test]
fn wire_events_serialize_with_their_tag() {
    let finish = WireEvent::Finish { reason: "stop".to_string() };
    assert_eq!(encode_wire_event(&finish), "{\"type\":\"Finish\",\"reason\":\"stop\"}");
    assert_eq!(
        frame_wire_event(&finish),
        "data: {\"type\":\"Finish\",\"reason\":\"stop\"}\n\n"
    );

    let err = WireEvent::Error { error: "no provider \"x\"".to_string() };
    assert_eq!(
        encode_wire_event(&err),
        "{\"type\":\"Error\",\"error\":\"no provider \\\"x\\\"\"}"
    );

    let mc = WireEvent::ModelChange { model: "m-1".to_string(), mode: "auto".to_string() };
    assert_eq!(
        encode_wire_event(&mc),
        "{\"type\":\"ModelChange\",\"model\":\"m-1\",\"mode\":\"auto\"}"
    );

    let n = WireEvent::Notification {
        request_id: "r-1".to_string(),
        payload: "progress".to_string(),
    };
    assert_eq!(
        encode_wire_event(&n),
        "{\"type\":\"Notification\",\"request_id\":\"r-1\",\"message\":\"progress\"}"
    );

    let msg = WireEvent::Message(Message::user(5).with_text("hi".to_string()));
    assert_eq!(
        encode_wire_event(&msg),
        "{\"type\":\"Message\",\"message\":{\"role\":\"user\",\"created\":5,\"content\":[{\"type\":\"text\",\"text\":\"hi\"}]}}"
    );
}

#[test]
fn push_message_appends() {
    let mut transcript = vec![Message::user(1).with_text("a".to_string())];
    let before = transcript.clone();
    goose::message::push_message(&mut transcript, Message::assistant(2).with_text("b".to_string()));
    assert_eq!(transcript.len(), 2);
    assert_eq!(&transcript[..1], &before[..]);
}

#[test]
fn configuration_failure_is_error_then_finish() {
    let events = configuration_failure_events("no provider configured".to_string());
    assert_eq!(
        events,
        vec![
            WireEvent::Error { error: "no provider configured".to_string() },
            WireEvent::Finish { reason: "error".to_string() },
        ]
    );
}
