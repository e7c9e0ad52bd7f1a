use goose::agent::SessionConfig;
use goose::channel::Permission;
use goose::message::{ContentBlock, Message, Role};
use goose::provider::{ProviderError, Usage};
use goose::telemetry::SessionResult;
use goose::transport::{run_session, ProviderReply};
use goose::wire::WireEvent;

fn config() -> SessionConfig {
    SessionConfig {
        identifier: "test-session".to_string(),
        working_directory: "test-working-dir".to_string(),
        schedule_id: None,
        execution_mode: None,
        max_turns: None,
        retry_config: None,
    }
}

fn assistant_text(created: u64, text: &str) -> Message {
    Message::assistant(created).with_text(text.to_string())
}

fn reply(m: Message) -> ProviderReply {
    ProviderReply::Reply(
        m,
        Usage { input_tokens: 10, output_tokens: 5, total_tokens: 15 },
    )
}

#[test]
fn plain_reply_emits_message_then_finish() {
    let history = vec![Message::user(1).with_text("hi".to_string())];
    let script = vec![reply(assistant_text(2, "hello"))];
    let outcome = run_session(history, &config(), &script, &Vec::new(), &Vec::new(), None, 3, 10);

    assert_eq!(outcome.wire_events.len(), 2);
    match &outcome.wire_events[0] {
        WireEvent::Message(m) => {
            assert_eq!(m.role, Role::Assistant);
            assert_eq!(m.content, vec![ContentBlock::Text { text: "hello".to_string() }]);
        },
        other => panic!("expected a message event, got {:?}", other),
    }
    assert_eq!(
        outcome.wire_events[1],
        WireEvent::Finish { reason: "stop".to_string() }
    );
    assert_eq!(outcome.transcript.len(), 2);
    assert_eq!(outcome.provider_calls, 1);
    assert_eq!(outcome.execution.result, Some(SessionResult::Success));
    assert_eq!(outcome.execution.message_count, Some(2));
    assert_eq!(outcome.execution.turn_count, Some(1));
    assert_eq!(outcome.usage.input_tokens, 10);
    assert_eq!(outcome.usage.output_tokens, 5);
    assert_eq!(outcome.usage.total_tokens, 15);
    // The grown transcript is persisted and reloads identically.
    let persisted = outcome.persisted.expect("the transcript grew");
    assert_eq!(
        goose::codec::decode_transcript(&persisted),
        Some(outcome.transcript.clone())
    );
}

#[test]
fn provider_failure_emits_error_then_finish_and_one_failed_record() {
    let history = vec![Message::user(1).with_text("hi".to_string())];
    let script = vec![ProviderReply::Fail(ProviderError::RequestFailed(
        "connection reset".to_string(),
    ))];
    let outcome = run_session(history, &config(), &script, &Vec::new(), &Vec::new(), None, 2, 5);

    assert_eq!(outcome.wire_events.len(), 2);
    assert_eq!(
        outcome.wire_events[0],
        WireEvent::Error { error: "connection reset".to_string() }
    );
    assert_eq!(
        outcome.wire_events[1],
        WireEvent::Finish { reason: "error".to_string() }
    );
    assert_eq!(
        outcome.execution.result,
        Some(SessionResult::Error("connection reset".to_string()))
    );
    // The transcript did not grow; nothing is persisted.
    assert_eq!(outcome.transcript.len(), 1);
    assert!(outcome.persisted.is_none());
}

#[test]
fn context_overflow_stops_the_loop_at_once() {
    let history = vec![Message::user(1).with_text("hi".to_string())];
    let script = vec![
        ProviderReply::Fail(ProviderError::ContextLengthExceeded("too long".to_string())),
        reply(assistant_text(2, "never reached")),
    ];
    let outcome = run_session(history, &config(), &script, &Vec::new(), &Vec::new(), None, 2, 5);

    // No further provider call after the overflow.
    assert_eq!(outcome.provider_calls, 1);
    assert_eq!(outcome.wire_events.len(), 2);
    assert!(matches!(outcome.wire_events[0], WireEvent::Error { .. }));
    assert_eq!(
        outcome.wire_events[1],
        WireEvent::Finish { reason: "error".to_string() }
    );
}

#[test]
fn tool_turn_answers_every_request_before_the_next_call() {
    let history = vec![Message::user(1).with_text("list the files".to_string())];
    let turn = Message::assistant(2)
        .with_block(ContentBlock::ToolRequest {
            id: "call-1".to_string(),
            name: "ls".to_string(),
            arguments: "{}".to_string(),
        })
        .with_block(ContentBlock::ToolRequest {
            id: "call-2".to_string(),
            name: "pwd".to_string(),
            arguments: "{}".to_string(),
        });
    let script = vec![
        reply(turn),
        reply(assistant_text(4, "done")),
    ];
    let tool_outputs = vec![
        (true, "a.txt b.txt".to_string()),
        (true, "/home".to_string()),
    ];
    let outcome = run_session(history, &config(), &script, &tool_outputs, &Vec::new(), None, 3, 5);

    assert_eq!(outcome.provider_calls, 2);
    // assistant turn, tool responses, final assistant message, finish
    assert_eq!(outcome.wire_events.len(), 4);
    match &outcome.wire_events[1] {
        WireEvent::Message(m) => {
            assert_eq!(m.role, Role::User);
            assert_eq!(
                m.content,
                vec![
                    ContentBlock::ToolResponse {
                        id: "call-1".to_string(),
                        success: true,
                        output: "a.txt b.txt".to_string(),
                    },
                    ContentBlock::ToolResponse {
                        id: "call-2".to_string(),
                        success: true,
                        output: "/home".to_string(),
                    },
                ]
            );
        },
        other => panic!("expected the tool response message, got {:?}", other),
    }
    assert_eq!(
        outcome.wire_events[3],
        WireEvent::Finish { reason: "stop".to_string() }
    );
    assert_eq!(outcome.transcript.len(), 4);
}

#[test]
fn denied_confirmation_synthesizes_a_refusal() {
    let history = vec![Message::user(1).with_text("delete it".to_string())];
    let turn = Message::assistant(2).with_block(ContentBlock::ToolConfirmationRequest {
        id: "c-1".to_string(),
        name: "rm".to_string(),
        arguments: "{}".to_string(),
    });
    let script = vec![
        reply(turn),
        reply(assistant_text(4, "understood")),
    ];
    // No scripted decision: the fail-closed default denies.
    let outcome = run_session(history, &config(), &script, &Vec::new(), &Vec::new(), None, 3, 5);

    match &outcome.wire_events[1] {
        WireEvent::Message(m) => {
            assert_eq!(
                m.content,
                vec![ContentBlock::ToolResponse {
                    id: "c-1".to_string(),
                    success: false,
                    output: "permission denied".to_string(),
                }]
            );
        },
        other => panic!("expected the refusal message, got {:?}", other),
    }
    assert_eq!(outcome.provider_calls, 2);
    assert_eq!(
        outcome.wire_events.last(),
        Some(&WireEvent::Finish { reason: "stop".to_string() })
    );
}

#[test]
fn granted_confirmation_dispatches_the_tool() {
    let history = vec![Message::user(1).with_text("read it".to_string())];
    let turn = Message::assistant(2).with_block(ContentBlock::ToolConfirmationRequest {
        id: "c-2".to_string(),
        name: "cat".to_string(),
        arguments: "{}".to_string(),
    });
    let script = vec![
        reply(turn),
        reply(assistant_text(4, "here it is")),
    ];
    let confirmations = vec![Permission::AllowOnce];
    let tool_outputs = vec![(true, "contents".to_string())];
    let outcome =
        run_session(history, &config(), &script, &tool_outputs, &confirmations, None, 3, 5);

    match &outcome.wire_events[1] {
        WireEvent::Message(m) => {
            assert_eq!(
                m.content,
                vec![ContentBlock::ToolResponse {
                    id: "c-2".to_string(),
                    success: true,
                    output: "contents".to_string(),
                }]
            );
        },
        other => panic!("expected the tool response message, got {:?}", other),
    }
}

#[test]
fn closed_client_stops_further_provider_calls_but_persists() {
    let history = vec![Message::user(1).with_text("go on forever".to_string())];
    let tool_turn = |created: u64, id: &str| {
        Message::assistant(created).with_block(ContentBlock::ToolRequest {
            id: id.to_string(),
            name: "step".to_string(),
            arguments: "{}".to_string(),
        })
    };
    let script = vec![
        reply(tool_turn(2, "s-1")),
        reply(tool_turn(3, "s-2")),
        reply(assistant_text(4, "done")),
    ];
    let tool_outputs = vec![(true, "ok".to_string()), (true, "ok".to_string())];
    // The client stops reading after the first event.
    let outcome = run_session(
        history,
        &config(),
        &script,
        &tool_outputs,
        &Vec::new(),
        Some(1),
        3,
        5,
    );

    assert_eq!(outcome.provider_calls, 1);
    // The partial transcript still made it to persistence.
    let persisted = outcome.persisted.expect("the partial transcript grew");
    assert_eq!(
        goose::codec::decode_transcript(&persisted),
        Some(outcome.transcript.clone())
    );
    // The stream was still finished exactly once.
    let finishes = outcome
        .wire_events
        .iter()
        .filter(|e| matches!(e, WireEvent::Finish { .. }))
        .count();
    assert_eq!(finishes, 1);
}

#[test]
fn every_outcome_carries_exactly_one_finish() {
    let scripts: Vec<Vec<ProviderReply>> = vec![
        vec![],
        vec![reply(assistant_text(2, "ok"))],
        vec![ProviderReply::Fail(ProviderError::ServerError("down".to_string()))],
    ];
    for script in scripts {
        let history = vec![Message::user(1).with_text("hi".to_string())];
        let outcome =
            run_session(history, &config(), &script, &Vec::new(), &Vec::new(), None, 2, 5);
        let finishes = outcome
            .wire_events
            .iter()
            .filter(|e| matches!(e, WireEvent::Finish { .. }))
            .count();
        assert_eq!(finishes, 1);
        assert!(outcome.execution.result.is_some());
    }
}

#[test]
fn max_turns_bounds_the_loop() {
    let history = vec![Message::user(1).with_text("hi".to_string())];
    let mut cfg = config();
    cfg.max_turns = Some(1);
    let turn = Message::assistant(2).with_block(ContentBlock::ToolRequest {
        id: "t-1".to_string(),
        name: "x".to_string(),
        arguments: "{}".to_string(),
    });
    let script = vec![
        reply(turn),
        reply(assistant_text(3, "never")),
    ];
    let outcome = run_session(history, &cfg, &script, &Vec::new(), &Vec::new(), None, 2, 5);
    // The turn budget is spent after the first assistant turn: no tool is
    // dispatched and no second provider call is made.
    assert_eq!(outcome.provider_calls, 1);
    assert_eq!(
        outcome.wire_events.last(),
        Some(&WireEvent::Finish { reason: "stop".to_string() })
    );
}
