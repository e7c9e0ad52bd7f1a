use goose::ask::{collect_response_text, trim_text};
use goose::message::{ContentBlock, Message, Role};
use goose::provider::{ProviderError, Usage};
use goose::transport::{run_session, ProviderReply};

fn reply(m: Message) -> ProviderReply {
    ProviderReply::Reply(m, Usage::default())
}

#[test]
fn trim_removes_surrounding_whitespace_only() {
    assert_eq!(trim_text("  hello world \n"), "hello world");
    assert_eq!(trim_text("\t\r\n  \n"), "");
    assert_eq!(trim_text(""), "");
    assert_eq!(trim_text("inner  spaces kept"), "inner  spaces kept");
}

#[test]
fn response_text_joins_assistant_text_blocks() {
    let messages = vec![
        Message::user(1).with_text("question".to_string()),
        Message::assistant(2)
            .with_text("first".to_string())
            .with_block(ContentBlock::Thinking { thinking: "hidden".to_string() })
            .with_text("second".to_string()),
        Message {
            role: Role::User,
            created: 3,
            content: vec![ContentBlock::ToolResponse {
                id: "t".to_string(),
                success: true,
                output: "ignored".to_string(),
            }],
        },
        Message::assistant(4).with_text("third".to_string()),
    ];
    // From the start of the new messages: the user prompt contributes nothing.
    assert_eq!(collect_response_text(&messages, 0), "first\nsecond\nthird");
    // From a later offset only the later messages count.
    assert_eq!(collect_response_text(&messages, 3), "third");
    assert_eq!(collect_response_text(&messages, 4), "");
}

#[test]
fn ask_flow_answers_from_the_session_run() {
    let history = vec![Message::user(1).with_text("hi".to_string())];
    let hist_len = history.len();
    let script = vec![reply(
        Message::assistant(2).with_text("hello there".to_string()),
    )];
    let cfg = goose::agent::SessionConfig {
        identifier: "ask-1".to_string(),
        working_directory: ".".to_string(),
        schedule_id: None,
        execution_mode: None,
        max_turns: None,
        retry_config: None,
    };
    let outcome = run_session(history, &cfg, &script, &Vec::new(), &Vec::new(), None, 2, 5);
    let response = collect_response_text(&outcome.transcript, hist_len);
    assert_eq!(response, "hello there");
}

#[test]
fn ask_flow_fails_when_the_provider_fails() {
    let history = vec![Message::user(1).with_text("hi".to_string())];
    let hist_len = history.len();
    let script = vec![ProviderReply::Fail(ProviderError::Authentication(
        "bad key".to_string(),
    ))];
    let cfg = goose::agent::SessionConfig {
        identifier: "ask-2".to_string(),
        working_directory: ".".to_string(),
        schedule_id: None,
        execution_mode: None,
        max_turns: None,
        retry_config: None,
    };
    let outcome = run_session(history, &cfg, &script, &Vec::new(), &Vec::new(), None, 2, 5);
    assert_eq!(collect_response_text(&outcome.transcript, hist_len), "");
    assert!(matches!(
        outcome.execution.result,
        Some(goose::telemetry::SessionResult::Error(_))
    ));
}
