use goose::agent::{AgentAction, LoopPhase, ReplyLoop, SessionConfig};
use goose::channel::{
    default_principal_type, permission_from_action, Permission, PendingArena,
    PermissionConfirmationRequest, PrincipalType, ToolResultPayload,
};
use goose::message::{ContentBlock, Message};

#[test]
fn action_strings_map_fail_closed() {
    assert_eq!(permission_from_action("always_allow"), Permission::AlwaysAllow);
    assert_eq!(permission_from_action("allow_once"), Permission::AllowOnce);
    assert_eq!(permission_from_action("deny"), Permission::DenyOnce);
    // Anything unmapped defaults to a denial, not an error.
    assert_eq!(permission_from_action(""), Permission::DenyOnce);
    assert_eq!(permission_from_action("ALLOW_ONCE"), Permission::DenyOnce);
    assert_eq!(permission_from_action("grant everything"), Permission::DenyOnce);
}

#[test]
fn default_principal_is_tool() {
    assert_eq!(default_principal_type(), PrincipalType::Tool);
    let req = PermissionConfirmationRequest {
        id: "c-1".to_string(),
        principal_type: default_principal_type(),
        action: "allow_once".to_string(),
    };
    assert_eq!(req.principal_type, PrincipalType::Tool);
}

#[test]
fn resolving_twice_is_a_no_op_the_second_time() {
    let mut arena: PendingArena<Permission> = PendingArena::new();
    arena.register("c-1".to_string());
    let first = arena.resolve(&"c-1".to_string(), Permission::AllowOnce);
    assert!(first);
    let second = arena.resolve(&"c-1".to_string(), Permission::DenyOnce);
    assert!(!second);
    // The first decision is the one that stays.
    assert_eq!(arena.take(&"c-1".to_string()), Some(Permission::AllowOnce));
}

#[test]
fn resolving_unknown_id_has_no_effect() {
    let mut arena: PendingArena<ToolResultPayload> = PendingArena::new();
    let effective = arena.resolve(
        &"never-registered".to_string(),
        ToolResultPayload::Success { output: "out".to_string() },
    );
    assert!(!effective);
    assert_eq!(arena.take(&"never-registered".to_string()), None);

    arena.register("t-1".to_string());
    assert!(arena.resolve(
        &"t-1".to_string(),
        ToolResultPayload::Error { reason: "boom".to_string() }
    ));
    assert_eq!(
        arena.take(&"t-1".to_string()),
        Some(ToolResultPayload::Error { reason: "boom".to_string() })
    );
    // Consumed: a later resolution of the same id changes nothing.
    assert!(!arena.resolve(
        &"t-1".to_string(),
        ToolResultPayload::Success { output: "late".to_string() }
    ));
    assert_eq!(arena.take(&"t-1".to_string()), None);
}

#[test]
fn take_before_resolution_returns_nothing() {
    let mut arena: PendingArena<Permission> = PendingArena::new();
    arena.register("c-9".to_string());
    assert_eq!(arena.take(&"c-9".to_string()), None);
    // Still pending: a resolution afterwards is effective.
    assert!(arena.resolve(&"c-9".to_string(), Permission::DenyOnce));
    assert_eq!(arena.take(&"c-9".to_string()), Some(Permission::DenyOnce));
}

#[test]
fn submitted_tool_result_feeds_the_loop() {
    let history = vec![Message::user(1).with_text("run it".to_string())];
    let cfg = SessionConfig {
        identifier: "s".to_string(),
        working_directory: ".".to_string(),
        schedule_id: None,
        execution_mode: None,
        max_turns: None,
        retry_config: None,
    };
    let (mut machine, _first) = ReplyLoop::new(history, &cfg);
    let turn = Message::assistant(2).with_block(ContentBlock::ToolRequest {
        id: "job-1".to_string(),
        name: "run".to_string(),
        arguments: "{}".to_string(),
    });
    let _out = machine.on_provider_success(turn);
    assert_eq!(machine.phase, LoopPhase::AwaitingTools);
    let step = machine.on_tool_result(
        "job-1",
        ToolResultPayload::Error { reason: "it broke".to_string() },
        3,
    );
    // The turn is complete: the loop asks the provider again, and the
    // transcript carries the failed response.
    assert_eq!(machine.phase, LoopPhase::AwaitingProvider);
    assert_eq!(step.events.len(), 1);
    let last = machine.transcript.last().unwrap();
    assert_eq!(
        last.content,
        vec![ContentBlock::ToolResponse {
            id: "job-1".to_string(),
            success: false,
            output: "it broke".to_string(),
        }]
    );
}

#[test]
fn unknown_tool_outcome_changes_nothing() {
    let history = vec![Message::user(1).with_text("go".to_string())];
    let cfg = SessionConfig {
        identifier: "s".to_string(),
        working_directory: ".".to_string(),
        schedule_id: None,
        execution_mode: None,
        max_turns: None,
        retry_config: None,
    };
    let (mut machine, _first) = ReplyLoop::new(history, &cfg);
    let turn = Message::assistant(2).with_block(ContentBlock::ToolRequest {
        id: "real".to_string(),
        name: "run".to_string(),
        arguments: "{}".to_string(),
    });
    let _ = machine.on_provider_success(turn);
    let before = machine.transcript.clone();
    let step = machine.on_tool_outcome("imaginary", true, "out".to_string(), 3);
    // No slot matches: nothing moves.
    assert_eq!(machine.phase, LoopPhase::AwaitingTools);
    assert_eq!(machine.transcript, before);
    assert!(step.events.is_empty());
    assert!(step.actions.is_empty());
    // The real id still completes the turn.
    let step2 = machine.on_tool_outcome("real", true, "out".to_string(), 3);
    assert_eq!(machine.phase, LoopPhase::AwaitingProvider);
    assert_eq!(step2.events.len(), 1);
}

#[test]
fn duplicate_request_ids_fill_in_dispatch_order() {
    let history = vec![Message::user(1).with_text("twice".to_string())];
    let cfg = SessionConfig {
        identifier: "s".to_string(),
        working_directory: ".".to_string(),
        schedule_id: None,
        execution_mode: None,
        max_turns: None,
        retry_config: None,
    };
    let (mut machine, _first) = ReplyLoop::new(history, &cfg);
    let turn = Message::assistant(2)
        .with_block(ContentBlock::ToolRequest {
            id: "same".to_string(),
            name: "first".to_string(),
            arguments: "{}".to_string(),
        })
        .with_block(ContentBlock::ToolRequest {
            id: "same".to_string(),
            name: "second".to_string(),
            arguments: "{}".to_string(),
        });
    let _ = machine.on_provider_success(turn);
    let _ = machine.on_tool_outcome("same", true, "one".to_string(), 3);
    assert_eq!(machine.phase, LoopPhase::AwaitingTools);
    let _ = machine.on_tool_outcome("same", true, "two".to_string(), 3);
    assert_eq!(machine.phase, LoopPhase::AwaitingProvider);
    let last = machine.transcript.last().unwrap();
    // Each request got exactly one response, in dispatch order.
    assert_eq!(
        last.content,
        vec![
            ContentBlock::ToolResponse {
                id: "same".to_string(),
                success: true,
                output: "one".to_string(),
            },
            ContentBlock::ToolResponse {
                id: "same".to_string(),
                success: true,
                output: "two".to_string(),
            },
        ]
    );
}

#[test]
fn granted_confirmation_dispatch_carries_the_slot_fields() {
    let history = vec![Message::user(1).with_text("fetch it".to_string())];
    let cfg = SessionConfig {
        identifier: "s".to_string(),
        working_directory: ".".to_string(),
        schedule_id: None,
        execution_mode: None,
        max_turns: None,
        retry_config: None,
    };
    let (mut machine, _first) = ReplyLoop::new(history, &cfg);
    let turn = Message::assistant(2).with_block(ContentBlock::ToolConfirmationRequest {
        id: "c-7".to_string(),
        name: "fetch".to_string(),
        arguments: "{\"url\":\"a\"}".to_string(),
    });
    let _ = machine.on_provider_success(turn);
    let step = machine.on_confirmation("c-7", Permission::AllowOnce, 3);
    // Exactly one dispatch, carrying the slot's own name and arguments.
    assert_eq!(
        step.actions,
        vec![AgentAction::DispatchTool {
            id: "c-7".to_string(),
            name: "fetch".to_string(),
            arguments: "{\"url\":\"a\"}".to_string(),
        }]
    );
    assert!(step.events.is_empty());
    // The grant itself answers nothing: the slot still awaits its outcome.
    assert_eq!(machine.phase, LoopPhase::AwaitingTools);
}
