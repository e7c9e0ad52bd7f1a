//! The session transport: one reply invocation driven end to end. Events
//! from the reply loop are fanned out as wire events; a provider failure is
//! surfaced as one terminal error; the transcript is persisted exactly when
//! it grew; one telemetry record is finalized, success or failure; and the
//! client is owed exactly one finish event.

use vstd::prelude::*;
use crate::agent::{request_views, AgentAction, AgentEvent, ReplyLoop, SessionConfig, StepOutput};
use crate::channel::Permission;
use crate::codec::{enc_transcript, encode_transcript};
use crate::message::{no_tool_responses, transcript_view, transcript_well_formed, Message};
use crate::provider::{ProviderError, Usage};
use crate::telemetry::{
    create_session_execution, fail_execution, succeed_execution, SessionExecution, SessionResult,
};
use crate::wire::{count_finish, lemma_count_finish_push, WireEvent};

verus! {

/// What the provider does on one call: the next turn's message, or a
/// failure.
#[derive(Clone, Debug, PartialEq, Eq)]
pub enum ProviderReply {
    Reply(Message, Usage),
    Fail(ProviderError),
}

/// Everything one reply invocation leaves behind.
pub struct SessionOutcome {
    pub wire_events: Vec<WireEvent>,
    pub transcript: Vec<Message>,
    pub persisted: Option<String>,
    pub execution: SessionExecution,
    pub provider_calls: u64,
    pub usage: Usage,
}

/// A copy of a provider error, equal to the original.
fn clone_error(e: &ProviderError) -> (r: ProviderError)
    ensures
        r == *e,
{
    match e {
        ProviderError::ContextLengthExceeded(m) => ProviderError::ContextLengthExceeded(
            m.clone(),
        ),
        ProviderError::RateLimited(m) => ProviderError::RateLimited(m.clone()),
        ProviderError::ServerError(m) => ProviderError::ServerError(m.clone()),
        ProviderError::Authentication(m) => ProviderError::Authentication(m.clone()),
        ProviderError::RequestFailed(m) => ProviderError::RequestFailed(m.clone()),
        ProviderError::ExecutionError(m) => ProviderError::ExecutionError(m.clone()),
    }
}

/// Fan the loop's events out as wire events. No finish event is ever
/// produced here: only the end of the invocation finishes the stream.
fn forward_events(agent_events: &Vec<AgentEvent>, events: &mut Vec<WireEvent>)
    ensures
        final(events)@.len() == old(events)@.len() + agent_events@.len(),
        count_finish(final(events)@) == count_finish(old(events)@),
        final(events)@.take(old(events)@.len() as int) == old(events)@,
        old(events)@.len() == 0 && agent_events@.len() >= 1 ==> match agent_events@[0] {
            AgentEvent::Message(m) => final(events)@[0] matches WireEvent::Message(mm) && mm@
                == m@,
            _ => true,
        },
{
    let mut i: usize = 0;
    while i < agent_events.len()
        invariant
            i <= agent_events@.len(),
            events@.len() == old(events)@.len() + i,
            count_finish(events@) == count_finish(old(events)@),
            events@.take(old(events)@.len() as int) == old(events)@,
            old(events)@.len() == 0 && i >= 1 ==> match agent_events@[0] {
                AgentEvent::Message(m) => events@[0] matches WireEvent::Message(mm) && mm@ == m@,
                _ => true,
            },
        decreases agent_events@.len() - i,
    {
        let ghost pre = events@;
        let wire: WireEvent = match &agent_events[i] {
            AgentEvent::Message(m) => WireEvent::Message(crate::message::clone_message(m)),
            AgentEvent::ModelChange { model, mode } => WireEvent::ModelChange {
                model: model.clone(),
                mode: mode.clone(),
            },
            AgentEvent::Notification { request_id, payload } => WireEvent::Notification {
                request_id: request_id.clone(),
                payload: payload.clone(),
            },
        };
        proof {
            assert(!(wire is Finish));
        }
        events.push(wire);
        proof {
            lemma_count_finish_push(pre, wire);
            assert(events@.take(old(events)@.len() as int) =~= pre.take(
                old(events)@.len() as int,
            ));
        }
        i += 1;
    }
}

/// The terminal event pair for an invocation rejected before any work
/// begins: a missing agent or provider surfaces one error and one
/// error-reason finish, and nothing else.
pub fn configuration_failure_events(error: String) -> (events: Vec<WireEvent>)
    ensures
        events@.len() == 2,
        events@[0] matches WireEvent::Error { error: e } && e@ == error@,
        events@[1] matches WireEvent::Finish { reason } && reason@ == "error"@,
        count_finish(events@) == 1,
{
    let mut events: Vec<WireEvent> = Vec::new();
    let ghost pre0 = events@;
    events.push(WireEvent::Error { error });
    proof {
        lemma_count_finish_push(pre0, events@.last());
    }
    let ghost pre1 = events@;
    events.push(WireEvent::Finish { reason: String::from_str("error") });
    proof {
        lemma_count_finish_push(pre1, events@.last());
    }
    events
}

/// Run one whole reply invocation against a scripted provider, scripted tool
/// outcomes and scripted permission decisions, with an optional client that
/// stops reading after a number of events.
///
/// The contract carries the session guarantees: the stream ends with exactly
/// one finish event; the transcript only grows, and is persisted exactly
/// when it grew, in the canonical encoding; one telemetry record is
/// finalized; a provider failure ends the invocation at once — an error and
/// an error-reason finish are the last events, no later provider call is
/// made; and a closed client bounds the number of provider calls.
#[verifier::rlimit(100)]
#[verifier::spinoff_prover]
pub fn run_session(
    history: Vec<Message>,
    config: &SessionConfig,
    provider_script: &Vec<ProviderReply>,
    tool_outputs: &Vec<(bool, String)>,
    confirmations: &Vec<Permission>,
    closes_after: Option<u64>,
    now: u64,
    duration_ms: u64,
) -> (r: SessionOutcome)
    requires
        provider_script@.len() + 2 < u64::MAX,
        transcript_well_formed(transcript_view(history@)),
        forall|k: int|
            0 <= k < provider_script@.len() ==> ((#[trigger] provider_script@[k]) matches
            ProviderReply::Reply(m, u) ==> no_tool_responses(m@)),
    ensures
        transcript_well_formed(transcript_view(r.transcript@)),
        count_finish(r.wire_events@) == 1,
        r.wire_events@.len() >= 1 && r.wire_events@.last() is Finish,
        r.transcript@.len() >= history@.len(),
        r.transcript@.take(history@.len() as int) == history@,
        (r.persisted is Some) == (r.transcript@.len() > history@.len()),
        r.persisted matches Some(s) ==> s@ == enc_transcript(transcript_view(r.transcript@)),
        r.execution.finalized(),
        r.provider_calls as int <= provider_script@.len(),
        forall|k: int| 0 <= k < r.provider_calls - 1 ==> (#[trigger] provider_script@[k]) is Reply,
        (provider_script@.len() >= 1 && (closes_after matches Some(c) ==> c >= 1))
            ==> r.provider_calls >= 1,
        r.provider_calls >= 1 ==> match provider_script@[0] {
            ProviderReply::Reply(m0, u0) => r.wire_events@.len() >= 1 && (r.wire_events@[0]
            matches WireEvent::Message(me) && me@ == m0@),
            _ => true,
        },
        (r.provider_calls >= 1 && provider_script@[r.provider_calls as int - 1] is Fail) ==> {
            &&& r.wire_events@.len() >= 2
            &&& r.wire_events@[r.wire_events@.len() - 2] is Error
            &&& r.wire_events@.last() matches WireEvent::Finish { reason } && reason@ == "error"@
            &&& r.execution.result matches Some(res) && res is Error
        },
        closes_after matches Some(c) ==> r.provider_calls <= c + 1,
        match r.wire_events@.last() {
            WireEvent::Finish { reason } => (reason@ == "stop"@ || reason@ == "error"@) && ((
            reason@ == "stop"@) <==> r.execution.result == Some(SessionResult::Success)),
            _ => false,
        },
        r.provider_calls >= 1 ==> match provider_script@[r.provider_calls as int - 1] {
            ProviderReply::Reply(ml, ul) => r.transcript@.len() >= history@.len()
                + r.provider_calls,
            ProviderReply::Fail(e) => r.transcript@.len() >= history@.len() + r.provider_calls
                - 1,
        },
        (provider_script@.len() >= 1 && (closes_after matches Some(c) ==> c >= 1))
            ==> match provider_script@[0] {
            ProviderReply::Reply(m0, u0) => request_views(m0@.content).len() == 0 ==> {
                &&& r.provider_calls == 1
                &&& r.wire_events@.len() == 2
                &&& (r.wire_events@[1] matches WireEvent::Finish { reason } && reason@
                    == "stop"@)
                &&& r.transcript@.len() == history@.len() + 1
                &&& r.transcript@.last()@ == m0@
                &&& r.execution.result == Some(SessionResult::Success)
            },
            _ => true,
        },
{
    let ghost hist = history@;
    let hist_len: usize = history.len();
    let mut execution = create_session_execution(config.identifier.as_str(), "streaming", None, None);
    // The machine's first action is the initial provider call; this loop's
    // own schedule drives every call, so the action itself needs no keeping.
    let (mut machine, _first) = ReplyLoop::new(history, config);
    let mut events: Vec<WireEvent> = Vec::new();
    let mut script_idx: usize = 0;
    let mut tool_idx: usize = 0;
    let mut conf_idx: usize = 0;
    let mut failed: Option<ProviderError> = None;
    let mut usage = Usage::default();
    loop
        invariant_except_break
            machine.well_formed(),
            machine.phase is AwaitingProvider,
            machine.transcript@.len() >= hist_len,
            machine.transcript@.take(hist_len as int) == hist,
            count_finish(events@) == 0,
            script_idx <= provider_script@.len(),
            provider_script@.len() + 2 < u64::MAX,
            forall|k: int|
                0 <= k < provider_script@.len() ==> ((#[trigger] provider_script@[k]) matches
                ProviderReply::Reply(m, u) ==> no_tool_responses(m@)),
            machine.provider_calls as int <= script_idx + 1,
            machine.turns as int <= script_idx,
            failed is None,
            !execution.finalized(),
            forall|k: int| 0 <= k < script_idx ==> (#[trigger] provider_script@[k]) is Reply,
            script_idx == 0 ==> events@.len() == 0,
            script_idx == 0 ==> machine.transcript@.len() == hist_len,
            machine.transcript@.len() >= hist_len + script_idx,
            script_idx >= 1 ==> events@.len() >= 1,
            (provider_script@.len() >= 1 && (closes_after matches Some(c) ==> c >= 1) && (
            match provider_script@[0] {
                ProviderReply::Reply(m0, u0) => request_views(m0@.content).len() == 0,
                _ => false,
            })) ==> script_idx == 0,
            script_idx >= 1 ==> match provider_script@[0] {
                ProviderReply::Reply(m0, u0) => events@[0] matches WireEvent::Message(me) && me@
                    == m0@,
                _ => true,
            },
            closes_after matches Some(c) ==> script_idx as int <= events@.len() && script_idx
                <= c,
        ensures
            machine.well_formed(),
            machine.transcript@.len() >= hist_len,
            machine.transcript@.take(hist_len as int) == hist,
            count_finish(events@) == 0,
            script_idx <= provider_script@.len(),
            !execution.finalized(),
            forall|k: int|
                0 <= k < script_idx - 1 ==> (#[trigger] provider_script@[k]) is Reply,
            (script_idx >= 1 && provider_script@[script_idx as int - 1] is Fail) ==> failed
                is Some,
            (provider_script@.len() >= 1 && (closes_after matches Some(c) ==> c >= 1))
                ==> script_idx >= 1,
            script_idx >= 1 ==> match provider_script@[0] {
                ProviderReply::Reply(m0, u0) => events@.len() >= 1 && (events@[0] matches
                WireEvent::Message(me) && me@ == m0@),
                _ => true,
            },
            closes_after matches Some(c) ==> script_idx as int <= c + 1,
            script_idx >= 1 ==> match provider_script@[script_idx as int - 1] {
                ProviderReply::Reply(ml, ul) => machine.transcript@.len() >= hist_len
                    + script_idx,
                ProviderReply::Fail(e) => machine.transcript@.len() >= hist_len + script_idx
                    - 1,
            },
            (provider_script@.len() >= 1 && (closes_after matches Some(c) ==> c >= 1) && (
            match provider_script@[0] {
                ProviderReply::Reply(m0, u0) => request_views(m0@.content).len() == 0,
                _ => false,
            })) ==> (script_idx == 1 && failed is None && events@.len() == 1
                && machine.transcript@.len() == hist_len + 1 && (match provider_script@[0] {
                ProviderReply::Reply(m0, u0) => machine.transcript@.last()@ == m0@,
                _ => true,
            })),
        decreases provider_script@.len() - script_idx,
    {
        let client_closed: bool = match closes_after {
            Some(c) => events.len() as u64 >= c,
            None => false,
        };
        if client_closed {
            break;
        }
        if script_idx == provider_script.len() {
            failed = Some(ProviderError::RequestFailed(String::from_str("provider unavailable")));
            break;
        }
        match &provider_script[script_idx] {
            ProviderReply::Fail(e) => {
                script_idx += 1;
                let _ = machine.on_provider_error(e);
                failed = Some(clone_error(e));
                break;
            },
            ProviderReply::Reply(m, u) => {
                script_idx += 1;
                usage = usage.saturating_add(*u);
                let out = machine.on_provider_success(crate::message::clone_message(m));
                let StepOutput { events: aevents, actions } = out;
                let ghost pre_events = events@;
                forward_events(&aevents, &mut events);
                proof {
                    assert(events@.len() >= pre_events.len() + 1) by {
                        assert(events@.take(pre_events.len() as int) == pre_events);
                        assert(events@.len() >= pre_events.len());
                        if events@.len() == pre_events.len() {
                            assert(events@ =~= pre_events);
                        }
                    }
                }
                if machine.phase == crate::agent::LoopPhase::Done {
                    break;
                }
                let mut ai: usize = 0;
                while ai < actions.len()
                    invariant
                        machine.well_formed(),
                        machine.phase is AwaitingTools || machine.phase is AwaitingProvider,
                        machine.transcript@.len() >= hist_len + script_idx,
                        machine.transcript@.take(hist_len as int) == hist,
                        count_finish(events@) == 0,
                        events@.len() >= pre_events.len() + 1,
                        script_idx >= 1,
                        events@.len() >= 1,
                        script_idx >= 1 ==> match provider_script@[0] {
                            ProviderReply::Reply(m0, u0) => events@[0] matches WireEvent::Message(
                                me,
                            ) && me@ == m0@,
                            _ => true,
                        },
                        machine.provider_calls as int <= script_idx + 1,
                        machine.phase is AwaitingTools ==> machine.provider_calls as int
                            <= script_idx,
                        machine.turns as int <= script_idx,
                        script_idx <= provider_script@.len(),
                        provider_script@.len() + 2 < u64::MAX,
                        ai <= actions@.len(),
                    decreases actions@.len() - ai,
                {
                    let awaiting: bool = machine.phase
                        == crate::agent::LoopPhase::AwaitingTools;
                    match &actions[ai] {
                        AgentAction::CallProvider => {},
                        AgentAction::DispatchTool { id, .. } => {
                            if awaiting {
                                let succ: bool;
                                let outp: String;
                                if tool_idx < tool_outputs.len() {
                                    succ = tool_outputs[tool_idx].0;
                                    outp = tool_outputs[tool_idx].1.clone();
                                    tool_idx += 1;
                                } else {
                                    succ = false;
                                    outp = String::from_str("tool unavailable");
                                }
                                let tout = machine.on_tool_outcome(id.as_str(), succ, outp, now);
                                forward_events(&tout.events, &mut events);
                            }
                        },
                        AgentAction::RequestConfirmation { id, .. } => {
                            if awaiting {
                                let perm: Permission;
                                if conf_idx < confirmations.len() {
                                    perm = confirmations[conf_idx];
                                    conf_idx += 1;
                                } else {
                                    perm = Permission::DenyOnce;
                                }
                                let cout = machine.on_confirmation(id.as_str(), perm, now);
                                let StepOutput { events: cevents, actions: cactions } = cout;
                                forward_events(&cevents, &mut events);
                                let mut ci: usize = 0;
                                while ci < cactions.len()
                                    invariant
                                        machine.well_formed(),
                                        machine.phase is AwaitingTools || machine.phase
                                            is AwaitingProvider,
                                        machine.transcript@.len() >= hist_len + script_idx,
                                        machine.transcript@.take(hist_len as int) == hist,
                                        count_finish(events@) == 0,
                                        events@.len() >= pre_events.len() + 1,
                                        script_idx >= 1,
                                        events@.len() >= 1,
                                        script_idx >= 1 ==> match provider_script@[0] {
                                            ProviderReply::Reply(m0, u0) => events@[0] matches
                                                WireEvent::Message(me) && me@ == m0@,
                                            _ => true,
                                        },
                                        machine.provider_calls as int <= script_idx + 1,
                                        machine.phase is AwaitingTools
                                            ==> machine.provider_calls as int <= script_idx,
                                        machine.turns as int <= script_idx,
                                        script_idx <= provider_script@.len(),
                                        provider_script@.len() + 2 < u64::MAX,
                                        ci <= cactions@.len(),
                                    decreases cactions@.len() - ci,
                                {
                                    let cawaiting: bool = machine.phase
                                        == crate::agent::LoopPhase::AwaitingTools;
                                    match &cactions[ci] {
                                        AgentAction::DispatchTool { id: did, .. } => {
                                            if cawaiting {
                                                let succ: bool;
                                                let outp: String;
                                                if tool_idx < tool_outputs.len() {
                                                    succ = tool_outputs[tool_idx].0;
                                                    outp = tool_outputs[tool_idx].1.clone();
                                                    tool_idx += 1;
                                                } else {
                                                    succ = false;
                                                    outp = String::from_str("tool unavailable");
                                                }
                                                let tout = machine.on_tool_outcome(
                                                    did.as_str(),
                                                    succ,
                                                    outp,
                                                    now,
                                                );
                                                forward_events(&tout.events, &mut events);
                                            }
                                        },
                                        _ => {},
                                    }
                                    ci += 1;
                                }
                            }
                        },
                    }
                    ai += 1;
                }
                // Every action above answers exactly one slot, so the turn
                // is complete here; this branch only keeps the failure path
                // explicit for states the verifier cannot rule out.
                if machine.phase == crate::agent::LoopPhase::AwaitingTools {
                    failed = Some(
                        ProviderError::ExecutionError(
                            String::from_str("tool outcomes incomplete"),
                        ),
                    );
                    break;
                }
                if machine.phase == crate::agent::LoopPhase::Done {
                    break;
                }
            },
        }
    }
    proof {
        reveal_strlit("stop");
        reveal_strlit("error");
        assert("stop"@.len() == 4);
        assert("error"@.len() == 5);
    }
    let turns = machine.turns;
    let transcript = machine.transcript;
    let grew: bool = transcript.len() > hist_len;
    let persisted: Option<String> = if grew {
        Some(encode_transcript(&transcript))
    } else {
        None
    };
    let message_count = transcript.len() as u64;
    let final_execution: SessionExecution;
    match &failed {
        Some(e) => {
            let ghost pre1 = events@;
            events.push(WireEvent::Error { error: e.reason().clone() });
            proof {
                lemma_count_finish_push(pre1, events@.last());
            }
            let ghost pre2 = events@;
            events.push(WireEvent::Finish { reason: String::from_str("error") });
            proof {
                lemma_count_finish_push(pre2, events@.last());
            }
            final_execution = fail_execution(
                execution,
                e.reason().clone(),
                duration_ms,
                Some(message_count),
                Some(turns),
            );
        },
        None => {
            let ghost pre1 = events@;
            events.push(WireEvent::Finish { reason: String::from_str("stop") });
            proof {
                lemma_count_finish_push(pre1, events@.last());
            }
            final_execution = succeed_execution(execution, duration_ms, message_count, turns);
        },
    }
    SessionOutcome {
        wire_events: events,
        transcript,
        persisted,
        execution: final_execution,
        provider_calls: script_idx as u64,
        usage,
    }
}

} // verus!
