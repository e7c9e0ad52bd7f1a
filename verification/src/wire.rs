//! Wire events: what the session transport serializes towards the client,
//! one JSON-like object per event, framed as a server-sent-event record.

use vstd::prelude::*;
use crate::codec::{emit_message, emit_str, emit_string, enc_message, enc_string};
use crate::message::Message;
use crate::strutil::string_from_chars;

verus! {

/// One event on the client-facing stream.
#[derive(Clone, Debug, PartialEq, Eq)]
pub enum WireEvent {
    Message(Message),
    Error { error: String },
    Finish { reason: String },
    ModelChange { model: String, mode: String },
    Notification { request_id: String, payload: String },
}

/// How many finish events a stream holds.
pub open spec fn count_finish(es: Seq<WireEvent>) -> int
    decreases es.len(),
{
    if es.len() == 0 {
        0
    } else {
        count_finish(es.drop_last()) + (if es.last() is Finish {
            1int
        } else {
            0int
        })
    }
}

/// Appending one event raises the finish count exactly when it is a finish.
pub proof fn lemma_count_finish_push(es: Seq<WireEvent>, e: WireEvent)
    ensures
        count_finish(es.push(e)) == count_finish(es) + (if e is Finish {
            1int
        } else {
            0int
        }),
{
    assert(es.push(e).drop_last() =~= es);
    assert(es.push(e).last() == e);
}

/// The serialized image of one wire event.
pub open spec fn enc_event(e: WireEvent) -> Seq<char> {
    match e {
        WireEvent::Message(m) => "{\"type\":\"Message\",\"message\":"@ + enc_message(m@) + "}"@,
        WireEvent::Error { error } => "{\"type\":\"Error\",\"error\":"@ + enc_string(error@)
            + "}"@,
        WireEvent::Finish { reason } => "{\"type\":\"Finish\",\"reason\":"@ + enc_string(reason@)
            + "}"@,
        WireEvent::ModelChange { model, mode } => "{\"type\":\"ModelChange\",\"model\":"@
            + enc_string(model@) + ",\"mode\":"@ + enc_string(mode@) + "}"@,
        WireEvent::Notification { request_id, payload } => {
            "{\"type\":\"Notification\",\"request_id\":"@ + enc_string(request_id@)
                + ",\"message\":"@ + enc_string(payload@) + "}"@
        },
    }
}

/// The event-stream frame around one serialized event.
pub open spec fn enc_frame(e: WireEvent) -> Seq<char> {
    "data: "@ + enc_event(e) + "\n\n"@
}

/// Serialize one wire event.
pub fn encode_wire_event(e: &WireEvent) -> (s: String)
    ensures
        s@ == enc_event(*e),
{
    let mut out: Vec<char> = Vec::new();
    match e {
        WireEvent::Message(m) => {
            emit_str(&mut out, "{\"type\":\"Message\",\"message\":");
            emit_message(&mut out, m);
            emit_str(&mut out, "}");
        },
        WireEvent::Error { error } => {
            emit_str(&mut out, "{\"type\":\"Error\",\"error\":");
            emit_string(&mut out, error.as_str());
            emit_str(&mut out, "}");
        },
        WireEvent::Finish { reason } => {
            emit_str(&mut out, "{\"type\":\"Finish\",\"reason\":");
            emit_string(&mut out, reason.as_str());
            emit_str(&mut out, "}");
        },
        WireEvent::ModelChange { model, mode } => {
            emit_str(&mut out, "{\"type\":\"ModelChange\",\"model\":");
            emit_string(&mut out, model.as_str());
            emit_str(&mut out, ",\"mode\":");
            emit_string(&mut out, mode.as_str());
            emit_str(&mut out, "}");
        },
        WireEvent::Notification { request_id, payload } => {
            emit_str(&mut out, "{\"type\":\"Notification\",\"request_id\":");
            emit_string(&mut out, request_id.as_str());
            emit_str(&mut out, ",\"message\":");
            emit_string(&mut out, payload.as_str());
            emit_str(&mut out, "}");
        },
    }
    proof {
        assert(out@ =~= enc_event(*e));
    }
    string_from_chars(&out)
}

/// Serialize one wire event as an event-stream record.
pub fn frame_wire_event(e: &WireEvent) -> (s: String)
    ensures
        s@ == enc_frame(*e),
{
    let body = encode_wire_event(e);
    let mut out = String::from_str("data: ");
    out.append(body.as_str());
    out.append("\n\n");
    out
}

} // verus!
