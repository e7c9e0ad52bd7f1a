//! The agent reply loop: the state machine that drives one reply invocation.
//! It asks the provider for the next turn, interprets tool calls, waits for
//! every tool outcome or permission decision of the turn, and decides whether
//! another turn follows. The runtime performs the actions it emits and feeds
//! the outcomes back in.

use vstd::prelude::*;
use crate::channel::{Permission, ToolResultPayload};
use crate::message::{
    lemma_wf_push, lemma_wf_push_clean, message_requests_id, no_tool_responses, transcript_view,
    transcript_well_formed, BlockView, ContentBlock, Message, Role,
};
use crate::provider::{ProviderError, RetryConfig};

verus! {

/// Per-invocation session configuration; not persisted itself.
#[derive(Clone, Debug, PartialEq, Eq)]
pub struct SessionConfig {
    pub identifier: String,
    pub working_directory: String,
    pub schedule_id: Option<String>,
    pub execution_mode: Option<String>,
    pub max_turns: Option<u64>,
    pub retry_config: Option<RetryConfig>,
}

/// What the reply loop emits towards the session transport.
#[derive(Clone, Debug, PartialEq, Eq)]
pub enum AgentEvent {
    Message(Message),
    ModelChange { model: String, mode: String },
    Notification { request_id: String, payload: String },
}

/// What the runtime must do next on the loop's behalf.
#[derive(Clone, Debug, PartialEq, Eq)]
pub enum AgentAction {
    CallProvider,
    DispatchTool { id: String, name: String, arguments: String },
    RequestConfirmation { id: String, name: String, arguments: String },
}

/// Where the loop stands.
#[derive(Clone, Copy, Debug, PartialEq, Eq, Structural)]
pub enum LoopPhase {
    AwaitingProvider,
    AwaitingTools,
    Done,
}

/// One tool call of the current turn, in dispatch order.
#[derive(Clone, Debug, PartialEq, Eq)]
pub struct ToolSlot {
    pub id: String,
    pub name: String,
    pub arguments: String,
    pub needs_confirmation: bool,
    pub response: Option<ContentBlock>,
}

/// What one transition hands back: events for the transport, actions for the
/// runtime.
#[derive(Clone, Debug, PartialEq, Eq)]
pub struct StepOutput {
    pub events: Vec<AgentEvent>,
    pub actions: Vec<AgentAction>,
}

/// Is this block a tool call of the turn: a request or a confirmation
/// request?
pub open spec fn is_request_block(b: BlockView) -> bool {
    b is ToolRequest || b is ToolConfirmationRequest
}

/// The slot a request-like block gives rise to: id, tool name, arguments,
/// and whether a permission confirmation must come first.
pub open spec fn block_slot_view(b: BlockView) -> (Seq<char>, Seq<char>, Seq<char>, bool) {
    match b {
        BlockView::ToolRequest { id, name, arguments } => (id, name, arguments, false),
        BlockView::ToolConfirmationRequest { id, name, arguments } => (id, name, arguments, true),
        _ => (Seq::<char>::empty(), Seq::<char>::empty(), Seq::<char>::empty(), false),
    }
}

/// The slots a message's content calls for, in block order.
pub open spec fn request_views(c: Seq<BlockView>) -> Seq<(Seq<char>, Seq<char>, Seq<char>, bool)>
    decreases c.len(),
{
    if c.len() == 0 {
        Seq::<(Seq<char>, Seq<char>, Seq<char>, bool)>::empty()
    } else {
        (if is_request_block(c[0]) {
            seq![block_slot_view(c[0])]
        } else {
            Seq::<(Seq<char>, Seq<char>, Seq<char>, bool)>::empty()
        }) + request_views(c.drop_first())
    }
}

proof fn lemma_request_views_push(c: Seq<BlockView>, b: BlockView)
    ensures
        request_views(c.push(b)) == request_views(c) + (if is_request_block(b) {
            seq![block_slot_view(b)]
        } else {
            Seq::<(Seq<char>, Seq<char>, Seq<char>, bool)>::empty()
        }),
    decreases c.len(),
{
    let whole = c.push(b);
    let extra = if is_request_block(b) {
        seq![block_slot_view(b)]
    } else {
        Seq::<(Seq<char>, Seq<char>, Seq<char>, bool)>::empty()
    };
    if c.len() == 0 {
        assert(whole[0] == b);
        assert(whole.drop_first() =~= Seq::<BlockView>::empty());
        assert(request_views(whole) == (if is_request_block(b) {
            seq![block_slot_view(b)]
        } else {
            Seq::<(Seq<char>, Seq<char>, Seq<char>, bool)>::empty()
        }) + request_views(Seq::<BlockView>::empty()));
        assert(request_views(whole) =~= request_views(c) + extra);
    } else {
        assert(whole[0] == c[0]);
        assert(whole.drop_first() =~= c.drop_first().push(b));
        lemma_request_views_push(c.drop_first(), b);
        let head = if is_request_block(c[0]) {
            seq![block_slot_view(c[0])]
        } else {
            Seq::<(Seq<char>, Seq<char>, Seq<char>, bool)>::empty()
        };
        assert(head + (request_views(c.drop_first()) + extra) =~= (head + request_views(
            c.drop_first(),
        )) + extra);
        assert(request_views(whole) =~= request_views(c) + extra);
    }
}

/// The view of a turn's slots: id, tool name, arguments, confirmation flag.
pub open spec fn slot_views(s: Seq<ToolSlot>) -> Seq<(Seq<char>, Seq<char>, Seq<char>, bool)> {
    s.map_values(
        |x: ToolSlot| (x.id@, x.name@, x.arguments@, x.needs_confirmation),
    )
}

/// The full view of one slot: id, tool name, arguments, confirmation flag,
/// and the response block recorded so far.
pub open spec fn slot_full_view(s: ToolSlot) -> (
    Seq<char>,
    Seq<char>,
    Seq<char>,
    bool,
    Option<BlockView>,
) {
    (
        s.id@,
        s.name@,
        s.arguments@,
        s.needs_confirmation,
        match s.response {
            Some(b) => Some(b@),
            None => None,
        },
    )
}

/// The full view of a turn's slots.
pub open spec fn pending_views(s: Seq<ToolSlot>) -> Seq<
    (Seq<char>, Seq<char>, Seq<char>, bool, Option<BlockView>),
> {
    s.map_values(|x: ToolSlot| slot_full_view(x))
}

/// Would a response for `id` land on this slot: still unanswered, matching
/// id, and — when only confirmation slots are addressed — needing one?
pub open spec fn view_matches(
    v: (Seq<char>, Seq<char>, Seq<char>, bool, Option<BlockView>),
    id: Seq<char>,
    only_confirmation: bool,
) -> bool {
    v.4 is None && (!only_confirmation || v.3) && v.0 == id
}

/// Is `i` the first slot a response for `id` lands on?
pub open spec fn is_first_match(
    vs: Seq<(Seq<char>, Seq<char>, Seq<char>, bool, Option<BlockView>)>,
    id: Seq<char>,
    only_confirmation: bool,
    i: int,
) -> bool {
    &&& 0 <= i < vs.len()
    &&& view_matches(vs[i], id, only_confirmation)
    &&& forall|k: int| 0 <= k < i ==> !view_matches(#[trigger] vs[k], id, only_confirmation)
}

/// The response block a submitted tool result stands for: a success carries
/// the tool's output, a failure its reason as a failed response.
pub open spec fn payload_response_view(id: Seq<char>, result: ToolResultPayload) -> BlockView {
    match result {
        ToolResultPayload::Success { output } => BlockView::ToolResponse {
            id,
            success: true,
            output: output@,
        },
        ToolResultPayload::Error { reason } => BlockView::ToolResponse {
            id,
            success: false,
            output: reason@,
        },
    }
}

/// The slot view once a response block has been recorded on it.
pub open spec fn answered_view(
    v: (Seq<char>, Seq<char>, Seq<char>, bool, Option<BlockView>),
    b: BlockView,
) -> (Seq<char>, Seq<char>, Seq<char>, bool, Option<BlockView>) {
    (v.0, v.1, v.2, v.3, Some(b))
}

/// The dispatches a permission grant for `id` triggers: one per still
/// unanswered confirmation slot with that id, in slot order, carrying the
/// slot's id, tool name and arguments.
pub open spec fn confirmation_dispatches(
    vs: Seq<(Seq<char>, Seq<char>, Seq<char>, bool, Option<BlockView>)>,
    id: Seq<char>,
) -> Seq<(Seq<char>, Seq<char>, Seq<char>)>
    decreases vs.len(),
{
    if vs.len() == 0 {
        Seq::<(Seq<char>, Seq<char>, Seq<char>)>::empty()
    } else {
        (if view_matches(vs[0], id, true) {
            seq![(vs[0].0, vs[0].1, vs[0].2)]
        } else {
            Seq::<(Seq<char>, Seq<char>, Seq<char>)>::empty()
        }) + confirmation_dispatches(vs.drop_first(), id)
    }
}

proof fn lemma_confirmation_dispatches_push(
    vs: Seq<(Seq<char>, Seq<char>, Seq<char>, bool, Option<BlockView>)>,
    v: (Seq<char>, Seq<char>, Seq<char>, bool, Option<BlockView>),
    id: Seq<char>,
)
    ensures
        confirmation_dispatches(vs.push(v), id) == confirmation_dispatches(vs, id) + (
        if view_matches(v, id, true) {
            seq![(v.0, v.1, v.2)]
        } else {
            Seq::<(Seq<char>, Seq<char>, Seq<char>)>::empty()
        }),
    decreases vs.len(),
{
    let whole = vs.push(v);
    let extra = if view_matches(v, id, true) {
        seq![(v.0, v.1, v.2)]
    } else {
        Seq::<(Seq<char>, Seq<char>, Seq<char>)>::empty()
    };
    if vs.len() == 0 {
        assert(whole[0] == v);
        assert(whole.drop_first() =~= Seq::<
            (Seq<char>, Seq<char>, Seq<char>, bool, Option<BlockView>),
        >::empty());
        assert(confirmation_dispatches(whole, id) == extra + confirmation_dispatches(
            Seq::<(Seq<char>, Seq<char>, Seq<char>, bool, Option<BlockView>)>::empty(),
            id,
        ));
        assert(confirmation_dispatches(whole, id) =~= confirmation_dispatches(vs, id) + extra);
    } else {
        assert(whole[0] == vs[0]);
        assert(whole.drop_first() =~= vs.drop_first().push(v));
        lemma_confirmation_dispatches_push(vs.drop_first(), v, id);
        let head = if view_matches(vs[0], id, true) {
            seq![(vs[0].0, vs[0].1, vs[0].2)]
        } else {
            Seq::<(Seq<char>, Seq<char>, Seq<char>)>::empty()
        };
        assert(head + (confirmation_dispatches(vs.drop_first(), id) + extra) =~= (head
            + confirmation_dispatches(vs.drop_first(), id)) + extra);
        assert(confirmation_dispatches(whole, id) =~= confirmation_dispatches(vs, id) + extra);
    }
}

/// The id, tool name and arguments each action carries.
pub open spec fn dispatch_views(actions: Seq<AgentAction>) -> Seq<(Seq<char>, Seq<char>, Seq<char>)> {
    actions.map_values(
        |a: AgentAction|
            match a {
                AgentAction::DispatchTool { id, name, arguments } => (id@, name@, arguments@),
                _ => (Seq::<char>::empty(), Seq::<char>::empty(), Seq::<char>::empty()),
            },
    )
}

/// Is every slot of a viewed turn answered?
pub open spec fn views_all_answered(
    vs: Seq<(Seq<char>, Seq<char>, Seq<char>, bool, Option<BlockView>)>,
) -> bool {
    forall|i: int| 0 <= i < vs.len() ==> (#[trigger] vs[i]).4 is Some
}

/// The response blocks of a fully answered viewed turn, in dispatch order.
pub open spec fn view_response_blocks(
    vs: Seq<(Seq<char>, Seq<char>, Seq<char>, bool, Option<BlockView>)>,
) -> Seq<BlockView> {
    vs.map_values(
        |v: (Seq<char>, Seq<char>, Seq<char>, bool, Option<BlockView>)| v.4->0,
    )
}

/// The slot views say the same as the slots about answers and responses.
proof fn lemma_views_bridge(s: Seq<ToolSlot>)
    ensures
        views_all_answered(pending_views(s)) == all_answered(s),
        all_answered(s) ==> view_response_blocks(pending_views(s)) == response_blocks(s),
{
    assert forall|i: int| 0 <= i < s.len() implies (#[trigger] pending_views(s)[i]).4 is Some
        <==> s[i].response is Some by {
        assert(pending_views(s)[i] == slot_full_view(s[i]));
    }
    if views_all_answered(pending_views(s)) {
        assert forall|i: int| 0 <= i < s.len() implies (#[trigger] s[i]).response is Some by {
            assert(pending_views(s)[i].4 is Some);
        }
    }
    if all_answered(s) {
        assert forall|i: int|
            0 <= i < pending_views(s).len() implies (#[trigger] pending_views(s)[i]).4
            is Some by {
            assert(s[i].response is Some);
        }
    }
    if all_answered(s) {
        assert(view_response_blocks(pending_views(s)) =~= response_blocks(s)) by {
            assert forall|i: int|
                0 <= i < s.len() implies view_response_blocks(pending_views(s))[i]
                == response_blocks(s)[i] by {
                assert(pending_views(s)[i] == slot_full_view(s[i]));
                assert(s[i].response is Some);
            }
        }
    }
}

/// Does this action carry out this slot: a confirmation request for a slot
/// that needs one, a dispatch for one that does not, fields matching?
pub open spec fn action_for_slot(s: ToolSlot, a: AgentAction) -> bool {
    if s.needs_confirmation {
        a matches AgentAction::RequestConfirmation { id, name, arguments } && id@ == s.id@
            && name@ == s.name@ && arguments@ == s.arguments@
    } else {
        a matches AgentAction::DispatchTool { id, name, arguments } && id@ == s.id@ && name@
            == s.name@ && arguments@ == s.arguments@
    }
}

/// Is every tool call of the turn answered?
pub open spec fn all_answered(slots: Seq<ToolSlot>) -> bool {
    forall|i: int| 0 <= i < slots.len() ==> (#[trigger] slots[i]).response is Some
}

/// The response blocks of a fully answered turn, in dispatch order.
pub open spec fn response_blocks(slots: Seq<ToolSlot>) -> Seq<BlockView> {
    slots.map_values(|s: ToolSlot| s.response->0@)
}

/// The reply loop state machine.
pub struct ReplyLoop {
    pub transcript: Vec<Message>,
    pub phase: LoopPhase,
    pub pending: Vec<ToolSlot>,
    pub turns: u64,
    pub max_turns: Option<u64>,
    pub provider_calls: u64,
}

impl ReplyLoop {
    /// The machine's standing invariant: while the provider is being awaited
    /// no tool call of a previous turn is unanswered, and a finished loop has
    /// no pending work either.
    pub open spec fn well_formed(&self) -> bool {
        &&& (self.phase is AwaitingProvider ==> self.pending@.len() == 0)
        &&& (self.phase is AwaitingTools ==> self.pending@.len() >= 1)
        &&& transcript_well_formed(transcript_view(self.transcript@))
        &&& (self.phase is AwaitingTools ==> self.transcript@.len() >= 1 && (forall|i: int|
            0 <= i < self.pending@.len() ==> message_requests_id(
                self.transcript@.last()@,
                (#[trigger] self.pending@[i]).id@,
            )))
        &&& (forall|i: int|
            0 <= i < self.pending@.len() ==> ((#[trigger] self.pending@[i]).response matches Some(
                b,
            ) ==> (b@ matches BlockView::ToolResponse { id: bid, .. } && bid
                == self.pending@[i].id@)))
    }

    /// Enter the loop with the caller-supplied history. The one action is the
    /// first provider call.
    pub fn new(history: Vec<Message>, config: &SessionConfig) -> (r: (ReplyLoop, StepOutput))
        requires
            transcript_well_formed(transcript_view(history@)),
        ensures
            r.0.well_formed(),
            r.0.phase is AwaitingProvider,
            r.0.transcript@ == history@,
            r.0.turns == 0,
            r.0.provider_calls == 1,
            r.0.max_turns == config.max_turns,
            r.1.events@.len() == 0,
            r.1.actions@ =~= seq![AgentAction::CallProvider],
    {
        let machine = ReplyLoop {
            transcript: history,
            phase: LoopPhase::AwaitingProvider,
            pending: Vec::new(),
            turns: 0,
            max_turns: config.max_turns,
            provider_calls: 1,
        };
        let mut actions: Vec<AgentAction> = Vec::new();
        actions.push(AgentAction::CallProvider);
        (machine, StepOutput { events: Vec::new(), actions })
    }

    /// Has the turn budget been used up after `turns` completed turns?
    pub open spec fn spec_turn_budget_spent(&self, turns: u64) -> bool {
        match self.max_turns {
            Some(m) => turns >= m,
            None => false,
        }
    }

    /// The provider answered with the next turn's message.
    ///
    /// The message joins the transcript and flows out as an event. Every tool
    /// request and tool confirmation request in it becomes one slot of the new
    /// turn, in block order: requests are dispatched at once, confirmation
    /// requests wait for a permission decision. With no tool calls, or with
    /// the turn budget spent, the loop is done.
    pub fn on_provider_success(&mut self, message: Message) -> (r: StepOutput)
        requires
            old(self).well_formed(),
            old(self).phase is AwaitingProvider,
            old(self).turns < u64::MAX,
            no_tool_responses(message@),
        ensures
            final(self).well_formed(),
            final(self).transcript@ =~= old(self).transcript@.push(message),
            final(self).turns as int == (if message.role is Assistant {
                old(self).turns + 1
            } else {
                old(self).turns as int
            }),
            final(self).provider_calls == old(self).provider_calls,
            final(self).max_turns == old(self).max_turns,
            r.events@.len() == 1,
            r.events@[0] matches AgentEvent::Message(em) && em@ == message@,
            final(self).phase is Done <==> (request_views(message@.content).len() == 0
                || old(self).spec_turn_budget_spent(final(self).turns)),
            final(self).phase is Done ==> r.actions@.len() == 0 && final(self).pending@.len()
                == 0,
            !(final(self).phase is Done) ==> final(self).phase is AwaitingTools && slot_views(
                final(self).pending@,
            ) == request_views(message@.content),
            !(final(self).phase is Done) ==> r.actions@.len() == final(self).pending@.len() && (
            forall|i: int|
                0 <= i < r.actions@.len() ==> action_for_slot(
                    final(self).pending@[i],
                    #[trigger] r.actions@[i],
                )),
            forall|i: int|
                0 <= i < final(self).pending@.len()
                    ==> (#[trigger] final(self).pending@[i]).response is None,
    {
        let mut events: Vec<AgentEvent> = Vec::new();
        let mut actions: Vec<AgentAction> = Vec::new();
        let mut slots: Vec<ToolSlot> = Vec::new();
        let mut i: usize = 0;
        while i < message.content.len()
            invariant
                i <= message.content@.len(),
                forall|k: int| 0 <= k < slots@.len() ==> (#[trigger] slots@[k]).response is None,
                forall|k: int|
                    0 <= k < slots@.len() ==> message_requests_id(
                        message@,
                        (#[trigger] slots@[k]).id@,
                    ),
                slot_views(slots@) == request_views(message@.content.take(i as int)),
            decreases message.content@.len() - i,
        {
            let ghost preslots = slots@;
            let ghost cur_block = message@.content[i as int];
            proof {
                assert(cur_block == message.content@[i as int]@);
                assert(message@.content.take(i as int + 1) =~= message@.content.take(
                    i as int,
                ).push(cur_block));
                lemma_request_views_push(message@.content.take(i as int), cur_block);
            }
            match &message.content[i] {
                ContentBlock::ToolRequest { id, name, arguments } => {
                    slots.push(
                        ToolSlot {
                            id: id.clone(),
                            name: name.clone(),
                            arguments: arguments.clone(),
                            needs_confirmation: false,
                            response: None,
                        },
                    );
                    proof {
                        assert(crate::message::block_requests_id(cur_block, slots@.last().id@));
                        assert(slot_views(slots@) =~= slot_views(preslots).push(
                            block_slot_view(cur_block),
                        ));
                        assert(slot_views(slots@) =~= request_views(message@.content.take(
                            i as int + 1,
                        )));
                    }
                },
                ContentBlock::ToolConfirmationRequest { id, name, arguments } => {
                    slots.push(
                        ToolSlot {
                            id: id.clone(),
                            name: name.clone(),
                            arguments: arguments.clone(),
                            needs_confirmation: true,
                            response: None,
                        },
                    );
                    proof {
                        assert(crate::message::block_requests_id(cur_block, slots@.last().id@));
                        assert(slot_views(slots@) =~= slot_views(preslots).push(
                            block_slot_view(cur_block),
                        ));
                        assert(slot_views(slots@) =~= request_views(message@.content.take(
                            i as int + 1,
                        )));
                    }
                },
                _ => {
                    proof {
                        assert(!is_request_block(cur_block));
                        assert(slot_views(slots@) =~= request_views(message@.content.take(
                            i as int + 1,
                        )));
                    }
                },
            }
            i += 1;
        }
        if message.role == Role::Assistant {
            self.turns = self.turns + 1;
        }
        events.push(AgentEvent::Message(crate::message::clone_message(&message)));
        let ghost pre_t = self.transcript@;
        proof {
            lemma_wf_push_clean(transcript_view(pre_t), message@);
        }
        self.transcript.push(message);
        proof {
            assert(transcript_view(self.transcript@) =~= transcript_view(pre_t).push(message@));
            assert(self.transcript@.last()@ == message@);
        }
        proof {
            assert(message@.content.take(message@.content.len() as int) =~= message@.content);
            assert(slot_views(slots@).len() == slots@.len());
        }
        let budget_spent: bool = match self.max_turns {
            Some(m) => self.turns >= m,
            None => false,
        };
        if slots.len() == 0 || budget_spent {
            self.phase = LoopPhase::Done;
            self.pending = Vec::new();
        } else {
            let mut j: usize = 0;
            while j < slots.len()
                invariant
                    j <= slots@.len(),
                    actions@.len() == j,
                    forall|k: int|
                        0 <= k < slots@.len() ==> (#[trigger] slots@[k]).response is None,
                    forall|k: int|
                        0 <= k < j ==> action_for_slot(slots@[k], #[trigger] actions@[k]),
                decreases slots@.len() - j,
            {
                let slot = &slots[j];
                if slot.needs_confirmation {
                    actions.push(
                        AgentAction::RequestConfirmation {
                            id: slot.id.clone(),
                            name: slot.name.clone(),
                            arguments: slot.arguments.clone(),
                        },
                    );
                } else {
                    actions.push(
                        AgentAction::DispatchTool {
                            id: slot.id.clone(),
                            name: slot.name.clone(),
                            arguments: slot.arguments.clone(),
                        },
                    );
                }
                proof {
                    assert(action_for_slot(slots@[j as int], actions@.last()));
                }
                j += 1;
            }
            self.phase = LoopPhase::AwaitingTools;
            self.pending = slots;
        }
        StepOutput { events, actions }
    }

    /// The provider failed. The loop ends at once; the transport surfaces the
    /// error. No action, and in particular no further provider call, is ever
    /// emitted for this invocation.
    pub fn on_provider_error(&mut self, error: &ProviderError) -> (r: StepOutput)
        requires
            old(self).well_formed(),
            old(self).phase is AwaitingProvider,
        ensures
            final(self).well_formed(),
            final(self).phase is Done,
            final(self).transcript@ == old(self).transcript@,
            final(self).provider_calls == old(self).provider_calls,
            r.events@.len() == 0,
            r.actions@.len() == 0,
    {
        self.phase = LoopPhase::Done;
        self.pending = Vec::new();
        StepOutput { events: Vec::new(), actions: Vec::new() }
    }

    /// Is every slot of the turn answered?
    fn turn_ready(&self) -> (b: bool)
        ensures
            b == all_answered(self.pending@),
    {
        let mut i: usize = 0;
        while i < self.pending.len()
            invariant
                i <= self.pending@.len(),
                forall|k: int| 0 <= k < i ==> (#[trigger] self.pending@[k]).response is Some,
            decreases self.pending@.len() - i,
        {
            if self.pending[i].response.is_none() {
                return false;
            }
            i += 1;
        }
        true
    }

    /// When every slot of the turn is answered, attach the responses to the
    /// transcript as one user message — exactly one tool response per
    /// request of the turn, in dispatch order — and only then ask the
    /// provider for the next turn.
    pub fn complete_turn_if_ready(&mut self, now: u64) -> (r: StepOutput)
        requires
            old(self).well_formed(),
            old(self).phase is AwaitingTools,
            old(self).provider_calls < u64::MAX,
        ensures
            final(self).well_formed(),
            final(self).max_turns == old(self).max_turns,
            final(self).turns == old(self).turns,
            if all_answered(old(self).pending@) {
                &&& final(self).phase is AwaitingProvider
                &&& final(self).pending@.len() == 0
                &&& final(self).provider_calls == old(self).provider_calls + 1
                &&& r.actions@ =~= seq![AgentAction::CallProvider]
                &&& r.events@.len() == 1
                &&& r.events@[0] matches AgentEvent::Message(m) && m@.role is User && m@.created
                    == now && m@.content == response_blocks(old(self).pending@)
                &&& final(self).transcript@.len() == old(self).transcript@.len() + 1
                &&& final(self).transcript@.take(old(self).transcript@.len() as int) == old(
                    self,
                ).transcript@
                &&& final(self).transcript@.last()@.role is User
                &&& final(self).transcript@.last()@.content == response_blocks(
                    old(self).pending@,
                )
                &&& forall|i: int|
                    0 <= i < old(self).pending@.len() ==> (#[trigger] response_blocks(
                        old(self).pending@,
                    )[i]) is ToolResponse
            } else {
                &&& *final(self) == *old(self)
                &&& r.events@.len() == 0
                &&& r.actions@.len() == 0
            },
    {
        if !self.turn_ready() {
            return StepOutput { events: Vec::new(), actions: Vec::new() };
        }
        let mut response = Message::user(now);
        let mut i: usize = 0;
        while i < self.pending.len()
            invariant
                i <= self.pending@.len(),
                all_answered(self.pending@),
                response@.role is User,
                response@.created == now,
                response@.content =~= response_blocks(self.pending@.take(i as int)),
            decreases self.pending@.len() - i,
        {
            let ghost pre = self.pending@.take(i as int);
            let block = match &self.pending[i].response {
                Some(b) => crate::message::clone_block(b),
                None => {
                    proof {
                        assert((self.pending@[i as int]).response is Some);
                    }
                    unreached()
                },
            };
            response = response.with_block(block);
            proof {
                assert(self.pending@.take(i as int + 1) =~= pre.push(self.pending@[i as int]));
                assert(response_blocks(pre.push(self.pending@[i as int])) =~= response_blocks(
                    pre,
                ).push(self.pending@[i as int].response->0@));
            }
            i += 1;
        }
        proof {
            assert(self.pending@.take(self.pending@.len() as int) =~= self.pending@);
        }
        let mut events: Vec<AgentEvent> = Vec::new();
        events.push(AgentEvent::Message(crate::message::clone_message(&response)));
        let ghost pretranscript = self.transcript@;
        let ghost slots = self.pending@;
        proof {
            let t = transcript_view(pretranscript);
            assert(t.len() == pretranscript.len());
            assert forall|k: int|
                0 <= k < response@.content.len() implies match #[trigger] response@.content[k] {
                BlockView::ToolResponse { id, .. } => exists|j: int|
                    0 <= j < t.len() && message_requests_id(#[trigger] t[j], id),
                _ => true,
            } by {
                assert(response@.content[k] == response_blocks(slots)[k]);
                assert(response_blocks(slots)[k] == slots[k].response->0@);
                assert((slots[k].response matches Some(b) ==> (b@
                    matches BlockView::ToolResponse { id: bid, .. } && bid == slots[k].id@)));
                assert(message_requests_id(pretranscript.last()@, slots[k].id@));
                assert(t[t.len() - 1] == pretranscript.last()@);
            }
            lemma_wf_push(t, response@);
        }
        self.transcript.push(response);
        proof {
            assert(transcript_view(self.transcript@) =~= transcript_view(pretranscript).push(
                response@,
            ));
        }
        self.pending = Vec::new();
        self.phase = LoopPhase::AwaitingProvider;
        self.provider_calls = self.provider_calls + 1;
        let mut actions: Vec<AgentAction> = Vec::new();
        actions.push(AgentAction::CallProvider);
        proof {
            assert(final(self).transcript@.take(pretranscript.len() as int) =~= pretranscript);
        }
        StepOutput { events, actions }
    }

    /// A tool finished: record its response on the first unanswered slot with
    /// this id. An id with no such slot is accepted and changes nothing. Once
    /// every slot of the turn is answered, each request having exactly one
    /// response, the next provider call is issued — never earlier.
    pub fn on_tool_outcome(&mut self, id: &str, success: bool, output: String, now: u64) -> (r:
        StepOutput)
        requires
            old(self).well_formed(),
            old(self).phase is AwaitingTools,
            old(self).provider_calls < u64::MAX,
        ensures
            final(self).well_formed(),
            final(self).max_turns == old(self).max_turns,
            final(self).turns == old(self).turns,
            final(self).phase is AwaitingTools || final(self).phase is AwaitingProvider,
            final(self).provider_calls as int <= old(self).provider_calls + 1,
            final(self).phase is AwaitingTools ==> final(self).provider_calls == old(
                self,
            ).provider_calls,
            (exists|a: int| 0 <= a < r.actions@.len() && r.actions@[a] is CallProvider)
                ==> final(self).phase is AwaitingProvider
                && final(self).transcript@.last()@.role is User,
            final(self).transcript@.len() >= old(self).transcript@.len(),
            final(self).transcript@.take(old(self).transcript@.len() as int)
                == old(self).transcript@,
            forall|i: int|
                is_first_match(pending_views(old(self).pending@), id@, false, i) ==> ({
                    let vs = pending_views(old(self).pending@);
                    let updated = vs.update(
                        i,
                        answered_view(
                            vs[i],
                            BlockView::ToolResponse { id: id@, success, output: output@ },
                        ),
                    );
                    if views_all_answered(updated) {
                        &&& final(self).phase is AwaitingProvider
                        &&& final(self).pending@.len() == 0
                        &&& final(self).transcript@.len() == old(self).transcript@.len() + 1
                        &&& final(self).transcript@.last()@.content == view_response_blocks(
                            updated,
                        )
                    } else {
                        &&& final(self).phase is AwaitingTools
                        &&& pending_views(final(self).pending@) == updated
                        &&& final(self).transcript@ == old(self).transcript@
                    }
                }),
            ((forall|i: int|
                !is_first_match(pending_views(old(self).pending@), id@, false, i))
                && !all_answered(old(self).pending@)) ==> (final(self).pending@ == old(
                self,
            ).pending@ && final(self).transcript@ == old(self).transcript@ && r.events@.len()
                == 0 && r.actions@.len() == 0),
    {
        let ghost vs = pending_views(self.pending@);
        let ghost b = BlockView::ToolResponse { id: id@, success, output: output@ };
        self.record_response(
            id,
            ContentBlock::ToolResponse { id: String::from_str(id), success, output },
            false,
        );
        let ghost mid = *self;
        let out = self.complete_turn_if_ready(now);
        proof {
            lemma_views_bridge(mid.pending@);
            assert forall|i: int|
                is_first_match(vs, id@, false, i) implies ({
                let updated = vs.update(i, answered_view(vs[i], b));
                if views_all_answered(updated) {
                    &&& final(self).phase is AwaitingProvider
                    &&& final(self).pending@.len() == 0
                    &&& final(self).transcript@.len() == old(self).transcript@.len() + 1
                    &&& final(self).transcript@.last()@.content == view_response_blocks(updated)
                } else {
                    &&& final(self).phase is AwaitingTools
                    &&& pending_views(final(self).pending@) == updated
                    &&& final(self).transcript@ == old(self).transcript@
                }
            }) by {
                let updated = vs.update(i, answered_view(vs[i], b));
                assert(pending_views(mid.pending@) == updated);
                assert(views_all_answered(updated) == all_answered(mid.pending@));
                if all_answered(mid.pending@) {
                    assert(view_response_blocks(updated) == response_blocks(mid.pending@));
                }
            }
        }
        out
    }

    /// A tool result submitted out of band lands on the first unanswered
    /// slot with this id — a success as the tool's output, a failure as a
    /// failed response — and an unmatched id changes nothing. Once the turn
    /// is fully answered, the next provider call is issued.
    pub fn on_tool_result(&mut self, id: &str, result: ToolResultPayload, now: u64) -> (r:
        StepOutput)
        requires
            old(self).well_formed(),
            old(self).phase is AwaitingTools,
            old(self).provider_calls < u64::MAX,
        ensures
            final(self).well_formed(),
            final(self).max_turns == old(self).max_turns,
            final(self).turns == old(self).turns,
            final(self).phase is AwaitingTools || final(self).phase is AwaitingProvider,
            final(self).provider_calls as int <= old(self).provider_calls + 1,
            final(self).phase is AwaitingTools ==> final(self).provider_calls == old(
                self,
            ).provider_calls,
            (exists|a: int| 0 <= a < r.actions@.len() && r.actions@[a] is CallProvider)
                ==> final(self).phase is AwaitingProvider
                && final(self).transcript@.last()@.role is User,
            final(self).transcript@.len() >= old(self).transcript@.len(),
            final(self).transcript@.take(old(self).transcript@.len() as int)
                == old(self).transcript@,
            forall|i: int|
                is_first_match(pending_views(old(self).pending@), id@, false, i) ==> ({
                    let vs = pending_views(old(self).pending@);
                    let updated = vs.update(
                        i,
                        answered_view(vs[i], payload_response_view(id@, result)),
                    );
                    if views_all_answered(updated) {
                        &&& final(self).phase is AwaitingProvider
                        &&& final(self).pending@.len() == 0
                        &&& final(self).transcript@.len() == old(self).transcript@.len() + 1
                        &&& final(self).transcript@.last()@.content == view_response_blocks(
                            updated,
                        )
                    } else {
                        &&& final(self).phase is AwaitingTools
                        &&& pending_views(final(self).pending@) == updated
                        &&& final(self).transcript@ == old(self).transcript@
                    }
                }),
            ((forall|i: int|
                !is_first_match(pending_views(old(self).pending@), id@, false, i))
                && !all_answered(old(self).pending@)) ==> (final(self).pending@ == old(
                self,
            ).pending@ && final(self).transcript@ == old(self).transcript@ && r.events@.len()
                == 0 && r.actions@.len() == 0),
    {
        match result {
            ToolResultPayload::Success { output } => self.on_tool_outcome(id, true, output, now),
            ToolResultPayload::Error { reason } => self.on_tool_outcome(id, false, reason, now),
        }
    }

    /// A permission decision arrived for a confirmation slot with this id.
    /// Denial synthesizes a refusal response without invoking the tool; a
    /// grant dispatches the tool. Unknown ids change nothing.
    pub fn on_confirmation(&mut self, id: &str, permission: Permission, now: u64) -> (r:
        StepOutput)
        requires
            old(self).well_formed(),
            old(self).phase is AwaitingTools,
            old(self).provider_calls < u64::MAX,
        ensures
            final(self).well_formed(),
            final(self).max_turns == old(self).max_turns,
            final(self).turns == old(self).turns,
            final(self).phase is AwaitingTools || final(self).phase is AwaitingProvider,
            final(self).provider_calls as int <= old(self).provider_calls + 1,
            final(self).phase is AwaitingTools ==> final(self).provider_calls == old(
                self,
            ).provider_calls,
            (exists|a: int| 0 <= a < r.actions@.len() && r.actions@[a] is CallProvider)
                ==> final(self).phase is AwaitingProvider
                && final(self).transcript@.last()@.role is User,
            final(self).transcript@.len() >= old(self).transcript@.len(),
            final(self).transcript@.take(old(self).transcript@.len() as int)
                == old(self).transcript@,
            permission is DenyOnce ==> forall|i: int|
                is_first_match(pending_views(old(self).pending@), id@, true, i) ==> ({
                    let vs = pending_views(old(self).pending@);
                    let updated = vs.update(
                        i,
                        answered_view(
                            vs[i],
                            BlockView::ToolResponse {
                                id: id@,
                                success: false,
                                output: "permission denied"@,
                            },
                        ),
                    );
                    if views_all_answered(updated) {
                        &&& final(self).phase is AwaitingProvider
                        &&& final(self).pending@.len() == 0
                        &&& final(self).transcript@.len() == old(self).transcript@.len() + 1
                        &&& final(self).transcript@.last()@.content == view_response_blocks(
                            updated,
                        )
                    } else {
                        &&& final(self).phase is AwaitingTools
                        &&& pending_views(final(self).pending@) == updated
                        &&& final(self).transcript@ == old(self).transcript@
                    }
                }),
            (permission is DenyOnce && (forall|i: int|
                !is_first_match(pending_views(old(self).pending@), id@, true, i))
                && !all_answered(old(self).pending@)) ==> (final(self).pending@ == old(
                self,
            ).pending@ && final(self).transcript@ == old(self).transcript@ && r.events@.len()
                == 0 && r.actions@.len() == 0),
            !(permission is DenyOnce) ==> (*final(self) == *old(self) && r.events@.len() == 0 && (
            forall|a: int|
                0 <= a < r.actions@.len() ==> (#[trigger] r.actions@[a]) is DispatchTool)
                && dispatch_views(r.actions@) == confirmation_dispatches(
                pending_views(old(self).pending@),
                id@,
            )),
    {
        let denied: bool = match permission {
            Permission::DenyOnce => true,
            Permission::AlwaysAllow => false,
            Permission::AllowOnce => false,
        };
        if denied {
            let ghost vs = pending_views(self.pending@);
            let ghost b = BlockView::ToolResponse {
                id: id@,
                success: false,
                output: "permission denied"@,
            };
            self.record_response(
                id,
                ContentBlock::ToolResponse {
                    id: String::from_str(id),
                    success: false,
                    output: String::from_str("permission denied"),
                },
                true,
            );
            let ghost mid = *self;
            let out = self.complete_turn_if_ready(now);
            proof {
                lemma_views_bridge(mid.pending@);
                assert forall|i: int|
                    is_first_match(vs, id@, true, i) implies ({
                    let updated = vs.update(i, answered_view(vs[i], b));
                    if views_all_answered(updated) {
                        &&& final(self).phase is AwaitingProvider
                        &&& final(self).pending@.len() == 0
                        &&& final(self).transcript@.len() == old(self).transcript@.len() + 1
                        &&& final(self).transcript@.last()@.content == view_response_blocks(
                            updated,
                        )
                    } else {
                        &&& final(self).phase is AwaitingTools
                        &&& pending_views(final(self).pending@) == updated
                        &&& final(self).transcript@ == old(self).transcript@
                    }
                }) by {
                    let updated = vs.update(i, answered_view(vs[i], b));
                    assert(pending_views(mid.pending@) == updated);
                    assert(views_all_answered(updated) == all_answered(mid.pending@));
                    if all_answered(mid.pending@) {
                        assert(view_response_blocks(updated) == response_blocks(mid.pending@));
                    }
                }
            }
            out
        } else {
            let ghost vs = pending_views(self.pending@);
            let mut actions: Vec<AgentAction> = Vec::new();
            let mut i: usize = 0;
            let n = self.pending.len();
            proof {
                assert(vs.take(0) =~= Seq::<
                    (Seq<char>, Seq<char>, Seq<char>, bool, Option<BlockView>),
                >::empty());
                assert(dispatch_views(actions@) =~= confirmation_dispatches(vs.take(0), id@));
            }
            while i < n
                invariant
                    vs == pending_views(old(self).pending@),
                    n == self.pending@.len(),
                    i <= n,
                    self.well_formed(),
                    self.phase is AwaitingTools,
                    *self == *old(self),
                    forall|a: int|
                        0 <= a < actions@.len() ==> (#[trigger] actions@[a]) is DispatchTool,
                    dispatch_views(actions@) == confirmation_dispatches(vs.take(i as int), id@),
                decreases n - i,
            {
                let matches_slot: bool = self.pending[i].needs_confirmation && self.pending[
                    i
                ].response.is_none() && self.pending[i].id.as_str().eq(id);
                let ghost preactions = actions@;
                proof {
                    assert(vs[i as int] == slot_full_view(self.pending@[i as int]));
                    assert(matches_slot == view_matches(vs[i as int], id@, true));
                    assert(vs.take(i as int + 1) =~= vs.take(i as int).push(vs[i as int]));
                    lemma_confirmation_dispatches_push(vs.take(i as int), vs[i as int], id@);
                }
                if matches_slot {
                    actions.push(
                        AgentAction::DispatchTool {
                            id: self.pending[i].id.clone(),
                            name: self.pending[i].name.clone(),
                            arguments: self.pending[i].arguments.clone(),
                        },
                    );
                    proof {
                        assert(dispatch_views(actions@) =~= dispatch_views(preactions).push(
                            (vs[i as int].0, vs[i as int].1, vs[i as int].2),
                        ));
                        assert(dispatch_views(actions@) =~= confirmation_dispatches(
                            vs.take(i as int + 1),
                            id@,
                        ));
                    }
                } else {
                    proof {
                        assert(dispatch_views(actions@) =~= confirmation_dispatches(
                            vs.take(i as int + 1),
                            id@,
                        ));
                    }
                }
                i += 1;
            }
            proof {
                assert(vs.take(n as int) =~= vs);
            }
            StepOutput { events: Vec::new(), actions }
        }
    }

    /// Record a response block on the first matching unanswered slot; an id
    /// with no such slot changes nothing.
    fn record_response(&mut self, id: &str, block: ContentBlock, only_confirmation: bool)
        requires
            old(self).well_formed(),
            old(self).phase is AwaitingTools,
            block@ matches BlockView::ToolResponse { id: bid, .. } && bid == id@,
        ensures
            final(self).well_formed(),
            final(self).phase is AwaitingTools,
            final(self).transcript@ == old(self).transcript@,
            final(self).pending@.len() == old(self).pending@.len(),
            final(self).turns == old(self).turns,
            final(self).max_turns == old(self).max_turns,
            final(self).provider_calls == old(self).provider_calls,
            forall|i: int|
                is_first_match(
                    pending_views(old(self).pending@),
                    id@,
                    only_confirmation,
                    i,
                ) ==> pending_views(final(self).pending@) == pending_views(
                    old(self).pending@,
                ).update(i, answered_view(pending_views(old(self).pending@)[i], block@)),
            (forall|i: int|
                !is_first_match(
                    pending_views(old(self).pending@),
                    id@,
                    only_confirmation,
                    i,
                )) ==> final(self).pending@ == old(self).pending@,
    {
        let ghost vs = pending_views(old(self).pending@);
        let mut i: usize = 0;
        let n = self.pending.len();
        while i < n
            invariant
                block@ matches BlockView::ToolResponse { id: bid, .. } && bid == id@,
                vs == pending_views(old(self).pending@),
                n == self.pending@.len(),
                i <= n,
                self.well_formed(),
                self.phase is AwaitingTools,
                *self == *old(self),
                forall|k: int| 0 <= k < i ==> !view_matches(#[trigger] vs[k], id@, only_confirmation),
            decreases n - i,
        {
            let candidate: bool = self.pending[i].response.is_none() && (!only_confirmation
                || self.pending[i].needs_confirmation) && self.pending[i].id.as_str().eq(id);
            proof {
                assert(vs[i as int] == slot_full_view(self.pending@[i as int]));
                assert(candidate == view_matches(vs[i as int], id@, only_confirmation));
            }
            if candidate {
                let ghost pre = self.pending@;
                let mut entry = self.pending.remove(i);
                entry.response = Some(block);
                let ghost eview = entry;
                self.pending.insert(i, entry);
                proof {
                    assert(self.pending@ =~= pre.update(i as int, eview));
                    assert(self.pending@[i as int] == eview);
                    assert(eview.response == Some(block));
                    assert(eview.id@ == pre[i as int].id@);
                    assert forall|k: int|
                        0 <= k < self.pending@.len() implies ((#[trigger] self.pending@[k]).response
                        matches Some(b) ==> (b@ matches BlockView::ToolResponse { id: bid, .. }
                        && bid == self.pending@[k].id@)) by {
                        if k != i as int {
                            assert(self.pending@[k] == pre[k]);
                        }
                    }
                    assert forall|k: int|
                        0 <= k < self.pending@.len() implies message_requests_id(
                        self.transcript@.last()@,
                        (#[trigger] self.pending@[k]).id@,
                    ) by {
                        if k != i as int {
                            assert(self.pending@[k] == pre[k]);
                        } else {
                            assert(self.pending@[k].id@ == pre[k].id@);
                        }
                    }
                    assert(is_first_match(vs, id@, only_confirmation, i as int));
                    assert(pending_views(self.pending@) =~= vs.update(
                        i as int,
                        answered_view(vs[i as int], block@),
                    )) by {
                        assert forall|k: int|
                            0 <= k < self.pending@.len() implies pending_views(self.pending@)[k]
                            == vs.update(i as int, answered_view(vs[i as int], block@))[k] by {
                            assert(pending_views(self.pending@)[k] == slot_full_view(
                                self.pending@[k],
                            ));
                            if k != i as int {
                                assert(self.pending@[k] == pre[k]);
                            } else {
                                assert(slot_full_view(eview) == answered_view(
                                    vs[i as int],
                                    block@,
                                ));
                            }
                        }
                    }
                    assert forall|j: int|
                        is_first_match(vs, id@, only_confirmation, j) implies pending_views(
                        final(self).pending@,
                    ) == vs.update(j, answered_view(vs[j], block@)) by {
                        if j < i as int {
                            assert(!view_matches(vs[j], id@, only_confirmation));
                        } else if j > i as int {
                            assert(!view_matches(vs[i as int], id@, only_confirmation));
                        }
                        assert(j == i as int);
                    }
                }
                return;
            }
            i += 1;
        }
        proof {
            assert forall|j: int|
                !is_first_match(vs, id@, only_confirmation, j) by {
                if 0 <= j < vs.len() {
                    assert(!view_matches(vs[j], id@, only_confirmation));
                }
            }
        }
    }
}

} // verus!
