//! The conversation unit: a role, a timestamp and an ordered run of content
//! blocks. Messages are immutable once appended; a session's transcript is an
//! append-only ordered sequence of messages.

use vstd::prelude::*;

verus! {

/// Who produced a message.
#[derive(Clone, Copy, Debug, PartialEq, Eq, Structural)]
pub enum Role {
    User,
    Assistant,
}

/// One block of message content.
///
/// `ToolRequest` and `ToolConfirmationRequest` carry the correlation id that
/// an eventual `ToolResponse` or permission decision is matched against.
#[derive(Clone, Debug, PartialEq, Eq)]
pub enum ContentBlock {
    Text { text: String },
    Thinking { thinking: String },
    RedactedThinking { data: String },
    ToolRequest { id: String, name: String, arguments: String },
    ToolResponse { id: String, success: bool, output: String },
    ToolConfirmationRequest { id: String, name: String, arguments: String },
    FrontendToolRequest { id: String, name: String, arguments: String },
    ContextLengthExceeded,
    SummarizationRequested,
}

/// Mathematical image of a content block: the same shape over `Seq<char>`.
pub enum BlockView {
    Text { text: Seq<char> },
    Thinking { thinking: Seq<char> },
    RedactedThinking { data: Seq<char> },
    ToolRequest { id: Seq<char>, name: Seq<char>, arguments: Seq<char> },
    ToolResponse { id: Seq<char>, success: bool, output: Seq<char> },
    ToolConfirmationRequest { id: Seq<char>, name: Seq<char>, arguments: Seq<char> },
    FrontendToolRequest { id: Seq<char>, name: Seq<char>, arguments: Seq<char> },
    ContextLengthExceeded,
    SummarizationRequested,
}

impl View for ContentBlock {
    type V = BlockView;

    open spec fn view(&self) -> BlockView {
        match self {
            ContentBlock::Text { text } => BlockView::Text { text: text@ },
            ContentBlock::Thinking { thinking } => BlockView::Thinking { thinking: thinking@ },
            ContentBlock::RedactedThinking { data } => BlockView::RedactedThinking { data: data@ },
            ContentBlock::ToolRequest { id, name, arguments } => BlockView::ToolRequest {
                id: id@,
                name: name@,
                arguments: arguments@,
            },
            ContentBlock::ToolResponse { id, success, output } => BlockView::ToolResponse {
                id: id@,
                success: *success,
                output: output@,
            },
            ContentBlock::ToolConfirmationRequest { id, name, arguments } => {
                BlockView::ToolConfirmationRequest { id: id@, name: name@, arguments: arguments@ }
            },
            ContentBlock::FrontendToolRequest { id, name, arguments } => {
                BlockView::FrontendToolRequest { id: id@, name: name@, arguments: arguments@ }
            },
            ContentBlock::ContextLengthExceeded => BlockView::ContextLengthExceeded,
            ContentBlock::SummarizationRequested => BlockView::SummarizationRequested,
        }
    }
}

/// A message: immutable conversation unit.
#[derive(Clone, Debug, PartialEq, Eq)]
pub struct Message {
    pub role: Role,
    pub created: u64,
    pub content: Vec<ContentBlock>,
}

/// Mathematical image of a message.
pub struct MessageView {
    pub role: Role,
    pub created: u64,
    pub content: Seq<BlockView>,
}

impl View for Message {
    type V = MessageView;

    open spec fn view(&self) -> MessageView {
        MessageView {
            role: self.role,
            created: self.created,
            content: self.content@.map_values(|b: ContentBlock| b@),
        }
    }
}

impl Message {
    /// A fresh user message with no content.
    pub fn user(created: u64) -> (m: Message)
        ensures
            m@.role == Role::User,
            m@.created == created,
            m@.content =~= Seq::<BlockView>::empty(),
    {
        Message { role: Role::User, created, content: Vec::new() }
    }

    /// A fresh assistant message with no content.
    pub fn assistant(created: u64) -> (m: Message)
        ensures
            m@.role == Role::Assistant,
            m@.created == created,
            m@.content =~= Seq::<BlockView>::empty(),
    {
        Message { role: Role::Assistant, created, content: Vec::new() }
    }

    /// The message extended by one text block; every other field is kept.
    pub fn with_text(self, text: String) -> (m: Message)
        ensures
            m@.role == self@.role,
            m@.created == self@.created,
            m@.content =~= self@.content.push(BlockView::Text { text: text@ }),
    {
        let mut m = self;
        m.content.push(ContentBlock::Text { text });
        m
    }

    /// The message extended by one arbitrary block; every other field is kept.
    pub fn with_block(self, block: ContentBlock) -> (m: Message)
        ensures
            m@.role == self@.role,
            m@.created == self@.created,
            m@.content =~= self@.content.push(block@),
    {
        let mut m = self;
        m.content.push(block);
        m
    }
}

/// Append one message to a transcript. The transcript is append-only: the
/// contract shows that every earlier entry is kept unchanged.
pub fn push_message(messages: &mut Vec<Message>, message: Message)
    ensures
        final(messages)@ =~= old(messages)@.push(message),
        final(messages)@.map_values(|m: Message| m@) =~= old(messages)@.map_values(
            |m: Message| m@,
        ).push(message@),
{
    messages.push(message);
}

/// The transcript's mathematical image.
pub open spec fn transcript_view(messages: Seq<Message>) -> Seq<MessageView> {
    messages.map_values(|m: Message| m@)
}

/// Does this block issue the request id `id`?
pub open spec fn block_requests_id(b: BlockView, id: Seq<char>) -> bool {
    match b {
        BlockView::ToolRequest { id: rid, .. } => rid == id,
        BlockView::ToolConfirmationRequest { id: rid, .. } => rid == id,
        _ => false,
    }
}

/// Does some block of this message issue the request id `id`?
pub open spec fn message_requests_id(m: MessageView, id: Seq<char>) -> bool {
    exists|k: int| 0 <= k < m.content.len() && block_requests_id(#[trigger] m.content[k], id)
}

/// Does this message carry no tool response block at all?
pub open spec fn no_tool_responses(m: MessageView) -> bool {
    forall|k: int| 0 <= k < m.content.len() ==> !((#[trigger] m.content[k]) is ToolResponse)
}

/// A transcript is well formed for provider replay when every tool response
/// block references a request id issued in an earlier message.
pub open spec fn transcript_well_formed(t: Seq<MessageView>) -> bool {
    forall|i: int, k: int|
        0 <= i < t.len() && 0 <= k < t[i].content.len() ==> match #[trigger] t[i].content[k] {
            BlockView::ToolResponse { id, .. } => exists|j: int|
                0 <= j < i && message_requests_id(#[trigger] t[j], id),
            _ => true,
        }
}

/// Appending a message whose tool responses all reference requests already
/// in the transcript keeps the transcript well formed.
pub proof fn lemma_wf_push(t: Seq<MessageView>, m: MessageView)
    requires
        transcript_well_formed(t),
        forall|k: int|
            0 <= k < m.content.len() ==> match #[trigger] m.content[k] {
                BlockView::ToolResponse { id, .. } => exists|j: int|
                    0 <= j < t.len() && message_requests_id(#[trigger] t[j], id),
                _ => true,
            },
    ensures
        transcript_well_formed(t.push(m)),
{
    let whole = t.push(m);
    assert forall|i: int, k: int|
        0 <= i < whole.len() && 0 <= k < whole[i].content.len() implies match #[trigger] whole[i].content[k] {
        BlockView::ToolResponse { id, .. } => exists|j: int|
            0 <= j < i && message_requests_id(#[trigger] whole[j], id),
        _ => true,
    } by {
        if i < t.len() {
            assert(whole[i] == t[i]);
            match t[i].content[k] {
                BlockView::ToolResponse { id, .. } => {
                    let j = choose|j: int| 0 <= j < i && message_requests_id(#[trigger] t[j], id);
                    assert(whole[j] == t[j]);
                    assert(message_requests_id(whole[j], id));
                },
                _ => {},
            }
        } else {
            assert(whole[i] == m);
            match m.content[k] {
                BlockView::ToolResponse { id, .. } => {
                    let j = choose|j: int|
                        0 <= j < t.len() && message_requests_id(#[trigger] t[j], id);
                    assert(whole[j] == t[j]);
                    assert(message_requests_id(whole[j], id));
                },
                _ => {},
            }
        }
    }
}

/// Appending a message with no tool response block keeps the transcript
/// well formed.
pub proof fn lemma_wf_push_clean(t: Seq<MessageView>, m: MessageView)
    requires
        transcript_well_formed(t),
        no_tool_responses(m),
    ensures
        transcript_well_formed(t.push(m)),
{
    lemma_wf_push(t, m);
}

/// A copy of a content block, equal to the original.
pub fn clone_block(b: &ContentBlock) -> (r: ContentBlock)
    ensures
        r == *b,
{
    match b {
        ContentBlock::Text { text } => ContentBlock::Text { text: text.clone() },
        ContentBlock::Thinking { thinking } => ContentBlock::Thinking {
            thinking: thinking.clone(),
        },
        ContentBlock::RedactedThinking { data } => ContentBlock::RedactedThinking {
            data: data.clone(),
        },
        ContentBlock::ToolRequest { id, name, arguments } => ContentBlock::ToolRequest {
            id: id.clone(),
            name: name.clone(),
            arguments: arguments.clone(),
        },
        ContentBlock::ToolResponse { id, success, output } => ContentBlock::ToolResponse {
            id: id.clone(),
            success: *success,
            output: output.clone(),
        },
        ContentBlock::ToolConfirmationRequest { id, name, arguments } => {
            ContentBlock::ToolConfirmationRequest {
                id: id.clone(),
                name: name.clone(),
                arguments: arguments.clone(),
            }
        },
        ContentBlock::FrontendToolRequest { id, name, arguments } => {
            ContentBlock::FrontendToolRequest {
                id: id.clone(),
                name: name.clone(),
                arguments: arguments.clone(),
            }
        },
        ContentBlock::ContextLengthExceeded => ContentBlock::ContextLengthExceeded,
        ContentBlock::SummarizationRequested => ContentBlock::SummarizationRequested,
    }
}

/// A copy of a message: the same role, creation time and content image.
pub fn clone_message(m: &Message) -> (r: Message)
    ensures
        r@ == m@,
        r.role == m.role,
        r.created == m.created,
{
    let mut content: Vec<ContentBlock> = Vec::new();
    let mut i: usize = 0;
    while i < m.content.len()
        invariant
            i <= m.content@.len(),
            content@ =~= m.content@.take(i as int),
        decreases m.content@.len() - i,
    {
        content.push(clone_block(&m.content[i]));
        proof {
            assert(m.content@.take(i as int + 1) =~= m.content@.take(i as int).push(
                m.content@[i as int],
            ));
        }
        i += 1;
    }
    proof {
        assert(m.content@.take(m.content@.len() as int) =~= m.content@);
        assert(content@ == m.content@);
    }
    Message { role: m.role, created: m.created, content }
}

} // verus!
