//! The transcript persistence format: one message per line in a JSON-like
//! canonical shape that keeps each content block's tag. Encoding and decoding
//! invert each other, proved in `lemma_transcript_round_trip`.

use vstd::prelude::*;
use crate::dec::{all_digits, dec_digits, dec_value, is_digit};
use crate::message::{BlockView, MessageView, Role};

verus! {

// ---------------------------------------------------------------------------
// Encoding, at the specification level.
// ---------------------------------------------------------------------------
/// How one character is written inside a quoted string.
pub open spec fn esc_char(c: char) -> Seq<char> {
    if c == '"' {
        seq!['\\', '"']
    } else if c == '\\' {
        seq!['\\', '\\']
    } else if c == '\n' {
        seq!['\\', 'n']
    } else if c == '\r' {
        seq!['\\', 'r']
    } else if c == '\t' {
        seq!['\\', 't']
    } else {
        seq![c]
    }
}

/// A string's characters, escaped.
pub open spec fn esc(s: Seq<char>) -> Seq<char>
    decreases s.len(),
{
    if s.len() == 0 {
        Seq::<char>::empty()
    } else {
        esc_char(s[0]) + esc(s.drop_first())
    }
}

/// A quoted, escaped string.
pub open spec fn enc_string(s: Seq<char>) -> Seq<char> {
    seq!['"'] + esc(s) + seq!['"']
}

/// A boolean literal.
pub open spec fn enc_bool(b: bool) -> Seq<char> {
    if b {
        "true"@
    } else {
        "false"@
    }
}

/// A role's tag.
pub open spec fn enc_role(r: Role) -> Seq<char> {
    match r {
        Role::User => "user"@,
        Role::Assistant => "assistant"@,
    }
}

/// One content block as a tagged object.
pub open spec fn enc_block(b: BlockView) -> Seq<char> {
    match b {
        BlockView::Text { text } => "{\"type\":\""@ + "text"@ + "\",\"text\":"@ + enc_string(text)
            + "}"@,
        BlockView::Thinking { thinking } => "{\"type\":\""@ + "thinking"@ + "\",\"thinking\":"@
            + enc_string(thinking) + "}"@,
        BlockView::RedactedThinking { data } => "{\"type\":\""@ + "redactedThinking"@
            + "\",\"data\":"@ + enc_string(data) + "}"@,
        BlockView::ToolRequest { id, name, arguments } => "{\"type\":\""@ + "toolRequest"@
            + "\",\"id\":"@ + enc_string(id) + ",\"name\":"@ + enc_string(name)
            + ",\"arguments\":"@ + enc_string(arguments) + "}"@,
        BlockView::ToolResponse { id, success, output } => "{\"type\":\""@ + "toolResponse"@
            + "\",\"id\":"@ + enc_string(id) + ",\"success\":"@ + enc_bool(success)
            + ",\"output\":"@ + enc_string(output) + "}"@,
        BlockView::ToolConfirmationRequest { id, name, arguments } => "{\"type\":\""@
            + "toolConfirmationRequest"@ + "\",\"id\":"@ + enc_string(id) + ",\"name\":"@
            + enc_string(name) + ",\"arguments\":"@ + enc_string(arguments) + "}"@,
        BlockView::FrontendToolRequest { id, name, arguments } => "{\"type\":\""@
            + "frontendToolRequest"@ + "\",\"id\":"@ + enc_string(id) + ",\"name\":"@
            + enc_string(name) + ",\"arguments\":"@ + enc_string(arguments) + "}"@,
        BlockView::ContextLengthExceeded => "{\"type\":\""@ + "contextLengthExceeded"@ + "\"}"@,
        BlockView::SummarizationRequested => "{\"type\":\""@ + "summarizationRequested"@ + "\"}"@,
    }
}

/// A run of content blocks, comma separated.
pub open spec fn enc_blocks(bs: Seq<BlockView>) -> Seq<char>
    decreases bs.len(),
{
    if bs.len() == 0 {
        Seq::<char>::empty()
    } else if bs.len() == 1 {
        enc_block(bs[0])
    } else {
        enc_block(bs[0]) + seq![','] + enc_blocks(bs.drop_first())
    }
}

/// One message as an object: role, creation time, content blocks.
pub open spec fn enc_message(m: MessageView) -> Seq<char> {
    "{\"role\":\""@ + enc_role(m.role) + "\",\"created\":"@ + dec_digits(m.created as int)
        + ",\"content\":["@ + enc_blocks(m.content) + "]}"@
}

/// A whole transcript: each message on a line of its own.
pub open spec fn enc_transcript(ms: Seq<MessageView>) -> Seq<char>
    decreases ms.len(),
{
    if ms.len() == 0 {
        Seq::<char>::empty()
    } else {
        enc_message(ms[0]) + seq!['\n'] + enc_transcript(ms.drop_first())
    }
}

// ---------------------------------------------------------------------------
// Parsing, at the specification level. Each parser takes the remaining input
// and hands back what it read together with what is left.
// ---------------------------------------------------------------------------
/// Consume an exact literal.
pub open spec fn sp_lit(input: Seq<char>, lit: Seq<char>) -> Option<Seq<char>> {
    if lit.len() <= input.len() && input.take(lit.len() as int) == lit {
        Some(input.skip(lit.len() as int))
    } else {
        None
    }
}

/// Consume characters up to and including the next quote.
pub open spec fn sp_tag(input: Seq<char>) -> Option<(Seq<char>, Seq<char>)>
    decreases input.len(),
{
    if input.len() == 0 {
        None
    } else if input[0] == '"' {
        Some((Seq::<char>::empty(), input.drop_first()))
    } else {
        match sp_tag(input.drop_first()) {
            Some(r) => Some((seq![input[0]] + r.0, r.1)),
            None => None,
        }
    }
}

/// The character named by an escape code.
pub open spec fn unesc_code(c: char) -> Option<char> {
    if c == '"' {
        Some('"')
    } else if c == '\\' {
        Some('\\')
    } else if c == 'n' {
        Some('\n')
    } else if c == 'r' {
        Some('\r')
    } else if c == 't' {
        Some('\t')
    } else {
        None
    }
}

/// Consume a string body up to and including the closing quote, undoing
/// escapes.
pub open spec fn sp_str_body(input: Seq<char>) -> Option<(Seq<char>, Seq<char>)>
    decreases input.len(),
{
    if input.len() == 0 {
        None
    } else if input[0] == '"' {
        Some((Seq::<char>::empty(), input.drop_first()))
    } else if input[0] == '\\' {
        if input.len() < 2 {
            None
        } else {
            match unesc_code(input[1]) {
                Some(c) => match sp_str_body(input.skip(2)) {
                    Some(r) => Some((seq![c] + r.0, r.1)),
                    None => None,
                },
                None => None,
            }
        }
    } else {
        match sp_str_body(input.drop_first()) {
            Some(r) => Some((seq![input[0]] + r.0, r.1)),
            None => None,
        }
    }
}

/// Consume a quoted string.
pub open spec fn sp_string(input: Seq<char>) -> Option<(Seq<char>, Seq<char>)> {
    if input.len() >= 1 && input[0] == '"' {
        sp_str_body(input.drop_first())
    } else {
        None
    }
}

/// Split off the longest leading run of digits.
pub open spec fn sp_digit_run(input: Seq<char>) -> (Seq<char>, Seq<char>)
    decreases input.len(),
{
    if input.len() == 0 || !is_digit(input[0]) {
        (Seq::<char>::empty(), input)
    } else {
        let r = sp_digit_run(input.drop_first());
        (seq![input[0]] + r.0, r.1)
    }
}

/// Consume a decimal number that fits a `u64`.
pub open spec fn sp_number(input: Seq<char>) -> Option<(u64, Seq<char>)> {
    let r = sp_digit_run(input);
    if r.0.len() >= 1 && dec_value(r.0) <= u64::MAX {
        Some((dec_value(r.0) as u64, r.1))
    } else {
        None
    }
}

/// Consume a boolean literal.
pub open spec fn sp_bool(input: Seq<char>) -> Option<(bool, Seq<char>)> {
    if input.len() >= 1 && input[0] == 't' {
        match sp_lit(input, "true"@) {
            Some(rest) => Some((true, rest)),
            None => None,
        }
    } else if input.len() >= 1 && input[0] == 'f' {
        match sp_lit(input, "false"@) {
            Some(rest) => Some((false, rest)),
            None => None,
        }
    } else {
        None
    }
}

/// Consume `,"<key>":` followed by a quoted string value.
pub open spec fn sp_keyed_string(input: Seq<char>, key: Seq<char>) -> Option<(
    Seq<char>,
    Seq<char>,
)> {
    match sp_lit(input, key) {
        Some(rest) => sp_string(rest),
        None => None,
    }
}

/// Consume one content block object.
pub open spec fn sp_block(input: Seq<char>) -> Option<(BlockView, Seq<char>)> {
    match sp_lit(input, "{\"type\":\""@) {
        Some(rest0) => match sp_tag(rest0) {
            Some((tag, rest1)) => sp_block_body(tag, rest1),
            None => None,
        },
        None => None,
    }
}

/// Consume the fields of a block whose tag has been read; the closing quote
/// of the tag has been consumed by the tag scan.
pub open spec fn sp_block_body(tag: Seq<char>, input: Seq<char>) -> Option<(
    BlockView,
    Seq<char>,
)> {
    if tag == "text"@ {
        match sp_keyed_string(input, ",\"text\":"@) {
            Some((text, rest)) => match sp_lit(rest, "}"@) {
                Some(rest1) => Some((BlockView::Text { text }, rest1)),
                None => None,
            },
            None => None,
        }
    } else if tag == "thinking"@ {
        match sp_keyed_string(input, ",\"thinking\":"@) {
            Some((thinking, rest)) => match sp_lit(rest, "}"@) {
                Some(rest1) => Some((BlockView::Thinking { thinking }, rest1)),
                None => None,
            },
            None => None,
        }
    } else if tag == "redactedThinking"@ {
        match sp_keyed_string(input, ",\"data\":"@) {
            Some((data, rest)) => match sp_lit(rest, "}"@) {
                Some(rest1) => Some((BlockView::RedactedThinking { data }, rest1)),
                None => None,
            },
            None => None,
        }
    } else if tag == "toolRequest"@ {
        match sp_three_strings(input) {
            Some((id, name, arguments, rest)) => Some(
                (BlockView::ToolRequest { id, name, arguments }, rest),
            ),
            None => None,
        }
    } else if tag == "toolResponse"@ {
        match sp_keyed_string(input, ",\"id\":"@) {
            Some((id, rest0)) => match sp_lit(rest0, ",\"success\":"@) {
                Some(rest1) => match sp_bool(rest1) {
                    Some((success, rest2)) => match sp_keyed_string(rest2, ",\"output\":"@) {
                        Some((output, rest3)) => match sp_lit(rest3, "}"@) {
                            Some(rest4) => Some(
                                (BlockView::ToolResponse { id, success, output }, rest4),
                            ),
                            None => None,
                        },
                        None => None,
                    },
                    None => None,
                },
                None => None,
            },
            None => None,
        }
    } else if tag == "toolConfirmationRequest"@ {
        match sp_three_strings(input) {
            Some((id, name, arguments, rest)) => Some(
                (BlockView::ToolConfirmationRequest { id, name, arguments }, rest),
            ),
            None => None,
        }
    } else if tag == "frontendToolRequest"@ {
        match sp_three_strings(input) {
            Some((id, name, arguments, rest)) => Some(
                (BlockView::FrontendToolRequest { id, name, arguments }, rest),
            ),
            None => None,
        }
    } else if tag == "contextLengthExceeded"@ {
        match sp_lit(input, "}"@) {
            Some(rest) => Some((BlockView::ContextLengthExceeded, rest)),
            None => None,
        }
    } else if tag == "summarizationRequested"@ {
        match sp_lit(input, "}"@) {
            Some(rest) => Some((BlockView::SummarizationRequested, rest)),
            None => None,
        }
    } else {
        None
    }
}

/// Consume the id, name and arguments fields shared by the request-like
/// blocks, and the closing brace. The tag's closing quote is already gone:
/// the first key is written without its leading quote-comma pair.
pub open spec fn sp_three_strings(input: Seq<char>) -> Option<(
    Seq<char>,
    Seq<char>,
    Seq<char>,
    Seq<char>,
)> {
    match sp_keyed_string(input, ",\"id\":"@) {
        Some((id, rest0)) => match sp_keyed_string(rest0, ",\"name\":"@) {
            Some((name, rest1)) => match sp_keyed_string(rest1, ",\"arguments\":"@) {
                Some((arguments, rest2)) => match sp_lit(rest2, "}"@) {
                    Some(rest3) => Some((id, name, arguments, rest3)),
                    None => None,
                },
                None => None,
            },
            None => None,
        },
        None => None,
    }
}

/// Consume the blocks of a content list up to and including the closing
/// bracket.
pub open spec fn sp_content(input: Seq<char>) -> Option<(Seq<BlockView>, Seq<char>)>
    decreases input.len(),
    via sp_content_decreases
{
    if input.len() == 0 {
        None
    } else if input[0] == ']' {
        Some((Seq::<BlockView>::empty(), input.drop_first()))
    } else {
        match sp_block(input) {
            Some((b, rest)) => {
                if rest.len() >= 1 && rest[0] == ',' {
                    match sp_content(rest.drop_first()) {
                        Some((bs, rest1)) => {
                            if bs.len() >= 1 {
                                Some((seq![b] + bs, rest1))
                            } else {
                                None
                            }
                        },
                        None => None,
                    }
                } else if rest.len() >= 1 && rest[0] == ']' {
                    Some((seq![b], rest.drop_first()))
                } else {
                    None
                }
            },
            None => None,
        }
    }
}

#[via_fn]
proof fn sp_content_decreases(input: Seq<char>) {
    if input.len() > 0 && input[0] != ']' {
        lemma_sp_block_len(input);
    }
}

/// Consume one message object.
pub open spec fn sp_message(input: Seq<char>) -> Option<(MessageView, Seq<char>)> {
    match sp_lit(input, "{\"role\":\""@) {
        Some(rest0) => match sp_tag(rest0) {
            Some((role_tag, rest1)) => {
                if role_tag == "user"@ || role_tag == "assistant"@ {
                    let role = if role_tag == "user"@ {
                        Role::User
                    } else {
                        Role::Assistant
                    };
                    match sp_lit(rest1, ",\"created\":"@) {
                        Some(rest2) => match sp_number(rest2) {
                            Some((created, rest3)) => match sp_lit(rest3, ",\"content\":["@) {
                                Some(rest4) => match sp_content(rest4) {
                                    Some((content, rest5)) => match sp_lit(rest5, "}"@) {
                                        Some(rest6) => Some(
                                            (MessageView { role, created, content }, rest6),
                                        ),
                                        None => None,
                                    },
                                    None => None,
                                },
                                None => None,
                            },
                            None => None,
                        },
                        None => None,
                    }
                } else {
                    None
                }
            },
            None => None,
        },
        None => None,
    }
}

/// Parse a whole transcript: messages each followed by a newline, to the end
/// of the input.
pub open spec fn sp_transcript(input: Seq<char>) -> Option<Seq<MessageView>>
    decreases input.len(),
    via sp_transcript_decreases
{
    if input.len() == 0 {
        Some(Seq::<MessageView>::empty())
    } else {
        match sp_message(input) {
            Some((m, rest)) => {
                if rest.len() >= 1 && rest[0] == '\n' {
                    match sp_transcript(rest.drop_first()) {
                        Some(ms) => Some(seq![m] + ms),
                        None => None,
                    }
                } else {
                    None
                }
            },
            None => None,
        }
    }
}

#[via_fn]
proof fn sp_transcript_decreases(input: Seq<char>) {
    if input.len() > 0 {
        lemma_sp_message_len(input);
    }
}

// ---------------------------------------------------------------------------
// Length lemmas: a successful parse consumes at least one character.
// ---------------------------------------------------------------------------
proof fn lemma_sp_lit_len(input: Seq<char>, lit: Seq<char>)
    ensures
        sp_lit(input, lit) matches Some(rest) ==> rest.len() == input.len() - lit.len(),
{
}

proof fn lemma_sp_tag_len(input: Seq<char>)
    ensures
        sp_tag(input) matches Some(r) ==> r.1.len() < input.len(),
    decreases input.len(),
{
    if input.len() > 0 && input[0] != '"' {
        lemma_sp_tag_len(input.drop_first());
    }
}

proof fn lemma_sp_str_body_len(input: Seq<char>)
    ensures
        sp_str_body(input) matches Some(r) ==> r.1.len() < input.len(),
    decreases input.len(),
{
    if input.len() == 0 {
    } else if input[0] == '"' {
    } else if input[0] == '\\' {
        if input.len() >= 2 {
            lemma_sp_str_body_len(input.skip(2));
        }
    } else {
        lemma_sp_str_body_len(input.drop_first());
    }
}

proof fn lemma_sp_digit_run_len(input: Seq<char>)
    ensures
        sp_digit_run(input).1.len() + sp_digit_run(input).0.len() == input.len(),
    decreases input.len(),
{
    if input.len() > 0 && is_digit(input[0]) {
        lemma_sp_digit_run_len(input.drop_first());
    }
}

proof fn lemma_sp_block_len(input: Seq<char>)
    ensures
        sp_block(input) matches Some(r) ==> r.1.len() < input.len(),
{
    lemma_sp_lit_len(input, "{\"type\":\""@);
    match sp_lit(input, "{\"type\":\""@) {
        Some(rest0) => {
            lemma_sp_tag_len(rest0);
            match sp_tag(rest0) {
                Some((tag, rest1)) => {
                    lemma_sp_block_body_len(tag, rest1);
                },
                None => {},
            }
        },
        None => {},
    }
}

proof fn lemma_sp_keyed_string_len(input: Seq<char>, key: Seq<char>)
    ensures
        sp_keyed_string(input, key) matches Some(r) ==> r.1.len() < input.len(),
{
    lemma_sp_lit_len(input, key);
    match sp_lit(input, key) {
        Some(rest) => {
            if rest.len() >= 1 && rest[0] == '"' {
                lemma_sp_str_body_len(rest.drop_first());
            }
        },
        None => {},
    }
}

proof fn lemma_sp_bool_len(input: Seq<char>)
    ensures
        sp_bool(input) matches Some(r) ==> r.1.len() < input.len(),
{
    lemma_sp_lit_len(input, "true"@);
    lemma_sp_lit_len(input, "false"@);
    if input.len() >= 1 && input[0] == 't' {
        reveal_strlit("true");
    } else if input.len() >= 1 && input[0] == 'f' {
        reveal_strlit("false");
    }
}

proof fn lemma_sp_three_strings_len(input: Seq<char>)
    ensures
        sp_three_strings(input) matches Some(r) ==> r.3.len() < input.len(),
{
    lemma_sp_keyed_string_len(input, ",\"id\":"@);
    match sp_keyed_string(input, ",\"id\":"@) {
        Some((id, rest0)) => {
            lemma_sp_keyed_string_len(rest0, ",\"name\":"@);
            match sp_keyed_string(rest0, ",\"name\":"@) {
                Some((name, rest1)) => {
                    lemma_sp_keyed_string_len(rest1, ",\"arguments\":"@);
                    match sp_keyed_string(rest1, ",\"arguments\":"@) {
                        Some((arguments, rest2)) => {
                            lemma_sp_lit_len(rest2, "}"@);
                        },
                        None => {},
                    }
                },
                None => {},
            }
        },
        None => {},
    }
}

proof fn lemma_sp_block_body_len(tag: Seq<char>, input: Seq<char>)
    ensures
        sp_block_body(tag, input) matches Some(r) ==> r.1.len() <= input.len(),
{
    lemma_sp_keyed_string_len(input, ",\"text\":"@);
    lemma_sp_keyed_string_len(input, ",\"thinking\":"@);
    lemma_sp_keyed_string_len(input, ",\"data\":"@);
    lemma_sp_keyed_string_len(input, ",\"id\":"@);
    lemma_sp_three_strings_len(input);
    lemma_sp_lit_len(input, "}"@);
    match sp_keyed_string(input, ",\"text\":"@) {
        Some((v, rest)) => {
            lemma_sp_lit_len(rest, "}"@);
        },
        None => {},
    }
    match sp_keyed_string(input, ",\"thinking\":"@) {
        Some((v, rest)) => {
            lemma_sp_lit_len(rest, "}"@);
        },
        None => {},
    }
    match sp_keyed_string(input, ",\"data\":"@) {
        Some((v, rest)) => {
            lemma_sp_lit_len(rest, "}"@);
        },
        None => {},
    }
    match sp_keyed_string(input, ",\"id\":"@) {
        Some((id, rest0)) => {
            lemma_sp_lit_len(rest0, ",\"success\":"@);
            match sp_lit(rest0, ",\"success\":"@) {
                Some(rest1) => {
                    lemma_sp_bool_len(rest1);
                    match sp_bool(rest1) {
                        Some((b, rest2)) => {
                            lemma_sp_keyed_string_len(rest2, ",\"output\":"@);
                            match sp_keyed_string(rest2, ",\"output\":"@) {
                                Some((output, rest3)) => {
                                    lemma_sp_lit_len(rest3, "}"@);
                                },
                                None => {},
                            }
                        },
                        None => {},
                    }
                },
                None => {},
            }
        },
        None => {},
    }
}

proof fn lemma_sp_content_len(input: Seq<char>)
    ensures
        sp_content(input) matches Some(r) ==> r.1.len() < input.len(),
    decreases input.len(),
{
    if input.len() == 0 {
    } else if input[0] == ']' {
    } else {
        lemma_sp_block_len(input);
        match sp_block(input) {
            Some((b, rest)) => {
                if rest.len() >= 1 && rest[0] == ',' {
                    lemma_sp_content_len(rest.drop_first());
                }
            },
            None => {},
        }
    }
}

proof fn lemma_sp_message_len(input: Seq<char>)
    ensures
        sp_message(input) matches Some(r) ==> r.1.len() < input.len(),
{
    lemma_sp_lit_len(input, "{\"role\":\""@);
    match sp_lit(input, "{\"role\":\""@) {
        Some(rest0) => {
            lemma_sp_tag_len(rest0);
            match sp_tag(rest0) {
                Some((role_tag, rest1)) => {
                    lemma_sp_lit_len(rest1, ",\"created\":"@);
                    match sp_lit(rest1, ",\"created\":"@) {
                        Some(rest2) => {
                            lemma_sp_digit_run_len(rest2);
                            match sp_number(rest2) {
                                Some((created, rest3)) => {
                                    lemma_sp_lit_len(rest3, ",\"content\":["@);
                                    match sp_lit(rest3, ",\"content\":["@) {
                                        Some(rest4) => {
                                            lemma_sp_content_len(rest4);
                                            match sp_content(rest4) {
                                                Some((content, rest5)) => {
                                                    lemma_sp_lit_len(rest5, "}"@);
                                                },
                                                None => {},
                                            }
                                        },
                                        None => {},
                                    }
                                },
                                None => {},
                            }
                        },
                        None => {},
                    }
                },
                None => {},
            }
        },
        None => {},
    }
}

// ---------------------------------------------------------------------------
// Round trip: parsing what the encoders wrote yields the original value.
// ---------------------------------------------------------------------------
/// No character of `s` is a quote.
pub open spec fn no_quote(s: Seq<char>) -> bool {
    forall|i: int| 0 <= i < s.len() ==> s[i] != '"'
}

proof fn lemma_sp_lit_round(lit: Seq<char>, rest: Seq<char>)
    ensures
        sp_lit(lit + rest, lit) == Some(rest),
{
    let input = lit + rest;
    assert(input.take(lit.len() as int) =~= lit);
    assert(input.skip(lit.len() as int) =~= rest);
}

proof fn lemma_sp_tag_round(tag: Seq<char>, rest: Seq<char>)
    requires
        no_quote(tag),
    ensures
        sp_tag(tag + seq!['"'] + rest) == Some((tag, rest)),
    decreases tag.len(),
{
    let input = tag + seq!['"'] + rest;
    if tag.len() == 0 {
        assert(input[0] == '"');
        assert(input.drop_first() =~= rest);
        assert(tag =~= Seq::<char>::empty());
    } else {
        assert(input[0] == tag[0]);
        assert(tag[0] != '"');
        assert(no_quote(tag.drop_first())) by {
            assert(forall|i: int|
                0 <= i < tag.len() - 1 ==> #[trigger] tag.drop_first()[i] == tag[i + 1]);
        }
        assert(input.drop_first() =~= tag.drop_first() + seq!['"'] + rest);
        lemma_sp_tag_round(tag.drop_first(), rest);
        assert(seq![input[0]] + tag.drop_first() =~= tag);
    }
}

proof fn lemma_sp_str_body_round(s: Seq<char>, rest: Seq<char>)
    ensures
        sp_str_body(esc(s) + seq!['"'] + rest) == Some((s, rest)),
    decreases s.len(),
{
    let input = esc(s) + seq!['"'] + rest;
    if s.len() == 0 {
        assert(esc(s) =~= Seq::<char>::empty());
        assert(input[0] == '"');
        assert(input.drop_first() =~= rest);
    } else {
        let c = s[0];
        let tail = s.drop_first();
        assert(esc(s) == esc_char(c) + esc(tail));
        lemma_sp_str_body_round(tail, rest);
        if c == '"' || c == '\\' || c == '\n' || c == '\r' || c == '\t' {
            let code: char = if c == '"' {
                '"'
            } else if c == '\\' {
                '\\'
            } else if c == '\n' {
                'n'
            } else if c == '\r' {
                'r'
            } else {
                't'
            };
            assert(esc_char(c) =~= seq!['\\', code]);
            assert(input[0] == '\\');
            assert(input[1] == code);
            assert(unesc_code(code) == Some(c));
            assert(input.skip(2) =~= esc(tail) + seq!['"'] + rest);
            assert(seq![c] + tail =~= s);
        } else {
            assert(esc_char(c) =~= seq![c]);
            assert(input[0] == c);
            assert(input.drop_first() =~= esc(tail) + seq!['"'] + rest);
            assert(seq![c] + tail =~= s);
        }
    }
}

proof fn lemma_sp_string_round(s: Seq<char>, rest: Seq<char>)
    ensures
        sp_string(enc_string(s) + rest) == Some((s, rest)),
{
    let input = enc_string(s) + rest;
    assert(input[0] == '"');
    assert(input.drop_first() =~= esc(s) + seq!['"'] + rest);
    lemma_sp_str_body_round(s, rest);
}

proof fn lemma_sp_keyed_string_round(key: Seq<char>, s: Seq<char>, rest: Seq<char>)
    ensures
        sp_keyed_string(key + enc_string(s) + rest, key) == Some((s, rest)),
{
    assert(key + enc_string(s) + rest =~= key + (enc_string(s) + rest));
    lemma_sp_lit_round(key, enc_string(s) + rest);
    lemma_sp_string_round(s, rest);
}

proof fn lemma_sp_digit_run_round(ds: Seq<char>, rest: Seq<char>)
    requires
        all_digits(ds),
        rest.len() == 0 || !is_digit(rest[0]),
    ensures
        sp_digit_run(ds + rest) == (ds, rest),
    decreases ds.len(),
{
    let input = ds + rest;
    if ds.len() == 0 {
        assert(input =~= rest);
        assert(ds =~= Seq::<char>::empty());
    } else {
        assert(input[0] == ds[0]);
        assert(is_digit(ds[0]));
        assert(all_digits(ds.drop_first())) by {
            assert(forall|i: int|
                0 <= i < ds.len() - 1 ==> #[trigger] ds.drop_first()[i] == ds[i + 1]);
        }
        assert(input.drop_first() =~= ds.drop_first() + rest);
        lemma_sp_digit_run_round(ds.drop_first(), rest);
        assert(seq![input[0]] + ds.drop_first() =~= ds);
    }
}

proof fn lemma_sp_number_round(n: u64, rest: Seq<char>)
    requires
        rest.len() == 0 || !is_digit(rest[0]),
    ensures
        sp_number(dec_digits(n as int) + rest) == Some((n, rest)),
{
    crate::dec::lemma_dec_round_trip(n as int);
    lemma_sp_digit_run_round(dec_digits(n as int), rest);
}

proof fn lemma_sp_bool_round(b: bool, rest: Seq<char>)
    ensures
        sp_bool(enc_bool(b) + rest) == Some((b, rest)),
{
    reveal_strlit("true");
    reveal_strlit("false");
    let input = enc_bool(b) + rest;
    if b {
        assert(input[0] == 't');
        lemma_sp_lit_round("true"@, rest);
    } else {
        assert(input[0] == 'f');
        assert(input[0] != 't');
        lemma_sp_lit_round("false"@, rest);
    }
}

/// Lengths and quote-freeness of the tag literals.
proof fn lemma_tag_facts()
    ensures
        no_quote("text"@) && "text"@.len() == 4,
        no_quote("thinking"@) && "thinking"@.len() == 8,
        no_quote("redactedThinking"@) && "redactedThinking"@.len() == 16,
        no_quote("toolRequest"@) && "toolRequest"@.len() == 11,
        no_quote("toolResponse"@) && "toolResponse"@.len() == 12,
        no_quote("toolConfirmationRequest"@) && "toolConfirmationRequest"@.len() == 23,
        no_quote("frontendToolRequest"@) && "frontendToolRequest"@.len() == 19,
        no_quote("contextLengthExceeded"@) && "contextLengthExceeded"@.len() == 21,
        no_quote("summarizationRequested"@) && "summarizationRequested"@.len() == 22,
        no_quote("user"@) && "user"@.len() == 4,
        no_quote("assistant"@) && "assistant"@.len() == 9,
{
    reveal_strlit("text");
    reveal_strlit("thinking");
    reveal_strlit("redactedThinking");
    reveal_strlit("toolRequest");
    reveal_strlit("toolResponse");
    reveal_strlit("toolConfirmationRequest");
    reveal_strlit("frontendToolRequest");
    reveal_strlit("contextLengthExceeded");
    reveal_strlit("summarizationRequested");
    reveal_strlit("user");
    reveal_strlit("assistant");
}

/// Every encoded block opens with a brace.
proof fn lemma_enc_block_first(b: BlockView)
    ensures
        enc_block(b).len() >= 1,
        enc_block(b)[0] == '{',
{
    reveal_strlit("{\"type\":\"");
    assert("{\"type\":\""@.len() == 9);
    assert("{\"type\":\""@[0] == '{');
    match b {
        BlockView::Text { text } => {},
        BlockView::Thinking { thinking } => {},
        BlockView::RedactedThinking { data } => {},
        BlockView::ToolRequest { id, name, arguments } => {},
        BlockView::ToolResponse { id, success, output } => {},
        BlockView::ToolConfirmationRequest { id, name, arguments } => {},
        BlockView::FrontendToolRequest { id, name, arguments } => {},
        BlockView::ContextLengthExceeded => {},
        BlockView::SummarizationRequested => {},
    }
}

/// Entering a block: the fixed prefix and the tag scan.
proof fn lemma_sp_block_entry(tag: Seq<char>, after: Seq<char>)
    requires
        no_quote(tag),
    ensures
        sp_block("{\"type\":\""@ + tag + seq!['"'] + after) == sp_block_body(tag, after),
{
    let input = "{\"type\":\""@ + tag + seq!['"'] + after;
    assert(input =~= "{\"type\":\""@ + (tag + seq!['"'] + after));
    lemma_sp_lit_round("{\"type\":\""@, tag + seq!['"'] + after);
    lemma_sp_tag_round(tag, after);
}

#[verifier::rlimit(100)]
#[verifier::spinoff_prover]
proof fn lemma_block_round_text(text: Seq<char>, rest: Seq<char>)
    ensures
        sp_block(enc_block(BlockView::Text { text }) + rest) == Some(
            (BlockView::Text { text }, rest),
        ),
{
    lemma_tag_facts();
    reveal_strlit("\",\"text\":");
    reveal_strlit(",\"text\":");
    assert("\",\"text\":"@ =~= seq!['"'] + ",\"text\":"@);
    let made = BlockView::Text { text };
    let after = ",\"text\":"@ + enc_string(text) + "}"@ + rest;
    assert(enc_block(made) + rest =~= "{\"type\":\""@ + "text"@ + seq!['"'] + after);
    lemma_sp_block_entry("text"@, after);
    assert(after =~= ",\"text\":"@ + enc_string(text) + ("}"@ + rest));
    lemma_sp_keyed_string_round(",\"text\":"@, text, "}"@ + rest);
    lemma_sp_lit_round("}"@, rest);
}

#[verifier::rlimit(100)]
#[verifier::spinoff_prover]
proof fn lemma_block_round_thinking(thinking: Seq<char>, rest: Seq<char>)
    ensures
        sp_block(enc_block(BlockView::Thinking { thinking }) + rest) == Some(
            (BlockView::Thinking { thinking }, rest),
        ),
{
    lemma_tag_facts();
    reveal_strlit("\",\"thinking\":");
    reveal_strlit(",\"thinking\":");
    assert("\",\"thinking\":"@ =~= seq!['"'] + ",\"thinking\":"@);
    let made = BlockView::Thinking { thinking };
    let after = ",\"thinking\":"@ + enc_string(thinking) + "}"@ + rest;
    assert(enc_block(made) + rest =~= "{\"type\":\""@ + "thinking"@ + seq!['"'] + after);
    lemma_sp_block_entry("thinking"@, after);
    assert(after =~= ",\"thinking\":"@ + enc_string(thinking) + ("}"@ + rest));
    lemma_sp_keyed_string_round(",\"thinking\":"@, thinking, "}"@ + rest);
    lemma_sp_lit_round("}"@, rest);
}

#[verifier::rlimit(100)]
#[verifier::spinoff_prover]
proof fn lemma_block_round_redacted(data: Seq<char>, rest: Seq<char>)
    ensures
        sp_block(enc_block(BlockView::RedactedThinking { data }) + rest) == Some(
            (BlockView::RedactedThinking { data }, rest),
        ),
{
    lemma_tag_facts();
    reveal_strlit("\",\"data\":");
    reveal_strlit(",\"data\":");
    assert("\",\"data\":"@ =~= seq!['"'] + ",\"data\":"@);
    let made = BlockView::RedactedThinking { data };
    let after = ",\"data\":"@ + enc_string(data) + "}"@ + rest;
    assert(enc_block(made) + rest =~= "{\"type\":\""@ + "redactedThinking"@ + seq!['"'] + after);
    lemma_sp_block_entry("redactedThinking"@, after);
    assert(after =~= ",\"data\":"@ + enc_string(data) + ("}"@ + rest));
    lemma_sp_keyed_string_round(",\"data\":"@, data, "}"@ + rest);
    lemma_sp_lit_round("}"@, rest);
}

#[verifier::rlimit(100)]
#[verifier::spinoff_prover]
proof fn lemma_block_round_three(
    tag: Seq<char>,
    made: BlockView,
    id: Seq<char>,
    name: Seq<char>,
    arguments: Seq<char>,
    rest: Seq<char>,
)
    requires
        no_quote(tag),
        enc_block(made) == "{\"type\":\""@ + tag + "\",\"id\":"@ + enc_string(id) + ",\"name\":"@
            + enc_string(name) + ",\"arguments\":"@ + enc_string(arguments) + "}"@,
        sp_block_body(
            tag,
            ",\"id\":"@ + enc_string(id) + ",\"name\":"@ + enc_string(name) + ",\"arguments\":"@
                + enc_string(arguments) + "}"@ + rest,
        ) == Some((made, rest)),
    ensures
        sp_block(enc_block(made) + rest) == Some((made, rest)),
{
    reveal_strlit("\",\"id\":");
    reveal_strlit(",\"id\":");
    assert("\",\"id\":"@ =~= seq!['"'] + ",\"id\":"@);
    let after = ",\"id\":"@ + enc_string(id) + ",\"name\":"@ + enc_string(name)
        + ",\"arguments\":"@ + enc_string(arguments) + "}"@ + rest;
    assert(enc_block(made) + rest =~= "{\"type\":\""@ + tag + seq!['"'] + after);
    lemma_sp_block_entry(tag, after);
}

#[verifier::rlimit(100)]
#[verifier::spinoff_prover]
proof fn lemma_block_round_tool_response(
    id: Seq<char>,
    success: bool,
    output: Seq<char>,
    rest: Seq<char>,
)
    ensures
        sp_block(enc_block(BlockView::ToolResponse { id, success, output }) + rest) == Some(
            (BlockView::ToolResponse { id, success, output }, rest),
        ),
{
    lemma_tag_facts();
    reveal_strlit("\",\"id\":");
    reveal_strlit(",\"id\":");
    assert("\",\"id\":"@ =~= seq!['"'] + ",\"id\":"@);
    let made = BlockView::ToolResponse { id, success, output };
    let after = ",\"id\":"@ + enc_string(id) + ",\"success\":"@ + enc_bool(success)
        + ",\"output\":"@ + enc_string(output) + "}"@ + rest;
    assert(enc_block(made) + rest =~= "{\"type\":\""@ + "toolResponse"@ + seq!['"'] + after);
    lemma_sp_block_entry("toolResponse"@, after);
    let after1 = ",\"success\":"@ + enc_bool(success) + ",\"output\":"@ + enc_string(output)
        + "}"@ + rest;
    assert(after =~= ",\"id\":"@ + enc_string(id) + after1);
    lemma_sp_keyed_string_round(",\"id\":"@, id, after1);
    let after2 = enc_bool(success) + (",\"output\":"@ + enc_string(output) + "}"@ + rest);
    assert(after1 =~= ",\"success\":"@ + after2);
    lemma_sp_lit_round(",\"success\":"@, after2);
    lemma_sp_bool_round(success, ",\"output\":"@ + enc_string(output) + "}"@ + rest);
    assert(",\"output\":"@ + enc_string(output) + "}"@ + rest =~= ",\"output\":"@ + enc_string(
        output,
    ) + ("}"@ + rest));
    lemma_sp_keyed_string_round(",\"output\":"@, output, "}"@ + rest);
    lemma_sp_lit_round("}"@, rest);
}

#[verifier::rlimit(100)]
#[verifier::spinoff_prover]
proof fn lemma_block_round_bare(tag: Seq<char>, made: BlockView, rest: Seq<char>)
    requires
        no_quote(tag),
        enc_block(made) == "{\"type\":\""@ + tag + "\"}"@,
        sp_block_body(tag, "}"@ + rest) == (match sp_lit("}"@ + rest, "}"@) {
            Some(r) => Some((made, r)),
            None => None,
        }),
    ensures
        sp_block(enc_block(made) + rest) == Some((made, rest)),
{
    reveal_strlit("\"}");
    reveal_strlit("}");
    assert("\"}"@ =~= seq!['"'] + "}"@);
    assert(enc_block(made) + rest =~= "{\"type\":\""@ + tag + seq!['"'] + ("}"@ + rest));
    lemma_sp_block_entry(tag, "}"@ + rest);
    lemma_sp_lit_round("}"@, rest);
}

proof fn lemma_sp_block_round(b: BlockView, rest: Seq<char>)
    ensures
        sp_block(enc_block(b) + rest) == Some((b, rest)),
{
    match b {
        BlockView::Text { text } => {
            lemma_block_round_text(text, rest);
        },
        BlockView::Thinking { thinking } => {
            lemma_block_round_thinking(thinking, rest);
        },
        BlockView::RedactedThinking { data } => {
            lemma_block_round_redacted(data, rest);
        },
        BlockView::ToolRequest { id, name, arguments } => {
            lemma_tag_facts();
            lemma_sp_three_strings_round(id, name, arguments, rest);
            lemma_block_round_three("toolRequest"@, b, id, name, arguments, rest);
        },
        BlockView::ToolResponse { id, success, output } => {
            lemma_block_round_tool_response(id, success, output, rest);
        },
        BlockView::ToolConfirmationRequest { id, name, arguments } => {
            lemma_tag_facts();
            lemma_sp_three_strings_round(id, name, arguments, rest);
            lemma_block_round_three("toolConfirmationRequest"@, b, id, name, arguments, rest);
        },
        BlockView::FrontendToolRequest { id, name, arguments } => {
            lemma_tag_facts();
            lemma_sp_three_strings_round(id, name, arguments, rest);
            lemma_block_round_three("frontendToolRequest"@, b, id, name, arguments, rest);
        },
        BlockView::ContextLengthExceeded => {
            lemma_tag_facts();
            lemma_sp_lit_round("}"@, rest);
            lemma_block_round_bare("contextLengthExceeded"@, b, rest);
        },
        BlockView::SummarizationRequested => {
            lemma_tag_facts();
            lemma_sp_lit_round("}"@, rest);
            lemma_block_round_bare("summarizationRequested"@, b, rest);
        },
    }
}

proof fn lemma_sp_three_strings_round(
    id: Seq<char>,
    name: Seq<char>,
    arguments: Seq<char>,
    rest: Seq<char>,
)
    ensures
        sp_three_strings(
            ",\"id\":"@ + enc_string(id) + ",\"name\":"@ + enc_string(name) + ",\"arguments\":"@
                + enc_string(arguments) + "}"@ + rest,
        ) == Some((id, name, arguments, rest)),
{
    let whole = ",\"id\":"@ + enc_string(id) + ",\"name\":"@ + enc_string(name)
        + ",\"arguments\":"@ + enc_string(arguments) + "}"@ + rest;
    let after0 = ",\"name\":"@ + enc_string(name) + ",\"arguments\":"@ + enc_string(arguments)
        + "}"@ + rest;
    assert(whole =~= ",\"id\":"@ + enc_string(id) + after0);
    lemma_sp_keyed_string_round(",\"id\":"@, id, after0);
    let after1 = ",\"arguments\":"@ + enc_string(arguments) + "}"@ + rest;
    assert(after0 =~= ",\"name\":"@ + enc_string(name) + after1);
    lemma_sp_keyed_string_round(",\"name\":"@, name, after1);
    assert(after1 =~= ",\"arguments\":"@ + enc_string(arguments) + ("}"@ + rest));
    lemma_sp_keyed_string_round(",\"arguments\":"@, arguments, "}"@ + rest);
    lemma_sp_lit_round("}"@, rest);
}

#[verifier::rlimit(100)]
#[verifier::spinoff_prover]
proof fn lemma_sp_content_round(bs: Seq<BlockView>, rest: Seq<char>)
    ensures
        sp_content(enc_blocks(bs) + seq![']'] + rest) == Some((bs, rest)),
    decreases bs.len(),
{
    let input = enc_blocks(bs) + seq![']'] + rest;
    if bs.len() == 0 {
        assert(input[0] == ']');
        assert(input.drop_first() =~= rest);
        assert(bs =~= Seq::<BlockView>::empty());
    } else if bs.len() == 1 {
        let b = bs[0];
        assert(input =~= enc_block(b) + (seq![']'] + rest));
        lemma_sp_block_round(b, seq![']'] + rest);
        lemma_enc_block_first(b);
        assert(input[0] == enc_block(b)[0]);
        assert(input[0] != ']');
        let after = seq![']'] + rest;
        assert(after[0] == ']');
        assert(after[0] != ',');
        assert(after.drop_first() =~= rest);
        assert(seq![b] =~= bs);
    } else {
        let b = bs[0];
        let tail = bs.drop_first();
        assert(enc_blocks(bs) == enc_block(b) + seq![','] + enc_blocks(tail));
        let after = seq![','] + (enc_blocks(tail) + seq![']'] + rest);
        assert(input =~= enc_block(b) + after);
        lemma_sp_block_round(b, after);
        lemma_enc_block_first(b);
        assert(input[0] == enc_block(b)[0]);
        assert(input[0] != ']');
        assert(after[0] == ',');
        assert(after.drop_first() =~= enc_blocks(tail) + seq![']'] + rest);
        lemma_sp_content_round(tail, rest);
        assert(tail.len() >= 1);
        assert(seq![b] + tail =~= bs);
    }
}

#[verifier::rlimit(100)]
#[verifier::spinoff_prover]
proof fn lemma_sp_message_round(m: MessageView, rest: Seq<char>)
    ensures
        sp_message(enc_message(m) + rest) == Some((m, rest)),
{
    lemma_tag_facts();
    reveal_strlit("\",\"created\":");
    reveal_strlit(",\"created\":");
    reveal_strlit(",\"content\":[");
    reveal_strlit("]}");
    reveal_strlit("}");
    assert("\",\"created\":"@ =~= seq!['"'] + ",\"created\":"@);
    assert("]}"@ =~= seq![']'] + "}"@);
    let role_tag = enc_role(m.role);
    let after = ",\"created\":"@ + dec_digits(m.created as int) + ",\"content\":["@ + enc_blocks(
        m.content,
    ) + "]}"@ + rest;
    assert(enc_message(m) + rest =~= "{\"role\":\""@ + role_tag + seq!['"'] + after);
    assert("{\"role\":\""@ + role_tag + seq!['"'] + after =~= "{\"role\":\""@ + (role_tag
        + seq!['"'] + after));
    lemma_sp_lit_round("{\"role\":\""@, role_tag + seq!['"'] + after);
    lemma_sp_tag_round(role_tag, after);
    let after1 = dec_digits(m.created as int) + (",\"content\":["@ + enc_blocks(m.content) + "]}"@
        + rest);
    assert(after =~= ",\"created\":"@ + after1);
    lemma_sp_lit_round(",\"created\":"@, after1);
    let after2 = ",\"content\":["@ + enc_blocks(m.content) + "]}"@ + rest;
    assert(after1 =~= dec_digits(m.created as int) + after2);
    assert(after2[0] == ',');
    assert(!is_digit(','));
    lemma_sp_number_round(m.created, after2);
    let after3 = enc_blocks(m.content) + ("]}"@ + rest);
    assert(after2 =~= ",\"content\":["@ + after3);
    lemma_sp_lit_round(",\"content\":["@, after3);
    assert(after3 =~= enc_blocks(m.content) + seq![']'] + ("}"@ + rest));
    lemma_sp_content_round(m.content, "}"@ + rest);
    lemma_sp_lit_round("}"@, rest);
}

/// Parsing an encoded transcript yields exactly the encoded messages: the
/// persistence round trip at the heart of reload-equals-original.
pub proof fn lemma_sp_transcript_round(ms: Seq<MessageView>)
    ensures
        sp_transcript(enc_transcript(ms)) == Some(ms),
    decreases ms.len(),
{
    if ms.len() == 0 {
        assert(enc_transcript(ms).len() == 0);
        assert(ms =~= Seq::<MessageView>::empty());
    } else {
        let m = ms[0];
        let tail = ms.drop_first();
        let input = enc_transcript(ms);
        let after = seq!['\n'] + enc_transcript(tail);
        assert(input =~= enc_message(m) + after);
        lemma_sp_message_round(m, after);
        assert(input.len() > 0) by {
            reveal_strlit("{\"role\":\"");
            assert("{\"role\":\""@.len() == 9);
            assert(enc_message(m).len() >= "{\"role\":\""@.len());
        }
        assert(after[0] == '\n');
        assert(after.drop_first() =~= enc_transcript(tail));
        lemma_sp_transcript_round(tail);
        assert(seq![m] + tail =~= ms);
    }
}

// ---------------------------------------------------------------------------
// Executable encoding.
// ---------------------------------------------------------------------------
/// Escaping one more character appends its escape.
proof fn lemma_esc_snoc(s: Seq<char>, c: char)
    ensures
        esc(s.push(c)) == esc(s) + esc_char(c),
    decreases s.len(),
{
    let whole = s.push(c);
    if s.len() == 0 {
        assert(whole[0] == c);
        assert(whole.drop_first() =~= Seq::<char>::empty());
        assert(esc(whole) == esc_char(c) + esc(Seq::<char>::empty()));
        assert(esc_char(c) + Seq::<char>::empty() =~= esc(s) + esc_char(c));
    } else {
        assert(whole[0] == s[0]);
        assert(whole.drop_first() =~= s.drop_first().push(c));
        lemma_esc_snoc(s.drop_first(), c);
        assert(esc_char(s[0]) + (esc(s.drop_first()) + esc_char(c)) =~= (esc_char(s[0]) + esc(
            s.drop_first(),
        )) + esc_char(c));
    }
}

/// One more block extends the run by a separator and the block.
proof fn lemma_enc_blocks_snoc(bs: Seq<BlockView>, b: BlockView)
    ensures
        bs.len() == 0 ==> enc_blocks(bs.push(b)) == enc_block(b),
        bs.len() >= 1 ==> enc_blocks(bs.push(b)) == enc_blocks(bs) + seq![','] + enc_block(b),
    decreases bs.len(),
{
    let whole = bs.push(b);
    if bs.len() == 0 {
        assert(whole.len() == 1);
        assert(whole[0] == b);
    } else {
        assert(whole[0] == bs[0]);
        assert(whole.drop_first() =~= bs.drop_first().push(b));
        lemma_enc_blocks_snoc(bs.drop_first(), b);
        if bs.len() == 1 {
            assert(enc_blocks(whole) == enc_block(bs[0]) + seq![','] + enc_blocks(
                whole.drop_first(),
            ));
            assert(enc_blocks(whole.drop_first()) == enc_block(b));
            assert(enc_blocks(bs) == enc_block(bs[0]));
        } else {
            assert(enc_blocks(whole) == enc_block(bs[0]) + seq![','] + enc_blocks(
                whole.drop_first(),
            ));
            assert(enc_blocks(whole.drop_first()) == enc_blocks(bs.drop_first()) + seq![',']
                + enc_block(b));
            assert(enc_block(bs[0]) + seq![','] + (enc_blocks(bs.drop_first()) + seq![',']
                + enc_block(b)) =~= (enc_block(bs[0]) + seq![','] + enc_blocks(bs.drop_first()))
                + seq![','] + enc_block(b));
        }
    }
}

/// One more message extends the transcript by its line.
proof fn lemma_enc_transcript_snoc(ms: Seq<MessageView>, m: MessageView)
    ensures
        enc_transcript(ms.push(m)) == enc_transcript(ms) + enc_message(m) + seq!['\n'],
    decreases ms.len(),
{
    let whole = ms.push(m);
    if ms.len() == 0 {
        assert(whole[0] == m);
        assert(whole.drop_first() =~= Seq::<MessageView>::empty());
        assert(enc_transcript(whole) == enc_message(m) + seq!['\n'] + enc_transcript(
            whole.drop_first(),
        ));
        assert(enc_message(m) + seq!['\n'] + Seq::<char>::empty() =~= enc_transcript(ms)
            + enc_message(m) + seq!['\n']);
    } else {
        assert(whole[0] == ms[0]);
        assert(whole.drop_first() =~= ms.drop_first().push(m));
        lemma_enc_transcript_snoc(ms.drop_first(), m);
        assert(enc_message(ms[0]) + seq!['\n'] + (enc_transcript(ms.drop_first()) + enc_message(m)
            + seq!['\n']) =~= (enc_message(ms[0]) + seq!['\n'] + enc_transcript(ms.drop_first()))
            + enc_message(m) + seq!['\n']);
    }
}

/// Append a literal's characters.
pub(crate) fn emit_str(out: &mut Vec<char>, lit: &str)
    ensures
        final(out)@ == old(out)@ + lit@,
{
    let cs = crate::strutil::chars_of(lit);
    out.extend_from_slice(cs.as_slice());
}

/// Append one character.
fn emit_char(out: &mut Vec<char>, c: char)
    ensures
        final(out)@ == old(out)@ + seq![c],
{
    out.push(c);
    proof {
        assert(final(out)@ =~= old(out)@ + seq![c]);
    }
}

/// Append a string value, quoted and escaped.
pub(crate) fn emit_string(out: &mut Vec<char>, s: &str)
    ensures
        final(out)@ == old(out)@ + enc_string(s@),
{
    let cs = crate::strutil::chars_of(s);
    emit_char(out, '"');
    let mut i: usize = 0;
    while i < cs.len()
        invariant
            i <= cs@.len(),
            cs@ == s@,
            out@ == old(out)@ + seq!['"'] + esc(s@.take(i as int)),
        decreases cs@.len() - i,
    {
        let c = cs[i];
        let ghost pre = out@;
        if c == '"' {
            out.push('\\');
            out.push('"');
        } else if c == '\\' {
            out.push('\\');
            out.push('\\');
        } else if c == '\n' {
            out.push('\\');
            out.push('n');
        } else if c == '\r' {
            out.push('\\');
            out.push('r');
        } else if c == '\t' {
            out.push('\\');
            out.push('t');
        } else {
            out.push(c);
        }
        proof {
            assert(out@ =~= pre + esc_char(s@[i as int]));
            assert(s@.take(i as int + 1) =~= s@.take(i as int).push(s@[i as int]));
            lemma_esc_snoc(s@.take(i as int), s@[i as int]);
            assert(out@ =~= old(out)@ + seq!['"'] + esc(s@.take(i as int + 1)));
        }
        i += 1;
    }
    emit_char(out, '"');
    proof {
        assert(s@.take(s@.len() as int) =~= s@);
        assert(old(out)@ + seq!['"'] + esc(s@) + seq!['"'] =~= old(out)@ + enc_string(s@));
    }
}

/// Append a number's digits.
fn emit_u64(out: &mut Vec<char>, n: u64)
    ensures
        final(out)@ == old(out)@ + dec_digits(n as int),
{
    let ds = crate::dec::format_u64(n);
    out.extend_from_slice(ds.as_slice());
}

/// Append a boolean literal.
fn emit_bool(out: &mut Vec<char>, b: bool)
    ensures
        final(out)@ == old(out)@ + enc_bool(b),
{
    if b {
        emit_str(out, "true");
    } else {
        emit_str(out, "false");
    }
}

/// Append one encoded content block.
#[verifier::rlimit(100)]
#[verifier::spinoff_prover]
fn emit_block(out: &mut Vec<char>, b: &crate::message::ContentBlock)
    ensures
        final(out)@ == old(out)@ + enc_block(b@),
{
    match b {
        crate::message::ContentBlock::Text { text } => {
            emit_str(out, "{\"type\":\"");
            emit_str(out, "text");
            emit_str(out, "\",\"text\":");
            emit_string(out, text.as_str());
            emit_str(out, "}");
            proof {
                assert(final(out)@ =~= old(out)@ + enc_block(b@));
            }
        },
        crate::message::ContentBlock::Thinking { thinking } => {
            emit_str(out, "{\"type\":\"");
            emit_str(out, "thinking");
            emit_str(out, "\",\"thinking\":");
            emit_string(out, thinking.as_str());
            emit_str(out, "}");
            proof {
                assert(final(out)@ =~= old(out)@ + enc_block(b@));
            }
        },
        crate::message::ContentBlock::RedactedThinking { data } => {
            emit_str(out, "{\"type\":\"");
            emit_str(out, "redactedThinking");
            emit_str(out, "\",\"data\":");
            emit_string(out, data.as_str());
            emit_str(out, "}");
            proof {
                assert(final(out)@ =~= old(out)@ + enc_block(b@));
            }
        },
        crate::message::ContentBlock::ToolRequest { id, name, arguments } => {
            emit_str(out, "{\"type\":\"");
            emit_str(out, "toolRequest");
            emit_str(out, "\",\"id\":");
            emit_string(out, id.as_str());
            emit_str(out, ",\"name\":");
            emit_string(out, name.as_str());
            emit_str(out, ",\"arguments\":");
            emit_string(out, arguments.as_str());
            emit_str(out, "}");
            proof {
                assert(final(out)@ =~= old(out)@ + enc_block(b@));
            }
        },
        crate::message::ContentBlock::ToolResponse { id, success, output } => {
            emit_str(out, "{\"type\":\"");
            emit_str(out, "toolResponse");
            emit_str(out, "\",\"id\":");
            emit_string(out, id.as_str());
            emit_str(out, ",\"success\":");
            emit_bool(out, *success);
            emit_str(out, ",\"output\":");
            emit_string(out, output.as_str());
            emit_str(out, "}");
            proof {
                assert(final(out)@ =~= old(out)@ + enc_block(b@));
            }
        },
        crate::message::ContentBlock::ToolConfirmationRequest { id, name, arguments } => {
            emit_str(out, "{\"type\":\"");
            emit_str(out, "toolConfirmationRequest");
            emit_str(out, "\",\"id\":");
            emit_string(out, id.as_str());
            emit_str(out, ",\"name\":");
            emit_string(out, name.as_str());
            emit_str(out, ",\"arguments\":");
            emit_string(out, arguments.as_str());
            emit_str(out, "}");
            proof {
                assert(final(out)@ =~= old(out)@ + enc_block(b@));
            }
        },
        crate::message::ContentBlock::FrontendToolRequest { id, name, arguments } => {
            emit_str(out, "{\"type\":\"");
            emit_str(out, "frontendToolRequest");
            emit_str(out, "\",\"id\":");
            emit_string(out, id.as_str());
            emit_str(out, ",\"name\":");
            emit_string(out, name.as_str());
            emit_str(out, ",\"arguments\":");
            emit_string(out, arguments.as_str());
            emit_str(out, "}");
            proof {
                assert(final(out)@ =~= old(out)@ + enc_block(b@));
            }
        },
        crate::message::ContentBlock::ContextLengthExceeded => {
            emit_str(out, "{\"type\":\"");
            emit_str(out, "contextLengthExceeded");
            emit_str(out, "\"}");
            proof {
                assert(final(out)@ =~= old(out)@ + enc_block(b@));
            }
        },
        crate::message::ContentBlock::SummarizationRequested => {
            emit_str(out, "{\"type\":\"");
            emit_str(out, "summarizationRequested");
            emit_str(out, "\"}");
            proof {
                assert(final(out)@ =~= old(out)@ + enc_block(b@));
            }
        },
    }
}

/// Append one encoded message.
pub(crate) fn emit_message(out: &mut Vec<char>, m: &crate::message::Message)
    ensures
        final(out)@ == old(out)@ + enc_message(m@),
{
    emit_str(out, "{\"role\":\"");
    match m.role {
        Role::User => emit_str(out, "user"),
        Role::Assistant => emit_str(out, "assistant"),
    }
    emit_str(out, "\",\"created\":");
    emit_u64(out, m.created);
    emit_str(out, ",\"content\":[");
    let ghost base = out@;
    let ghost cv = m@.content;
    let mut i: usize = 0;
    while i < m.content.len()
        invariant
            i <= m.content@.len(),
            cv == m@.content,
            cv.len() == m.content@.len(),
            out@ == base + enc_blocks(cv.take(i as int)),
        decreases m.content@.len() - i,
    {
        let ghost pre = out@;
        if i > 0 {
            emit_char(out, ',');
        }
        emit_block(out, &m.content[i]);
        proof {
            assert(cv[i as int] == m.content@[i as int]@);
            assert(cv.take(i as int + 1) =~= cv.take(i as int).push(cv[i as int]));
            lemma_enc_blocks_snoc(cv.take(i as int), cv[i as int]);
            if i > 0 {
                assert(cv.take(i as int).len() >= 1);
                assert(out@ =~= pre + seq![','] + enc_block(cv[i as int]));
                assert(out@ =~= base + (enc_blocks(cv.take(i as int)) + seq![','] + enc_block(
                    cv[i as int],
                )));
            } else {
                assert(cv.take(0) =~= Seq::<BlockView>::empty());
                assert(out@ =~= base + enc_block(cv[0]));
            }
        }
        i += 1;
    }
    proof {
        assert(cv.take(cv.len() as int) =~= cv);
    }
    emit_str(out, "]}");
    proof {
        reveal_strlit("]}");
        reveal_strlit("}");
        assert("]}"@ =~= seq![']'] + "}"@);
        assert(final(out)@ =~= old(out)@ + enc_message(m@));
    }
}

/// A transcript encoded for persistence: each message on its own line.
pub fn encode_transcript(messages: &Vec<crate::message::Message>) -> (s: String)
    ensures
        s@ == enc_transcript(crate::message::transcript_view(messages@)),
{
    let mut out: Vec<char> = Vec::new();
    let ghost tv = crate::message::transcript_view(messages@);
    let mut i: usize = 0;
    while i < messages.len()
        invariant
            i <= messages@.len(),
            tv == crate::message::transcript_view(messages@),
            tv.len() == messages@.len(),
            out@ == enc_transcript(tv.take(i as int)),
        decreases messages@.len() - i,
    {
        let ghost pre = out@;
        emit_message(&mut out, &messages[i]);
        emit_char(&mut out, '\n');
        proof {
            assert(tv[i as int] == messages@[i as int]@);
            assert(tv.take(i as int + 1) =~= tv.take(i as int).push(tv[i as int]));
            lemma_enc_transcript_snoc(tv.take(i as int), tv[i as int]);
            assert(out@ =~= pre + enc_message(tv[i as int]) + seq!['\n']);
        }
        i += 1;
    }
    proof {
        assert(tv.take(tv.len() as int) =~= tv);
    }
    crate::strutil::string_from_chars(&out)
}

// ---------------------------------------------------------------------------
// Executable decoding.
// ---------------------------------------------------------------------------
proof fn lemma_skip_step(v: Seq<char>, a: int)
    requires
        0 <= a < v.len(),
    ensures
        v.skip(a).len() == v.len() - a,
        v.skip(a)[0] == v[a],
        v.skip(a).drop_first() =~= v.skip(a + 1),
        a + 2 <= v.len() ==> v.skip(a).skip(2) =~= v.skip(a + 2),
{
}

fn chars_eq(a: &Vec<char>, b: &Vec<char>) -> (r: bool)
    ensures
        r == (a@ == b@),
{
    if a.len() != b.len() {
        proof {
            assert(a@ != b@);
        }
        return false;
    }
    let mut i: usize = 0;
    while i < a.len()
        invariant
            i <= a@.len(),
            a@.len() == b@.len(),
            forall|j: int| 0 <= j < i ==> a@[j] == b@[j],
        decreases a@.len() - i,
    {
        if a[i] != b[i] {
            return false;
        }
        i += 1;
    }
    proof {
        assert(a@ =~= b@);
    }
    true
}

fn dmatch_lit(v: &Vec<char>, pos: usize, lit: &Vec<char>) -> (r: Option<usize>)
    requires
        pos <= v@.len(),
    ensures
        match r {
            Some(np) => {
                &&& pos <= np <= v@.len()
                &&& np == pos + lit@.len()
                &&& sp_lit(v@.skip(pos as int), lit@) == Some(v@.skip(np as int))
            },
            None => sp_lit(v@.skip(pos as int), lit@) is None,
        },
{
    if v.len() - pos < lit.len() {
        proof {
            assert(v@.skip(pos as int).len() < lit@.len());
        }
        return None;
    }
    let mut j: usize = 0;
    while j < lit.len() && v[pos + j] == lit[j]
        invariant
            j <= lit@.len(),
            pos + lit@.len() <= v@.len(),
            v@.len() <= usize::MAX,
            forall|j0: int| 0 <= j0 < j ==> v@[pos + j0] == lit@[j0],
        decreases lit@.len() - j,
    {
        j += 1;
    }
    if j == lit.len() {
        proof {
            assert(v@.skip(pos as int).take(lit@.len() as int) =~= lit@);
            assert(v@.skip(pos as int).skip(lit@.len() as int) =~= v@.skip(
                pos as int + lit@.len() as int,
            ));
        }
        Some(pos + lit.len())
    } else {
        proof {
            assert(v@[pos as int + j as int] != lit@[j as int]);
            assert(v@.skip(pos as int).take(lit@.len() as int) != lit@) by {
                assert(v@.skip(pos as int).take(lit@.len() as int)[j as int] == v@[pos as int
                    + j as int]);
            }
        }
        None
    }
}

fn dscan_tag(v: &Vec<char>, pos: usize) -> (r: Option<(Vec<char>, usize)>)
    requires
        pos <= v@.len(),
    ensures
        match r {
            Some(t) => {
                &&& pos < t.1 <= v@.len()
                &&& sp_tag(v@.skip(pos as int)) == Some((t.0@, v@.skip(t.1 as int)))
            },
            None => sp_tag(v@.skip(pos as int)) is None,
        },
{
    let mut acc: Vec<char> = Vec::new();
    let mut cur: usize = pos;
    loop
        invariant
            pos <= cur <= v@.len(),
            match sp_tag(v@.skip(cur as int)) {
                Some(r) => sp_tag(v@.skip(pos as int)) == Some((acc@ + r.0, r.1)),
                None => sp_tag(v@.skip(pos as int)) is None,
            },
        decreases v@.len() - cur,
    {
        if cur == v.len() {
            proof {
                assert(v@.skip(cur as int).len() == 0);
            }
            return None;
        }
        let c = v[cur];
        proof {
            lemma_skip_step(v@, cur as int);
        }
        if c == '"' {
            proof {
                assert(sp_tag(v@.skip(cur as int)) == Some(
                    (Seq::<char>::empty(), v@.skip(cur as int + 1)),
                ));
                assert(acc@ + Seq::<char>::empty() =~= acc@);
            }
            return Some((acc, cur + 1));
        }
        let ghost preacc = acc@;
        acc.push(c);
        proof {
            match sp_tag(v@.skip(cur as int + 1)) {
                Some(r) => {
                    assert(sp_tag(v@.skip(cur as int)) == Some((seq![c] + r.0, r.1)));
                    assert(preacc + (seq![c] + r.0) =~= acc@ + r.0);
                },
                None => {},
            }
        }
        cur += 1;
    }
}

fn dparse_string(v: &Vec<char>, pos: usize) -> (r: Option<(String, usize)>)
    requires
        pos <= v@.len(),
    ensures
        match r {
            Some(t) => {
                &&& pos < t.1 <= v@.len()
                &&& sp_string(v@.skip(pos as int)) == Some((t.0@, v@.skip(t.1 as int)))
            },
            None => sp_string(v@.skip(pos as int)) is None,
        },
{
    if pos == v.len() {
        return None;
    }
    proof {
        lemma_skip_step(v@, pos as int);
    }
    if v[pos] != '"' {
        return None;
    }
    let mut acc: Vec<char> = Vec::new();
    let mut cur: usize = pos + 1;
    loop
        invariant
            pos + 1 <= cur <= v@.len(),
            pos < v@.len(),
            v@[pos as int] == '"',
            sp_string(v@.skip(pos as int)) == sp_str_body(v@.skip(pos as int + 1)),
            match sp_str_body(v@.skip(cur as int)) {
                Some(r) => sp_str_body(v@.skip(pos as int + 1)) == Some((acc@ + r.0, r.1)),
                None => sp_str_body(v@.skip(pos as int + 1)) is None,
            },
        decreases v@.len() - cur,
    {
        if cur == v.len() {
            proof {
                assert(v@.skip(cur as int).len() == 0);
            }
            return None;
        }
        let c = v[cur];
        proof {
            lemma_skip_step(v@, cur as int);
        }
        if c == '"' {
            proof {
                assert(sp_str_body(v@.skip(cur as int)) == Some(
                    (Seq::<char>::empty(), v@.skip(cur as int + 1)),
                ));
                assert(acc@ + Seq::<char>::empty() =~= acc@);
            }
            let out = crate::strutil::string_from_chars(&acc);
            return Some((out, cur + 1));
        }
        if c == '\\' {
            if cur + 1 == v.len() {
                proof {
                    assert(v@.skip(cur as int).len() < 2);
                }
                return None;
            }
            let code = v[cur + 1];
            proof {
                assert(v@.skip(cur as int)[1] == v@[cur as int + 1]);
            }
            let unescaped: char = if code == '"' {
                '"'
            } else if code == '\\' {
                '\\'
            } else if code == 'n' {
                '\n'
            } else if code == 'r' {
                '\r'
            } else if code == 't' {
                '\t'
            } else {
                proof {
                    assert(unesc_code(v@[cur as int + 1]) is None);
                }
                return None;
            };
            let ghost preacc = acc@;
            acc.push(unescaped);
            proof {
                assert(unesc_code(code) == Some(unescaped));
                match sp_str_body(v@.skip(cur as int + 2)) {
                    Some(r) => {
                        assert(sp_str_body(v@.skip(cur as int)) == Some(
                            (seq![unescaped] + r.0, r.1),
                        ));
                        assert(preacc + (seq![unescaped] + r.0) =~= acc@ + r.0);
                    },
                    None => {},
                }
            }
            cur += 2;
        } else {
            let ghost preacc = acc@;
            acc.push(c);
            proof {
                match sp_str_body(v@.skip(cur as int + 1)) {
                    Some(r) => {
                        assert(sp_str_body(v@.skip(cur as int)) == Some((seq![c] + r.0, r.1)));
                        assert(preacc + (seq![c] + r.0) =~= acc@ + r.0);
                    },
                    None => {},
                }
            }
            cur += 1;
        }
    }
}

fn dparse_number(v: &Vec<char>, pos: usize) -> (r: Option<(u64, usize)>)
    requires
        pos <= v@.len(),
    ensures
        match r {
            Some(t) => {
                &&& pos < t.1 <= v@.len()
                &&& sp_number(v@.skip(pos as int)) == Some((t.0, v@.skip(t.1 as int)))
            },
            None => sp_number(v@.skip(pos as int)) is None,
        },
{
    let mut run: Vec<char> = Vec::new();
    let mut cur: usize = pos;
    loop
        invariant_except_break
            pos <= cur <= v@.len(),
            all_digits(run@),
            run@.len() == cur - pos,
            sp_digit_run(v@.skip(pos as int)) == (
                run@ + sp_digit_run(v@.skip(cur as int)).0,
                sp_digit_run(v@.skip(cur as int)).1,
            ),
        ensures
            pos <= cur <= v@.len(),
            all_digits(run@),
            run@.len() == cur - pos,
            sp_digit_run(v@.skip(pos as int)).0 == run@,
            sp_digit_run(v@.skip(pos as int)).1 == v@.skip(cur as int),
        decreases v@.len() - cur,
    {
        if cur == v.len() {
            proof {
                assert(v@.skip(cur as int).len() == 0);
                assert(sp_digit_run(v@.skip(cur as int)).0 =~= Seq::<char>::empty());
                assert(run@ + Seq::<char>::empty() =~= run@);
            }
            break;
        }
        let c = v[cur];
        proof {
            lemma_skip_step(v@, cur as int);
        }
        match crate::dec::char_digit(c) {
            Some(d) => {
                let ghost prerun = run@;
                run.push(c);
                proof {
                    assert(is_digit(c));
                    let inner = sp_digit_run(v@.skip(cur as int + 1));
                    assert(sp_digit_run(v@.skip(cur as int)) == (seq![c] + inner.0, inner.1));
                    assert(prerun + (seq![c] + inner.0) =~= run@ + inner.0);
                }
                cur += 1;
            },
            None => {
                proof {
                    assert(!is_digit(c));
                    assert(sp_digit_run(v@.skip(cur as int)) == (
                        Seq::<char>::empty(),
                        v@.skip(cur as int),
                    ));
                    assert(run@ + Seq::<char>::empty() =~= run@);
                }
                break;
            },
        }
    }
    match crate::dec::parse_u64(&run) {
        Some(n) => Some((n, cur)),
        None => {
            proof {
                assert(run@.len() == 0 || dec_value(run@) > u64::MAX);
            }
            None
        },
    }
}

fn dparse_bool(v: &Vec<char>, pos: usize) -> (r: Option<(bool, usize)>)
    requires
        pos <= v@.len(),
    ensures
        match r {
            Some(t) => {
                &&& pos < t.1 <= v@.len()
                &&& sp_bool(v@.skip(pos as int)) == Some((t.0, v@.skip(t.1 as int)))
            },
            None => sp_bool(v@.skip(pos as int)) is None,
        },
{
    if pos == v.len() {
        return None;
    }
    proof {
        lemma_skip_step(v@, pos as int);
    }
    let c = v[pos];
    if c == 't' {
        let lit = crate::strutil::chars_of("true");
        match dmatch_lit(v, pos, &lit) {
            Some(np) => {
                proof {
                    reveal_strlit("true");
                }
                Some((true, np))
            },
            None => None,
        }
    } else if c == 'f' {
        let lit = crate::strutil::chars_of("false");
        match dmatch_lit(v, pos, &lit) {
            Some(np) => {
                proof {
                    reveal_strlit("false");
                }
                Some((false, np))
            },
            None => None,
        }
    } else {
        None
    }
}

#[verifier::rlimit(100)]
#[verifier::spinoff_prover]
fn dparse_block(v: &Vec<char>, pos: usize) -> (r: Option<(crate::message::ContentBlock, usize)>)
    requires
        pos <= v@.len(),
    ensures
        match r {
            Some(t) => {
                &&& pos < t.1 <= v@.len()
                &&& sp_block(v@.skip(pos as int)) == Some((t.0@, v@.skip(t.1 as int)))
            },
            None => sp_block(v@.skip(pos as int)) is None,
        },
{
    let head = crate::strutil::chars_of("{\"type\":\"");
    let np0 = match dmatch_lit(v, pos, &head) {
        Some(np0) => np0,
        None => {
            return None;
        },
    };
    let (tag, np1) = match dscan_tag(v, np0) {
        Some(t) => t,
        None => {
            return None;
        },
    };
    if chars_eq(&tag, &crate::strutil::chars_of("text")) {
        match dparse_keyed_string(v, np1, ",\"text\":") {
            Some((text, np2)) => match dmatch_lit(v, np2, &crate::strutil::chars_of("}")) {
                Some(np3) => Some((crate::message::ContentBlock::Text { text }, np3)),
                None => None,
            },
            None => None,
        }
    } else if chars_eq(&tag, &crate::strutil::chars_of("thinking")) {
        match dparse_keyed_string(v, np1, ",\"thinking\":") {
            Some((thinking, np2)) => match dmatch_lit(v, np2, &crate::strutil::chars_of("}")) {
                Some(np3) => Some((crate::message::ContentBlock::Thinking { thinking }, np3)),
                None => None,
            },
            None => None,
        }
    } else if chars_eq(&tag, &crate::strutil::chars_of("redactedThinking")) {
        match dparse_keyed_string(v, np1, ",\"data\":") {
            Some((data, np2)) => match dmatch_lit(v, np2, &crate::strutil::chars_of("}")) {
                Some(np3) => Some((crate::message::ContentBlock::RedactedThinking { data }, np3)),
                None => None,
            },
            None => None,
        }
    } else if chars_eq(&tag, &crate::strutil::chars_of("toolRequest")) {
        match dparse_three_strings(v, np1) {
            Some((id, name, arguments, np2)) => Some(
                (crate::message::ContentBlock::ToolRequest { id, name, arguments }, np2),
            ),
            None => None,
        }
    } else if chars_eq(&tag, &crate::strutil::chars_of("toolResponse")) {
        match dparse_keyed_string(v, np1, ",\"id\":") {
            Some((id, np2)) => match dmatch_lit(v, np2, &crate::strutil::chars_of(",\"success\":")) {
                Some(np3) => match dparse_bool(v, np3) {
                    Some((success, np4)) => match dparse_keyed_string(v, np4, ",\"output\":") {
                        Some((output, np5)) => match dmatch_lit(
                            v,
                            np5,
                            &crate::strutil::chars_of("}"),
                        ) {
                            Some(np6) => Some(
                                (
                                    crate::message::ContentBlock::ToolResponse {
                                        id,
                                        success,
                                        output,
                                    },
                                    np6,
                                ),
                            ),
                            None => None,
                        },
                        None => None,
                    },
                    None => None,
                },
                None => None,
            },
            None => None,
        }
    } else if chars_eq(&tag, &crate::strutil::chars_of("toolConfirmationRequest")) {
        match dparse_three_strings(v, np1) {
            Some((id, name, arguments, np2)) => Some(
                (
                    crate::message::ContentBlock::ToolConfirmationRequest { id, name, arguments },
                    np2,
                ),
            ),
            None => None,
        }
    } else if chars_eq(&tag, &crate::strutil::chars_of("frontendToolRequest")) {
        match dparse_three_strings(v, np1) {
            Some((id, name, arguments, np2)) => Some(
                (crate::message::ContentBlock::FrontendToolRequest { id, name, arguments }, np2),
            ),
            None => None,
        }
    } else if chars_eq(&tag, &crate::strutil::chars_of("contextLengthExceeded")) {
        match dmatch_lit(v, np1, &crate::strutil::chars_of("}")) {
            Some(np2) => Some((crate::message::ContentBlock::ContextLengthExceeded, np2)),
            None => None,
        }
    } else if chars_eq(&tag, &crate::strutil::chars_of("summarizationRequested")) {
        match dmatch_lit(v, np1, &crate::strutil::chars_of("}")) {
            Some(np2) => Some((crate::message::ContentBlock::SummarizationRequested, np2)),
            None => None,
        }
    } else {
        None
    }
}

/// Consume one `,"<key>":` literal and its quoted string value.
fn dparse_keyed_string(v: &Vec<char>, pos: usize, key: &str) -> (r: Option<(String, usize)>)
    requires
        pos <= v@.len(),
    ensures
        match r {
            Some(t) => {
                &&& pos < t.1 <= v@.len()
                &&& sp_keyed_string(v@.skip(pos as int), key@) == Some((t.0@, v@.skip(t.1 as int)))
            },
            None => sp_keyed_string(v@.skip(pos as int), key@) is None,
        },
{
    let lit = crate::strutil::chars_of(key);
    match dmatch_lit(v, pos, &lit) {
        Some(np0) => match dparse_string(v, np0) {
            Some((value, np1)) => Some((value, np1)),
            None => None,
        },
        None => None,
    }
}

fn dparse_three_strings(v: &Vec<char>, pos: usize) -> (r: Option<(String, String, String, usize)>)
    requires
        pos <= v@.len(),
    ensures
        match r {
            Some(t) => {
                &&& pos < t.3 <= v@.len()
                &&& sp_three_strings(v@.skip(pos as int)) == Some(
                    (t.0@, t.1@, t.2@, v@.skip(t.3 as int)),
                )
            },
            None => sp_three_strings(v@.skip(pos as int)) is None,
        },
{
    match dparse_keyed_string(v, pos, ",\"id\":") {
        Some((id, np0)) => match dparse_keyed_string(v, np0, ",\"name\":") {
            Some((name, np1)) => match dparse_keyed_string(v, np1, ",\"arguments\":") {
                Some((arguments, np2)) => match dmatch_lit(
                    v,
                    np2,
                    &crate::strutil::chars_of("}"),
                ) {
                    Some(np3) => Some((id, name, arguments, np3)),
                    None => None,
                },
                None => None,
            },
            None => None,
        },
        None => None,
    }
}

#[verifier::rlimit(100)]
#[verifier::spinoff_prover]
fn dparse_content(v: &Vec<char>, pos: usize) -> (r: Option<(
    Vec<crate::message::ContentBlock>,
    usize,
)>)
    requires
        pos <= v@.len(),
    ensures
        match r {
            Some(t) => {
                &&& pos < t.1 <= v@.len()
                &&& sp_content(v@.skip(pos as int)) == Some(
                    (t.0@.map_values(|b: crate::message::ContentBlock| b@), v@.skip(t.1 as int)),
                )
            },
            None => sp_content(v@.skip(pos as int)) is None,
        },
{
    if pos == v.len() {
        return None;
    }
    proof {
        lemma_skip_step(v@, pos as int);
    }
    if v[pos] == ']' {
        let empty: Vec<crate::message::ContentBlock> = Vec::new();
        proof {
            assert(empty@.map_values(|b: crate::message::ContentBlock| b@) =~= Seq::<
                BlockView,
            >::empty());
        }
        return Some((empty, pos + 1));
    }
    let mut acc: Vec<crate::message::ContentBlock> = Vec::new();
    let mut cur: usize = pos;
    loop
        invariant
            pos <= cur <= v@.len(),
            cur < v@.len() ==> v@[cur as int] != ']',
            cur == v@.len() || v@[cur as int] != ']',
            ({
                let avs = acc@.map_values(|b: crate::message::ContentBlock| b@);
                match sp_content(v@.skip(cur as int)) {
                    Some(t) => t.0.len() >= 1 && sp_content(v@.skip(pos as int)) == Some(
                        (avs + t.0, t.1),
                    ),
                    None => sp_content(v@.skip(pos as int)) is None,
                }
            }),
        decreases v@.len() - cur,
    {
        proof {
            if cur < v@.len() {
                lemma_skip_step(v@, cur as int);
            }
            if sp_content(v@.skip(cur as int)) matches Some(t) {
                lemma_sp_content_shape(v@.skip(cur as int));
            }
        }
        let (b, np) = match dparse_block(v, cur) {
            Some(t) => t,
            None => {
                return None;
            },
        };
        let ghost preacc = acc@;
        acc.push(b);
        if np == v.len() {
            proof {
                assert(v@.skip(np as int).len() == 0);
            }
            return None;
        }
        proof {
            lemma_skip_step(v@, np as int);
        }
        if v[np] == ']' {
            proof {
                let avs = acc@.map_values(|b0: crate::message::ContentBlock| b0@);
                let pvs = preacc.map_values(|b0: crate::message::ContentBlock| b0@);
                assert(sp_content(v@.skip(cur as int)) == Some((seq![b@], v@.skip(np as int + 1))));
                assert(avs =~= pvs.push(b@));
                assert(pvs + seq![b@] =~= avs);
            }
            return Some((acc, np + 1));
        }
        if v[np] == ',' {
            if np + 1 == v.len() {
                return None;
            }
            proof {
                lemma_skip_step(v@, np as int + 1);
            }
            if v[np + 1] == ']' {
                proof {
                    assert(sp_content(v@.skip(np as int + 1)) == Some(
                        (Seq::<BlockView>::empty(), v@.skip(np as int + 2)),
                    ));
                    assert(sp_content(v@.skip(cur as int)) is None);
                }
                return None;
            }
            proof {
                let avs = acc@.map_values(|b0: crate::message::ContentBlock| b0@);
                let pvs = preacc.map_values(|b0: crate::message::ContentBlock| b0@);
                assert(avs =~= pvs.push(b@));
                match sp_content(v@.skip(np as int + 1)) {
                    Some(t) => {
                        lemma_sp_content_shape(v@.skip(np as int + 1));
                        assert(t.0.len() >= 1);
                        assert(sp_content(v@.skip(cur as int)) == Some((seq![b@] + t.0, t.1)));
                        assert(pvs + (seq![b@] + t.0) =~= avs + t.0);
                    },
                    None => {
                        assert(sp_content(v@.skip(cur as int)) is None);
                    },
                }
            }
            cur = np + 1;
        } else {
            proof {
                assert(v@.skip(np as int)[0] != ',' && v@.skip(np as int)[0] != ']');
                assert(sp_content(v@.skip(cur as int)) is None);
            }
            return None;
        }
    }
}

/// A parsed content list that starts with a block is non-empty.
proof fn lemma_sp_content_shape(input: Seq<char>)
    requires
        input.len() > 0,
        input[0] != ']',
    ensures
        sp_content(input) matches Some(t) ==> t.0.len() >= 1,
{
}

#[verifier::rlimit(100)]
#[verifier::spinoff_prover]
fn dparse_message(v: &Vec<char>, pos: usize) -> (r: Option<(crate::message::Message, usize)>)
    requires
        pos <= v@.len(),
    ensures
        match r {
            Some(t) => {
                &&& pos < t.1 <= v@.len()
                &&& sp_message(v@.skip(pos as int)) == Some((t.0@, v@.skip(t.1 as int)))
            },
            None => sp_message(v@.skip(pos as int)) is None,
        },
{
    let head = crate::strutil::chars_of("{\"role\":\"");
    let np0 = match dmatch_lit(v, pos, &head) {
        Some(np0) => np0,
        None => {
            return None;
        },
    };
    let (role_tag, np1) = match dscan_tag(v, np0) {
        Some(t) => t,
        None => {
            return None;
        },
    };
    let role: Role = if chars_eq(&role_tag, &crate::strutil::chars_of("user")) {
        Role::User
    } else if chars_eq(&role_tag, &crate::strutil::chars_of("assistant")) {
        Role::Assistant
    } else {
        return None;
    };
    let np2 = match dmatch_lit(v, np1, &crate::strutil::chars_of(",\"created\":")) {
        Some(np2) => np2,
        None => {
            return None;
        },
    };
    let (created, np3) = match dparse_number(v, np2) {
        Some(t) => t,
        None => {
            return None;
        },
    };
    let np4 = match dmatch_lit(v, np3, &crate::strutil::chars_of(",\"content\":[")) {
        Some(np4) => np4,
        None => {
            return None;
        },
    };
    let (content, np5) = match dparse_content(v, np4) {
        Some(t) => t,
        None => {
            return None;
        },
    };
    let np6 = match dmatch_lit(v, np5, &crate::strutil::chars_of("}")) {
        Some(np6) => np6,
        None => {
            return None;
        },
    };
    let m = crate::message::Message { role, created, content };
    Some((m, np6))
}

/// Reload a persisted transcript. The result is exactly the message sequence
/// that the canonical encoding describes; on any line that does not parse,
/// nothing is returned.
pub fn decode_transcript(s: &str) -> (r: Option<Vec<crate::message::Message>>)
    ensures
        match r {
            Some(msgs) => sp_transcript(s@) == Some(crate::message::transcript_view(msgs@)),
            None => sp_transcript(s@) is None,
        },
{
    let v = crate::strutil::chars_of(s);
    let mut out: Vec<crate::message::Message> = Vec::new();
    let mut cur: usize = 0;
    proof {
        assert(v@.skip(0) =~= v@);
    }
    loop
        invariant
            cur <= v@.len(),
            v@ == s@,
            match sp_transcript(v@.skip(cur as int)) {
                Some(ms) => sp_transcript(v@) == Some(
                    crate::message::transcript_view(out@) + ms,
                ),
                None => sp_transcript(v@) is None,
            },
        decreases v@.len() - cur,
    {
        if cur == v.len() {
            proof {
                assert(v@.skip(cur as int).len() == 0);
                assert(sp_transcript(v@.skip(cur as int)) == Some(Seq::<MessageView>::empty()));
                assert(crate::message::transcript_view(out@) + Seq::<MessageView>::empty()
                    =~= crate::message::transcript_view(out@));
            }
            return Some(out);
        }
        proof {
            assert(v@.skip(cur as int).len() > 0);
        }
        let (m, np) = match dparse_message(&v, cur) {
            Some(t) => t,
            None => {
                return None;
            },
        };
        if np == v.len() {
            proof {
                assert(v@.skip(np as int).len() == 0);
            }
            return None;
        }
        proof {
            lemma_skip_step(v@, np as int);
        }
        if v[np] != '\n' {
            return None;
        }
        let ghost preout = out@;
        out.push(m);
        proof {
            let pvs = crate::message::transcript_view(preout);
            let avs = crate::message::transcript_view(out@);
            assert(avs =~= pvs.push(m@));
            match sp_transcript(v@.skip(np as int + 1)) {
                Some(ms) => {
                    assert(sp_transcript(v@.skip(cur as int)) == Some(seq![m@] + ms));
                    assert(pvs + (seq![m@] + ms) =~= avs + ms);
                },
                None => {
                    assert(sp_transcript(v@.skip(cur as int)) is None);
                },
            }
        }
        cur = np + 1;
    }
}

/// The persistence round trip: a transcript written by `encode_transcript`
/// and read back by `decode_transcript` is the same ordered sequence of
/// messages, content block for content block.
pub proof fn lemma_transcript_round_trip(ms: Seq<MessageView>)
    ensures
        sp_transcript(enc_transcript(ms)) == Some(ms),
{
    lemma_sp_transcript_round(ms);
}

} // verus!
