//! The blocking ask variant of a reply invocation: the whole session is run,
//! and the assistant's text blocks are gathered into one plain response
//! string, trimmed of surrounding whitespace.

use vstd::prelude::*;
use crate::message::{BlockView, Message, MessageView, Role};
use crate::strutil::{chars_of, string_from_chars};

verus! {

/// The whitespace this crate trims from a response.
pub open spec fn is_ws(c: char) -> bool {
    c == ' ' || c == '\n' || c == '\t' || c == '\r'
}

/// The text gathered from one run of content blocks: each text block's
/// characters followed by one newline.
pub open spec fn blocks_text(bs: Seq<BlockView>) -> Seq<char>
    decreases bs.len(),
{
    if bs.len() == 0 {
        Seq::<char>::empty()
    } else {
        (match bs[0] {
            BlockView::Text { text } => text + seq!['\n'],
            _ => Seq::<char>::empty(),
        }) + blocks_text(bs.drop_first())
    }
}

/// The text one message contributes: assistant messages contribute their
/// text blocks, other messages nothing.
pub open spec fn message_text(m: MessageView) -> Seq<char> {
    if m.role is Assistant {
        blocks_text(m.content)
    } else {
        Seq::<char>::empty()
    }
}

/// The text gathered from a run of messages, in order.
pub open spec fn collected_text(ms: Seq<MessageView>) -> Seq<char>
    decreases ms.len(),
{
    if ms.len() == 0 {
        Seq::<char>::empty()
    } else {
        message_text(ms[0]) + collected_text(ms.drop_first())
    }
}

/// `s` without leading whitespace.
pub open spec fn trim_start(s: Seq<char>) -> Seq<char>
    decreases s.len(),
{
    if s.len() > 0 && is_ws(s[0]) {
        trim_start(s.drop_first())
    } else {
        s
    }
}

/// `s` without trailing whitespace.
pub open spec fn trim_end(s: Seq<char>) -> Seq<char>
    decreases s.len(),
{
    if s.len() > 0 && is_ws(s.last()) {
        trim_end(s.drop_last())
    } else {
        s
    }
}

/// `s` without surrounding whitespace.
pub open spec fn spec_trim(s: Seq<char>) -> Seq<char> {
    trim_end(trim_start(s))
}

proof fn lemma_trim_start_skip(s: Seq<char>, a: int)
    requires
        0 <= a <= s.len(),
        forall|i: int| 0 <= i < a ==> is_ws(s[i]),
    ensures
        trim_start(s) == trim_start(s.skip(a)),
    decreases a,
{
    if a > 0 {
        assert(is_ws(s[0]));
        assert(s.drop_first() =~= s.skip(1));
        lemma_trim_start_skip(s.skip(1), a - 1);
        assert(s.skip(1).skip(a - 1) =~= s.skip(a));
    } else {
        assert(s.skip(0) =~= s);
    }
}

proof fn lemma_trim_end_take(s: Seq<char>, b: int)
    requires
        0 <= b <= s.len(),
        forall|i: int| b <= i < s.len() ==> is_ws(s[i]),
    ensures
        trim_end(s) == trim_end(s.take(b)),
    decreases s.len() - b,
{
    if b < s.len() {
        assert(is_ws(s.last()));
        assert(s.drop_last() =~= s.take(s.len() - 1));
        lemma_trim_end_take(s.take(s.len() - 1), b);
        assert(s.take(s.len() - 1).take(b) =~= s.take(b));
    } else {
        assert(s.take(b) =~= s);
    }
}

/// Trim the crate's whitespace from both ends of a string.
pub fn trim_text(s: &str) -> (r: String)
    ensures
        r@ == spec_trim(s@),
{
    let v = chars_of(s);
    let mut a: usize = 0;
    while a < v.len() && (v[a] == ' ' || v[a] == '\n' || v[a] == '\t' || v[a] == '\r')
        invariant
            a <= v@.len(),
            v@ == s@,
            forall|i: int| 0 <= i < a ==> is_ws(v@[i]),
        decreases v@.len() - a,
    {
        a += 1;
    }
    proof {
        lemma_trim_start_skip(v@, a as int);
        if a < v@.len() {
            assert(!is_ws(v@.skip(a as int)[0]));
        }
        assert(trim_start(v@.skip(a as int)) == v@.skip(a as int));
    }
    let mut b: usize = v.len();
    while b > a && (v[b - 1] == ' ' || v[b - 1] == '\n' || v[b - 1] == '\t' || v[b - 1] == '\r')
        invariant
            a <= b <= v@.len(),
            v@ == s@,
            forall|i: int| 0 <= i < a ==> is_ws(v@[i]),
            forall|i: int| b <= i < v@.len() ==> is_ws(v@[i]),
        decreases b,
    {
        b -= 1;
    }
    let mut out: Vec<char> = Vec::new();
    let mut i: usize = a;
    while i < b
        invariant
            a <= i <= b <= v@.len(),
            out@ =~= v@.subrange(a as int, i as int),
        decreases b - i,
    {
        out.push(v[i]);
        proof {
            assert(v@.subrange(a as int, i as int + 1) =~= v@.subrange(a as int, i as int).push(
                v@[i as int],
            ));
        }
        i += 1;
    }
    proof {
        let tail = v@.skip(a as int);
        lemma_trim_end_take(tail, b - a);
        if b > a {
            assert(!is_ws(tail.take(b - a).last()));
        }
        assert(trim_end(tail.take(b - a)) == tail.take(b - a));
        assert(tail.take(b - a) =~= v@.subrange(a as int, b as int));
        assert(out@ =~= v@.subrange(a as int, b as int));
    }
    string_from_chars(&out)
}

proof fn lemma_blocks_text_snoc(bs: Seq<BlockView>, b: BlockView)
    ensures
        blocks_text(bs.push(b)) == blocks_text(bs) + (match b {
            BlockView::Text { text } => text + seq!['\n'],
            _ => Seq::<char>::empty(),
        }),
    decreases bs.len(),
{
    let whole = bs.push(b);
    let extra = match b {
        BlockView::Text { text } => text + seq!['\n'],
        _ => Seq::<char>::empty(),
    };
    if bs.len() == 0 {
        assert(whole[0] == b);
        assert(whole.drop_first() =~= Seq::<BlockView>::empty());
        assert(blocks_text(whole) == extra + blocks_text(Seq::<BlockView>::empty()));
        assert(blocks_text(whole) =~= blocks_text(bs) + extra);
    } else {
        assert(whole[0] == bs[0]);
        assert(whole.drop_first() =~= bs.drop_first().push(b));
        lemma_blocks_text_snoc(bs.drop_first(), b);
        let head = match bs[0] {
            BlockView::Text { text } => text + seq!['\n'],
            _ => Seq::<char>::empty(),
        };
        assert(head + (blocks_text(bs.drop_first()) + extra) =~= (head + blocks_text(
            bs.drop_first(),
        )) + extra);
        assert(blocks_text(whole) =~= blocks_text(bs) + extra);
    }
}

proof fn lemma_collected_text_snoc(ms: Seq<MessageView>, m: MessageView)
    ensures
        collected_text(ms.push(m)) == collected_text(ms) + message_text(m),
    decreases ms.len(),
{
    let whole = ms.push(m);
    if ms.len() == 0 {
        assert(whole[0] == m);
        assert(whole.drop_first() =~= Seq::<MessageView>::empty());
        assert(collected_text(whole) == message_text(m) + collected_text(
            Seq::<MessageView>::empty(),
        ));
        assert(collected_text(whole) =~= collected_text(ms) + message_text(m));
    } else {
        assert(whole[0] == ms[0]);
        assert(whole.drop_first() =~= ms.drop_first().push(m));
        lemma_collected_text_snoc(ms.drop_first(), m);
        assert(message_text(ms[0]) + (collected_text(ms.drop_first()) + message_text(m)) =~= (
        message_text(ms[0]) + collected_text(ms.drop_first())) + message_text(m));
        assert(collected_text(whole) =~= collected_text(ms) + message_text(m));
    }
}

/// Gather one message's contribution into `out`.
#[verifier::rlimit(100)]
#[verifier::spinoff_prover]
fn collect_message_text(out: &mut Vec<char>, m: &Message)
    ensures
        final(out)@ == old(out)@ + message_text(m@),
{
    if m.role == Role::User {
        proof {
            assert(message_text(m@) =~= Seq::<char>::empty());
            assert(old(out)@ + Seq::<char>::empty() =~= old(out)@);
        }
        return;
    }
    let ghost cv = m@.content;
    let mut i: usize = 0;
    while i < m.content.len()
        invariant
            i <= m.content@.len(),
            cv == m@.content,
            cv.len() == m.content@.len(),
            out@ == old(out)@ + blocks_text(cv.take(i as int)),
        decreases m.content@.len() - i,
    {
        let ghost pre = out@;
        match &m.content[i] {
            crate::message::ContentBlock::Text { text } => {
                let cs = chars_of(text.as_str());
                out.extend_from_slice(cs.as_slice());
                out.push('\n');
                proof {
                    assert(out@ =~= pre + (text@ + seq!['\n']));
                }
            },
            _ => {},
        }
        proof {
            assert(cv.take(i as int + 1) =~= cv.take(i as int).push(cv[i as int]));
            lemma_blocks_text_snoc(cv.take(i as int), cv[i as int]);
            assert(cv[i as int] == m.content@[i as int]@);
            assert(out@ =~= old(out)@ + blocks_text(cv.take(i as int + 1)));
        }
        i += 1;
    }
    proof {
        assert(cv.take(cv.len() as int) =~= cv);
        assert(message_text(m@) == blocks_text(cv));
    }
}

/// The ask response: every text block of the assistant messages from `from`
/// on, each on its own line, the whole trimmed of surrounding whitespace.
pub fn collect_response_text(messages: &Vec<Message>, from: usize) -> (r: String)
    requires
        from <= messages@.len(),
    ensures
        r@ == spec_trim(
            collected_text(
                crate::message::transcript_view(messages@).skip(from as int),
            ),
        ),
{
    let ghost tv = crate::message::transcript_view(messages@);
    let mut out: Vec<char> = Vec::new();
    let mut i: usize = from;
    proof {
        assert(tv.skip(from as int).take(0) =~= Seq::<MessageView>::empty());
    }
    while i < messages.len()
        invariant
            from <= i <= messages@.len(),
            tv == crate::message::transcript_view(messages@),
            tv.len() == messages@.len(),
            out@ == collected_text(tv.skip(from as int).take(i - from)),
        decreases messages@.len() - i,
    {
        let ghost sofar = tv.skip(from as int).take(i - from);
        collect_message_text(&mut out, &messages[i]);
        proof {
            assert(tv.skip(from as int).take(i + 1 - from) =~= sofar.push(tv[i as int]));
            lemma_collected_text_snoc(sofar, tv[i as int]);
            assert(tv[i as int] == messages@[i as int]@);
        }
        i += 1;
    }
    proof {
        assert(tv.skip(from as int).take(tv.len() - from) =~= tv.skip(from as int));
    }
    let joined = string_from_chars(&out);
    trim_text(joined.as_str())
}

} // verus!
