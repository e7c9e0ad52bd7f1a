use goose::codec::{decode_transcript, encode_transcript};
use goose::message::{ContentBlock, Message, Role};

fn text(s: &str) -> ContentBlock {
    ContentBlock::Text { text: s.to_string() }
}

#[test]
fn round_trip_single_text_message() {
    let m = Message::user(7).with_text("hi".to_string());
    let transcript = vec![m];
    let encoded = encode_transcript(&transcript);
    assert_eq!(
        encoded,
        "{\"role\":\"user\",\"created\":7,\"content\":[{\"type\":\"text\",\"text\":\"hi\"}]}\n"
    );
    let decoded = decode_transcript(&encoded).expect("canonical encoding must decode");
    assert_eq!(decoded, transcript);
}

#[test]
fn round_trip_every_block_kind() {
    let m1 = Message::user(0).with_text("ask".to_string());
    let m2 = Message {
        role: Role::Assistant,
        created: 123456789,
        content: vec![
            text("thinking done"),
            ContentBlock::Thinking { thinking: "let me see".to_string() },
            ContentBlock::RedactedThinking { data: "opaque".to_string() },
            ContentBlock::ToolRequest {
                id: "call-1".to_string(),
                name: "read_file".to_string(),
                arguments: "{\"path\":\"a\"}".to_string(),
            },
            ContentBlock::ToolConfirmationRequest {
                id: "call-2".to_string(),
                name: "delete_file".to_string(),
                arguments: "{}".to_string(),
            },
            ContentBlock::FrontendToolRequest {
                id: "call-3".to_string(),
                name: "render".to_string(),
                arguments: "[]".to_string(),
            },
            ContentBlock::ContextLengthExceeded,
            ContentBlock::SummarizationRequested,
        ],
    };
    let m3 = Message {
        role: Role::User,
        created: u64::MAX,
        content: vec![ContentBlock::ToolResponse {
            id: "call-1".to_string(),
            success: true,
            output: "file contents".to_string(),
        }],
    };
    let transcript = vec![m1, m2, m3];
    let encoded = encode_transcript(&transcript);
    let decoded = decode_transcript(&encoded).expect("canonical encoding must decode");
    assert_eq!(decoded, transcript);
}

#[test]
fn round_trip_escaped_characters() {
    let tricky = "a \"quoted\" piece\\with\nnewline\ttab\rreturn";
    let m = Message::assistant(1).with_text(tricky.to_string());
    let transcript = vec![m];
    let encoded = encode_transcript(&transcript);
    // The line framing survives: the newline inside the text is escaped.
    assert_eq!(encoded.matches('\n').count(), 1);
    let decoded = decode_transcript(&encoded).expect("escapes must decode");
    assert_eq!(decoded, transcript);
    match &decoded[0].content[0] {
        ContentBlock::Text { text } => assert_eq!(text, tricky),
        other => panic!("expected a text block, got {:?}", other),
    }
}

#[test]
fn round_trip_empty_transcript_and_empty_content() {
    let empty: Vec<Message> = Vec::new();
    let encoded = encode_transcript(&empty);
    assert_eq!(encoded, "");
    assert_eq!(decode_transcript(&encoded), Some(Vec::new()));

    let bare = Message::user(0);
    let transcript = vec![bare];
    let encoded = encode_transcript(&transcript);
    assert_eq!(encoded, "{\"role\":\"user\",\"created\":0,\"content\":[]}\n");
    assert_eq!(decode_transcript(&encoded), Some(transcript));
}

#[test]
fn decode_rejects_damaged_input() {
    assert_eq!(decode_transcript("not a transcript"), None);
    assert_eq!(decode_transcript("{\"role\":\"user\",\"created\":0,\"content\":[]}"), None); // missing newline
    assert_eq!(
        decode_transcript("{\"role\":\"robot\",\"created\":0,\"content\":[]}\n"),
        None
    );
    assert_eq!(
        decode_transcript("{\"role\":\"user\",\"created\":x,\"content\":[]}\n"),
        None
    );
    assert_eq!(
        decode_transcript("{\"role\":\"user\",\"created\":1,\"content\":[,]}\n"),
        None
    );
}

#[test]
fn decimal_helpers_are_exact() {
    let digits = goose::dec::format_u64(90210);
    let s: String = digits.iter().collect();
    assert_eq!(s, "90210");
    assert_eq!(goose::dec::parse_u64(&digits), Some(90210));

    let zero = goose::dec::format_u64(0);
    assert_eq!(zero, vec!['0']);

    let max = goose::dec::format_u64(u64::MAX);
    let max_s: String = max.iter().collect();
    assert_eq!(max_s, "18446744073709551615");
    assert_eq!(goose::dec::parse_u64(&max), Some(u64::MAX));

    let too_big: Vec<char> = "18446744073709551616".chars().collect();
    assert_eq!(goose::dec::parse_u64(&too_big), None);
    let not_digits: Vec<char> = "12a".chars().collect();
    assert_eq!(goose::dec::parse_u64(&not_digits), None);
    let empty: Vec<char> = Vec::new();
    assert_eq!(goose::dec::parse_u64(&empty), None);
}
