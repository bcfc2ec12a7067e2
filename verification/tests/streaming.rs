use greego::sse::{anthropic_delta_text, openai_delta_content, SseBuffer, StreamDecoder, StreamFormat};

#[test]
fn frames_complete_data_lines() {
    let mut b = SseBuffer::new(false);
    let first = b.feed("data: one\n\n: comment\nda");
    assert_eq!(first, vec!["one"]);
    let second = b.feed("ta: two\r\n   data: three  \nrest");
    assert_eq!(second, vec!["two", "three"]);
}

#[test]
fn framing_ignores_where_text_is_cut() {
    let text = "data: a\ndata: b\n\ndata: c\nevent: x\ndata: [DONE]\n";
    let whole = SseBuffer::new(false).feed(text);
    for cut in 0..text.len() {
        let mut b = SseBuffer::new(false);
        let mut parts = b.feed(&text[..cut]);
        parts.extend(b.feed(&text[cut..]));
        assert_eq!(parts, whole, "cut at {}", cut);
    }
    assert_eq!(whole, vec!["a", "b", "c", "[DONE]"]);
}

#[test]
fn done_stops_openai_framing() {
    let mut b = SseBuffer::new(true);
    assert_eq!(b.feed("data: a\ndata: [DONE]\ndata: b\n"), vec!["a"]);
    // The lines after [DONE] are framed with the next piece.
    assert_eq!(b.feed(""), vec!["b"]);
}

#[test]
fn openai_delta_extraction() {
    assert_eq!(
        openai_delta_content(r#"{"choices":[{"delta":{"content":"Hi"}}]}"#),
        Some("Hi".to_string())
    );
    assert_eq!(openai_delta_content(r#"{"choices":[{"delta":{}}]}"#), None);
    assert_eq!(openai_delta_content(r#"{"choices":[]}"#), None);
    assert_eq!(openai_delta_content(r#"{"choices":[{"delta":{"content":5}}]}"#), None);
    assert_eq!(openai_delta_content("not json"), None);
}

#[test]
fn anthropic_delta_extraction() {
    assert_eq!(
        anthropic_delta_text(r#"{"type":"content_block_delta","delta":{"text":"Yo"}}"#),
        Some("Yo".to_string())
    );
    assert_eq!(anthropic_delta_text(r#"{"type":"message_stop"}"#), None);
    assert_eq!(anthropic_delta_text(r#"{"delta":{"text":"Yo"}}"#), None);
}

#[test]
fn decoder_turns_lines_into_chunks() {
    let mut d = StreamDecoder::new(StreamFormat::OpenAi);
    let a = d.feed("data: {\"choices\":[{\"delta\":{\"content\":\"Hel\"}}]}\ndata: {\"choi");
    assert_eq!(a.iter().map(|c| c.content.as_str()).collect::<Vec<_>>(), vec!["Hel"]);
    let b = d.feed("ces\":[{\"delta\":{\"content\":\"lo\"}}]}\ndata: [DONE]\n");
    assert_eq!(b.iter().map(|c| c.content.as_str()).collect::<Vec<_>>(), vec!["lo"]);
    assert!(b.iter().all(|c| c.usage.is_none()));

    let mut d = StreamDecoder::new(StreamFormat::Anthropic);
    let c = d.feed_bytes(
        b"event: content_block_delta\ndata: {\"type\":\"content_block_delta\",\"delta\":{\"text\":\"caf\xc3\xa9\"}}\n",
    );
    assert_eq!(c.len(), 1);
    assert_eq!(c[0].content, "caf\u{e9}");
}

#[test]
fn decoder_decodes_invalid_bytes_lossily() {
    let mut d = StreamDecoder::new(StreamFormat::Anthropic);
    let c = d.feed_bytes(
        b"data: {\"type\":\"content_block_delta\",\"delta\":{\"text\":\"a\"}}\xff\n",
    );
    // The replacement character makes the payload invalid JSON.
    assert!(c.is_empty());
}

#[test]
fn decoder_bytes_match_text_for_valid_utf8() {
    let text = "data: {\"choices\":[{\"delta\":{\"content\":\"héllo\"}}]}\n";
    let mut by_text = StreamDecoder::new(StreamFormat::OpenAi);
    let mut by_bytes = StreamDecoder::new(StreamFormat::OpenAi);
    let a = by_text.feed(text);
    let b = by_bytes.feed_bytes(text.as_bytes());
    assert_eq!(a.len(), 1);
    assert_eq!(b.len(), 1);
    assert_eq!(a[0].content, "héllo");
    assert_eq!(b[0].content, "héllo");
    assert!(b.iter().all(|c| c.usage.is_none()));
}
