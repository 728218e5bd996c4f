use ocode::ai::{
    copy_messages, event_chunks, line_chunks, role_str, split_byte_lines, Message, Role, SseBuffer,
    SseLine, StreamChunk,
};

fn token(c: &StreamChunk) -> Option<&str> {
    match c {
        StreamChunk::Token(t) => Some(t.as_str()),
        _ => None,
    }
}

#[test]
fn message_constructors() {
    let u = Message::user("hi".to_string());
    assert_eq!(u.role, Role::User);
    assert_eq!(u.content, "hi");
    assert_eq!(Message::assistant("a".to_string()).role, Role::Assistant);
    assert_eq!(Message::system("s".to_string()).role, Role::System);
    let d = u.duplicate();
    assert_eq!(d.role, Role::User);
    assert_eq!(d.content, "hi");
}

#[test]
fn role_wire_names() {
    assert_eq!(role_str(&Role::User), "user");
    assert_eq!(role_str(&Role::Assistant), "assistant");
    assert_eq!(role_str(&Role::System), "system");
}

#[test]
fn copy_messages_keeps_order() {
    let ms = vec![Message::system("s".to_string()), Message::user("u".to_string())];
    let c = copy_messages(&ms);
    assert_eq!(c.len(), 2);
    assert_eq!(c[0].role, Role::System);
    assert_eq!(c[1].content, "u");
}

#[test]
fn sse_buffer_waits_for_newline() {
    let mut b = SseBuffer::new();
    b.feed("data: {\"a\"");
    assert!(b.next_line().is_none());
    assert_eq!(b.pending, "data: {\"a\"");
    b.feed(":1}\n");
    match b.next_line() {
        Some(SseLine::Data(d)) => assert_eq!(d, "{\"a\":1}"),
        other => panic!("{:?}", other),
    }
    assert_eq!(b.pending, "");
}

#[test]
fn sse_buffer_classifies_lines() {
    let mut b = SseBuffer::new();
    b.feed("\n: keep-alive\nevent: ping\n  data: [DONE]  \r\ndata: x\n");
    assert!(matches!(b.next_line(), Some(SseLine::Skip)));
    assert!(matches!(b.next_line(), Some(SseLine::Skip)));
    assert!(matches!(b.next_line(), Some(SseLine::Skip)));
    assert!(matches!(b.next_line(), Some(SseLine::Done)));
    match b.next_line() {
        Some(SseLine::Data(d)) => assert_eq!(d, "x"),
        other => panic!("{:?}", other),
    }
    assert!(b.next_line().is_none());
}

#[test]
fn sse_data_that_only_starts_with_done_is_data() {
    let mut b = SseBuffer::new();
    b.feed("data: [DONE]x\n");
    match b.next_line() {
        Some(SseLine::Data(d)) => assert_eq!(d, "[DONE]x"),
        other => panic!("{:?}", other),
    }
}

#[test]
fn event_chunks_tokens_and_finish() {
    let choices = vec![
        (Some("Hel".to_string()), false),
        (Some(String::new()), false),
        (None, false),
        (Some("lo".to_string()), true),
        (Some("ignored".to_string()), false),
    ];
    let (chunks, done) = event_chunks(&choices);
    assert!(done);
    assert_eq!(chunks.len(), 3);
    assert_eq!(token(&chunks[0]), Some("Hel"));
    assert_eq!(token(&chunks[1]), Some("lo"));
    assert!(matches!(chunks[2], StreamChunk::Done));
}

#[test]
fn event_chunks_without_finish() {
    let (chunks, done) = event_chunks(&vec![(Some("a".to_string()), false)]);
    assert!(!done);
    assert_eq!(chunks.len(), 1);
    let (none, done2) = event_chunks(&Vec::new());
    assert!(none.is_empty() && !done2);
}

#[test]
fn split_byte_lines_skips_empty_segments() {
    let lines = split_byte_lines(b"{\"a\":1}\n\n{\"b\":2}\npartial");
    assert_eq!(lines, vec![b"{\"a\":1}".to_vec(), b"{\"b\":2}".to_vec(), b"partial".to_vec()]);
    assert!(split_byte_lines(b"\n\n").is_empty());
    assert!(split_byte_lines(b"").is_empty());
}

#[test]
fn line_chunks_content_and_done() {
    let c = line_chunks(Some("tok".to_string()), false);
    assert_eq!(c.len(), 1);
    assert_eq!(token(&c[0]), Some("tok"));
    let d = line_chunks(Some(String::new()), true);
    assert_eq!(d.len(), 1);
    assert!(matches!(d[0], StreamChunk::Done));
    let e = line_chunks(Some("x".to_string()), true);
    assert_eq!(e.len(), 2);
    assert!(line_chunks(None, false).is_empty());
}
