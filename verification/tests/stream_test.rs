use aitxt_compressor::model::stream::{sse_payload, LineBuffer};

#[test]
fn lines_are_cut_at_newlines() {
    let mut b = LineBuffer::new();
    b.push("{\"a\":1}\r\n{\"b\"");
    assert_eq!(b.next_line().as_deref(), Some("{\"a\":1}"));
    assert!(b.next_line().is_none());
    b.push(":2}\n\n");
    assert_eq!(b.next_line().as_deref(), Some("{\"b\":2}"));
    assert_eq!(b.next_line().as_deref(), Some(""));
    assert!(b.next_line().is_none());
}

#[test]
fn sse_payloads() {
    assert_eq!(sse_payload("data: {\"x\":1}").as_deref(), Some("{\"x\":1}"));
    assert_eq!(sse_payload("data:{\"x\":1}  ").as_deref(), Some("{\"x\":1}"));
    assert!(sse_payload("data: [DONE]").is_none());
    assert!(sse_payload("data:   ").is_none());
    assert!(sse_payload(": keep-alive").is_none());
    assert!(sse_payload("event: x").is_none());
}

fn lines_of(chunks: &[&str]) -> (Vec<String>, Vec<String>) {
    let mut b = LineBuffer::new();
    let mut all = Vec::new();
    for c in chunks {
        b.push(c);
        all.extend(b.drain());
    }
    b.push("\n");
    let tail = b.drain();
    (all, tail)
}

#[test]
fn framing_does_not_depend_on_chunking() {
    let body = "{\"a\":1}\r\n\n{\"b\":\"x\"}\n{\"c\"";
    let whole = lines_of(&[body]);
    assert_eq!(whole.0, vec!["{\"a\":1}", "", "{\"b\":\"x\"}"]);
    assert_eq!(whole.1, vec!["{\"c\""]);
    let chars: Vec<char> = body.chars().collect();
    for cut in 0..=chars.len() {
        let a: String = chars[..cut].iter().collect();
        let b: String = chars[cut..].iter().collect();
        assert_eq!(lines_of(&[&a, &b]), whole, "cut at {}", cut);
    }
}
