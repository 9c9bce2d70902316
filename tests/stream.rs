use sw_assistant::stream::StreamDecoder;

#[test]
fn decodes_two_fragments_then_done() {
    let mut d = StreamDecoder::new();
    let body = b"data: {\"content\":\"Hel\"}\n\ndata: {\"content\":\"lo\"}\n\ndata: [DONE]\n\n";
    let out = d.push_bytes(body);
    assert_eq!(out, vec!["Hel", "lo"]);
    assert!(d.finished());
    assert!(d.finish().is_empty());
}

#[test]
fn lines_split_across_chunks_are_joined() {
    let mut d = StreamDecoder::new();
    let mut out = d.push_bytes(b"data: {\"choices\":[{\"delta\":{\"con");
    assert!(out.is_empty());
    out.extend(d.push_bytes(b"tent\":\"Hi\"}}]}\r\ndata: {\"content\":\"!\"}"));
    assert_eq!(out, vec!["Hi"]);
    out.extend(d.finish());
    assert_eq!(out, vec!["Hi", "!"]);
}

#[test]
fn nothing_after_done() {
    let mut d = StreamDecoder::new();
    let out = d.push_bytes(b"data: [DONE]\ndata: {\"content\":\"late\"}\n");
    assert!(out.is_empty());
    assert!(d.finished());
    assert!(d.push_bytes(b"data: {\"content\":\"later\"}\n").is_empty());
}

#[test]
fn other_lines_are_ignored() {
    let mut d = StreamDecoder::new();
    let out = d.push_bytes(b": keep-alive\nevent: ping\ndata: {\"role\":\"assistant\"}\n  data: {\"content\":\"x\"}  \n");
    assert_eq!(out, vec!["x"]);
    assert!(!d.finished());
}

#[test]
fn split_characters_survive_chunking() {
    let body = "data: {\"content\":\"héllo ✓\"}\ndata: [DONE]\n".as_bytes();
    let whole = {
        let mut d = StreamDecoder::new();
        d.push_bytes(body)
    };
    assert_eq!(whole, vec!["héllo ✓"]);
    for cut in 0..body.len() {
        let mut d = StreamDecoder::new();
        let mut out = d.push_bytes(&body[..cut]);
        out.extend(d.push_bytes(&body[cut..]));
        out.extend(d.finish());
        assert_eq!(out, whole, "cut at {}", cut);
    }
}
