use provision::classify::{LineClassifier, LineEvent};

fn describe(events: &[LineEvent]) -> Vec<String> {
    events
        .iter()
        .map(|e| match e {
            LineEvent::Log(t) => format!("log:{t}"),
            LineEvent::Activity(t) => format!("act:{t}"),
        })
        .collect()
}

fn classify_all(chunks: &[&[u8]]) -> Vec<String> {
    let mut c = LineClassifier::new();
    let mut out = Vec::new();
    for chunk in chunks {
        out.extend(c.feed(chunk));
    }
    out.extend(c.finish());
    describe(&out)
}

#[test]
fn newline_ends_a_log_line() {
    assert_eq!(classify_all(&[b"hello\nworld\n"]), vec!["log:hello", "log:world"]);
}

#[test]
fn crlf_ends_a_log_line() {
    assert_eq!(classify_all(&[b"one\r\ntwo\r\n"]), vec!["log:one", "log:two"]);
}

#[test]
fn bare_cr_ends_an_activity_line() {
    assert_eq!(
        classify_all(&[b"10%\r20%\rdone\n"]),
        vec!["act:10%", "act:20%", "log:done"]
    );
}

#[test]
fn crlf_split_across_chunks_is_one_terminator() {
    assert_eq!(classify_all(&[b"abc\r", b"\ndef\n"]), vec!["log:abc", "log:def"]);
}

#[test]
fn escapes_are_stripped() {
    assert_eq!(
        classify_all(&[b"\x1b[32mgreen\x1b[0m text\n"]),
        vec!["log:green text"]
    );
}

#[test]
fn escape_split_across_chunks() {
    assert_eq!(classify_all(&[b"a\x1b[3", b"1mb\n"]), vec!["log:ab"]);
}

#[test]
fn escape_ends_at_tilde() {
    assert_eq!(classify_all(&[b"x\x1b[2~y\n"]), vec!["log:xy"]);
}

#[test]
fn blank_lines_are_dropped() {
    assert_eq!(classify_all(&[b"\n   \n\t\r\nok\n"]), vec!["log:ok"]);
}

#[test]
fn text_is_trimmed() {
    assert_eq!(classify_all(&[b"   padded   \n"]), vec!["log:padded"]);
}

#[test]
fn unterminated_tail_is_a_log_line() {
    assert_eq!(classify_all(&[b"first\nlast"]), vec!["log:first", "log:last"]);
}

#[test]
fn trailing_cr_at_end_of_stream_is_a_log_line() {
    assert_eq!(classify_all(&[b"spin\r"]), vec!["log:spin"]);
}

#[test]
fn empty_stream_has_no_lines() {
    assert!(classify_all(&[]).is_empty());
    assert!(classify_all(&[b""]).is_empty());
}

#[test]
fn invalid_utf8_is_replaced() {
    assert_eq!(classify_all(&[b"a\xffb\n"]), vec!["log:a\u{fffd}b"]);
}

#[test]
fn multibyte_text_survives_chunk_splits() {
    let bytes = "caf\u{e9} \u{2588}\n".as_bytes();
    let (a, b) = bytes.split_at(4);
    assert_eq!(classify_all(&[a, b]), vec!["log:caf\u{e9} \u{2588}"]);
}

#[test]
fn visible_content_is_kept_in_order() {
    // Joining the lines gives back the input without escapes and terminators.
    let input: &[u8] = b"\x1b[1mA\x1b[0mB\r\nC\rD\nE";
    let lines = classify_all(&[input]);
    let joined: String = lines
        .iter()
        .map(|l| l.split_once(':').unwrap().1.to_string())
        .collect();
    assert_eq!(joined, "ABCDE");
    assert_eq!(lines, vec!["log:AB", "act:C", "log:D", "log:E"]);
}

#[test]
fn chunking_does_not_change_the_result() {
    let input: &[u8] = b"x\r\ny\rz\x1b[Kw\n tail ";
    let whole = classify_all(&[input]);
    for cut in 0..=input.len() {
        let (a, b) = input.split_at(cut);
        assert_eq!(classify_all(&[a, b]), whole, "cut at {cut}");
    }
}
