use xdcc::framer::LineFramer;

fn feed_all(framer: &mut LineFramer, chunks: &[&[u8]]) -> Vec<Vec<u8>> {
    let mut lines = Vec::new();
    for chunk in chunks {
        lines.extend(framer.feed(chunk));
    }
    lines
}

#[test]
fn carry_over_completes_one_line() {
    let mut f = LineFramer::new();
    let first = f.feed(b"PING :ab");
    assert!(first.is_empty());
    let second = f.feed(b"c\r\n");
    assert_eq!(second, vec![b"PING :abc".to_vec()]);
}

#[test]
fn reassembly_is_chunking_independent() {
    let stream: &[u8] = b"alpha\r\nbeta\r\n:server MODE x\r\ngamma";
    let mut whole = LineFramer::new();
    let expected = whole.feed(stream);

    // one byte at a time
    let mut bytewise = LineFramer::new();
    let mut got = Vec::new();
    for b in stream {
        got.extend(bytewise.feed(&[*b]));
    }
    assert_eq!(got, expected);

    // ragged chunks
    let mut ragged = LineFramer::new();
    let got = feed_all(&mut ragged, &[b"alp", b"ha\r\nbe", b"ta\r\n:server MODE", b" x\r\ngamma"]);
    assert_eq!(got, expected);
}

#[test]
fn lines_are_trimmed_but_carry_is_not() {
    let mut f = LineFramer::new();
    let lines = f.feed(b"  hi  \r\n  tail");
    assert_eq!(lines, vec![b"hi".to_vec()]);
    // the pending fragment keeps its leading whitespace until it completes
    let lines = f.feed(b" end\r\n");
    assert_eq!(lines, vec![b"tail end".to_vec()]);
}

#[test]
fn blank_line_is_emitted_empty() {
    let mut f = LineFramer::new();
    let lines = f.feed(b"\r\n");
    assert_eq!(lines, vec![Vec::<u8>::new()]);
}

#[test]
fn no_line_without_terminator() {
    let mut f = LineFramer::new();
    assert!(f.feed(b"never finished").is_empty());
    assert!(f.feed(b" still going").is_empty());
}
