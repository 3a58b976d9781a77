use dtach_rs::output_filter::TerminalOutputFilter;

#[test]
fn output_filter_answers_cursor_query_without_forwarding_it() {
    let mut replies = Vec::new();
    let mut filter = TerminalOutputFilter::default();

    let output = filter.filter(b"pre\x1b[6npost", &mut replies);

    assert_eq!(output, b"prepost");
    assert_eq!(replies.as_slice(), b"\x1b[1;1R");
}

#[test]
fn output_filter_strips_win32_input_mode_sequences() {
    let mut replies = Vec::new();
    let mut filter = TerminalOutputFilter::default();

    let output = filter.filter(b"a\x1b[?9001hb\x1b[?9001lc", &mut replies);

    assert_eq!(output, b"abc");
    assert!(replies.is_empty());
}

#[test]
fn output_filter_handles_split_sequences() {
    let mut replies = Vec::new();
    let mut filter = TerminalOutputFilter::default();

    assert_eq!(filter.filter(b"a\x1b[?", &mut replies), b"a");
    assert_eq!(filter.filter(b"9001hb\x1b[", &mut replies), b"b");
    assert_eq!(filter.filter(b"6nc", &mut replies), b"c");
    assert_eq!(replies.as_slice(), b"\x1b[1;1R");
}

#[test]
fn output_filter_chunking_matches_whole_input() {
    let data: &[u8] = b"x\x1b[6ny\x1b[?9001hz\x1b[?9001l\x1b[1m\x1b[6n\x1b";
    let mut whole_replies = Vec::new();
    let mut whole = TerminalOutputFilter::default();
    let whole_output = whole.filter(data, &mut whole_replies);
    for split in 0..=data.len() {
        let mut replies = Vec::new();
        let mut filter = TerminalOutputFilter::default();
        let mut output = filter.filter(&data[..split], &mut replies);
        output.extend(filter.filter(&data[split..], &mut replies));
        assert_eq!(output, whole_output, "split at {split}");
        assert_eq!(replies, whole_replies, "split at {split}");
    }
    assert_eq!(whole_output, b"xyz\x1b[1m");
    assert_eq!(whole_replies, b"\x1b[1;1R\x1b[1;1R");
}

#[test]
fn output_filter_passes_plain_text() {
    let mut replies = Vec::new();
    let mut filter = TerminalOutputFilter::default();
    assert_eq!(filter.filter(b"hello, world\r\n", &mut replies), b"hello, world\r\n");
    assert!(replies.is_empty());
}

#[test]
fn output_filter_holds_back_a_lone_escape_until_refuted() {
    let mut replies = Vec::new();
    let mut filter = TerminalOutputFilter::default();
    assert_eq!(filter.filter(b"\x1b", &mut replies), b"");
    assert_eq!(filter.filter(b"[1m", &mut replies), b"\x1b[1m");
    assert!(replies.is_empty());
}
