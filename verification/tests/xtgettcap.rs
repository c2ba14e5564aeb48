use termul::xtgettcap::{append_hex, response_for, XtgettcapTracker};

#[test]
fn handles_split_and_multiple_queries() {
    let mut tracker = XtgettcapTracker::default();
    tracker.observe(b"\x1bP+q5463;52");
    assert!(tracker.drain().is_empty());
    tracker.observe(b"4742\x1b\\");
    let responses = tracker.drain();
    assert_eq!(responses.len(), 2);
    assert!(responses[0].bytes.starts_with(b"\x1bP1+r5463"));
    assert!(responses[1].bytes.starts_with(b"\x1bP1+r524742=38"));
}

#[test]
fn ignores_unknown_and_malformed_capabilities() {
    let mut tracker = XtgettcapTracker::default();
    tracker.observe(b"\x1bP+q123;zz\x1b\\");
    assert!(tracker.drain().is_empty());
}

#[test]
fn answers_are_exact() {
    assert_eq!(response_for(b"5463"), Some(b"\x1bP1+r5463\x1b\\".to_vec()));
    assert_eq!(response_for(b"4d73"), {
        let mut out = b"\x1bP1+r4D73=".to_vec();
        append_hex(b"\\E]52;%p1%s;%p2%s\\007", &mut out);
        out.extend_from_slice(b"\x1b\\");
        Some(out)
    });
    assert_eq!(
        response_for(b"524742"),
        Some(b"\x1bP1+r524742=38\x1b\\".to_vec())
    );
    assert_eq!(response_for(b""), None);
    assert_eq!(response_for(b"546"), None);
    assert_eq!(response_for(b"5464"), None);
}

#[test]
fn offsets_lie_behind_the_queries() {
    let mut tracker = XtgettcapTracker::default();
    tracker.observe(b"ab\x1bP+q5375\x1b\\cd\x90+q5463;524742\x9cef");
    let responses = tracker.drain();
    let offsets: Vec<usize> = responses.iter().map(|r| r.end_offset).collect();
    assert_eq!(offsets, vec![12, 29, 29]);
    assert!(tracker.drain().is_empty());
}

#[test]
fn long_and_foreign_control_strings_are_skipped() {
    let mut tracker = XtgettcapTracker::default();
    let mut bytes = b"\x1bP+q".to_vec();
    bytes.extend(std::iter::repeat(b'5').take(1025));
    bytes.extend_from_slice(b"\x1b\\\x1bP+q5463\x1b\\");
    tracker.observe(&bytes);
    let responses = tracker.drain();
    assert_eq!(responses.len(), 1);
    tracker.observe(b"\x1bPq5463\x1b\\\x1bP+p5463\x9c\x1bP+q5463\x1bx5463\x1b\\");
    assert!(tracker.drain().is_empty());
}

#[test]
fn every_split_of_a_query_gives_the_same_answers() {
    let stream = b"x\x1bP+q5463;zz;536d756c78\x1b\\y\x1bP+q5375\x9c";
    let mut tracker = XtgettcapTracker::default();
    tracker.observe(stream);
    let whole: Vec<Vec<u8>> = tracker.drain().into_iter().map(|r| r.bytes).collect();
    assert_eq!(whole.len(), 3);
    for cut in 0..=stream.len() {
        let mut tracker = XtgettcapTracker::default();
        tracker.observe(&stream[..cut]);
        let mut parts = tracker.drain();
        tracker.observe(&stream[cut..]);
        parts.extend(tracker.drain());
        let parts: Vec<Vec<u8>> = parts.into_iter().map(|r| r.bytes).collect();
        assert_eq!(parts, whole, "cut at {cut}");
    }
}
