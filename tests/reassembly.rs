use f103_stream::reassembly::{Reassembler, Report, MESSAGE_CAPACITY};

fn raw(r: Option<Report>) -> Vec<u8> {
    match r {
        Some(Report::Raw(v)) => v,
        Some(Report::Text(s)) => s.into_bytes(),
        None => panic!("no report"),
    }
}

#[test]
fn two_full_and_one_short_fragment_make_one_message() {
    let mut r = Reassembler::new(8);
    let a = [1u8; 8];
    let b = [2u8; 8];
    let c = [3u8; 3];
    assert!(r.push_fragment(&a).is_none());
    assert!(r.push_fragment(&b).is_none());
    let done = raw(r.push_fragment(&c));
    assert_eq!(done.len(), 19);
    let mut expected = Vec::new();
    expected.extend_from_slice(&a);
    expected.extend_from_slice(&b);
    expected.extend_from_slice(&c);
    assert_eq!(done, expected);
}

#[test]
fn full_fragments_without_terminator_stay_pending() {
    let mut r = Reassembler::new(8);
    let mut completed = 0;
    if r.push_fragment(&[b'a'; 8]).is_some() {
        completed += 1;
    }
    if r.push_fragment(&[b'b'; 8]).is_some() {
        completed += 1;
    }
    assert_eq!(completed, 0);
    // a later short fragment ends the message with all 16 bytes
    assert_eq!(raw(r.push_fragment(&[])).len(), 16);
}

#[test]
fn valid_utf8_is_reported_as_text() {
    let mut r = Reassembler::new(8);
    match r.push_fragment(b"hi\n") {
        Some(Report::Text(s)) => assert_eq!(s, "hi\n"),
        _ => panic!("expected text"),
    }
}

#[test]
fn invalid_utf8_is_reported_as_raw_bytes() {
    let mut r = Reassembler::new(8);
    match r.push_fragment(&[0xFF, 0xFE]) {
        Some(Report::Raw(v)) => assert_eq!(v, vec![0xFF, 0xFE]),
        _ => panic!("expected raw bytes"),
    }
}

#[test]
fn message_is_cleared_after_completion() {
    let mut r = Reassembler::new(4);
    assert!(r.push_fragment(b"abcd").is_none());
    match r.push_fragment(b"e") {
        Some(Report::Text(s)) => assert_eq!(s, "abcde"),
        _ => panic!("expected text"),
    }
    match r.push_fragment(b"xy") {
        Some(Report::Text(s)) => assert_eq!(s, "xy"),
        _ => panic!("expected text"),
    }
}

#[test]
fn fragment_that_overflows_is_dropped_and_counted() {
    let mut r = Reassembler::new(8);
    let full = [b'z'; 8];
    for _ in 0..(MESSAGE_CAPACITY / 8) {
        assert!(r.push_fragment(&full).is_none());
    }
    assert_eq!(r.dropped(), 0);
    assert!(r.push_fragment(&full).is_none());
    assert_eq!(r.dropped(), 1);
    assert_eq!(raw(r.push_fragment(b"q")).len(), MESSAGE_CAPACITY);
    assert_eq!(r.dropped(), 2);
    assert_eq!(r.half_size(), 8);
}
