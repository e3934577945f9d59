use f103_stream::dma::{idle_range, Half, Receiver};
use f103_stream::reassembly::{Reassembler, Report};

#[test]
fn idle_range_in_each_half() {
    // engine filling the second half, 5 bytes left of 16: 3 bytes written
    assert_eq!(idle_range(Half::First, 5, 8), (8, 11));
    // engine filling the first half, 14 bytes left of 16: 2 bytes written
    assert_eq!(idle_range(Half::Second, 14, 8), (0, 2));
    // nothing written since the boundary
    assert_eq!(idle_range(Half::Second, 16, 8), (0, 0));
    assert_eq!(idle_range(Half::First, 8, 8), (8, 8));
}

#[test]
fn halves_and_idle_deliver_every_byte_once() {
    let mut rx = Receiver::new(4);
    let wire: Vec<u8> = (1u8..=11).collect();
    let mut out: Vec<u8> = Vec::new();
    for (k, b) in wire.iter().enumerate() {
        assert!(!rx.overrun_next());
        rx.receive(*b);
        if k == 5 {
            if let Some(h) = rx.on_half_complete() {
                out.extend_from_slice(&h);
            }
        }
    }
    // the second half is complete but unread when the line goes idle
    assert!(rx.full_half_pending());
    let (full, partial) = rx.on_idle();
    assert_eq!(full, Some(vec![5, 6, 7, 8]));
    assert_eq!(partial, vec![9, 10, 11]);
    out.extend_from_slice(&full.unwrap());
    out.extend_from_slice(&partial);
    assert_eq!(out, wire);
    assert!(rx.on_half_complete().is_none());
}

#[test]
fn idle_after_restart_reads_from_buffer_start() {
    let mut rx = Receiver::new(4);
    for b in [1u8, 2, 3, 4, 5, 6] {
        rx.receive(b);
    }
    assert_eq!(rx.on_half_complete(), Some(vec![1, 2, 3, 4]));
    let (full, partial) = rx.on_idle();
    assert_eq!(full, None);
    assert_eq!(partial, vec![5, 6]);
    rx.receive(9);
    let (full, partial) = rx.on_idle();
    assert_eq!(full, None);
    assert_eq!(partial, vec![9]);
}

#[test]
fn receiver_feeds_reassembler() {
    let mut rx = Receiver::new(8);
    let mut joiner = Reassembler::new(8);
    let text = b"hello, serial world\n";
    let mut reports = Vec::new();
    for b in text.iter() {
        rx.receive(*b);
        if let Some(h) = rx.on_half_complete() {
            assert!(joiner.push_fragment(&h).is_none());
        }
    }
    let (full, partial) = rx.on_idle();
    assert!(full.is_none());
    if let Some(r) = joiner.push_fragment(&partial) {
        reports.push(r);
    }
    assert_eq!(reports.len(), 1);
    match &reports[0] {
        Report::Text(s) => assert_eq!(s.as_bytes(), text),
        Report::Raw(_) => panic!("expected text"),
    }
}

#[test]
fn overrun_is_flagged_before_it_happens() {
    let mut rx = Receiver::new(2);
    rx.receive(1);
    rx.receive(2);
    rx.receive(3);
    assert!(rx.full_half_pending());
    assert!(rx.overrun_next());
}
