use f103_stream::cell::SharedCell;
use f103_stream::serial::{echo, finish, on_tx, TxTransfer};

#[test]
fn echo_then_transmit_complete() {
    let mut send = SharedCell::new(TxTransfer::Idle(vec![0u8; 4]));
    echo(&mut send, &[1, 2, 3, 4]);
    echo(&mut send, &[5, 6, 7, 8]);
    let sent = on_tx(&mut send);
    assert_eq!(sent, vec![5, 6, 7, 8]);
    match send.take() {
        Some(TxTransfer::Idle(b)) => assert_eq!(b, vec![5, 6, 7, 8]),
        _ => panic!("expected idle channel"),
    }
}

#[test]
fn finish_returns_buffer() {
    assert_eq!(finish(TxTransfer::Running(vec![9, 9])), vec![9, 9]);
    assert_eq!(finish(TxTransfer::Idle(vec![1])), vec![1]);
}
