use vstd::prelude::*;
use crate::cell::SharedCell;

verus! {

/// State of the transmit channel: a write of the buffer is in flight, or
/// the channel is stopped and the buffer is free.
pub enum TxTransfer {
    Running(Vec<u8>),
    Idle(Vec<u8>),
}

/// The buffer held by a transmit state.
pub open spec fn tx_buffer(t: TxTransfer) -> Seq<u8> {
    match t {
        TxTransfer::Running(b) => b@,
        TxTransfer::Idle(b) => b@,
    }
}

/// Waits out a write in flight, if any, and hands the buffer back.
pub fn finish(t: TxTransfer) -> (r: Vec<u8>)
    ensures
        r@ == tx_buffer(t),
{
    match t {
        TxTransfer::Running(b) => b,
        TxTransfer::Idle(b) => b,
    }
}

/// Handler that echoes received bytes: waits out the previous write, copies
/// `data` into the transmit buffer and starts writing it.
pub fn echo(send: &mut SharedCell<TxTransfer>, data: &[u8])
    requires
        old(send).contents() is Some,
        tx_buffer(old(send).contents()->0).len() == data@.len(),
    ensures
        final(send).contents() is Some,
        final(send).contents()->0 is Running,
        tx_buffer(final(send).contents()->0) == data@,
{
    let t = send.take();
    let mut buf = match t {
        Some(x) => finish(x),
        None => Vec::new(),
    };
    let mut i: usize = 0;
    while i < data.len()
        invariant
            buf@.len() == data@.len(),
            i <= data@.len(),
            forall|j: int| 0 <= j < i ==> #[trigger] buf@[j] == data@[j],
        decreases data@.len() - i,
    {
        buf.set(i, data[i]);
        i = i + 1;
    }
    proof {
        assert(buf@ =~= data@);
    }
    let _ = send.replace(TxTransfer::Running(buf));
}

/// Handler of the transmit-complete event: the channel becomes idle with
/// its buffer; returns a copy of the bytes that were sent.
pub fn on_tx(send: &mut SharedCell<TxTransfer>) -> (r: Vec<u8>)
    requires
        old(send).contents() is Some,
    ensures
        final(send).contents() is Some,
        final(send).contents()->0 is Idle,
        tx_buffer(final(send).contents()->0) == tx_buffer(old(send).contents()->0),
        r@ == tx_buffer(old(send).contents()->0),
{
    let t = send.take();
    let buf = match t {
        Some(x) => finish(x),
        None => Vec::new(),
    };
    let sent = crate::reassembly::copy_bytes(buf.as_slice());
    let _ = send.replace(TxTransfer::Idle(buf));
    sent
}

} // verus!
