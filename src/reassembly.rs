use vstd::prelude::*;

verus! {

/// Largest number of bytes one message may accumulate.
pub const MESSAGE_CAPACITY: usize = 256;

#[verifier::external_type_specification]
#[verifier::external_body]
#[verifier::reject_recursive_types(T)]
pub struct ExBoundedVec<T, const N: usize>(heapless::Vec<T, N>);

/// The bytes held by a bounded message buffer, in order.
pub uninterp spec fn buffered_bytes(v: heapless::Vec<u8, 256>) -> Seq<u8>;

/// The text that a byte sequence decodes to as UTF-8, or `None` where the
/// bytes are not valid UTF-8.
pub uninterp spec fn utf8_text(b: Seq<u8>) -> Option<Seq<char>>;

/// Relies on heapless::Vec::new: a new vector is empty.
#[verifier::external_body]
fn buffer_new() -> (r: heapless::Vec<u8, 256>)
    ensures
        buffered_bytes(r) == Seq::<u8>::empty(),
{
    heapless::Vec::new()
}

/// Relies on heapless::Vec::extend_from_slice: when the bytes fit in the
/// capacity they are appended, otherwise nothing changes and `Err` comes back.
#[verifier::external_body]
fn buffer_extend(v: &mut heapless::Vec<u8, 256>, data: &[u8]) -> (r: Result<(), ()>)
    ensures
        buffered_bytes(*old(v)).len() + data@.len() <= 256 ==> r is Ok && buffered_bytes(*final(v))
            == buffered_bytes(*old(v)) + data@,
        buffered_bytes(*old(v)).len() + data@.len() > 256 ==> r is Err && buffered_bytes(*final(v))
            == buffered_bytes(*old(v)),
{
    v.extend_from_slice(data)
}

/// Relies on heapless::Vec::as_slice: the slice holds the vector's bytes.
#[verifier::external_body]
fn buffer_slice(v: &heapless::Vec<u8, 256>) -> (r: &[u8])
    ensures
        r@ == buffered_bytes(*v),
{
    v.as_slice()
}

/// Relies on heapless::Vec::clear: the vector is left empty.
#[verifier::external_body]
fn buffer_clear(v: &mut heapless::Vec<u8, 256>)
    ensures
        buffered_bytes(*final(v)) == Seq::<u8>::empty(),
{
    v.clear()
}

/// Relies on core::str::from_utf8: `Ok` exactly for valid UTF-8, with the
/// decoded text.
#[verifier::external_body]
fn decode_utf8(b: &[u8]) -> (r: Option<String>)
    ensures
        r is Some <==> utf8_text(b@) is Some,
        r is Some ==> utf8_text(b@) == Some(r->0@),
{
    match core::str::from_utf8(b) {
        Ok(s) => Some(String::from(s)),
        Err(_) => None,
    }
}

/// How a completed message is reported.
pub enum Report {
    /// The message was valid UTF-8.
    Text(String),
    /// The message was not valid UTF-8; its bytes as received.
    Raw(Vec<u8>),
}

/// `r` reports the message `b`: as text where `b` decodes, as raw bytes
/// otherwise.
pub open spec fn reports(r: Report, b: Seq<u8>) -> bool {
    match r {
        Report::Text(s) => utf8_text(b) == Some(s@),
        Report::Raw(v) => utf8_text(b) is None && v@ == b,
    }
}

/// The pending message after fragment `d` arrives on pending bytes `m`: a
/// fragment that would overflow the capacity is dropped.
pub open spec fn joined(m: Seq<u8>, d: Seq<u8>) -> Seq<u8> {
    if m.len() + d.len() <= MESSAGE_CAPACITY {
        m + d
    } else {
        m
    }
}

/// A vector holding the bytes of `b`.
pub fn copy_bytes(b: &[u8]) -> (r: Vec<u8>)
    ensures
        r@ == b@,
{
    let mut out: Vec<u8> = Vec::with_capacity(b.len());
    let mut i: usize = 0;
    while i < b.len()
        invariant
            i <= b@.len(),
            out@ == b@.subrange(0, i as int),
        decreases b@.len() - i,
    {
        out.push(b[i]);
        i = i + 1;
        proof {
            assert(out@ =~= b@.subrange(0, i as int));
        }
    }
    proof {
        assert(out@ =~= b@);
    }
    out
}

/// Turns decoded (or undecodable) message bytes into a report.
pub fn report_for(bytes: &[u8], text: Option<String>) -> (r: Report)
    requires
        text is Some <==> utf8_text(bytes@) is Some,
        text is Some ==> utf8_text(bytes@) == Some(text->0@),
    ensures
        reports(r, bytes@),
{
    match text {
        Some(s) => Report::Text(s),
        None => Report::Raw(copy_bytes(bytes)),
    }
}

/// Joins received fragments into messages. A fragment as long as a buffer
/// half may be followed by more; a shorter one ends the message.
pub struct Reassembler {
    msg: heapless::Vec<u8, 256>,
    half_size: usize,
    dropped: u64,
}

impl Reassembler {
    /// The bytes of the message received so far.
    pub closed spec fn pending(&self) -> Seq<u8> {
        buffered_bytes(self.msg)
    }

    /// The nominal fragment length, that of one buffer half.
    pub closed spec fn half(&self) -> nat {
        self.half_size as nat
    }

    /// How many fragments were dropped because the message was full.
    pub closed spec fn dropped_count(&self) -> nat {
        self.dropped as nat
    }

    /// A reassembler with nothing pending, for halves of `half_size` bytes.
    pub fn new(half_size: usize) -> (r: Reassembler)
        ensures
            r.pending() == Seq::<u8>::empty(),
            r.half() == half_size,
            r.dropped_count() == 0,
    {
        Reassembler { msg: buffer_new(), half_size, dropped: 0 }
    }

    /// The nominal fragment length.
    pub fn half_size(&self) -> (r: usize)
        ensures
            r == self.half(),
    {
        self.half_size
    }

    /// The number of fragments dropped for want of room.
    pub fn dropped(&self) -> (r: u64)
        ensures
            r == self.dropped_count(),
    {
        self.dropped
    }

    /// Takes in one fragment. A fragment shorter or longer than a half ends
    /// the message: it is reported and the pending bytes are cleared.
    pub fn push_fragment(&mut self, data: &[u8]) -> (r: Option<Report>)
        ensures
            final(self).half() == old(self).half(),
            data@.len() == old(self).half() ==> r is None && final(self).pending() == joined(
                old(self).pending(),
                data@,
            ),
            data@.len() != old(self).half() ==> r is Some && reports(
                r->0,
                joined(old(self).pending(), data@),
            ) && final(self).pending() == Seq::<u8>::empty(),
            old(self).pending().len() + data@.len() <= MESSAGE_CAPACITY ==> final(self).dropped_count()
                == old(self).dropped_count(),
            old(self).pending().len() + data@.len() > MESSAGE_CAPACITY ==> final(self).dropped_count()
                == (if old(self).dropped_count() < u64::MAX {
                old(self).dropped_count() + 1
            } else {
                old(self).dropped_count()
            }),
    {
        let terminal = data.len() != self.half_size;
        let appended = buffer_extend(&mut self.msg, data);
        if appended.is_err() && self.dropped < u64::MAX {
            self.dropped = self.dropped + 1;
        }
        if terminal {
            let bytes = buffer_slice(&self.msg);
            let text = decode_utf8(bytes);
            let report = report_for(bytes, text);
            buffer_clear(&mut self.msg);
            Some(report)
        } else {
            None
        }
    }
}

} // verus!
