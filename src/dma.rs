use vstd::prelude::*;

verus! {

/// One of the two halves of a circular receive buffer.
#[derive(Clone, Copy, PartialEq, Eq, Structural, Debug)]
pub enum Half {
    First,
    Second,
}

/// The bytes `b[start..end]` as a new vector.
pub fn copy_range(b: &[u8], start: usize, end: usize) -> (r: Vec<u8>)
    requires
        start <= end <= b@.len(),
    ensures
        r@ == b@.subrange(start as int, end as int),
{
    let mut out: Vec<u8> = Vec::with_capacity(end - start);
    let mut i: usize = start;
    while i < end
        invariant
            start <= i <= end <= b@.len(),
            out@ == b@.subrange(start as int, i as int),
        decreases end - i,
    {
        out.push(b[i]);
        i = i + 1;
        proof {
            assert(out@ =~= b@.subrange(start as int, i as int));
        }
    }
    out
}

/// Where, in a buffer of two halves of `n` bytes laid end to end, lie the
/// bytes written since the last half boundary, given the half that was
/// completed last (`readable`) and the engine's count of bytes left before
/// the whole buffer wraps (`pending`). The result is `(start, end)`.
pub fn idle_range(readable: Half, pending: usize, n: usize) -> (r: (usize, usize))
    requires
        0 < n,
        2 * n <= usize::MAX,
        readable == Half::First ==> 0 < pending <= n,
        readable == Half::Second ==> n < pending <= 2 * n,
    ensures
        r.1 == 2 * n - pending,
        readable == Half::First ==> r.0 == n,
        readable == Half::Second ==> r.0 == 0,
        r.0 <= r.1,
        r.1 - r.0 < n,
{
    match readable {
        Half::First => (n, n + (n - pending)),
        Half::Second => (0, 2 * n - pending),
    }
}

/// Model of a receive engine that fills two halves of one buffer in turn
/// and wraps, with the handlers that read halves out of it.
pub struct Receiver {
    buf: Vec<u8>,
    half: usize,
    pos: usize,
    unread_full: bool,
    wire: Ghost<Seq<u8>>,
    delivered: Ghost<Seq<u8>>,
}

impl Receiver {
    /// Start of the half that the engine is filling.
    pub closed spec fn cur(&self) -> int {
        if self.pos < self.half {
            0
        } else {
            self.half as int
        }
    }

    /// Start of the half that the engine is not filling.
    pub closed spec fn other(&self) -> int {
        if self.pos < self.half {
            self.half as int
        } else {
            0
        }
    }

    /// Bytes on the wire that no handler has delivered yet, in order.
    pub closed spec fn unread(&self) -> Seq<u8> {
        (if self.unread_full {
            self.buf@.subrange(self.other(), self.other() + self.half)
        } else {
            Seq::<u8>::empty()
        }) + self.buf@.subrange(self.cur(), self.pos as int)
    }

    /// Every byte written to the wire so far, in order.
    pub closed spec fn wire(&self) -> Seq<u8> {
        self.wire@
    }

    /// Every byte handed out by the handlers so far, in order.
    pub closed spec fn delivered(&self) -> Seq<u8> {
        self.delivered@
    }

    /// Half size.
    pub closed spec fn half_len(&self) -> nat {
        self.half as nat
    }

    /// A completed half waits to be read.
    pub closed spec fn has_full_half(&self) -> bool {
        self.unread_full
    }

    /// Bytes written so far into the half being filled.
    pub closed spec fn filled(&self) -> nat {
        (self.pos - self.cur()) as nat
    }

    /// The next byte would complete a half while the other completed half
    /// is still unread, so the byte after it would overwrite unread data.
    pub open spec fn would_overrun(&self) -> bool {
        self.has_full_half() && self.filled() + 1 == self.half_len()
    }

    pub closed spec fn wf(&self) -> bool {
        &&& 0 < self.half
        &&& 2 * self.half <= usize::MAX
        &&& self.buf@.len() == 2 * self.half
        &&& self.pos < 2 * self.half
        &&& self.filled() < self.half
        &&& self.delivered@ + self.unread() == self.wire@
    }

    /// A stopped-and-started engine over a zeroed buffer of two halves of
    /// `half` bytes.
    pub fn new(half: usize) -> (r: Receiver)
        requires
            0 < half,
            2 * half <= usize::MAX,
        ensures
            r.wf(),
            r.half_len() == half,
            r.wire() == Seq::<u8>::empty(),
            r.delivered() == Seq::<u8>::empty(),
            r.unread() == Seq::<u8>::empty(),
            !r.has_full_half(),
            r.filled() == 0,
    {
        let buf: Vec<u8> = vec![0u8; 2 * half];
        let r = Receiver {
            buf,
            half,
            pos: 0,
            unread_full: false,
            wire: Ghost(Seq::empty()),
            delivered: Ghost(Seq::empty()),
        };
        proof {
            assert(r.unread() =~= Seq::<u8>::empty());
        }
        r
    }

    /// Whether a completed half waits to be read.
    pub fn full_half_pending(&self) -> (r: bool)
        ensures
            r == self.has_full_half(),
    {
        self.unread_full
    }

    /// Whether the next byte would complete a half while the other
    /// completed half is unread.
    pub fn overrun_next(&self) -> (r: bool)
        requires
            self.wf(),
        ensures
            r == self.would_overrun(),
    {
        self.unread_full && (self.pos + 1 == self.half || self.pos + 1 == 2 * self.half)
    }

    /// The engine stores one byte from the wire. When it completes a half,
    /// that half becomes readable and filling goes on in the other one.
    pub fn receive(&mut self, b: u8)
        requires
            old(self).wf(),
            !old(self).would_overrun(),
        ensures
            final(self).wf(),
            final(self).half_len() == old(self).half_len(),
            final(self).wire() == old(self).wire().push(b),
            final(self).delivered() == old(self).delivered(),
            final(self).unread() == old(self).unread().push(b),
            old(self).filled() + 1 == old(self).half_len() ==> final(self).filled() == 0
                && final(self).has_full_half(),
            old(self).filled() + 1 < old(self).half_len() ==> final(self).filled() == old(self).filled() + 1
                && final(self).has_full_half() == old(self).has_full_half(),
            final(self).filled() < final(self).half_len(),
    {
        let ghost pre = *self;
        self.buf.set(self.pos, b);
        self.wire = Ghost(self.wire@.push(b));
        let next = self.pos + 1;
        if next == self.half || next == 2 * self.half {
            self.pos = if next == 2 * self.half { 0 } else { next };
            self.unread_full = true;
            proof {
                assert(self.other() == pre.cur());
                assert(self.unread() =~= pre.unread().push(b));
            }
        } else {
            self.pos = next;
            proof {
                assert(self.cur() == pre.cur());
                assert(self.unread() =~= pre.unread().push(b));
            }
        }
    }

    /// Handler of the half-complete event: hands out the completed half if
    /// one waits to be read.
    pub fn on_half_complete(&mut self) -> (r: Option<Vec<u8>>)
        requires
            old(self).wf(),
        ensures
            final(self).wf(),
            final(self).half_len() == old(self).half_len(),
            final(self).wire() == old(self).wire(),
            !final(self).has_full_half(),
            final(self).filled() == old(self).filled(),
            r is Some <==> old(self).has_full_half(),
            r is Some ==> r->0@.len() == old(self).half_len() && final(self).delivered() == old(
                self,
            ).delivered() + r->0@ && old(self).unread() == r->0@ + final(self).unread(),
            r is None ==> final(self).delivered() == old(self).delivered() && final(self).unread()
                == old(self).unread(),
    {
        if self.unread_full {
            let start = if self.pos < self.half { self.half } else { 0 };
            let data = copy_range(self.buf.as_slice(), start, start + self.half);
            let ghost pre = *self;
            self.unread_full = false;
            self.delivered = Ghost(self.delivered@ + data@);
            proof {
                assert(pre.unread() =~= data@ + self.unread());
                assert(self.delivered@ + self.unread() =~= pre.delivered@ + pre.unread());
            }
            Some(data)
        } else {
            None
        }
    }

    /// Handler of the idle-line event. A completed half that still waits is
    /// handed out first; then the bytes written since the last half boundary,
    /// located from the engine's remaining count; then the engine restarts
    /// at the start of the buffer.
    pub fn on_idle(&mut self) -> (r: (Option<Vec<u8>>, Vec<u8>))
        requires
            old(self).wf(),
        ensures
            final(self).wf(),
            final(self).half_len() == old(self).half_len(),
            final(self).wire() == old(self).wire(),
            final(self).unread() == Seq::<u8>::empty(),
            !final(self).has_full_half(),
            final(self).delivered() == final(self).wire(),
            final(self).filled() == 0,
            r.0 is Some <==> old(self).has_full_half(),
            r.0 is Some ==> r.0->0@.len() == old(self).half_len(),
            r.1@.len() < old(self).half_len(),
            old(self).unread() == (if r.0 is Some {
                r.0->0@
            } else {
                Seq::<u8>::empty()
            }) + r.1@,
            final(self).delivered() == old(self).delivered() + old(self).unread(),
    {
        let full = self.on_half_complete();
        let readable = if self.pos < self.half { Half::Second } else { Half::First };
        let pending = 2 * self.half - self.pos;
        let (start, end) = idle_range(readable, pending, self.half);
        let partial = copy_range(self.buf.as_slice(), start, end);
        let ghost mid = *self;
        self.delivered = Ghost(self.delivered@ + partial@);
        self.pos = 0;
        proof {
            assert(mid.unread() =~= partial@);
            assert(self.unread() =~= Seq::<u8>::empty());
            assert(self.delivered@ + self.unread() =~= self.delivered@);
        }
        (full, partial)
    }
}

/// Whatever the order of bytes, half-complete events and idle events, as
/// long as no unread half is overwritten, the bytes handed out followed by
/// those still unread are exactly the bytes written to the wire: nothing is
/// lost and nothing is handed out twice.
pub proof fn lemma_delivery_exact(r: &Receiver)
    requires
        r.wf(),
    ensures
        r.delivered() + r.unread() == r.wire(),
{
}

} // verus!
