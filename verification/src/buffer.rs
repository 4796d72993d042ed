//! The receive buffer: what a read of the transport brought and the decoder
//! has not yet taken. It never holds more than one read may bring.
use vstd::prelude::*;
use vstd::slice::slice_subrange;

verus! {

/// How many bytes one read of the transport may bring at most, and the
/// buffer hold.
pub const RX_BUFFER_SIZE: usize = 2048;

/// Received bytes, taken from the front. Its view is the bytes not yet taken.
pub struct RxBuffer {
    buf: Vec<u8>,
    tail: usize,
}

impl View for RxBuffer {
    type V = Seq<u8>;

    closed spec fn view(&self) -> Seq<u8> {
        self.buf@.skip(self.tail as int)
    }
}

impl RxBuffer {
    #[verifier::type_invariant]
    spec fn bounded(&self) -> bool {
        self.tail <= self.buf.len() <= RX_BUFFER_SIZE
    }

    /// A buffer that holds nothing.
    pub fn new() -> (b: Self)
        ensures
            b@ == Seq::<u8>::empty(),
    {
        let b = RxBuffer { buf: Vec::new(), tail: 0 };
        assert(b@ =~= Seq::<u8>::empty());
        b
    }

    /// The bytes not yet taken.
    pub fn unread(&self) -> (s: &[u8])
        ensures
            s@ == self@,
            s@.len() <= RX_BUFFER_SIZE,
    {
        proof {
            use_type_invariant(self);
        }
        let s = slice_subrange(self.buf.as_slice(), self.tail, self.buf.len());
        assert(s@ =~= self@);
        s
    }

    /// Takes the first `n` bytes off, or all where there are fewer.
    pub fn skip(&mut self, n: usize)
        ensures
            final(self)@ == old(self)@.skip(if n <= old(self)@.len() { n as int } else {
                old(self)@.len() as int
            }),
    {
        proof {
            use_type_invariant(&*self);
        }
        let left = self.buf.len() - self.tail;
        let step = if n <= left { n } else { left };
        self.tail = self.tail + step;
        assert(self@ =~= old(self)@.skip(step as int));
    }

    /// Adds `data` behind the bytes not yet taken, if the buffer can hold
    /// both; says whether it did.
    pub fn refill(&mut self, data: &[u8]) -> (done: bool)
        ensures
            done == (old(self)@.len() + data@.len() <= RX_BUFFER_SIZE),
            final(self)@ == (if done { old(self)@ + data@ } else { old(self)@ }),
    {
        proof {
            use_type_invariant(&*self);
        }
        let held = self.buf.len() - self.tail;
        if data.len() > RX_BUFFER_SIZE - held {
            return false;
        }
        let mut joined: Vec<u8> = Vec::new();
        joined.extend_from_slice(self.unread());
        joined.extend_from_slice(data);
        assert(joined@ =~= old(self)@ + data@);
        self.tail = 0;
        self.buf = joined;
        assert(self@ =~= old(self)@ + data@);
        true
    }
}

} // verus!
