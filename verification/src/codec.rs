//! The escape coding of the byte stream: the receiving machine that turns raw
//! transport bytes into decoded bytes and a channel side-band, and the
//! escaping that the sending side applies.
use vstd::prelude::*;

verus! {

/// The escape prefix.
pub const ESCAPE: u8 = 0xDF;

/// After the escape prefix: stands for a literal `0xDF`.
pub const ESCAPED_LITERAL: u8 = 0xDE;

/// After the escape prefix: the first of the channel selectors.
pub const CHANNEL_BASE: u8 = 0xD0;

/// The channel value that means "none".
pub const NO_CHANNEL: i8 = -1;

/// State of the receiving escape machine.
#[derive(Clone, Copy, Debug)]
pub struct RxCodec {
    /// The last raw byte was the escape prefix and is still undecided.
    pub esc: bool,
    /// The channel selected last, or `NO_CHANNEL`.
    pub channel: i8,
    /// A decoded byte that the machine owes to the next request.
    pub in_pipe: Option<u8>,
}

/// What one request for a decoded byte came to.
pub struct Pulled {
    /// The machine after the request.
    pub state: RxCodec,
    /// How many raw bytes the request used up.
    pub used: nat,
    /// The decoded byte, or `None` where the raw bytes ran out first.
    pub byte: Option<u8>,
}

impl RxCodec {
    /// The machine of a fresh connection on channel `channel`: no escape
    /// pending, nothing in the pipe.
    pub open spec fn clean(channel: i8) -> RxCodec {
        RxCodec { esc: false, channel, in_pipe: None }
    }

    /// The machine, and the byte it gives out if any, after one raw byte.
    /// Stated for a machine with nothing in the pipe.
    ///
    /// Outside an escape, `0xDF` opens one and any other byte is given out
    /// as it is. Inside an escape, `0xDF` is given out and the escape stays
    /// open; `0xDE` gives out `0xDF`; `0xD0` to `0xDD` select the channels 0
    /// to 13 and give out nothing; any other byte gives out `0xDF` and goes
    /// into the pipe where a channel is selected, and is given out alone
    /// where none is.
    pub open spec fn accept(self, byte: u8) -> (RxCodec, Option<u8>) {
        if !self.esc {
            if byte == ESCAPE {
                (RxCodec { esc: true, ..self }, None)
            } else {
                (self, Some(byte))
            }
        } else if byte == ESCAPE {
            (self, Some(ESCAPE))
        } else if byte == ESCAPED_LITERAL {
            (RxCodec { esc: false, ..self }, Some(ESCAPE))
        } else if CHANNEL_BASE <= byte < ESCAPED_LITERAL {
            (RxCodec { esc: false, channel: (byte - CHANNEL_BASE) as i8, ..self }, None)
        } else if self.channel >= 0 {
            (RxCodec { esc: false, in_pipe: Some(byte), ..self }, Some(ESCAPE))
        } else {
            (RxCodec { esc: false, ..self }, Some(byte))
        }
    }

    /// One request for a decoded byte, with `raw` as the input at hand: the
    /// byte in the pipe if there is one, else raw bytes are taken until one
    /// of them gives a byte out or none is left.
    pub open spec fn pull(self, raw: Seq<u8>) -> Pulled
        decreases raw.len(),
    {
        if self.in_pipe is Some {
            Pulled { state: RxCodec { in_pipe: None, ..self }, used: 0, byte: self.in_pipe }
        } else if raw.len() == 0 {
            Pulled { state: self, used: 0, byte: None }
        } else {
            let (next, out) = self.accept(raw[0]);
            if out is Some {
                Pulled { state: next, used: 1, byte: out }
            } else {
                let rest = next.pull(raw.skip(1));
                Pulled { state: rest.state, used: rest.used + 1, byte: rest.byte }
            }
        }
    }

    /// Every decoded byte that the machine gives out for `raw`, in order.
    pub open spec fn decoded(self, raw: Seq<u8>) -> Seq<u8>
        decreases raw.len(), (if self.in_pipe is Some { 1int } else { 0int }),
    {
        if self.in_pipe is Some {
            seq![self.in_pipe->0] + (RxCodec { in_pipe: None, ..self }).decoded(raw)
        } else if raw.len() == 0 {
            Seq::empty()
        } else {
            let (next, out) = self.accept(raw[0]);
            match out {
                Some(b) => seq![b] + next.decoded(raw.skip(1)),
                None => next.decoded(raw.skip(1)),
            }
        }
    }

    /// The machine after all of `raw` was taken and the pipe was emptied.
    pub open spec fn settled(self, raw: Seq<u8>) -> RxCodec
        decreases raw.len(), (if self.in_pipe is Some { 1int } else { 0int }),
    {
        if self.in_pipe is Some {
            (RxCodec { in_pipe: None, ..self }).settled(raw)
        } else if raw.len() == 0 {
            self
        } else {
            self.accept(raw[0]).0.settled(raw.skip(1))
        }
    }

    /// The machine of a fresh connection: no escape pending, no channel,
    /// nothing in the pipe.
    pub fn new() -> (c: RxCodec)
        ensures
            c == RxCodec::clean(NO_CHANNEL),
    {
        RxCodec { esc: false, channel: NO_CHANNEL, in_pipe: None }
    }

    /// Takes one raw byte into a machine with nothing in the pipe, and hands
    /// back the decoded byte if the step gave one.
    fn step(&mut self, byte: u8) -> (out: Option<u8>)
        requires
            old(self).in_pipe is None,
        ensures
            (*final(self), out) == old(self).accept(byte),
    {
        if !self.esc {
            if byte == ESCAPE {
                self.esc = true;
                None
            } else {
                Some(byte)
            }
        } else if byte == ESCAPE {
            Some(byte)
        } else {
            self.esc = false;
            if byte == ESCAPED_LITERAL {
                Some(ESCAPE)
            } else if CHANNEL_BASE <= byte && byte < ESCAPED_LITERAL {
                self.channel = (byte - CHANNEL_BASE) as i8;
                None
            } else if self.channel >= 0 {
                self.in_pipe = Some(byte);
                Some(ESCAPE)
            } else {
                Some(byte)
            }
        }
    }

    /// The next decoded byte with the channel it belongs to, and how many
    /// bytes of `raw` were used for it. No byte means that `raw` ran out
    /// before one was decoded; all of it is used then.
    pub fn decode_next(&mut self, raw: &[u8]) -> (r: (Option<(i8, u8)>, usize))
        ensures
            *final(self) == old(self).pull(raw@).state,
            r.1 == old(self).pull(raw@).used,
            r.1 <= raw.len(),
            r.0 is Some <==> old(self).pull(raw@).byte is Some,
            r.0 matches Some(pair) ==> pair == (
                old(self).pull(raw@).state.channel,
                old(self).pull(raw@).byte->0,
            ),
            r.0 is None ==> r.1 == raw.len(),
    {
        if let Some(value) = self.in_pipe {
            self.in_pipe = None;
            return (Some((self.channel, value)), 0);
        }
        let mut i: usize = 0;
        assert(raw@.skip(0) =~= raw@);
        while i < raw.len()
            invariant
                i <= raw.len(),
                self.in_pipe is None,
                old(self).pull(raw@) == ({
                    let p = self.pull(raw@.skip(i as int));
                    Pulled { state: p.state, used: (p.used + i) as nat, byte: p.byte }
                }),
            decreases raw.len() - i,
        {
            let byte = raw[i];
            proof {
                assert(raw@.skip(i as int)[0] == byte);
                assert(raw@.skip(i as int).skip(1) == raw@.skip(i + 1));
            }
            let out = self.step(byte);
            i = i + 1;
            if let Some(value) = out {
                return (Some((self.channel, value)), i);
            }
        }
        (None, i)
    }
}

/// What the sending side writes for one byte: the byte, and `0xDE` behind
/// it where it is `0xDF`.
pub open spec fn escaped_byte(b: u8) -> Seq<u8> {
    if b == ESCAPE {
        seq![ESCAPE, ESCAPED_LITERAL]
    } else {
        seq![b]
    }
}

/// What the sending side writes for `bytes`: each byte in its escaped form.
pub open spec fn escaped(bytes: Seq<u8>) -> Seq<u8>
    decreases bytes.len(),
{
    if bytes.len() == 0 {
        Seq::empty()
    } else {
        escaped_byte(bytes[0]) + escaped(bytes.skip(1))
    }
}

/// Appends `byte` to `buf` in its escaped form.
pub fn push_escaped(buf: &mut Vec<u8>, byte: u8)
    ensures
        final(buf)@ == old(buf)@ + escaped_byte(byte),
{
    buf.push(byte);
    if byte == ESCAPE {
        buf.push(ESCAPED_LITERAL);
    }
    assert(buf@ =~= old(buf)@ + escaped_byte(byte));
}

/// A request never uses more raw bytes than there are; it gives no byte only
/// when all of them are used and the pipe is empty; and a byte that it gives
/// cost a raw byte or came out of the pipe.
pub proof fn lemma_pull_progress(c: RxCodec, raw: Seq<u8>)
    ensures
        c.pull(raw).used <= raw.len(),
        c.pull(raw).byte is None ==> c.pull(raw).used == raw.len() && c.in_pipe is None,
        c.pull(raw).byte is None ==> c.pull(raw).state.in_pipe is None,
        c.pull(raw).byte is Some ==> c.pull(raw).used >= 1 || c.in_pipe is Some,
    decreases raw.len(),
{
    if c.in_pipe is None && raw.len() > 0 {
        let (next, out) = c.accept(raw[0]);
        if out is None {
            lemma_pull_progress(next, raw.skip(1));
        }
    }
}

/// Requests give out the decoded bytes one by one: the first request gives
/// the first of them, and the rest are those of the machine it leaves, on
/// the raw bytes it left.
pub proof fn lemma_pull_is_first_decoded(c: RxCodec, raw: Seq<u8>)
    ensures
        ({
            let p = c.pull(raw);
            c.decoded(raw) == match p.byte {
                Some(b) => seq![b] + p.state.decoded(raw.skip(p.used as int)),
                None => Seq::empty(),
            }
        }),
    decreases raw.len(),
{
    if c.in_pipe is Some {
        assert(raw.skip(0) == raw);
    } else if raw.len() > 0 {
        let (next, out) = c.accept(raw[0]);
        if out is None {
            lemma_pull_is_first_decoded(next, raw.skip(1));
            let rest = next.pull(raw.skip(1));
            assert(raw.skip(1).skip(rest.used as int) == raw.skip(rest.used as int + 1)) by {
                lemma_pull_progress(next, raw.skip(1));
            }
        }
    }
}

/// Escaping and then decoding gives the bytes back, whatever they are, and
/// leaves the machine as it was: no escape pending, the same channel,
/// nothing in the pipe.
pub proof fn lemma_escape_round_trip(bytes: Seq<u8>, channel: i8)
    ensures
        RxCodec::clean(channel).decoded(escaped(bytes)) == bytes,
        RxCodec::clean(channel).settled(escaped(bytes)) == RxCodec::clean(channel),
    decreases bytes.len(),
{
    let c = RxCodec::clean(channel);
    if bytes.len() > 0 {
        let tail = bytes.skip(1);
        lemma_escape_round_trip(tail, channel);
        assert(bytes == seq![bytes[0]] + tail);
        if bytes[0] == ESCAPE {
            let raw = seq![ESCAPE, ESCAPED_LITERAL] + escaped(tail);
            let armed = RxCodec { esc: true, ..c };
            assert(raw.skip(1).skip(1) == escaped(tail));
            assert(c.accept(raw[0]) == (armed, None::<u8>));
            assert(armed.accept(raw.skip(1)[0]) == (c, Some(ESCAPE)));
            assert(armed.decoded(raw.skip(1)) == seq![ESCAPE] + c.decoded(escaped(tail)));
            assert(armed.settled(raw.skip(1)) == c.settled(escaped(tail)));
        } else {
            let raw = seq![bytes[0]] + escaped(tail);
            assert(raw.skip(1) == escaped(tail));
            assert(c.accept(raw[0]) == (c, Some(bytes[0])));
        }
    }
}

/// A request does not depend on how the raw bytes came in. With more
/// bytes behind those at hand, a request that gave a byte gives the same
/// one; a request that ran out goes on, from where it stopped, in the bytes
/// that were added.
pub proof fn lemma_pull_split(c: RxCodec, a: Seq<u8>, b: Seq<u8>)
    ensures
        c.pull(a).byte is Some ==> c.pull(a + b) == c.pull(a),
        c.pull(a).byte is None ==> c.pull(a + b) == (Pulled {
            state: c.pull(a).state.pull(b).state,
            used: a.len() + c.pull(a).state.pull(b).used,
            byte: c.pull(a).state.pull(b).byte,
        }),
    decreases a.len(),
{
    if c.in_pipe is Some {
    } else if a.len() == 0 {
        assert(a + b == b);
    } else {
        assert((a + b)[0] == a[0]);
        assert((a + b).skip(1) == a.skip(1) + b);
        let (next, out) = c.accept(a[0]);
        if out is None {
            lemma_pull_split(next, a.skip(1), b);
        }
    }
}

} // verus!
