//! The session with a device, without its socket: what was received and not
//! yet read, where the decoder stands, which node the device speaks of, and
//! when the keep-alive falls due. The one who owns the socket reads and
//! writes as the session says, and tells it what came of that.
use vstd::prelude::*;
use vstd::utf8::*;
use crate::buffer::{RxBuffer, RX_BUFFER_SIZE};
use crate::codec::{
    escaped_byte, lemma_pull_progress, lemma_pull_split, RxCodec, ESCAPE, ESCAPED_LITERAL,
    NO_CHANNEL,
};
use crate::command::{
    addressed, float_write, int_write, node_data_request, node_definition_request, request_wire,
    set_float_wire, set_int_wire, set_string_wire, string_write, MAX_STRING_LEN,
};
use crate::error::Error;
use crate::frame::{
    complete, interpret, lemma_frame_len_stable, meaning, partial, Frame, Meaning, OP_NODE_ID,
    OP_REQUEST_DATA, OP_REQUEST_DEFINITION, SMALL_INT_MAX,
};
use crate::node::Payload;
use crate::response::{WingResponse, WingResponseView};
use crate::wire::{be_bytes32, pattern32, u32_at};

verus! {

/// The TCP port on which a device listens.
pub const PORT: u16 = 2222;

/// After how many milliseconds without a write the keep-alive is due.
pub const KEEP_ALIVE_MS: u64 = 7000;

/// How many milliseconds to wait after a read that would have blocked.
pub const RETRY_MS: u64 = 10;

/// After the escape prefix: selects channel 1.
pub const SELECT_CHANNEL_1: u8 = 0xD1;

/// The two bytes that open a session and keep it alive: the selection of
/// channel 1.
pub open spec fn handshake_wire() -> Seq<u8> {
    seq![ESCAPE, SELECT_CHANNEL_1]
}

/// Whether at `now` the keep-alive is due, the last write having been at
/// `last_write`: more than `KEEP_ALIVE_MS` lie between them.
pub open spec fn keep_alive_due(last_write: u64, now: u64) -> bool {
    now - last_write > KEEP_ALIVE_MS
}

/// `wire`, with the keep-alive before it where that is due.
pub open spec fn after_keep_alive(last_write: u64, now: u64, wire: Seq<u8>) -> Seq<u8> {
    if keep_alive_due(last_write, now) {
        handshake_wire() + wire
    } else {
        wire
    }
}

/// A session as plain values.
pub struct ConsoleView {
    /// The node that data frames speak of.
    pub node: i32,
    /// When the client last wrote, in milliseconds.
    pub last_write: u64,
    /// The raw bytes that were received and not yet decoded.
    pub pending: Seq<u8>,
    /// The escape machine.
    pub codec: RxCodec,
    /// The decoded bytes of the frame that is not yet whole.
    pub frame: Seq<u8>,
}

/// What reading from a session comes to.
pub enum ReadView {
    /// An event for the caller.
    Ready(WingResponseView),
    /// All that was received is used up: the transport has to be read, after
    /// the keep-alive was written where `keep_alive` says so.
    Receive { keep_alive: bool },
    /// A frame held a string or a definition that cannot be read.
    Invalid,
}

impl ConsoleView {
    /// What a session holds from its making on: no more raw bytes than one
    /// read may bring, and a frame that is not yet whole.
    pub open spec fn wf(self) -> bool {
        self.pending.len() <= RX_BUFFER_SIZE && partial(self.frame)
    }

    /// Decoded bytes are taken one by one into the frame. A whole frame that
    /// asks nothing of a client is dropped, one that names a node makes it
    /// the current node, and the first one that is an event, or that cannot
    /// be read, ends the reading. `None` where the raw bytes ran out before.
    pub open spec fn polled(self) -> (ConsoleView, Option<Meaning>)
        decreases self.pending.len(), (if self.codec.in_pipe is Some { 1int } else { 0int }),
    {
        let p = self.codec.pull(self.pending);
        let taken = ConsoleView {
            codec: p.state,
            pending: self.pending.skip(p.used as int),
            ..self
        };
        match p.byte {
            None => (taken, None),
            Some(b) => {
                proof {
                    lemma_pull_progress(self.codec, self.pending);
                }
                let frame = self.frame.push(b);
                if !complete(frame) {
                    (ConsoleView { frame, ..taken }).polled()
                } else {
                    let idle = ConsoleView { frame: Seq::empty(), ..taken };
                    match meaning(frame, self.node) {
                        Meaning::Silent => idle.polled(),
                        Meaning::Select(id) => (ConsoleView { node: id, ..idle }).polled(),
                        m => (idle, Some(m)),
                    }
                }
            },
        }
    }

    /// The session after `read` at `now`, and what `read` gives.
    pub open spec fn read(self, now: u64) -> (ConsoleView, ReadView) {
        let (after, met) = self.polled();
        match met {
            Some(Meaning::Emit(event)) => (after, ReadView::Ready(event)),
            Some(_) => (after, ReadView::Invalid),
            None => {
                let due = keep_alive_due(self.last_write, now);
                (
                    ConsoleView { last_write: if due { now } else { self.last_write }, ..after },
                    ReadView::Receive { keep_alive: due },
                )
            },
        }
    }
}

/// What `read` tells the owner of the socket.
#[derive(Debug)]
pub enum Poll {
    /// An event for the caller.
    Ready(WingResponse),
    /// All that was received is used up. Write the handshake if `keep_alive`
    /// is set, read up to `RX_BUFFER_SIZE` bytes from the transport, and hand
    /// what came of it to `receive`.
    Receive { keep_alive: bool },
}

/// What a read of the transport came to.
#[derive(Debug)]
pub enum Transport {
    /// These bytes were read; none at all where the peer has closed.
    Bytes(Vec<u8>),
    /// Nothing is there to read yet.
    WouldBlock,
    /// The read failed.
    Failed(std::io::Error),
}

/// What `receive` tells the owner of the socket.
#[derive(Debug)]
pub enum Resume {
    /// Call `read` again.
    Read,
    /// Write the handshake if `keep_alive` is set, wait `RETRY_MS`
    /// milliseconds, read the transport again and hand what came of it to
    /// `receive`.
    Retry { keep_alive: bool },
}

/// What a `read` gave, as plain values.
pub open spec fn read_view(r: Result<Poll, Error>) -> ReadView {
    match r {
        Ok(Poll::Ready(event)) => ReadView::Ready(event@),
        Ok(Poll::Receive { keep_alive }) => ReadView::Receive { keep_alive },
        Err(_) => ReadView::Invalid,
    }
}

/// The session with one device.
pub struct WingConsole {
    current_node_id: i32,
    keep_alive_timer: u64,
    rx_buf: RxBuffer,
    rx: RxCodec,
    frame: Vec<u8>,
}

impl View for WingConsole {
    type V = ConsoleView;

    closed spec fn view(&self) -> ConsoleView {
        ConsoleView {
            node: self.current_node_id,
            last_write: self.keep_alive_timer,
            pending: self.rx_buf@,
            codec: self.rx,
            frame: self.frame@,
        }
    }
}

impl WingConsole {
    /// The two bytes that the client writes when the connection is made, and
    /// again whenever the keep-alive is due.
    pub fn handshake() -> (wire: Vec<u8>)
        ensures
            wire@ == handshake_wire(),
    {
        let mut wire = Vec::new();
        wire.push(ESCAPE);
        wire.push(SELECT_CHANNEL_1);
        assert(wire@ =~= handshake_wire());
        wire
    }

    /// The session of a connection on which the handshake was written at
    /// `now`: nothing received, no escape pending, no channel, the root as
    /// the current node.
    pub fn new(now: u64) -> (c: Self)
        ensures
            c@.wf(),
            c@ == (ConsoleView {
                node: 0,
                last_write: now,
                pending: Seq::empty(),
                codec: RxCodec::clean(NO_CHANNEL),
                frame: Seq::empty(),
            }),
    {
        let c = WingConsole {
            current_node_id: 0,
            keep_alive_timer: now,
            rx_buf: RxBuffer::new(),
            rx: RxCodec::new(),
            frame: Vec::new(),
        };
        c
    }

    /// Whether the keep-alive is due at `now`. Where it is, the caller writes
    /// the handshake, and the session counts it as written at `now`.
    pub fn keep_alive(&mut self, now: u64) -> (due: bool)
        ensures
            due == keep_alive_due(old(self)@.last_write, now),
            final(self)@ == (ConsoleView {
                last_write: if due { now } else { old(self)@.last_write },
                ..old(self)@
            }),
    {
        if now > self.keep_alive_timer && now - self.keep_alive_timer > KEEP_ALIVE_MS {
            self.keep_alive_timer = now;
            true
        } else {
            false
        }
    }

    /// The next event, from what was received so far. Frames that ask
    /// nothing of a client are passed over. Where the received bytes run
    /// out, the result says that the transport has to be read, and whether
    /// the keep-alive goes before that; it is then counted as written at
    /// `now`. A frame that cannot be read is dropped and gives `InvalidData`.
    ///
    /// Every call ends: each turn of its loop uses up a received byte or the
    /// byte in the pipe.
    pub fn read(&mut self, now: u64) -> (r: Result<Poll, Error>)
        ensures
            old(self)@.wf() ==> final(self)@.wf(),
            (final(self)@, read_view(r)) == old(self)@.read(now),
            r matches Err(e) ==> e == Error::InvalidData,
            r matches Ok(Poll::Receive { .. }) ==> final(self)@.pending.len() == 0
                && final(self)@.codec.in_pipe is None,
    {
        loop
            invariant
                old(self)@.wf() ==> self@.wf(),
                self@.polled() == old(self)@.polled(),
                self@.last_write == old(self)@.last_write,
            decreases self@.pending.len(), (if self.rx.in_pipe is Some { 1int } else { 0int }),
        {
            proof {
                lemma_pull_progress(self.rx, self@.pending);
            }
            let (got, used) = self.rx.decode_next(self.rx_buf.unread());
            self.rx_buf.skip(used);
            match got {
                None => {
                    let due = self.keep_alive(now);
                    return Ok(Poll::Receive { keep_alive: due });
                },
                Some((_, byte)) => {
                    proof {
                        lemma_frame_len_stable(self.frame@, byte);
                    }
                    self.frame.push(byte);
                    if frame_is_complete(self.frame.as_slice()) {
                        let found = interpret(self.frame.as_slice(), self.current_node_id);
                        self.frame.clear();
                        match found {
                            Frame::Silent => {},
                            Frame::Select(id) => {
                                self.current_node_id = id;
                            },
                            Frame::Emit(event) => {
                                return Ok(Poll::Ready(event));
                            },
                            Frame::Invalid => {
                                return Err(Error::InvalidData);
                            },
                        }
                    }
                },
            }
        }
    }

    /// Takes in what a read of the transport came to. Bytes are added to
    /// those not yet decoded; a read that would have blocked asks for
    /// another one after a pause, with the keep-alive before it where that
    /// is due at `now`.
    ///
    /// A read of no bytes at all means that the peer is gone and gives
    /// `ConnectionError`; a failed read gives its error as `Io`; bytes that
    /// do not fit into what one read may bring give `InvalidData`. On an
    /// error the session is as it was.
    pub fn receive(&mut self, got: Transport, now: u64) -> (r: Result<Resume, Error>)
        ensures
            old(self)@.wf() ==> final(self)@.wf(),
            match got {
                Transport::Bytes(data) => if data@.len() == 0 {
                    r matches Err(Error::ConnectionError) && final(self)@ == old(self)@
                } else if old(self)@.pending.len() + data@.len() > RX_BUFFER_SIZE {
                    r matches Err(Error::InvalidData) && final(self)@ == old(self)@
                } else {
                    r matches Ok(Resume::Read) && final(self)@ == (ConsoleView {
                        pending: old(self)@.pending + data@,
                        ..old(self)@
                    })
                },
                Transport::WouldBlock => {
                    let due = keep_alive_due(old(self)@.last_write, now);
                    r matches Ok(Resume::Retry { keep_alive }) && keep_alive == due && final(self)@
                        == (ConsoleView {
                        last_write: if due { now } else { old(self)@.last_write },
                        ..old(self)@
                    })
                },
                Transport::Failed(error) => r matches Err(Error::Io(e)) && e == error
                    && final(self)@ == old(self)@,
            },
    {
        match got {
            Transport::Bytes(data) => {
                if data.len() == 0 {
                    return Err(Error::ConnectionError);
                }
                if self.rx_buf.refill(data.as_slice()) {
                    Ok(Resume::Read)
                } else {
                    Err(Error::InvalidData)
                }
            },
            Transport::WouldBlock => {
                let due = self.keep_alive(now);
                Ok(Resume::Retry { keep_alive: due })
            },
            Transport::Failed(error) => Err(Error::Io(error)),
        }
    }

    /// Puts the keep-alive before `wire` where it is due at `now`, and counts
    /// the whole as written at `now`.
    fn stamped(&mut self, wire: Vec<u8>, now: u64) -> (out: Vec<u8>)
        ensures
            out@ == after_keep_alive(old(self)@.last_write, now, wire@),
            final(self)@ == (ConsoleView { last_write: now, ..old(self)@ }),
    {
        let due = self.keep_alive(now);
        self.keep_alive_timer = now;
        if due {
            let mut out = WingConsole::handshake();
            out.extend_from_slice(wire.as_slice());
            out
        } else {
            wire
        }
    }

    /// The bytes to write at `now` to ask for the definition of node `id`,
    /// or of the root's children where `id` is 0. The keep-alive goes before
    /// them where it is due.
    pub fn request_node_definition(&mut self, id: i32, now: u64) -> (wire: Vec<u8>)
        ensures
            wire@ == after_keep_alive(
                old(self)@.last_write,
                now,
                request_wire(id, OP_REQUEST_DEFINITION),
            ),
            final(self)@ == (ConsoleView { last_write: now, ..old(self)@ }),
    {
        self.stamped(node_definition_request(id), now)
    }

    /// The bytes to write at `now` to ask for the data of node `id`. The
    /// keep-alive goes before them where it is due.
    pub fn request_node_data(&mut self, id: i32, now: u64) -> (wire: Vec<u8>)
        ensures
            wire@ == after_keep_alive(
                old(self)@.last_write,
                now,
                request_wire(id, OP_REQUEST_DATA),
            ),
            final(self)@ == (ConsoleView { last_write: now, ..old(self)@ }),
    {
        self.stamped(node_data_request(id), now)
    }

    /// The bytes to write at `now` to set node `id` to the string `value`.
    /// The keep-alive goes before them where it is due. A string of more
    /// than `MAX_STRING_LEN` bytes is refused with `InvalidData`; nothing is
    /// to be written then, and the session is as it was.
    pub fn set_string(&mut self, id: i32, value: &str, now: u64) -> (r: Result<Vec<u8>, Error>)
        ensures
            r is Ok <==> encode_utf8(value@).len() <= MAX_STRING_LEN,
            r matches Ok(wire) ==> wire@ == after_keep_alive(
                old(self)@.last_write,
                now,
                set_string_wire(id, encode_utf8(value@)),
            ) && final(self)@ == (ConsoleView { last_write: now, ..old(self)@ }),
            r matches Err(e) ==> e == Error::InvalidData && final(self)@ == old(self)@,
    {
        match string_write(id, value) {
            Ok(wire) => Ok(self.stamped(wire, now)),
            Err(e) => Err(e),
        }
    }

    /// The bytes to write at `now` to set node `id` to the float whose
    /// 32-bit pattern is `bits`. The keep-alive goes before them where it is
    /// due.
    pub fn set_float(&mut self, id: i32, bits: u32, now: u64) -> (wire: Vec<u8>)
        ensures
            wire@ == after_keep_alive(old(self)@.last_write, now, set_float_wire(id, bits)),
            final(self)@ == (ConsoleView { last_write: now, ..old(self)@ }),
    {
        self.stamped(float_write(id, bits), now)
    }

    /// The bytes to write at `now` to set node `id` to the integer `value`.
    /// The keep-alive goes before them where it is due.
    pub fn set_int(&mut self, id: i32, value: i32, now: u64) -> (wire: Vec<u8>)
        ensures
            wire@ == after_keep_alive(old(self)@.last_write, now, set_int_wire(id, value)),
            final(self)@ == (ConsoleView { last_write: now, ..old(self)@ }),
    {
        self.stamped(int_write(id, value), now)
    }
}

/// Whether `frame` is one whole frame.
fn frame_is_complete(frame: &[u8]) -> (b: bool)
    ensures
        b == complete(frame@),
{
    match crate::frame::expected_len(frame) {
        Some(n) => n == frame.len(),
        None => false,
    }
}

/// Reading uses up what it is given: a reading that ends with an event or
/// an unreadable frame has taken a received byte or the byte in the pipe,
/// and one that ends for want of bytes has taken them all and left the pipe
/// empty.
pub proof fn lemma_polled_progress(v: ConsoleView)
    ensures
        ({
            let (after, met) = v.polled();
            &&& after.pending.len() <= v.pending.len()
            &&& met is Some ==> after.pending.len() < v.pending.len() || (v.codec.in_pipe is Some
                && after.codec.in_pipe is None)
            &&& met is None ==> after.pending.len() == 0 && after.codec.in_pipe is None
            &&& after.last_write == v.last_write
        }),
    decreases v.pending.len(), (if v.codec.in_pipe is Some { 1int } else { 0int }),
{
    let p = v.codec.pull(v.pending);
    lemma_pull_progress(v.codec, v.pending);
    let taken = ConsoleView { codec: p.state, pending: v.pending.skip(p.used as int), ..v };
    if let Some(b) = p.byte {
        let frame = v.frame.push(b);
        if !complete(frame) {
            lemma_polled_progress(ConsoleView { frame, ..taken });
        } else {
            let idle = ConsoleView { frame: Seq::empty(), ..taken };
            match meaning(frame, v.node) {
                Meaning::Silent => {
                    lemma_polled_progress(idle);
                },
                Meaning::Select(id) => {
                    lemma_polled_progress(ConsoleView { node: id, ..idle });
                },
                _ => {},
            }
        }
    }
}

/// Reading does not depend on how the raw bytes were cut into reads of the
/// transport. Let a session hold the bytes `v.pending` and let `more` come
/// behind them. If reading from `v.pending` alone ends with an event, or
/// with a frame that cannot be read, then reading from both ends the same
/// way and leaves `more` untouched. If it ends for want of bytes, then
/// taking in `more` and reading again gives what reading from both gives.
pub proof fn lemma_polled_split(v: ConsoleView, more: Seq<u8>)
    ensures
        ({
            let (after, met) = v.polled();
            let joined = (ConsoleView { pending: v.pending + more, ..v }).polled();
            if met is Some {
                joined == (ConsoleView { pending: after.pending + more, ..after }, met)
            } else {
                joined == (ConsoleView { pending: more, ..after }).polled()
            }
        }),
    decreases v.pending.len(), (if v.codec.in_pipe is Some { 1int } else { 0int }),
{
    let w = ConsoleView { pending: v.pending + more, ..v };
    let p = v.codec.pull(v.pending);
    lemma_pull_progress(v.codec, v.pending);
    lemma_pull_split(v.codec, v.pending, more);
    let taken = ConsoleView { codec: p.state, pending: v.pending.skip(p.used as int), ..v };
    match p.byte {
        None => {
            let q = p.state.pull(more);
            lemma_pull_progress(p.state, more);
            assert(v.pending.skip(p.used as int) =~= Seq::<u8>::empty());
            assert((v.pending + more).skip((v.pending.len() + q.used) as int) =~= more.skip(
                q.used as int,
            ));
        },
        Some(b) => {
            assert((v.pending + more).skip(p.used as int) =~= v.pending.skip(p.used as int)
                + more);
            let frame = v.frame.push(b);
            if !complete(frame) {
                lemma_polled_split(ConsoleView { frame, ..taken }, more);
            } else {
                let idle = ConsoleView { frame: Seq::empty(), ..taken };
                match meaning(frame, v.node) {
                    Meaning::Silent => {
                        lemma_polled_split(idle, more);
                    },
                    Meaning::Select(id) => {
                        lemma_polled_split(ConsoleView { node: id, ..idle }, more);
                    },
                    _ => {},
                }
            }
        },
    }
}

/// What comes of reading when the escaped form of one more decoded byte
/// is all that a session has to read, and no escape is pending: the byte
/// goes into the frame, and a frame that it makes whole is dealt with.
spec fn taken(v: ConsoleView, b: u8) -> (ConsoleView, Option<Meaning>) {
    let frame = v.frame.push(b);
    let idle = ConsoleView { frame: Seq::empty(), ..v };
    if !complete(frame) {
        (ConsoleView { frame, ..v }, None)
    } else {
        match meaning(frame, v.node) {
            Meaning::Silent => (idle, None),
            Meaning::Select(id) => (ConsoleView { node: id, ..idle }, None),
            m => (idle, Some(m)),
        }
    }
}

/// Reading the escaped form of one byte takes that byte into the frame.
proof fn lemma_take_byte(v: ConsoleView, b: u8)
    requires
        v.codec == RxCodec::clean(v.codec.channel),
        v.pending.len() == 0,
    ensures
        (ConsoleView { pending: escaped_byte(b), ..v }).polled() == taken(v, b),
{
    let w = ConsoleView { pending: escaped_byte(b), ..v };
    let raw = escaped_byte(b);
    reveal_with_fuel(RxCodec::pull, 3);
    reveal_with_fuel(ConsoleView::polled, 2);
    let p = v.codec.pull(raw);
    if b == ESCAPE {
        assert(raw.skip(1)[0] == ESCAPED_LITERAL);
        assert(p.used == 2 && p.byte == Some(ESCAPE) && p.state == v.codec);
    } else {
        assert(p.used == 1 && p.byte == Some(b) && p.state == v.codec);
    }
    let none = Seq::<u8>::empty();
    assert(raw.skip(p.used as int) =~= none);
    assert(v.pending =~= none);
    assert(none.skip(0) =~= none);
    let frame = v.frame.push(b);
    let idle = ConsoleView { frame: none, ..v };
    let held = ConsoleView { frame, ..v };
    assert(held.polled() == (held, None::<Meaning>));
    assert(idle.polled() == (idle, None::<Meaning>));
    if complete(frame) {
        match meaning(frame, v.node) {
            Meaning::Select(id) => {
                let moved = ConsoleView { node: id, ..idle };
                assert(moved.polled() == (moved, None::<Meaning>));
            },
            _ => {},
        }
    }
}

/// Reading what lies before more bytes, where it ends for want of bytes,
/// goes on in those.
proof fn lemma_read_on(v: ConsoleView, b: u8, more: Seq<u8>)
    requires
        v.codec == RxCodec::clean(v.codec.channel),
        v.pending.len() == 0,
        taken(v, b).1 is None,
    ensures
        (ConsoleView { pending: escaped_byte(b) + more, ..v }).polled() == (ConsoleView {
            pending: more,
            ..taken(v, b).0
        }).polled(),
{
    lemma_take_byte(v, b);
    lemma_polled_split(ConsoleView { pending: escaped_byte(b), ..v }, more);
}

/// The frame that selects a node is not whole before its fifth byte.
proof fn lemma_node_id_frame_grows(f: Seq<u8>)
    requires
        f.len() == 5,
        f[0] == OP_NODE_ID,
    ensures
        forall|k: int| 1 <= k <= 4 ==> !complete(#[trigger] f.take(k)),
        complete(f),
{
    assert forall|k: int| 1 <= k <= 4 implies !complete(#[trigger] f.take(k)) by {
        assert(f.take(k).len() == k && f.take(k)[0] == OP_NODE_ID);
    }
}

/// The frame that selects a node names the node.
proof fn lemma_node_id_meaning(f: Seq<u8>, id: i32, node: i32)
    requires
        f.len() == 5,
        f[0] == OP_NODE_ID,
        u32_at(f, 1) == pattern32(id as int),
    ensures
        meaning(f, node) == Meaning::Select(id),
{
}

/// The frame that selects a node: not whole before its fifth byte, and
/// then it names the node.
proof fn lemma_node_id_frame(id: i32, node: i32)
    ensures
        ({
            let f = seq![OP_NODE_ID] + be_bytes32(pattern32(id as int));
            &&& f.len() == 5
            &&& forall|k: int| 1 <= k <= 4 ==> !complete(#[trigger] f.take(k))
            &&& meaning(f, node) == Meaning::Select(id)
        }),
{
    let f = seq![OP_NODE_ID] + be_bytes32(pattern32(id as int));
    assert(f.len() == 5 && f[0] == OP_NODE_ID);
    assert(u32_at(f, 1) == pattern32(id as int));
    lemma_node_id_frame_grows(f);
    lemma_node_id_meaning(f, id, node);
}

/// Reading takes the `k`-th byte of a frame that it does not make whole.
proof fn lemma_read_into(start: ConsoleView, f: Seq<u8>, k: int, more: Seq<u8>)
    requires
        start.codec == RxCodec::clean(start.codec.channel),
        start.pending.len() == 0,
        0 <= k < f.len(),
        !complete(f.take(k + 1)),
    ensures
        (ConsoleView { frame: f.take(k), pending: escaped_byte(f[k]) + more, ..start }).polled()
            == (ConsoleView { frame: f.take(k + 1), pending: more, ..start }).polled(),
{
    let v = ConsoleView { frame: f.take(k), ..start };
    assert(f.take(k).push(f[k]) =~= f.take(k + 1));
    lemma_read_on(v, f[k], more);
}

/// Reading takes the last byte of a frame that selects a node, and goes on
/// with that node as the current one.
proof fn lemma_read_selection(start: ConsoleView, f: Seq<u8>, id: i32, more: Seq<u8>)
    requires
        start.codec == RxCodec::clean(start.codec.channel),
        start.pending.len() == 0,
        start.frame.len() == 0,
        f.len() > 0,
        complete(f),
        meaning(f, start.node) == Meaning::Select(id),
    ensures
        (ConsoleView {
            frame: f.drop_last(),
            pending: escaped_byte(f.last()) + more,
            ..start
        }).polled() == (ConsoleView { node: id, pending: more, ..start }).polled(),
{
    let v = ConsoleView { frame: f.drop_last(), ..start };
    assert(f.drop_last().push(f.last()) =~= f);
    assert(start.frame =~= Seq::<u8>::empty());
    lemma_read_on(v, f.last(), more);
}

/// Reading a small integer reports it as data of the current node.
proof fn lemma_read_small_int(start: ConsoleView, value: u8)
    requires
        start.codec == RxCodec::clean(start.codec.channel),
        start.pending.len() == 0,
        start.frame.len() == 0,
        value <= SMALL_INT_MAX,
    ensures
        (ConsoleView { pending: seq![value], ..start }).polled() == (
            start,
            Some(
                Meaning::Emit(
                    WingResponseView::NodeData(start.node, Payload::Int(value as i32)),
                ),
            ),
        ),
{
    lemma_take_byte(start, value);
    assert(escaped_byte(value) =~= seq![value]);
    let last = Seq::<u8>::empty().push(value);
    assert(last.len() == 1 && last[0] == value);
    assert(start.frame.push(value) =~= last);
    assert(start.frame =~= Seq::<u8>::empty());
}

/// An id that one side writes is the node that the other side reports data
/// for. Let a session have nothing to read, no escape pending and no frame
/// begun. When it gets the selection of node `id` as `format_id` writes it,
/// and after it a small integer, it reports that integer as data of `id`.
pub proof fn lemma_selected_node_is_reported(start: ConsoleView, id: i32, value: u8)
    requires
        start.codec == RxCodec::clean(start.codec.channel),
        start.pending.len() == 0,
        start.frame.len() == 0,
        value <= SMALL_INT_MAX,
    ensures
        (ConsoleView {
            pending: addressed(id, OP_NODE_ID, None) + seq![value],
            ..start
        }).polled() == (
            ConsoleView { node: id, ..start },
            Some(
                Meaning::Emit(WingResponseView::NodeData(id, Payload::Int(value as i32))),
            ),
        ),
{
    let f = seq![OP_NODE_ID] + be_bytes32(pattern32(id as int));
    lemma_node_id_frame(id, start.node);
    let p5 = seq![value];
    let p4 = escaped_byte(f[4]) + p5;
    let p3 = escaped_byte(f[3]) + p4;
    let p2 = escaped_byte(f[2]) + p3;
    let p1 = escaped_byte(f[1]) + p2;
    let whole = addressed(id, OP_NODE_ID, None) + seq![value];
    assert(whole =~= escaped_byte(f[0]) + p1);
    assert(start == ConsoleView { frame: f.take(0), ..start }) by {
        assert(start.frame =~= f.take(0));
    }
    lemma_read_into(start, f, 0, p1);
    lemma_read_into(start, f, 1, p2);
    lemma_read_into(start, f, 2, p3);
    lemma_read_into(start, f, 3, p4);
    assert(f.take(4) =~= f.drop_last() && f[4] == f.last());
    lemma_read_selection(start, f, id, p5);
    lemma_read_small_int(ConsoleView { node: id, ..start }, value);
}

} // verus!
