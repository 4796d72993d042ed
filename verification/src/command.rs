//! The commands that a client sends, as the bytes that go on the wire.
use vstd::prelude::*;
use vstd::string::*;
use vstd::utf8::*;
use crate::codec::{escaped, escaped_byte, lemma_escape_round_trip, push_escaped, RxCodec};
use crate::error::Error;
use crate::frame::{
    meaning, string_meaning, Meaning, INDEX_HINT_MAX, OP_EMPTY_STRING, OP_FLOAT, OP_GOTO_ROOT,
    OP_INT16, OP_INT32, OP_LONG_STRING, OP_NODE_ID, OP_REQUEST_DATA, OP_REQUEST_DEFINITION,
    SMALL_INT_MAX,
};
use crate::node::Payload;
use crate::response::WingResponseView;
use crate::wire::{
    be_bytes16, be_bytes32, be_bytes_u32, pattern32, pattern_of, signed16, signed32, u16_at,
    u32_at,
};

verus! {

/// The longest string, in bytes, that a write command can carry.
pub const MAX_STRING_LEN: usize = 256;

/// The longest string, in bytes, whose length is told by the opcode alone.
pub const MAX_SHORT_STRING_LEN: usize = 64;

/// The bytes of `id` on the wire: four, most significant first, with `0xDE`
/// behind each of them that is `0xDF`, and nowhere else.
pub open spec fn id_wire(id: i32) -> Seq<u8> {
    let b = be_bytes32(pattern32(id as int));
    escaped_byte(b[0]) + escaped_byte(b[1]) + escaped_byte(b[2]) + escaped_byte(b[3])
}

/// What `format_id` writes: the prefix, the id, and the suffix if there is one.
pub open spec fn addressed(id: i32, prefix: u8, suffix: Option<u8>) -> Seq<u8> {
    seq![prefix] + id_wire(id) + match suffix {
        Some(s) => seq![s],
        None => Seq::empty(),
    }
}

/// A request that names its node: the root by the opcode of its own, any
/// other node by its id.
pub open spec fn request_wire(id: i32, request: u8) -> Seq<u8> {
    if id == 0 {
        seq![OP_GOTO_ROOT, request]
    } else {
        addressed(id, OP_NODE_ID, Some(request))
    }
}

/// The opcode, with the length byte where one is needed, that leads a string
/// of `len` bytes, for `len` up to `MAX_STRING_LEN`.
pub open spec fn string_head(len: int) -> Seq<u8> {
    if len == 0 {
        seq![OP_EMPTY_STRING]
    } else if len <= MAX_SHORT_STRING_LEN {
        seq![(INDEX_HINT_MAX + len) as u8]
    } else {
        seq![OP_LONG_STRING, (len - 1) as u8]
    }
}

/// The command that writes the string whose UTF-8 bytes are `bytes`. The
/// bytes go out as they are, with no escaping.
pub open spec fn set_string_wire(id: i32, bytes: Seq<u8>) -> Seq<u8> {
    addressed(id, OP_NODE_ID, None) + string_head(bytes.len() as int) + bytes
}

/// The command that writes the float whose 32-bit pattern is `bits`.
pub open spec fn set_float_wire(id: i32, bits: u32) -> Seq<u8> {
    addressed(id, OP_NODE_ID, Some(OP_FLOAT)) + be_bytes32(bits as int)
}

/// How an integer goes out: by itself in one byte from 0 to `0x3F`, else in
/// 16 bits where it fits, else in 32.
pub open spec fn int_tail(value: i32) -> Seq<u8> {
    if 0 <= value <= SMALL_INT_MAX {
        seq![value as u8]
    } else if -0x8000 <= value <= 0x7FFF {
        seq![OP_INT16] + be_bytes16(if value < 0 { value + 0x1_0000 } else { value as int })
    } else {
        seq![OP_INT32] + be_bytes32(pattern32(value as int))
    }
}

/// The command that writes the integer `value`.
pub open spec fn set_int_wire(id: i32, value: i32) -> Seq<u8> {
    addressed(id, OP_NODE_ID, None) + int_tail(value)
}

/// Appends the four bytes of `id` to `buf`, each `0xDF` among them followed
/// by `0xDE`.
fn push_id(id: i32, buf: &mut Vec<u8>)
    ensures
        final(buf)@ == old(buf)@ + id_wire(id),
{
    let bytes = be_bytes_u32(pattern_of(id));
    push_escaped(buf, bytes[0]);
    push_escaped(buf, bytes[1]);
    push_escaped(buf, bytes[2]);
    push_escaped(buf, bytes[3]);
    assert(buf@ =~= old(buf)@ + id_wire(id));
}

/// Appends to `buf` the prefix, the id in four bytes with each `0xDF` among
/// them followed by `0xDE`, and the suffix if there is one.
pub fn format_id(id: i32, buf: &mut Vec<u8>, prefix: u8, suffix: Option<u8>)
    ensures
        final(buf)@ == old(buf)@ + addressed(id, prefix, suffix),
{
    buf.push(prefix);
    push_id(id, buf);
    if let Some(s) = suffix {
        buf.push(s);
    }
    assert(buf@ =~= old(buf)@ + addressed(id, prefix, suffix));
}

/// The id goes out in the escaped form of its four bytes, so that decoding
/// gives them back.
pub proof fn lemma_id_wire_escaped(id: i32)
    ensures
        id_wire(id) == escaped(be_bytes32(pattern32(id as int))),
{
    let b = be_bytes32(pattern32(id as int));
    reveal_with_fuel(escaped, 5);
    assert(b.skip(1).skip(1).skip(1).skip(1) =~= Seq::<u8>::empty());
    assert(escaped(b) =~= id_wire(id));
}

/// The command that asks for the definition of node `id`, or of the root's
/// children where `id` is 0.
pub fn node_definition_request(id: i32) -> (wire: Vec<u8>)
    ensures
        wire@ == request_wire(id, OP_REQUEST_DEFINITION),
{
    request(id, OP_REQUEST_DEFINITION)
}

/// The command that asks for the data of node `id`.
pub fn node_data_request(id: i32) -> (wire: Vec<u8>)
    ensures
        wire@ == request_wire(id, OP_REQUEST_DATA),
{
    request(id, OP_REQUEST_DATA)
}

fn request(id: i32, op: u8) -> (wire: Vec<u8>)
    ensures
        wire@ == request_wire(id, op),
{
    let mut buf = Vec::new();
    if id == 0 {
        buf.push(OP_GOTO_ROOT);
        buf.push(op);
        assert(buf@ =~= request_wire(id, op));
    } else {
        format_id(id, &mut buf, OP_NODE_ID, Some(op));
        assert(buf@ =~= request_wire(id, op));
    }
    buf
}

/// The command that sets node `id` to the string `value`. A string of more
/// than `MAX_STRING_LEN` bytes has no encoding and is refused with
/// `InvalidData`.
pub fn string_write(id: i32, value: &str) -> (r: Result<Vec<u8>, Error>)
    ensures
        r is Ok <==> encode_utf8(value@).len() <= MAX_STRING_LEN,
        r matches Ok(wire) ==> wire@ == set_string_wire(id, encode_utf8(value@)),
        r matches Err(e) ==> e == Error::InvalidData,
{
    let bytes = value.as_bytes();
    let len = bytes.len();
    if len > MAX_STRING_LEN {
        return Err(Error::InvalidData);
    }
    let mut buf = Vec::new();
    format_id(id, &mut buf, OP_NODE_ID, None);
    if len == 0 {
        buf.push(OP_EMPTY_STRING);
    } else if len <= MAX_SHORT_STRING_LEN {
        buf.push(INDEX_HINT_MAX + len as u8);
    } else {
        buf.push(OP_LONG_STRING);
        buf.push((len - 1) as u8);
    }
    buf.extend_from_slice(bytes);
    assert(buf@ =~= set_string_wire(id, encode_utf8(value@)));
    Ok(buf)
}

/// The command that sets node `id` to the float whose 32-bit pattern is
/// `bits`.
pub fn float_write(id: i32, bits: u32) -> (wire: Vec<u8>)
    ensures
        wire@ == set_float_wire(id, bits),
{
    let mut buf = Vec::new();
    format_id(id, &mut buf, OP_NODE_ID, Some(OP_FLOAT));
    let bytes = be_bytes_u32(bits);
    buf.push(bytes[0]);
    buf.push(bytes[1]);
    buf.push(bytes[2]);
    buf.push(bytes[3]);
    assert(buf@ =~= set_float_wire(id, bits));
    buf
}

/// The command that sets node `id` to the integer `value`.
pub fn int_write(id: i32, value: i32) -> (wire: Vec<u8>)
    ensures
        wire@ == set_int_wire(id, value),
{
    let mut buf = Vec::new();
    format_id(id, &mut buf, OP_NODE_ID, None);
    let bytes = be_bytes_u32(pattern_of(value));
    if 0 <= value && value <= SMALL_INT_MAX as i32 {
        buf.push(value as u8);
    } else if -32768 <= value && value <= 32767 {
        buf.push(OP_INT16);
        buf.push(bytes[2]);
        buf.push(bytes[3]);
        assert(be_bytes16(if value < 0 { value + 0x1_0000 } else { value as int }) =~= seq![
            bytes[2],
            bytes[3],
        ]);
    } else {
        buf.push(OP_INT32);
        buf.push(bytes[0]);
        buf.push(bytes[1]);
        buf.push(bytes[2]);
        buf.push(bytes[3]);
    }
    assert(buf@ =~= set_int_wire(id, value));
    buf
}

/// An id that was written is decoded to its four bytes, whatever they are,
/// and leaves the decoder as it was.
pub proof fn lemma_id_round_trip(id: i32, channel: i8)
    ensures
        RxCodec::clean(channel).decoded(id_wire(id)) == be_bytes32(pattern32(id as int)),
        RxCodec::clean(channel).settled(id_wire(id)) == RxCodec::clean(channel),
{
    lemma_id_wire_escaped(id);
    lemma_escape_round_trip(be_bytes32(pattern32(id as int)), channel);
}

/// What `set_int` writes after the id is a data frame that holds the
/// integer.
pub proof fn lemma_int_round_trip(node: i32, value: i32)
    ensures
        meaning(int_tail(value), node) == Meaning::Emit(
            WingResponseView::NodeData(node, Payload::Int(value)),
        ),
{
    let whole = int_tail(value);
    if 0 <= value <= SMALL_INT_MAX {
        assert(whole.len() == 1 && whole[0] == value);
    } else if -0x8000 <= value <= 0x7FFF {
        assert(whole.len() == 3 && whole[0] == OP_INT16);
        assert(signed16(u16_at(whole, 1)) == value);
    } else {
        assert(whole.len() == 5 && whole[0] == OP_INT32);
        assert(signed32(u32_at(whole, 1)) == value);
    }
}

/// What `set_float` writes after the id is a data frame that holds the
/// float.
pub proof fn lemma_float_round_trip(node: i32, bits: u32)
    ensures
        meaning(seq![OP_FLOAT] + be_bytes32(bits as int), node) == Meaning::Emit(
            WingResponseView::NodeData(node, Payload::Float(bits)),
        ),
{
    let whole = seq![OP_FLOAT] + be_bytes32(bits as int);
    assert(whole.len() == 5 && whole[0] == OP_FLOAT);
    assert(u32_at(whole, 1) == bits);
}

/// What `set_string` writes after the id is a data frame that holds the
/// string.
pub proof fn lemma_string_round_trip(node: i32, text: Seq<char>)
    requires
        encode_utf8(text).len() <= MAX_STRING_LEN,
    ensures
        meaning(string_head(encode_utf8(text).len() as int) + encode_utf8(text), node)
            == Meaning::Emit(WingResponseView::NodeData(node, Payload::Text(text))),
{
    let bytes = encode_utf8(text);
    let head = string_head(bytes.len() as int);
    let whole = head + bytes;
    encode_utf8_valid_utf8(text);
    encode_utf8_decode_utf8(text);
    assert(whole.skip(head.len() as int) =~= bytes);
    assert(whole[0] == head[0]);
    if bytes.len() == 0 {
        assert(whole.len() == 1);
    } else if bytes.len() <= MAX_SHORT_STRING_LEN {
        assert(head.len() == 1 && head[0] == INDEX_HINT_MAX + bytes.len());
    } else {
        assert(head.len() == 2 && whole[1] == head[1] && head[1] == bytes.len() - 1);
    }
    assert(string_meaning(bytes, node) == Meaning::Emit(
        WingResponseView::NodeData(node, Payload::Text(text)),
    ));
}

} // verus!
