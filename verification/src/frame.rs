//! The frames of the decoded stream: how long the frame that an opcode leads
//! is, and what a whole frame means.
use vstd::prelude::*;
use vstd::utf8::*;
use crate::node::{parsed, Payload, WingNodeData, WingNodeDef};
use crate::response::{WingResponse, WingResponseView};
use crate::wire::{
    read_f, read_i16, read_i32, read_string, read_u16, signed16, signed32, u16_at, u32_at,
};

verus! {

/// The last opcode that is a small integer by itself.
pub const SMALL_INT_MAX: u8 = 0x3F;

/// The last opcode that is a node-index hint by itself.
pub const INDEX_HINT_MAX: u8 = 0x7F;

/// The last opcode of a short string; one of `n` bytes has opcode `0x7F + n`.
pub const SHORT_STRING_MAX: u8 = 0xBF;

/// The last opcode of a medium string; one of `n` bytes has opcode `0xBF + n`.
pub const MEDIUM_STRING_MAX: u8 = 0xCF;

pub const OP_EMPTY_STRING: u8 = 0xD0;

/// A string whose length less one follows in one byte.
pub const OP_LONG_STRING: u8 = 0xD1;

/// A node-index hint in 16 bits.
pub const OP_INDEX_HINT: u8 = 0xD2;

pub const OP_INT16: u8 = 0xD3;

pub const OP_INT32: u8 = 0xD4;

pub const OP_FLOAT: u8 = 0xD5;

/// A float too; told apart from `OP_FLOAT` by nothing that is known.
pub const OP_FLOAT_ALT: u8 = 0xD6;

/// Sets the node that data frames speak of.
pub const OP_NODE_ID: u8 = 0xD7;

pub const OP_CLICK: u8 = 0xD8;

pub const OP_STEP: u8 = 0xD9;

pub const OP_GOTO_ROOT: u8 = 0xDA;

pub const OP_GO_UP: u8 = 0xDB;

pub const OP_REQUEST_DATA: u8 = 0xDC;

pub const OP_REQUEST_DEFINITION: u8 = 0xDD;

pub const OP_REQUEST_END: u8 = 0xDE;

/// Leads a node definition: a 16-bit length, then the definition. The bytes
/// above it are no opcodes and are passed over.
pub const OP_DEFINITION: u8 = 0xDF;

/// How many bytes the frame that begins with `head` has, opcode included.
/// `None` where `head` is too short to tell: it is empty, or it ends before
/// the length that follows the opcode of a long string or a definition.
pub open spec fn frame_len(head: Seq<u8>) -> Option<int> {
    if head.len() == 0 {
        None
    } else {
        let c = head[0];
        if c <= INDEX_HINT_MAX {
            Some(1)
        } else if c <= SHORT_STRING_MAX {
            Some(1 + (c - INDEX_HINT_MAX))
        } else if c <= MEDIUM_STRING_MAX {
            Some(1 + (c - SHORT_STRING_MAX))
        } else if c == OP_EMPTY_STRING {
            Some(1)
        } else if c == OP_LONG_STRING {
            if head.len() < 2 {
                None
            } else {
                Some(2 + head[1] + 1)
            }
        } else if c == OP_INDEX_HINT || c == OP_INT16 {
            Some(3)
        } else if c <= OP_NODE_ID {
            Some(5)
        } else if c == OP_STEP {
            Some(2)
        } else if c != OP_DEFINITION {
            Some(1)
        } else if head.len() < 3 {
            None
        } else if u16_at(head, 1) == 0 {
            Some(7)
        } else {
            Some(3 + u16_at(head, 1))
        }
    }
}

/// Whether `frame` is one whole frame: no byte short and none over.
pub open spec fn complete(frame: Seq<u8>) -> bool {
    frame_len(frame) == Some(frame.len() as int)
}

/// Whether `frame` is the beginning of a frame with at least one byte to come.
pub open spec fn partial(frame: Seq<u8>) -> bool {
    match frame_len(frame) {
        Some(n) => frame.len() < n,
        None => true,
    }
}

/// What a whole frame means to the one who reads it.
pub enum Meaning {
    /// It is handed to the caller as this event.
    Emit(WingResponseView),
    /// It names the node that the data frames after it speak of.
    Select(i32),
    /// It asks nothing of a client.
    Silent,
    /// It holds a string or a definition that cannot be read.
    Invalid,
}

/// The data frame of a string whose bytes are `bytes`.
pub open spec fn string_meaning(bytes: Seq<u8>, node: i32) -> Meaning {
    if valid_utf8(bytes) {
        Meaning::Emit(WingResponseView::NodeData(node, Payload::Text(decode_utf8(bytes))))
    } else {
        Meaning::Invalid
    }
}

/// What `frame` means while `node` is the current node. A frame that is not
/// whole has no meaning and counts as invalid.
pub open spec fn meaning(frame: Seq<u8>, node: i32) -> Meaning {
    if !complete(frame) {
        Meaning::Invalid
    } else {
        let c = frame[0];
        if c <= SMALL_INT_MAX {
            Meaning::Emit(WingResponseView::NodeData(node, Payload::Int(c as i32)))
        } else if c <= INDEX_HINT_MAX {
            Meaning::Silent
        } else if c <= OP_EMPTY_STRING {
            string_meaning(frame.skip(1), node)
        } else if c == OP_LONG_STRING {
            string_meaning(frame.skip(2), node)
        } else if c == OP_INDEX_HINT {
            Meaning::Silent
        } else if c == OP_INT16 {
            Meaning::Emit(
                WingResponseView::NodeData(node, Payload::Int(signed16(u16_at(frame, 1)) as i32)),
            )
        } else if c == OP_INT32 {
            Meaning::Emit(
                WingResponseView::NodeData(node, Payload::Int(signed32(u32_at(frame, 1)) as i32)),
            )
        } else if c == OP_FLOAT || c == OP_FLOAT_ALT {
            Meaning::Emit(WingResponseView::NodeData(node, Payload::Float(u32_at(frame, 1) as u32)))
        } else if c == OP_NODE_ID {
            Meaning::Select(signed32(u32_at(frame, 1)) as i32)
        } else if c < OP_REQUEST_END {
            Meaning::Silent
        } else if c == OP_REQUEST_END {
            Meaning::Emit(WingResponseView::RequestEnd)
        } else if c == OP_DEFINITION {
            match parsed(definition_bytes(frame)) {
                Some(def) => Meaning::Emit(WingResponseView::NodeDef(def)),
                None => Meaning::Invalid,
            }
        } else {
            Meaning::Silent
        }
    }
}

/// The definition sub-frame of a definition frame: what follows the 16-bit
/// length, as many bytes as it says. Where it says 0, four more bytes are
/// passed over and the sub-frame is empty.
pub open spec fn definition_bytes(frame: Seq<u8>) -> Seq<u8> {
    if u16_at(frame, 1) == 0 {
        Seq::empty()
    } else {
        frame.skip(3)
    }
}

/// Every opcode leads a frame whose length is known: it has from 1 to
/// 65538 bytes, and the first three of them tell how many at the latest;
/// all opcodes but those of the long string and of the definition tell by
/// themselves.
pub proof fn lemma_frame_len_known(head: Seq<u8>)
    ensures
        head.len() >= 3 ==> frame_len(head) is Some,
        head.len() >= 1 && head[0] != OP_LONG_STRING && head[0] != OP_DEFINITION ==> frame_len(
            head,
        ) is Some,
        frame_len(head) matches Some(n) ==> 1 <= n <= 0x1_0002,
{
}

/// A frame, once it got longer, is still as long as it said.
pub proof fn lemma_frame_len_stable(head: Seq<u8>, byte: u8)
    ensures
        frame_len(head) is Some ==> frame_len(head.push(byte)) == frame_len(head),
        partial(head) ==> partial(head.push(byte)) || complete(head.push(byte)),
{
    if head.len() > 0 {
        assert(head.push(byte)[0] == head[0]);
    }
    if head.len() > 1 {
        assert(head.push(byte)[1] == head[1]);
    }
    if head.len() > 2 {
        assert(head.push(byte)[2] == head[2]);
    }
}

/// What a frame was found to mean.
#[derive(Debug)]
pub enum Frame {
    /// It is handed to the caller as this event.
    Emit(WingResponse),
    /// It names the node that the data frames after it speak of.
    Select(i32),
    /// It asks nothing of a client.
    Silent,
    /// It holds a string or a definition that cannot be read, or is not whole.
    Invalid,
}

impl View for Frame {
    type V = Meaning;

    open spec fn view(&self) -> Meaning {
        match self {
            Frame::Emit(r) => Meaning::Emit(r@),
            Frame::Select(id) => Meaning::Select(*id),
            Frame::Silent => Meaning::Silent,
            Frame::Invalid => Meaning::Invalid,
        }
    }
}

/// How many bytes the frame that begins with `head` has, opcode included, or
/// `None` where `head` is too short to tell.
pub fn expected_len(head: &[u8]) -> (r: Option<usize>)
    ensures
        r is Some <==> frame_len(head@) is Some,
        r matches Some(n) ==> n == frame_len(head@)->0,
{
    if head.len() == 0 {
        return None;
    }
    let c = head[0];
    if c <= INDEX_HINT_MAX {
        Some(1)
    } else if c <= SHORT_STRING_MAX {
        Some(1 + (c - INDEX_HINT_MAX) as usize)
    } else if c <= MEDIUM_STRING_MAX {
        Some(1 + (c - SHORT_STRING_MAX) as usize)
    } else if c == OP_EMPTY_STRING {
        Some(1)
    } else if c == OP_LONG_STRING {
        if head.len() < 2 {
            None
        } else {
            Some(2 + head[1] as usize + 1)
        }
    } else if c == OP_INDEX_HINT || c == OP_INT16 {
        Some(3)
    } else if c <= OP_NODE_ID {
        Some(5)
    } else if c == OP_STEP {
        Some(2)
    } else if c != OP_DEFINITION {
        Some(1)
    } else {
        match read_u16(head, 1) {
            None => None,
            Some(n) => if n == 0 {
                Some(7)
            } else {
                Some(3 + n as usize)
            },
        }
    }
}

/// The data frame of the string that lies in `frame` from `at` to its end.
fn string_frame(frame: &[u8], at: usize, node: i32) -> (r: Frame)
    requires
        at <= frame.len(),
    ensures
        r@ == string_meaning(frame@.skip(at as int), node),
{
    assert(frame@.skip(at as int) == frame@.subrange(at as int, at + (frame.len() - at)));
    match read_string(frame, at, frame.len() - at) {
        Some(s) => Frame::Emit(WingResponse::NodeData(node, WingNodeData::with_string(s))),
        None => Frame::Invalid,
    }
}

/// Finds what `frame` means while `node` is the current node.
pub fn interpret(frame: &[u8], node: i32) -> (r: Frame)
    ensures
        r@ == meaning(frame@, node),
{
    match expected_len(frame) {
        None => { return Frame::Invalid; },
        Some(n) => if n != frame.len() {
            return Frame::Invalid;
        },
    }
    let c = frame[0];
    if c <= SMALL_INT_MAX {
        Frame::Emit(WingResponse::NodeData(node, WingNodeData::with_i32(c as i32)))
    } else if c <= INDEX_HINT_MAX {
        Frame::Silent
    } else if c <= OP_EMPTY_STRING {
        string_frame(frame, 1, node)
    } else if c == OP_LONG_STRING {
        string_frame(frame, 2, node)
    } else if c == OP_INDEX_HINT {
        Frame::Silent
    } else if c == OP_INT16 {
        match read_i16(frame, 1) {
            Some(v) => Frame::Emit(WingResponse::NodeData(node, WingNodeData::with_i16(v))),
            None => Frame::Invalid,
        }
    } else if c == OP_INT32 {
        match read_i32(frame, 1) {
            Some(v) => Frame::Emit(WingResponse::NodeData(node, WingNodeData::with_i32(v))),
            None => Frame::Invalid,
        }
    } else if c == OP_FLOAT || c == OP_FLOAT_ALT {
        match read_f(frame, 1) {
            Some(v) => Frame::Emit(WingResponse::NodeData(node, WingNodeData::with_float(v))),
            None => Frame::Invalid,
        }
    } else if c == OP_NODE_ID {
        match read_i32(frame, 1) {
            Some(v) => Frame::Select(v),
            None => Frame::Invalid,
        }
    } else if c < OP_REQUEST_END {
        Frame::Silent
    } else if c == OP_REQUEST_END {
        Frame::Emit(WingResponse::RequestEnd)
    } else if c != OP_DEFINITION {
        Frame::Silent
    } else {
        let at: usize = if frame.len() == 7 && frame[1] == 0 && frame[2] == 0 {
            7
        } else {
            3
        };
        assert(frame@.skip(at as int) == definition_bytes(frame@));
        match WingNodeDef::from_bytes(vstd::slice::slice_subrange(frame, at, frame.len())) {
            Ok(def) => Frame::Emit(WingResponse::NodeDef(def)),
            Err(_) => Frame::Invalid,
        }
    }
}

} // verus!
