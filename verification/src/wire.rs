//! Big-endian numbers and length-counted strings as they lie in a buffer of
//! decoded bytes.
use vstd::prelude::*;
use vstd::slice::{slice_subrange, slice_to_vec};
use vstd::utf8::*;

verus! {

/// Whether `n` bytes starting at `at` lie inside `s`.
pub open spec fn fits(s: Seq<u8>, at: int, n: int) -> bool {
    0 <= at && 0 <= n && at + n <= s.len()
}

/// The unsigned value of two bytes, most significant first.
pub open spec fn be16(b0: u8, b1: u8) -> int {
    b0 as int * 256 + b1 as int
}

/// The unsigned value of four bytes, most significant first.
pub open spec fn be32(b0: u8, b1: u8, b2: u8, b3: u8) -> int {
    ((b0 as int * 256 + b1 as int) * 256 + b2 as int) * 256 + b3 as int
}

/// The two's-complement reading of an 8-bit pattern.
pub open spec fn signed8(v: int) -> int {
    if v < 0x80 { v } else { v - 0x100 }
}

/// The two's-complement reading of a 16-bit pattern.
pub open spec fn signed16(v: int) -> int {
    if v < 0x8000 { v } else { v - 0x1_0000 }
}

/// The two's-complement reading of a 32-bit pattern.
pub open spec fn signed32(v: int) -> int {
    if v < 0x8000_0000 { v } else { v - 0x1_0000_0000 }
}

/// The 32-bit pattern that stands for a signed value.
pub open spec fn pattern32(v: int) -> int {
    if v < 0 { v + 0x1_0000_0000 } else { v }
}

/// The unsigned 16-bit number at `at`.
pub open spec fn u16_at(s: Seq<u8>, at: int) -> int {
    be16(s[at], s[at + 1])
}

/// The unsigned 32-bit number at `at`.
pub open spec fn u32_at(s: Seq<u8>, at: int) -> int {
    be32(s[at], s[at + 1], s[at + 2], s[at + 3])
}

/// The four bytes of a 32-bit pattern, most significant first.
pub open spec fn be_bytes32(p: int) -> Seq<u8> {
    seq![
        (p / 0x100_0000) as u8,
        (p / 0x1_0000 % 0x100) as u8,
        (p / 0x100 % 0x100) as u8,
        (p % 0x100) as u8,
    ]
}

/// The two bytes of a 16-bit pattern, most significant first.
pub open spec fn be_bytes16(p: int) -> Seq<u8> {
    seq![(p / 0x100) as u8, (p % 0x100) as u8]
}

/// Reading back the bytes of a 32-bit pattern gives the pattern.
pub proof fn lemma_be32_of_bytes(p: int)
    requires
        0 <= p < 0x1_0000_0000,
    ensures
        be_bytes32(p).len() == 4,
        u32_at(be_bytes32(p), 0) == p,
{
}

/// Reading back the bytes of a 16-bit pattern gives the pattern.
pub proof fn lemma_be16_of_bytes(p: int)
    requires
        0 <= p < 0x1_0000,
    ensures
        be_bytes16(p).len() == 2,
        u16_at(be_bytes16(p), 0) == p,
{
}

/// A signed 32-bit value survives the trip through its pattern.
pub proof fn lemma_signed_pattern32(v: int)
    requires
        -0x8000_0000 <= v < 0x8000_0000,
    ensures
        0 <= pattern32(v) < 0x1_0000_0000,
        signed32(pattern32(v)) == v,
{
}

/// The four bytes of a 32-bit pattern, most significant first.
pub fn be_bytes_u32(v: u32) -> (r: [u8; 4])
    ensures
        r@ == be_bytes32(v as int),
{
    let b0 = (v >> 24) as u8;
    let b1 = ((v >> 16) & 0xFF) as u8;
    let b2 = ((v >> 8) & 0xFF) as u8;
    let b3 = (v & 0xFF) as u8;
    assert(b0 == v / 0x100_0000 && b1 == v / 0x1_0000 % 0x100 && b2 == v / 0x100 % 0x100 && b3 == v
        % 0x100) by (bit_vector)
        requires
            b0 == (v >> 24) as u8,
            b1 == ((v >> 16) & 0xFF) as u8,
            b2 == ((v >> 8) & 0xFF) as u8,
            b3 == (v & 0xFF) as u8,
    ;
    let r = [b0, b1, b2, b3];
    assert(r@ =~= be_bytes32(v as int));
    r
}

/// The two bytes of a 16-bit pattern, most significant first.
pub fn be_bytes_u16(v: u16) -> (r: [u8; 2])
    ensures
        r@ == be_bytes16(v as int),
{
    let b0 = (v >> 8) as u8;
    let b1 = (v & 0xFF) as u8;
    assert(b0 == v / 0x100 && b1 == v % 0x100) by (bit_vector)
        requires
            b0 == (v >> 8) as u8,
            b1 == (v & 0xFF) as u8,
    ;
    let r = [b0, b1];
    assert(r@ =~= be_bytes16(v as int));
    r
}

/// The 32-bit pattern of a signed value.
pub fn pattern_of(v: i32) -> (p: u32)
    ensures
        p == pattern32(v as int),
{
    let p = v as u32;
    assert(p == (if v < 0 { v + 0x1_0000_0000 } else { v as int })) by (bit_vector)
        requires
            p == v as u32,
    ;
    p
}

/// The byte at `at`, if there is one.
pub fn read_u8(buf: &[u8], at: usize) -> (r: Option<u8>)
    ensures
        r is Some <==> fits(buf@, at as int, 1),
        r matches Some(v) ==> v == buf@[at as int],
{
    if at < buf.len() {
        Some(buf[at])
    } else {
        None
    }
}

/// The byte at `at` read as a signed number.
pub fn read_i8(buf: &[u8], at: usize) -> (r: Option<i8>)
    ensures
        r is Some <==> fits(buf@, at as int, 1),
        r matches Some(v) ==> v == signed8(buf@[at as int] as int),
{
    match read_u8(buf, at) {
        Some(b) => {
            let v = b as i8;
            assert(v == (if b < 0x80u8 { b as int } else { b as int - 0x100 })) by (bit_vector)
                requires
                    v == b as i8,
            ;
            Some(v)
        },
        None => None,
    }
}

/// The unsigned 16-bit number at `at`.
pub fn read_u16(buf: &[u8], at: usize) -> (r: Option<u16>)
    ensures
        r is Some <==> fits(buf@, at as int, 2),
        r matches Some(v) ==> v == u16_at(buf@, at as int),
{
    if at < buf.len() && buf.len() - at >= 2 {
        let a = buf[at];
        let b = buf[at + 1];
        let v = ((a as u16) << 8) | (b as u16);
        assert(v == a as int * 256 + b as int) by (bit_vector)
            requires
                v == ((a as u16) << 8) | (b as u16),
        ;
        Some(v)
    } else {
        None
    }
}

/// The signed 16-bit number at `at`.
pub fn read_i16(buf: &[u8], at: usize) -> (r: Option<i16>)
    ensures
        r is Some <==> fits(buf@, at as int, 2),
        r matches Some(v) ==> v == signed16(u16_at(buf@, at as int)),
{
    match read_u16(buf, at) {
        Some(u) => {
            let v = u as i16;
            assert(v == (if u < 0x8000u16 { u as int } else { u as int - 0x1_0000 }))
                by (bit_vector)
                requires
                    v == u as i16,
            ;
            Some(v)
        },
        None => None,
    }
}

/// The unsigned 32-bit number at `at`.
pub fn read_u32(buf: &[u8], at: usize) -> (r: Option<u32>)
    ensures
        r is Some <==> fits(buf@, at as int, 4),
        r matches Some(v) ==> v == u32_at(buf@, at as int),
{
    if at < buf.len() && buf.len() - at >= 4 {
        let a = buf[at];
        let b = buf[at + 1];
        let c = buf[at + 2];
        let d = buf[at + 3];
        let v = ((a as u32) << 24) | ((b as u32) << 16) | ((c as u32) << 8) | (d as u32);
        assert(v == ((a as int * 256 + b as int) * 256 + c as int) * 256 + d as int)
            by (bit_vector)
            requires
                v == ((a as u32) << 24) | ((b as u32) << 16) | ((c as u32) << 8) | (d as u32),
        ;
        Some(v)
    } else {
        None
    }
}

/// The signed 32-bit number at `at`.
pub fn read_i32(buf: &[u8], at: usize) -> (r: Option<i32>)
    ensures
        r is Some <==> fits(buf@, at as int, 4),
        r matches Some(v) ==> v == signed32(u32_at(buf@, at as int)),
{
    match read_u32(buf, at) {
        Some(u) => {
            let v = u as i32;
            assert(v == (if u < 0x8000_0000u32 { u as int } else { u as int - 0x1_0000_0000 }))
                by (bit_vector)
                requires
                    v == u as i32,
            ;
            Some(v)
        },
        None => None,
    }
}

/// The IEEE-754 single-precision number at `at`, as its 32-bit pattern.
pub fn read_f(buf: &[u8], at: usize) -> (r: Option<u32>)
    ensures
        r is Some <==> fits(buf@, at as int, 4),
        r matches Some(v) ==> v == u32_at(buf@, at as int),
{
    read_u32(buf, at)
}

/// `String::from_utf8` of std: a string is made exactly when the bytes are
/// well-formed UTF-8, and it then holds the characters that they encode.
#[verifier::external_body]
pub(crate) fn string_from_utf8(bytes: Vec<u8>) -> (r: Option<String>)
    ensures
        r is Some <==> valid_utf8(bytes@),
        r matches Some(s) ==> s@ == decode_utf8(bytes@),
{
    match String::from_utf8(bytes) {
        Ok(s) => Some(s),
        Err(_) => None,
    }
}

/// The text that well-formed UTF-8 stands for.
pub(crate) fn text_of_utf8(bytes: Vec<u8>) -> (s: String)
    requires
        valid_utf8(bytes@),
    ensures
        s@ == decode_utf8(bytes@),
{
    match string_from_utf8(bytes) {
        Some(s) => s,
        None => vstd::pervasive::unreached(),
    }
}

/// The `len` bytes at `at` as a string.
pub fn read_string(buf: &[u8], at: usize, len: usize) -> (r: Option<String>)
    ensures
        r is Some <==> fits(buf@, at as int, len as int) && valid_utf8(
            buf@.subrange(at as int, at + len),
        ),
        r matches Some(s) ==> s@ == decode_utf8(buf@.subrange(at as int, at + len)),
{
    if at <= buf.len() && buf.len() - at >= len {
        let bytes = slice_to_vec(slice_subrange(buf, at, at + len));
        string_from_utf8(bytes)
    } else {
        None
    }
}

} // verus!
