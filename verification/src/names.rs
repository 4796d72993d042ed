//! Ids and names as text: numbers as they are written in property names
//! and in the table of names, and the name that a node gets where the table
//! has none.
use vstd::prelude::*;
use vstd::string::*;
use vstd::utf8::*;
use crate::discovery::{fields, lemma_fields_valid, split};
use crate::wire::text_of_utf8;

verus! {

/// The value of a digit in the given radix, which is at most 16; `None` for
/// any other byte. Letters count in either case.
pub open spec fn digit_of(b: u8, radix: int) -> Option<int> {
    let v: int = if 0x30 <= b <= 0x39 {
        b - 0x30
    } else if 0x61 <= b <= 0x66 {
        b - 0x61 + 10
    } else if 0x41 <= b <= 0x46 {
        b - 0x41 + 10
    } else {
        16
    };
    if v < radix {
        Some(v)
    } else {
        None
    }
}

/// The number that a run of digits stands for; `None` where there is no
/// digit at all or one of the bytes is no digit.
pub open spec fn digits_value(s: Seq<u8>, radix: int) -> Option<int>
    decreases s.len(),
{
    if s.len() == 0 {
        None
    } else if digit_of(s.last(), radix) is None {
        None
    } else if s.len() == 1 {
        digit_of(s.last(), radix)
    } else {
        match digits_value(s.drop_last(), radix) {
            Some(v) => Some(v * radix + digit_of(s.last(), radix)->0),
            None => None,
        }
    }
}

/// The signed 32-bit number that a text stands for: decimal digits, with a
/// plus or minus sign before them or none. `None` where there is anything
/// else in the text, or no digit, or the number does not fit.
pub open spec fn parsed_i32(s: Seq<u8>) -> Option<i32> {
    let negative = s.len() > 0 && s[0] == 0x2D;
    let signed = negative || (s.len() > 0 && s[0] == 0x2B);
    let body = if signed { s.skip(1) } else { s };
    match digits_value(body, 10) {
        Some(v) => {
            let n = if negative { -v } else { v };
            if -0x8000_0000 <= n <= 0x7FFF_FFFF {
                Some(n as i32)
            } else {
                None
            }
        },
        None => None,
    }
}

/// The unsigned 32-bit number that a text stands for in hexadecimal
/// digits, with a plus sign before them or none. `None` where there is
/// anything else in the text, or no digit, or the number does not fit.
pub open spec fn parsed_hex_u32(s: Seq<u8>) -> Option<u32> {
    let body = if s.len() > 0 && s[0] == 0x2B { s.skip(1) } else { s };
    match digits_value(body, 16) {
        Some(v) => if v <= 0xFFFF_FFFF {
            Some(v as u32)
        } else {
            None
        },
        None => None,
    }
}

/// A run of digits stands for a number that is not negative and not less
/// than what any shorter beginning of the run stands for.
proof fn lemma_digits_grow(s: Seq<u8>, radix: int, i: int)
    requires
        2 <= radix <= 16,
        0 < i <= s.len(),
        digits_value(s, radix) is Some,
    ensures
        digits_value(s.take(i), radix) is Some,
        0 <= digits_value(s.take(i), radix)->0 <= digits_value(s, radix)->0,
    decreases s.len(),
{
    if i == s.len() {
        assert(s.take(i) =~= s);
        if s.len() > 1 {
            lemma_digits_grow(s.drop_last(), radix, i - 1);
            let v = digits_value(s.drop_last(), radix)->0;
            assert(v * radix >= 0) by (nonlinear_arith)
                requires
                    v >= 0,
                    radix >= 2,
            ;
        }
    } else {
        let front = s.drop_last();
        assert(front.take(i) =~= s.take(i));
        lemma_digits_grow(front, radix, i);
        lemma_digits_grow(front, radix, front.len() as int);
        let v = digits_value(front, radix)->0;
        assert(front.take(front.len() as int) =~= front);
        assert(v * radix >= v) by (nonlinear_arith)
            requires
                v >= 0,
                radix >= 2,
        ;
    }
}

/// The value of `b` as a digit in the given radix.
fn digit(b: u8, radix: u64) -> (d: Option<u64>)
    requires
        2 <= radix <= 16,
    ensures
        d is Some <==> digit_of(b, radix as int) is Some,
        d matches Some(v) ==> v == digit_of(b, radix as int)->0 && v < radix,
{
    let v: u64 = if 0x30 <= b && b <= 0x39 {
        (b - 0x30) as u64
    } else if 0x61 <= b && b <= 0x66 {
        (b - 0x61) as u64 + 10
    } else if 0x41 <= b && b <= 0x46 {
        (b - 0x41) as u64 + 10
    } else {
        16
    };
    if v < radix {
        Some(v)
    } else {
        None
    }
}

/// The number that the digits of `s` from `from` on stand for, if it is at
/// most `limit`.
fn read_digits(s: &[u8], from: usize, radix: u64, limit: u64) -> (r: Option<u64>)
    requires
        2 <= radix <= 16,
        from <= s.len(),
        limit <= 0x1_0000_0000,
    ensures
        r is Some <==> digits_value(s@.skip(from as int), radix as int) is Some && digits_value(
            s@.skip(from as int),
            radix as int,
        )->0 <= limit,
        r matches Some(v) ==> v == digits_value(s@.skip(from as int), radix as int)->0,
{
    let ghost body = s@.skip(from as int);
    if from == s.len() {
        return None;
    }
    let mut acc: u64 = 0;
    let mut i: usize = from;
    while i < s.len()
        invariant
            from <= i <= s.len(),
            2 <= radix <= 16,
            limit <= 0x1_0000_0000,
            body == s@.skip(from as int),
            acc <= limit,
            i == from ==> acc == 0,
            i > from ==> digits_value(body.take(i - from), radix as int) == Some(acc as int),
        decreases s.len() - i,
    {
        let ghost before = body.take(i - from);
        let ghost now = body.take(i - from + 1);
        proof {
            assert(now.drop_last() =~= before);
            assert(now.last() == s@[i as int]);
        }
        let d = match digit(s[i], radix) {
            Some(d) => d,
            None => {
                proof {
                    if digits_value(body, radix as int) is Some {
                        lemma_digits_grow(body, radix as int, i - from + 1);
                    }
                }
                return None;
            },
        };
        assert(acc * radix + d <= 0x1_0000_0000 * 16 + 16) by (nonlinear_arith)
            requires
                acc <= 0x1_0000_0000,
                radix <= 16,
                d < 16,
        ;
        acc = acc * radix + d;
        proof {
            assert(now.len() == i - from + 1);
            assert(digit_of(now.last(), radix as int) == Some(d as int));
            if i == from {
                assert(now.len() == 1);
            } else {
                assert(digits_value(now.drop_last(), radix as int) == digits_value(
                    before,
                    radix as int,
                ));
            }
            assert(digits_value(now, radix as int) == Some(acc as int));
        }
        if acc > limit {
            proof {
                if digits_value(body, radix as int) is Some {
                    lemma_digits_grow(body, radix as int, i - from + 1);
                }
            }
            return None;
        }
        i = i + 1;
    }
    proof {
        assert(body.take(i - from) =~= body);
    }
    Some(acc)
}

/// Reads `text` as a signed 32-bit number in decimal.
pub fn parse_i32(text: &str) -> (r: Option<i32>)
    ensures
        r == parsed_i32(encode_utf8(text@)),
{
    let s = text.as_bytes();
    let negative = s.len() > 0 && s[0] == 0x2D;
    let signed = negative || (s.len() > 0 && s[0] == 0x2B);
    let from: usize = if signed { 1 } else { 0 };
    assert(s@.skip(0) =~= s@);
    if negative {
        match read_digits(s, from, 10, 0x8000_0000) {
            Some(v) => Some((-(v as i64)) as i32),
            None => None,
        }
    } else {
        match read_digits(s, from, 10, 0x7FFF_FFFF) {
            Some(v) => Some(v as i32),
            None => None,
        }
    }
}

/// Reads `text` as an unsigned 32-bit number in hexadecimal.
pub fn parse_hex_u32(text: &[u8]) -> (r: Option<u32>)
    ensures
        r == parsed_hex_u32(text@),
{
    let from: usize = if text.len() > 0 && text[0] == 0x2B { 1 } else { 0 };
    assert(text@.skip(0) =~= text@);
    match read_digits(text, from, 16, 0xFFFF_FFFF) {
        Some(v) => Some(v as u32),
        None => None,
    }
}

/// What a line of a file of names says: the id in hexadecimal, a comma,
/// the name, and whatever follows the next comma. `None` where there is no
/// comma or what stands before it is no id.
pub open spec fn map_entry(line: Seq<u8>) -> Option<(u32, Seq<char>)> {
    if fields(line).len() < 2 {
        None
    } else {
        match parsed_hex_u32(fields(line)[0]) {
            Some(id) => Some((id, decode_utf8(fields(line)[1]))),
            None => None,
        }
    }
}

/// Reads a line of a file of names.
pub fn map_line(line: &str) -> (r: Option<(u32, String)>)
    ensures
        r is Some <==> map_entry(encode_utf8(line@)) is Some,
        r matches Some(e) ==> map_entry(encode_utf8(line@)) == Some((e.0, e.1@)),
{
    let bytes = line.as_bytes();
    let mut parts = split(bytes);
    if parts.len() < 2 {
        return None;
    }
    let id = match parse_hex_u32(parts[0].as_slice()) {
        Some(id) => id,
        None => { return None; },
    };
    proof {
        encode_utf8_valid_utf8(line@);
        lemma_fields_valid(bytes@);
    }
    Some((id, text_of_utf8(parts.swap_remove(1))))
}

/// The character of a hexadecimal digit, in capitals.
pub open spec fn hex_digit(d: int) -> char {
    if d == 0 {
        '0'
    } else if d == 1 {
        '1'
    } else if d == 2 {
        '2'
    } else if d == 3 {
        '3'
    } else if d == 4 {
        '4'
    } else if d == 5 {
        '5'
    } else if d == 6 {
        '6'
    } else if d == 7 {
        '7'
    } else if d == 8 {
        '8'
    } else if d == 9 {
        '9'
    } else if d == 10 {
        'A'
    } else if d == 11 {
        'B'
    } else if d == 12 {
        'C'
    } else if d == 13 {
        'D'
    } else if d == 14 {
        'E'
    } else {
        'F'
    }
}

/// A number in hexadecimal digits, with zeros before them where there are
/// fewer than `width`.
pub open spec fn hex(n: nat, width: nat) -> Seq<char>
    decreases n + width,
{
    if n < 16 && width <= 1 {
        seq![hex_digit(n as int)]
    } else {
        hex(n / 16, if width > 0 { (width - 1) as nat } else { 0 }).push(hex_digit((n % 16) as int))
    }
}

/// The name of a node that the table of names does not know: `node_` and
/// the id in six hexadecimal digits, or more where it needs them.
pub open spec fn default_name_of(id: u32) -> Seq<char> {
    "node_"@ + hex(id as nat, 6)
}

/// The text of one hexadecimal digit.
fn hex_digit_text(d: u32) -> (s: &'static str)
    requires
        d < 16,
    ensures
        s@ == seq![hex_digit(d as int)],
{
    proof {
        reveal_strlit("0");
        reveal_strlit("1");
        reveal_strlit("2");
        reveal_strlit("3");
        reveal_strlit("4");
        reveal_strlit("5");
        reveal_strlit("6");
        reveal_strlit("7");
        reveal_strlit("8");
        reveal_strlit("9");
        reveal_strlit("A");
        reveal_strlit("B");
        reveal_strlit("C");
        reveal_strlit("D");
        reveal_strlit("E");
        reveal_strlit("F");
    }
    let s = if d == 0 {
        "0"
    } else if d == 1 {
        "1"
    } else if d == 2 {
        "2"
    } else if d == 3 {
        "3"
    } else if d == 4 {
        "4"
    } else if d == 5 {
        "5"
    } else if d == 6 {
        "6"
    } else if d == 7 {
        "7"
    } else if d == 8 {
        "8"
    } else if d == 9 {
        "9"
    } else if d == 10 {
        "A"
    } else if d == 11 {
        "B"
    } else if d == 12 {
        "C"
    } else if d == 13 {
        "D"
    } else if d == 14 {
        "E"
    } else {
        "F"
    };
    assert(s@ =~= seq![hex_digit(d as int)]);
    s
}

/// Appends `n` in hexadecimal digits, `width` of them at least, to `out`.
fn push_hex(out: &mut String, n: u32, width: u32)
    ensures
        final(out)@ == old(out)@ + hex(n as nat, width as nat),
    decreases n + width,
{
    if n >= 16 || width > 1 {
        push_hex(out, n / 16, if width > 0 { width - 1 } else { 0 });
    }
    out.append(hex_digit_text(n % 16));
    assert(out@ =~= old(out)@ + hex(n as nat, width as nat));
}

/// The name of the node `id` where the table of names has none for it.
pub fn default_name(id: u32) -> (name: String)
    ensures
        name@ == default_name_of(id),
{
    let mut name = String::from_str("node_");
    push_hex(&mut name, id, 6);
    name
}

} // verus!
