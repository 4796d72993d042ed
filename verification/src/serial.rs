//! The wire form of a node definition, and the proof that parsing reads it
//! back.
use vstd::prelude::*;
use vstd::utf8::*;
use crate::node::{
    float_items_at, parsed, string_items_at, text_at, text_end, text_ok, FloatEnumItemView,
    NodeType, NodeUnit, StringEnumItemView, WingNodeDefView,
};
use crate::wire::{be_bytes16, be_bytes32, fits, pattern32, signed32, u16_at, u32_at};

verus! {

/// A text field: the number of its bytes in one byte, then its bytes.
pub open spec fn text_wire(t: Seq<char>) -> Seq<u8> {
    seq![encode_utf8(t).len() as u8] + encode_utf8(t)
}

/// Whether a text fits into a text field: its UTF-8 form has at most 255
/// bytes.
pub open spec fn text_fits(t: Seq<char>) -> bool {
    encode_utf8(t).len() <= 255
}

/// The flags word of a type, a unit and a read-only mark: the unit in bits 0
/// to 3, the type in bits 4 to 7, the mark in bit 8.
pub open spec fn flags_of(t: NodeType, u: NodeUnit, read_only: bool) -> int {
    (if read_only { 256int } else { 0int }) + t.code_of() * 16 + u.code_of()
}

/// The choices of a string enumeration, one after the other.
pub open spec fn string_items_wire(items: Seq<StringEnumItemView>) -> Seq<u8>
    decreases items.len(),
{
    if items.len() == 0 {
        Seq::empty()
    } else {
        text_wire(items[0].item) + text_wire(items[0].long_item) + string_items_wire(
            items.skip(1),
        )
    }
}

/// The choices of a float enumeration, one after the other.
pub open spec fn float_items_wire(items: Seq<FloatEnumItemView>) -> Seq<u8>
    decreases items.len(),
{
    if items.len() == 0 {
        Seq::empty()
    } else {
        be_bytes32(items[0].item as int) + text_wire(items[0].long_item) + float_items_wire(
            items.skip(1),
        )
    }
}

/// What follows the flags word: the fields that the node's type asks for.
pub open spec fn tail_wire(d: WingNodeDefView) -> Seq<u8> {
    match d.node_type {
        NodeType::Node | NodeType::FaderLevel => Seq::empty(),
        NodeType::String => be_bytes16(d.max_string_len->0 as int),
        NodeType::LinearFloat | NodeType::LogarithmicFloat => be_bytes32(d.min_float->0 as int)
            + be_bytes32(d.max_float->0 as int) + be_bytes32(pattern32(d.steps->0 as int)),
        NodeType::Integer => be_bytes32(pattern32(d.min_int->0 as int)) + be_bytes32(
            pattern32(d.max_int->0 as int),
        ),
        NodeType::StringEnum => be_bytes16(d.string_enum->0.len() as int) + string_items_wire(
            d.string_enum->0,
        ),
        NodeType::FloatEnum => be_bytes16(d.float_enum->0.len() as int) + float_items_wire(
            d.float_enum->0,
        ),
    }
}

/// What stands before the tail: parent id, id, index, name, long name and
/// flags.
pub open spec fn head_wire(d: WingNodeDefView) -> Seq<u8> {
    be_bytes32(pattern32(d.parent_id as int)) + be_bytes32(pattern32(d.id as int)) + be_bytes16(
        d.index as int,
    ) + text_wire(d.name) + text_wire(d.long_name) + be_bytes16(
        flags_of(d.node_type, d.unit, d.read_only),
    )
}

/// The bytes of the definition sub-frame that describes `d`.
pub open spec fn serialized(d: WingNodeDefView) -> Seq<u8> {
    head_wire(d) + tail_wire(d)
}

/// Whether a definition has a wire form: it is well-formed, each of its
/// texts fits into a text field, and an enumeration has at most 65535
/// choices.
pub open spec fn encodable(d: WingNodeDefView) -> bool {
    &&& d.wf()
    &&& text_fits(d.name)
    &&& text_fits(d.long_name)
    &&& d.string_enum matches Some(items) ==> items.len() <= 0xFFFF && forall|i: int|
        0 <= i < items.len() ==> text_fits(#[trigger] items[i].item) && text_fits(
            items[i].long_item,
        )
    &&& d.float_enum matches Some(items) ==> items.len() <= 0xFFFF && forall|i: int|
        0 <= i < items.len() ==> text_fits(#[trigger] items[i].long_item)
}

/// Whether the bytes `x` lie in `s` from `at` on.
pub open spec fn lies_at(s: Seq<u8>, at: int, x: Seq<u8>) -> bool {
    fits(s, at, x.len() as int) && s.subrange(at, at + x.len()) == x
}

proof fn lemma_lies_split(s: Seq<u8>, at: int, x: Seq<u8>, y: Seq<u8>)
    requires
        lies_at(s, at, x + y),
    ensures
        lies_at(s, at, x),
        lies_at(s, at + x.len(), y),
{
    let whole = s.subrange(at, at + (x + y).len());
    assert(s.subrange(at, at + x.len()) =~= whole.subrange(0, x.len() as int));
    assert(whole.subrange(0, x.len() as int) =~= x);
    assert(s.subrange(at + x.len(), at + x.len() + y.len()) =~= whole.subrange(
        x.len() as int,
        (x + y).len() as int,
    ));
    assert(whole.subrange(x.len() as int, (x + y).len() as int) =~= y);
}

proof fn lemma_u32_lies(s: Seq<u8>, at: int, p: int)
    requires
        0 <= p < 0x1_0000_0000,
        lies_at(s, at, be_bytes32(p)),
    ensures
        fits(s, at, 4),
        u32_at(s, at) == p,
{
    let x = s.subrange(at, at + 4);
    assert(x[0] == s[at] && x[1] == s[at + 1] && x[2] == s[at + 2] && x[3] == s[at + 3]);
}

proof fn lemma_u16_lies(s: Seq<u8>, at: int, p: int)
    requires
        0 <= p < 0x1_0000,
        lies_at(s, at, be_bytes16(p)),
    ensures
        fits(s, at, 2),
        u16_at(s, at) == p,
{
    let x = s.subrange(at, at + 2);
    assert(x[0] == s[at] && x[1] == s[at + 1]);
}

proof fn lemma_text_lies(s: Seq<u8>, at: int, t: Seq<char>)
    requires
        text_fits(t),
        lies_at(s, at, text_wire(t)),
    ensures
        text_ok(s, at),
        text_at(s, at) == t,
        text_end(s, at) == at + text_wire(t).len(),
{
    let enc = encode_utf8(t);
    let x = s.subrange(at, at + text_wire(t).len());
    assert(x[0] == s[at]);
    assert(text_wire(t)[0] == enc.len() as u8);
    assert(s.subrange(at + 1, at + 1 + enc.len()) =~= x.subrange(1, 1 + enc.len() as int));
    assert(text_wire(t).subrange(1, 1 + enc.len() as int) =~= enc);
    encode_utf8_valid_utf8(t);
    encode_utf8_decode_utf8(t);
}

proof fn lemma_string_items_lie(s: Seq<u8>, at: int, items: Seq<StringEnumItemView>)
    requires
        lies_at(s, at, string_items_wire(items)),
        forall|i: int|
            0 <= i < items.len() ==> text_fits(#[trigger] items[i].item) && text_fits(
                items[i].long_item,
            ),
    ensures
        string_items_at(s, at, items.len()) == Some(items),
    decreases items.len(),
{
    if items.len() == 0 {
        assert(items =~= Seq::empty());
    } else {
        let a = text_wire(items[0].item);
        let b = text_wire(items[0].long_item);
        let rest = string_items_wire(items.skip(1));
        assert(items[0].item == items[0].item);
        assert(a + b + rest =~= a + (b + rest));
        lemma_lies_split(s, at, a, b + rest);
        lemma_lies_split(s, at + a.len(), b, rest);
        lemma_text_lies(s, at, items[0].item);
        lemma_text_lies(s, at + a.len(), items[0].long_item);
        assert forall|i: int| 0 <= i < items.skip(1).len() implies text_fits(
            #[trigger] items.skip(1)[i].item,
        ) && text_fits(items.skip(1)[i].long_item) by {
            assert(items.skip(1)[i] == items[i + 1]);
            assert(text_fits(items[i + 1].item));
        }
        lemma_string_items_lie(s, at + a.len() + b.len(), items.skip(1));
        assert(seq![items[0]] + items.skip(1) =~= items);
    }
}

proof fn lemma_float_items_lie(s: Seq<u8>, at: int, items: Seq<FloatEnumItemView>)
    requires
        lies_at(s, at, float_items_wire(items)),
        forall|i: int| 0 <= i < items.len() ==> text_fits(#[trigger] items[i].long_item),
    ensures
        float_items_at(s, at, items.len()) == Some(items),
    decreases items.len(),
{
    if items.len() == 0 {
        assert(items =~= Seq::empty());
    } else {
        let a = be_bytes32(items[0].item as int);
        let b = text_wire(items[0].long_item);
        let rest = float_items_wire(items.skip(1));
        assert(text_fits(items[0].long_item));
        assert(a + b + rest =~= a + (b + rest));
        lemma_lies_split(s, at, a, b + rest);
        lemma_lies_split(s, at + 4, b, rest);
        lemma_u32_lies(s, at, items[0].item as int);
        lemma_text_lies(s, at + 4, items[0].long_item);
        assert forall|i: int| 0 <= i < items.skip(1).len() implies text_fits(
            #[trigger] items.skip(1)[i].long_item,
        ) by {
            assert(items.skip(1)[i] == items[i + 1]);
            assert(text_fits(items[i + 1].long_item));
        }
        lemma_float_items_lie(s, at + 4 + b.len(), items.skip(1));
        assert(seq![items[0]] + items.skip(1) =~= items);
    }
}

/// The flags word gives back the type, the unit and the mark it was made of.
pub proof fn lemma_flags_round_trip(t: NodeType, u: NodeUnit, read_only: bool)
    ensures
        0 <= flags_of(t, u, read_only) < 0x200,
        crate::node::flags_type(flags_of(t, u, read_only)) == t,
        crate::node::flags_unit(flags_of(t, u, read_only)) == u,
        crate::node::flags_read_only(flags_of(t, u, read_only)) == read_only,
{
}

/// What the parser finds where a definition's head lies.
proof fn lemma_head_lies(s: Seq<u8>, d: WingNodeDefView)
    requires
        text_fits(d.name),
        text_fits(d.long_name),
        lies_at(s, 0, head_wire(d)),
    ensures
        head_found(s, d),
        text_end(s, text_end(s, 10)) + 2 == head_wire(d).len(),
{
    let parent = be_bytes32(pattern32(d.parent_id as int));
    let id = be_bytes32(pattern32(d.id as int));
    let index = be_bytes16(d.index as int);
    let name = text_wire(d.name);
    let long_name = text_wire(d.long_name);
    let flags = be_bytes16(flags_of(d.node_type, d.unit, d.read_only));
    assert(head_wire(d) =~= parent + (id + (index + (name + (long_name + flags)))));
    lemma_lies_split(s, 0, parent, id + (index + (name + (long_name + flags))));
    lemma_lies_split(s, 4, id, index + (name + (long_name + flags)));
    lemma_lies_split(s, 8, index, name + (long_name + flags));
    lemma_lies_split(s, 10, name, long_name + flags);
    let long_at: int = 10 + name.len() as int;
    lemma_lies_split(s, long_at, long_name, flags);
    let flags_at: int = long_at + long_name.len();
    lemma_u32_lies(s, 0, pattern32(d.parent_id as int));
    lemma_u32_lies(s, 4, pattern32(d.id as int));
    lemma_u16_lies(s, 8, d.index as int);
    lemma_text_lies(s, 10, d.name);
    lemma_text_lies(s, long_at, d.long_name);
    lemma_u16_lies(s, flags_at, flags_of(d.node_type, d.unit, d.read_only));
}

/// What the parser finds where the tail of a float node lies.
proof fn lemma_float_tail_lies(s: Seq<u8>, at: int, d: WingNodeDefView)
    requires
        d.wf(),
        d.node_type == NodeType::LinearFloat || d.node_type == NodeType::LogarithmicFloat,
        lies_at(s, at, tail_wire(d)),
    ensures
        fits(s, at, 12),
        u32_at(s, at) == d.min_float->0,
        u32_at(s, at + 4) == d.max_float->0,
        u32_at(s, at + 8) == pattern32(d.steps->0 as int),
{
    let a = be_bytes32(d.min_float->0 as int);
    let b = be_bytes32(d.max_float->0 as int);
    let c = be_bytes32(pattern32(d.steps->0 as int));
    assert(a + b + c =~= a + (b + c));
    lemma_lies_split(s, at, a, b + c);
    lemma_lies_split(s, at + 4, b, c);
    lemma_u32_lies(s, at, d.min_float->0 as int);
    lemma_u32_lies(s, at + 4, d.max_float->0 as int);
    lemma_u32_lies(s, at + 8, pattern32(d.steps->0 as int));
}

/// What the parser finds where the tail of an integer node lies.
proof fn lemma_int_tail_lies(s: Seq<u8>, at: int, d: WingNodeDefView)
    requires
        d.wf(),
        d.node_type == NodeType::Integer,
        lies_at(s, at, tail_wire(d)),
    ensures
        fits(s, at, 8),
        u32_at(s, at) == pattern32(d.min_int->0 as int),
        u32_at(s, at + 4) == pattern32(d.max_int->0 as int),
{
    let a = be_bytes32(pattern32(d.min_int->0 as int));
    let b = be_bytes32(pattern32(d.max_int->0 as int));
    lemma_lies_split(s, at, a, b);
    lemma_u32_lies(s, at, pattern32(d.min_int->0 as int));
    lemma_u32_lies(s, at + 4, pattern32(d.max_int->0 as int));
}

/// What the parser finds where the tail of an enumeration lies.
proof fn lemma_enum_tail_lies(s: Seq<u8>, at: int, d: WingNodeDefView)
    requires
        encodable(d),
        d.node_type == NodeType::StringEnum || d.node_type == NodeType::FloatEnum,
        lies_at(s, at, tail_wire(d)),
    ensures
        fits(s, at, 2),
        d.node_type == NodeType::StringEnum ==> u16_at(s, at) == d.string_enum->0.len()
            && string_items_at(s, at + 2, d.string_enum->0.len()) == Some(d.string_enum->0),
        d.node_type == NodeType::FloatEnum ==> u16_at(s, at) == d.float_enum->0.len()
            && float_items_at(s, at + 2, d.float_enum->0.len()) == Some(d.float_enum->0),
{
    if d.node_type == NodeType::StringEnum {
        let items = d.string_enum->0;
        lemma_lies_split(s, at, be_bytes16(items.len() as int), string_items_wire(items));
        lemma_u16_lies(s, at, items.len() as int);
        lemma_string_items_lie(s, at + 2, items);
    } else {
        let items = d.float_enum->0;
        lemma_lies_split(s, at, be_bytes16(items.len() as int), float_items_wire(items));
        lemma_u16_lies(s, at, items.len() as int);
        lemma_float_items_lie(s, at + 2, items);
    }
}

/// Whether the parser finds the head of `d` at the beginning of `s`.
spec fn head_found(s: Seq<u8>, d: WingNodeDefView) -> bool {
    &&& fits(s, 0, 10)
    &&& u32_at(s, 0) == pattern32(d.parent_id as int)
    &&& u32_at(s, 4) == pattern32(d.id as int)
    &&& u16_at(s, 8) == d.index
    &&& text_ok(s, 10)
    &&& text_at(s, 10) == d.name
    &&& text_ok(s, text_end(s, 10))
    &&& text_at(s, text_end(s, 10)) == d.long_name
    &&& fits(s, text_end(s, text_end(s, 10)), 2)
    &&& u16_at(s, text_end(s, text_end(s, 10))) == flags_of(d.node_type, d.unit, d.read_only)
}

/// Whether the parser finds the tail of `d` at `at`.
spec fn tail_found(s: Seq<u8>, at: int, d: WingNodeDefView) -> bool {
    match d.node_type {
        NodeType::Node | NodeType::FaderLevel => true,
        NodeType::String => fits(s, at, 2) && u16_at(s, at) == d.max_string_len->0,
        NodeType::LinearFloat | NodeType::LogarithmicFloat => {
            &&& fits(s, at, 12)
            &&& u32_at(s, at) == d.min_float->0
            &&& u32_at(s, at + 4) == d.max_float->0
            &&& u32_at(s, at + 8) == pattern32(d.steps->0 as int)
        },
        NodeType::Integer => {
            &&& fits(s, at, 8)
            &&& u32_at(s, at) == pattern32(d.min_int->0 as int)
            &&& u32_at(s, at + 4) == pattern32(d.max_int->0 as int)
        },
        NodeType::StringEnum => {
            &&& fits(s, at, 2)
            &&& u16_at(s, at) == d.string_enum->0.len()
            &&& string_items_at(s, at + 2, d.string_enum->0.len()) == Some(d.string_enum->0)
        },
        NodeType::FloatEnum => {
            &&& fits(s, at, 2)
            &&& u16_at(s, at) == d.float_enum->0.len()
            &&& float_items_at(s, at + 2, d.float_enum->0.len()) == Some(d.float_enum->0)
        },
    }
}

/// Where the parser finds head and tail of a well-formed definition, that
/// definition is what it gives.
proof fn lemma_found_is_parsed(s: Seq<u8>, d: WingNodeDefView)
    requires
        d.wf(),
        head_found(s, d),
        tail_found(s, text_end(s, text_end(s, 10)) + 2, d),
    ensures
        parsed(s) == Some(d),
{
    lemma_flags_round_trip(d.node_type, d.unit, d.read_only);
    assert(signed32(pattern32(d.parent_id as int)) == d.parent_id);
    assert(signed32(pattern32(d.id as int)) == d.id);
    match d.node_type {
        NodeType::LinearFloat | NodeType::LogarithmicFloat => {
            assert(signed32(pattern32(d.steps->0 as int)) == d.steps->0);
        },
        NodeType::Integer => {
            assert(signed32(pattern32(d.min_int->0 as int)) == d.min_int->0);
            assert(signed32(pattern32(d.max_int->0 as int)) == d.max_int->0);
        },
        _ => {},
    }
    assert(parsed(s) matches Some(p) && p =~= d);
}

/// The parser finds the tail of an encodable definition where it lies.
proof fn lemma_tail_lies(s: Seq<u8>, at: int, d: WingNodeDefView)
    requires
        encodable(d),
        lies_at(s, at, tail_wire(d)),
    ensures
        tail_found(s, at, d),
{
    match d.node_type {
        NodeType::Node | NodeType::FaderLevel => {},
        NodeType::String => {
            lemma_u16_lies(s, at, d.max_string_len->0 as int);
        },
        NodeType::LinearFloat | NodeType::LogarithmicFloat => {
            lemma_float_tail_lies(s, at, d);
        },
        NodeType::Integer => {
            lemma_int_tail_lies(s, at, d);
        },
        NodeType::StringEnum | NodeType::FloatEnum => {
            lemma_enum_tail_lies(s, at, d);
        },
    }
}

/// Of three runs of bytes in a row, the first lies at the beginning and the
/// second behind it.
proof fn lemma_lies_in_row(head: Seq<u8>, tail: Seq<u8>, rest: Seq<u8>)
    ensures
        lies_at(head + tail + rest, 0, head),
        lies_at(head + tail + rest, head.len() as int, tail),
{
    let s = head + tail + rest;
    assert(s =~= head + (tail + rest));
    assert(s.subrange(0, s.len() as int) =~= s);
    lemma_lies_split(s, 0, head, tail + rest);
    lemma_lies_split(s, head.len() as int, tail, rest);
}

/// Serializing a definition and parsing the bytes gives the definition
/// back, whatever bytes follow them.
pub proof fn lemma_definition_round_trip(d: WingNodeDefView, rest: Seq<u8>)
    requires
        encodable(d),
    ensures
        parsed(serialized(d) + rest) == Some(d),
{
    let s = head_wire(d) + tail_wire(d) + rest;
    lemma_lies_in_row(head_wire(d), tail_wire(d), rest);
    lemma_head_lies(s, d);
    lemma_tail_lies(s, head_wire(d).len() as int, d);
    lemma_found_is_parsed(s, d);
}

} // verus!
