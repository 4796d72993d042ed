//! Nodes of the device's parameter tree: what a node is (its definition) and
//! what it currently holds (its data).
use vstd::prelude::*;
use vstd::utf8::*;
use crate::error::Error;
use crate::text::{decimal, decimal_string};
use crate::wire::{fits, read_f, read_i32, read_string, read_u16, signed32, u16_at, u32_at};

verus! {

/// What kind of value a node holds.
#[derive(Copy, Clone, PartialEq, Eq, Debug, Structural)]
pub enum NodeType {
    /// A container of other nodes.
    Node,
    LinearFloat,
    LogarithmicFloat,
    FaderLevel,
    Integer,
    StringEnum,
    FloatEnum,
    String,
}

/// The unit in which a node's value is measured.
#[derive(Copy, Clone, PartialEq, Eq, Debug, Structural)]
pub enum NodeUnit {
    /// No unit.
    Unitless,
    Db,
    Percent,
    Milliseconds,
    Hertz,
    Meters,
    Seconds,
    Octaves,
}

impl NodeType {
    /// The type that a 4-bit code stands for; codes above 7 stand for `Node`.
    pub open spec fn of_code(code: int) -> NodeType {
        if code == 1 {
            NodeType::LinearFloat
        } else if code == 2 {
            NodeType::LogarithmicFloat
        } else if code == 3 {
            NodeType::FaderLevel
        } else if code == 4 {
            NodeType::Integer
        } else if code == 5 {
            NodeType::StringEnum
        } else if code == 6 {
            NodeType::FloatEnum
        } else if code == 7 {
            NodeType::String
        } else {
            NodeType::Node
        }
    }

    /// The code of a type.
    pub open spec fn code_of(self) -> int {
        match self {
            NodeType::Node => 0,
            NodeType::LinearFloat => 1,
            NodeType::LogarithmicFloat => 2,
            NodeType::FaderLevel => 3,
            NodeType::Integer => 4,
            NodeType::StringEnum => 5,
            NodeType::FloatEnum => 6,
            NodeType::String => 7,
        }
    }

    /// The type that `code` stands for.
    pub fn from_code(code: u8) -> (t: NodeType)
        ensures
            t == NodeType::of_code(code as int),
    {
        match code {
            1 => NodeType::LinearFloat,
            2 => NodeType::LogarithmicFloat,
            3 => NodeType::FaderLevel,
            4 => NodeType::Integer,
            5 => NodeType::StringEnum,
            6 => NodeType::FloatEnum,
            7 => NodeType::String,
            _ => NodeType::Node,
        }
    }

    /// The code of this type.
    pub fn code(self) -> (c: u8)
        ensures
            c == self.code_of(),
            NodeType::of_code(c as int) == self,
    {
        match self {
            NodeType::Node => 0,
            NodeType::LinearFloat => 1,
            NodeType::LogarithmicFloat => 2,
            NodeType::FaderLevel => 3,
            NodeType::Integer => 4,
            NodeType::StringEnum => 5,
            NodeType::FloatEnum => 6,
            NodeType::String => 7,
        }
    }
}

impl NodeUnit {
    /// The unit that a 4-bit code stands for; codes above 7 stand for `Unitless`.
    pub open spec fn of_code(code: int) -> NodeUnit {
        if code == 1 {
            NodeUnit::Db
        } else if code == 2 {
            NodeUnit::Percent
        } else if code == 3 {
            NodeUnit::Milliseconds
        } else if code == 4 {
            NodeUnit::Hertz
        } else if code == 5 {
            NodeUnit::Meters
        } else if code == 6 {
            NodeUnit::Seconds
        } else if code == 7 {
            NodeUnit::Octaves
        } else {
            NodeUnit::Unitless
        }
    }

    /// The code of a unit.
    pub open spec fn code_of(self) -> int {
        match self {
            NodeUnit::Unitless => 0,
            NodeUnit::Db => 1,
            NodeUnit::Percent => 2,
            NodeUnit::Milliseconds => 3,
            NodeUnit::Hertz => 4,
            NodeUnit::Meters => 5,
            NodeUnit::Seconds => 6,
            NodeUnit::Octaves => 7,
        }
    }

    /// The unit that `code` stands for.
    pub fn from_code(code: u8) -> (u: NodeUnit)
        ensures
            u == NodeUnit::of_code(code as int),
    {
        match code {
            1 => NodeUnit::Db,
            2 => NodeUnit::Percent,
            3 => NodeUnit::Milliseconds,
            4 => NodeUnit::Hertz,
            5 => NodeUnit::Meters,
            6 => NodeUnit::Seconds,
            7 => NodeUnit::Octaves,
            _ => NodeUnit::Unitless,
        }
    }

    /// The code of this unit.
    pub fn code(self) -> (c: u8)
        ensures
            c == self.code_of(),
            NodeUnit::of_code(c as int) == self,
    {
        match self {
            NodeUnit::Unitless => 0,
            NodeUnit::Db => 1,
            NodeUnit::Percent => 2,
            NodeUnit::Milliseconds => 3,
            NodeUnit::Hertz => 4,
            NodeUnit::Meters => 5,
            NodeUnit::Seconds => 6,
            NodeUnit::Octaves => 7,
        }
    }
}

/// One choice of a string enumeration.
#[derive(Debug)]
pub struct StringEnumItem {
    /// The value as it is written to the node.
    pub item: String,
    /// The label shown for it; may be empty.
    pub long_item: String,
}

/// One choice of a float enumeration.
#[derive(Debug)]
pub struct FloatEnumItem {
    /// The value, as the 32-bit pattern of an IEEE-754 single.
    pub item: u32,
    /// The label shown for it; may be empty.
    pub long_item: String,
}

/// A `StringEnumItem` as plain values.
pub struct StringEnumItemView {
    pub item: Seq<char>,
    pub long_item: Seq<char>,
}

/// A `FloatEnumItem` as plain values.
pub struct FloatEnumItemView {
    pub item: u32,
    pub long_item: Seq<char>,
}

impl View for StringEnumItem {
    type V = StringEnumItemView;

    open spec fn view(&self) -> StringEnumItemView {
        StringEnumItemView { item: self.item@, long_item: self.long_item@ }
    }
}

impl View for FloatEnumItem {
    type V = FloatEnumItemView;

    open spec fn view(&self) -> FloatEnumItemView {
        FloatEnumItemView { item: self.item, long_item: self.long_item@ }
    }
}

impl Clone for StringEnumItem {
    fn clone(&self) -> (r: Self)
        ensures
            r@ == self@,
    {
        StringEnumItem { item: self.item.clone(), long_item: self.long_item.clone() }
    }
}

impl Clone for FloatEnumItem {
    fn clone(&self) -> (r: Self)
        ensures
            r@ == self@,
    {
        FloatEnumItem { item: self.item, long_item: self.long_item.clone() }
    }
}

/// The description of one node of the tree. Floats are held as the 32-bit
/// patterns of IEEE-754 singles.
#[derive(Debug)]
pub struct WingNodeDef {
    pub id: i32,
    pub parent_id: i32,
    /// The node's rank among its siblings.
    pub index: u16,
    pub name: String,
    pub long_name: String,
    pub node_type: NodeType,
    pub unit: NodeUnit,
    pub read_only: bool,
    pub min_float: Option<u32>,
    pub max_float: Option<u32>,
    pub steps: Option<i32>,
    pub min_int: Option<i32>,
    pub max_int: Option<i32>,
    pub max_string_len: Option<u16>,
    pub string_enum: Option<Vec<StringEnumItem>>,
    pub float_enum: Option<Vec<FloatEnumItem>>,
}

/// A `WingNodeDef` as plain values.
pub struct WingNodeDefView {
    pub id: i32,
    pub parent_id: i32,
    pub index: u16,
    pub name: Seq<char>,
    pub long_name: Seq<char>,
    pub node_type: NodeType,
    pub unit: NodeUnit,
    pub read_only: bool,
    pub min_float: Option<u32>,
    pub max_float: Option<u32>,
    pub steps: Option<i32>,
    pub min_int: Option<i32>,
    pub max_int: Option<i32>,
    pub max_string_len: Option<u16>,
    pub string_enum: Option<Seq<StringEnumItemView>>,
    pub float_enum: Option<Seq<FloatEnumItemView>>,
}

/// The choices of a string enumeration as plain values.
pub open spec fn string_items_view(items: Seq<StringEnumItem>) -> Seq<StringEnumItemView> {
    Seq::new(items.len(), |i: int| items[i]@)
}

/// The choices of a float enumeration as plain values.
pub open spec fn float_items_view(items: Seq<FloatEnumItem>) -> Seq<FloatEnumItemView> {
    Seq::new(items.len(), |i: int| items[i]@)
}

impl View for WingNodeDef {
    type V = WingNodeDefView;

    open spec fn view(&self) -> WingNodeDefView {
        WingNodeDefView {
            id: self.id,
            parent_id: self.parent_id,
            index: self.index,
            name: self.name@,
            long_name: self.long_name@,
            node_type: self.node_type,
            unit: self.unit,
            read_only: self.read_only,
            min_float: self.min_float,
            max_float: self.max_float,
            steps: self.steps,
            min_int: self.min_int,
            max_int: self.max_int,
            max_string_len: self.max_string_len,
            string_enum: match self.string_enum {
                Some(items) => Some(string_items_view(items@)),
                None => None,
            },
            float_enum: match self.float_enum {
                Some(items) => Some(float_items_view(items@)),
                None => None,
            },
        }
    }
}

impl WingNodeDefView {
    /// The optional fields that are filled are exactly those of the node's
    /// type: range and steps for the two float types, a range for `Integer`,
    /// a length limit for `String`, the choices for the two enumerations,
    /// and none for `Node` and `FaderLevel`.
    pub open spec fn wf(self) -> bool {
        let float = self.node_type == NodeType::LinearFloat || self.node_type
            == NodeType::LogarithmicFloat;
        &&& self.min_float is Some <==> float
        &&& self.max_float is Some <==> float
        &&& self.steps is Some <==> float
        &&& self.min_int is Some <==> self.node_type == NodeType::Integer
        &&& self.max_int is Some <==> self.node_type == NodeType::Integer
        &&& self.max_string_len is Some <==> self.node_type == NodeType::String
        &&& self.string_enum is Some <==> self.node_type == NodeType::StringEnum
        &&& self.float_enum is Some <==> self.node_type == NodeType::FloatEnum
    }
}

/// Where the text field that starts at `at` ends: one length byte, then that
/// many bytes.
pub open spec fn text_end(s: Seq<u8>, at: int) -> int {
    at + 1 + s[at] as int
}

/// The bytes of the text field that starts at `at`, without the length byte.
pub open spec fn text_bytes(s: Seq<u8>, at: int) -> Seq<u8> {
    s.subrange(at + 1, text_end(s, at))
}

/// Whether a whole text field of well-formed UTF-8 starts at `at`.
pub open spec fn text_ok(s: Seq<u8>, at: int) -> bool {
    fits(s, at, 1) && fits(s, at + 1, s[at] as int) && valid_utf8(text_bytes(s, at))
}

/// The text of the field that starts at `at`.
pub open spec fn text_at(s: Seq<u8>, at: int) -> Seq<char> {
    decode_utf8(text_bytes(s, at))
}

/// The node type in a flags word: bits 4 to 7.
pub open spec fn flags_type(flags: int) -> NodeType {
    NodeType::of_code(flags / 16 % 16)
}

/// The unit in a flags word: bits 0 to 3.
pub open spec fn flags_unit(flags: int) -> NodeUnit {
    NodeUnit::of_code(flags % 16)
}

/// The read-only mark in a flags word: bit 8.
pub open spec fn flags_read_only(flags: int) -> bool {
    flags / 256 % 2 == 1
}

/// `n` choices of a string enumeration, read from `at`: each is two text
/// fields, the value and its label. `None` where the bytes run out or a text
/// is not UTF-8.
pub open spec fn string_items_at(s: Seq<u8>, at: int, n: nat) -> Option<Seq<StringEnumItemView>>
    decreases n,
{
    if n == 0 {
        Some(Seq::empty())
    } else if !text_ok(s, at) || !text_ok(s, text_end(s, at)) {
        None
    } else {
        let label_at = text_end(s, at);
        let first = StringEnumItemView { item: text_at(s, at), long_item: text_at(s, label_at) };
        match string_items_at(s, text_end(s, label_at), (n - 1) as nat) {
            Some(rest) => Some(seq![first] + rest),
            None => None,
        }
    }
}

/// `n` choices of a float enumeration, read from `at`: each is a 32-bit
/// float and a text field, its label. `None` where the bytes run out or a
/// text is not UTF-8.
pub open spec fn float_items_at(s: Seq<u8>, at: int, n: nat) -> Option<Seq<FloatEnumItemView>>
    decreases n,
{
    if n == 0 {
        Some(Seq::empty())
    } else if !fits(s, at, 4) || !text_ok(s, at + 4) {
        None
    } else {
        let first = FloatEnumItemView { item: u32_at(s, at) as u32, long_item: text_at(s, at + 4) };
        match float_items_at(s, text_end(s, at + 4), (n - 1) as nat) {
            Some(rest) => Some(seq![first] + rest),
            None => None,
        }
    }
}

/// The definition that the bytes of a definition sub-frame describe: parent
/// id, id, index, name, long name and flags, then what the node's type asks
/// for. Bytes after that are not looked at. `None` where the bytes run out
/// or a text is not UTF-8.
pub open spec fn parsed(s: Seq<u8>) -> Option<WingNodeDefView> {
    if !fits(s, 0, 10) || !text_ok(s, 10) {
        None
    } else if !text_ok(s, text_end(s, 10)) {
        None
    } else if !fits(s, text_end(s, text_end(s, 10)), 2) {
        None
    } else {
        let flags_at = text_end(s, text_end(s, 10));
        let flags = u16_at(s, flags_at);
        let tail = flags_at + 2;
        let plain = WingNodeDefView {
            id: signed32(u32_at(s, 4)) as i32,
            parent_id: signed32(u32_at(s, 0)) as i32,
            index: u16_at(s, 8) as u16,
            name: text_at(s, 10),
            long_name: text_at(s, text_end(s, 10)),
            node_type: flags_type(flags),
            unit: flags_unit(flags),
            read_only: flags_read_only(flags),
            min_float: None,
            max_float: None,
            steps: None,
            min_int: None,
            max_int: None,
            max_string_len: None,
            string_enum: None,
            float_enum: None,
        };
        match flags_type(flags) {
            NodeType::Node | NodeType::FaderLevel => Some(plain),
            NodeType::String => if fits(s, tail, 2) {
                Some(WingNodeDefView { max_string_len: Some(u16_at(s, tail) as u16), ..plain })
            } else {
                None
            },
            NodeType::LinearFloat | NodeType::LogarithmicFloat => if fits(s, tail, 12) {
                Some(
                    WingNodeDefView {
                        min_float: Some(u32_at(s, tail) as u32),
                        max_float: Some(u32_at(s, tail + 4) as u32),
                        steps: Some(signed32(u32_at(s, tail + 8)) as i32),
                        ..plain
                    },
                )
            } else {
                None
            },
            NodeType::Integer => if fits(s, tail, 8) {
                Some(
                    WingNodeDefView {
                        min_int: Some(signed32(u32_at(s, tail)) as i32),
                        max_int: Some(signed32(u32_at(s, tail + 4)) as i32),
                        ..plain
                    },
                )
            } else {
                None
            },
            NodeType::StringEnum => if fits(s, tail, 2) {
                match string_items_at(s, tail + 2, u16_at(s, tail) as nat) {
                    Some(items) => Some(WingNodeDefView { string_enum: Some(items), ..plain }),
                    None => None,
                }
            } else {
                None
            },
            NodeType::FloatEnum => if fits(s, tail, 2) {
                match float_items_at(s, tail + 2, u16_at(s, tail) as nat) {
                    Some(items) => Some(WingNodeDefView { float_enum: Some(items), ..plain }),
                    None => None,
                }
            } else {
                None
            },
        }
    }
}

/// Every definition that parses is well-formed.
pub proof fn lemma_parsed_wf(s: Seq<u8>)
    ensures
        parsed(s) matches Some(d) ==> d.wf(),
{
}

/// The text field at `at` and the place where it ends.
fn read_text(buf: &[u8], at: usize) -> (r: Option<(String, usize)>)
    ensures
        r is Some <==> text_ok(buf@, at as int),
        r matches Some(t) ==> t.0@ == text_at(buf@, at as int) && t.1 == text_end(
            buf@,
            at as int,
        ),
{
    if at >= buf.len() {
        return None;
    }
    let len = buf[at] as usize;
    match read_string(buf, at + 1, len) {
        None => None,
        Some(text) => Some((text, at + 1 + len)),
    }
}

/// The three fields of a flags word.
fn read_flags(flags: u16) -> (r: (NodeType, NodeUnit, bool))
    ensures
        r.0 == flags_type(flags as int),
        r.1 == flags_unit(flags as int),
        r.2 == flags_read_only(flags as int),
{
    let t = ((flags >> 4) & 0x0F) as u8;
    let u = (flags & 0x0F) as u8;
    let ro = ((flags >> 8) & 0x01) != 0;
    assert(t == flags / 16 % 16 && u == flags % 16 && (ro <==> flags / 256 % 2 == 1))
        by (bit_vector)
        requires
            t == ((flags >> 4) & 0x0F) as u8,
            u == (flags & 0x0F) as u8,
            ro == (((flags >> 8) & 0x01) != 0),
    ;
    (NodeType::from_code(t), NodeUnit::from_code(u), ro)
}

/// `n` choices of a string enumeration, read from `at`.
fn read_string_items(buf: &[u8], at: usize, n: u16) -> (r: Option<Vec<StringEnumItem>>)
    ensures
        r is Some <==> string_items_at(buf@, at as int, n as nat) is Some,
        r matches Some(items) ==> Some(string_items_view(items@)) == string_items_at(
            buf@,
            at as int,
            n as nat,
        ),
{
    let mut items: Vec<StringEnumItem> = Vec::new();
    let mut pos: usize = at;
    let mut k: u16 = 0;
    while k < n
        invariant
            k <= n,
            string_items_at(buf@, at as int, n as nat) == match string_items_at(
                buf@,
                pos as int,
                (n - k) as nat,
            ) {
                Some(rest) => Some(string_items_view(items@) + rest),
                None => None,
            },
        decreases n - k,
    {
        let ghost before = string_items_view(items@);
        let (item, label_at) = match read_text(buf, pos) {
            Some(t) => t,
            None => { return None; },
        };
        let (long_item, next) = match read_text(buf, label_at) {
            Some(t) => t,
            None => { return None; },
        };
        items.push(StringEnumItem { item, long_item });
        proof {
            let first = StringEnumItemView {
                item: text_at(buf@, pos as int),
                long_item: text_at(buf@, label_at as int),
            };
            assert(string_items_view(items@) == before + seq![first]);
            match string_items_at(buf@, next as int, (n - k - 1) as nat) {
                Some(rest) => {
                    assert(before + (seq![first] + rest) == (before + seq![first]) + rest);
                },
                None => {},
            }
        }
        pos = next;
        k = k + 1;
    }
    proof {
        assert(string_items_view(items@) + Seq::<StringEnumItemView>::empty()
            == string_items_view(items@));
    }
    Some(items)
}

/// `n` choices of a float enumeration, read from `at`.
fn read_float_items(buf: &[u8], at: usize, n: u16) -> (r: Option<Vec<FloatEnumItem>>)
    ensures
        r is Some <==> float_items_at(buf@, at as int, n as nat) is Some,
        r matches Some(items) ==> Some(float_items_view(items@)) == float_items_at(
            buf@,
            at as int,
            n as nat,
        ),
{
    let mut items: Vec<FloatEnumItem> = Vec::new();
    let mut pos: usize = at;
    let mut k: u16 = 0;
    while k < n
        invariant
            k <= n,
            float_items_at(buf@, at as int, n as nat) == match float_items_at(
                buf@,
                pos as int,
                (n - k) as nat,
            ) {
                Some(rest) => Some(float_items_view(items@) + rest),
                None => None,
            },
        decreases n - k,
    {
        let ghost before = float_items_view(items@);
        if pos > buf.len() || buf.len() - pos < 4 {
            return None;
        }
        let item = match read_f(buf, pos) {
            Some(v) => v,
            None => { return None; },
        };
        let (long_item, next) = match read_text(buf, pos + 4) {
            Some(t) => t,
            None => { return None; },
        };
        items.push(FloatEnumItem { item, long_item });
        proof {
            let first = FloatEnumItemView { item, long_item: text_at(buf@, pos + 4) };
            assert(float_items_view(items@) == before + seq![first]);
            match float_items_at(buf@, next as int, (n - k - 1) as nat) {
                Some(rest) => {
                    assert(before + (seq![first] + rest) == (before + seq![first]) + rest);
                },
                None => {},
            }
        }
        pos = next;
        k = k + 1;
    }
    proof {
        assert(float_items_view(items@) + Seq::<FloatEnumItemView>::empty() == float_items_view(
            items@,
        ));
    }
    Some(items)
}

impl Clone for WingNodeDef {
    fn clone(&self) -> (r: Self)
        ensures
            r@ == self@,
    {
        let string_enum = match &self.string_enum {
            Some(items) => {
                let mut copy: Vec<StringEnumItem> = Vec::new();
                let mut i: usize = 0;
                while i < items.len()
                    invariant
                        i <= items.len(),
                        copy@.len() == i,
                        forall|k: int| 0 <= k < i ==> (#[trigger] copy@[k])@ == items@[k]@,
                    decreases items.len() - i,
                {
                    copy.push(items[i].clone());
                    i = i + 1;
                }
                assert(string_items_view(copy@) =~= string_items_view(items@));
                Some(copy)
            },
            None => None,
        };
        let float_enum = match &self.float_enum {
            Some(items) => {
                let mut copy: Vec<FloatEnumItem> = Vec::new();
                let mut i: usize = 0;
                while i < items.len()
                    invariant
                        i <= items.len(),
                        copy@.len() == i,
                        forall|k: int| 0 <= k < i ==> (#[trigger] copy@[k])@ == items@[k]@,
                    decreases items.len() - i,
                {
                    copy.push(items[i].clone());
                    i = i + 1;
                }
                assert(float_items_view(copy@) =~= float_items_view(items@));
                Some(copy)
            },
            None => None,
        };
        WingNodeDef {
            id: self.id,
            parent_id: self.parent_id,
            index: self.index,
            name: self.name.clone(),
            long_name: self.long_name.clone(),
            node_type: self.node_type,
            unit: self.unit,
            read_only: self.read_only,
            min_float: self.min_float,
            max_float: self.max_float,
            steps: self.steps,
            min_int: self.min_int,
            max_int: self.max_int,
            max_string_len: self.max_string_len,
            string_enum,
            float_enum,
        }
    }
}

impl WingNodeDef {
    /// Parses the bytes of a definition sub-frame. Parsing is strict: where
    /// the bytes run out or a text is not UTF-8 the result is `InvalidData`.
    /// Bytes after the definition are not looked at.
    pub fn from_bytes(raw: &[u8]) -> (r: Result<WingNodeDef, Error>)
        ensures
            r is Ok <==> parsed(raw@) is Some,
            r matches Ok(def) ==> Some(def@) == parsed(raw@) && def@.wf(),
            r matches Err(e) ==> e == Error::InvalidData,
    {
        let parent_id = match read_i32(raw, 0) {
            Some(v) => v,
            None => { return Err(Error::InvalidData); },
        };
        let id = match read_i32(raw, 4) {
            Some(v) => v,
            None => { return Err(Error::InvalidData); },
        };
        let index = match read_u16(raw, 8) {
            Some(v) => v,
            None => { return Err(Error::InvalidData); },
        };
        let (name, long_at) = match read_text(raw, 10) {
            Some(t) => t,
            None => { return Err(Error::InvalidData); },
        };
        let (long_name, flags_at) = match read_text(raw, long_at) {
            Some(t) => t,
            None => { return Err(Error::InvalidData); },
        };
        let flags = match read_u16(raw, flags_at) {
            Some(v) => v,
            None => { return Err(Error::InvalidData); },
        };
        let (node_type, unit, read_only) = read_flags(flags);
        let tail = flags_at + 2;

        let mut def = WingNodeDef {
            id,
            parent_id,
            index,
            name,
            long_name,
            node_type,
            unit,
            read_only,
            min_float: None,
            max_float: None,
            steps: None,
            min_int: None,
            max_int: None,
            max_string_len: None,
            string_enum: None,
            float_enum: None,
        };
        match node_type {
            NodeType::Node | NodeType::FaderLevel => {},
            NodeType::String => {
                match read_u16(raw, tail) {
                    Some(v) => { def.max_string_len = Some(v); },
                    None => { return Err(Error::InvalidData); },
                }
            },
            NodeType::LinearFloat | NodeType::LogarithmicFloat => {
                if tail > raw.len() || raw.len() - tail < 12 {
                    return Err(Error::InvalidData);
                }
                def.min_float = read_f(raw, tail);
                def.max_float = read_f(raw, tail + 4);
                def.steps = read_i32(raw, tail + 8);
            },
            NodeType::Integer => {
                if tail > raw.len() || raw.len() - tail < 8 {
                    return Err(Error::InvalidData);
                }
                def.min_int = read_i32(raw, tail);
                def.max_int = read_i32(raw, tail + 4);
            },
            NodeType::StringEnum => {
                let num = match read_u16(raw, tail) {
                    Some(v) => v,
                    None => { return Err(Error::InvalidData); },
                };
                match read_string_items(raw, tail + 2, num) {
                    Some(items) => { def.string_enum = Some(items); },
                    None => { return Err(Error::InvalidData); },
                }
            },
            NodeType::FloatEnum => {
                let num = match read_u16(raw, tail) {
                    Some(v) => v,
                    None => { return Err(Error::InvalidData); },
                };
                match read_float_items(raw, tail + 2, num) {
                    Some(items) => { def.float_enum = Some(items); },
                    None => { return Err(Error::InvalidData); },
                }
            },
        }
        Ok(def)
    }

    /// The node's type.
    pub fn get_type(&self) -> (t: NodeType)
        ensures
            t == self.node_type,
    {
        self.node_type
    }

    /// The node's unit.
    pub fn get_unit(&self) -> (u: NodeUnit)
        ensures
            u == self.unit,
    {
        self.unit
    }

    /// Whether the node cannot be written.
    pub fn is_read_only(&self) -> (b: bool)
        ensures
            b == self.read_only,
    {
        self.read_only
    }
}

/// What a node's data holds, as plain values.
pub enum Payload {
    /// Nothing.
    Empty,
    /// A string.
    Text(Seq<char>),
    /// A float, as the 32-bit pattern of an IEEE-754 single.
    Float(u32),
    /// A signed integer.
    Int(i32),
}

#[derive(Debug)]
enum Held {
    Empty,
    Text(String),
    Float(u32),
    Int(i32),
}

/// The value that a node currently holds: a string, a float or an integer.
#[derive(Debug)]
pub struct WingNodeData {
    held: Held,
}

impl View for WingNodeData {
    type V = Payload;

    closed spec fn view(&self) -> Payload {
        match self.held {
            Held::Empty => Payload::Empty,
            Held::Text(s) => Payload::Text(s@),
            Held::Float(f) => Payload::Float(f),
            Held::Int(i) => Payload::Int(i),
        }
    }
}

impl WingNodeData {
    /// Data that holds nothing.
    pub fn new() -> (d: Self)
        ensures
            d@ == Payload::Empty,
    {
        WingNodeData { held: Held::Empty }
    }

    /// Data that holds the string `s`.
    pub fn with_string(s: String) -> (d: Self)
        ensures
            d@ == Payload::Text(s@),
    {
        WingNodeData { held: Held::Text(s) }
    }

    /// Data that holds the float whose 32-bit pattern is `f`.
    pub fn with_float(f: u32) -> (d: Self)
        ensures
            d@ == Payload::Float(f),
    {
        WingNodeData { held: Held::Float(f) }
    }

    /// Data that holds the integer `i`.
    pub fn with_i32(i: i32) -> (d: Self)
        ensures
            d@ == Payload::Int(i),
    {
        WingNodeData { held: Held::Int(i) }
    }

    /// Data that holds the integer `i`.
    pub fn with_i16(i: i16) -> (d: Self)
        ensures
            d@ == Payload::Int(i as i32),
    {
        WingNodeData { held: Held::Int(i as i32) }
    }

    /// Data that holds the integer `i`.
    pub fn with_i8(i: i8) -> (d: Self)
        ensures
            d@ == Payload::Int(i as i32),
    {
        WingNodeData { held: Held::Int(i as i32) }
    }

    /// The value as text: the string that is held, the integer in decimal,
    /// or nothing for data that holds nothing. A float has no text here and
    /// gives `None`; its pattern is to be had from `get_float`.
    pub fn get_string(&self) -> (text: Option<String>)
        ensures
            match self@ {
                Payload::Text(s) => text matches Some(t) && t@ == s,
                Payload::Float(_) => text is None,
                Payload::Int(i) => text matches Some(t) && t@ == decimal(i as int),
                Payload::Empty => text matches Some(t) && t@ == Seq::<char>::empty(),
            },
    {
        match &self.held {
            Held::Text(s) => Some(s.clone()),
            Held::Float(_) => None,
            Held::Int(i) => Some(decimal_string(*i as i64)),
            Held::Empty => Some(String::new()),
        }
    }

    /// The pattern of the float that is held, or that of `0.0` where none is.
    pub fn get_float(&self) -> (f: u32)
        ensures
            f == (match self@ {
                Payload::Float(v) => v,
                _ => 0,
            }),
    {
        match self.held {
            Held::Float(v) => v,
            _ => 0,
        }
    }

    /// The integer that is held, or 0 where none is.
    pub fn get_int(&self) -> (i: i32)
        ensures
            i == (match self@ {
                Payload::Int(v) => v,
                _ => 0,
            }),
    {
        match self.held {
            Held::Int(v) => v,
            _ => 0,
        }
    }

    /// Whether a string is held.
    pub fn has_string(&self) -> (b: bool)
        ensures
            b == (self@ is Text),
    {
        match self.held {
            Held::Text(_) => true,
            _ => false,
        }
    }

    /// Whether a float is held.
    pub fn has_float(&self) -> (b: bool)
        ensures
            b == (self@ is Float),
    {
        match self.held {
            Held::Float(_) => true,
            _ => false,
        }
    }

    /// Whether an integer is held.
    pub fn has_int(&self) -> (b: bool)
        ensures
            b == (self@ is Int),
    {
        match self.held {
            Held::Int(_) => true,
            _ => false,
        }
    }
}

impl Default for WingNodeData {
    fn default() -> (d: Self)
        ensures
            d@ == Payload::Empty,
    {
        WingNodeData::new()
    }
}

} // verus!
