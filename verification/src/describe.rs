//! A node definition as text for a reader.
//!
//! Floats are held as bit patterns, and their text is made elsewhere: the
//! caller hands in the text of each float that `floats` lists.
use vstd::prelude::*;
use vstd::string::*;
use crate::node::{
    FloatEnumItemView, NodeType, NodeUnit, StringEnumItemView, WingNodeDef, WingNodeDefView,
};
use crate::text::{decimal, push_decimal};

verus! {

/// The name of a node type.
pub open spec fn type_label(t: NodeType) -> Seq<char> {
    match t {
        NodeType::Node => "node"@,
        NodeType::LinearFloat => "linear float"@,
        NodeType::LogarithmicFloat => "log float"@,
        NodeType::FaderLevel => "fader level"@,
        NodeType::Integer => "integer"@,
        NodeType::StringEnum => "string enum"@,
        NodeType::FloatEnum => "float enum"@,
        NodeType::String => "string"@,
    }
}

/// The symbol of a unit; none for `Unitless`.
pub open spec fn unit_label(u: NodeUnit) -> Seq<char> {
    match u {
        NodeUnit::Unitless => ""@,
        NodeUnit::Db => "dB"@,
        NodeUnit::Percent => "%"@,
        NodeUnit::Milliseconds => "ms"@,
        NodeUnit::Hertz => "Hz"@,
        NodeUnit::Meters => "meters"@,
        NodeUnit::Seconds => "seconds"@,
        NodeUnit::Octaves => "octaves"@,
    }
}

impl NodeType {
    /// The name of this type.
    pub fn label(self) -> (s: &'static str)
        ensures
            s@ == type_label(self),
    {
        match self {
            NodeType::Node => "node",
            NodeType::LinearFloat => "linear float",
            NodeType::LogarithmicFloat => "log float",
            NodeType::FaderLevel => "fader level",
            NodeType::Integer => "integer",
            NodeType::StringEnum => "string enum",
            NodeType::FloatEnum => "float enum",
            NodeType::String => "string",
        }
    }
}

impl NodeUnit {
    /// The symbol of this unit; none for `Unitless`.
    pub fn label(self) -> (s: &'static str)
        ensures
            s@ == unit_label(self),
    {
        match self {
            NodeUnit::Unitless => "",
            NodeUnit::Db => "dB",
            NodeUnit::Percent => "%",
            NodeUnit::Milliseconds => "ms",
            NodeUnit::Hertz => "Hz",
            NodeUnit::Meters => "meters",
            NodeUnit::Seconds => "seconds",
            NodeUnit::Octaves => "octaves",
        }
    }
}

/// The floats that the description of `d` shows, in the order in which it
/// shows them: the least value, the greatest value, the choices of a float
/// enumeration.
pub open spec fn shown_floats(d: WingNodeDefView) -> Seq<u32> {
    (match d.min_float {
        Some(v) => seq![v],
        None => Seq::empty(),
    }) + (match d.max_float {
        Some(v) => seq![v],
        None => Seq::empty(),
    }) + (match d.float_enum {
        Some(items) => Seq::new(items.len(), |i: int| items[i].item),
        None => Seq::empty(),
    })
}

/// The `i`-th of the texts handed in, or nothing where there are fewer.
pub open spec fn text_of(texts: Seq<Seq<char>>, i: int) -> Seq<char> {
    if 0 <= i < texts.len() {
        texts[i]
    } else {
        Seq::empty()
    }
}

/// A line of the description, where `shown` says that it is there.
pub open spec fn line(shown: bool, label: Seq<char>, value: Seq<char>) -> Seq<char> {
    if shown {
        label + value
    } else {
        Seq::empty()
    }
}

/// One choice of an enumeration: its value, indented less where it is the
/// first, then its label in brackets where it has one, then a line break.
pub open spec fn item_text(first: bool, value: Seq<char>, label: Seq<char>) -> Seq<char> {
    (if first { "     "@ } else { "           "@ }) + value + (if label.len() > 0 {
        " ("@ + label + ")"@
    } else {
        Seq::empty()
    }) + "\n"@
}

/// The first `n` choices of a string enumeration.
pub open spec fn string_items_text(items: Seq<StringEnumItemView>, n: int) -> Seq<char>
    decreases n,
{
    if n <= 0 {
        Seq::empty()
    } else {
        string_items_text(items, n - 1) + item_text(
            n == 1,
            items[n - 1].item,
            items[n - 1].long_item,
        )
    }
}

/// The first `n` choices of a float enumeration, the text of the first of
/// them being the `from`-th of `texts`.
pub open spec fn float_items_text(
    items: Seq<FloatEnumItemView>,
    texts: Seq<Seq<char>>,
    from: int,
    n: int,
) -> Seq<char>
    decreases n,
{
    if n <= 0 {
        Seq::empty()
    } else {
        float_items_text(items, texts, from, n - 1) + item_text(
            n == 1,
            text_of(texts, from + n - 1),
            items[n - 1].long_item,
        )
    }
}

/// The lines that depend on the node's type.
pub open spec fn details(d: WingNodeDefView, texts: Seq<Seq<char>>) -> Seq<char> {
    let max_at: int = if d.min_float is Some { 1 } else { 0 };
    let items_at: int = max_at + if d.max_float is Some { 1int } else { 0int };
    match d.node_type {
        NodeType::LinearFloat | NodeType::LogarithmicFloat | NodeType::FaderLevel => line(
            d.min_float is Some,
            "\nMinimum:   "@,
            text_of(texts, 0),
        ) + line(d.max_float is Some, "\nMaximum:   "@, text_of(texts, max_at)) + line(
            d.steps is Some,
            "\nSteps:     "@,
            decimal(d.steps->0 as int),
        ),
        NodeType::Integer => line(d.min_int is Some, "\nMinimum:   "@, decimal(d.min_int->0 as int))
            + line(d.max_int is Some, "\nMaximum:   "@, decimal(d.max_int->0 as int)),
        NodeType::String => line(
            d.max_string_len is Some,
            "\nMaxLength: "@,
            decimal(d.max_string_len->0 as int),
        ),
        NodeType::StringEnum => match d.string_enum {
            Some(items) => "\nItems:"@ + string_items_text(items, items.len() as int),
            None => Seq::empty(),
        },
        NodeType::FloatEnum => match d.float_enum {
            Some(items) => "\nItems:"@ + float_items_text(
                items,
                texts,
                items_at,
                items.len() as int,
            ),
            None => Seq::empty(),
        },
        NodeType::Node => Seq::empty(),
    }
}

/// The lines that every description has: id, read-only mark, index, names,
/// type and unit. Index and names are left out where they are zero or empty,
/// the unit where there is none.
pub open spec fn heading(d: WingNodeDefView) -> Seq<char> {
    "Id:        "@ + decimal(d.id as int) + "\nRead-only: "@ + (if d.read_only {
        "yes"@
    } else {
        "no"@
    }) + line(d.index != 0, "\nIndex:     "@, decimal(d.index as int)) + line(
        d.name.len() > 0,
        "\nName:      "@,
        d.name,
    ) + line(d.long_name.len() > 0, "\nLong Name: "@, d.long_name) + "\nType:      "@
        + type_label(d.node_type) + (if d.node_type == NodeType::FaderLevel {
        " (float)"@
    } else {
        Seq::empty()
    }) + line(d.unit != NodeUnit::Unitless, "\nUnit:      "@, unit_label(d.unit))
}

/// The description of `d`, with `texts` as the texts of its floats.
pub open spec fn description(d: WingNodeDefView, texts: Seq<Seq<char>>) -> Seq<char> {
    heading(d) + details(d, texts)
}

/// The texts as plain values.
pub open spec fn texts_view(texts: Seq<String>) -> Seq<Seq<char>> {
    Seq::new(texts.len(), |k: int| texts[k]@)
}

/// Appends one choice of an enumeration to `out`.
fn push_item(out: &mut String, first: bool, value: &str, label: &str)
    ensures
        final(out)@ == old(out)@ + item_text(first, value@, label@),
{
    if first {
        out.append("     ");
    } else {
        out.append("           ");
    }
    out.append(value);
    if !label.is_empty() {
        out.append(" (");
        out.append(label);
        out.append(")");
    }
    out.append("\n");
    assert(out@ =~= old(out)@ + item_text(first, value@, label@));
}

/// The `i`-th of `texts`, or the empty text where there are fewer.
fn text_at(texts: &Vec<String>, i: usize) -> (s: &str)
    ensures
        s@ == text_of(texts_view(texts@), i as int),
{
    if i < texts.len() {
        texts[i].as_str()
    } else {
        proof {
            reveal_strlit("");
        }
        ""
    }
}

/// Appends a line of a label and a number to `out`.
fn push_number_line(out: &mut String, label: &str, value: i64)
    ensures
        final(out)@ == old(out)@ + line(true, label@, decimal(value as int)),
{
    out.append(label);
    push_decimal(out, value);
    assert(out@ =~= old(out)@ + line(true, label@, decimal(value as int)));
}

/// Appends a line of a label and a text to `out`.
fn push_text_line(out: &mut String, label: &str, value: &str)
    ensures
        final(out)@ == old(out)@ + line(true, label@, value@),
{
    out.append(label);
    out.append(value);
    assert(out@ =~= old(out)@ + line(true, label@, value@));
}

impl WingNodeDef {
    /// The floats that the description shows, in the order in which it shows
    /// them, as 32-bit patterns.
    pub fn floats(&self) -> (v: Vec<u32>)
        ensures
            v@ == shown_floats(self@),
    {
        let mut v: Vec<u32> = Vec::new();
        if let Some(f) = self.min_float {
            v.push(f);
        }
        if let Some(f) = self.max_float {
            v.push(f);
        }
        let ghost ranges = v@;
        if let Some(items) = &self.float_enum {
            let mut i: usize = 0;
            while i < items.len()
                invariant
                    i <= items.len(),
                    v@ == ranges + Seq::new(i as nat, |k: int| items@[k].item),
                decreases items.len() - i,
            {
                v.push(items[i].item);
                i = i + 1;
                assert(v@ =~= ranges + Seq::new(i as nat, |k: int| items@[k].item));
            }
            assert(v@ =~= shown_floats(self@));
        } else {
            assert(v@ =~= shown_floats(self@));
        }
        v
    }

    /// The lines that every description has.
    fn heading_text(&self) -> (r: String)
        ensures
            r@ == heading(self@),
    {
        let mut r = String::from_str("Id:        ");
        push_decimal(&mut r, self.id as i64);
        r.append("\nRead-only: ");
        r.append(if self.read_only { "yes" } else { "no" });
        let ghost first = r@;
        if self.index != 0 {
            push_number_line(&mut r, "\nIndex:     ", self.index as i64);
        }
        if !self.name.as_str().is_empty() {
            push_text_line(&mut r, "\nName:      ", self.name.as_str());
        }
        if !self.long_name.as_str().is_empty() {
            push_text_line(&mut r, "\nLong Name: ", self.long_name.as_str());
        }
        let ghost named = r@;
        assert(named =~= first + line(self.index != 0, "\nIndex:     "@, decimal(self.index as int))
            + line(self.name@.len() > 0, "\nName:      "@, self.name@) + line(
            self.long_name@.len() > 0,
            "\nLong Name: "@,
            self.long_name@,
        ));
        r.append("\nType:      ");
        r.append(self.node_type.label());
        if self.node_type == NodeType::FaderLevel {
            r.append(" (float)");
        }
        if self.unit != NodeUnit::Unitless {
            push_text_line(&mut r, "\nUnit:      ", self.unit.label());
        }
        assert(r@ =~= heading(self@));
        r
    }

    /// Appends the lines of a float node: least and greatest value, steps.
    fn push_float_range(&self, r: &mut String, texts: &Vec<String>)
        requires
            self.node_type == NodeType::LinearFloat || self.node_type
                == NodeType::LogarithmicFloat || self.node_type == NodeType::FaderLevel,
        ensures
            final(r)@ == old(r)@ + details(self@, texts_view(texts@)),
    {
        let max_at: usize = if self.min_float.is_some() { 1 } else { 0 };
        if self.min_float.is_some() {
            push_text_line(r, "\nMinimum:   ", text_at(texts, 0));
        }
        if self.max_float.is_some() {
            push_text_line(r, "\nMaximum:   ", text_at(texts, max_at));
        }
        if let Some(steps) = self.steps {
            push_number_line(r, "\nSteps:     ", steps as i64);
        }
        assert(r@ =~= old(r)@ + details(self@, texts_view(texts@)));
    }

    /// Appends the lines of an integer node: least and greatest value.
    fn push_int_range(&self, r: &mut String, texts: &Vec<String>)
        requires
            self.node_type == NodeType::Integer,
        ensures
            final(r)@ == old(r)@ + details(self@, texts_view(texts@)),
    {
        if let Some(v) = self.min_int {
            push_number_line(r, "\nMinimum:   ", v as i64);
        }
        if let Some(v) = self.max_int {
            push_number_line(r, "\nMaximum:   ", v as i64);
        }
        assert(r@ =~= old(r)@ + details(self@, texts_view(texts@)));
    }

    /// Appends the choices of a string enumeration.
    fn push_string_items(&self, r: &mut String, texts: &Vec<String>)
        requires
            self.node_type == NodeType::StringEnum,
        ensures
            final(r)@ == old(r)@ + details(self@, texts_view(texts@)),
    {
        if let Some(items) = &self.string_enum {
            r.append("\nItems:");
            let ghost views = self@.string_enum->0;
            let mut i: usize = 0;
            while i < items.len()
                invariant
                    i <= items.len(),
                    views.len() == items@.len(),
                    forall|k: int| 0 <= k < items@.len() ==> views[k] == items@[k]@,
                    r@ == old(r)@ + "\nItems:"@ + string_items_text(views, i as int),
                decreases items.len() - i,
            {
                push_item(r, i == 0, items[i].item.as_str(), items[i].long_item.as_str());
                i = i + 1;
                assert(r@ =~= old(r)@ + "\nItems:"@ + string_items_text(views, i as int));
            }
            assert(r@ =~= old(r)@ + details(self@, texts_view(texts@)));
        } else {
            assert(r@ =~= old(r)@ + details(self@, texts_view(texts@)));
        }
    }

    /// Appends the choices of a float enumeration.
    fn push_float_items(&self, r: &mut String, texts: &Vec<String>)
        requires
            self.node_type == NodeType::FloatEnum,
        ensures
            final(r)@ == old(r)@ + details(self@, texts_view(texts@)),
    {
        let max_at: usize = if self.min_float.is_some() { 1 } else { 0 };
        let items_at: usize = if self.max_float.is_some() { max_at + 1 } else { max_at };
        if let Some(items) = &self.float_enum {
            r.append("\nItems:");
            let ghost views = self@.float_enum->0;
            let ghost t = texts_view(texts@);
            let mut i: usize = 0;
            while i < items.len()
                invariant
                    i <= items.len(),
                    views.len() == items@.len(),
                    forall|k: int| 0 <= k < items@.len() ==> views[k] == items@[k]@,
                    items_at <= 2,
                    t == texts_view(texts@),
                    r@ == old(r)@ + "\nItems:"@ + float_items_text(
                        views,
                        t,
                        items_at as int,
                        i as int,
                    ),
                decreases items.len() - i,
            {
                let value = match items_at.checked_add(i) {
                    Some(k) => text_at(texts, k),
                    None => text_at(texts, texts.len()),
                };
                assert(value@ == text_of(t, items_at + i));
                assert(views[i as int].long_item == items@[i as int].long_item@);
                push_item(r, i == 0, value, items[i].long_item.as_str());
                i = i + 1;
                assert(r@ =~= old(r)@ + "\nItems:"@ + float_items_text(
                    views,
                    t,
                    items_at as int,
                    i as int,
                ));
            }
            assert(r@ =~= old(r)@ + details(self@, texts_view(texts@)));
        } else {
            assert(r@ =~= old(r)@ + details(self@, texts_view(texts@)));
        }
    }

    /// Describes the node in lines of text. `texts` holds the text of each
    /// float that `floats` lists, in that order; a float whose text is
    /// missing is shown as nothing.
    pub fn to_description(&self, texts: &Vec<String>) -> (r: String)
        ensures
            r@ == description(self@, texts_view(texts@)),
    {
        let mut r = self.heading_text();
        match self.node_type {
            NodeType::LinearFloat | NodeType::LogarithmicFloat | NodeType::FaderLevel => {
                self.push_float_range(&mut r, texts);
            },
            NodeType::Integer => {
                self.push_int_range(&mut r, texts);
            },
            NodeType::String => {
                if let Some(v) = self.max_string_len {
                    push_number_line(&mut r, "\nMaxLength: ", v as i64);
                }
                assert(r@ =~= heading(self@) + details(self@, texts_view(texts@)));
            },
            NodeType::StringEnum => {
                self.push_string_items(&mut r, texts);
            },
            NodeType::FloatEnum => {
                self.push_float_items(&mut r, texts);
            },
            NodeType::Node => {
                assert(r@ =~= heading(self@) + details(self@, texts_view(texts@)));
            },
        }
        r
    }
}

} // verus!
