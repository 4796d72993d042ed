//! A node definition as a JSON value of `jzon`.
//!
//! Floats are held as bit patterns, and their JSON values are made
//! elsewhere: the caller hands in the value of each float that `floats`
//! lists.
use vstd::prelude::*;
use crate::describe::{type_label, unit_label};
use crate::node::{
    FloatEnumItem, FloatEnumItemView, NodeType, NodeUnit, StringEnumItem, StringEnumItemView,
    WingNodeDef, WingNodeDefView,
};

verus! {

/// A JSON value of `jzon`.
#[verifier::external_type_specification]
#[verifier::external_body]
pub struct ExJsonValue(jzon::JsonValue);

/// Whether a JSON value is an object.
pub uninterp spec fn json_is_object(j: jzon::JsonValue) -> bool;

/// The entries of a JSON object, keys and values, in the order in which the
/// keys came in.
pub uninterp spec fn json_entries(j: jzon::JsonValue) -> Seq<(Seq<char>, jzon::JsonValue)>;

/// The elements of a JSON array, in their order.
pub uninterp spec fn json_elements(j: jzon::JsonValue) -> Seq<jzon::JsonValue>;

/// The JSON value that `jzon` makes of a text.
pub uninterp spec fn json_of_text(s: Seq<char>) -> jzon::JsonValue;

/// The JSON value that `jzon` makes of a signed 64-bit integer.
pub uninterp spec fn json_of_int(v: int) -> jzon::JsonValue;

/// The JSON value that `jzon` makes of a truth value.
pub uninterp spec fn json_of_bool(b: bool) -> jzon::JsonValue;

/// The entries of an object: keys with their values.
pub type Entries = Seq<(Seq<char>, jzon::JsonValue)>;

/// Where the entry of `key` stands in `entries`: the place of the first
/// entry with that key, or the number of entries where there is none.
pub open spec fn key_index(entries: Entries, key: Seq<char>) -> int
    decreases entries.len(),
{
    if entries.len() == 0 {
        0
    } else if entries[0].0 == key {
        0
    } else {
        1 + key_index(entries.skip(1), key)
    }
}

/// The entries after `key` was set to `value`: the entry of `key` holds the
/// new value where there was one, else a new entry stands at the end.
pub open spec fn put(entries: Entries, key: Seq<char>, value: jzon::JsonValue) -> Entries {
    if 0 <= key_index(entries, key) < entries.len() {
        entries.update(key_index(entries, key), (key, value))
    } else {
        entries.push((key, value))
    }
}

/// The value that `key` holds in `entries`.
pub open spec fn member(entries: Entries, key: Seq<char>) -> jzon::JsonValue {
    entries[key_index(entries, key)].1
}

/// The entries of an object that was empty and had `fields` set one after
/// the other.
spec fn filled(fields: Entries) -> Entries
    decreases fields.len(),
{
    if fields.len() == 0 {
        Seq::empty()
    } else {
        put(filled(fields.drop_last()), fields.last().0, fields.last().1)
    }
}

/// `jzon::JsonValue::new_object`: an object without entries.
#[verifier::external_body]
fn json_object() -> (j: jzon::JsonValue)
    ensures
        json_is_object(j),
        json_entries(j) == Seq::<(Seq<char>, jzon::JsonValue)>::empty(),
{
    jzon::JsonValue::new_object()
}

/// `jzon::JsonValue::insert` on an object: the entry of `key` gets the new
/// value where there is one, else a new entry is added behind the others.
#[verifier::external_body]
fn json_insert(j: &mut jzon::JsonValue, key: &str, value: jzon::JsonValue)
    requires
        json_is_object(*old(j)),
    ensures
        json_is_object(*final(j)),
        json_entries(*final(j)) == put(json_entries(*old(j)), key@, value),
{
    let _ = j.insert(key, value);
}

/// `jzon::JsonValue::from` of a `&str`.
#[verifier::external_body]
fn json_text(s: &str) -> (j: jzon::JsonValue)
    ensures
        j == json_of_text(s@),
{
    jzon::JsonValue::from(s)
}

/// `jzon::JsonValue::from` of an `i64`. It negates a negative number to
/// get at its magnitude, which the least `i64` does not survive: that one
/// is left out.
#[verifier::external_body]
fn json_int(v: i64) -> (j: jzon::JsonValue)
    requires
        v != i64::MIN,
    ensures
        j == json_of_int(v as int),
{
    jzon::JsonValue::from(v)
}

/// `jzon::JsonValue::from` of a `bool`.
#[verifier::external_body]
fn json_bool(b: bool) -> (j: jzon::JsonValue)
    ensures
        j == json_of_bool(b),
{
    jzon::JsonValue::from(b)
}

/// `jzon::JsonValue::from` of a vector of JSON values: the array of them.
#[verifier::external_body]
fn json_array(items: Vec<jzon::JsonValue>) -> (j: jzon::JsonValue)
    ensures
        json_elements(j) == items@,
{
    jzon::JsonValue::from(items)
}

/// A field that is there only where `shown` says so.
pub open spec fn field(shown: bool, key: Seq<char>, value: jzon::JsonValue) -> Entries {
    if shown {
        seq![(key, value)]
    } else {
        Seq::empty()
    }
}

/// The fields that tell which node it is: id, index and names. Index and
/// names are left out where they are zero or empty.
pub open spec fn naming_fields(d: WingNodeDefView) -> Entries {
    seq![("id"@, json_of_int(d.id as int))] + field(
        d.index != 0,
        "index"@,
        json_of_int(d.index as int),
    ) + field(d.name.len() > 0, "name"@, json_of_text(d.name)) + field(
        d.long_name.len() > 0,
        "longname"@,
        json_of_text(d.long_name),
    )
}

/// The fields that every definition has: those that tell which node it is,
/// then type, unit and read-only mark. The unit is left out where there is
/// none, the mark where it is not set.
pub open spec fn common_fields(d: WingNodeDefView) -> Entries {
    naming_fields(d) + seq![("type"@, json_of_text(type_label(d.node_type)))] + field(
        d.unit != NodeUnit::Unitless,
        "unit"@,
        json_of_text(unit_label(d.unit)),
    ) + field(d.read_only, "read_only"@, json_of_bool(true))
}

/// The fields of a range, which depend on the node's type. `floats` holds
/// the values of the least and the greatest float, as far as the definition
/// has them; one that is missing is left out.
pub open spec fn range_fields(d: WingNodeDefView, floats: Seq<jzon::JsonValue>) -> Entries {
    let max_at: int = if d.min_float is Some { 1 } else { 0 };
    match d.node_type {
        NodeType::LinearFloat | NodeType::LogarithmicFloat | NodeType::FaderLevel => field(
            d.min_float is Some && 0 < floats.len(),
            "minfloat"@,
            floats[0],
        ) + field(d.max_float is Some && max_at < floats.len(), "maxfloat"@, floats[max_at])
            + field(d.steps is Some, "steps"@, json_of_int(d.steps->0 as int)),
        NodeType::Integer => field(d.min_int is Some, "minint"@, json_of_int(d.min_int->0 as int))
            + field(d.max_int is Some, "maxint"@, json_of_int(d.max_int->0 as int)),
        NodeType::String => field(
            d.max_string_len is Some,
            "maxstringlen"@,
            json_of_int(d.max_string_len->0 as int),
        ),
        _ => Seq::empty(),
    }
}

/// Where among the floats of a definition the choices of its float
/// enumeration begin.
pub open spec fn items_at(d: WingNodeDefView) -> int {
    (if d.min_float is Some { 1int } else { 0int }) + (if d.max_float is Some {
        1int
    } else {
        0int
    })
}

/// Whether the definition has a field `items`: it is an enumeration and
/// holds its choices.
pub open spec fn has_items(d: WingNodeDefView) -> bool {
    (d.node_type == NodeType::StringEnum && d.string_enum is Some) || (d.node_type
        == NodeType::FloatEnum && d.float_enum is Some)
}

/// The fields of one choice of a string enumeration.
pub open spec fn string_item_fields(item: StringEnumItemView) -> Entries {
    seq![("item"@, json_of_text(item.item))] + field(
        item.long_item.len() > 0,
        "longitem"@,
        json_of_text(item.long_item),
    )
}

/// The fields of one choice of a float enumeration, whose value is the
/// `at`-th of `floats`.
pub open spec fn float_item_fields(
    item: FloatEnumItemView,
    floats: Seq<jzon::JsonValue>,
    at: int,
) -> Entries {
    field(0 <= at < floats.len(), "item"@, floats[at]) + field(
        item.long_item.len() > 0,
        "longitem"@,
        json_of_text(item.long_item),
    )
}

/// Whether `j` is the array of the choices of `d`: one object for each, with
/// the fields of that choice.
pub open spec fn shows_items(
    j: jzon::JsonValue,
    d: WingNodeDefView,
    floats: Seq<jzon::JsonValue>,
) -> bool {
    if d.node_type == NodeType::StringEnum {
        &&& json_elements(j).len() == d.string_enum->0.len()
        &&& forall|i: int|
            0 <= i < d.string_enum->0.len() ==> json_is_object(#[trigger] json_elements(j)[i])
                && json_entries(json_elements(j)[i]) == string_item_fields(d.string_enum->0[i])
    } else {
        &&& json_elements(j).len() == d.float_enum->0.len()
        &&& forall|i: int|
            0 <= i < d.float_enum->0.len() ==> json_is_object(#[trigger] json_elements(j)[i])
                && json_entries(json_elements(j)[i]) == float_item_fields(
                d.float_enum->0[i],
                floats,
                items_at(d) + i,
            )
    }
}

/// The fields of the JSON object of `d`, in their order: the common
/// fields, those of the range, for an enumeration the field `items` with
/// the array `items`, and last the field `fullname` where a full name is
/// given.
pub open spec fn definition_fields(
    d: WingNodeDefView,
    floats: Seq<jzon::JsonValue>,
    items: jzon::JsonValue,
    full_name: Option<Seq<char>>,
) -> Entries {
    common_fields(d) + range_fields(d, floats) + field(has_items(d), "items"@, items) + field(
        full_name is Some,
        "fullname"@,
        json_of_text(full_name->0),
    )
}

/// Whether `j` is the JSON object of `d`: an object that holds the fields
/// of `d` and no others, `items` being the array of its choices.
pub open spec fn shows(
    j: jzon::JsonValue,
    d: WingNodeDefView,
    floats: Seq<jzon::JsonValue>,
    full_name: Option<Seq<char>>,
) -> bool {
    let items = member(json_entries(j), "items"@);
    &&& json_is_object(j)
    &&& json_entries(j) == definition_fields(d, floats, items, full_name)
    &&& has_items(d) ==> shows_items(items, d, floats)
}

/// Whether `j` is an object that was empty and had the fields of `d` set
/// one after the other.
spec fn was_filled(
    j: jzon::JsonValue,
    d: WingNodeDefView,
    floats: Seq<jzon::JsonValue>,
    full_name: Option<Seq<char>>,
) -> bool {
    let items = member(json_entries(j), "items"@);
    &&& json_is_object(j)
    &&& json_entries(j) == filled(definition_fields(d, floats, items, full_name))
    &&& has_items(d) ==> shows_items(items, d, floats)
}

/// Sets `key` to `value` in the object `j`, which had `done` set before.
fn set(j: &mut jzon::JsonValue, key: &str, value: jzon::JsonValue, Ghost(done): Ghost<Entries>)
    requires
        json_is_object(*old(j)),
        json_entries(*old(j)) == filled(done),
    ensures
        json_is_object(*final(j)),
        json_entries(*final(j)) == filled(done.push((key@, value))),
{
    assert(done.push((key@, value)).drop_last() =~= done);
    json_insert(j, key, value);
}

/// Takes the first of `rest`, if there is one.
fn take_first(rest: &mut Vec<jzon::JsonValue>) -> (v: Option<jzon::JsonValue>)
    ensures
        old(rest)@.len() == 0 ==> v is None && final(rest)@ == old(rest)@,
        old(rest)@.len() > 0 ==> v == Some(old(rest)@[0]) && final(rest)@ == old(rest)@.skip(1),
{
    if rest.len() > 0 {
        let v = rest.remove(0);
        assert(rest@ =~= old(rest)@.skip(1));
        Some(v)
    } else {
        None
    }
}

/// The object of one choice of a string enumeration.
fn string_item_json(item: &StringEnumItem) -> (j: jzon::JsonValue)
    ensures
        json_is_object(j),
        json_entries(j) == string_item_fields(item@),
{
    let mut j = json_object();
    let ghost mut done: Entries = Seq::empty();
    set(&mut j, "item", json_text(item.item.as_str()), Ghost(done));
    proof {
        done = done.push(("item"@, json_of_text(item.item@)));
    }
    if !item.long_item.as_str().is_empty() {
        set(&mut j, "longitem", json_text(item.long_item.as_str()), Ghost(done));
        proof {
            done = done.push(("longitem"@, json_of_text(item.long_item@)));
        }
    }
    proof {
        assert(done =~= string_item_fields(item@));
        lemma_item_keys_differ();
        lemma_filled_distinct(done);
    }
    j
}

/// The object of one choice of a float enumeration, whose value is `value`
/// if there is one.
fn float_item_json(
    item: &FloatEnumItem,
    value: Option<jzon::JsonValue>,
    Ghost(floats): Ghost<Seq<jzon::JsonValue>>,
    Ghost(at): Ghost<int>,
) -> (j: jzon::JsonValue)
    requires
        value is Some <==> 0 <= at < floats.len(),
        value matches Some(v) ==> v == floats[at],
    ensures
        json_is_object(j),
        json_entries(j) == float_item_fields(item@, floats, at),
{
    let mut j = json_object();
    let ghost mut done: Entries = Seq::empty();
    if let Some(v) = value {
        set(&mut j, "item", v, Ghost(done));
        proof {
            done = done.push(("item"@, v));
        }
    }
    if !item.long_item.as_str().is_empty() {
        set(&mut j, "longitem", json_text(item.long_item.as_str()), Ghost(done));
        proof {
            done = done.push(("longitem"@, json_of_text(item.long_item@)));
        }
    }
    proof {
        assert(done =~= float_item_fields(item@, floats, at));
        lemma_item_keys_differ();
        lemma_filled_distinct(done);
    }
    j
}

impl WingNodeDef {
    /// Sets id, index and names.
    fn naming_json(&self) -> (j: jzon::JsonValue)
        ensures
            json_is_object(j),
            json_entries(j) == filled(naming_fields(self@)),
    {
        let mut j = json_object();
        let ghost mut done: Entries = Seq::empty();
        set(&mut j, "id", json_int(self.id as i64), Ghost(done));
        proof {
            done = done.push(("id"@, json_of_int(self.id as int)));
        }
        if self.index != 0 {
            set(&mut j, "index", json_int(self.index as i64), Ghost(done));
            proof {
                done = done.push(("index"@, json_of_int(self.index as int)));
            }
        }
        if !self.name.as_str().is_empty() {
            set(&mut j, "name", json_text(self.name.as_str()), Ghost(done));
            proof {
                done = done.push(("name"@, json_of_text(self.name@)));
            }
        }
        if !self.long_name.as_str().is_empty() {
            set(&mut j, "longname", json_text(self.long_name.as_str()), Ghost(done));
            proof {
                done = done.push(("longname"@, json_of_text(self.long_name@)));
            }
        }
        assert(done =~= naming_fields(self@));
        j
    }

    /// Sets the fields that every definition has.
    fn common_json(&self) -> (j: jzon::JsonValue)
        ensures
            json_is_object(j),
            json_entries(j) == filled(common_fields(self@)),
    {
        let mut j = self.naming_json();
        let ghost mut done: Entries = naming_fields(self@);
        set(&mut j, "type", json_text(self.node_type.label()), Ghost(done));
        proof {
            done = done.push(("type"@, json_of_text(type_label(self.node_type))));
        }
        if self.unit != NodeUnit::Unitless {
            set(&mut j, "unit", json_text(self.unit.label()), Ghost(done));
            proof {
                done = done.push(("unit"@, json_of_text(unit_label(self.unit))));
            }
        }
        if self.read_only {
            set(&mut j, "read_only", json_bool(true), Ghost(done));
            proof {
                done = done.push(("read_only"@, json_of_bool(true)));
            }
        }
        assert(done =~= common_fields(self@));
        j
    }

    /// Sets the fields of the range in `j`, taking the floats they need
    /// from the front of `rest`.
    fn range_json(
        &self,
        j: &mut jzon::JsonValue,
        rest: &mut Vec<jzon::JsonValue>,
        Ghost(done): Ghost<Entries>,
    )
        requires
            json_is_object(*old(j)),
            json_entries(*old(j)) == filled(done),
        ensures
            json_is_object(*final(j)),
            json_entries(*final(j)) == filled(done + range_fields(self@, old(rest)@)),
            final(rest)@ == old(rest)@.skip(
                if items_at(self@) <= old(rest)@.len() {
                    items_at(self@)
                } else {
                    old(rest)@.len() as int
                },
            ),
    {
        let ghost floats = rest@;
        let ghost mut now = done;
        let min = if self.min_float.is_some() { take_first(rest) } else { None };
        let max = if self.max_float.is_some() { take_first(rest) } else { None };
        match self.node_type {
            NodeType::LinearFloat | NodeType::LogarithmicFloat | NodeType::FaderLevel => {
                if let Some(v) = min {
                    set(j, "minfloat", v, Ghost(now));
                    proof {
                        now = now.push(("minfloat"@, v));
                    }
                }
                if let Some(v) = max {
                    set(j, "maxfloat", v, Ghost(now));
                    proof {
                        now = now.push(("maxfloat"@, v));
                    }
                }
                if let Some(steps) = self.steps {
                    set(j, "steps", json_int(steps as i64), Ghost(now));
                    proof {
                        now = now.push(("steps"@, json_of_int(steps as int)));
                    }
                }
            },
            NodeType::Integer => {
                if let Some(v) = self.min_int {
                    set(j, "minint", json_int(v as i64), Ghost(now));
                    proof {
                        now = now.push(("minint"@, json_of_int(v as int)));
                    }
                }
                if let Some(v) = self.max_int {
                    set(j, "maxint", json_int(v as i64), Ghost(now));
                    proof {
                        now = now.push(("maxint"@, json_of_int(v as int)));
                    }
                }
            },
            NodeType::String => {
                if let Some(v) = self.max_string_len {
                    set(j, "maxstringlen", json_int(v as i64), Ghost(now));
                    proof {
                        now = now.push(("maxstringlen"@, json_of_int(v as int)));
                    }
                }
            },
            _ => {},
        }
        assert(now =~= done + range_fields(self@, floats));
        assert(rest@ =~= floats.skip(
            if items_at(self@) <= floats.len() {
                items_at(self@)
            } else {
                floats.len() as int
            },
        ));
    }

    /// The array of the choices of a string enumeration.
    fn string_items_json(items: &Vec<StringEnumItem>) -> (list: Vec<jzon::JsonValue>)
        ensures
            list@.len() == items@.len(),
            forall|i: int|
                0 <= i < items@.len() ==> json_is_object(#[trigger] list@[i]) && json_entries(
                    list@[i],
                ) == string_item_fields(items@[i]@),
    {
        let mut list: Vec<jzon::JsonValue> = Vec::new();
        let mut i: usize = 0;
        while i < items.len()
            invariant
                i <= items.len(),
                list@.len() == i,
                forall|k: int|
                    0 <= k < i ==> json_is_object(#[trigger] list@[k]) && json_entries(list@[k])
                        == string_item_fields(items@[k]@),
            decreases items.len() - i,
        {
            list.push(string_item_json(&items[i]));
            i = i + 1;
        }
        list
    }

    /// The array of the choices of a float enumeration, the values of which
    /// are taken from the front of `rest`.
    fn float_items_json(
        items: &Vec<FloatEnumItem>,
        rest: &mut Vec<jzon::JsonValue>,
        Ghost(floats): Ghost<Seq<jzon::JsonValue>>,
        Ghost(from): Ghost<int>,
    ) -> (list: Vec<jzon::JsonValue>)
        requires
            0 <= from <= 2,
            old(rest)@ == floats.skip(
                if from <= floats.len() {
                    from
                } else {
                    floats.len() as int
                },
            ),
        ensures
            list@.len() == items@.len(),
            forall|i: int|
                0 <= i < items@.len() ==> json_is_object(#[trigger] list@[i]) && json_entries(
                    list@[i],
                ) == float_item_fields(items@[i]@, floats, from + i),
    {
        let mut list: Vec<jzon::JsonValue> = Vec::new();
        let mut i: usize = 0;
        while i < items.len()
            invariant
                i <= items.len(),
                list@.len() == i,
                0 <= from <= 2,
                rest@ == floats.skip(
                    if from + i <= floats.len() {
                        from + i
                    } else {
                        floats.len() as int
                    },
                ),
                forall|k: int|
                    0 <= k < i ==> json_is_object(#[trigger] list@[k]) && json_entries(list@[k])
                        == float_item_fields(items@[k]@, floats, from + k),
            decreases items.len() - i,
        {
            let ghost before = rest@;
            let value = take_first(rest);
            proof {
                if from + i < floats.len() {
                    assert(before[0] == floats[from + i]);
                    assert(before.skip(1) =~= floats.skip(from + i + 1));
                }
            }
            list.push(float_item_json(&items[i], value, Ghost(floats), Ghost(from + i)));
            i = i + 1;
        }
        list
    }

    /// The array of the choices of an enumeration, if the definition has
    /// them.
    fn items_json(&self, rest: &mut Vec<jzon::JsonValue>, Ghost(floats): Ghost<
        Seq<jzon::JsonValue>,
    >) -> (list: Option<jzon::JsonValue>)
        requires
            old(rest)@ == floats.skip(
                if items_at(self@) <= floats.len() {
                    items_at(self@)
                } else {
                    floats.len() as int
                },
            ),
        ensures
            list is Some <==> has_items(self@),
            list matches Some(array) ==> shows_items(array, self@, floats),
    {
        match self.node_type {
            NodeType::StringEnum => match &self.string_enum {
                Some(items) => {
                    let array = json_array(WingNodeDef::string_items_json(items));
                    assert forall|i: int| 0 <= i < items@.len() implies self@.string_enum->0[i]
                        == items@[i]@ by {}
                    Some(array)
                },
                None => None,
            },
            NodeType::FloatEnum => match &self.float_enum {
                Some(items) => {
                    let array = json_array(
                        WingNodeDef::float_items_json(
                            items,
                            rest,
                            Ghost(floats),
                            Ghost(items_at(self@)),
                        ),
                    );
                    assert forall|i: int| 0 <= i < items@.len() implies self@.float_enum->0[i]
                        == items@[i]@ by {}
                    Some(array)
                },
                None => None,
            },
            _ => None,
        }
    }

    /// Builds the object, with the full name as its last field if one is
    /// given.
    fn build(&self, floats: Vec<jzon::JsonValue>, full_name: Option<&str>) -> (j: jzon::JsonValue)
        ensures
            shows(
                j,
                self@,
                floats@,
                match full_name {
                    Some(n) => Some(n@),
                    None => None,
                },
            ),
    {
        let ghost name = match full_name {
            Some(n) => Some(n@),
            None => None,
        };
        let mut rest = floats;
        let mut j = self.common_json();
        self.range_json(&mut j, &mut rest, Ghost(common_fields(self@)));
        let ghost mut fields = common_fields(self@) + range_fields(self@, floats@);
        let ghost plain = fields;
        let ghost mut array = member(json_entries(j), "items"@);
        if let Some(list) = self.items_json(&mut rest, Ghost(floats@)) {
            set(&mut j, "items", list, Ghost(fields));
            proof {
                lemma_put_member(filled(fields), "items"@, list);
                assert(fields.push(("items"@, list)).drop_last() =~= fields);
                fields = fields.push(("items"@, list));
                array = list;
            }
        }
        assert(has_items(self@) ==> member(json_entries(j), "items"@) == array);
        assert(fields =~= plain + field(has_items(self@), "items"@, array));
        if let Some(name) = full_name {
            let ghost before = json_entries(j);
            set(&mut j, "fullname", json_text(name), Ghost(fields));
            proof {
                assert(fields.push(("fullname"@, json_of_text(name@))).drop_last() =~= fields);
                if has_items(self@) {
                    reveal_strlit("items");
                    reveal_strlit("fullname");
                    assert("items"@.len() != "fullname"@.len());
                    lemma_put_member(filled(plain), "items"@, array);
                    lemma_put_other(before, "fullname"@, json_of_text(name@), "items"@);
                }
                fields = fields.push(("fullname"@, json_of_text(name@)));
            }
        }
        proof {
            assert(fields =~= definition_fields(
                self@,
                floats@,
                member(json_entries(j), "items"@),
                name,
            ));
            lemma_filled_fields(j, self@, floats@, name);
        }
        j
    }

    /// The definition as a JSON object. `floats` holds the JSON value of
    /// each float that `floats()` lists, in that order; a float whose value
    /// is missing is left out.
    pub fn to_json(&self, floats: Vec<jzon::JsonValue>) -> (j: jzon::JsonValue)
        ensures
            shows(j, self@, floats@, None),
    {
        self.build(floats, None)
    }

    /// The definition as a JSON object, with the node's full name as the
    /// last field, `fullname`.
    pub fn to_json_named(&self, floats: Vec<jzon::JsonValue>, full_name: &str) -> (j:
        jzon::JsonValue)
        ensures
            shows(j, self@, floats@, Some(full_name@)),
    {
        self.build(floats, Some(full_name))
    }
}

/// Where a key stands: among the entries if one of them has it, and then at
/// the first that has it; else behind them all.
proof fn lemma_key_index(entries: Entries, key: Seq<char>)
    ensures
        0 <= key_index(entries, key) <= entries.len(),
        key_index(entries, key) < entries.len() ==> entries[key_index(entries, key)].0 == key,
        forall|i: int| 0 <= i < key_index(entries, key) ==> (#[trigger] entries[i]).0 != key,
    decreases entries.len(),
{
    if entries.len() > 0 && entries[0].0 != key {
        let tail = entries.skip(1);
        lemma_key_index(tail, key);
        assert forall|i: int| 0 <= i < key_index(entries, key) implies (#[trigger] entries[i]).0
            != key by {
            if i > 0 {
                assert(entries[i] == tail[i - 1]);
            }
        }
    }
}

/// Where a key stands is told by the entries before it and its own: none of
/// those has the key, and it has it or is the end.
proof fn lemma_key_index_is(entries: Entries, key: Seq<char>, at: int)
    requires
        0 <= at <= entries.len(),
        forall|i: int| 0 <= i < at ==> (#[trigger] entries[i]).0 != key,
        at < entries.len() ==> entries[at].0 == key,
    ensures
        key_index(entries, key) == at,
    decreases entries.len(),
{
    if entries.len() > 0 && at > 0 {
        let tail = entries.skip(1);
        assert(entries[0].0 != key);
        assert forall|i: int| 0 <= i < at - 1 implies (#[trigger] tail[i]).0 != key by {
            assert(tail[i] == entries[i + 1]);
        }
        lemma_key_index_is(tail, key, at - 1);
    }
}

/// Setting a key leaves the value of another key, which has an entry, as it
/// was.
proof fn lemma_put_other(entries: Entries, key: Seq<char>, value: jzon::JsonValue, other: Seq<char>)
    requires
        key != other,
        0 <= key_index(entries, other) < entries.len(),
    ensures
        member(put(entries, key, value), other) == member(entries, other),
{
    lemma_key_index(entries, key);
    lemma_key_index(entries, other);
    let at = key_index(entries, other);
    let after = put(entries, key, value);
    assert forall|i: int| 0 <= i < at implies (#[trigger] after[i]).0 != other by {
        if i != key_index(entries, key) {
            assert(after[i] == entries[i]);
        }
    }
    assert(after[at] == entries[at]);
    lemma_key_index_is(after, other, at);
}

/// After a key was set, it holds the value it was set to.
proof fn lemma_put_member(entries: Entries, key: Seq<char>, value: jzon::JsonValue)
    ensures
        member(put(entries, key, value), key) == value,
        0 <= key_index(put(entries, key, value), key) < put(entries, key, value).len(),
{
    lemma_key_index(entries, key);
    let at = key_index(entries, key);
    let after = put(entries, key, value);
    assert forall|i: int| 0 <= i < at implies (#[trigger] after[i]).0 != key by {
        assert(after[i] == entries[i]);
    }
    lemma_key_index_is(after, key, at);
}

/// Whether no two of the fields have the same key.
spec fn distinct_keys(fields: Entries) -> bool {
    forall|i: int, j: int| 0 <= i < j < fields.len() ==> fields[i].0 != fields[j].0
}

/// An object that was empty and had fields with different keys set holds
/// those fields, in their order.
proof fn lemma_filled_distinct(fields: Entries)
    requires
        distinct_keys(fields),
    ensures
        filled(fields) == fields,
    decreases fields.len(),
{
    if fields.len() > 0 {
        let front = fields.drop_last();
        lemma_filled_distinct(front);
        lemma_key_index_is(front, fields.last().0, front.len() as int);
        assert(front.push(fields.last()) =~= fields);
    }
}

/// The keys of the fields of a definition.
spec fn all_keys() -> Seq<Seq<char>> {
    seq![
        "id"@,
        "index"@,
        "name"@,
        "longname"@,
        "type"@,
        "unit"@,
        "read_only"@,
        "minfloat"@,
        "maxfloat"@,
        "steps"@,
        "minint"@,
        "maxint"@,
        "maxstringlen"@,
        "items"@,
        "fullname"@,
    ]
}

/// The keys of the fields of a definition are all different.
proof fn lemma_all_keys_differ()
    ensures
        forall|i: int, j: int|
            0 <= i < j < all_keys().len() ==> #[trigger] all_keys()[i] != #[trigger] all_keys()[j],
{
    reveal_strlit("id");
    reveal_strlit("index");
    reveal_strlit("name");
    reveal_strlit("longname");
    reveal_strlit("type");
    reveal_strlit("unit");
    reveal_strlit("read_only");
    reveal_strlit("minfloat");
    reveal_strlit("maxfloat");
    reveal_strlit("steps");
    reveal_strlit("minint");
    reveal_strlit("maxint");
    reveal_strlit("maxstringlen");
    reveal_strlit("items");
    reveal_strlit("fullname");
    let k = all_keys();
    assert(k[0].len() == 2 && k[1].len() == 5 && k[2].len() == 4 && k[3].len() == 8 && k[4].len()
        == 4 && k[5].len() == 4 && k[6].len() == 9 && k[7].len() == 8 && k[8].len() == 8
        && k[9].len() == 5 && k[10].len() == 6 && k[11].len() == 6 && k[12].len() == 12
        && k[13].len() == 5 && k[14].len() == 8);
    assert(k[2][0] == 'n' && k[4][0] == 't' && k[5][0] == 'u');
    assert(k[1][1] == 'n' && k[9][1] == 't' && k[13][1] == 't' && k[9][0] == 's' && k[13][0]
        == 'i');
    assert(k[3][0] == 'l' && k[7][0] == 'm' && k[8][0] == 'm' && k[14][0] == 'f' && k[7][1] == 'i'
        && k[8][1] == 'a');
    assert(k[10][1] == 'i' && k[11][1] == 'a');
}

/// The two keys of a choice are different.
proof fn lemma_item_keys_differ()
    ensures
        "item"@ != "longitem"@,
{
    reveal_strlit("item");
    reveal_strlit("longitem");
    assert("item"@.len() != "longitem"@.len());
}

/// The first `n` keys, each with its value where `shown` says that it is
/// there.
spec fn ladder(shown: Seq<bool>, values: Seq<jzon::JsonValue>, n: int) -> Entries
    decreases n,
{
    if n <= 0 {
        Seq::empty()
    } else {
        ladder(shown, values, n - 1) + field(shown[n - 1], all_keys()[n - 1], values[n - 1])
    }
}

/// Fields that come in the order of the keys have different keys.
proof fn lemma_ladder_distinct(shown: Seq<bool>, values: Seq<jzon::JsonValue>, n: int)
    requires
        0 <= n <= all_keys().len(),
    ensures
        distinct_keys(ladder(shown, values, n)),
        forall|i: int|
            0 <= i < ladder(shown, values, n).len() ==> exists|r: int|
                0 <= r < n && all_keys()[r] == (#[trigger] ladder(shown, values, n)[i]).0,
    decreases n,
{
    if n > 0 {
        lemma_ladder_distinct(shown, values, n - 1);
        lemma_all_keys_differ();
        let front = ladder(shown, values, n - 1);
        let whole = ladder(shown, values, n);
        assert forall|i: int| 0 <= i < whole.len() implies exists|r: int|
            0 <= r < n && all_keys()[r] == (#[trigger] whole[i]).0 by {
            if i < front.len() {
                assert(whole[i] == front[i]);
                let r = choose|r: int| 0 <= r < n - 1 && all_keys()[r] == front[i].0;
                assert(0 <= r < n && all_keys()[r] == whole[i].0);
            } else {
                assert(all_keys()[n - 1] == whole[i].0);
            }
        }
        assert forall|i: int, j: int| 0 <= i < j < whole.len() implies whole[i].0 != whole[j].0 by {
            assert(whole[i] == front[i]);
            if j < front.len() {
                assert(whole[j] == front[j]);
            } else {
                let r = choose|r: int| 0 <= r < n - 1 && all_keys()[r] == front[i].0;
                assert(all_keys()[r] != all_keys()[n - 1]);
            }
        }
    }
}

/// Which of the keys a definition has a field for.
spec fn shown_of(d: WingNodeDefView, floats: Seq<jzon::JsonValue>, named: bool) -> Seq<bool> {
    let float = d.node_type == NodeType::LinearFloat || d.node_type == NodeType::LogarithmicFloat
        || d.node_type == NodeType::FaderLevel;
    let max_at: int = if d.min_float is Some { 1 } else { 0 };
    seq![
        true,
        d.index != 0,
        d.name.len() > 0,
        d.long_name.len() > 0,
        true,
        d.unit != NodeUnit::Unitless,
        d.read_only,
        float && d.min_float is Some && 0 < floats.len(),
        float && d.max_float is Some && max_at < floats.len(),
        float && d.steps is Some,
        d.node_type == NodeType::Integer && d.min_int is Some,
        d.node_type == NodeType::Integer && d.max_int is Some,
        d.node_type == NodeType::String && d.max_string_len is Some,
        has_items(d),
        named,
    ]
}

/// The value that each key has in the object of a definition.
spec fn values_of(
    d: WingNodeDefView,
    floats: Seq<jzon::JsonValue>,
    items: jzon::JsonValue,
    full_name: jzon::JsonValue,
) -> Seq<jzon::JsonValue> {
    let max_at: int = if d.min_float is Some { 1 } else { 0 };
    seq![
        json_of_int(d.id as int),
        json_of_int(d.index as int),
        json_of_text(d.name),
        json_of_text(d.long_name),
        json_of_text(type_label(d.node_type)),
        json_of_text(unit_label(d.unit)),
        json_of_bool(true),
        floats[0],
        floats[max_at],
        json_of_int(d.steps->0 as int),
        json_of_int(d.min_int->0 as int),
        json_of_int(d.max_int->0 as int),
        json_of_int(d.max_string_len->0 as int),
        items,
        full_name,
    ]
}

proof fn lemma_common_ladder(shown: Seq<bool>, values: Seq<jzon::JsonValue>, d: WingNodeDefView)
    requires
        shown.len() == 15,
        values.len() == 15,
        shown.subrange(0, 7) == shown_of(d, Seq::empty(), false).subrange(0, 7),
        values.subrange(0, 7) == values_of(d, Seq::empty(), values[13], values[14]).subrange(0, 7),
    ensures
        common_fields(d) == ladder(shown, values, 7),
{
    let s0 = shown_of(d, Seq::empty(), false).subrange(0, 7);
    let v0 = values_of(d, Seq::empty(), values[13], values[14]).subrange(0, 7);
    assert(shown[0] == s0[0] && shown[1] == s0[1] && shown[2] == s0[2] && shown[3] == s0[3]
        && shown[4] == s0[4] && shown[5] == s0[5] && shown[6] == s0[6]) by {
        assert(forall|k: int| 0 <= k < 7 ==> shown.subrange(0, 7)[k] == shown[k]);
    }
    assert(values[0] == v0[0] && values[1] == v0[1] && values[2] == v0[2] && values[3] == v0[3]
        && values[4] == v0[4] && values[5] == v0[5] && values[6] == v0[6]) by {
        assert(forall|k: int| 0 <= k < 7 ==> values.subrange(0, 7)[k] == values[k]);
    }
    reveal_with_fuel(ladder, 8);
    assert(common_fields(d) =~= ladder(shown, values, 7));
}

proof fn lemma_range_ladder(d: WingNodeDefView, floats: Seq<jzon::JsonValue>, named: bool,
    items: jzon::JsonValue, full_name: jzon::JsonValue)
    ensures
        ({
            let shown = shown_of(d, floats, named);
            let values = values_of(d, floats, items, full_name);
            ladder(shown, values, 13) == ladder(shown, values, 7) + range_fields(d, floats)
        }),
{
    let shown = shown_of(d, floats, named);
    let values = values_of(d, floats, items, full_name);
    let base = ladder(shown, values, 7);
    let l8 = ladder(shown, values, 8);
    let l9 = ladder(shown, values, 9);
    let l10 = ladder(shown, values, 10);
    let l11 = ladder(shown, values, 11);
    let l12 = ladder(shown, values, 12);
    let l13 = ladder(shown, values, 13);
    assert(l8 == base + field(shown[7], all_keys()[7], values[7]));
    assert(l9 == l8 + field(shown[8], all_keys()[8], values[8]));
    assert(l10 == l9 + field(shown[9], all_keys()[9], values[9]));
    assert(l11 == l10 + field(shown[10], all_keys()[10], values[10]));
    assert(l12 == l11 + field(shown[11], all_keys()[11], values[11]));
    assert(l13 == l12 + field(shown[12], all_keys()[12], values[12]));
    assert(l13 =~= base + range_fields(d, floats));
}

/// An object that was empty and had the fields of a definition set holds
/// those fields, each once and in their order: no two of them have the same
/// key.
proof fn lemma_filled_fields(
    j: jzon::JsonValue,
    d: WingNodeDefView,
    floats: Seq<jzon::JsonValue>,
    full_name: Option<Seq<char>>,
)
    requires
        was_filled(j, d, floats, full_name),
    ensures
        shows(j, d, floats, full_name),
{
    let items = member(json_entries(j), "items"@);
    let name = json_of_text(full_name->0);
    let fields = definition_fields(d, floats, items, full_name);
    let shown = shown_of(d, floats, full_name is Some);
    let values = values_of(d, floats, items, name);
    assert(shown.subrange(0, 7) =~= shown_of(d, Seq::empty(), false).subrange(0, 7));
    assert(values.subrange(0, 7) =~= values_of(d, Seq::empty(), values[13], values[14]).subrange(
        0,
        7,
    ));
    lemma_common_ladder(shown, values, d);
    lemma_range_ladder(d, floats, full_name is Some, items, name);
    let l13 = ladder(shown, values, 13);
    let l14 = ladder(shown, values, 14);
    let l15 = ladder(shown, values, 15);
    assert(l14 == l13 + field(shown[13], all_keys()[13], values[13]));
    assert(l15 == l14 + field(shown[14], all_keys()[14], values[14]));
    assert(fields == l15);
    lemma_ladder_distinct(shown, values, 15);
    lemma_filled_distinct(fields);
}

} // verus!
