use jzon::JsonValue;
use libwing::{FloatEnumItem, NodeType, NodeUnit, StringEnumItem, WingNodeDef};

fn plain(node_type: NodeType) -> WingNodeDef {
    WingNodeDef {
        id: 42,
        parent_id: 7,
        index: 0,
        name: String::new(),
        long_name: String::new(),
        node_type,
        unit: NodeUnit::Unitless,
        read_only: false,
        min_float: None,
        max_float: None,
        steps: None,
        min_int: None,
        max_int: None,
        max_string_len: None,
        string_enum: None,
        float_enum: None,
    }
}

fn float_values(d: &WingNodeDef) -> Vec<JsonValue> {
    d.floats().iter().map(|b| JsonValue::from(f32::from_bits(*b))).collect()
}

fn json(d: &WingNodeDef) -> String {
    d.to_json(float_values(d)).dump()
}

#[test]
fn json_of_a_bare_node() {
    assert_eq!(json(&plain(NodeType::Node)), r#"{"id":42,"type":"node"}"#);
}

#[test]
fn json_shows_index_names_unit_and_read_only() {
    let mut d = plain(NodeType::FaderLevel);
    d.id = -3;
    d.index = 12;
    d.name = "fdr".to_string();
    d.long_name = "Fader \"A\"".to_string();
    d.unit = NodeUnit::Db;
    d.read_only = true;
    assert_eq!(
        json(&d),
        r#"{"id":-3,"index":12,"name":"fdr","longname":"Fader \"A\"","type":"fader level","unit":"dB","read_only":true}"#
    );
}

#[test]
fn json_of_every_type_label_and_unit() {
    let types = [
        (NodeType::Node, "node"),
        (NodeType::LinearFloat, "linear float"),
        (NodeType::LogarithmicFloat, "log float"),
        (NodeType::FaderLevel, "fader level"),
        (NodeType::Integer, "integer"),
        (NodeType::StringEnum, "string enum"),
        (NodeType::FloatEnum, "float enum"),
        (NodeType::String, "string"),
    ];
    for (t, label) in types {
        let j = plain(t).to_json(Vec::new());
        assert_eq!(j["type"], label);
        assert!(!j.has_key("unit"));
        assert!(!j.has_key("read_only"));
        assert!(!j.has_key("items"));
    }
    let units = [
        (NodeUnit::Db, "dB"),
        (NodeUnit::Percent, "%"),
        (NodeUnit::Milliseconds, "ms"),
        (NodeUnit::Hertz, "Hz"),
        (NodeUnit::Meters, "meters"),
        (NodeUnit::Seconds, "seconds"),
        (NodeUnit::Octaves, "octaves"),
    ];
    for (u, label) in units {
        let mut d = plain(NodeType::Node);
        d.unit = u;
        assert_eq!(d.to_json(Vec::new())["unit"], label);
    }
}

#[test]
fn json_of_a_float_range() {
    let mut d = plain(NodeType::LinearFloat);
    d.min_float = Some((-144.0f32).to_bits());
    d.max_float = Some(10.5f32.to_bits());
    d.steps = Some(1541);
    assert_eq!(
        json(&d),
        r#"{"id":42,"type":"linear float","minfloat":-144,"maxfloat":10.5,"steps":1541}"#
    );
    let j = d.to_json(float_values(&d));
    assert_eq!(j["minfloat"].as_f32(), Some(-144.0));
    assert_eq!(j["maxfloat"].as_f32(), Some(10.5));
    d.min_float = None;
    assert_eq!(json(&d), r#"{"id":42,"type":"linear float","maxfloat":10.5,"steps":1541}"#);
}

#[test]
fn json_leaves_out_floats_that_were_not_handed_in() {
    let mut d = plain(NodeType::LogarithmicFloat);
    d.min_float = Some(1.0f32.to_bits());
    d.max_float = Some(2.0f32.to_bits());
    assert_eq!(d.to_json(Vec::new()).dump(), r#"{"id":42,"type":"log float"}"#);
    assert_eq!(
        d.to_json(vec![JsonValue::from(1.0f32)]).dump(),
        r#"{"id":42,"type":"log float","minfloat":1}"#
    );
}

#[test]
fn json_of_an_integer_range() {
    let mut d = plain(NodeType::Integer);
    d.min_int = Some(i32::MIN);
    d.max_int = Some(i32::MAX);
    assert_eq!(
        json(&d),
        r#"{"id":42,"type":"integer","minint":-2147483648,"maxint":2147483647}"#
    );
}

#[test]
fn json_of_a_string_node() {
    let mut d = plain(NodeType::String);
    d.max_string_len = Some(65535);
    assert_eq!(json(&d), r#"{"id":42,"type":"string","maxstringlen":65535}"#);
}

#[test]
fn json_of_a_string_enum() {
    let mut d = plain(NodeType::StringEnum);
    d.string_enum = Some(vec![
        StringEnumItem { item: "OFF".to_string(), long_item: "Off".to_string() },
        StringEnumItem { item: "ON".to_string(), long_item: String::new() },
    ]);
    assert_eq!(
        json(&d),
        r#"{"id":42,"type":"string enum","items":[{"item":"OFF","longitem":"Off"},{"item":"ON"}]}"#
    );
    d.string_enum = Some(Vec::new());
    assert_eq!(json(&d), r#"{"id":42,"type":"string enum","items":[]}"#);
    d.string_enum = None;
    assert_eq!(json(&d), r#"{"id":42,"type":"string enum"}"#);
}

#[test]
fn json_of_a_float_enum() {
    let mut d = plain(NodeType::FloatEnum);
    d.float_enum = Some(vec![
        FloatEnumItem { item: 0.5f32.to_bits(), long_item: "half".to_string() },
        FloatEnumItem { item: 2.0f32.to_bits(), long_item: String::new() },
    ]);
    assert_eq!(
        json(&d),
        r#"{"id":42,"type":"float enum","items":[{"item":0.5,"longitem":"half"},{"item":2}]}"#
    );
    assert_eq!(
        d.to_json(vec![JsonValue::from(0.5f32)]).dump(),
        r#"{"id":42,"type":"float enum","items":[{"item":0.5,"longitem":"half"},{}]}"#
    );
}

#[test]
fn json_agrees_with_one_built_by_hand() {
    let mut d = plain(NodeType::LinearFloat);
    d.index = 3;
    d.name = "gain".to_string();
    d.min_float = Some(0.25f32.to_bits());
    d.max_float = Some(4.0f32.to_bits());
    let mut expected = JsonValue::new_object();
    expected.insert("id", 42).unwrap();
    expected.insert("index", 3u16).unwrap();
    expected.insert("name", "gain".to_string()).unwrap();
    expected.insert("type", "linear float").unwrap();
    expected.insert("minfloat", 0.25f32).unwrap();
    expected.insert("maxfloat", 4.0f32).unwrap();
    let got = d.to_json(float_values(&d));
    assert_eq!(got, expected);
    assert_eq!(got.dump(), expected.dump());
    let keys: Vec<&str> = got.entries().map(|(k, _)| k).collect();
    assert_eq!(keys, vec!["id", "index", "name", "type", "minfloat", "maxfloat"]);
}

#[test]
fn json_with_full_name_last() {
    let mut d = plain(NodeType::StringEnum);
    d.string_enum =
        Some(vec![StringEnumItem { item: "A".to_string(), long_item: String::new() }]);
    assert_eq!(
        d.to_json_named(Vec::new(), "/cfg/mode").dump(),
        r#"{"id":42,"type":"string enum","items":[{"item":"A"}],"fullname":"/cfg/mode"}"#
    );
    assert_eq!(
        plain(NodeType::Node).to_json_named(Vec::new(), "/x").dump(),
        r#"{"id":42,"type":"node","fullname":"/x"}"#
    );
}

#[test]
fn json_of_the_least_integer() {
    let mut d = plain(NodeType::Integer);
    d.id = i32::MIN;
    d.min_int = Some(i32::MIN);
    assert_eq!(
        d.to_json(Vec::new()).dump(),
        r#"{"id":-2147483648,"type":"integer","minint":-2147483648}"#
    );
}
