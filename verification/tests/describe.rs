use libwing::{FloatEnumItem, NodeType, NodeUnit, StringEnumItem, WingNodeDef};

fn plain(node_type: NodeType) -> WingNodeDef {
    WingNodeDef {
        id: 42,
        parent_id: 7,
        index: 0,
        name: String::new(),
        long_name: String::new(),
        node_type,
        unit: NodeUnit::Unitless,
        read_only: false,
        min_float: None,
        max_float: None,
        steps: None,
        min_int: None,
        max_int: None,
        max_string_len: None,
        string_enum: None,
        float_enum: None,
    }
}

fn float_texts(d: &WingNodeDef) -> Vec<String> {
    d.floats().iter().map(|b| f32::from_bits(*b).to_string()).collect()
}

#[test]
fn labels_of_types_and_units() {
    assert_eq!(NodeType::Node.label(), "node");
    assert_eq!(NodeType::LinearFloat.label(), "linear float");
    assert_eq!(NodeType::LogarithmicFloat.label(), "log float");
    assert_eq!(NodeType::FaderLevel.label(), "fader level");
    assert_eq!(NodeType::Integer.label(), "integer");
    assert_eq!(NodeType::StringEnum.label(), "string enum");
    assert_eq!(NodeType::FloatEnum.label(), "float enum");
    assert_eq!(NodeType::String.label(), "string");
    assert_eq!(NodeUnit::Unitless.label(), "");
    assert_eq!(NodeUnit::Db.label(), "dB");
    assert_eq!(NodeUnit::Percent.label(), "%");
    assert_eq!(NodeUnit::Milliseconds.label(), "ms");
    assert_eq!(NodeUnit::Hertz.label(), "Hz");
    assert_eq!(NodeUnit::Meters.label(), "meters");
    assert_eq!(NodeUnit::Seconds.label(), "seconds");
    assert_eq!(NodeUnit::Octaves.label(), "octaves");
}

#[test]
fn description_of_a_bare_node() {
    let d = plain(NodeType::Node);
    assert_eq!(d.to_description(&Vec::new()), "Id:        42\nRead-only: no\nType:      node");
    assert!(d.floats().is_empty());
}

#[test]
fn description_shows_index_names_unit_and_read_only() {
    let mut d = plain(NodeType::FaderLevel);
    d.id = -3;
    d.index = 12;
    d.name = "fdr".to_string();
    d.long_name = "Fader".to_string();
    d.unit = NodeUnit::Db;
    d.read_only = true;
    assert_eq!(
        d.to_description(&Vec::new()),
        "Id:        -3\nRead-only: yes\nIndex:     12\nName:      fdr\nLong Name: Fader\n\
         Type:      fader level (float)\nUnit:      dB"
    );
}

#[test]
fn description_of_a_float_range() {
    let mut d = plain(NodeType::LinearFloat);
    d.min_float = Some((-144.0f32).to_bits());
    d.max_float = Some(10.5f32.to_bits());
    d.steps = Some(1541);
    assert_eq!(d.floats(), vec![(-144.0f32).to_bits(), 10.5f32.to_bits()]);
    assert_eq!(
        d.to_description(&float_texts(&d)),
        "Id:        42\nRead-only: no\nType:      linear float\n\
         Minimum:   -144\nMaximum:   10.5\nSteps:     1541"
    );
    d.node_type = NodeType::LogarithmicFloat;
    d.min_float = None;
    assert_eq!(
        d.to_description(&float_texts(&d)),
        "Id:        42\nRead-only: no\nType:      log float\nMaximum:   10.5\nSteps:     1541"
    );
}

#[test]
fn description_with_missing_float_texts() {
    let mut d = plain(NodeType::LinearFloat);
    d.min_float = Some(0);
    d.max_float = Some(0);
    assert_eq!(
        d.to_description(&vec!["1".to_string()]),
        "Id:        42\nRead-only: no\nType:      linear float\nMinimum:   1\nMaximum:   "
    );
}

#[test]
fn description_of_an_integer_range() {
    let mut d = plain(NodeType::Integer);
    d.min_int = Some(-10);
    d.max_int = Some(i32::MAX);
    assert_eq!(
        d.to_description(&Vec::new()),
        "Id:        42\nRead-only: no\nType:      integer\nMinimum:   -10\nMaximum:   2147483647"
    );
}

#[test]
fn description_of_a_string_node() {
    let mut d = plain(NodeType::String);
    d.max_string_len = Some(64);
    d.unit = NodeUnit::Percent;
    assert_eq!(
        d.to_description(&Vec::new()),
        "Id:        42\nRead-only: no\nType:      string\nUnit:      %\nMaxLength: 64"
    );
}

#[test]
fn description_of_a_string_enum() {
    let mut d = plain(NodeType::StringEnum);
    d.string_enum = Some(vec![
        StringEnumItem { item: "OFF".to_string(), long_item: "Off".to_string() },
        StringEnumItem { item: "ON".to_string(), long_item: String::new() },
        StringEnumItem { item: "AUTO".to_string(), long_item: "Automatic".to_string() },
    ]);
    assert_eq!(
        d.to_description(&Vec::new()),
        "Id:        42\nRead-only: no\nType:      string enum\nItems:     OFF (Off)\n           \
         ON\n           AUTO (Automatic)\n"
    );
    d.string_enum = Some(Vec::new());
    assert_eq!(
        d.to_description(&Vec::new()),
        "Id:        42\nRead-only: no\nType:      string enum\nItems:"
    );
    d.string_enum = None;
    assert_eq!(d.to_description(&Vec::new()), "Id:        42\nRead-only: no\nType:      string enum");
}

#[test]
fn description_of_a_float_enum() {
    let mut d = plain(NodeType::FloatEnum);
    d.float_enum = Some(vec![
        FloatEnumItem { item: 0.5f32.to_bits(), long_item: "half".to_string() },
        FloatEnumItem { item: 2.0f32.to_bits(), long_item: String::new() },
    ]);
    assert_eq!(d.floats(), vec![0.5f32.to_bits(), 2.0f32.to_bits()]);
    assert_eq!(
        d.to_description(&float_texts(&d)),
        "Id:        42\nRead-only: no\nType:      float enum\nItems:     0.5 (half)\n           2\n"
    );
}

#[test]
fn floats_list_ranges_before_choices() {
    let mut d = plain(NodeType::FloatEnum);
    d.min_float = Some(1);
    d.max_float = Some(2);
    d.float_enum = Some(vec![
        FloatEnumItem { item: 3, long_item: String::new() },
        FloatEnumItem { item: 4, long_item: String::new() },
    ]);
    assert_eq!(d.floats(), vec![1, 2, 3, 4]);
    let texts: Vec<String> = vec!["a".into(), "b".into(), "c".into(), "d".into()];
    assert_eq!(
        d.to_description(&texts),
        "Id:        42\nRead-only: no\nType:      float enum\nItems:     c\n           d\n"
    );
    d.max_float = None;
    assert_eq!(d.floats(), vec![1, 3, 4]);
    assert_eq!(
        d.to_description(&texts),
        "Id:        42\nRead-only: no\nType:      float enum\nItems:     b\n           c\n"
    );
}
