use libwing::schema::{record, BATCH};
use libwing::{NodeType, NodeUnit, Schema, WingNodeDef};

fn def(parent: i32, id: i32, index: u16, name: &str, node_type: NodeType) -> WingNodeDef {
    WingNodeDef {
        id,
        parent_id: parent,
        index,
        name: name.to_string(),
        long_name: String::new(),
        node_type,
        unit: NodeUnit::Unitless,
        read_only: false,
        min_float: None,
        max_float: None,
        steps: None,
        min_int: None,
        max_int: None,
        max_string_len: None,
        string_enum: None,
        float_enum: None,
    }
}

fn small_tree() -> Schema {
    let mut s = Schema::new();
    s.add(def(0, 1, 1, "ch", NodeType::Node));
    s.add(def(0, 2, 2, "main", NodeType::Node));
    s.add(def(1, 10, 1, "", NodeType::Node));
    s.add(def(1, 11, 2, "", NodeType::Node));
    s.add(def(10, 100, 1, "mute", NodeType::Integer));
    s.add(def(10, 101, 2, "fdr", NodeType::FaderLevel));
    s.add(def(2, 20, 1, "lvl", NodeType::LinearFloat));
    s
}

#[test]
fn empty_schema_asks_for_the_root() {
    let mut s = Schema::new();
    assert_eq!(s.next_batch(), vec![0]);
    assert_eq!(s.next_batch(), Vec::<i32>::new());
    assert!(s.order().is_empty());
    assert!(s.get(0).is_none());
}

#[test]
fn tree_is_asked_level_by_level() {
    let mut s = Schema::new();
    assert_eq!(s.next_batch(), vec![0]);
    s.add(def(0, 1, 1, "ch", NodeType::Node));
    s.add(def(0, 2, 2, "main", NodeType::Node));
    s.add(def(0, 3, 3, "name", NodeType::String));
    assert_eq!(s.next_batch(), vec![1, 2]);
    s.add(def(1, 10, 1, "", NodeType::Node));
    s.add(def(1, 11, 2, "", NodeType::Node));
    s.add(def(2, 20, 1, "lvl", NodeType::LinearFloat));
    assert_eq!(s.next_batch(), vec![10, 11]);
    s.add(def(10, 100, 1, "mute", NodeType::Integer));
    s.add(def(11, 110, 1, "sub", NodeType::Node));
    assert_eq!(s.next_batch(), vec![110]);
    assert_eq!(s.next_batch(), Vec::<i32>::new());
    assert_eq!(s.next_batch(), Vec::<i32>::new());
}

#[test]
fn a_node_that_has_children_counts_as_asked() {
    let mut s = small_tree();
    assert_eq!(s.next_batch(), vec![11]);
    assert_eq!(s.next_batch(), Vec::<i32>::new());
}

#[test]
fn a_node_is_asked_once_though_it_is_listed_twice() {
    let mut s = Schema::new();
    assert_eq!(s.next_batch(), vec![0]);
    s.add(def(0, 1, 1, "a", NodeType::Node));
    s.add(def(0, 1, 1, "a", NodeType::Node));
    assert_eq!(s.next_batch(), vec![1]);
    assert_eq!(s.order(), vec![1, 1]);
}

#[test]
fn children_of_one_node_are_asked_in_batches() {
    let mut s = Schema::new();
    assert_eq!(s.next_batch(), vec![0]);
    for i in 1..=250 {
        s.add(def(0, i, i as u16, "", NodeType::Node));
    }
    assert_eq!(BATCH, 100);
    assert_eq!(s.next_batch(), (1..=100).collect::<Vec<i32>>());
    assert_eq!(s.next_batch(), (101..=200).collect::<Vec<i32>>());
    assert_eq!(s.next_batch(), (201..=250).collect::<Vec<i32>>());
    assert_eq!(s.next_batch(), Vec::<i32>::new());
}

#[test]
fn deeper_levels_are_gathered_until_the_batch_is_full() {
    let mut s = Schema::new();
    assert_eq!(s.next_batch(), vec![0]);
    s.add(def(0, 1, 1, "a", NodeType::Node));
    s.add(def(0, 2, 2, "b", NodeType::Node));
    s.add(def(0, 3, 3, "c", NodeType::Node));
    assert_eq!(s.next_batch(), vec![1, 2, 3]);
    for i in 0..60 {
        s.add(def(1, 1000 + i, i as u16, "", NodeType::Node));
        s.add(def(2, 2000 + i, i as u16, "", NodeType::Node));
        s.add(def(3, 3000 + i, i as u16, "", NodeType::Node));
    }
    let first = s.next_batch();
    let mut expected: Vec<i32> = (1000..1060).collect();
    expected.extend(2000..2060);
    assert_eq!(first, expected);
    assert_eq!(s.next_batch(), (3000..3060).collect::<Vec<i32>>());
    assert_eq!(s.next_batch(), Vec::<i32>::new());
}

#[test]
fn nodes_that_go_round_in_a_circle_do_not_hang_the_walk() {
    let mut s = Schema::new();
    assert_eq!(s.next_batch(), vec![0]);
    s.add(def(0, 1, 1, "a", NodeType::Node));
    assert_eq!(s.next_batch(), vec![1]);
    s.add(def(1, 2, 1, "b", NodeType::Node));
    assert_eq!(s.next_batch(), vec![2]);
    s.add(def(2, 1, 1, "a", NodeType::Node));
    assert_eq!(s.next_batch(), Vec::<i32>::new());
    assert_eq!(s.order(), vec![1, 2, 1]);
    let a = s.get(1).unwrap().clone();
    assert_eq!(s.full_name(&a), "???/a/b/a");
}

#[test]
fn order_lists_parents_before_children() {
    let s = small_tree();
    assert_eq!(s.order(), vec![1, 10, 100, 101, 11, 2, 20]);
}

#[test]
fn get_gives_the_definition_that_came_in_last() {
    let mut s = small_tree();
    assert_eq!(s.get(100).unwrap().name, "mute");
    assert!(s.get(999).is_none());
    s.add(def(10, 100, 1, "solo", NodeType::Integer));
    assert_eq!(s.get(100).unwrap().name, "solo");
}

#[test]
fn full_names() {
    let s = small_tree();
    let name = |id: i32| s.full_name(s.get(id).unwrap());
    assert_eq!(name(1), "/ch");
    assert_eq!(name(2), "/main");
    assert_eq!(name(10), "/ch/1");
    assert_eq!(name(11), "/ch/2");
    assert_eq!(name(100), "/ch/1/mute");
    assert_eq!(name(101), "/ch/1/fdr");
    assert_eq!(name(20), "/main/lvl");
}

#[test]
fn full_name_with_an_unknown_parent() {
    let mut s = Schema::new();
    s.add(def(7, 8, 1, "x", NodeType::Node));
    s.add(def(8, 9, 4, "", NodeType::Integer));
    assert_eq!(s.full_name(s.get(8).unwrap()), "???/x");
    assert_eq!(s.full_name(s.get(9).unwrap()), "???/x/4");
    let stranger = def(0, 50, 0, "", NodeType::Node);
    assert_eq!(s.full_name(&stranger), "/0");
}

#[test]
fn record_of_a_node() {
    let d = def(1, 0x0102_0304, 1, "mute", NodeType::Integer);
    assert_eq!(
        record(&d, "/ch/1/mute"),
        vec![
            0x01, 0x02, 0x03, 0x04, 0x00, 0x00, 0x00, 0x01, 0x04, 0x00, 0x0A, b'/', b'c', b'h',
            b'/', b'1', b'/', b'm', b'u', b't', b'e'
        ]
    );
    let d = def(-1, -2, 0, "", NodeType::String);
    assert_eq!(
        record(&d, ""),
        vec![0xFF, 0xFF, 0xFF, 0xFE, 0xFF, 0xFF, 0xFF, 0xFF, 0x07, 0x00, 0x00]
    );
}

#[test]
fn record_length_is_cut_to_sixteen_bits() {
    let d = def(0, 1, 0, "", NodeType::Node);
    let name = "n".repeat(65536 + 3);
    let r = record(&d, &name);
    assert_eq!(&r[9..11], &[0x00, 0x03]);
    assert_eq!(r.len(), 11 + 65536 + 3);
}
