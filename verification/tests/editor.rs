use item_edit::item::{Item, ItemContainer, State};
use item_edit::mode_logic::Mode;

fn one_item(name: &str, item: Item) -> Vec<ItemContainer> {
    vec![ItemContainer { name: name.to_string(), item }]
}

fn int_item(value: i64, min: Option<i64>, max: Option<i64>) -> Vec<ItemContainer> {
    one_item("n", Item::Int { value, min, max })
}

fn entry_texts(m: &Mode) -> Vec<String> {
    let mut out = Vec::new();
    let mut i = 0;
    while i < m.entry_count() {
        out.push(m.entry_content(i));
        i += 1;
    }
    out
}

#[test]
fn bool_edit_lines_and_commit() {
    let mut m = Mode::new(one_item("b", Item::Bool { value: false })).unwrap();
    let old = m.enter_edit(0);
    assert_eq!(old, "false");
    assert_eq!(entry_texts(&m), vec!["true", "false", "Cancel"]);
    assert!(m.finish_edit(Some(0), None).is_ok());
    assert!(matches!(m.state, State::Main));
    assert!(matches!(m.items[0].item, Item::Bool { value: true }));
}

#[test]
fn bool_commit_second_line_sets_false() {
    let mut m = Mode::new(one_item("b", Item::Bool { value: true })).unwrap();
    m.enter_edit(0);
    assert!(m.finish_edit(Some(1), None).is_ok());
    assert!(matches!(m.items[0].item, Item::Bool { value: false }));
}

#[test]
fn int_commit_clamps_to_max() {
    let mut m = Mode::new(int_item(5, Some(0), Some(10))).unwrap();
    m.enter_edit(0);
    assert!(m.finish_edit(None, Some("15")).is_ok());
    assert!(matches!(m.items[0].item, Item::Int { value: 10, .. }));
}

#[test]
fn int_commit_clamps_to_min() {
    let mut m = Mode::new(int_item(5, Some(0), Some(10))).unwrap();
    m.enter_edit(0);
    assert!(m.finish_edit(None, Some("-3")).is_ok());
    assert!(matches!(m.items[0].item, Item::Int { value: 0, .. }));
}

#[test]
fn int_commit_unparsable_text_is_rejected() {
    let mut m = Mode::new(int_item(5, Some(0), Some(10))).unwrap();
    m.enter_edit(0);
    assert!(m.finish_edit(None, Some("abc")).is_err());
    assert!(matches!(m.items[0].item, Item::Int { value: 5, .. }));
    assert!(matches!(m.state, State::Editing(0)));
}

#[test]
fn int_commit_escaped_minus_is_normalized() {
    let mut m = Mode::new(int_item(5, None, None)).unwrap();
    m.enter_edit(0);
    assert!(m.finish_edit(None, Some("\\-42")).is_ok());
    assert!(matches!(m.items[0].item, Item::Int { value: -42, .. }));
}

#[test]
fn int_commit_overflowing_text_is_rejected() {
    let mut m = Mode::new(int_item(5, None, None)).unwrap();
    m.enter_edit(0);
    assert!(m.finish_edit(None, Some("9223372036854775808")).is_err());
    assert!(matches!(m.items[0].item, Item::Int { value: 5, .. }));
}

#[test]
fn int_commit_smallest_value_parses() {
    let mut m = Mode::new(int_item(5, None, None)).unwrap();
    m.enter_edit(0);
    assert!(m.finish_edit(None, Some("-9223372036854775808")).is_ok());
    assert!(matches!(m.items[0].item, Item::Int { value: i64::MIN, .. }));
}

#[test]
fn enum_commit_selection_sets_index() {
    let mut m = Mode::new(one_item(
        "e",
        Item::Enum { value: 0, options: vec!["opt1".to_string(), "opt2".to_string()] },
    ))
    .unwrap();
    let old = m.enter_edit(0);
    assert_eq!(old, "opt1");
    assert_eq!(entry_texts(&m), vec!["opt1", "opt2", "Cancel"]);
    assert!(m.finish_edit(Some(1), None).is_ok());
    assert!(matches!(m.items[0].item, Item::Enum { value: 1, .. }));
}

#[test]
fn enum_commit_out_of_range_selection_is_rejected() {
    let mut m = Mode::new(one_item(
        "e",
        Item::Enum { value: 0, options: vec!["opt1".to_string(), "opt2".to_string()] },
    ))
    .unwrap();
    m.enter_edit(0);
    assert!(m.finish_edit(Some(5), None).is_err());
    assert!(matches!(m.items[0].item, Item::Enum { value: 0, .. }));
}

#[test]
fn enum_out_of_bounds_initial_index_is_malformed() {
    assert!(Mode::new(one_item(
        "e",
        Item::Enum { value: 2, options: vec!["opt1".to_string(), "opt2".to_string()] },
    ))
    .is_err());
}

#[test]
fn enum_empty_options_is_malformed() {
    assert!(Mode::new(one_item("e", Item::Enum { value: 0, options: vec![] })).is_err());
}

#[test]
fn string_commit_replaces_text_verbatim() {
    let mut m = Mode::new(one_item("s", Item::String { value: "hello".to_string() })).unwrap();
    m.enter_edit(0);
    assert!(m.finish_edit(None, Some("wo rld!")).is_ok());
    assert!(matches!(&m.items[0].item, Item::String { value } if value == "wo rld!"));
}

#[test]
fn float_commit_stores_host_resolved_text() {
    let mut m = Mode::new(one_item(
        "f",
        Item::Float { value: "1.5".to_string(), min: None, max: Some("2.0".to_string()) },
    ))
    .unwrap();
    m.enter_edit(0);
    assert!(m.finish_edit(None, Some("1.75")).is_ok());
    assert!(matches!(&m.items[0].item, Item::Float { value, .. } if value == "1.75"));
}

#[test]
fn enter_then_cancel_leaves_items_identical() {
    let mut m = Mode::new(vec![
        ItemContainer { name: "b".to_string(), item: Item::Bool { value: true } },
        ItemContainer {
            name: "n".to_string(),
            item: Item::Int { value: 7, min: Some(0), max: None },
        },
    ])
    .unwrap();
    let before = entry_texts(&m);
    m.enter_edit(1);
    m.cancel_edit();
    assert!(matches!(m.state, State::Main));
    assert!(matches!(m.items[0].item, Item::Bool { value: true }));
    assert!(matches!(m.items[1].item, Item::Int { value: 7, min: Some(0), max: None }));
    assert_eq!(entry_texts(&m), before);
}

#[test]
fn commit_of_current_value_is_a_noop() {
    let mut m = Mode::new(int_item(5, Some(0), Some(10))).unwrap();
    m.enter_edit(0);
    assert!(m.finish_edit(None, Some("5")).is_ok());
    assert!(matches!(m.items[0].item, Item::Int { value: 5, min: Some(0), max: Some(10) }));
}

#[test]
fn browse_lines_show_name_and_value() {
    let m = Mode::new(vec![
        ItemContainer {
            name: "n".to_string(),
            item: Item::Int { value: -42, min: None, max: None },
        },
        ItemContainer { name: "b".to_string(), item: Item::Bool { value: false } },
    ])
    .unwrap();
    assert_eq!(entry_texts(&m), vec!["n: -42", "b: false", "Apply"]);
    assert_eq!(m.message(), "");
}

#[test]
fn edit_message_shows_old_value_and_bounds() {
    let mut m = Mode::new(int_item(5, Some(0), Some(10))).unwrap();
    let old = m.enter_edit(0);
    assert_eq!(old, "5");
    assert_eq!(m.message(), "Old value: 5;\rMin: 0; Max: 10;");
    assert_eq!(entry_texts(&m), vec!["Cancel"]);
}

#[test]
fn edit_message_with_absent_min_bound() {
    let mut m = Mode::new(int_item(-7, None, Some(3))).unwrap();
    m.enter_edit(0);
    assert_eq!(m.message(), "Old value: -7;\r Max: 3;");
}

#[test]
fn enter_then_cancel_is_identity_for_every_type() {
    let mut m = Mode::new(vec![
        ItemContainer { name: "b".to_string(), item: Item::Bool { value: false } },
        ItemContainer {
            name: "n".to_string(),
            item: Item::Int { value: -3, min: None, max: Some(9) },
        },
        ItemContainer {
            name: "f".to_string(),
            item: Item::Float { value: "0.5".to_string(), min: Some("0".to_string()), max: None },
        },
        ItemContainer { name: "s".to_string(), item: Item::String { value: "txt".to_string() } },
        ItemContainer {
            name: "e".to_string(),
            item: Item::Enum { value: 1, options: vec!["x".to_string(), "y".to_string()] },
        },
    ])
    .unwrap();
    for p in 0..m.items.len() {
        m.enter_edit(p);
        m.cancel_edit();
    }
    assert!(matches!(m.items[0].item, Item::Bool { value: false }));
    assert!(matches!(m.items[1].item, Item::Int { value: -3, min: None, max: Some(9) }));
    assert!(
        matches!(&m.items[2].item, Item::Float { value, min: Some(min), max: None }
            if value == "0.5" && min == "0")
    );
    assert!(matches!(&m.items[3].item, Item::String { value } if value == "txt"));
    assert!(matches!(&m.items[4].item, Item::Enum { value: 1, .. }));
    assert_eq!(
        entry_texts(&m),
        vec!["b: false", "n: -3", "f: 0.5", "s: txt", "e: y", "Apply"]
    );
}

#[test]
fn float_edit_message_shows_stored_bound_text() {
    let mut m = Mode::new(one_item(
        "f",
        Item::Float { value: "1.5".to_string(), min: Some("0.25".to_string()), max: None },
    ))
    .unwrap();
    let old = m.enter_edit(0);
    assert_eq!(old, "1.5");
    assert_eq!(m.message(), "Old value: 1.5;\rMin: 0.25; ");
    assert_eq!(entry_texts(&m), vec!["Cancel"]);
}

#[test]
fn bool_commit_other_selection_changes_nothing() {
    let mut m = Mode::new(one_item("b", Item::Bool { value: true })).unwrap();
    m.enter_edit(0);
    assert!(m.finish_edit(None, None).is_ok());
    assert!(matches!(m.state, State::Main));
    assert!(matches!(m.items[0].item, Item::Bool { value: true }));
}

#[test]
fn get_value_renders_every_type() {
    assert_eq!(Item::Bool { value: true }.get_value(), "true");
    assert_eq!(Item::Int { value: 0, min: None, max: None }.get_value(), "0");
    assert_eq!(Item::Int { value: i64::MIN, min: None, max: None }.get_value(), "-9223372036854775808");
    assert_eq!(Item::Float { value: "2.25".to_string(), min: None, max: None }.get_value(), "2.25");
    assert_eq!(Item::String { value: "abc".to_string() }.get_value(), "abc");
    assert_eq!(
        Item::Enum { value: 1, options: vec!["x".to_string(), "y".to_string()] }.get_value(),
        "y"
    );
}
