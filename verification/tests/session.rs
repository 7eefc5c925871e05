use item_edit::item::{Item, ItemContainer, State};
use item_edit::mode_logic::{Action, Event, Mode};

fn two_items() -> Vec<ItemContainer> {
    vec![
        ItemContainer { name: "b".to_string(), item: Item::Bool { value: false } },
        ItemContainer {
            name: "n".to_string(),
            item: Item::Int { value: 5, min: Some(0), max: Some(10) },
        },
    ]
}

#[test]
fn selecting_apply_exits() {
    let mut m = Mode::new(two_items()).unwrap();
    let mut input = String::new();
    let apply = m.entry_count() - 1;
    let r = m.react(&Event::Select { selected: apply }, &mut input);
    assert!(matches!(r, Action::Exit));
    assert!(matches!(m.state, State::Main));
}

#[test]
fn cancel_while_browsing_exits() {
    let mut m = Mode::new(two_items()).unwrap();
    let mut input = String::new();
    let r = m.react(&Event::Cancel, &mut input);
    assert!(matches!(r, Action::Exit));
}

#[test]
fn selecting_a_row_enters_editing() {
    let mut m = Mode::new(two_items()).unwrap();
    let mut input = String::new();
    let r = m.react(&Event::Select { selected: 1 }, &mut input);
    assert!(matches!(r, Action::Reload));
    assert!(matches!(m.state, State::Editing(1)));
    assert_eq!(m.message(), "Old value: 5;\rMin: 0; Max: 10;");
}

#[test]
fn submitted_text_while_editing_commits() {
    let mut m = Mode::new(two_items()).unwrap();
    let mut input = String::new();
    m.react(&Event::Select { selected: 1 }, &mut input);
    input = "15".to_string();
    let r = m.react(&Event::CustomInput { text: "15".to_string() }, &mut input);
    assert!(matches!(r, Action::Reload));
    assert!(matches!(m.state, State::Main));
    assert!(matches!(m.items[1].item, Item::Int { value: 10, .. }));
    assert_eq!(input, "");
}

#[test]
fn rejected_text_keeps_editing() {
    let mut m = Mode::new(two_items()).unwrap();
    let mut input = String::new();
    m.react(&Event::Select { selected: 1 }, &mut input);
    let r = m.react(&Event::CustomInput { text: "abc".to_string() }, &mut input);
    assert!(matches!(r, Action::Reload));
    assert!(matches!(m.state, State::Editing(1)));
    assert!(matches!(m.items[1].item, Item::Int { value: 5, .. }));
}

#[test]
fn cancel_while_editing_returns_to_browsing() {
    let mut m = Mode::new(two_items()).unwrap();
    let mut input = "half-typed".to_string();
    m.react(&Event::Select { selected: 0 }, &mut input);
    let r = m.react(&Event::Cancel, &mut input);
    assert!(matches!(r, Action::Reload));
    assert!(matches!(m.state, State::Main));
    assert!(matches!(m.items[0].item, Item::Bool { value: false }));
    assert_eq!(input, "");
}

#[test]
fn selecting_the_cancel_line_abandons_the_edit() {
    let mut m = Mode::new(two_items()).unwrap();
    let mut input = String::new();
    m.react(&Event::Select { selected: 0 }, &mut input);
    let cancel = m.entry_count() - 1;
    let r = m.react(&Event::Select { selected: cancel }, &mut input);
    assert!(matches!(r, Action::Reload));
    assert!(matches!(m.state, State::Main));
    assert!(matches!(m.items[0].item, Item::Bool { value: false }));
}

#[test]
fn selecting_a_bool_line_commits_it() {
    let mut m = Mode::new(two_items()).unwrap();
    let mut input = String::new();
    m.react(&Event::Select { selected: 0 }, &mut input);
    let r = m.react(&Event::Select { selected: 0 }, &mut input);
    assert!(matches!(r, Action::Reload));
    assert!(matches!(m.items[0].item, Item::Bool { value: true }));
}

#[test]
fn completion_copies_the_line_into_the_input() {
    let mut m = Mode::new(two_items()).unwrap();
    let mut input = String::new();
    let r = m.react(&Event::Complete { selected: Some(1) }, &mut input);
    assert!(matches!(r, Action::Reload));
    assert_eq!(input, "n: 5");
}

#[test]
fn completion_with_no_selection_changes_nothing() {
    let mut m = Mode::new(two_items()).unwrap();
    let mut input = "typed".to_string();
    let r = m.react(&Event::Complete { selected: None }, &mut input);
    assert!(matches!(r, Action::Reload));
    assert_eq!(input, "typed");
    assert!(matches!(m.state, State::Main));
}

#[test]
fn other_events_are_ignored() {
    let mut m = Mode::new(two_items()).unwrap();
    let mut input = String::new();
    let r = m.react(&Event::Other, &mut input);
    assert!(matches!(r, Action::Reload));
    assert!(matches!(m.state, State::Main));
    assert!(matches!(m.items[0].item, Item::Bool { value: false }));
}

#[test]
fn submitted_text_while_browsing_is_discarded() {
    let mut m = Mode::new(two_items()).unwrap();
    let mut input = "stray".to_string();
    let r = m.react(&Event::CustomInput { text: "stray".to_string() }, &mut input);
    assert!(matches!(r, Action::Reload));
    assert!(matches!(m.state, State::Main));
    assert_eq!(input, "");
    assert!(matches!(m.items[0].item, Item::Bool { value: false }));
}
