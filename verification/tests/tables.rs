use options::{RawValue, Table};

fn text(value: &str) -> RawValue {
    RawValue::String(value.to_owned())
}

fn keys(table: &Table) -> Vec<String> {
    let mut keys = Vec::new();
    for index in 0..table.len() {
        keys.push(table.key(index).to_owned());
    }
    keys
}

#[test]
fn a_new_table_is_empty() {
    let table = Table::new();
    assert!(table.is_empty());
    assert_eq!(table.len(), 0);
    assert_eq!(table.get("k"), None);
}

#[test]
fn insert_appends_a_new_key() {
    let mut table = Table::new();
    table.insert("b".to_owned(), text("1"));
    table.insert("a".to_owned(), text("2"));
    assert_eq!(keys(&table), vec!["b", "a"]);
    assert_eq!(table.get("a"), Some(&text("2")));
    assert_eq!(table.value(0), &text("1"));
}

#[test]
fn insert_replaces_in_place() {
    let mut table = Table::new();
    table.insert("b".to_owned(), text("1"));
    table.insert("a".to_owned(), text("2"));
    table.insert("b".to_owned(), text("3"));
    assert_eq!(keys(&table), vec!["b", "a"]);
    assert_eq!(table.get("b"), Some(&text("3")));
    assert_eq!(table.len(), 2);
}

#[test]
fn position_finds_the_place_of_a_key() {
    let mut table = Table::new();
    table.insert("x".to_owned(), text("1"));
    table.insert("y".to_owned(), text("2"));
    assert_eq!(table.position("y"), Some(1));
    assert_eq!(table.position("z"), None);
    assert!(table.contains_key("x"));
    assert!(!table.contains_key("z"));
}

#[test]
fn remove_keeps_the_order_of_the_rest() {
    let mut table = Table::new();
    table.insert("a".to_owned(), text("1"));
    table.insert("b".to_owned(), text("2"));
    table.insert("c".to_owned(), text("3"));
    assert_eq!(table.remove("a"), Some(text("1")));
    assert_eq!(keys(&table), vec!["b", "c"]);
    assert_eq!(table.remove("a"), None);
    assert_eq!(keys(&table), vec!["b", "c"]);
}

#[test]
fn replace_value_hands_out_the_old_value() {
    let mut table = Table::new();
    table.insert("a".to_owned(), text("1"));
    table.insert("b".to_owned(), text("2"));
    assert_eq!(table.replace_value(0, text("9")), text("1"));
    assert_eq!(keys(&table), vec!["a", "b"]);
    assert_eq!(table.get("a"), Some(&text("9")));
    assert_eq!(table.get("b"), Some(&text("2")));
}

#[test]
fn extend_overrides_and_appends() {
    let mut table = Table::new();
    table.insert("a".to_owned(), text("1"));
    table.insert("b".to_owned(), text("2"));
    let mut more = Table::new();
    more.insert("c".to_owned(), text("3"));
    more.insert("a".to_owned(), text("4"));
    table.extend(more);
    assert_eq!(keys(&table), vec!["a", "b", "c"]);
    assert_eq!(table.get("a"), Some(&text("4")));
    assert_eq!(table.get("b"), Some(&text("2")));
    assert_eq!(table.get("c"), Some(&text("3")));
}

#[test]
fn from_entries_lets_the_later_entry_win() {
    let table = Table::from_entries(vec![
        ("a".to_owned(), text("1")),
        ("b".to_owned(), text("2")),
        ("a".to_owned(), text("3")),
    ]);
    assert_eq!(keys(&table), vec!["a", "b"]);
    assert_eq!(table.get("a"), Some(&text("3")));
}

#[test]
fn into_entries_hands_out_the_entries_in_order() {
    let mut table = Table::new();
    table.insert("b".to_owned(), text("1"));
    table.insert("a".to_owned(), text("2"));
    assert_eq!(
        table.into_entries(),
        vec![("b".to_owned(), text("1")), ("a".to_owned(), text("2"))]
    );
}

#[test]
fn clone_is_a_deep_copy() {
    let mut inner = Table::new();
    inner.insert("k".to_owned(), RawValue::Array(vec![RawValue::Integer(1), text("x")]));
    let value = RawValue::Table(inner);
    let copy = value.clone();
    assert_eq!(copy, value);
}
