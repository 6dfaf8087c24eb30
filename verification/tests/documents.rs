use block_reconcile::{Json, JsonNumber};

fn number(text: &str) -> Json {
    Json::Number(JsonNumber::parse(text).unwrap())
}

fn text(s: &str) -> Json {
    Json::String(s.to_string())
}

fn object(entries: Vec<(&str, Json)>) -> Json {
    Json::Object(entries.into_iter().map(|(k, v)| (k.to_string(), v)).collect())
}

#[test]
fn number_keeps_its_text() {
    for literal in ["0", "5", "-7", "1.5", "-0.25", "1e10", "2.5E-3", "18446744073709551615"] {
        let parsed = JsonNumber::parse(literal).unwrap();
        assert_eq!(parsed.text(), literal);
    }
}

#[test]
fn number_refuses_what_is_no_number() {
    for literal in ["", "abc", "5x", " 5", "5 ", "+5", "0x10", "1.", ".5", "--1", "1e", "NaN", "01", "true"] {
        assert!(JsonNumber::parse(literal).is_none(), "{:?}", literal);
    }
}

#[test]
fn numbers_are_equal_where_written_alike() {
    let five = JsonNumber::parse("5").unwrap();
    assert!(five.equals(&JsonNumber::parse("5").unwrap()));
    assert!(!five.equals(&JsonNumber::parse("6").unwrap()));
    assert!(!five.equals(&JsonNumber::parse("5.0").unwrap()));
}

#[test]
fn scalars_are_equal_to_themselves_only() {
    assert!(Json::Null.equals(&Json::Null));
    assert!(Json::Bool(true).equals(&Json::Bool(true)));
    assert!(!Json::Bool(true).equals(&Json::Bool(false)));
    assert!(number("5").equals(&number("5")));
    assert!(!number("5").equals(&number("6")));
    assert!(text("a").equals(&text("a")));
    assert!(!text("a").equals(&text("b")));
}

#[test]
fn kinds_do_not_mix() {
    assert!(!Json::Null.equals(&Json::Bool(false)));
    assert!(!number("5").equals(&text("5")));
    assert!(!text("").equals(&Json::Null));
    assert!(!Json::Array(vec![]).equals(&Json::Object(vec![])));
    assert!(!Json::Array(vec![]).equals(&Json::Null));
}

#[test]
fn arrays_are_equal_item_by_item() {
    let a = Json::Array(vec![number("1"), text("x"), Json::Null]);
    let b = Json::Array(vec![number("1"), text("x"), Json::Null]);
    assert!(a.equals(&b));
    assert!(Json::Array(vec![]).equals(&Json::Array(vec![])));
}

#[test]
fn order_of_items_counts() {
    let a = Json::Array(vec![text("t1"), text("t2")]);
    let b = Json::Array(vec![text("t2"), text("t1")]);
    assert!(!a.equals(&b));
}

#[test]
fn arrays_of_other_lengths_differ() {
    let a = Json::Array(vec![text("t1")]);
    let b = Json::Array(vec![text("t1"), text("t2")]);
    assert!(!a.equals(&b));
    assert!(!b.equals(&a));
}

#[test]
fn order_of_keys_does_not_count() {
    let a = object(vec![("number", number("5")), ("txs", Json::Array(vec![text("t1")]))]);
    let b = object(vec![("txs", Json::Array(vec![text("t1")])), ("number", number("5"))]);
    assert!(a.equals(&b));
    assert!(b.equals(&a));
}

#[test]
fn order_of_keys_does_not_count_in_depth() {
    let a = object(vec![(
        "outer",
        Json::Array(vec![object(vec![("a", number("1")), ("b", number("2")), ("c", Json::Null)])]),
    )]);
    let b = object(vec![(
        "outer",
        Json::Array(vec![object(vec![("c", Json::Null), ("a", number("1")), ("b", number("2"))])]),
    )]);
    assert!(a.equals(&b));
}

#[test]
fn a_changed_value_differs() {
    let a = object(vec![("number", number("5"))]);
    let b = object(vec![("number", number("6"))]);
    assert!(!a.equals(&b));
}

#[test]
fn an_added_or_removed_key_differs() {
    let a = object(vec![("number", number("5"))]);
    let b = object(vec![("number", number("5")), ("extra", Json::Null)]);
    assert!(!a.equals(&b));
    assert!(!b.equals(&a));
}

#[test]
fn another_key_for_the_same_value_differs() {
    let a = object(vec![("a", number("5"))]);
    let b = object(vec![("b", number("5"))]);
    assert!(!a.equals(&b));
}

#[test]
fn the_last_entry_of_a_key_counts() {
    let twice = object(vec![("a", number("1")), ("b", Json::Null), ("a", number("2"))]);
    let once = object(vec![("a", number("2")), ("b", Json::Null)]);
    let first = object(vec![("a", number("1")), ("b", Json::Null)]);
    assert!(twice.equals(&once));
    assert!(once.equals(&twice));
    assert!(!twice.equals(&first));
    assert!(!first.equals(&twice));
    assert!(twice.equals(&twice));
}

#[test]
fn empty_maps_are_equal() {
    assert!(object(vec![]).equals(&object(vec![])));
    assert!(!object(vec![]).equals(&object(vec![("a", Json::Null)])));
}
