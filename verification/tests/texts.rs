use block_reconcile::json::binding_of;
use block_reconcile::text::{chars_of, find_from, matches_at, read_i32};
use block_reconcile::Json;

fn chars(s: &str) -> Vec<char> {
    s.chars().collect()
}

#[test]
fn chars_of_gives_the_characters_in_order() {
    assert_eq!(chars_of("a..é"), vec!['a', '.', '.', 'é']);
    assert!(chars_of("").is_empty());
}

#[test]
fn matches_at_compares_in_place() {
    let text = chars("3..=7");
    assert!(matches_at(&text, &chars(".."), 1));
    assert!(matches_at(&text, &chars("..="), 1));
    assert!(!matches_at(&text, &chars(".."), 0));
    assert!(!matches_at(&text, &chars(".."), 2));
    assert!(!matches_at(&text, &chars(".."), 4));
    assert!(!matches_at(&text, &chars(".."), 9));
    assert!(matches_at(&text, &chars(""), 5));
    assert!(!matches_at(&text, &chars(""), 6));
    assert!(!matches_at(&chars("."), &chars(".."), 0));
}

#[test]
fn find_from_finds_the_leftmost_occurrence() {
    let text = chars("1..2..3");
    assert_eq!(find_from(&text, &chars(".."), 0), Some(1));
    assert_eq!(find_from(&text, &chars(".."), 1), Some(1));
    assert_eq!(find_from(&text, &chars(".."), 2), Some(4));
    assert_eq!(find_from(&text, &chars(".."), 5), None);
    assert_eq!(find_from(&text, &chars(".."), 50), None);
    assert_eq!(find_from(&text, &chars("..="), 0), None);
    assert_eq!(find_from(&chars("...."), &chars(".."), 1), Some(1));
}

#[test]
fn read_i32_reads_decimal_numbers() {
    let read = |s: &str| {
        let text = chars(s);
        read_i32(&text, 0, text.len())
    };
    assert_eq!(read("0"), Some(0));
    assert_eq!(read("42"), Some(42));
    assert_eq!(read("-42"), Some(-42));
    assert_eq!(read("+42"), Some(42));
    assert_eq!(read("0042"), Some(42));
    assert_eq!(read("-0"), Some(0));
    assert_eq!(read("2147483647"), Some(i32::MAX));
    assert_eq!(read("-2147483648"), Some(i32::MIN));
    assert_eq!(read("2147483648"), None);
    assert_eq!(read("-2147483649"), None);
    assert_eq!(read("21474836470"), None);
    assert_eq!(read("00000000000000000000001"), Some(1));
    for bad in ["", "-", "+", "--1", "+-1", "1-", "1 ", " 1", "1.0", "1e3", "a", "١"] {
        assert_eq!(read(bad), None, "{:?}", bad);
    }
}

#[test]
fn read_i32_reads_a_part_of_the_text() {
    let text = chars("3..=17");
    assert_eq!(read_i32(&text, 0, 1), Some(3));
    assert_eq!(read_i32(&text, 4, 6), Some(17));
    assert_eq!(read_i32(&text, 5, 6), Some(7));
    assert_eq!(read_i32(&text, 3, 6), None);
    assert_eq!(read_i32(&text, 2, 2), None);
}

#[test]
fn the_last_entry_binds_its_key() {
    let entries = vec![
        ("a".to_string(), Json::Null),
        ("b".to_string(), Json::Bool(true)),
        ("a".to_string(), Json::Bool(false)),
    ];
    assert_eq!(binding_of(&entries, &"a".to_string()), Some(2));
    assert_eq!(binding_of(&entries, &"b".to_string()), Some(1));
    assert_eq!(binding_of(&entries, &"c".to_string()), None);
    assert_eq!(binding_of(&vec![], &"a".to_string()), None);
}
