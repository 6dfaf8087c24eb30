use block_reconcile::{get_single_item, single, ResolutionError, Single};

#[test]
fn one_item_is_handed_out() {
    assert_eq!(get_single_item("block", vec![7]), Ok(7));
    assert!(matches!(single(vec!["a"]), Single::Exactly("a")));
}

#[test]
fn no_item_is_not_found() {
    let none: Vec<u8> = Vec::new();
    assert_eq!(get_single_item("block", none), Err(ResolutionError::NotFound { name: "block" }));
    let none: Vec<u8> = Vec::new();
    assert!(matches!(single(none), Single::Empty));
}

#[test]
fn several_items_are_ambiguous() {
    assert_eq!(
        get_single_item("block hash", vec![1, 2]),
        Err(ResolutionError::Ambiguous { name: "block hash", count: 2 })
    );
    assert_eq!(
        get_single_item("block hash", vec![1, 1, 1]),
        Err(ResolutionError::Ambiguous { name: "block hash", count: 3 })
    );
    assert!(matches!(single(vec![1, 2, 3, 4]), Single::Multiple(4)));
}
