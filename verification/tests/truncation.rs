use block_reconcile::{answered, prompt_for_confirmation, truncate, Truncation};

#[test]
fn skipping_the_confirmation_truncates_without_a_question() {
    assert_eq!(truncate(true), Truncation::Truncate);
}

#[test]
fn without_the_flag_the_operator_is_asked() {
    assert_eq!(truncate(false), Truncation::Ask);
}

#[test]
fn declining_aborts() {
    assert_eq!(answered("n"), Truncation::Abort);
    assert_eq!(answered("n\n"), Truncation::Abort);
}

#[test]
fn consenting_truncates() {
    assert_eq!(answered("y\n"), Truncation::Truncate);
    assert_eq!(answered("yes\n"), Truncation::Truncate);
}

#[test]
fn y_and_yes_consent_in_either_case() {
    for answer in ["y", "Y", "yes", "YES", "Yes", "yEs", "  y  ", "\tyes\r\n", "\u{a0}y\u{3000}"] {
        assert!(prompt_for_confirmation(answer), "{:?}", answer);
    }
}

#[test]
fn anything_else_declines() {
    for answer in
        ["", "\n", "   ", "n", "no", "ye", "yess", "y es", "yes!", "yy", "yea", "ok", "1", "ｙ", "y\u{200b}"]
    {
        assert!(!prompt_for_confirmation(answer), "{:?}", answer);
    }
}
