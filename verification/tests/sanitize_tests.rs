use proofpatch_core::sanitize_name;

#[test]
fn keeps_plain_identifiers() {
    assert_eq!(sanitize_name("n"), "n");
    assert_eq!(sanitize_name("foo_bar3"), "foo_bar3");
}

#[test]
fn replaces_non_alphanumerics_with_underscores() {
    assert_eq!(sanitize_name("a-b"), "a_b");
    assert_eq!(sanitize_name("h.left"), "h_left");
    assert_eq!(sanitize_name("a b!c"), "a_b_c");
}

#[test]
fn empty_input_falls_back_to_x() {
    assert_eq!(sanitize_name(""), "x");
}

#[test]
fn leading_digit_gets_underscore_prefix() {
    assert_eq!(sanitize_name("9x"), "_9x");
    assert_eq!(sanitize_name("007"), "_007");
}

#[test]
fn output_is_wellformed_for_awkward_inputs() {
    for input in ["", "  ", "9", "!!!", "péché", "a+b*c", "\n\t"] {
        let out = sanitize_name(input);
        assert!(!out.is_empty());
        let first = out.chars().next().unwrap();
        assert!(!first.is_ascii_digit());
        assert!(out.chars().all(|c| c.is_alphanumeric() || c == '_'));
    }
}

#[test]
fn sanitizing_twice_changes_nothing() {
    for input in ["", "9x", "a-b", "weird name!", "ℕ", "x.y.z"] {
        let once = sanitize_name(input);
        let twice = sanitize_name(&once);
        assert_eq!(once, twice);
    }
}
