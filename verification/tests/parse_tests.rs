use proofpatch_core::linexpr::parse_linear_expr_int;
use proofpatch_core::rel::{find_rel_op, parse_rel_constraint_int};
use proofpatch_core::term::Term;

#[test]
fn repeated_identifier_accumulates_and_literal_folds() {
    let e = parse_linear_expr_int("n + n - 3").unwrap();
    assert_eq!(e.coeffs, vec![("n".to_string(), 2)]);
    assert_eq!(e.c0, -3);
}

#[test]
fn signs_persist_until_next_operator() {
    let e = parse_linear_expr_int("- a + 2 + b").unwrap();
    assert_eq!(e.coeffs, vec![("a".to_string(), -1), ("b".to_string(), 1)]);
    assert_eq!(e.c0, 2);
}

#[test]
fn empty_fragment_parses_to_zero() {
    let e = parse_linear_expr_int("   ").unwrap();
    assert!(e.coeffs.is_empty());
    assert_eq!(e.c0, 0);
}

#[test]
fn nonlinear_operators_reject_the_whole_fragment() {
    assert!(parse_linear_expr_int("2*n").is_none());
    assert!(parse_linear_expr_int("a / b").is_none());
    assert!(parse_linear_expr_int("x^2").is_none());
    assert!(parse_linear_expr_int("∑ i").is_none());
}

#[test]
fn unexpected_characters_abort_the_parse() {
    assert!(parse_linear_expr_int("a + (b)").is_none());
    assert!(parse_linear_expr_int("a, b").is_none());
}

#[test]
fn identifiers_may_hold_dots_which_sanitize_to_underscores() {
    let e = parse_linear_expr_int("h.left + 1").unwrap();
    assert_eq!(e.coeffs, vec![("h_left".to_string(), 1)]);
    assert_eq!(e.c0, 1);
}

#[test]
fn oversized_literal_saturates() {
    let e = parse_linear_expr_int("99999999999999999999").unwrap();
    assert_eq!(e.c0, i64::MAX);
    let e = parse_linear_expr_int("9223372036854775808").unwrap();
    assert_eq!(e.c0, i64::MAX);
    let e = parse_linear_expr_int("9223372036854775807").unwrap();
    assert_eq!(e.c0, i64::MAX);
    let e = parse_linear_expr_int("- 99999999999999999999 - 1").unwrap();
    assert_eq!(e.c0, i64::MIN);
}

#[test]
fn constant_accumulation_saturates() {
    let e = parse_linear_expr_int("9223372036854775807 + 9223372036854775807").unwrap();
    assert_eq!(e.c0, i64::MAX);
    let e = parse_linear_expr_int("- 9223372036854775807 - 9223372036854775807").unwrap();
    assert_eq!(e.c0, i64::MIN);
}

#[test]
fn coefficients_are_stored_in_ascending_name_order() {
    let e = parse_linear_expr_int("b + a").unwrap();
    assert_eq!(e.coeffs, vec![("a".to_string(), 1), ("b".to_string(), 1)]);
}

#[test]
fn translation_orders_addends_by_ascending_name() {
    let c = parse_rel_constraint_int("b + a <= 0").unwrap();
    match &c.term {
        Term::App(op, args) => {
            assert_eq!(op, "<=");
            match &args[0] {
                Term::App(plus, addends) => {
                    assert_eq!(plus, "+");
                    assert!(matches!(&addends[0], Term::Sym(s) if s == "a"));
                    assert!(matches!(&addends[1], Term::Sym(s) if s == "b"));
                },
                other => panic!("expected a sum, got {:?}", other),
            }
        },
        other => panic!("expected an application, got {:?}", other),
    }
}

#[test]
fn operator_priority_quirk_splits_at_le_not_at_earlier_gt() {
    let s = "a > b <= c";
    let (op, pos) = find_rel_op(s).unwrap();
    assert_eq!((op, pos), (0, 6));
    assert_eq!(&s[..pos], "a > b ");
    assert_eq!(&s[pos + 2..], " c");
}

#[test]
fn rel_parse_of_quirky_split_fails_on_left_side() {
    // The left side "a > b " holds a `>` and is no linear expression.
    assert!(parse_rel_constraint_int("a > b <= c").is_none());
}

#[test]
fn simple_relation_parses_with_vars() {
    let c = parse_rel_constraint_int("x + 1 < y").unwrap();
    assert_eq!(c.vars, vec!["x".to_string(), "y".to_string()]);
    match &c.term {
        Term::App(op, args) => {
            assert_eq!(op, "<");
            assert_eq!(args.len(), 2);
        },
        other => panic!("expected an application, got {:?}", other),
    }
}

#[test]
fn unicode_operators_map_to_ascii_relation_symbols() {
    let c = parse_rel_constraint_int("x ≤ 5").unwrap();
    match &c.term {
        Term::App(op, _) => assert_eq!(op, "<="),
        other => panic!("expected an application, got {:?}", other),
    }
    let c = parse_rel_constraint_int("x ≥ 5").unwrap();
    match &c.term {
        Term::App(op, _) => assert_eq!(op, ">="),
        other => panic!("expected an application, got {:?}", other),
    }
}

#[test]
fn translation_unwraps_single_terms_and_sums_longer_ones() {
    // x = 0: left side is a bare symbol, right side the bare literal.
    let c = parse_rel_constraint_int("x = 0").unwrap();
    match &c.term {
        Term::App(op, args) => {
            assert_eq!(op, "=");
            assert!(matches!(&args[0], Term::Sym(s) if s == "x"));
            assert!(matches!(&args[1], Term::IntLit(0)));
        },
        other => panic!("expected an application, got {:?}", other),
    }
    // 1 - a - b - b <= 0: constant first, then -a, then the doubled b.
    let c = parse_rel_constraint_int("1 - a - b - b <= 0").unwrap();
    match &c.term {
        Term::App(op, args) => {
            assert_eq!(op, "<=");
            match &args[0] {
                Term::App(plus, addends) => {
                    assert_eq!(plus, "+");
                    assert_eq!(addends.len(), 3);
                    assert!(matches!(&addends[0], Term::IntLit(1)));
                    match &addends[1] {
                        Term::App(neg, inner) => {
                            assert_eq!(neg, "-");
                            assert!(matches!(&inner[0], Term::Sym(s) if s == "a"));
                        },
                        other => panic!("expected a negation, got {:?}", other),
                    }
                    match &addends[2] {
                        Term::App(mul, inner) => {
                            assert_eq!(mul, "*");
                            assert!(matches!(&inner[0], Term::IntLit(-2)));
                            assert!(matches!(&inner[1], Term::Sym(s) if s == "b"));
                        },
                        other => panic!("expected a scaling, got {:?}", other),
                    }
                },
                other => panic!("expected a sum, got {:?}", other),
            }
        },
        other => panic!("expected an application, got {:?}", other),
    }
}
