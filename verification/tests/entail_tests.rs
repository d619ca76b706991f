use proofpatch_core::decl::{extract_decl_kind, VarKind};
use proofpatch_core::entail::{
    entails_from_goal, entails_from_pp_dump, verdict_of_status, EntailmentVerdict, EntailsError,
};
use proofpatch_core::solver::SatStatus;

fn payload(text: &str) -> serde_json::Value {
    serde_json::from_str(text).unwrap()
}

#[test]
fn declaration_extraction_classifies_domains() {
    assert_eq!(
        extract_decl_kind("n : Nat"),
        Some(("n".to_string(), VarKind::Nat))
    );
    assert_eq!(
        extract_decl_kind("m : ℤ"),
        Some(("m".to_string(), VarKind::Int))
    );
    assert_eq!(
        extract_decl_kind("k : ℕ"),
        Some(("k".to_string(), VarKind::Nat))
    );
    // The natural marker wins over the integer marker.
    assert_eq!(
        extract_decl_kind("f : Nat -> Int"),
        Some(("f".to_string(), VarKind::Nat))
    );
}

#[test]
fn declaration_extraction_rejects_unusable_lines() {
    assert_eq!(extract_decl_kind("no colon here"), None);
    assert_eq!(extract_decl_kind(" : Int"), None);
    assert_eq!(extract_decl_kind("x :  "), None);
    assert_eq!(extract_decl_kind("x : Real"), None);
}

#[test]
fn status_mapping_is_exact() {
    assert_eq!(verdict_of_status(SatStatus::Unsat), EntailmentVerdict::Entailed);
    assert_eq!(verdict_of_status(SatStatus::Sat), EntailmentVerdict::NotEntailed);
    assert_eq!(verdict_of_status(SatStatus::Unknown), EntailmentVerdict::Unknown);
}

#[test]
fn missing_goals_is_a_malformed_input_error() {
    let v = payload("{}");
    match entails_from_pp_dump(&v, 1000, 7) {
        Err(EntailsError::MalformedInput(_)) => {},
        other => panic!("expected a malformed-input error, got {:?}", other),
    }
    let v = payload("{\"goals\": []}");
    assert!(matches!(
        entails_from_pp_dump(&v, 1000, 7),
        Err(EntailsError::MalformedInput(_))
    ));
}

#[test]
fn nonlinear_target_gives_unknown() {
    let v = payload(
        "{\"goals\": [{\"pretty\": \"n : ℕ\\n⊢ 2*n <= 5\", \"hyps\": [{\"text\": \"n : ℕ\"}]}]}",
    );
    assert_eq!(
        entails_from_pp_dump(&v, 1000, 7).unwrap(),
        EntailmentVerdict::Unknown
    );
}

#[test]
fn missing_domain_coverage_gives_unknown() {
    let v = payload("{\"goals\": [{\"pretty\": \"⊢ k <= 5\", \"hyps\": []}]}");
    assert_eq!(
        entails_from_pp_dump(&v, 1000, 7).unwrap(),
        EntailmentVerdict::Unknown
    );
}

#[test]
fn goal_without_turnstile_line_gives_unknown() {
    let hyps: Vec<String> = vec![];
    assert_eq!(
        entails_from_goal("nothing here", &hyps, 1000, 7).unwrap(),
        EntailmentVerdict::Unknown
    );
}

#[test]
fn empty_target_after_turnstile_gives_unknown() {
    let hyps: Vec<String> = vec![];
    assert_eq!(
        entails_from_goal("⊢   ", &hyps, 1000, 7).unwrap(),
        EntailmentVerdict::Unknown
    );
}

#[test]
fn covered_goal_never_errors_without_a_broken_session() {
    // With every variable declared, the call either reaches a solver or
    // degrades to Unknown when none is installed; it must not error.
    let hyps: Vec<String> = vec!["n : Nat".to_string()];
    let r = entails_from_goal("⊢ n >= 0", &hyps, 1000, 7);
    assert!(r.is_ok());
}

#[test]
fn identical_calls_agree() {
    let v = payload(
        "{\"goals\": [{\"pretty\": \"⊢ n + n - 3 <= 5\", \"hyps\": [{\"text\": \"n : Nat\"}]}]}",
    );
    let a = entails_from_pp_dump(&v, 1000, 7).unwrap();
    let b = entails_from_pp_dump(&v, 1000, 7).unwrap();
    assert_eq!(a, b);
}

#[test]
fn turnstile_line_may_be_indented_and_crlf_terminated() {
    let hyps: Vec<String> = vec!["x : Int".to_string()];
    let r = entails_from_goal("first line\r\n   ⊢ x <= 1\r\ntrailing", &hyps, 500, 1);
    assert!(r.is_ok());
}

#[test]
fn later_declarations_overwrite_earlier_ones() {
    // Both declarations sanitize to the same name; the later one wins,
    // so the target still parses against a fully classified map.
    let hyps: Vec<String> = vec!["n : Int".to_string(), "n : Nat".to_string()];
    let r = entails_from_goal("⊢ n >= 0", &hyps, 500, 1);
    assert!(r.is_ok());
}

#[test]
fn hypothesis_variable_without_declaration_gives_unknown() {
    // The hypothesis fact mentions m, which no declaration classifies.
    let hyps: Vec<String> = vec!["n : Nat".to_string(), "h : m <= n".to_string()];
    assert_eq!(
        entails_from_goal("⊢ n >= 0", &hyps, 500, 1).unwrap(),
        EntailmentVerdict::Unknown
    );
}

#[test]
fn unparsable_hypotheses_are_skipped_silently() {
    let v = payload(
        "{\"goals\": [{\"pretty\": \"⊢ k <= 5\", \"hyps\": [{\"text\": \"k : Nat\"}, {\"text\": \"h : weird * stuff\"}, {\"other\": 1}]}]}",
    );
    // The unparsable hypothesis and the text-less one are skipped; the
    // call still runs on the covered target.
    assert!(entails_from_pp_dump(&v, 1000, 7).is_ok());
}
