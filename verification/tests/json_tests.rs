use proofpatch_core::extract_first_json_value;

#[test]
fn prefers_fenced_json_blocks() {
    let text = "noise {\"stray\": true} more\n```json\n{\"a\": 1}\n```\ntail";
    let v = extract_first_json_value(text).unwrap();
    assert_eq!(v["a"], serde_json::Value::from(1));
}

#[test]
fn falls_back_to_first_brace_span() {
    let text = "model said: {\"answer\": [1, 2, 3]} thanks";
    let v = extract_first_json_value(text).unwrap();
    assert!(v["answer"].is_array());
}

#[test]
fn broken_fence_contents_fall_back_to_braces() {
    let text = "```json\nnot json at all\n``` but {\"ok\": true} stands";
    let v = extract_first_json_value(text).unwrap();
    assert_eq!(v["ok"], serde_json::Value::from(true));
}

#[test]
fn no_candidate_gives_none() {
    assert!(extract_first_json_value("").is_none());
    assert!(extract_first_json_value("   ").is_none());
    assert!(extract_first_json_value("no braces here").is_none());
    assert!(extract_first_json_value("} {").is_none());
}

#[test]
fn unparsable_span_gives_none() {
    assert!(extract_first_json_value("{not json}").is_none());
}

#[test]
fn arrays_inside_braces_parse() {
    let v = extract_first_json_value("{\"xs\": []}").unwrap();
    assert!(v.is_object());
}
