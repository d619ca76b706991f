use proofpatch_core::config::{
    config_path, default_llm_timeout_s, default_max_results, default_timeout_ms, ResearchConfig,
};

#[test]
fn defaults_match_the_documented_values() {
    assert_eq!(default_max_results(), 8);
    assert_eq!(default_timeout_ms(), 20_000);
    assert_eq!(default_llm_timeout_s(), 20);
}

#[test]
fn default_research_config_is_empty() {
    let c = ResearchConfig::default();
    assert!(c.presets.is_empty());
}

#[test]
fn config_path_joins_below_the_root() {
    assert_eq!(config_path("repo"), "repo/proofpatch.toml");
    assert_eq!(config_path("a/b"), "a/b/proofpatch.toml");
    assert_eq!(config_path("a/"), "a/proofpatch.toml");
    assert_eq!(config_path(""), "proofpatch.toml");
}
