//! Settings for the surrounding research tooling: named presets with
//! query text, inclusion filters, result limits, and timeouts.
//!
//! Loading the settings file from disk is the surrounding program's
//! business; the types and the defaults live here.

use vstd::prelude::*;
use std::collections::HashMap;

verus! {

/// One named research preset.
#[derive(Debug, Clone)]
pub struct ResearchPreset {
    /// The query text.
    pub query: String,
    /// Keep only results matching at least one of these fragments.
    pub must_include_any: Vec<String>,
    /// How many results to keep.
    pub max_results: usize,
    /// The per-query timeout, in milliseconds.
    pub timeout_ms: u64,
    /// Whether to produce a model-written summary.
    pub llm_summary: bool,
    /// The summary timeout, in seconds.
    pub llm_timeout_s: u64,
}

/// The research section: presets by name.
#[derive(Debug, Clone)]
pub struct ResearchConfig {
    /// The named presets.
    pub presets: HashMap<String, ResearchPreset>,
}

/// The whole settings file.
#[derive(Debug, Clone)]
pub struct ProofpatchConfig {
    /// The research section.
    pub research: ResearchConfig,
}

impl Default for ResearchConfig {
    /// An empty preset table.
    fn default() -> (r: Self)
        ensures
            r.presets@ == Map::<String, ResearchPreset>::empty(),
    {
        ResearchConfig { presets: HashMap::new() }
    }
}

/// The default result limit of a preset.
pub fn default_max_results() -> (r: usize)
    ensures
        r == 8,
{
    8
}

/// The default per-query timeout of a preset, in milliseconds.
pub fn default_timeout_ms() -> (r: u64)
    ensures
        r == 20000,
{
    20_000
}

/// The default summary timeout of a preset, in seconds.
pub fn default_llm_timeout_s() -> (r: u64)
    ensures
        r == 20,
{
    20
}

/// The settings file's path under a repository root, textually: the
/// file name joined below the root with a single separator.
pub open spec fn spec_config_path(root: Seq<char>) -> Seq<char> {
    if root.len() == 0 {
        ("proofpatch.toml")@
    } else if root[root.len() - 1] == '/' {
        root + ("proofpatch.toml")@
    } else {
        root + ("/")@ + ("proofpatch.toml")@
    }
}

/// Joins the settings file name below the repository root.
pub fn config_path(repo_root: &str) -> (r: String)
    ensures
        r@ == spec_config_path(repo_root@),
{
    let n = repo_root.unicode_len();
    if n == 0 {
        return String::from_str("proofpatch.toml");
    }
    let last = repo_root.get_char(n - 1);
    let mut out = String::from_str(repo_root);
    if last != '/' {
        out.append("/");
    }
    out.append("proofpatch.toml");
    proof {
        if last != '/' {
            assert(out@ =~= repo_root@ + ("/")@ + ("proofpatch.toml")@);
        }
    }
    out
}

} // verus!
