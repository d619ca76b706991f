//! Heuristic entailment triage for linear integer arithmetic.
//!
//! Given a pretty-printed proof goal (a turnstile line plus hypothesis
//! lines), this library extracts typed variable declarations and linear
//! arithmetic facts, translates them into symbolic terms, and drives an
//! external SMT solver to decide whether the hypotheses entail the goal.
//! The answer is a tri-state triage signal, never a certified proof.

pub mod chartab;
pub mod config;
pub mod decl;
pub mod entail;
pub mod json_extract;
pub mod linexpr;
pub mod rel;
pub mod sanitize;
pub mod solver;
pub mod term;

pub use config::config_path;
pub use entail::entails_from_pp_dump;
pub use json_extract::extract_first_json_value;
pub use sanitize::sanitize_name;
