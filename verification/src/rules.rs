//! Lint rules.

pub mod bad_comparison_sequence;
