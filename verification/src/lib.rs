//! A guard for shell commands: splits a command line into segments, normalises
//! each segment's words and judges them against rules that deny destructive
//! commands, ask for confirmation of risky ones, and let the rest pass.
use vstd::prelude::*;

pub mod text;
pub mod parse;
pub mod flags;
pub mod normalize;
pub mod rules;
pub mod policy;
pub mod rule_laws;

pub use parse::{split_segments, tokenize, split_whitespace};
pub use flags::{has_token, has_short_flag_char, has_force_flag};
pub use normalize::{unwrap_shell, strip_git_flags, strip_docker_flags};
pub use rules::{evaluate_git, psql_verdict, Verdict};
pub use policy::{
    evaluate_general, evaluate_xargs, process_segment_at_depth, evaluate_command,
    evaluate_command_at_depth, evaluate_words,
};

verus! {

/// Deepest nesting of shell `-c` wrappers that is still unwrapped; deeper
/// commands pass through, which bounds the work pathological input can cause.
pub const MAX_SHELL_DEPTH: usize = 16;

} // verus!
