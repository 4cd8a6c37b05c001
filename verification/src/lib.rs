//! The verified core of an evented agent harness: the decisions, parsers,
//! projections and formatters of its runtime roles.
use vstd::prelude::*;

pub mod text;
pub mod json;
pub mod order;
pub mod cli;
pub mod forks;
pub mod skeleton;

verus! {

/// Where the process handoff notes live.
pub const PROCESS_HANDOFF_PATH: &'static str = "docs/process/HANDOFF.md";
/// Where the source notes live.
pub const SOURCE_NOTES_PATH: &'static str = "docs/source-notes";
/// This package's version.
pub const VERSION: &'static str = "0.1.0";

/// The version as one JSON object: package, binary and version.
pub fn version_json() -> (r: String)
    ensures
        r@ == "{\"package\":\"agent-harness\",\"binary\":\"agent-harness\",\"version\":\""@ + VERSION@ + "\"}"@,
{
    crate::text::cat3("{\"package\":\"agent-harness\",\"binary\":\"agent-harness\",\"version\":\"", VERSION, "\"}")
}

} // verus!
