//! Agents as structured concurrency: one agent is one loop, and a `task`
//! call is a scope whose children run at once while their parent waits.
pub mod schedule;
pub mod agent;
pub mod framing;
pub mod wire;
pub mod scope;
pub mod run;
pub mod args;
pub mod face;
pub mod limb;
pub mod anthropic;
pub mod rescore;
pub mod bench;
pub mod chat;
