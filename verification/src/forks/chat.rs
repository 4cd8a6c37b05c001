//! The chat prompt's decisions: what a typed line asks for, at an idle
//! prompt and while a turn runs, what an interrupt does, and the status a
//! run exits with.
use vstd::prelude::*;
use crate::forks::agent::Outcome;
use crate::text::{trim, trimmed};

verus! {

/// What the user is told when they cancel.
pub const CANCELLING: &'static str = "cancelling: nothing new starts; waiting for the responses already in flight, then closing. Ctrl-C again to force-cancel.";

/// What a line typed at an idle prompt asks for.
pub enum IdleLine {
    /// A blank line.
    Skip,
    Quit,
    /// Show the tree.
    Tree,
    /// `/cancel` with nothing running.
    NothingRunning,
    /// A message to the root.
    Say { text: String },
}

/// What a line typed while a turn runs asks for; anything else is refused.
pub enum BusyLine {
    Tree,
    Cancel,
    Refused,
}

/// What an interrupt does.
pub enum Interrupt {
    /// Nothing new starts; the run closes once what is in flight is back.
    Cancel,
    /// What is in flight is abandoned; the run closes at once.
    Force,
}

pub fn idle_line(line: &str) -> (r: IdleLine)
    ensures
        ({
            let t = trimmed(line@);
            if t.len() == 0 {
                r is Skip
            } else if t == "/quit"@ {
                r is Quit
            } else if t == "/tree"@ {
                r is Tree
            } else if t == "/cancel"@ {
                r is NothingRunning
            } else {
                r matches IdleLine::Say { text } && text@ == t
            }
        }),
{
    let t = trim(line);
    if t.as_str().unicode_len() == 0 {
        IdleLine::Skip
    } else if crate::text::same(t.as_str(), "/quit") {
        IdleLine::Quit
    } else if crate::text::same(t.as_str(), "/tree") {
        IdleLine::Tree
    } else if crate::text::same(t.as_str(), "/cancel") {
        IdleLine::NothingRunning
    } else {
        IdleLine::Say { text: t }
    }
}

pub fn busy_line(line: &str) -> (r: BusyLine)
    ensures
        ({
            let t = trimmed(line@);
            if t == "/tree"@ {
                r is Tree
            } else if t == "/cancel"@ {
                r is Cancel
            } else {
                r is Refused
            }
        }),
{
    let t = trim(line);
    if crate::text::same(t.as_str(), "/tree") {
        BusyLine::Tree
    } else if crate::text::same(t.as_str(), "/cancel") {
        BusyLine::Cancel
    } else {
        BusyLine::Refused
    }
}

/// An interrupt cancels a run; one that comes while it is already
/// cancelling forces it.
pub fn on_interrupt(already_cancelling: bool) -> (r: Interrupt)
    ensures
        already_cancelling <==> r is Force,
{
    if already_cancelling {
        Interrupt::Force
    } else {
        Interrupt::Cancel
    }
}

/// The exit status of a run: 130, what a shell reports for a process ended
/// by Ctrl-C, once it was forced; success when it completed or was
/// cancelled; failure otherwise.
pub fn exit_status(forced: bool, outcome: &Outcome) -> (r: u8)
    ensures
        r == if forced {
            130u8
        } else {
            match *outcome {
                Outcome::Completed | Outcome::Cancelled => 0u8,
                _ => 1u8,
            }
        },
{
    if forced {
        return 130;
    }
    match outcome {
        Outcome::Completed | Outcome::Cancelled => 0,
        _ => 1,
    }
}

} // verus!
