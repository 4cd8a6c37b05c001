//! The `agent-harness` command line: help, version, and the refusals of
//! anything else.
use vstd::prelude::*;
use crate::text::{cat, cat3, owned, views};

verus! {

/// What the command line asks for.
pub enum CliAction {
    Help,
    Version,
    VersionJson,
    /// A trailing argument the command takes no part of; exit status 2.
    Unexpected { argument: String },
    /// A command that does not exist; exit status 2.
    UnknownCommand { command: String },
}

pub open spec fn is_help(a: Seq<char>) -> bool {
    a == "-h"@ || a == "--help"@
}

pub open spec fn is_version(a: Seq<char>) -> bool {
    a == "-V"@ || a == "--version"@
}

/// What `args` (after the program name) ask for.
pub open spec fn action_of(args: Seq<Seq<char>>) -> CliActionView {
    if args.len() == 0 {
        CliActionView::Help
    } else if is_help(args[0]) {
        if args.len() > 1 { CliActionView::Unexpected(args[1]) } else { CliActionView::Help }
    } else if is_version(args[0]) && args.len() > 1 && args[1] == "--json"@ {
        if args.len() > 2 { CliActionView::Unexpected(args[2]) } else { CliActionView::VersionJson }
    } else if is_version(args[0]) {
        if args.len() > 1 { CliActionView::Unexpected(args[1]) } else { CliActionView::Version }
    } else {
        CliActionView::UnknownCommand(args[0])
    }
}

pub enum CliActionView {
    Help,
    Version,
    VersionJson,
    Unexpected(Seq<char>),
    UnknownCommand(Seq<char>),
}

impl View for CliAction {
    type V = CliActionView;

    open spec fn view(&self) -> CliActionView {
        match self {
            CliAction::Help => CliActionView::Help,
            CliAction::Version => CliActionView::Version,
            CliAction::VersionJson => CliActionView::VersionJson,
            CliAction::Unexpected { argument } => CliActionView::Unexpected(argument@),
            CliAction::UnknownCommand { command } => CliActionView::UnknownCommand(command@),
        }
    }
}

/// Decides what the command line asks for.
pub fn decide(args: &Vec<String>) -> (r: CliAction)
    ensures
        r@ == action_of(views(args@)),
{
    let n = args.len();
    if n == 0 {
        return CliAction::Help;
    }
    let ghost a = views(args@);
    assert(a[0] == args@[0]@);
    let first = args[0].as_str();
    let help = crate::text::same(first, "-h") || crate::text::same(first, "--help");
    let version = crate::text::same(first, "-V") || crate::text::same(first, "--version");
    if help {
        if n > 1 {
            assert(a[1] == args@[1]@);
            return CliAction::Unexpected { argument: crate::text::copy(&args[1]) };
        }
        return CliAction::Help;
    }
    if version && n > 1 && crate::text::same(args[1].as_str(), "--json") {
        assert(a[1] == args@[1]@);
        if n > 2 {
            assert(a[2] == args@[2]@);
            return CliAction::Unexpected { argument: crate::text::copy(&args[2]) };
        }
        return CliAction::VersionJson;
    }
    if version {
        if n > 1 {
            assert(a[1] == args@[1]@);
            return CliAction::Unexpected { argument: crate::text::copy(&args[1]) };
        }
        return CliAction::Version;
    }
    CliAction::UnknownCommand { command: crate::text::copy(&args[0]) }
}

/// The lines a refused command line writes to standard error.
pub fn refusal(action: &CliAction) -> (r: Option<String>)
    ensures
        match *action {
            CliAction::Unexpected { argument } => r matches Some(t) && t@ == "unexpected argument: "@
                + argument@ + "\nrun `agent-harness --help` for usage\n"@,
            CliAction::UnknownCommand { command } => r matches Some(t) && t@ == "unknown command: "@
                + command@ + "\nrun `agent-harness --help` for usage\n"@,
            _ => r is None,
        },
{
    match action {
        CliAction::Unexpected { argument } => Some(cat3("unexpected argument: ", argument.as_str(), "\nrun `agent-harness --help` for usage\n")),
        CliAction::UnknownCommand { command } => Some(cat3("unknown command: ", command.as_str(), "\nrun `agent-harness --help` for usage\n")),
        _ => None,
    }
}

/// The help page.
pub fn help_text(version: &str) -> (r: String)
    ensures
        r@ == "agent-harness "@ + version@
            + "\n\nEvented agent harness for coordinated face, brain, and workspace-runtime roles.\n\nUsage:\n  agent-harness --help\n  agent-harness --version\n  agent-harness --version --json\n\n"@,
{
    cat3("agent-harness ", version, "\n\nEvented agent harness for coordinated face, brain, and workspace-runtime roles.\n\nUsage:\n  agent-harness --help\n  agent-harness --version\n  agent-harness --version --json\n\n")
}

/// The plain version line.
pub fn version_line(version: &str) -> (r: String)
    ensures
        r@ == "agent-harness "@ + version@ + "\n"@,
{
    cat3("agent-harness ", version, "\n")
}

} // verus!
