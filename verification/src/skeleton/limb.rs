//! The limb's decisions: what a tool call asks for, and how what a tool did
//! reads as its outcome. Running the tools (the filesystem, the processes
//! they spawn, their cancellation) stays with the limb's loop.
use vstd::prelude::*;
use crate::json::text_field;
use crate::order::{sort_strings, sorted_texts};
use crate::skeleton::protocol::{Contribution, Outcome};
use crate::text::{cat, cat3, joined, owned, views};

verus! {

/// The environment the limb owns: the directory its tools work in.
pub struct Limb {
    pub root: String,
}

/// What a tool call asks the limb to do.
pub enum ToolPlan {
    List { path: String },
    Read { path: String },
    Bash { command: String },
    /// The call cannot run; its outcome is this error.
    Refuse { error: String },
}

/// The plan for a call of `name` with arguments written as `arguments`.
pub open spec fn plan_of(name: Seq<char>, arguments: Seq<char>) -> ToolPlanView {
    if name == "list_files"@ {
        ToolPlanView::List(
            match text_field(arguments, "path"@) {
                Some(p) => p,
                None => "."@,
            },
        )
    } else if name == "read_file"@ {
        match text_field(arguments, "path"@) {
            Some(p) => ToolPlanView::Read(p),
            None => ToolPlanView::Refuse("missing required argument 'path'"@),
        }
    } else if name == "bash"@ {
        match text_field(arguments, "command"@) {
            Some(c) => ToolPlanView::Bash(c),
            None => ToolPlanView::Refuse("missing required argument 'command'"@),
        }
    } else {
        ToolPlanView::Refuse("unknown tool '"@ + name + "'"@)
    }
}

pub enum ToolPlanView {
    List(Seq<char>),
    Read(Seq<char>),
    Bash(Seq<char>),
    Refuse(Seq<char>),
}

impl View for ToolPlan {
    type V = ToolPlanView;

    open spec fn view(&self) -> ToolPlanView {
        match self {
            ToolPlan::List { path } => ToolPlanView::List(path@),
            ToolPlan::Read { path } => ToolPlanView::Read(path@),
            ToolPlan::Bash { command } => ToolPlanView::Bash(command@),
            ToolPlan::Refuse { error } => ToolPlanView::Refuse(error@),
        }
    }
}

/// The plan for a tool call. Arguments that do not parse as a JSON object
/// count as no arguments.
pub fn plan(name: &str, arguments: &str) -> (r: ToolPlan)
    ensures
        r@ == plan_of(name@, arguments@),
{
    if crate::text::same(name, "list_files") {
        match crate::json::text_member(arguments, "path") {
            Some(p) => ToolPlan::List { path: p },
            None => ToolPlan::List { path: owned(".") },
        }
    } else if crate::text::same(name, "read_file") {
        match crate::json::text_member(arguments, "path") {
            Some(p) => ToolPlan::Read { path: p },
            None => ToolPlan::Refuse { error: owned("missing required argument 'path'") },
        }
    } else if crate::text::same(name, "bash") {
        match crate::json::text_member(arguments, "command") {
            Some(c) => ToolPlan::Bash { command: c },
            None => ToolPlan::Refuse { error: owned("missing required argument 'command'") },
        }
    } else {
        ToolPlan::Refuse { error: cat3("unknown tool '", name, "'") }
    }
}

/// A directory listing: the entry names, sorted, one per line.
pub fn listing(names: Vec<String>) -> (r: String)
    ensures
        r@ == joined(sorted_texts(views(names@)), "\n"@),
{
    let sorted = sort_strings(names);
    crate::text::join(&sorted, "\n")
}

/// What a finished shell command reads as: its output, its error output
/// after a marker when there is any, and its exit status when it failed.
pub open spec fn command_text(stdout: Seq<char>, stderr: Seq<char>, success: bool, status: Seq<char>) -> Seq<char> {
    stdout + (if stderr.len() > 0 { "\n[stderr]\n"@ + stderr } else { Seq::empty() }) + (if success {
        Seq::empty()
    } else {
        "\n[exit status: "@ + status + "]"@
    })
}

/// The outcome of a shell command that ran to its end; `status` is how
/// the exit status prints.
pub fn command_output(stdout: &str, stderr: &str, success: bool, status: &str) -> (r: String)
    ensures
        r@ == command_text(stdout@, stderr@, success, status@),
{
    let mut text = owned(stdout);
    if stderr.unicode_len() > 0 {
        text.append("\n[stderr]\n");
        text.append(stderr);
    }
    if !success {
        text.append("\n[exit status: ");
        text.append(status);
        text.append("]");
    }
    text
}

/// A tool failure with its cause: `what` is the failed action and its
/// object, `cause` the error's text.
pub fn tool_error(what: &str, cause: &str) -> (r: Outcome<String>)
    ensures
        r matches Outcome::Failed { error } && error@ == what@ + ": "@ + cause@,
{
    Outcome::Failed { error: cat3(what, ": ", cause) }
}

/// The `list_files` tool as the model is offered it.
pub const LIST_FILES_DEF: &'static str = "{\"function\":{\"description\":\"List files in a directory (default: working directory).\",\"name\":\"list_files\",\"parameters\":{\"properties\":{\"path\":{\"description\":\"Directory to list\",\"type\":\"string\"}},\"type\":\"object\"}},\"type\":\"function\"}";

/// The `read_file` tool as the model is offered it.
pub const READ_FILE_DEF: &'static str = "{\"function\":{\"description\":\"Read a text file.\",\"name\":\"read_file\",\"parameters\":{\"properties\":{\"path\":{\"description\":\"File to read\",\"type\":\"string\"}},\"required\":[\"path\"],\"type\":\"object\"}},\"type\":\"function\"}";

/// The `bash` tool as the model is offered it.
pub const BASH_DEF: &'static str = "{\"function\":{\"description\":\"Run a bash command and return its output.\",\"name\":\"bash\",\"parameters\":{\"properties\":{\"command\":{\"description\":\"Command to run\",\"type\":\"string\"}},\"required\":[\"command\"],\"type\":\"object\"}},\"type\":\"function\"}";

/// The JSON definition of each tool the limb offers, by name.
pub fn tool_definitions() -> (r: Vec<(String, String)>)
    ensures
        r@.len() == 3,
        r@[0].0@ == "list_files"@ && r@[0].1@ == LIST_FILES_DEF@,
        r@[1].0@ == "read_file"@ && r@[1].1@ == READ_FILE_DEF@,
        r@[2].0@ == "bash"@ && r@[2].1@ == BASH_DEF@,
{
    let mut defs: Vec<(String, String)> = Vec::new();
    defs.push((owned("list_files"), owned(LIST_FILES_DEF)));
    defs.push((owned("read_file"), owned(READ_FILE_DEF)));
    defs.push((owned("bash"), owned(BASH_DEF)));
    defs
}

impl Limb {
    /// The limb's environment contributions: its tools by name, then the
    /// machine's host name.
    pub fn contributions(&self, hostname: String) -> (r: Vec<(String, Contribution)>)
        ensures
            r@.len() == 4,
            r@[0].0@ == "list_files"@,
            (r@[0].1 matches Contribution::Tool { def } && def@ == LIST_FILES_DEF@),
            r@[1].0@ == "read_file"@,
            (r@[1].1 matches Contribution::Tool { def } && def@ == READ_FILE_DEF@),
            r@[2].0@ == "bash"@,
            (r@[2].1 matches Contribution::Tool { def } && def@ == BASH_DEF@),
            r@[3].0@ == "hostname"@ && r@[3].1 == (Contribution::Fact { text: hostname }),
    {
        let defs = tool_definitions();
        let mut out: Vec<(String, Contribution)> = Vec::new();
        let mut i: usize = 0;
        while i < defs.len()
            invariant
                defs@.len() == 3,
                defs@[0].0@ == "list_files"@ && defs@[0].1@ == LIST_FILES_DEF@,
                defs@[1].0@ == "read_file"@ && defs@[1].1@ == READ_FILE_DEF@,
                defs@[2].0@ == "bash"@ && defs@[2].1@ == BASH_DEF@,
                i <= 3,
                out@.len() == i,
                forall|j: int| 0 <= j < i ==> (out@[j].0@ == defs@[j].0@)
                    && (out@[j].1 matches Contribution::Tool { def } && def@ == defs@[j].1@),
            decreases 3 - i,
        {
            out.push((crate::text::copy(&defs[i].0), Contribution::Tool { def: crate::text::copy(&defs[i].1) }));
            i = i + 1;
        }
        out.push((owned("hostname"), Contribution::Fact { text: hostname }));
        out
    }
}

/// What reaches the limb's loop.
pub enum LimbEvent {
    /// The brain asks for a call to run.
    Execute,
    /// The brain asks for the running call to stop.
    Cancel,
    /// The brain's end of the inbox is gone.
    InboxClosed,
    /// The running call came back with its outcome.
    Finished,
}

/// What the limb's loop does about an event.
pub enum LimbStep {
    /// Record the call as started, show it, and run it.
    Start,
    /// A second call while one runs: the loop ends with this error.
    Refuse(String),
    /// Cancel the running call; cancelling twice is harmless.
    CancelRunning,
    /// Nothing to do.
    Nothing,
    /// Hand the outcome to the brain, then leave the loop if the inbox is
    /// closed.
    Report { then_stop: bool },
    /// Leave the loop.
    Stop,
}

/// The limb's loop, one event at a time: `busy` says whether a call is
/// running, and the result says whether one is running afterwards. The limb
/// runs one call at a time: a call starts only when none is running, and
/// whatever is running is always joined and reported before the loop ends.
pub fn limb_step(busy: bool, inbox_closed: bool, event: LimbEvent) -> (r: (bool, LimbStep))
    ensures
        match event {
            LimbEvent::Execute => if busy {
                r.0 && (r.1 matches LimbStep::Refuse(e)
                    && e@ == "limb received a second tool call while one was already in flight"@)
            } else {
                r.0 && r.1 is Start
            },
            LimbEvent::Cancel => r.0 == busy && if busy { r.1 is CancelRunning } else { r.1 is Nothing },
            LimbEvent::InboxClosed => r.0 == busy && if busy { r.1 is CancelRunning } else { r.1 is Stop },
            LimbEvent::Finished => !r.0 && r.1 == (LimbStep::Report { then_stop: inbox_closed }),
        },
        r.1 is Start ==> !busy,
        r.1 is Stop ==> !busy,
{
    match event {
        LimbEvent::Execute => if busy {
            (true, LimbStep::Refuse(owned("limb received a second tool call while one was already in flight")))
        } else {
            (true, LimbStep::Start)
        },
        LimbEvent::Cancel => if busy { (true, LimbStep::CancelRunning) } else { (false, LimbStep::Nothing) },
        LimbEvent::InboxClosed => if busy { (true, LimbStep::CancelRunning) } else { (false, LimbStep::Stop) },
        LimbEvent::Finished => (false, LimbStep::Report { then_stop: inbox_closed }),
    }
}

} // verus!
