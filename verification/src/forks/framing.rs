//! Every word the harness says to a model. The system prompt and the tools
//! are the same for every agent; what is per-agent lives at the tail, in the
//! assignment a child is given and the result its parent is resumed with.
use vstd::prelude::*;
use crate::forks::agent::Mode;
use crate::text::{cat, cat3, joined, owned, views};

verus! {

pub const SYSTEM_PROMPT: &'static str = "You are an agent in a harness that runs agents as structured concurrency.\n\nYou can read one directory, and you can split your work across several agents at once with the `task` tool. Calling `task` suspends you until every agent you launched has finished; the call then returns each one's report.\n\nYour own report is your final message \u{2014} the last thing you write before ending your turn without calling a tool. Write it for whoever gave you your work: it is all they see of what you did.";

#[derive(Clone, Copy, PartialEq, Eq, Structural, Debug)]
pub enum Words {
    Stop,
    Explained,
}

impl Words {
    pub fn parse(text: &str) -> (r: Result<Words, String>)
        ensures
            text@ == "stop"@ ==> r == Ok::<Words, String>(Words::Stop),
            text@ == "explained"@ ==> r == Ok::<Words, String>(Words::Explained),
            text@ != "stop"@ && text@ != "explained"@ ==> (r matches Err(e) && e@ == "unknown --words "@
                + text@ + "; expected stop or explained"@),
    {
        proof {
            reveal_strlit("stop");
            reveal_strlit("explained");
            assert("stop"@.len() == 4 && "explained"@.len() == 9);
        }
        if crate::text::same(text, "stop") {
            Ok(Words::Stop)
        } else if crate::text::same(text, "explained") {
            Ok(Words::Explained)
        } else {
            Err(cat3("unknown --words ", text, "; expected stop or explained"))
        }
    }

    pub fn name(self) -> (r: &'static str)
        ensures
            r@ == match self {
                Words::Stop => "stop"@,
                Words::Explained => "explained"@,
            },
    {
        match self {
            Words::Stop => "stop",
            Words::Explained => "explained",
        }
    }
}

#[derive(Clone, Copy, PartialEq, Eq, Structural, Debug)]
pub enum Cut {
    Full,
    Own,
    Before,
}

impl Cut {
    pub fn parse(text: &str) -> (r: Result<Cut, String>)
        ensures
            text@ == "full"@ ==> r == Ok::<Cut, String>(Cut::Full),
            text@ == "own"@ ==> r == Ok::<Cut, String>(Cut::Own),
            text@ == "before"@ ==> r == Ok::<Cut, String>(Cut::Before),
            text@ != "full"@ && text@ != "own"@ && text@ != "before"@ ==> (r matches Err(e) && e@
                == "unknown --cut "@ + text@ + "; expected full, own or before"@),
    {
        proof {
            reveal_strlit("full");
            reveal_strlit("own");
            reveal_strlit("before");
            assert("full"@.len() == 4 && "own"@.len() == 3 && "before"@.len() == 6);
        }
        if crate::text::same(text, "full") {
            Ok(Cut::Full)
        } else if crate::text::same(text, "own") {
            Ok(Cut::Own)
        } else if crate::text::same(text, "before") {
            Ok(Cut::Before)
        } else {
            Err(cat3("unknown --cut ", text, "; expected full, own or before"))
        }
    }

    pub fn name(self) -> (r: &'static str)
        ensures
            r@ == match self {
                Cut::Full => "full"@,
                Cut::Own => "own"@,
                Cut::Before => "before"@,
            },
    {
        match self {
            Cut::Full => "full",
            Cut::Own => "own",
            Cut::Before => "before",
        }
    }
}

/// The two knobs the benchmark sweeps, and the fork/fresh override.
#[derive(Clone, Copy, PartialEq, Eq, Structural, Debug)]
pub struct Framing {
    pub cut: Cut,
    pub words: Words,
    pub mode: Mode,
}

pub open spec fn stop_text() -> Seq<char> {
    "Do only this, then stop."@
}

pub open spec fn quoted(names: Seq<Seq<char>>) -> Seq<Seq<char>> {
    names.map_values(|s: Seq<char>| "`"@ + s + "`"@)
}

pub open spec fn closing_text() -> Seq<char> {
    "\n\nYour final message is exactly what the agent that launched you receives. It is the whole of your report \u{2014} nothing else you write is passed on, so put the answer in it rather than pointing at work you did earlier. When your own assignment is done, write that message and end your turn without calling a tool. Do not carry on into the work that comes after it."@
}

pub open spec fn explained_text(name: Seq<char>, siblings: Seq<Seq<char>>) -> Seq<char> {
    let opening = if siblings.len() == 0 {
        "You are one branch of a split, launched as `"@ + name + "` with this one assignment and no other."@
    } else {
        "You are one branch of a split. Several agents were launched at once and given one assignment each; you are `"@
            + name + "`, and the other assignments belong to "@ + joined(quoted(siblings), ", "@)
            + ", who are working on them right now. Anything you do towards their assignments is work done twice and is thrown away. Do your own assignment and none of theirs."@
    };
    opening + closing_text()
}

/// The naive framing: the assignment, and an instruction to stop.
pub fn stop_words() -> (r: String)
    ensures
        r@ == stop_text(),
{
    crate::text::owned("Do only this, then stop.")
}

fn quote_all(siblings: &Vec<String>) -> (r: Vec<String>)
    ensures
        views(r@) == quoted(views(siblings@)),
{
    let mut out: Vec<String> = Vec::new();
    let mut i: usize = 0;
    while i < siblings.len()
        invariant
            i <= siblings@.len(),
            views(out@) == quoted(views(siblings@)).subrange(0, i as int),
        decreases siblings@.len() - i,
    {
        let ghost prev = views(out@);
        out.push(cat3("`", siblings[i].as_str(), "`"));
        assert(views(out@) =~= prev.push("`"@ + siblings@[i as int]@ + "`"@));
        assert(views(siblings@)[i as int] == siblings@[i as int]@);
        assert(quoted(views(siblings@))[i as int] == "`"@ + siblings@[i as int]@ + "`"@);
        i = i + 1;
        assert(views(out@) =~= quoted(views(siblings@)).subrange(0, i as int));
    }
    assert(quoted(views(siblings@)).subrange(0, i as int) =~= quoted(views(siblings@)));
    out
}

/// The treatment: what the split is, that siblings hold the rest of it, and
/// what the final message is for.
pub fn explained_words(name: &str, siblings: &Vec<String>) -> (r: String)
    ensures
        r@ == explained_text(name@, views(siblings@)),
{
    let mut text = if siblings.len() == 0 {
        cat3("You are one branch of a split, launched as `", name, "` with this one assignment and no other.")
    } else {
        let others = crate::text::join(&quote_all(siblings), ", ");
        let mut t = cat3(
            "You are one branch of a split. Several agents were launched at once and given one assignment each; you are `",
            name,
            "`, and the other assignments belong to ",
        );
        t.append(others.as_str());
        t.append(", who are working on them right now. Anything you do towards their assignments is work done twice and is thrown away. Do your own assignment and none of theirs.");
        t
    };
    text.append("\n\nYour final message is exactly what the agent that launched you receives. It is the whole of your report \u{2014} nothing else you write is passed on, so put the answer in it rather than pointing at work you did earlier. When your own assignment is done, write that message and end your turn without calling a tool. Do not carry on into the work that comes after it.");
    text
}

pub open spec fn words_text(words: Words, name: Seq<char>, siblings: Seq<Seq<char>>) -> Seq<char> {
    match words {
        Words::Stop => stop_text(),
        Words::Explained => explained_text(name, siblings),
    }
}

/// The reports of the agents a child was told to start after.
pub open spec fn reports_text(dependencies: Seq<(Seq<char>, Seq<char>)>) -> Seq<char>
    decreases dependencies.len(),
{
    if dependencies.len() == 0 {
        Seq::empty()
    } else {
        let last = dependencies.last();
        reports_text(dependencies.drop_last()) + "\n## `"@ + last.0 + "`\n"@ + last.1 + "\n"@
    }
}

pub open spec fn pairs_view(v: Seq<(String, String)>) -> Seq<(Seq<char>, Seq<char>)> {
    v.map_values(|p: (String, String)| (p.0@, p.1@))
}

pub open spec fn assignment_text(
    words: Words,
    name: Seq<char>,
    task: Seq<char>,
    siblings: Seq<Seq<char>>,
    dependencies: Seq<(Seq<char>, Seq<char>)>,
) -> Seq<char> {
    let head = "You are agent `"@ + name + "`.\n\nYour assignment:\n"@ + task + "\n\n"@ + words_text(words, name, siblings);
    if dependencies.len() == 0 {
        head
    } else {
        head + "\n\nReports from the agents you were told to start after:\n"@ + reports_text(dependencies)
    }
}

/// The tail a child is given: its assignment, the framing under test, and
/// the reports of any agents it was declared to start after.
pub fn assignment(
    words: Words,
    name: &str,
    task: &str,
    siblings: &Vec<String>,
    dependencies: &Vec<(String, String)>,
) -> (r: String)
    ensures
        r@ == assignment_text(words, name@, task@, views(siblings@), pairs_view(dependencies@)),
{
    let mut text = cat3("You are agent `", name, "`.\n\nYour assignment:\n");
    text.append(task);
    text.append("\n\n");
    let tail = match words {
        Words::Stop => stop_words(),
        Words::Explained => explained_words(name, siblings),
    };
    text.append(tail.as_str());
    if dependencies.len() > 0 {
        text.append("\n\nReports from the agents you were told to start after:\n");
        let ghost head = text@;
        let mut i: usize = 0;
        while i < dependencies.len()
            invariant
                i <= dependencies@.len(),
                text@ == head + reports_text(pairs_view(dependencies@).subrange(0, i as int)),
            decreases dependencies@.len() - i,
        {
            let ghost before = pairs_view(dependencies@).subrange(0, i as int);
            text.append("\n## `");
            text.append(dependencies[i].0.as_str());
            text.append("`\n");
            text.append(dependencies[i].1.as_str());
            text.append("\n");
            i = i + 1;
            assert(pairs_view(dependencies@).subrange(0, i as int).drop_last() =~= before);
        }
        assert(pairs_view(dependencies@).subrange(0, i as int) =~= pairs_view(dependencies@));
    }
    text
}

pub open spec fn triples_view(v: Seq<(String, String, String)>) -> Seq<(Seq<char>, Seq<char>, Seq<char>)> {
    v.map_values(|t: (String, String, String)| (t.0@, t.1@, t.2@))
}

pub open spec fn scope_reports_text(reports: Seq<(Seq<char>, Seq<char>, Seq<char>)>) -> Seq<char>
    decreases reports.len(),
{
    if reports.len() == 0 {
        Seq::empty()
    } else {
        let last = reports.last();
        scope_reports_text(reports.drop_last()) + "\n## `"@ + last.0 + "` \u{2014} "@ + last.1 + "\n"@ + last.2 + "\n"@
    }
}

pub open spec fn scope_result_text(reports: Seq<(Seq<char>, Seq<char>, Seq<char>)>) -> Seq<char> {
    "Every agent you launched has finished. Their reports, in the order you declared them:\n"@ + scope_reports_text(reports)
}

/// The one tool result the suspended parent is resumed with: each child's
/// name, how it ended and its report, in declared order.
pub fn scope_result(reports: &Vec<(String, String, String)>) -> (r: String)
    ensures
        r@ == scope_result_text(triples_view(reports@)),
{
    let mut text = crate::text::owned(
        "Every agent you launched has finished. Their reports, in the order you declared them:\n",
    );
    let ghost head = text@;
    let mut i: usize = 0;
    while i < reports.len()
        invariant
            i <= reports@.len(),
            head == "Every agent you launched has finished. Their reports, in the order you declared them:\n"@,
            text@ == head + scope_reports_text(triples_view(reports@).subrange(0, i as int)),
        decreases reports@.len() - i,
    {
        let ghost before = triples_view(reports@).subrange(0, i as int);
        text.append("\n## `");
        text.append(reports[i].0.as_str());
        text.append("` \u{2014} ");
        text.append(reports[i].1.as_str());
        text.append("\n");
        text.append(reports[i].2.as_str());
        text.append("\n");
        i = i + 1;
        assert(triples_view(reports@).subrange(0, i as int).drop_last() =~= before);
    }
    assert(triples_view(reports@).subrange(0, i as int) =~= triples_view(reports@));
    text
}

pub open spec fn depth_limit_text(max_depth: nat) -> Seq<char> {
    "Error: this run allows agents no more than "@ + crate::text::decimal(max_depth)
        + " levels below the root, and you are at the limit. Do this work yourself."@
}

/// The refusal of a `task` call made at the depth limit.
pub fn depth_limit_error(max_depth: usize) -> (r: String)
    ensures
        r@ == depth_limit_text(max_depth as nat),
{
    let mut text = crate::text::owned("Error: this run allows agents no more than ");
    crate::text::push_decimal(&mut text, max_depth as u64);
    text.append(" levels below the root, and you are at the limit. Do this work yourself.");
    text
}

/// The `list_dir` tool's schema, written compactly with its keys in order.
pub const LIST_DIR_SCHEMA: &'static str = "{\"function\":{\"description\":\"List the entries of a directory, relative to the run directory.\",\"name\":\"list_dir\",\"parameters\":{\"properties\":{\"path\":{\"description\":\"Directory path relative to the run directory. Use \\\".\\\" for the run directory itself.\",\"type\":\"string\"}},\"required\":[\"path\"],\"type\":\"object\"}},\"type\":\"function\"}";

/// The `read_file` tool's schema.
pub const READ_FILE_SCHEMA: &'static str = "{\"function\":{\"description\":\"Read a UTF-8 text file, relative to the run directory.\",\"name\":\"read_file\",\"parameters\":{\"properties\":{\"path\":{\"description\":\"File path relative to the run directory.\",\"type\":\"string\"}},\"required\":[\"path\"],\"type\":\"object\"}},\"type\":\"function\"}";

/// The `task` tool's schema.
pub const TASK_SCHEMA: &'static str = "{\"function\":{\"description\":\"Split your work across agents that run at the same time. You are suspended until all of them finish; the call then returns every agent's report, in the order you declared them. Each agent may split its own work the same way. A forked agent starts from your context as it stands right now and pays for it out of the cache, so fork when the work is a continuation of yours; a fresh agent starts from its assignment alone, so choose fresh when your context would only be noise to it.\",\"name\":\"task\",\"parameters\":{\"properties\":{\"agents\":{\"description\":\"The agents to launch, in the order you want their reports back.\",\"items\":{\"properties\":{\"after\":{\"description\":\"Names of agents in this same call that must finish first. Their reports are included in this agent's assignment.\",\"items\":{\"type\":\"string\"},\"type\":\"array\"},\"fresh\":{\"description\":\"Start this agent from its assignment alone instead of forking your context. Default false.\",\"type\":\"boolean\"},\"name\":{\"description\":\"Short unique name, used to label this agent's report and to refer to it in `after`.\",\"type\":\"string\"},\"task\":{\"description\":\"This agent's assignment. It sees nothing you do not put here or in your shared context.\",\"type\":\"string\"}},\"required\":[\"name\",\"task\"],\"type\":\"object\"},\"type\":\"array\"}},\"required\":[\"agents\"],\"type\":\"object\"}},\"type\":\"function\"}";

/// The JSON schema of each tool an agent is offered: `list_dir`,
/// `read_file` and `task`. Every agent of a run is offered the same list.
pub fn tool_schemas() -> (r: Vec<String>)
    ensures
        views(r@) == seq![LIST_DIR_SCHEMA@, READ_FILE_SCHEMA@, TASK_SCHEMA@],
{
    let mut schemas: Vec<String> = Vec::new();
    schemas.push(owned(LIST_DIR_SCHEMA));
    schemas.push(owned(READ_FILE_SCHEMA));
    schemas.push(owned(TASK_SCHEMA));
    assert(views(schemas@) =~= seq![LIST_DIR_SCHEMA@, READ_FILE_SCHEMA@, TASK_SCHEMA@]);
    schemas
}

} // verus!
