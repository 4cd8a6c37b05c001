//! Agents as structured concurrency: how an agent ends, how its tree is
//! booked, and how a `task` call is read and checked before any child runs.
use vstd::prelude::*;
use crate::json::{array_of, as_array, as_bool, as_text, bool_of, field, field_of, find_member, get, json_document, parse_json, text_field, text_member, text_of, texts_view, JsonNode, JsonNodeView, JsonParse, JsonParseView};
use crate::text::{cat, cat3, trimmed, views};
use crate::forks::schedule::{acyclic_verdict, all_pending, check_acyclic, deps_view, lemma_rounds_finish_iff_schedulable, none_pending, schedulable, settle};

verus! {

/// Why the harness could not get past something.
#[derive(Clone, Copy, PartialEq, Eq, Structural, Debug)]
pub enum FaultKind {
    /// The provider or the transport.
    Provider,
    /// The spend cap.
    Budget,
    /// The turn limit.
    Runaway,
    /// A bug in the harness.
    Panic,
}

impl FaultKind {
    pub fn name(self) -> (r: &'static str)
        ensures
            r@ == match self {
                FaultKind::Provider => "provider"@,
                FaultKind::Budget => "budget"@,
                FaultKind::Runaway => "runaway"@,
                FaultKind::Panic => "panic"@,
            },
    {
        match self {
            FaultKind::Provider => "provider",
            FaultKind::Budget => "budget",
            FaultKind::Runaway => "runaway",
            FaultKind::Panic => "panic",
        }
    }

    /// Whether a trial that ended this way can be read as evidence about the
    /// model: the spend cap and the turn limit can, the provider and a
    /// harness bug cannot.
    pub fn is_the_models_doing(self) -> (r: bool)
        ensures
            r == (self == FaultKind::Budget || self == FaultKind::Runaway),
    {
        match self {
            FaultKind::Budget | FaultKind::Runaway => true,
            _ => false,
        }
    }
}

#[derive(Clone, Debug)]
pub struct Fault {
    pub kind: FaultKind,
    pub reason: String,
}

impl Fault {
    pub fn provider(reason: String) -> (r: Fault)
        ensures
            r.kind == FaultKind::Provider,
            r.reason == reason,
    {
        Fault { kind: FaultKind::Provider, reason }
    }
}

pub enum RequestEnd {
    Faulted(Fault),
    Cancelled,
}

#[derive(Clone, Copy, PartialEq, Eq, Structural, Debug)]
pub enum Mode {
    /// Honour each `task` entry's own `fresh` flag.
    Declared,
    Fork,
    Fresh,
}

impl Mode {
    pub fn parse(text: &str) -> (r: Result<Mode, String>)
        ensures
            text@ == "fork"@ ==> r == Ok::<Mode, String>(Mode::Fork),
            text@ == "fresh"@ ==> r == Ok::<Mode, String>(Mode::Fresh),
            text@ == "declared"@ ==> r == Ok::<Mode, String>(Mode::Declared),
            text@ != "fork"@ && text@ != "fresh"@ && text@ != "declared"@ ==> (r matches Err(e)
                && e@ == "unknown --mode "@ + text@ + "; expected fork, fresh or declared"@),
    {
        proof {
            reveal_strlit("fork");
            reveal_strlit("fresh");
            reveal_strlit("declared");
            assert("fork"@.len() == 4 && "fresh"@.len() == 5 && "declared"@.len() == 8);
        }
        if crate::text::same(text, "fork") {
            Ok(Mode::Fork)
        } else if crate::text::same(text, "fresh") {
            Ok(Mode::Fresh)
        } else if crate::text::same(text, "declared") {
            Ok(Mode::Declared)
        } else {
            Err(cat3("unknown --mode ", text, "; expected fork, fresh or declared"))
        }
    }

    pub fn name(self) -> (r: &'static str)
        ensures
            r@ == match self {
                Mode::Declared => "declared"@,
                Mode::Fork => "fork"@,
                Mode::Fresh => "fresh"@,
            },
    {
        match self {
            Mode::Declared => "declared",
            Mode::Fork => "fork",
            Mode::Fresh => "fresh",
        }
    }

    /// Whether a child declared `fresh` (or not) starts fresh under this mode.
    pub fn resolve(self, declared: bool) -> (r: bool)
        ensures
            r == match self {
                Mode::Declared => declared,
                Mode::Fork => false,
                Mode::Fresh => true,
            },
    {
        match self {
            Mode::Declared => declared,
            Mode::Fork => false,
            Mode::Fresh => true,
        }
    }
}

#[derive(Clone, Debug)]
pub enum Outcome {
    Completed,
    Cancelled,
    /// The harness could not get past something. Not completion: the
    /// agent's ancestors are blocked in exactly the same way.
    Faulted(String),
    /// An ancestor of a faulted agent: still inside its `task` call.
    Suspended,
    /// The agent's task panicked.
    Panicked(String),
}

pub open spec fn outcome_short(o: Outcome) -> Seq<char> {
    match o {
        Outcome::Completed => "completed"@,
        Outcome::Cancelled => "cancelled"@,
        Outcome::Faulted(_) => "faulted"@,
        Outcome::Suspended => "suspended"@,
        Outcome::Panicked(_) => "panicked"@,
    }
}

pub open spec fn outcome_label(o: Outcome) -> Seq<char> {
    match o {
        Outcome::Faulted(reason) => "faulted: "@ + reason@,
        Outcome::Panicked(reason) => "panicked: "@ + reason@,
        _ => outcome_short(o),
    }
}

/// Both kinds of out-of-band fault, and a suspended agent: none of them
/// resumes an ancestor.
pub open spec fn blocks(o: Outcome) -> bool {
    match o {
        Outcome::Faulted(_) | Outcome::Suspended | Outcome::Panicked(_) => true,
        _ => false,
    }
}

impl Outcome {
    pub fn label(&self) -> (r: String)
        ensures
            r@ == outcome_label(*self),
    {
        match self {
            Outcome::Completed => crate::text::owned("completed"),
            Outcome::Cancelled => crate::text::owned("cancelled"),
            Outcome::Faulted(reason) => cat("faulted: ", reason.as_str()),
            Outcome::Suspended => crate::text::owned("suspended"),
            Outcome::Panicked(reason) => cat("panicked: ", reason.as_str()),
        }
    }

    pub fn short(&self) -> (r: &'static str)
        ensures
            r@ == outcome_short(*self),
    {
        match self {
            Outcome::Completed => "completed",
            Outcome::Cancelled => "cancelled",
            Outcome::Faulted(_) => "faulted",
            Outcome::Suspended => "suspended",
            Outcome::Panicked(_) => "panicked",
        }
    }

    pub fn blocks_the_parent(&self) -> (r: bool)
        ensures
            r == blocks(*self),
    {
        match self {
            Outcome::Faulted(_) | Outcome::Suspended | Outcome::Panicked(_) => true,
            _ => false,
        }
    }

    /// A copy whose reason, if any, is the same text.
    pub fn duplicate(&self) -> (r: Outcome)
        ensures
            outcome_label(r) == outcome_label(*self),
            outcome_short(r) == outcome_short(*self),
            blocks(r) == blocks(*self),
            r is Completed <==> self is Completed,
    {
        match self {
            Outcome::Completed => Outcome::Completed,
            Outcome::Cancelled => Outcome::Cancelled,
            Outcome::Faulted(reason) => Outcome::Faulted(crate::text::copy(reason)),
            Outcome::Suspended => Outcome::Suspended,
            Outcome::Panicked(reason) => Outcome::Panicked(crate::text::copy(reason)),
        }
    }
}

/// Where an agent is. Every agent reaches `Ended` exactly once.
#[derive(Clone, Debug)]
pub enum AgentState {
    Waiting,
    Running,
    Suspended,
    Ended(Outcome),
}

pub open spec fn state_short(s: AgentState) -> Seq<char> {
    match s {
        AgentState::Waiting => "waiting"@,
        AgentState::Running => "running"@,
        AgentState::Suspended => "suspended"@,
        AgentState::Ended(o) => outcome_short(o),
    }
}

impl AgentState {
    pub fn short(&self) -> (r: &'static str)
        ensures
            r@ == state_short(*self),
    {
        match self {
            AgentState::Waiting => "waiting",
            AgentState::Running => "running",
            AgentState::Suspended => "suspended",
            AgentState::Ended(outcome) => outcome.short(),
        }
    }
}

#[derive(Clone, Debug)]
pub struct ToolCallRecord {
    pub name: String,
    pub arguments: String,
    /// What the tool answered; a read that failed is not a read.
    pub result: Option<String>,
}

/// One entry of a `task` call's `agents`.
#[derive(Debug)]
pub struct ChildSpec {
    pub name: String,
    pub task: String,
    pub after: Vec<String>,
    pub fresh: bool,
    /// The entry's own JSON text, as the parsed value serializes.
    pub raw: String,
}

pub struct ChildSpecView {
    pub name: Seq<char>,
    pub task: Seq<char>,
    pub after: Seq<Seq<char>>,
    pub fresh: bool,
    pub raw: Seq<char>,
}

impl View for ChildSpec {
    type V = ChildSpecView;

    open spec fn view(&self) -> ChildSpecView {
        ChildSpecView {
            name: self.name@,
            task: self.task@,
            after: views(self.after@),
            fresh: self.fresh,
            raw: self.raw@,
        }
    }
}

pub open spec fn specs_view(v: Seq<ChildSpec>) -> Seq<ChildSpecView> {
    v.map_values(|c: ChildSpec| c@)
}

pub open spec fn spec_names(v: Seq<ChildSpecView>) -> Seq<Seq<char>> {
    v.map_values(|c: ChildSpecView| c.name)
}

pub open spec fn spec_deps(v: Seq<ChildSpecView>) -> Seq<Seq<Seq<char>>> {
    v.map_values(|c: ChildSpecView| c.after)
}

pub open spec fn after_error(name: Seq<char>) -> Seq<char> {
    "agent `"@ + name + "`: `after` must be a list of names"@
}

/// The strings that a list of JSON string texts hold.
pub open spec fn strings_in(items: Seq<Seq<char>>) -> Seq<Seq<char>> {
    items.map_values(|t: Seq<char>| text_of(t)->0)
}

/// An entry's `after`: absent or null is no dependency; otherwise a list of
/// strings.
pub open spec fn after_of(entry: Seq<char>, name: Seq<char>) -> Result<Seq<Seq<char>>, Seq<char>> {
    match field_of(entry, "after"@) {
        None => Ok(Seq::empty()),
        Some(t) => match json_document(t) {
            JsonParseView::Valid(JsonNodeView::Null) => Ok(Seq::empty()),
            JsonParseView::Valid(JsonNodeView::Array(items)) => {
                if forall|i: int| 0 <= i < items.len() ==> #[trigger] text_of(items[i]) is Some {
                    Ok(strings_in(items))
                } else {
                    Err(after_error(name))
                }
            },
            _ => Err(after_error(name)),
        },
    }
}

/// An entry's `fresh`, false unless it is a boolean.
pub open spec fn fresh_of(entry: Seq<char>) -> bool {
    match field_of(entry, "fresh"@) {
        Some(t) => match bool_of(t) {
            Some(b) => b,
            None => false,
        },
        None => false,
    }
}

/// One entry, given the names already taken.
pub open spec fn entry_spec(entry: Seq<char>, seen: Seq<Seq<char>>) -> Result<ChildSpecView, Seq<char>> {
    match text_field(entry, "name"@) {
        None => Err("every agent needs a `name`"@),
        Some(raw_name) => {
            let name = trimmed(raw_name);
            if name.len() == 0 {
                Err("an agent had an empty `name`"@)
            } else if seen.contains(name) {
                Err("two agents were both named `"@ + name + "`"@)
            } else {
                match text_field(entry, "task"@) {
                    None => Err("agent `"@ + name + "` needs a `task`"@),
                    Some(task) => match after_of(entry, name) {
                        Err(e) => Err(e),
                        Ok(after) => Ok(
                            ChildSpecView { name, task, after, fresh: fresh_of(entry), raw: entry },
                        ),
                    },
                }
            }
        },
    }
}

/// The entries in order; the first bad one decides the error.
pub open spec fn specs_from(entries: Seq<Seq<char>>, acc: Seq<ChildSpecView>) -> Result<Seq<ChildSpecView>, Seq<char>>
    decreases entries.len(),
{
    if entries.len() == 0 {
        Ok(acc)
    } else {
        match entry_spec(entries[0], spec_names(acc)) {
            Err(e) => Err(e),
            Ok(s) => specs_from(entries.drop_first(), acc.push(s)),
        }
    }
}

/// The first `after` of one agent that names itself or nobody in the call.
pub open spec fn first_bad_dependency(after: Seq<Seq<char>>, name: Seq<char>, names: Seq<Seq<char>>) -> Option<Seq<char>>
    decreases after.len(),
{
    if after.len() == 0 {
        None
    } else if after[0] == name {
        Some("agent `"@ + name + "` was told to start after itself"@)
    } else if !names.contains(after[0]) {
        Some("agent `"@ + name + "` was told to start after `"@ + after[0] + "`, which is not in this call"@)
    } else {
        first_bad_dependency(after.drop_first(), name, names)
    }
}

/// The first bad dependency of the call, agent by agent.
pub open spec fn dependency_error(specs: Seq<ChildSpecView>, names: Seq<Seq<char>>) -> Option<Seq<char>>
    decreases specs.len(),
{
    if specs.len() == 0 {
        None
    } else {
        match first_bad_dependency(specs[0].after, specs[0].name, names) {
            Some(e) => Some(e),
            None => dependency_error(specs.drop_first(), names),
        }
    }
}

/// The `agents` array of a `task` call's arguments.
pub open spec fn agents_of(arguments: Seq<char>) -> Result<Seq<Seq<char>>, Seq<char>> {
    match json_document(arguments) {
        JsonParseView::Invalid(e) => Err("the arguments were not valid JSON: "@ + e),
        JsonParseView::Valid(node) => match get(JsonParseView::Valid(node), "agents"@) {
            Some(t) => match array_of(t) {
                Some(items) => Ok(items),
                None => Err("`agents` must be an array"@),
            },
            None => Err("`agents` must be an array"@),
        },
    }
}

/// What a `task` call's arguments launch, or why they launch nothing.
pub open spec fn children_of(arguments: Seq<char>) -> Result<Seq<ChildSpecView>, Seq<char>> {
    match agents_of(arguments) {
        Err(e) => Err(e),
        Ok(entries) => if entries.len() == 0 {
            Err("`agents` was empty; name at least one agent"@)
        } else {
            match specs_from(entries, Seq::empty()) {
                Err(e) => Err(e),
                Ok(specs) => match dependency_error(specs, spec_names(specs)) {
                    Some(e) => Err(e),
                    None => match acyclic_verdict(spec_names(specs), spec_deps(specs)) {
                        Ok(()) => Ok(specs),
                        Err(m) => Err(m),
                    },
                },
            }
        },
    }
}

pub open spec fn children_view(r: Result<Vec<ChildSpec>, String>) -> Result<Seq<ChildSpecView>, Seq<char>> {
    match r {
        Ok(v) => Ok(specs_view(v@)),
        Err(e) => Err(e@),
    }
}

fn names_contain(specs: &Vec<ChildSpec>, name: &String) -> (r: bool)
    ensures
        r == spec_names(specs_view(specs@)).contains(name@),
{
    let mut i: usize = 0;
    while i < specs.len()
        invariant
            i <= specs@.len(),
            forall|k: int| 0 <= k < i ==> specs@[k].name@ != name@,
        decreases specs@.len() - i,
    {
        if crate::text::same(specs[i].name.as_str(), name.as_str()) {
            assert(spec_names(specs_view(specs@))[i as int] == name@);
            return true;
        }
        i = i + 1;
    }
    proof {
        if spec_names(specs_view(specs@)).contains(name@) {
            let k = choose|k: int| 0 <= k < spec_names(specs_view(specs@)).len() && spec_names(specs_view(specs@))[k] == name@;
            assert(specs@[k].name@ == name@);
        }
    }
    false
}

/// The `after` names of an entry whose name is `name`.
fn read_after(entry: &String, name: &String) -> (r: Result<Vec<String>, String>)
    ensures
        match r {
            Ok(v) => after_of(entry@, name@) == Ok::<Seq<Seq<char>>, Seq<char>>(views(v@)),
            Err(e) => after_of(entry@, name@) == Err::<Seq<Seq<char>>, Seq<char>>(e@),
        },
{
    let bad = cat3("agent `", name.as_str(), "`: `after` must be a list of names");
    match field(entry.as_str(), "after") {
        None => {
            let v: Vec<String> = Vec::new();
            assert(views(v@) =~= Seq::<Seq<char>>::empty());
            Ok(v)
        },
        Some(t) => match parse_json(t.as_str()) {
            JsonParse::Valid(JsonNode::Null) => {
                let v: Vec<String> = Vec::new();
                assert(views(v@) =~= Seq::<Seq<char>>::empty());
                Ok(v)
            },
            JsonParse::Valid(JsonNode::Array(items)) => {
                let ghost iv = texts_view(items@);
                let mut out: Vec<String> = Vec::new();
                let mut i: usize = 0;
                while i < items.len()
                    invariant
                        iv == texts_view(items@),
                        field_of(entry@, "after"@) == Some(t@),
                        json_document(t@) == JsonParseView::Valid(JsonNodeView::Array(iv)),
                        bad@ == after_error(name@),
                        i <= items@.len(),
                        forall|k: int| 0 <= k < i ==> #[trigger] text_of(iv[k]) is Some,
                        views(out@) == strings_in(iv.subrange(0, i as int)),
                    decreases items@.len() - i,
                {
                    assert(iv[i as int] == items@[i as int]@);
                    let ghost prev = views(out@);
                    match as_text(items[i].as_str()) {
                        Some(s) => {
                            out.push(s);
                            assert(views(out@) =~= prev.push(s@));
                            assert(iv.subrange(0, i + 1) =~= iv.subrange(0, i as int).push(iv[i as int]));
                            assert(strings_in(iv.subrange(0, i + 1)) =~= strings_in(iv.subrange(0, i as int)).push(text_of(iv[i as int])->0));
                        },
                        None => {
                            assert(!(text_of(iv[i as int]) is Some));
                            assert(!(forall|k: int| 0 <= k < iv.len() ==> #[trigger] text_of(iv[k]) is Some));
                            assert(after_of(entry@, name@) == Err::<Seq<Seq<char>>, Seq<char>>(after_error(name@)));
                            return Err(bad);
                        },
                    }
                    i = i + 1;
                }
                assert(iv.subrange(0, items@.len() as int) =~= iv);
                Ok(out)
            },
            _ => Err(bad),
        },
    }
}

/// Reads one entry against the names taken so far.
fn read_entry(entry: &String, seen: &Vec<ChildSpec>) -> (r: Result<ChildSpec, String>)
    ensures
        match r {
            Ok(c) => entry_spec(entry@, spec_names(specs_view(seen@))) == Ok::<ChildSpecView, Seq<char>>(c@),
            Err(e) => entry_spec(entry@, spec_names(specs_view(seen@))) == Err::<ChildSpecView, Seq<char>>(e@),
        },
{
    let raw_name = match text_member(entry.as_str(), "name") {
        Some(n) => n,
        None => {
            return Err(crate::text::owned("every agent needs a `name`"));
        },
    };
    let name = crate::text::trim(raw_name.as_str());
    if name.unicode_len() == 0 {
        return Err(crate::text::owned("an agent had an empty `name`"));
    }
    if names_contain(seen, &name) {
        return Err(cat3("two agents were both named `", name.as_str(), "`"));
    }
    let task = match text_member(entry.as_str(), "task") {
        Some(t) => t,
        None => {
            return Err(cat3("agent `", name.as_str(), "` needs a `task`"));
        },
    };
    let after = match read_after(entry, &name) {
        Ok(a) => a,
        Err(e) => {
            return Err(e);
        },
    };
    let fresh = match field(entry.as_str(), "fresh") {
        Some(t) => match as_bool(t.as_str()) {
            Some(b) => b,
            None => false,
        },
        None => false,
    };
    Ok(ChildSpec { name, task, after, fresh, raw: crate::text::copy(entry) })
}

fn bad_dependency_of(spec: &ChildSpec, all: &Vec<ChildSpec>) -> (r: Option<String>)
    ensures
        match r {
            Some(e) => first_bad_dependency(spec@.after, spec@.name, spec_names(specs_view(all@)))
                == Some(e@),
            None => first_bad_dependency(spec@.after, spec@.name, spec_names(specs_view(all@))) is None,
        },
{
    let ghost names = spec_names(specs_view(all@));
    let ghost after = spec@.after;
    let mut j: usize = 0;
    assert(after.subrange(0, after.len() as int) =~= after);
    while j < spec.after.len()
        invariant
            names == spec_names(specs_view(all@)),
            after == spec@.after,
            j <= after.len(),
            after.len() == spec.after@.len(),
            first_bad_dependency(after, spec@.name, names) == first_bad_dependency(
                after.subrange(j as int, after.len() as int),
                spec@.name,
                names,
            ),
        decreases after.len() - j,
    {
        let ghost rest = after.subrange(j as int, after.len() as int);
        assert(rest[0] == spec.after@[j as int]@);
        assert(rest.drop_first() =~= after.subrange(j + 1, after.len() as int));
        let d = &spec.after[j];
        if crate::text::same(d.as_str(), spec.name.as_str()) {
            return Some(cat3("agent `", spec.name.as_str(), "` was told to start after itself"));
        }
        if !names_contain(all, d) {
            let head = cat3("agent `", spec.name.as_str(), "` was told to start after `");
            let msg = cat3(head.as_str(), d.as_str(), "`, which is not in this call");
            return Some(msg);
        }
        j = j + 1;
    }
    None
}

/// Reads a `task` call's arguments: which agents it launches, with their
/// assignments, start-after dependencies and `fresh` flags, or the error
/// the caller is answered with instead.
pub fn parse_children(arguments: &str) -> (r: Result<Vec<ChildSpec>, String>)
    ensures
        children_view(r) == children_of(arguments@),
{
    let entries = match parse_json(arguments) {
        JsonParse::Invalid(e) => {
            return Err(cat("the arguments were not valid JSON: ", e.as_str()));
        },
        JsonParse::Valid(node) => {
            let agents = match node {
                JsonNode::Object(members) => find_member(&members, "agents"),
                _ => None,
            };
            match agents {
                Some(t) => match as_array(t.as_str()) {
                    Some(items) => items,
                    None => {
                        return Err(crate::text::owned("`agents` must be an array"));
                    },
                },
                None => {
                    return Err(crate::text::owned("`agents` must be an array"));
                },
            }
        },
    };
    assert(agents_of(arguments@) == Ok::<Seq<Seq<char>>, Seq<char>>(texts_view(entries@)));
    if entries.len() == 0 {
        return Err(crate::text::owned("`agents` was empty; name at least one agent"));
    }
    let ghost ev = texts_view(entries@);
    let mut specs: Vec<ChildSpec> = Vec::new();
    let mut i: usize = 0;
    assert(ev.subrange(0, ev.len() as int) =~= ev);
    assert(specs_view(specs@) =~= Seq::<ChildSpecView>::empty());
    while i < entries.len()
        invariant
            ev == texts_view(entries@),
            agents_of(arguments@) == Ok::<Seq<Seq<char>>, Seq<char>>(ev),
            ev.len() > 0,
            i <= entries@.len(),
            specs_from(ev, Seq::empty()) == specs_from(ev.subrange(i as int, ev.len() as int), specs_view(specs@)),
        decreases entries@.len() - i,
    {
        let ghost rest = ev.subrange(i as int, ev.len() as int);
        assert(rest[0] == entries@[i as int]@);
        assert(rest.drop_first() =~= ev.subrange(i + 1, ev.len() as int));
        let ghost before = specs_view(specs@);
        match read_entry(&entries[i], &specs) {
            Ok(c) => {
                specs.push(c);
                assert(specs_view(specs@) =~= before.push(c@));
            },
            Err(e) => {
                assert(specs_from(rest, before) == Err::<Seq<ChildSpecView>, Seq<char>>(e@));
                assert(specs_from(ev, Seq::empty()) == Err::<Seq<ChildSpecView>, Seq<char>>(e@));
                assert(children_of(arguments@) == Err::<Seq<ChildSpecView>, Seq<char>>(e@));
                return Err(e);
            },
        }
        i = i + 1;
    }
    let ghost sv = specs_view(specs@);
    assert(ev.subrange(ev.len() as int, ev.len() as int) =~= Seq::<Seq<char>>::empty());
    assert(specs_from(ev, Seq::empty()) == Ok::<Seq<ChildSpecView>, Seq<char>>(sv));
    let mut k: usize = 0;
    assert(sv.subrange(0, sv.len() as int) =~= sv);
    while k < specs.len()
        invariant
            sv == specs_view(specs@),
            agents_of(arguments@) == Ok::<Seq<Seq<char>>, Seq<char>>(ev),
            ev.len() > 0,
            specs_from(ev, Seq::empty()) == Ok::<Seq<ChildSpecView>, Seq<char>>(sv),
            k <= specs@.len(),
            dependency_error(sv, spec_names(sv)) == dependency_error(sv.subrange(k as int, sv.len() as int), spec_names(sv)),
        decreases specs@.len() - k,
    {
        let ghost rest = sv.subrange(k as int, sv.len() as int);
        assert(rest[0] == specs@[k as int]@);
        assert(rest.drop_first() =~= sv.subrange(k + 1, sv.len() as int));
        match bad_dependency_of(&specs[k], &specs) {
            Some(e) => {
                assert(dependency_error(rest, spec_names(sv)) == Some(e@));
                return Err(e);
            },
            None => {},
        }
        k = k + 1;
    }
    assert(sv.subrange(sv.len() as int, sv.len() as int) =~= Seq::<ChildSpecView>::empty());
    let mut names: Vec<String> = Vec::new();
    let mut deps: Vec<Vec<String>> = Vec::new();
    let mut m: usize = 0;
    while m < specs.len()
        invariant
            sv == specs_view(specs@),
            agents_of(arguments@) == Ok::<Seq<Seq<char>>, Seq<char>>(ev),
            ev.len() > 0,
            specs_from(ev, Seq::empty()) == Ok::<Seq<ChildSpecView>, Seq<char>>(sv),
            dependency_error(sv, spec_names(sv)) is None,
            m <= specs@.len(),
            names@.len() == m,
            deps@.len() == m,
            views(names@) == spec_names(sv).subrange(0, m as int),
            deps_view(deps@) == spec_deps(sv).subrange(0, m as int),
        decreases specs@.len() - m,
    {
        names.push(crate::text::copy(&specs[m].name));
        let mut d: Vec<String> = Vec::new();
        let mut j: usize = 0;
        while j < specs[m].after.len()
            invariant
                m < specs@.len(),
                j <= specs@[m as int].after@.len(),
                views(d@) == views(specs@[m as int].after@).subrange(0, j as int),
            decreases specs@[m as int].after@.len() - j,
        {
            let ghost old_d = views(d@);
            d.push(crate::text::copy(&specs[m].after[j]));
            assert(views(d@) =~= old_d.push(specs@[m as int].after@[j as int]@));
            assert(views(d@) =~= views(specs@[m as int].after@).subrange(0, j + 1));
            j = j + 1;
        }
        assert(views(specs@[m as int].after@).subrange(0, j as int) =~= views(specs@[m as int].after@));
        deps.push(d);
        m = m + 1;
        assert(views(names@) =~= spec_names(sv).subrange(0, m as int));
        assert(deps_view(deps@) =~= spec_deps(sv).subrange(0, m as int));
    }
    assert(spec_names(sv).subrange(0, m as int) =~= spec_names(sv));
    assert(spec_deps(sv).subrange(0, m as int) =~= spec_deps(sv));
    match check_acyclic(&names, &deps) {
        Ok(()) => Ok(specs),
        Err(e) => Err(e),
    }
}

/// Names that are all different.
pub open spec fn distinct(names: Seq<Seq<char>>) -> bool {
    forall|a: int, b: int| 0 <= a < b < names.len() ==> names[a] != names[b]
}

/// Every dependency names another agent of the same call.
pub open spec fn dependencies_resolve(specs: Seq<ChildSpecView>) -> bool {
    forall|i: int, j: int|
        0 <= i < specs.len() && 0 <= j < specs[i].after.len() ==> {
            &&& #[trigger] specs[i].after[j] != specs[i].name
            &&& spec_names(specs).contains(specs[i].after[j])
        }
}

proof fn lemma_specs_from(entries: Seq<Seq<char>>, acc: Seq<ChildSpecView>)
    requires
        distinct(spec_names(acc)),
        forall|i: int| 0 <= i < acc.len() ==> (#[trigger] acc[i]).name.len() > 0,
    ensures
        specs_from(entries, acc) matches Ok(r) ==> {
            &&& distinct(spec_names(r))
            &&& forall|i: int| 0 <= i < r.len() ==> (#[trigger] r[i]).name.len() > 0
        },
    decreases entries.len(),
{
    if entries.len() > 0 {
        if let Ok(c) = entry_spec(entries[0], spec_names(acc)) {
            let next = acc.push(c);
            assert(spec_names(next) =~= spec_names(acc).push(c.name));
            assert forall|a: int, b: int| 0 <= a < b < spec_names(next).len() implies spec_names(next)[a] != spec_names(next)[b] by {
                if b == acc.len() {
                    assert(spec_names(acc)[a] == spec_names(next)[a]);
                    assert(!spec_names(acc).contains(c.name));
                }
            }
            lemma_specs_from(entries.drop_first(), next);
        }
    }
}

proof fn lemma_first_bad_dependency(after: Seq<Seq<char>>, name: Seq<char>, names: Seq<Seq<char>>)
    ensures
        first_bad_dependency(after, name, names) is None ==> forall|j: int|
            0 <= j < after.len() ==> #[trigger] after[j] != name && names.contains(after[j]),
    decreases after.len(),
{
    if after.len() > 0 {
        lemma_first_bad_dependency(after.drop_first(), name, names);
        if first_bad_dependency(after, name, names) is None {
            assert forall|j: int| 0 <= j < after.len() implies #[trigger] after[j] != name && names.contains(after[j]) by {
                if j > 0 {
                    assert(after[j] == after.drop_first()[j - 1]);
                }
            }
        }
    }
}

proof fn lemma_dependency_error(specs: Seq<ChildSpecView>, names: Seq<Seq<char>>)
    ensures
        dependency_error(specs, names) is None ==> forall|i: int, j: int|
            0 <= i < specs.len() && 0 <= j < specs[i].after.len() ==> {
                &&& #[trigger] specs[i].after[j] != specs[i].name
                &&& names.contains(specs[i].after[j])
            },
    decreases specs.len(),
{
    if specs.len() > 0 {
        lemma_dependency_error(specs.drop_first(), names);
        lemma_first_bad_dependency(specs[0].after, specs[0].name, names);
        if dependency_error(specs, names) is None {
            assert forall|i: int, j: int| 0 <= i < specs.len() && 0 <= j < specs[i].after.len() implies {
                &&& #[trigger] specs[i].after[j] != specs[i].name
                &&& names.contains(specs[i].after[j])
            } by {
                if i > 0 {
                    assert(specs[i] == specs.drop_first()[i - 1]);
                }
            }
        }
    }
}

/// A `task` call that is accepted launches agents with distinct, non-empty
/// names, whose dependencies each name another agent of the call and admit a
/// schedule; and a call whose entries read well and whose dependencies
/// resolve is accepted exactly when they admit a schedule. So an accepted
/// call never leaves a child waiting for ever, and a refused one could not
/// have run.
pub proof fn lemma_accepted_calls_can_run(arguments: Seq<char>)
    ensures
        children_of(arguments) matches Ok(specs) ==> {
            &&& specs.len() > 0
            &&& distinct(spec_names(specs))
            &&& forall|i: int| 0 <= i < specs.len() ==> (#[trigger] specs[i]).name.len() > 0
            &&& dependencies_resolve(specs)
            &&& schedulable(spec_names(specs), spec_deps(specs))
        },
        agents_of(arguments) matches Ok(entries) ==> (entries.len() > 0 ==> (specs_from(
            entries,
            Seq::empty(),
        ) matches Ok(specs) ==> (dependency_error(specs, spec_names(specs)) is None ==> (
        children_of(arguments) is Ok <==> schedulable(spec_names(specs), spec_deps(specs)))))),
{
    if let Ok(entries) = agents_of(arguments) {
        if entries.len() > 0 {
            lemma_specs_from(entries, Seq::empty());
            if let Ok(specs) = specs_from(entries, Seq::empty()) {
                lemma_dependency_error(specs, spec_names(specs));
                lemma_rounds_finish_iff_schedulable(spec_names(specs), spec_deps(specs));
                if dependency_error(specs, spec_names(specs)) is None {
                    assert forall|i: int, j: int| 0 <= i < specs.len() && 0 <= j < specs[i].after.len() implies {
                        &&& #[trigger] specs[i].after[j] != specs[i].name
                        &&& spec_names(specs).contains(specs[i].after[j])
                    } by {
                    }
                }
                if let Ok(r) = children_of(arguments) {
                    assert(r == specs);
                    assert(specs.len() == entries.len()) by {
                        lemma_specs_from_len(entries, Seq::empty());
                    }
                }
            }
        }
    }
}

proof fn lemma_specs_from_len(entries: Seq<Seq<char>>, acc: Seq<ChildSpecView>)
    ensures
        specs_from(entries, acc) matches Ok(r) ==> r.len() == acc.len() + entries.len(),
    decreases entries.len(),
{
    if entries.len() > 0 {
        if let Ok(c) = entry_spec(entries[0], spec_names(acc)) {
            lemma_specs_from_len(entries.drop_first(), acc.push(c));
        }
    }
}

} // verus!
