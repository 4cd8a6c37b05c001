//! The model view: the transcript projected into the messages of the next
//! request. Every request is built from the journal afresh; a provider
//! proposal the limb never started is left out, and user events that
//! arrive inside an open tool exchange are held until the exchange closes,
//! so a `tool_calls` message is never split from its results on the wire.
use vstd::prelude::*;
use crate::skeleton::protocol::{
    calls_view, opt_view, wires_view, AssistantMessage, CallView, Contribution, Outcome, ToolCall,
    WireMessage, WireView,
};
use crate::skeleton::state::{
    started, starts, well_numbered, without, SessionState, SessionView, TranscriptEntry, TranscriptRecord,
};
use crate::text::{cat, copy, owned, views};

verus! {

/// One message of the model view, tagged with the record it projects.
pub struct ProjectedEntry {
    pub seq: u64,
    pub message: WireMessage,
}

pub open spec fn entry_views(v: Seq<ProjectedEntry>) -> Seq<(u64, WireView)> {
    v.map_values(|e: ProjectedEntry| (e.seq, e.message@))
}

pub open spec fn unexecuted_views(v: Seq<(u64, Vec<ToolCall>)>) -> Seq<(u64, Seq<CallView>)> {
    v.map_values(|p: (u64, Vec<ToolCall>)| (p.0, calls_view(p.1@)))
}

/// The projection of a transcript prefix.
#[verifier::ext_equal]
pub struct Fold {
    /// Messages in wire order.
    pub entries: Seq<(u64, WireView)>,
    /// User messages held back while a tool exchange is open.
    pub held: Seq<(u64, WireView)>,
    /// Ids of the executed calls on the wire that have no result yet.
    pub open: Seq<Seq<char>>,
    /// Records that reach the wire.
    pub represented: Seq<u64>,
    /// Records that arrived while a tool exchange was open.
    pub annotations: Seq<u64>,
    /// Proposed calls the limb never started, by the answer that proposed them.
    pub unexecuted: Seq<(u64, Seq<CallView>)>,
}

pub open spec fn no_fold() -> Fold {
    Fold {
        entries: Seq::empty(),
        held: Seq::empty(),
        open: Seq::empty(),
        represented: Seq::empty(),
        annotations: Seq::empty(),
        unexecuted: Seq::empty(),
    }
}

pub open spec fn user_view(content: Seq<char>) -> WireView {
    WireView { role: "user"@, content: Some(content), tool_calls: None, tool_call_id: None }
}

pub open spec fn tool_view(call_id: Seq<char>, content: Seq<char>) -> WireView {
    WireView { role: "tool"@, content: Some(content), tool_calls: None, tool_call_id: Some(call_id) }
}

pub open spec fn assistant_view(text: Option<Seq<char>>, calls: Seq<CallView>) -> WireView {
    WireView {
        role: "assistant"@,
        content: text,
        tool_calls: if calls.len() > 0 { Some(calls) } else { None },
        tool_call_id: None,
    }
}

/// How the model sees a file the user opened.
pub open spec fn activity_text(path: Seq<char>, head: Seq<char>) -> Seq<char> {
    "[user activity] opened file "@ + path + "; first lines:\n"@ + head
}

/// How the model sees a tool's outcome.
pub open spec fn rendered(outcome: Outcome<String>) -> Seq<char> {
    match outcome {
        Outcome::Completed { value } => value@,
        Outcome::Failed { error } => "[tool error] "@ + error@,
        Outcome::Cancelled { reason } => "[tool cancelled] "@ + reason@,
        Outcome::Panicked { payload } => "[tool panicked] "@ + payload@,
    }
}

/// The calls among `calls` that the limb started.
pub open spec fn ran_calls(t: Seq<TranscriptRecord>, calls: Seq<CallView>) -> Seq<CallView> {
    calls.filter(|c: CallView| started(t, c.id))
}

/// The calls among `calls` that the limb never started.
pub open spec fn unran_calls(t: Seq<TranscriptRecord>, calls: Seq<CallView>) -> Seq<CallView> {
    calls.filter(|c: CallView| !started(t, c.id))
}

pub open spec fn ids_of(calls: Seq<CallView>) -> Seq<Seq<char>> {
    calls.map_values(|c: CallView| c.id)
}

/// Whether an answer has something for the model: text or a started call.
pub open spec fn says(text: Option<String>) -> bool {
    match text {
        Some(x) => x@.len() > 0,
        None => false,
    }
}

pub open spec fn take_user(f: Fold, seq: u64, content: Seq<char>, arrived: bool) -> Fold {
    let e = (seq, user_view(content));
    Fold {
        entries: if f.open.len() == 0 { f.entries.push(e) } else { f.entries },
        held: if f.open.len() == 0 { f.held } else { f.held.push(e) },
        represented: f.represented.push(seq),
        annotations: if arrived { f.annotations.push(seq) } else { f.annotations },
        ..f
    }
}

pub open spec fn take_answer(f: Fold, seq: u64, value: AssistantMessage, t: Seq<TranscriptRecord>) -> Fold {
    let calls = ran_calls(t, calls_view(value.tool_calls@));
    let omitted = unran_calls(t, calls_view(value.tool_calls@));
    let g = if omitted.len() > 0 {
        Fold { unexecuted: f.unexecuted.push((seq, omitted)), ..f }
    } else {
        f
    };
    if says(value.text) || calls.len() > 0 {
        Fold {
            represented: g.represented.push(seq),
            open: g.open + ids_of(calls),
            entries: g.entries.push((seq, assistant_view(opt_view(value.text), calls))),
            ..g
        }
    } else {
        g
    }
}

pub open spec fn take_result(
    f: Fold,
    seq: u64,
    call_id: Seq<char>,
    outcome: Outcome<String>,
    t: Seq<TranscriptRecord>,
) -> Fold {
    if started(t, call_id) {
        let open = without(f.open, call_id);
        let entries = f.entries.push((seq, tool_view(call_id, rendered(outcome))));
        Fold {
            represented: f.represented.push(seq),
            open,
            entries: if open.len() == 0 { entries + f.held } else { entries },
            held: if open.len() == 0 { Seq::empty() } else { f.held },
            ..f
        }
    } else {
        f
    }
}

pub open spec fn close_turn(f: Fold) -> Fold {
    Fold { open: Seq::empty(), entries: f.entries + f.held, held: Seq::empty(), ..f }
}

/// The projection after one more record of the transcript `t`.
pub open spec fn take_in(f: Fold, r: TranscriptRecord, t: Seq<TranscriptRecord>) -> Fold {
    match r.item {
        TranscriptEntry::UserMessage { text, arrived_during_exchange } =>
            take_user(f, r.seq, text@, arrived_during_exchange),
        TranscriptEntry::UserActivity { path, head, arrived_during_exchange, .. } =>
            take_user(f, r.seq, activity_text(path@, head@), arrived_during_exchange),
        TranscriptEntry::RequestOutcome { outcome: Outcome::Completed { value }, .. } =>
            take_answer(f, r.seq, value, t),
        TranscriptEntry::ToolOutcome { call_id, outcome } =>
            take_result(f, r.seq, call_id@, outcome, t),
        TranscriptEntry::TurnOutcome { .. } => close_turn(f),
        _ => f,
    }
}

/// The projection of the first `n` records of `t`.
pub open spec fn fold_upto(t: Seq<TranscriptRecord>, n: nat) -> Fold
    decreases n,
{
    if n == 0 {
        no_fold()
    } else {
        take_in(fold_upto(t, (n - 1) as nat), t[n - 1], t)
    }
}

/// The projection of a whole transcript: whatever is still held goes last.
pub open spec fn projected(t: Seq<TranscriptRecord>) -> Fold {
    let f = fold_upto(t, t.len());
    Fold { entries: f.entries + f.held, held: Seq::empty(), ..f }
}

/// A user message on the wire.
pub fn user_message(content: String) -> (r: WireMessage)
    ensures
        r@ == user_view(content@),
{
    WireMessage { role: owned("user"), content: Some(content), tool_calls: None, tool_call_id: None }
}

/// A tool outcome as the model reads it.
pub fn render_tool_outcome(outcome: &Outcome<String>) -> (r: String)
    ensures
        r@ == rendered(*outcome),
{
    match outcome {
        Outcome::Completed { value } => copy(value),
        Outcome::Failed { error } => cat("[tool error] ", error.as_str()),
        Outcome::Cancelled { reason } => cat("[tool cancelled] ", reason.as_str()),
        Outcome::Panicked { payload } => cat("[tool panicked] ", payload.as_str()),
    }
}

/// A file the user opened, as the model reads it.
pub fn activity_message(path: &str, head: &str) -> (r: String)
    ensures
        r@ == activity_text(path@, head@),
{
    let mut text = cat("[user activity] opened file ", path);
    text.append("; first lines:\n");
    text.append(head);
    text
}

/// Ids of the calls the limb started.
fn started_calls(t: &Vec<TranscriptRecord>) -> (r: Vec<String>)
    ensures
        forall|id: Seq<char>| #[trigger] views(r@).contains(id) <==> started(t@, id),
{
    let mut r: Vec<String> = Vec::new();
    let mut i: usize = 0;
    while i < t.len()
        invariant
            i <= t@.len(),
            forall|id: Seq<char>| #[trigger] views(r@).contains(id)
                <==> exists|k: int| 0 <= k < i && #[trigger] starts(t@[k].item, id),
        decreases t@.len() - i,
    {
        let ghost before = views(r@);
        if let TranscriptEntry::ToolStarted { call } = &t[i].item {
            r.push(copy(&call.id));
            assert(views(r@) =~= before.push(call.id@));
        }
        assert forall|id: Seq<char>| #[trigger] views(r@).contains(id)
            <==> exists|k: int| 0 <= k < i + 1 && #[trigger] starts(t@[k].item, id) by {
            if views(r@).contains(id) && !before.contains(id) {
                assert(starts(t@[i as int].item, id));
            }
            if exists|k: int| 0 <= k < i + 1 && #[trigger] starts(t@[k].item, id) {
                let k = choose|k: int| 0 <= k < i + 1 && #[trigger] starts(t@[k].item, id);
                if k == i {
                    assert(views(r@).last() == id);
                    assert(views(r@).contains(id));
                } else {
                    assert(before.contains(id));
                    let j = choose|j: int| 0 <= j < before.len() && before[j] == id;
                    assert(views(r@)[j] == id);
                }
            }
        }
        i = i + 1;
    }
    r
}

/// Whether `id` is one of `ids`.
fn holds(ids: &Vec<String>, id: &str) -> (r: bool)
    ensures
        r == views(ids@).contains(id@),
{
    let mut i: usize = 0;
    while i < ids.len()
        invariant
            i <= ids@.len(),
            forall|k: int| 0 <= k < i ==> views(ids@)[k] != id@,
        decreases ids@.len() - i,
    {
        if crate::text::same(ids[i].as_str(), id) {
            assert(views(ids@)[i as int] == id@);
            return true;
        }
        i = i + 1;
    }
    false
}

/// The started and the never-started calls of an answer, in order.
fn split_calls(calls: &Vec<ToolCall>, executed: &Vec<String>, Ghost(t): Ghost<Seq<TranscriptRecord>>) -> (r: (
    Vec<ToolCall>,
    Vec<ToolCall>,
))
    requires
        forall|id: Seq<char>| #[trigger] views(executed@).contains(id) <==> started(t, id),
    ensures
        calls_view(r.0@) == ran_calls(t, calls_view(calls@)),
        calls_view(r.1@) == unran_calls(t, calls_view(calls@)),
{
    let ghost all = calls_view(calls@);
    let ghost p = |c: CallView| started(t, c.id);
    let ghost q = |c: CallView| !started(t, c.id);
    let mut ran: Vec<ToolCall> = Vec::new();
    let mut unran: Vec<ToolCall> = Vec::new();
    let mut i: usize = 0;
    while i < calls.len()
        invariant
            i <= calls@.len(),
            all == calls_view(calls@),
            p == (|c: CallView| started(t, c.id)),
            q == (|c: CallView| !started(t, c.id)),
            forall|id: Seq<char>| #[trigger] views(executed@).contains(id) <==> started(t, id),
            calls_view(ran@) == all.subrange(0, i as int).filter(p),
            calls_view(unran@) == all.subrange(0, i as int).filter(q),
        decreases calls@.len() - i,
    {
        let ghost sub = all.subrange(0, i as int);
        assert(all.subrange(0, i + 1 as int) =~= sub.push(all[i as int]));
        proof {
            sub.lemma_filter_push(all[i as int], p);
            sub.lemma_filter_push(all[i as int], q);
        }
        let ghost r0 = calls_view(ran@);
        let ghost u0 = calls_view(unran@);
        if holds(executed, calls[i].id.as_str()) {
            ran.push(calls[i].duplicate());
            assert(calls_view(ran@) =~= r0.push(all[i as int]));
        } else {
            unran.push(calls[i].duplicate());
            assert(calls_view(unran@) =~= u0.push(all[i as int]));
        }
        i = i + 1;
    }
    assert(all.subrange(0, i as int) =~= all);
    (ran, unran)
}

/// The projection under way, record by record.
struct Folding {
    entries: Vec<ProjectedEntry>,
    held: Vec<ProjectedEntry>,
    open: Vec<String>,
    represented: Vec<u64>,
    annotations: Vec<u64>,
    unexecuted: Vec<(u64, Vec<ToolCall>)>,
}

impl View for Folding {
    type V = Fold;

    closed spec fn view(&self) -> Fold {
        Fold {
            entries: entry_views(self.entries@),
            held: entry_views(self.held@),
            open: views(self.open@),
            represented: self.represented@,
            annotations: self.annotations@,
            unexecuted: unexecuted_views(self.unexecuted@),
        }
    }
}

impl Folding {
    fn new() -> (r: Folding)
        ensures
            r@ == no_fold(),
    {
        let r = Folding {
            entries: Vec::new(),
            held: Vec::new(),
            open: Vec::new(),
            represented: Vec::new(),
            annotations: Vec::new(),
            unexecuted: Vec::new(),
        };
        assert(r@ =~= no_fold());
        r
    }

    /// Moves the held messages to the wire.
    fn flush(&mut self)
        ensures
            final(self)@ == (Fold { entries: old(self)@.entries + old(self)@.held, held: Seq::empty(), ..old(self)@ }),
    {
        let ghost a = self.entries@;
        let ghost b = self.held@;
        self.entries.append(&mut self.held);
        assert(entry_views(self.entries@) =~= entry_views(a) + entry_views(b));
        assert(entry_views(self.held@) =~= Seq::<(u64, WireView)>::empty());
    }

    fn take_user(&mut self, seq: u64, content: String, arrived: bool)
        ensures
            final(self)@ == take_user(old(self)@, seq, content@, arrived),
    {
        let ghost c = content@;
        let entry = ProjectedEntry { seq, message: user_message(content) };
        let ghost e = (seq, entry.message@);
        if self.open.len() == 0 {
            self.entries.push(entry);
            assert(entry_views(self.entries@) =~= entry_views(old(self).entries@).push(e));
        } else {
            self.held.push(entry);
            assert(entry_views(self.held@) =~= entry_views(old(self).held@).push(e));
        }
        self.represented.push(seq);
        if arrived {
            self.annotations.push(seq);
        }
        assert(self@ =~= take_user(old(self)@, seq, c, arrived));
    }

    fn take_answer(
        &mut self,
        seq: u64,
        value: &AssistantMessage,
        executed: &Vec<String>,
        Ghost(t): Ghost<Seq<TranscriptRecord>>,
    )
        requires
            forall|id: Seq<char>| #[trigger] views(executed@).contains(id) <==> started(t, id),
        ensures
            final(self)@ == take_answer(old(self)@, seq, *value, t),
    {
        let (calls, omitted) = split_calls(&value.tool_calls, executed, Ghost(t));
        let ghost f = self@;
        let ghost om = calls_view(omitted@);
        if omitted.len() > 0 {
            self.unexecuted.push((seq, omitted));
            assert(unexecuted_views(self.unexecuted@) =~= f.unexecuted.push((seq, om)));
        }
        let ghost g = self@;
        assert(g =~= if om.len() > 0 { Fold { unexecuted: f.unexecuted.push((seq, om)), ..f } } else { f });
        let has_text = match &value.text {
            Some(text) => text.as_str().unicode_len() > 0,
            None => false,
        };
        if has_text || calls.len() > 0 {
            self.represented.push(seq);
            let ghost cv = calls_view(calls@);
            crate::skeleton::state::extend_ids(&mut self.open, &calls);
            assert(crate::skeleton::state::call_ids(calls@) =~= ids_of(cv));
            let tool_calls = if calls.len() > 0 { Some(calls) } else { None };
            let message = WireMessage {
                role: owned("assistant"),
                content: crate::skeleton::protocol::copy_opt(&value.text),
                tool_calls,
                tool_call_id: None,
            };
            assert(message@ == assistant_view(opt_view(value.text), cv));
            let ghost e = (seq, message@);
            let ghost ents = entry_views(self.entries@);
            self.entries.push(ProjectedEntry { seq, message });
            assert(entry_views(self.entries@) =~= ents.push(e));
        }
        assert(self@ =~= take_answer(old(self)@, seq, *value, t));
    }

    fn take_result(
        &mut self,
        seq: u64,
        call_id: &String,
        outcome: &Outcome<String>,
        executed: &Vec<String>,
        Ghost(t): Ghost<Seq<TranscriptRecord>>,
    )
        requires
            forall|id: Seq<char>| #[trigger] views(executed@).contains(id) <==> started(t, id),
        ensures
            final(self)@ == take_result(old(self)@, seq, call_id@, *outcome, t),
    {
        if holds(executed, call_id.as_str()) {
            self.represented.push(seq);
            let message = WireMessage {
                role: owned("tool"),
                content: Some(render_tool_outcome(outcome)),
                tool_calls: None,
                tool_call_id: Some(copy(call_id)),
            };
            let ghost e = (seq, message@);
            let ghost ents = entry_views(self.entries@);
            self.entries.push(ProjectedEntry { seq, message });
            assert(entry_views(self.entries@) =~= ents.push(e));
            let kept = crate::skeleton::state::without_id(&self.open, call_id.as_str());
            self.open = kept;
            if self.open.len() == 0 {
                self.flush();
            }
        }
        assert(self@ =~= take_result(old(self)@, seq, call_id@, *outcome, t));
    }

    fn close_turn(&mut self)
        ensures
            final(self)@ == close_turn(old(self)@),
    {
        self.open = Vec::new();
        assert(views(self.open@) =~= Seq::<Seq<char>>::empty());
        self.flush();
        assert(self@ =~= close_turn(old(self)@));
    }

    fn take_in(&mut self, r: &TranscriptRecord, executed: &Vec<String>, Ghost(t): Ghost<Seq<TranscriptRecord>>)
        requires
            forall|id: Seq<char>| #[trigger] views(executed@).contains(id) <==> started(t, id),
        ensures
            final(self)@ == take_in(old(self)@, *r, t),
    {
        match &r.item {
            TranscriptEntry::UserMessage { text, arrived_during_exchange } => {
                self.take_user(r.seq, copy(text), *arrived_during_exchange);
            },
            TranscriptEntry::UserActivity { path, head, arrived_during_exchange, .. } => {
                self.take_user(r.seq, activity_message(path.as_str(), head.as_str()), *arrived_during_exchange);
            },
            TranscriptEntry::RequestOutcome { outcome: Outcome::Completed { value }, .. } => {
                self.take_answer(r.seq, value, executed, Ghost(t));
            },
            TranscriptEntry::ToolOutcome { call_id, outcome } => {
                self.take_result(r.seq, call_id, outcome, executed, Ghost(t));
            },
            TranscriptEntry::TurnOutcome { .. } => {
                self.close_turn();
            },
            _ => {},
        }
    }
}

/// The messages and tools of one request; each tool is its JSON
/// definition.
pub struct RequestParts {
    pub messages: Vec<WireMessage>,
    pub tools: Vec<String>,
}

/// The projection with what the dump needs beside the request.
pub struct Projection {
    pub parts: RequestParts,
    pub entries: Vec<ProjectedEntry>,
    pub represented: Vec<u64>,
    pub annotations: Vec<u64>,
    pub unexecuted: Vec<(u64, Vec<ToolCall>)>,
}

/// A contribution seen by its name.
pub open spec fn named(c: (String, Contribution)) -> (Seq<char>, Contribution) {
    (c.0@, c.1)
}

/// The index of the first entry named `name`, or -1.
pub open spec fn position(l: Seq<(Seq<char>, Contribution)>, name: Seq<char>) -> int
    decreases l.len(),
{
    if l.len() == 0 {
        -1
    } else {
        let p = position(l.drop_last(), name);
        if p >= 0 {
            p
        } else if l.last().0 == name {
            l.len() - 1
        } else {
            -1
        }
    }
}

/// Each contribution name once, in the order of first appearance, with
/// the value it was last given.
pub open spec fn latest(c: Seq<(String, Contribution)>) -> Seq<(Seq<char>, Contribution)>
    decreases c.len(),
{
    if c.len() == 0 {
        Seq::empty()
    } else {
        let l = latest(c.drop_last());
        let n = c.last().0@;
        let p = position(l, n);
        if p >= 0 {
            l.update(p, (n, c.last().1))
        } else {
            l.push((n, c.last().1))
        }
    }
}

/// The environment lines of the facts among `l`.
pub open spec fn fact_lines(l: Seq<(Seq<char>, Contribution)>) -> Seq<char>
    decreases l.len(),
{
    if l.len() == 0 {
        Seq::empty()
    } else {
        let before = fact_lines(l.drop_last());
        match l.last().1 {
            Contribution::Fact { text } => before + "- "@ + l.last().0 + ": "@ + text@ + "\n"@,
            Contribution::Tool { .. } => before,
        }
    }
}

pub open spec fn has_fact(l: Seq<(Seq<char>, Contribution)>) -> bool {
    exists|k: int| 0 <= k < l.len() && #[trigger] l[k].1 is Fact
}

/// The system prompt with the environment facts appended.
pub open spec fn composed(prompt: Seq<char>, l: Seq<(Seq<char>, Contribution)>) -> Seq<char> {
    if has_fact(l) {
        prompt + "\n\n[environment]\n"@ + fact_lines(l)
    } else {
        prompt
    }
}

/// The tool definitions among `l`, in order.
pub open spec fn tool_defs(l: Seq<(Seq<char>, Contribution)>) -> Seq<Seq<char>>
    decreases l.len(),
{
    if l.len() == 0 {
        Seq::empty()
    } else {
        let before = tool_defs(l.drop_last());
        match l.last().1 {
            Contribution::Tool { def } => before.push(def@),
            Contribution::Fact { .. } => before,
        }
    }
}

pub open spec fn system_view(content: Seq<char>) -> WireView {
    WireView { role: "system"@, content: Some(content), tool_calls: None, tool_call_id: None }
}

pub open spec fn second(e: (u64, WireView)) -> WireView {
    e.1
}

/// The messages of the next request: the composed system prompt, then the
/// projected transcript.
pub open spec fn messages_of(s: SessionView) -> Seq<WireView> {
    seq![system_view(composed(s.system_prompt, latest(s.contributions)))]
        + projected(s.transcript).entries.map_values(|e: (u64, WireView)| second(e))
}

/// The tools of the next request.
pub open spec fn tools_of(s: SessionView) -> Seq<Seq<char>> {
    tool_defs(latest(s.contributions))
}

proof fn lemma_position(l: Seq<(Seq<char>, Contribution)>, name: Seq<char>)
    ensures
        position(l, name) == -1 <==> (forall|k: int| 0 <= k < l.len() ==> l[k].0 != name),
        position(l, name) >= 0 ==> {
            &&& position(l, name) < l.len()
            &&& l[position(l, name)].0 == name
            &&& forall|k: int| 0 <= k < position(l, name) ==> l[k].0 != name
        },
        position(l, name) >= -1,
    decreases l.len(),
{
    if l.len() > 0 {
        lemma_position(l.drop_last(), name);
        if position(l.drop_last(), name) == -1 {
            assert forall|k: int| 0 <= k < l.len() - 1 implies l[k].0 != name by {
                assert(l.drop_last()[k] == l[k]);
            }
        } else {
            assert(l.drop_last()[position(l, name)] == l[position(l, name)]);
            assert forall|k: int| 0 <= k < position(l, name) implies l[k].0 != name by {
                assert(l.drop_last()[k] == l[k]);
            }
        }
    }
}

/// What the indices `r` into `c` pick out.
pub open spec fn picks(c: Seq<(String, Contribution)>, r: Seq<usize>) -> Seq<(Seq<char>, Contribution)> {
    r.map_values(|k: usize| named(c[k as int]))
}

impl SessionState {
    /// Each contribution name once, in order of first appearance, with its
    /// latest value: indices into `contributions`.
    pub fn latest_contributions(&self) -> (r: Vec<usize>)
        ensures
            picks(self@.contributions, r@) == latest(self@.contributions),
            forall|j: int| 0 <= j < r@.len() ==> r@[j] < self@.contributions.len(),
    {
        let ghost c = self@.contributions;
        let mut r: Vec<usize> = Vec::new();
        let mut i: usize = 0;
        while i < self.contributions.len()
            invariant
                c == self@.contributions,
                i <= c.len(),
                picks(c, r@) == latest(c.subrange(0, i as int)),
                forall|j: int| 0 <= j < r@.len() ==> r@[j] < i,
            decreases c.len() - i,
        {
            let ghost l = latest(c.subrange(0, i as int));
            let ghost name = c[i as int].0@;
            proof {
                assert(c.subrange(0, i + 1 as int).drop_last() =~= c.subrange(0, i as int));
                assert(c.subrange(0, i + 1 as int).last() == c[i as int]);
                lemma_position(l, name);
            }
            let mut j: usize = 0;
            let mut found = false;
            while !found && j < r.len()
                invariant
                    c == self@.contributions,
                    i < c.len(),
                    name == c[i as int].0@,
                    j <= r@.len(),
                    l == picks(c, r@),
                    forall|m: int| 0 <= m < r@.len() ==> r@[m] < i,
                    found ==> j < r@.len() && l[j as int].0 == name,
                    forall|m: int| 0 <= m < j ==> l[m].0 != name,
                decreases r@.len() - j + (if found { 0int } else { 1int }),
            {
                if crate::text::same(self.contributions[r[j]].0.as_str(), self.contributions[i].0.as_str()) {
                    found = true;
                } else {
                    j = j + 1;
                }
            }
            let ghost before = r@;
            if found {
                assert(position(l, name) == j);
                r.set(j, i);
                assert(picks(c, r@) =~= l.update(j as int, (name, c[i as int].1)));
            } else {
                assert(position(l, name) == -1);
                r.push(i);
                assert(picks(c, r@) =~= l.push((name, c[i as int].1)));
            }
            i = i + 1;
        }
        assert(c.subrange(0, i as int) =~= c);
        r
    }

    /// The system prompt, with the latest environment facts appended.
    pub fn composed_system(&self) -> (r: String)
        ensures
            r@ == composed(self@.system_prompt, latest(self@.contributions)),
    {
        let picked = self.latest_contributions();
        let ghost c = self@.contributions;
        let ghost l = latest(c);
        let mut lines = String::new();
        let mut any = false;
        let mut j: usize = 0;
        while j < picked.len()
            invariant
                c == self@.contributions,
                l == latest(c),
                picks(c, picked@) == l,
                forall|m: int| 0 <= m < picked@.len() ==> picked@[m] < c.len(),
                j <= picked@.len(),
                lines@ == fact_lines(l.subrange(0, j as int)),
                any == has_fact(l.subrange(0, j as int)),
            decreases picked@.len() - j,
        {
            let ghost sub = l.subrange(0, j as int);
            let ghost next = l.subrange(0, j + 1 as int);
            assert(next.drop_last() =~= sub);
            assert(next.last() == l[j as int]);
            let (name, contribution) = &self.contributions[picked[j]];
            assert(l[j as int] == named(c[picked@[j as int] as int]));
            match contribution {
                Contribution::Fact { text } => {
                    lines.append("- ");
                    lines.append(name.as_str());
                    lines.append(": ");
                    lines.append(text.as_str());
                    lines.append("\n");
                    any = true;
                    assert(next[j as int].1 is Fact);
                },
                Contribution::Tool { .. } => {
                    assert(has_fact(next) == has_fact(sub)) by {
                        if has_fact(next) {
                            let k = choose|k: int| 0 <= k < next.len() && #[trigger] next[k].1 is Fact;
                            assert(sub[k] == next[k]);
                        }
                        if has_fact(sub) {
                            let k = choose|k: int| 0 <= k < sub.len() && #[trigger] sub[k].1 is Fact;
                            assert(sub[k] == next[k]);
                        }
                    }
                },
            }
            proof {
                if any && !has_fact(sub) {
                    assert(next[j as int].1 is Fact);
                }
                if has_fact(sub) {
                    let k = choose|k: int| 0 <= k < sub.len() && #[trigger] sub[k].1 is Fact;
                    assert(sub[k] == next[k]);
                }
            }
            j = j + 1;
        }
        assert(l.subrange(0, j as int) =~= l);
        let mut text = copy(&self.system_prompt);
        if any {
            text.append("\n\n[environment]\n");
            text.append(lines.as_str());
        }
        text
    }

    /// The tool definitions the next request carries.
    pub fn tools(&self) -> (r: Vec<String>)
        ensures
            views(r@) == tools_of(self@),
    {
        let picked = self.latest_contributions();
        let ghost c = self@.contributions;
        let ghost l = latest(c);
        let mut defs: Vec<String> = Vec::new();
        let mut j: usize = 0;
        while j < picked.len()
            invariant
                c == self@.contributions,
                l == latest(c),
                picks(c, picked@) == l,
                forall|m: int| 0 <= m < picked@.len() ==> picked@[m] < c.len(),
                j <= picked@.len(),
                views(defs@) == tool_defs(l.subrange(0, j as int)),
            decreases picked@.len() - j,
        {
            let ghost next = l.subrange(0, j + 1 as int);
            assert(next.drop_last() =~= l.subrange(0, j as int));
            assert(next.last() == l[j as int]);
            assert(l[j as int] == named(c[picked@[j as int] as int]));
            let ghost before = views(defs@);
            if let Contribution::Tool { def } = &self.contributions[picked[j]].1 {
                defs.push(copy(def));
                assert(views(defs@) =~= before.push(def@));
            }
            j = j + 1;
        }
        assert(l.subrange(0, j as int) =~= l);
        defs
    }

    /// The journal projected into the next request.
    pub fn project(&self) -> (r: Projection)
        ensures
            entry_views(r.entries@) == projected(self@.transcript).entries,
            r.represented@ == projected(self@.transcript).represented,
            r.annotations@ == projected(self@.transcript).annotations,
            unexecuted_views(r.unexecuted@) == projected(self@.transcript).unexecuted,
            wires_view(r.parts.messages@) == messages_of(self@),
            views(r.parts.tools@) == tools_of(self@),
    {
        let ghost t = self@.transcript;
        let executed = started_calls(&self.transcript);
        let mut folding = Folding::new();
        let mut i: usize = 0;
        while i < self.transcript.len()
            invariant
                t == self@.transcript,
                i <= t.len(),
                forall|id: Seq<char>| #[trigger] views(executed@).contains(id) <==> started(t, id),
                folding@ == fold_upto(t, i as nat),
            decreases t.len() - i,
        {
            folding.take_in(&self.transcript[i], &executed, Ghost(t));
            i = i + 1;
        }
        folding.flush();
        let ghost f = folding@;
        assert(f == projected(t));
        let mut messages: Vec<WireMessage> = Vec::new();
        let system = WireMessage {
            role: owned("system"),
            content: Some(self.composed_system()),
            tool_calls: None,
            tool_call_id: None,
        };
        let ghost head = seq![system@];
        messages.push(system);
        assert(wires_view(messages@) =~= head);
        let mut k: usize = 0;
        while k < folding.entries.len()
            invariant
                k <= folding.entries@.len(),
                entry_views(folding.entries@) == f.entries,
                wires_view(messages@) == head + f.entries.subrange(0, k as int).map_values(|e: (u64, WireView)| second(e)),
            decreases folding.entries@.len() - k,
        {
            let ghost before = wires_view(messages@);
            messages.push(folding.entries[k].message.duplicate());
            assert(f.entries[k as int] == (folding.entries@[k as int].seq, folding.entries@[k as int].message@));
            assert(f.entries.subrange(0, k + 1 as int).map_values(|e: (u64, WireView)| second(e))
                =~= f.entries.subrange(0, k as int).map_values(|e: (u64, WireView)| second(e)).push(second(f.entries[k as int])));
            assert(wires_view(messages@) =~= before.push(folding.entries@[k as int].message@));
            k = k + 1;
        }
        assert(f.entries.subrange(0, k as int) =~= f.entries);
        let parts = RequestParts { messages, tools: self.tools() };
        let ghost ents = entry_views(folding.entries@);
        Projection {
            parts,
            entries: folding.entries,
            represented: folding.represented,
            annotations: folding.annotations,
            unexecuted: folding.unexecuted,
        }
    }

    /// The messages and tools of the next request.
    pub fn request_parts(&self) -> (r: RequestParts)
        ensures
            wires_view(r.messages@) == messages_of(self@),
            views(r.tools@) == tools_of(self@),
    {
        self.project().parts
    }

    /// How many messages the next request carries.
    pub fn wire_message_count(&self) -> (r: usize)
        ensures
            r == messages_of(self@).len(),
    {
        self.request_parts().messages.len()
    }
}

/// Whether a wire message only speaks of calls the limb started.
pub open spec fn wire_ok(t: Seq<TranscriptRecord>, w: WireView) -> bool {
    &&& (w.tool_calls matches Some(cs) ==> forall|j: int| 0 <= j < cs.len() ==> started(t, #[trigger] cs[j].id))
    &&& (w.tool_call_id matches Some(id) ==> started(t, id))
}

pub open spec fn all_ok(t: Seq<TranscriptRecord>, s: Seq<(u64, WireView)>) -> bool {
    forall|j: int| 0 <= j < s.len() ==> wire_ok(t, #[trigger] s[j].1)
}

/// Whether the record numbered `seq` has a message among `s`.
pub open spec fn shows(s: Seq<(u64, WireView)>, seq: u64) -> bool {
    exists|j: int| 0 <= j < s.len() && #[trigger] s[j].0 == seq
}

/// Whether a record is something the user typed or opened.
pub open spec fn from_user(r: TranscriptRecord) -> bool {
    r.item is UserMessage || r.item is UserActivity
}

proof fn lemma_ok_concat(t: Seq<TranscriptRecord>, a: Seq<(u64, WireView)>, b: Seq<(u64, WireView)>)
    requires
        all_ok(t, a),
        all_ok(t, b),
    ensures
        all_ok(t, a + b),
{
    assert forall|j: int| 0 <= j < (a + b).len() implies wire_ok(t, #[trigger] (a + b)[j].1) by {
        if j < a.len() {
            assert((a + b)[j] == a[j]);
        } else {
            assert((a + b)[j] == b[j - a.len()]);
        }
    }
}

proof fn lemma_ok_push(t: Seq<TranscriptRecord>, a: Seq<(u64, WireView)>, x: (u64, WireView))
    requires
        all_ok(t, a),
        wire_ok(t, x.1),
    ensures
        all_ok(t, a.push(x)),
{
    assert forall|j: int| 0 <= j < a.push(x).len() implies wire_ok(t, #[trigger] a.push(x)[j].1) by {
        if j < a.len() {
            assert(a.push(x)[j] == a[j]);
        }
    }
}

proof fn lemma_shows_concat(a: Seq<(u64, WireView)>, b: Seq<(u64, WireView)>, s: u64)
    ensures
        shows(a + b, s) <==> shows(a, s) || shows(b, s),
{
    if shows(a + b, s) {
        let j = choose|j: int| 0 <= j < (a + b).len() && #[trigger] (a + b)[j].0 == s;
        if j < a.len() {
            assert(a[j] == (a + b)[j]);
        } else {
            assert(b[j - a.len()] == (a + b)[j]);
        }
    }
    if shows(a, s) {
        let j = choose|j: int| 0 <= j < a.len() && #[trigger] a[j].0 == s;
        assert((a + b)[j] == a[j]);
    }
    if shows(b, s) {
        let j = choose|j: int| 0 <= j < b.len() && #[trigger] b[j].0 == s;
        assert((a + b)[a.len() + j] == b[j]);
    }
}

proof fn lemma_shows_push(a: Seq<(u64, WireView)>, x: (u64, WireView), s: u64)
    ensures
        shows(a.push(x), s) <==> shows(a, s) || x.0 == s,
{
    assert(a.push(x) =~= a + seq![x]);
    lemma_shows_concat(a, seq![x], s);
    if x.0 == s {
        assert(seq![x][0].0 == s);
    }
}

/// One step keeps every message of the view about started calls.
proof fn lemma_take_in_ok(f: Fold, r: TranscriptRecord, t: Seq<TranscriptRecord>)
    requires
        all_ok(t, f.entries),
        all_ok(t, f.held),
    ensures
        all_ok(t, take_in(f, r, t).entries),
        all_ok(t, take_in(f, r, t).held),
{
    match r.item {
        TranscriptEntry::UserMessage { text, arrived_during_exchange } => {
            lemma_ok_push(t, f.entries, (r.seq, user_view(text@)));
            lemma_ok_push(t, f.held, (r.seq, user_view(text@)));
        },
        TranscriptEntry::UserActivity { path, head, arrived_during_exchange, .. } => {
            lemma_ok_push(t, f.entries, (r.seq, user_view(activity_text(path@, head@))));
            lemma_ok_push(t, f.held, (r.seq, user_view(activity_text(path@, head@))));
        },
        TranscriptEntry::RequestOutcome { outcome: Outcome::Completed { value }, .. } => {
            let all = calls_view(value.tool_calls@);
            let calls = ran_calls(t, all);
            let p = |c: CallView| started(t, c.id);
            assert forall|j: int| 0 <= j < calls.len() implies started(t, #[trigger] calls[j].id) by {
                all.lemma_filter_pred(p, j);
            }
            lemma_ok_push(t, f.entries, (r.seq, assistant_view(opt_view(value.text), calls)));
        },
        TranscriptEntry::ToolOutcome { call_id, outcome } => {
            if started(t, call_id@) {
                let x = (r.seq, tool_view(call_id@, rendered(outcome)));
                lemma_ok_push(t, f.entries, x);
                lemma_ok_concat(t, f.entries.push(x), f.held);
            }
        },
        TranscriptEntry::TurnOutcome { .. } => {
            lemma_ok_concat(t, f.entries, f.held);
        },
        _ => {},
    }
}

/// One step loses no message: what the view showed, it still shows, and a
/// user record is shown once taken in.
proof fn lemma_take_in_shows(f: Fold, r: TranscriptRecord, t: Seq<TranscriptRecord>, s: u64)
    ensures
        shows(f.entries + f.held, s) ==> shows(take_in(f, r, t).entries + take_in(f, r, t).held, s),
        from_user(r) ==> shows(take_in(f, r, t).entries + take_in(f, r, t).held, r.seq),
{
    let g = take_in(f, r, t);
    lemma_shows_concat(f.entries, f.held, s);
    lemma_shows_concat(g.entries, g.held, s);
    lemma_shows_concat(g.entries, g.held, r.seq);
    match r.item {
        TranscriptEntry::UserMessage { text, .. } => {
            let x = (r.seq, user_view(text@));
            lemma_shows_push(f.entries, x, s);
            lemma_shows_push(f.held, x, s);
            lemma_shows_push(f.entries, x, r.seq);
            lemma_shows_push(f.held, x, r.seq);
        },
        TranscriptEntry::UserActivity { path, head, .. } => {
            let x = (r.seq, user_view(activity_text(path@, head@)));
            lemma_shows_push(f.entries, x, s);
            lemma_shows_push(f.held, x, s);
            lemma_shows_push(f.entries, x, r.seq);
            lemma_shows_push(f.held, x, r.seq);
        },
        TranscriptEntry::RequestOutcome { outcome: Outcome::Completed { value }, .. } => {
            let x = (r.seq, assistant_view(opt_view(value.text), ran_calls(t, calls_view(value.tool_calls@))));
            lemma_shows_push(f.entries, x, s);
        },
        TranscriptEntry::ToolOutcome { call_id, outcome } => {
            let x = (r.seq, tool_view(call_id@, rendered(outcome)));
            lemma_shows_push(f.entries, x, s);
            lemma_shows_concat(f.entries.push(x), f.held, s);
            lemma_shows_concat(f.entries.push(x) + f.held, Seq::empty(), s);
            assert(f.entries.push(x) + f.held + Seq::<(u64, WireView)>::empty() =~= f.entries.push(x) + f.held);
        },
        TranscriptEntry::TurnOutcome { .. } => {
            assert(f.entries + f.held + Seq::<(u64, WireView)>::empty() =~= f.entries + f.held);
        },
        _ => {},
    }
}

proof fn lemma_fold_faithful(t: Seq<TranscriptRecord>, n: nat)
    requires
        n <= t.len(),
    ensures
        all_ok(t, fold_upto(t, n).entries),
        all_ok(t, fold_upto(t, n).held),
        forall|k: int| 0 <= k < n && from_user(t[k]) ==> shows(
            fold_upto(t, n).entries + fold_upto(t, n).held,
            #[trigger] t[k].seq,
        ),
    decreases n,
{
    if n > 0 {
        let m = (n - 1) as nat;
        lemma_fold_faithful(t, m);
        let f = fold_upto(t, m);
        lemma_take_in_ok(f, t[m as int], t);
        assert forall|k: int| 0 <= k < n && from_user(t[k]) implies shows(
            fold_upto(t, n).entries + fold_upto(t, n).held,
            #[trigger] t[k].seq,
        ) by {
            lemma_take_in_shows(f, t[m as int], t, t[k].seq);
        }
    }
}

/// Only executed calls reach the model: every tool call of an assistant
/// message in the model view, and every tool result in it, belongs to a
/// call the limb recorded as started. A proposal the limb never started is
/// left out of the view.
pub proof fn lemma_only_started_calls_on_the_wire(t: Seq<TranscriptRecord>)
    ensures
        forall|j: int| 0 <= j < projected(t).entries.len() ==> wire_ok(t, #[trigger] projected(t).entries[j].1),
{
    lemma_fold_faithful(t, t.len());
    let f = fold_upto(t, t.len());
    lemma_ok_concat(t, f.entries, f.held);
}

/// No user input is lost: every message the user typed and every file the
/// user opened has its message in the model view, whether or not it had
/// to wait for a tool exchange to close.
pub proof fn lemma_user_input_reaches_the_wire(t: Seq<TranscriptRecord>)
    ensures
        forall|k: int| 0 <= k < t.len() && from_user(t[k]) ==> shows(projected(t).entries, #[trigger] t[k].seq),
{
    lemma_fold_faithful(t, t.len());
}

/// The calls a wire message makes.
pub open spec fn entry_calls(w: WireView) -> Seq<CallView> {
    match w.tool_calls {
        Some(cs) => cs,
        None => Seq::empty(),
    }
}

/// Whether a result for `id` stands strictly between `lo` and `hi`.
pub open spec fn answered_between(e: Seq<(u64, WireView)>, id: Seq<char>, lo: int, hi: int) -> bool {
    exists|m: int| lo < m < hi && 0 <= m < e.len() && #[trigger] e[m].1.tool_call_id == Some(id)
}

/// Whether no user message splits a `tool_calls` message from its
/// results: every call of an assistant message is answered before any
/// user message that follows it.
pub open spec fn unsplit(e: Seq<(u64, WireView)>) -> bool {
    forall|j: int, k: int, c: int|
        #![trigger e[j], e[k], entry_calls(e[j].1)[c]]
        0 <= j < k < e.len() && e[k].1.role == "user"@ && 0 <= c < entry_calls(e[j].1).len()
            ==> answered_between(e, entry_calls(e[j].1)[c].id, j, k)
}

/// Whether every call on the wire is answered or still open.
pub open spec fn open_covers(e: Seq<(u64, WireView)>, open: Seq<Seq<char>>) -> bool {
    forall|j: int, c: int|
        #![trigger e[j], entry_calls(e[j].1)[c]]
        0 <= j < e.len() && 0 <= c < entry_calls(e[j].1).len()
            ==> answered_between(e, entry_calls(e[j].1)[c].id, j, e.len() as int)
                || open.contains(entry_calls(e[j].1)[c].id)
}

pub open spec fn no_calls(e: Seq<(u64, WireView)>) -> bool {
    forall|j: int| 0 <= j < e.len() ==> entry_calls(#[trigger] e[j].1).len() == 0
}

pub open spec fn fold_ok(f: Fold) -> bool {
    &&& unsplit(f.entries)
    &&& open_covers(f.entries, f.open)
    &&& no_calls(f.held)
    &&& (f.held.len() > 0 ==> f.open.len() > 0)
}

/// Whether every turn outcome of `t` comes when no tool exchange is open,
/// and none is open at its end: each started call is answered before the
/// turn it belongs to ends.
pub open spec fn closes_cleanly(t: Seq<TranscriptRecord>) -> bool {
    &&& forall|k: int| 0 <= k < t.len() && (#[trigger] t[k]).item is TurnOutcome ==> fold_upto(t, k as nat).open.len() == 0
    &&& fold_upto(t, t.len()).open.len() == 0
}

proof fn lemma_answered_grow(e: Seq<(u64, WireView)>, f: Seq<(u64, WireView)>, id: Seq<char>, lo: int, hi: int, hi2: int)
    requires
        answered_between(e, id, lo, hi),
        hi <= hi2,
        e.len() <= f.len(),
        forall|m: int| 0 <= m < e.len() ==> f[m] == e[m],
    ensures
        answered_between(f, id, lo, hi2),
{
    let m = choose|m: int| lo < m < hi && 0 <= m < e.len() && #[trigger] e[m].1.tool_call_id == Some(id);
    assert(f[m] == e[m]);
}

/// Pushing a message that is no user message and makes no calls keeps the
/// wire unsplit, and every call still answered stays answered.
proof fn lemma_push_plain(e: Seq<(u64, WireView)>, x: (u64, WireView))
    requires
        unsplit(e),
        x.1.role != "user"@,
    ensures
        unsplit(e.push(x)),
{
    let f = e.push(x);
    assert forall|j: int, k: int, c: int|
        #![trigger f[j], f[k], entry_calls(f[j].1)[c]]
        0 <= j < k < f.len() && f[k].1.role == "user"@ && 0 <= c < entry_calls(f[j].1).len()
            implies answered_between(f, entry_calls(f[j].1)[c].id, j, k) by {
        assert(k < e.len());
        assert(f[j] == e[j] && f[k] == e[k]);
        lemma_answered_grow(e, f, entry_calls(e[j].1)[c].id, j, k, k);
    }
}

proof fn lemma_covers_grow(e: Seq<(u64, WireView)>, f: Seq<(u64, WireView)>, open: Seq<Seq<char>>, open2: Seq<Seq<char>>)
    requires
        open_covers(e, open),
        e.len() <= f.len(),
        forall|m: int| 0 <= m < e.len() ==> f[m] == e[m],
        forall|id: Seq<char>| open.contains(id) ==> open2.contains(id),
    ensures
        forall|j: int, c: int|
            #![trigger f[j], entry_calls(f[j].1)[c]]
            0 <= j < e.len() && 0 <= c < entry_calls(f[j].1).len()
                ==> answered_between(f, entry_calls(f[j].1)[c].id, j, f.len() as int)
                    || open2.contains(entry_calls(f[j].1)[c].id),
{
    assert forall|j: int, c: int|
        #![trigger f[j], entry_calls(f[j].1)[c]]
        0 <= j < e.len() && 0 <= c < entry_calls(f[j].1).len()
            implies answered_between(f, entry_calls(f[j].1)[c].id, j, f.len() as int)
                || open2.contains(entry_calls(f[j].1)[c].id) by {
        assert(f[j] == e[j]);
        let id = entry_calls(e[j].1)[c].id;
        if answered_between(e, id, j, e.len() as int) {
            lemma_answered_grow(e, f, id, j, e.len() as int, f.len() as int);
        }
    }
}

/// One step keeps the wire unsplit, given that a turn outcome never comes
/// while an exchange is open.
proof fn lemma_take_in_unsplit(f: Fold, r: TranscriptRecord, t: Seq<TranscriptRecord>)
    requires
        fold_ok(f),
        r.item is TurnOutcome ==> f.open.len() == 0,
    ensures
        fold_ok(take_in(f, r, t)),
{
    let g = take_in(f, r, t);
    let e = f.entries;
    match r.item {
        TranscriptEntry::UserMessage { .. } | TranscriptEntry::UserActivity { .. } => {
            let content = match r.item {
                TranscriptEntry::UserMessage { text, .. } => text@,
                TranscriptEntry::UserActivity { path, head, .. } => activity_text(path@, head@),
                _ => Seq::empty(),
            };
            let x = (r.seq, user_view(content));
            assert(entry_calls(x.1).len() == 0);
            if f.open.len() == 0 {
                let h = e.push(x);
                assert(g.entries == h);
                assert forall|j: int, k: int, c: int|
                    #![trigger h[j], h[k], entry_calls(h[j].1)[c]]
                    0 <= j < k < h.len() && h[k].1.role == "user"@ && 0 <= c < entry_calls(h[j].1).len()
                        implies answered_between(h, entry_calls(h[j].1)[c].id, j, k) by {
                    assert(h[j] == e[j]);
                    let id = entry_calls(e[j].1)[c].id;
                    if k < e.len() {
                        assert(h[k] == e[k]);
                        lemma_answered_grow(e, h, id, j, k, k);
                    } else {
                        assert(!f.open.contains(id));
                        lemma_answered_grow(e, h, id, j, e.len() as int, k);
                    }
                }
                lemma_covers_grow(e, h, f.open, f.open);
            } else {
                assert(g.entries == e);
                assert forall|j: int| 0 <= j < g.held.len() implies entry_calls(#[trigger] g.held[j].1).len() == 0 by {
                    if j < f.held.len() {
                        assert(g.held[j] == f.held[j]);
                    }
                }
            }
        },
        TranscriptEntry::RequestOutcome { outcome: Outcome::Completed { value }, .. } => {
            let calls = ran_calls(t, calls_view(value.tool_calls@));
            if says(value.text) || calls.len() > 0 {
                let x = (r.seq, assistant_view(opt_view(value.text), calls));
                let h = e.push(x);
                let open2 = take_answer(f, r.seq, value, t).open;
                assert(open2 == f.open + ids_of(calls));
                reveal_strlit("user");
                reveal_strlit("assistant");
                assert(x.1.role != "user"@) by {
                    assert(x.1.role[0] != "user"@[0]);
                }
                lemma_push_plain(e, x);
                assert forall|id: Seq<char>| f.open.contains(id) implies open2.contains(id) by {
                    let q = choose|q: int| 0 <= q < f.open.len() && f.open[q] == id;
                    assert(open2[q] == id);
                }
                lemma_covers_grow(e, h, f.open, open2);
                assert forall|j: int, c: int|
                    #![trigger h[j], entry_calls(h[j].1)[c]]
                    0 <= j < h.len() && 0 <= c < entry_calls(h[j].1).len()
                        implies answered_between(h, entry_calls(h[j].1)[c].id, j, h.len() as int)
                            || open2.contains(entry_calls(h[j].1)[c].id) by {
                    if j == e.len() {
                        assert(entry_calls(h[j].1) == calls);
                        assert(open2[f.open.len() + c] == calls[c].id);
                    }
                }
            }
        },
        TranscriptEntry::ToolOutcome { call_id, outcome } => {
            if started(t, call_id@) {
                let x = (r.seq, tool_view(call_id@, rendered(outcome)));
                let h = e.push(x);
                let open2 = without(f.open, call_id@);
                reveal_strlit("user");
                reveal_strlit("tool");
                assert(x.1.role != "user"@) by {
                    assert(x.1.role[0] != "user"@[0]);
                }
                lemma_push_plain(e, x);
                assert(entry_calls(x.1).len() == 0);
                assert(h[e.len() as int].1.tool_call_id == Some(call_id@));
                assert forall|j: int, c: int|
                    #![trigger h[j], entry_calls(h[j].1)[c]]
                    0 <= j < h.len() && 0 <= c < entry_calls(h[j].1).len()
                        implies answered_between(h, entry_calls(h[j].1)[c].id, j, h.len() as int)
                            || open2.contains(entry_calls(h[j].1)[c].id) by {
                    assert(j < e.len());
                    assert(h[j] == e[j]);
                    let id = entry_calls(e[j].1)[c].id;
                    if answered_between(e, id, j, e.len() as int) {
                        lemma_answered_grow(e, h, id, j, e.len() as int, h.len() as int);
                    } else if id == call_id@ {
                        assert(answered_between(h, id, j, h.len() as int));
                    } else {
                        assert(f.open.contains(id));
                        let q = choose|q: int| 0 <= q < f.open.len() && f.open[q] == id;
                        f.open.lemma_filter_contains_rev(|x: Seq<char>| x != call_id@, id);
                    }
                }
                if open2.len() == 0 {
                    let w = h + f.held;
                    assert(g.entries == w);
                    assert(g.held.len() == 0);
                    assert forall|j: int, k: int, c: int|
                        #![trigger w[j], w[k], entry_calls(w[j].1)[c]]
                        0 <= j < k < w.len() && w[k].1.role == "user"@ && 0 <= c < entry_calls(w[j].1).len()
                            implies answered_between(w, entry_calls(w[j].1)[c].id, j, k) by {
                        if j >= h.len() {
                            assert(w[j] == f.held[j - h.len()]);
                        } else {
                            assert(w[j] == h[j]);
                            let id = entry_calls(h[j].1)[c].id;
                            if k < h.len() {
                                assert(w[k] == h[k]);
                                lemma_answered_grow(h, w, id, j, k, k);
                            } else {
                                assert(!open2.contains(id));
                                lemma_answered_grow(h, w, id, j, h.len() as int, k);
                            }
                        }
                    }
                    assert forall|j: int, c: int|
                        #![trigger w[j], entry_calls(w[j].1)[c]]
                        0 <= j < w.len() && 0 <= c < entry_calls(w[j].1).len()
                            implies answered_between(w, entry_calls(w[j].1)[c].id, j, w.len() as int)
                                || open2.contains(entry_calls(w[j].1)[c].id) by {
                        if j >= h.len() {
                            assert(w[j] == f.held[j - h.len()]);
                        } else {
                            assert(w[j] == h[j]);
                            let id = entry_calls(h[j].1)[c].id;
                            assert(!open2.contains(id));
                            lemma_answered_grow(h, w, id, j, h.len() as int, w.len() as int);
                        }
                    }
                } else {
                    assert(g.entries == h);
                }
            }
        },
        TranscriptEntry::TurnOutcome { .. } => {
            assert(f.held.len() == 0);
            assert(f.entries + f.held =~= f.entries);
        },
        _ => {},
    }
}

proof fn lemma_fold_unsplit(t: Seq<TranscriptRecord>, n: nat)
    requires
        n <= t.len(),
        forall|k: int| 0 <= k < t.len() && (#[trigger] t[k]).item is TurnOutcome ==> fold_upto(t, k as nat).open.len() == 0,
    ensures
        fold_ok(fold_upto(t, n)),
    decreases n,
{
    if n > 0 {
        let m = (n - 1) as nat;
        lemma_fold_unsplit(t, m);
        assert(t[m as int].item is TurnOutcome ==> fold_upto(t, m).open.len() == 0);
        lemma_take_in_unsplit(fold_upto(t, m), t[m as int], t);
    }
}

/// A `tool_calls` message is never split from its results: in the model
/// view, every call of an assistant message is answered before any user
/// message that follows it, as long as every turn outcome comes when no
/// tool exchange is open and none is open at the end.
pub proof fn lemma_exchanges_stay_whole(t: Seq<TranscriptRecord>)
    requires
        closes_cleanly(t),
    ensures
        unsplit(projected(t).entries),
{
    lemma_fold_unsplit(t, t.len());
    let f = fold_upto(t, t.len());
    assert(f.held.len() == 0);
    assert(f.entries + f.held =~= f.entries);
}


/// The parts of `s` tagged with the record numbered `seq`, in order.
pub open spec fn tagged<A>(s: Seq<(u64, A)>, seq: u64) -> Seq<A>
    decreases s.len(),
{
    if s.len() == 0 {
        Seq::empty()
    } else {
        tagged(s.drop_last(), seq) + if s.last().0 == seq { seq![s.last().1] } else { Seq::empty() }
    }
}

proof fn lemma_tagged_concat<A>(a: Seq<(u64, A)>, b: Seq<(u64, A)>, seq: u64)
    ensures
        tagged(a + b, seq) == tagged(a, seq) + tagged(b, seq),
    decreases b.len(),
{
    if b.len() == 0 {
        assert(a + b =~= a);
        assert(tagged(a, seq) + tagged(b, seq) =~= tagged(a, seq));
    } else {
        lemma_tagged_concat(a, b.drop_last(), seq);
        assert((a + b).drop_last() =~= a + b.drop_last());
        let x = if b.last().0 == seq { seq![b.last().1] } else { Seq::<A>::empty() };
        assert(tagged(a, seq) + tagged(b.drop_last(), seq) + x =~= tagged(a, seq) + (tagged(b.drop_last(), seq) + x));
    }
}

proof fn lemma_tagged_push<A>(a: Seq<(u64, A)>, x: (u64, A), seq: u64)
    ensures
        tagged(a.push(x), seq) == tagged(a, seq) + if x.0 == seq { seq![x.1] } else { Seq::empty() },
{
    assert(a.push(x).drop_last() =~= a);
}

/// The message a record puts in the model view, if any: a user record its
/// user message; an answer its text and the calls the limb started, when
/// it has either; a result for a started call the result.
pub open spec fn produced(r: TranscriptRecord, t: Seq<TranscriptRecord>) -> Seq<WireView> {
    match r.item {
        TranscriptEntry::UserMessage { text, .. } => seq![user_view(text@)],
        TranscriptEntry::UserActivity { path, head, .. } => seq![user_view(activity_text(path@, head@))],
        TranscriptEntry::RequestOutcome { outcome: Outcome::Completed { value }, .. } => {
            let calls = ran_calls(t, calls_view(value.tool_calls@));
            if says(value.text) || calls.len() > 0 {
                seq![assistant_view(opt_view(value.text), calls)]
            } else {
                Seq::empty()
            }
        },
        TranscriptEntry::ToolOutcome { call_id, outcome } => if started(t, call_id@) {
            seq![tool_view(call_id@, rendered(outcome))]
        } else {
            Seq::empty()
        },
        _ => Seq::empty(),
    }
}

/// The calls of an answer the limb never started, when there are any.
pub open spec fn omitted(r: TranscriptRecord, t: Seq<TranscriptRecord>) -> Seq<Seq<CallView>> {
    match r.item {
        TranscriptEntry::RequestOutcome { outcome: Outcome::Completed { value }, .. } => {
            let un = unran_calls(t, calls_view(value.tool_calls@));
            if un.len() > 0 { seq![un] } else { Seq::empty() }
        },
        _ => Seq::empty(),
    }
}

/// Whether no two records of `t` share a number.
pub open spec fn numbered_apart(t: Seq<TranscriptRecord>) -> bool {
    forall|i: int, j: int| 0 <= i < j < t.len() ==> (#[trigger] t[i]).seq != (#[trigger] t[j]).seq
}

/// A session's transcript, as its journal numbers it, has no two records
/// under one number.
pub proof fn lemma_sessions_are_numbered_apart(s: SessionView)
    requires
        well_numbered(s),
    ensures
        numbered_apart(s.transcript),
{
}

/// One step adds the record's own message, and its unstarted calls, under
/// its own number, and touches no other number.
proof fn lemma_take_in_tagged(f: Fold, r: TranscriptRecord, t: Seq<TranscriptRecord>, s: u64)
    requires
        s == r.seq ==> tagged(f.entries, s).len() == 0 && tagged(f.held, s).len() == 0,
    ensures
        tagged(take_in(f, r, t).entries + take_in(f, r, t).held, s)
            == tagged(f.entries + f.held, s) + if s == r.seq { produced(r, t) } else { Seq::empty() },
        tagged(take_in(f, r, t).unexecuted, s)
            == tagged(f.unexecuted, s) + if s == r.seq { omitted(r, t) } else { Seq::empty() },
{
    let g = take_in(f, r, t);
    let e: Seq<(u64, WireView)> = Seq::empty();
    let x_w = if s == r.seq { produced(r, t) } else { Seq::<WireView>::empty() };
    let x_c = if s == r.seq { omitted(r, t) } else { Seq::<Seq<CallView>>::empty() };
    lemma_tagged_concat(f.entries, f.held, s);
    lemma_tagged_concat(g.entries, g.held, s);
    let te = tagged(f.entries, s);
    let th = tagged(f.held, s);
    match r.item {
        TranscriptEntry::UserMessage { text, .. } => {
            let x = (r.seq, user_view(text@));
            lemma_tagged_push(f.entries, x, s);
            lemma_tagged_push(f.held, x, s);
            assert(tagged(g.entries, s) + tagged(g.held, s) =~= te + th + x_w);
            assert(tagged(g.unexecuted, s) =~= tagged(f.unexecuted, s) + x_c);
        },
        TranscriptEntry::UserActivity { path, head, .. } => {
            let x = (r.seq, user_view(activity_text(path@, head@)));
            lemma_tagged_push(f.entries, x, s);
            lemma_tagged_push(f.held, x, s);
            assert(tagged(g.entries, s) + tagged(g.held, s) =~= te + th + x_w);
            assert(tagged(g.unexecuted, s) =~= tagged(f.unexecuted, s) + x_c);
        },
        TranscriptEntry::RequestOutcome { outcome: Outcome::Completed { value }, .. } => {
            let calls = ran_calls(t, calls_view(value.tool_calls@));
            let un = unran_calls(t, calls_view(value.tool_calls@));
            let x = (r.seq, assistant_view(opt_view(value.text), calls));
            lemma_tagged_push(f.entries, x, s);
            lemma_tagged_push(f.unexecuted, (r.seq, un), s);
            assert(tagged(g.entries, s) + tagged(g.held, s) =~= te + th + x_w);
            assert(tagged(g.unexecuted, s) =~= tagged(f.unexecuted, s) + x_c);
        },
        TranscriptEntry::ToolOutcome { call_id, outcome } => {
            if started(t, call_id@) {
                let x = (r.seq, tool_view(call_id@, rendered(outcome)));
                let pushed = f.entries.push(x);
                lemma_tagged_push(f.entries, x, s);
                lemma_tagged_concat(pushed, f.held, s);
                lemma_tagged_concat(pushed + f.held, e, s);
            }
            assert(tagged(g.entries, s) + tagged(g.held, s) =~= te + th + x_w);
            assert(tagged(g.unexecuted, s) =~= tagged(f.unexecuted, s) + x_c);
        },
        TranscriptEntry::TurnOutcome { .. } => {
            lemma_tagged_concat(f.entries + f.held, e, s);
            assert(tagged(g.entries, s) + tagged(g.held, s) =~= te + th + x_w);
            assert(tagged(g.unexecuted, s) =~= tagged(f.unexecuted, s) + x_c);
        },
        _ => {
            assert(tagged(g.entries, s) + tagged(g.held, s) =~= te + th + x_w);
            assert(tagged(g.unexecuted, s) =~= tagged(f.unexecuted, s) + x_c);
        },
    }
}

/// Whether no record among the first `n` of `t` is numbered `s`.
pub open spec fn unused_seq(t: Seq<TranscriptRecord>, n: int, s: u64) -> bool {
    forall|k: int| 0 <= k < n ==> (#[trigger] t[k]).seq != s
}

proof fn lemma_fold_tagged(t: Seq<TranscriptRecord>, n: nat)
    requires
        n <= t.len(),
        numbered_apart(t),
    ensures
        forall|s: u64| unused_seq(t, n as int, s)
            ==> #[trigger] tagged(fold_upto(t, n).entries + fold_upto(t, n).held, s) == Seq::<WireView>::empty()
                && tagged(fold_upto(t, n).unexecuted, s) == Seq::<Seq<CallView>>::empty(),
        forall|k: int| 0 <= k < n ==> tagged(fold_upto(t, n).entries + fold_upto(t, n).held, #[trigger] t[k].seq)
            == produced(t[k], t) && tagged(fold_upto(t, n).unexecuted, t[k].seq) == omitted(t[k], t),
    decreases n,
{
    if n == 0 {
        assert(no_fold().entries + no_fold().held =~= Seq::<(u64, WireView)>::empty());
    } else {
        let m = (n - 1) as nat;
        lemma_fold_tagged(t, m);
        let f = fold_upto(t, m);
        let r = t[m as int];
        assert forall|s: u64| unused_seq(t, n as int, s)
            implies #[trigger] tagged(fold_upto(t, n).entries + fold_upto(t, n).held, s) == Seq::<WireView>::empty()
                && tagged(fold_upto(t, n).unexecuted, s) == Seq::<Seq<CallView>>::empty() by {
            assert(t[m as int].seq != s);
            assert(unused_seq(t, m as int, s));
            assert(tagged(f.entries + f.held, s) == Seq::<WireView>::empty());
            lemma_take_in_tagged(f, r, t, s);
            assert(tagged(f.entries + f.held, s) + Seq::<WireView>::empty() =~= tagged(f.entries + f.held, s));
            assert(tagged(f.unexecuted, s) + Seq::<Seq<CallView>>::empty() =~= tagged(f.unexecuted, s));
        }
        assert forall|k: int| 0 <= k < n implies tagged(fold_upto(t, n).entries + fold_upto(t, n).held, #[trigger] t[k].seq)
            == produced(t[k], t) && tagged(fold_upto(t, n).unexecuted, t[k].seq) == omitted(t[k], t) by {
            if k == m {
                assert forall|q: int| 0 <= q < m implies (#[trigger] t[q]).seq != r.seq by {
                    assert(t[q].seq != t[m as int].seq);
                }
                assert(unused_seq(t, m as int, r.seq));
                assert(tagged(f.entries + f.held, r.seq) == Seq::<WireView>::empty());
                lemma_tagged_concat(f.entries, f.held, r.seq);
                lemma_take_in_tagged(f, r, t, t[k].seq);
                assert(Seq::<WireView>::empty() + produced(r, t) =~= produced(r, t));
                assert(Seq::<Seq<CallView>>::empty() + omitted(r, t) =~= omitted(r, t));
            } else {
                assert(t[k].seq != t[m as int].seq);
                lemma_take_in_tagged(f, r, t, t[k].seq);
                assert(produced(t[k], t) + Seq::<WireView>::empty() =~= produced(t[k], t));
                assert(omitted(t[k], t) + Seq::<Seq<CallView>>::empty() =~= omitted(t[k], t));
            }
        }
    }
}

/// Every record stands in the model view as its own message and nothing
/// else, as long as no two records share a number (as a replayed journal
/// guarantees): each thing the user typed or opened exactly once, however
/// long it waited for a tool exchange to close; each answer once, with
/// exactly the calls the limb started, in their order, when it has text
/// or such a call, and not at all otherwise; each result of a started call
/// once; and the calls an answer proposed that the limb never started are
/// listed under that answer's number, when there are any.
pub proof fn lemma_each_record_projects_its_message(t: Seq<TranscriptRecord>)
    requires
        numbered_apart(t),
    ensures
        forall|k: int| 0 <= k < t.len() ==> tagged(projected(t).entries, #[trigger] t[k].seq) == produced(t[k], t)
            && tagged(projected(t).unexecuted, t[k].seq) == omitted(t[k], t),
{
    lemma_fold_tagged(t, t.len());
}

} // verus!
