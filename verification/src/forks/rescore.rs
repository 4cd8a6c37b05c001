//! Replaying a trial's wire log into what each agent did. The log holds one
//! JSON object per line: every request body an agent sent and every
//! response it got. A request body holds the tool results of the turn
//! before it, which is how a read that failed is told from one that
//! worked. Nothing is written back; the evidence is read-only.
use vstd::prelude::*;
use crate::json::{array_of, field_of, text_field, texts_view, u64_field};
use crate::skeleton::protocol::opt_view;
use crate::text::{lines_of, lines_upto, owned, views};

verus! {

/// One `read_file` call, with whether its result is known to have worked.
pub struct ReadAttempt {
    pub path: String,
    pub ok: bool,
}

/// What one agent did.
pub struct Seen {
    pub reads: Vec<ReadAttempt>,
    pub forked: bool,
    /// Cached, uncached and written prompt tokens, one entry per answered
    /// request, in order.
    pub usages: Vec<(u64, u64, u64)>,
}

pub struct SeenView {
    pub reads: Seq<(Seq<char>, bool)>,
    pub forked: bool,
    pub usages: Seq<(u64, u64, u64)>,
}

impl View for Seen {
    type V = SeenView;

    open spec fn view(&self) -> SeenView {
        SeenView {
            reads: self.reads@.map_values(|r: ReadAttempt| (r.path@, r.ok)),
            forked: self.forked,
            usages: self.usages@,
        }
    }
}

/// A call an agent's response made: id, tool name, arguments.
pub type CallTriple = (Seq<char>, Seq<char>, Seq<char>);

/// What one line of the log says.
pub enum LineKind {
    /// A request: the tool results it carried, by call id.
    Request(Seq<(Seq<char>, Seq<char>)>),
    /// A response: its usage and the calls it made.
    Response((u64, u64, u64), Seq<CallTriple>),
    Other,
}

pub struct LineView {
    pub agent: Seq<char>,
    pub kind: LineKind,
}

pub open spec fn or_empty(o: Option<Seq<char>>) -> Seq<char> {
    match o {
        Some(t) => t,
        None => Seq::empty(),
    }
}

pub open spec fn or_zero(o: Option<u64>) -> u64 {
    match o {
        Some(n) => n,
        None => 0,
    }
}

/// The members of the object member `key` of an optional value.
pub open spec fn member_of(o: Option<Seq<char>>, key: Seq<char>) -> Option<Seq<char>> {
    match o {
        Some(t) => field_of(t, key),
        None => None,
    }
}

/// The elements of an optional value that is an array.
pub open spec fn items(o: Option<Seq<char>>) -> Seq<Seq<char>> {
    match o {
        Some(t) => match array_of(t) {
            Some(xs) => xs,
            None => Seq::empty(),
        },
        None => Seq::empty(),
    }
}

/// The tool results among a request's messages: a message whose role is
/// `tool` and that names its call.
pub open spec fn results_in(messages: Seq<Seq<char>>) -> Seq<(Seq<char>, Seq<char>)>
    decreases messages.len(),
{
    if messages.len() == 0 {
        Seq::empty()
    } else {
        let before = results_in(messages.drop_last());
        let m = messages.last();
        if text_field(m, "role"@) == Some("tool"@) && text_field(m, "tool_call_id"@) is Some {
            before.push((text_field(m, "tool_call_id"@).unwrap(), or_empty(text_field(m, "content"@))))
        } else {
            before
        }
    }
}

/// A call as a response writes it.
pub open spec fn call_of(c: Seq<char>) -> CallTriple {
    let function = field_of(c, "function"@);
    (
        or_empty(text_field(c, "id"@)),
        or_empty(match function { Some(f) => text_field(f, "name"@), None => None }),
        or_empty(match function { Some(f) => text_field(f, "arguments"@), None => None }),
    )
}

/// The first element of an array value, if it is one and has one.
pub open spec fn first_item(o: Option<Seq<char>>) -> Option<Seq<char>> {
    let xs = items(o);
    if xs.len() > 0 { Some(xs[0]) } else { None }
}

/// The usage a response body reports: cached, uncached (never below
/// zero) and written prompt tokens.
pub open spec fn usage_of(body: Option<Seq<char>>) -> (u64, u64, u64) {
    let usage = member_of(body, "usage"@);
    let details = member_of(usage, "prompt_tokens_details"@);
    let prompt = or_zero(match usage { Some(u) => u64_field(u, "prompt_tokens"@), None => None });
    let cached = or_zero(match details { Some(d) => u64_field(d, "cached_tokens"@), None => None });
    let written = or_zero(match details { Some(d) => u64_field(d, "cache_write_tokens"@), None => None });
    (cached, if prompt >= cached { (prompt - cached) as u64 } else { 0 }, written)
}

/// The calls the first choice of a response body made.
pub open spec fn calls_in(body: Option<Seq<char>>) -> Seq<CallTriple> {
    let message = member_of(first_item(member_of(body, "choices"@)), "message"@);
    items(member_of(message, "tool_calls"@)).map_values(|c: Seq<char>| call_of(c))
}

/// What one line of the log says.
pub open spec fn line_view(line: Seq<char>) -> LineView {
    let body = field_of(line, "body"@);
    LineView {
        agent: or_empty(text_field(line, "agent"@)),
        kind: if text_field(line, "kind"@) == Some("request"@) {
            LineKind::Request(results_in(items(member_of(body, "messages"@))))
        } else if text_field(line, "kind"@) == Some("response"@) {
            LineKind::Response(usage_of(body), calls_in(body))
        } else {
            LineKind::Other
        },
    }
}

/// Every line of a log.
pub open spec fn log_view(text: Seq<char>) -> Seq<LineView> {
    lines_of(text).map_values(|l: Seq<char>| line_view(l))
}

/// The usages of `agent`'s responses, in order.
pub open spec fn usages_of(ls: Seq<LineView>, agent: Seq<char>) -> Seq<(u64, u64, u64)>
    decreases ls.len(),
{
    if ls.len() == 0 {
        Seq::empty()
    } else {
        let before = usages_of(ls.drop_last(), agent);
        match ls.last().kind {
            LineKind::Response(u, _) => if ls.last().agent == agent { before.push(u) } else { before },
            _ => before,
        }
    }
}

/// The calls of `agent`'s responses, in order.
pub open spec fn calls_of(ls: Seq<LineView>, agent: Seq<char>) -> Seq<CallTriple>
    decreases ls.len(),
{
    if ls.len() == 0 {
        Seq::empty()
    } else {
        let before = calls_of(ls.drop_last(), agent);
        match ls.last().kind {
            LineKind::Response(_, cs) => if ls.last().agent == agent { before + cs } else { before },
            _ => before,
        }
    }
}

/// The last result for `id` among `rs`.
pub open spec fn last_result(rs: Seq<(Seq<char>, Seq<char>)>, id: Seq<char>) -> Option<Seq<char>>
    decreases rs.len(),
{
    if rs.len() == 0 {
        None
    } else if rs.last().0 == id {
        Some(rs.last().1)
    } else {
        last_result(rs.drop_last(), id)
    }
}

/// The answer the log last carried for `agent`'s call `id`.
pub open spec fn answer_of(ls: Seq<LineView>, agent: Seq<char>, id: Seq<char>) -> Option<Seq<char>>
    decreases ls.len(),
{
    if ls.len() == 0 {
        None
    } else {
        match ls.last().kind {
            LineKind::Request(rs) => if ls.last().agent == agent && last_result(rs, id) is Some {
                last_result(rs, id)
            } else {
                answer_of(ls.drop_last(), agent, id)
            },
            _ => answer_of(ls.drop_last(), agent, id),
        }
    }
}

/// Whether an answer shows a read that worked.
pub open spec fn answered_ok(answer: Option<Seq<char>>) -> bool {
    match answer {
        Some(a) => !(a.len() >= 6 && a.subrange(0, 6) == "Error:"@),
        None => false,
    }
}

/// The `read_file` calls among `calls`, with their targets and outcomes.
pub open spec fn reads_in(ls: Seq<LineView>, agent: Seq<char>, calls: Seq<CallTriple>) -> Seq<(Seq<char>, bool)>
    decreases calls.len(),
{
    if calls.len() == 0 {
        Seq::empty()
    } else {
        let before = reads_in(ls, agent, calls.drop_last());
        let c = calls.last();
        if c.1 == "read_file"@ {
            before.push((or_empty(text_field(c.2, "path"@)), answered_ok(answer_of(ls, agent, c.0))))
        } else {
            before
        }
    }
}

/// What the log says `agent` did.
pub open spec fn seen_of(ls: Seq<LineView>, agent: Seq<char>) -> SeenView {
    let calls = calls_of(ls, agent);
    SeenView {
        reads: reads_in(ls, agent, calls),
        forked: exists|k: int| 0 <= k < calls.len() && #[trigger] calls[k].1 == "task"@,
        usages: usages_of(ls, agent),
    }
}

/// Whether `agent` got at least one response.
pub open spec fn answered_agent(ls: Seq<LineView>, agent: Seq<char>) -> bool {
    exists|k: int| 0 <= k < ls.len() && ls[k].agent == agent && #[trigger] ls[k].kind is Response
}

/// One line of the log, read.
pub struct WireLine {
    pub agent: String,
    pub kind: WireKind,
}

pub enum WireKind {
    Request { results: Vec<(String, String)> },
    Response { usage: (u64, u64, u64), calls: Vec<(String, String, String)> },
    Other,
}

pub open spec fn pairs_view(v: Seq<(String, String)>) -> Seq<(Seq<char>, Seq<char>)> {
    v.map_values(|p: (String, String)| (p.0@, p.1@))
}

pub open spec fn triples_view(v: Seq<(String, String, String)>) -> Seq<CallTriple> {
    v.map_values(|t: (String, String, String)| (t.0@, t.1@, t.2@))
}

impl View for WireLine {
    type V = LineView;

    open spec fn view(&self) -> LineView {
        LineView {
            agent: self.agent@,
            kind: match self.kind {
                WireKind::Request { results } => LineKind::Request(pairs_view(results@)),
                WireKind::Response { usage, calls } => LineKind::Response(usage, triples_view(calls@)),
                WireKind::Other => LineKind::Other,
            },
        }
    }
}

pub open spec fn lines_view(v: Seq<WireLine>) -> Seq<LineView> {
    v.map_values(|l: WireLine| l@)
}

pub(crate) fn or_empty_text(o: Option<String>) -> (r: String)
    ensures
        r@ == or_empty(opt_view(o)),
{
    match o {
        Some(t) => t,
        None => String::new(),
    }
}

pub(crate) fn opt_member(o: &Option<String>, key: &str) -> (r: Option<String>)
    ensures
        opt_view(r) == member_of(opt_view(*o), key@),
{
    match o {
        Some(t) => crate::json::field(t.as_str(), key),
        None => None,
    }
}

pub(crate) fn opt_items(o: &Option<String>) -> (r: Vec<String>)
    ensures
        texts_view(r@) == items(opt_view(*o)),
{
    match o {
        Some(t) => match crate::json::as_array(t.as_str()) {
            Some(xs) => xs,
            None => Vec::new(),
        },
        None => Vec::new(),
    }
}

pub(crate) fn opt_text_member(o: &Option<String>, key: &str) -> (r: Option<String>)
    ensures
        opt_view(r) == match opt_view(*o) {
            Some(t) => text_field(t, key@),
            None => None,
        },
{
    match o {
        Some(t) => crate::json::text_member(t.as_str(), key),
        None => None,
    }
}

pub(crate) fn opt_u64_member(o: &Option<String>, key: &str) -> (r: u64)
    ensures
        r == or_zero(match opt_view(*o) {
            Some(t) => u64_field(t, key@),
            None => None,
        }),
{
    let found = match o {
        Some(t) => crate::json::u64_member(t.as_str(), key),
        None => None,
    };
    match found {
        Some(n) => n,
        None => 0,
    }
}

/// The tool results among a request's messages.
fn results_from(messages: &Vec<String>) -> (r: Vec<(String, String)>)
    ensures
        pairs_view(r@) == results_in(texts_view(messages@)),
{
    let ghost all = texts_view(messages@);
    let mut out: Vec<(String, String)> = Vec::new();
    let mut i: usize = 0;
    while i < messages.len()
        invariant
            i <= messages@.len(),
            all == texts_view(messages@),
            pairs_view(out@) == results_in(all.subrange(0, i as int)),
        decreases messages@.len() - i,
    {
        let ghost next = all.subrange(0, i + 1 as int);
        assert(next.drop_last() =~= all.subrange(0, i as int));
        assert(next.last() == messages@[i as int]@);
        let m = messages[i].as_str();
        let role = crate::json::text_member(m, "role");
        let is_tool = match &role {
            Some(r) => crate::text::same(r.as_str(), "tool"),
            None => false,
        };
        if is_tool {
            if let Some(id) = crate::json::text_member(m, "tool_call_id") {
                let content = or_empty_text(crate::json::text_member(m, "content"));
                let ghost before = pairs_view(out@);
                let ghost pair = (id@, content@);
                out.push((id, content));
                assert(pairs_view(out@) =~= before.push(pair));
            }
        }
        i = i + 1;
    }
    assert(all.subrange(0, i as int) =~= all);
    out
}

/// The calls the first choice of a response body made.
fn calls_from(body: &Option<String>) -> (r: Vec<(String, String, String)>)
    ensures
        triples_view(r@) == calls_in(opt_view(*body)),
{
    let choices = opt_member(body, "choices");
    let listed = opt_items(&choices);
    let first = if listed.len() > 0 { Some(crate::text::copy(&listed[0])) } else { None };
    assert(opt_view(first) == first_item(opt_view(choices)));
    let message = opt_member(&first, "message");
    let tool_calls = opt_member(&message, "tool_calls");
    let calls = opt_items(&tool_calls);
    let ghost all = texts_view(calls@);
    let mut out: Vec<(String, String, String)> = Vec::new();
    let mut i: usize = 0;
    while i < calls.len()
        invariant
            i <= calls@.len(),
            all == texts_view(calls@),
            triples_view(out@) == all.subrange(0, i as int).map_values(|c: Seq<char>| call_of(c)),
        decreases calls@.len() - i,
    {
        let c = calls[i].as_str();
        let function = crate::json::field(c, "function");
        let id = or_empty_text(crate::json::text_member(c, "id"));
        let name = or_empty_text(opt_text_member(&function, "name"));
        let arguments = or_empty_text(opt_text_member(&function, "arguments"));
        let ghost t = (id@, name@, arguments@);
        assert(t == call_of(all[i as int]));
        let ghost before = triples_view(out@);
        out.push((id, name, arguments));
        assert(triples_view(out@) =~= before.push(t));
        assert(all.subrange(0, i + 1 as int).map_values(|c: Seq<char>| call_of(c))
            =~= all.subrange(0, i as int).map_values(|c: Seq<char>| call_of(c)).push(t));
        i = i + 1;
    }
    assert(all.subrange(0, i as int) =~= all);
    out
}

/// Reads one line of the log.
pub fn read_line(line: &str) -> (r: WireLine)
    ensures
        r@ == line_view(line@),
{
    let body = crate::json::field(line, "body");
    let agent = or_empty_text(crate::json::text_member(line, "agent"));
    let kind_text = crate::json::text_member(line, "kind");
    let (is_request, is_response) = match &kind_text {
        Some(k) => (crate::text::same(k.as_str(), "request"), crate::text::same(k.as_str(), "response")),
        None => (false, false),
    };
    let kind = if is_request {
        let messages = opt_member(&body, "messages");
        let listed = opt_items(&messages);
        WireKind::Request { results: results_from(&listed) }
    } else if is_response {
        let usage = opt_member(&body, "usage");
        let details = opt_member(&usage, "prompt_tokens_details");
        let prompt = opt_u64_member(&usage, "prompt_tokens");
        let cached = opt_u64_member(&details, "cached_tokens");
        let written = opt_u64_member(&details, "cache_write_tokens");
        let uncached = if prompt >= cached { prompt - cached } else { 0 };
        WireKind::Response { usage: (cached, uncached, written), calls: calls_from(&body) }
    } else {
        WireKind::Other
    };
    WireLine { agent, kind }
}

/// The last result for `id` among `rs`.
fn last_result_of(rs: &Vec<(String, String)>, id: &str) -> (r: Option<String>)
    ensures
        opt_view(r) == last_result(pairs_view(rs@), id@),
{
    let ghost all = pairs_view(rs@);
    let mut found: Option<String> = None;
    let mut j: usize = 0;
    while j < rs.len()
        invariant
            j <= rs@.len(),
            all == pairs_view(rs@),
            opt_view(found) == last_result(all.subrange(0, j as int), id@),
        decreases rs@.len() - j,
    {
        let ghost next = all.subrange(0, j + 1 as int);
        assert(next.drop_last() =~= all.subrange(0, j as int));
        assert(next.last() == (rs@[j as int].0@, rs@[j as int].1@));
        if crate::text::same(rs[j].0.as_str(), id) {
            found = Some(crate::text::copy(&rs[j].1));
        } else {
            proof {
                lemma_last_result_skip(next, id@);
            }
        }
        j = j + 1;
    }
    assert(all.subrange(0, j as int) =~= all);
    found
}

proof fn lemma_last_result_skip(rs: Seq<(Seq<char>, Seq<char>)>, id: Seq<char>)
    requires
        rs.len() > 0,
        rs.last().0 != id,
    ensures
        last_result(rs, id) == last_result(rs.drop_last(), id),
{
}

/// The answer the log last carried for `agent`'s call `id`.
fn answer_for(lines: &Vec<WireLine>, agent: &str, id: &str) -> (r: Option<String>)
    ensures
        opt_view(r) == answer_of(lines_view(lines@), agent@, id@),
{
    let ghost all = lines_view(lines@);
    let mut found: Option<String> = None;
    let mut k: usize = 0;
    while k < lines.len()
        invariant
            k <= lines@.len(),
            all == lines_view(lines@),
            opt_view(found) == answer_of(all.subrange(0, k as int), agent@, id@),
        decreases lines@.len() - k,
    {
        let ghost next = all.subrange(0, k + 1 as int);
        assert(next.drop_last() =~= all.subrange(0, k as int));
        assert(next.last() == lines@[k as int]@);
        if let WireKind::Request { results } = &lines[k].kind {
            if crate::text::same(lines[k].agent.as_str(), agent) {
                let here = last_result_of(results, id);
                if here.is_some() {
                    found = here;
                }
            }
        }
        k = k + 1;
    }
    assert(all.subrange(0, k as int) =~= all);
    found
}

/// What the log says `agent` did.
pub fn seen_in(lines: &Vec<WireLine>, agent: &str) -> (r: Seen)
    ensures
        r@ == seen_of(lines_view(lines@), agent@),
{
    let ghost ls = lines_view(lines@);
    let mut usages: Vec<(u64, u64, u64)> = Vec::new();
    let mut calls: Vec<(String, String, String)> = Vec::new();
    let mut k: usize = 0;
    while k < lines.len()
        invariant
            k <= lines@.len(),
            ls == lines_view(lines@),
            usages@ == usages_of(ls.subrange(0, k as int), agent@),
            triples_view(calls@) == calls_of(ls.subrange(0, k as int), agent@),
        decreases lines@.len() - k,
    {
        let ghost next = ls.subrange(0, k + 1 as int);
        assert(next.drop_last() =~= ls.subrange(0, k as int));
        assert(next.last() == lines@[k as int]@);
        if let WireKind::Response { usage, calls: made } = &lines[k].kind {
            if crate::text::same(lines[k].agent.as_str(), agent) {
                usages.push(*usage);
                let ghost before = triples_view(calls@);
                let mut j: usize = 0;
                while j < made.len()
                    invariant
                        j <= made@.len(),
                        triples_view(calls@) == before + triples_view(made@).subrange(0, j as int),
                    decreases made@.len() - j,
                {
                    let ghost mid = triples_view(calls@);
                    let t = (crate::text::copy(&made[j].0), crate::text::copy(&made[j].1), crate::text::copy(&made[j].2));
                    calls.push(t);
                    assert(triples_view(calls@) =~= mid.push(triples_view(made@)[j as int]));
                    assert(triples_view(made@).subrange(0, j + 1 as int) =~= triples_view(made@).subrange(0, j as int).push(triples_view(made@)[j as int]));
                    j = j + 1;
                }
                assert(triples_view(made@).subrange(0, j as int) =~= triples_view(made@));
            }
        }
        k = k + 1;
    }
    assert(ls.subrange(0, k as int) =~= ls);
    let ghost cs = triples_view(calls@);
    let mut reads: Vec<ReadAttempt> = Vec::new();
    let mut forked = false;
    let mut j: usize = 0;
    while j < calls.len()
        invariant
            j <= calls@.len(),
            ls == lines_view(lines@),
            cs == triples_view(calls@),
            cs == calls_of(ls, agent@),
            reads@.map_values(|r: ReadAttempt| (r.path@, r.ok)) == reads_in(ls, agent@, cs.subrange(0, j as int)),
            forked == exists|q: int| 0 <= q < j && #[trigger] cs[q].1 == "task"@,
        decreases calls@.len() - j,
    {
        let ghost next = cs.subrange(0, j + 1 as int);
        assert(next.drop_last() =~= cs.subrange(0, j as int));
        assert(next.last() == cs[j as int]);
        let (id, name, arguments) = (&calls[j].0, &calls[j].1, &calls[j].2);
        if crate::text::same(name.as_str(), "task") {
            forked = true;
        }
        if crate::text::same(name.as_str(), "read_file") {
            let target = or_empty_text(crate::json::text_member(arguments.as_str(), "path"));
            let answer = answer_for(lines, agent, id.as_str());
            let ok = match &answer {
                Some(a) => !starts_with_error(a.as_str()),
                None => false,
            };
            let ghost before = reads@.map_values(|r: ReadAttempt| (r.path@, r.ok));
            reads.push(ReadAttempt { path: target, ok });
            assert(reads@.map_values(|r: ReadAttempt| (r.path@, r.ok)) =~= before.push((target@, ok)));
        }
        proof {
            if exists|q: int| 0 <= q < j + 1 && #[trigger] cs[q].1 == "task"@ {
                let q = choose|q: int| 0 <= q < j + 1 && #[trigger] cs[q].1 == "task"@;
                assert(q == j || (0 <= q < j && cs[q].1 == "task"@));
            }
        }
        j = j + 1;
    }
    assert(cs.subrange(0, j as int) =~= cs);
    Seen { reads, forked, usages }
}

/// Whether an answer begins `Error:`.
pub(crate) fn starts_with_error(a: &str) -> (r: bool)
    ensures
        r == (a@.len() >= 6 && a@.subrange(0, 6) == "Error:"@),
{
    proof {
        reveal_strlit("Error:");
    }
    let v = crate::text::chars_of(a);
    if v.len() < 6 {
        return false;
    }
    let r = v[0] == 'E' && v[1] == 'r' && v[2] == 'r' && v[3] == 'o' && v[4] == 'r' && v[5] == ':';
    let ghost w = a@.subrange(0, 6);
    assert(r ==> w =~= "Error:"@);
    assert(w == "Error:"@ ==> r) by {
        if w == "Error:"@ {
            assert(w[0] == 'E' && w[1] == 'r' && w[2] == 'r' && w[3] == 'o' && w[4] == 'r' && w[5] == ':');
        }
    }
    r
}

/// Replays a trial's wire log into what each agent that got a response
/// did: each such agent once, in the order of its first response.
pub fn read_wire(text: &str) -> (r: Vec<(String, Seen)>)
    ensures
        forall|j: int| 0 <= j < r@.len() ==> answered_agent(log_view(text@), #[trigger] r@[j].0@)
            && r@[j].1@ == seen_of(log_view(text@), r@[j].0@),
        forall|a: Seq<char>| answered_agent(log_view(text@), a) ==> exists|j: int| 0 <= j < r@.len() && #[trigger] r@[j].0@ == a,
        forall|i: int, j: int| 0 <= i < j < r@.len() ==> r@[i].0@ != r@[j].0@,
{
    let raw = lines_upto(text, text.unicode_len());
    let ghost texts = views(raw@);
    let mut lines: Vec<WireLine> = Vec::new();
    let mut i: usize = 0;
    while i < raw.len()
        invariant
            i <= raw@.len(),
            texts == views(raw@),
            lines_view(lines@) == texts.subrange(0, i as int).map_values(|l: Seq<char>| line_view(l)),
        decreases raw@.len() - i,
    {
        let ghost before = lines_view(lines@);
        let l = read_line(raw[i].as_str());
        lines.push(l);
        assert(lines_view(lines@) =~= before.push(line_view(texts[i as int])));
        assert(texts.subrange(0, i + 1 as int).map_values(|l: Seq<char>| line_view(l))
            =~= texts.subrange(0, i as int).map_values(|l: Seq<char>| line_view(l)).push(line_view(texts[i as int])));
        i = i + 1;
    }
    assert(texts.subrange(0, i as int) =~= texts);
    let ghost ls = lines_view(lines@);
    assert(ls =~= log_view(text@));
    let mut agents: Vec<String> = Vec::new();
    let mut k: usize = 0;
    while k < lines.len()
        invariant
            k <= lines@.len(),
            ls == lines_view(lines@),
            forall|j: int| 0 <= j < agents@.len() ==> answered_agent(ls, #[trigger] agents@[j]@),
            forall|q: int| 0 <= q < k && #[trigger] ls[q].kind is Response ==> views(agents@).contains(ls[q].agent),
            forall|x: int, y: int| 0 <= x < y < agents@.len() ==> agents@[x]@ != agents@[y]@,
        decreases lines@.len() - k,
    {
        assert(ls[k as int] == lines@[k as int]@);
        if let WireKind::Response { .. } = &lines[k].kind {
            let name = lines[k].agent.as_str();
            if holds_name(&agents, name) {
                assert(views(agents@).contains(ls[k as int].agent));
            } else {
                let ghost before = agents@;
                agents.push(crate::text::copy(&lines[k].agent));
                proof {
                    assert(views(agents@) =~= views(before).push(name@));
                    assert forall|q: int| 0 <= q < k && #[trigger] ls[q].kind is Response implies views(agents@).contains(ls[q].agent) by {
                        let w = choose|w: int| 0 <= w < views(before).len() && views(before)[w] == ls[q].agent;
                        assert(views(agents@)[w] == ls[q].agent);
                    }
                    assert(views(agents@)[before.len() as int] == name@);
                    assert(ls[k as int].agent == name@ && ls[k as int].kind is Response);
                    assert(answered_agent(ls, name@));
                    assert forall|j: int| 0 <= j < agents@.len() implies answered_agent(ls, #[trigger] agents@[j]@) by {
                        if j < before.len() {
                            assert(agents@[j] == before[j]);
                        }
                    }
                    assert forall|x: int, y: int| 0 <= x < y < agents@.len() implies agents@[x]@ != agents@[y]@ by {
                        if y == before.len() {
                            assert(views(before)[x] == before[x]@);
                            assert(agents@[x] == before[x]);
                        } else {
                            assert(agents@[x] == before[x]);
                            assert(agents@[y] == before[y]);
                        }
                    }
                }
            }
        }
        k = k + 1;
    }
    let mut out: Vec<(String, Seen)> = Vec::new();
    let mut m: usize = 0;
    while m < agents.len()
        invariant
            m <= agents@.len(),
            forall|j: int| 0 <= j < agents@.len() ==> answered_agent(ls, #[trigger] agents@[j]@),
            forall|x: int, y: int| 0 <= x < y < agents@.len() ==> agents@[x]@ != agents@[y]@,
            forall|q: int| 0 <= q < ls.len() && #[trigger] ls[q].kind is Response ==> views(agents@).contains(ls[q].agent),
            ls == lines_view(lines@),
            ls == log_view(text@),
            out@.len() == m,
            forall|j: int| #![trigger out@[j]] 0 <= j < m ==> out@[j].0@ == agents@[j]@ && out@[j].1@ == seen_of(ls, agents@[j]@),
        decreases agents@.len() - m,
    {
        let s = seen_in(&lines, agents[m].as_str());
        let ghost before = out@;
        let entry = (crate::text::copy(&agents[m]), s);
        assert(entry.0@ == agents@[m as int]@ && entry.1@ == seen_of(ls, agents@[m as int]@));
        out.push(entry);
        assert(out@[m as int] == entry);
        assert forall|j: int| #![trigger out@[j]] 0 <= j < m + 1 implies out@[j].0@ == agents@[j]@ && out@[j].1@ == seen_of(ls, agents@[j]@) by {
            if j < m {
                assert(out@[j] == before[j]);
            }
        }
        m = m + 1;
    }
    assert forall|j: int| 0 <= j < out@.len() implies answered_agent(log_view(text@), #[trigger] out@[j].0@)
        && out@[j].1@ == seen_of(log_view(text@), out@[j].0@) by {
        assert(out@[j].0@ == agents@[j]@);
        assert(answered_agent(ls, agents@[j]@));
    }
    assert forall|x: int, y: int| 0 <= x < y < out@.len() implies out@[x].0@ != out@[y].0@ by {
        assert(out@[x].0@ == agents@[x]@);
        assert(out@[y].0@ == agents@[y]@);
        assert(agents@[x]@ != agents@[y]@);
    }
    assert forall|a: Seq<char>| answered_agent(log_view(text@), a) implies exists|j: int| 0 <= j < out@.len() && #[trigger] out@[j].0@ == a by {
        let q = choose|q: int| 0 <= q < ls.len() && ls[q].agent == a && #[trigger] ls[q].kind is Response;
        assert(views(agents@).contains(ls[q].agent));
        let w = choose|w: int| 0 <= w < views(agents@).len() && views(agents@)[w] == a;
        assert(views(agents@)[w] == agents@[w]@);
        assert(out@[w].0@ == a);
    }
    out
}

/// Whether `name` is one of `names`.
fn holds_name(names: &Vec<String>, name: &str) -> (r: bool)
    ensures
        r == views(names@).contains(name@),
{
    let mut i: usize = 0;
    while i < names.len()
        invariant
            i <= names@.len(),
            forall|k: int| 0 <= k < i ==> views(names@)[k] != name@,
        decreases names@.len() - i,
    {
        if crate::text::same(names[i].as_str(), name) {
            assert(views(names@)[i as int] == name@);
            return true;
        }
        i = i + 1;
    }
    false
}

} // verus!
