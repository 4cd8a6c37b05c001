//! A run's bookkeeping: every agent's record, the tree they form, the first
//! out-of-band fault, the tokens each request used; and the decisions of an
//! agent's loop and of a request's retries.
use vstd::prelude::*;
use crate::forks::agent::{AgentState, Fault, FaultKind, Outcome, ToolCallRecord};
use crate::forks::wire::{Message, Retryable};
use crate::text::{cat, cat3, copy, owned, views};

verus! {

/// One agent of the run, as `summary.json` records it. What it cost in
/// dollars is kept by the caller.
pub struct AgentRecord {
    pub path: String,
    pub depth: usize,
    pub fresh: bool,
    pub state: AgentState,
    pub requests: usize,
    pub cached_in: u64,
    pub written_in: u64,
    pub uncached_in: u64,
    /// The first request only: for a forked child, how much of the parent's
    /// prefix was served from cache.
    pub first_cached_in: u64,
    pub first_uncached_in: u64,
    pub out: u64,
    pub millis: u128,
    pub tool_calls: Vec<ToolCallRecord>,
    pub children: Vec<String>,
    /// The `task` text the parent wrote for this agent.
    pub task: Option<String>,
    /// That text plus the framing under test.
    pub assignment: Option<String>,
    pub handoff: String,
    pub messages: Vec<Message>,
}

/// The agents of a run and the first fault raised in it.
pub struct Ledger {
    pub agents: Vec<AgentRecord>,
    pub fault: Option<String>,
    pub fault_kind: Option<FaultKind>,
}

/// The place of the agent registered last under `path`, if any.
pub open spec fn last_index(agents: Seq<AgentRecord>, path: Seq<char>) -> Option<int>
    decreases agents.len(),
{
    if agents.len() == 0 {
        None
    } else if agents.last().path@ == path {
        Some(agents.len() - 1)
    } else {
        last_index(agents.drop_last(), path)
    }
}

proof fn lemma_last_index(agents: Seq<AgentRecord>, path: Seq<char>)
    ensures
        last_index(agents, path) matches Some(i) ==> 0 <= i < agents.len() && agents[i].path@ == path,
    decreases agents.len(),
{
    if agents.len() > 0 {
        lemma_last_index(agents.drop_last(), path);
    }
}

/// Token counts one answered request reports.
#[derive(Clone, Copy, Debug)]
pub struct TokenUsage {
    pub prompt_tokens: u64,
    pub completion_tokens: u64,
    pub cached_tokens: u64,
    pub cache_write_tokens: u64,
}

pub open spec fn uncached(u: TokenUsage) -> int {
    if u.prompt_tokens >= u.cached_tokens { u.prompt_tokens - u.cached_tokens } else { 0 }
}

/// The record as it stands after one more answered request.
pub open spec fn absorbed(before: AgentRecord, after: AgentRecord, u: TokenUsage) -> bool {
    &&& after.requests == before.requests + 1
    &&& after.cached_in == before.cached_in + u.cached_tokens
    &&& after.written_in == before.written_in + u.cache_write_tokens
    &&& after.uncached_in == before.uncached_in + uncached(u)
    &&& after.out == before.out + u.completion_tokens
    &&& before.requests == 0 ==> after.first_cached_in == u.cached_tokens && after.first_uncached_in == uncached(u)
    &&& before.requests != 0 ==> after.first_cached_in == before.first_cached_in && after.first_uncached_in == before.first_uncached_in
    &&& after.path == before.path && after.depth == before.depth && after.state == before.state
    &&& after.children == before.children && after.handoff == before.handoff
}

impl Ledger {
    pub fn new() -> (r: Ledger)
        ensures
            r.agents@.len() == 0,
            r.fault is None,
            r.fault_kind is None,
    {
        Ledger { agents: Vec::new(), fault: None, fault_kind: None }
    }

    /// The agent registered last under `path`.
    pub fn index_of(&self, path: &str) -> (r: Option<usize>)
        ensures
            match r {
                Some(x) => last_index(self.agents@, path@) == Some(x as int),
                None => last_index(self.agents@, path@) is None,
            },
    {
        let mut i = self.agents.len();
        assert(self.agents@.subrange(0, i as int) =~= self.agents@);
        while i > 0
            invariant
                i <= self.agents@.len(),
                last_index(self.agents@, path@) == last_index(self.agents@.subrange(0, i as int), path@),
            decreases i,
        {
            let ghost sub = self.agents@.subrange(0, i as int);
            assert(sub.drop_last() =~= self.agents@.subrange(0, i - 1));
            if crate::text::same(self.agents[i - 1].path.as_str(), path) {
                assert(last_index(sub, path@) == Some(i - 1));
                return Some(i - 1);
            }
            i = i - 1;
        }
        None
    }

    /// Books a new agent, waiting, under its parent.
    pub fn register(&mut self, path: &str, depth: usize, fresh: bool, task: Option<String>, parent: Option<&str>) -> (r: usize)
        requires
            parent matches Some(p) ==> last_index(old(self).agents@, p@) is Some,
        ensures
            r == old(self).agents@.len(),
            final(self).agents@.len() == old(self).agents@.len() + 1,
            final(self).agents@[r as int].path@ == path@,
            final(self).agents@[r as int].depth == depth,
            final(self).agents@[r as int].fresh == fresh,
            final(self).agents@[r as int].state is Waiting,
            final(self).agents@[r as int].requests == 0,
            final(self).agents@[r as int].task == task,
            final(self).agents@[r as int].children@.len() == 0,
            ({
                let a = final(self).agents@[r as int];
                &&& a.cached_in == 0 && a.written_in == 0 && a.uncached_in == 0 && a.out == 0
                &&& a.first_cached_in == 0 && a.first_uncached_in == 0 && a.millis == 0
                &&& a.tool_calls@.len() == 0 && a.assignment is None && a.handoff@.len() == 0
                &&& a.messages@.len() == 0
            }),
            final(self).fault == old(self).fault,
            final(self).fault_kind == old(self).fault_kind,
            forall|i: int| 0 <= i < old(self).agents@.len() ==> {
                &&& final(self).agents@[i] == (AgentRecord { children: final(self).agents@[i].children, ..old(self).agents@[i] })
                &&& (match parent {
                    Some(p) if last_index(old(self).agents@, p@) == Some(i) =>
                        views(final(self).agents@[i].children@) == views(old(self).agents@[i].children@).push(path@),
                    _ => final(self).agents@[i].children == old(self).agents@[i].children,
                })
            },
    {
        let parent_index = match parent {
            Some(p) => self.index_of(p),
            None => None,
        };
        let index = self.agents.len();
        self.agents.push(AgentRecord {
            path: owned(path),
            depth,
            fresh,
            state: AgentState::Waiting,
            requests: 0,
            cached_in: 0,
            written_in: 0,
            uncached_in: 0,
            first_cached_in: 0,
            first_uncached_in: 0,
            out: 0,
            millis: 0,
            tool_calls: Vec::new(),
            children: Vec::new(),
            task,
            assignment: None,
            handoff: String::new(),
            messages: Vec::new(),
        });
        if let Some(k) = parent_index {
            proof {
                lemma_last_index(old(self).agents@, parent->0@);
            }
            let ghost before = self.agents@;
            let mut record = self.agents.remove(k);
            record.children.push(owned(path));
            self.agents.insert(k, record);
            assert(forall|i: int| 0 <= i < before.len() && i != k ==> self.agents@[i] == before[i]);
        }
        proof {
            reveal_strlit("");
        }
        index
    }

    /// The first fault raised, if any.
    pub fn fault(&self) -> (r: Option<String>)
        ensures
            crate::forks::wire::opt_view(r) == crate::forks::wire::opt_view(self.fault),
    {
        crate::forks::wire::copy_opt(&self.fault)
    }

    pub fn fault_kind(&self) -> (r: Option<FaultKind>)
        ensures
            r == self.fault_kind,
    {
        self.fault_kind
    }

    /// An out-of-band failure stops the whole run. The first one raised is
    /// the run's fault; later ones leave it as it is. Returns the line the
    /// face shows for it.
    pub fn raise_fault(&mut self, path: &str, fault: &Fault) -> (line: String)
        ensures
            old(self).fault is None ==> (final(self).fault matches Some(f) && f@ == path@ + ": "@ + fault.reason@
                && final(self).fault_kind == Some(fault.kind)),
            old(self).fault is Some ==> final(self).fault == old(self).fault && final(self).fault_kind == old(self).fault_kind,
            final(self).agents == old(self).agents,
            line@ == crate::text::padded(path@, 28) + " FAULT: "@ + fault.reason@,
    {
        if self.fault.is_none() {
            self.fault = Some(cat3(path, ": ", fault.reason.as_str()));
            self.fault_kind = Some(fault.kind);
        }
        let head = crate::text::pad_right(path, 28);
        cat3(head.as_str(), " FAULT: ", fault.reason.as_str())
    }

    /// Sets an agent's state.
    pub fn note_state(&mut self, index: usize, state: AgentState)
        requires
            index < old(self).agents@.len(),
        ensures
            final(self).agents@.len() == old(self).agents@.len(),
            final(self).agents@[index as int] == (AgentRecord { state, ..old(self).agents@[index as int] }),
            forall|i: int| 0 <= i < old(self).agents@.len() && i != index ==> final(self).agents@[i] == old(self).agents@[i],
            final(self).fault == old(self).fault,
            final(self).fault_kind == old(self).fault_kind,
    {
        let mut record = self.agents.remove(index);
        record.state = state;
        self.agents.insert(index, record);
    }

    /// A panicked agent is a fault like any other, and still ends with a
    /// recorded outcome. Returns the face's line for the fault.
    pub fn record_panic(&mut self, path: &str, reason: &str) -> (line: String)
        ensures
            old(self).fault is None ==> (final(self).fault matches Some(f) && f@ == path@ + ": "@ + ("agent task panicked: "@ + reason@)
                && final(self).fault_kind == Some(FaultKind::Panic)),
            old(self).fault is Some ==> final(self).fault == old(self).fault && final(self).fault_kind == old(self).fault_kind,
            final(self).agents@.len() == old(self).agents@.len(),
            match last_index(old(self).agents@, path@) {
                Some(i) => (final(self).agents@[i].state matches AgentState::Ended(Outcome::Panicked(why)) && why@ == reason@)
                    && final(self).agents@[i] == (AgentRecord { state: final(self).agents@[i].state, ..old(self).agents@[i] })
                    && forall|j: int| 0 <= j < old(self).agents@.len() && j != i ==> final(self).agents@[j] == old(self).agents@[j],
                None => final(self).agents == old(self).agents,
            },
    {
        let fault = Fault { kind: FaultKind::Panic, reason: cat("agent task panicked: ", reason) };
        let line = self.raise_fault(path, &fault);
        assert(self.agents@ == old(self).agents@);
        proof {
            lemma_last_index(self.agents@, path@);
        }
        if let Some(index) = self.index_of(path) {
            let why = owned(reason);
            self.note_state(index, AgentState::Ended(Outcome::Panicked(why)));
            assert(self.agents@[index as int].state == AgentState::Ended(Outcome::Panicked(why)));
        }
        line
    }

    /// Books one answered request against an agent.
    pub fn absorb(&mut self, index: usize, usage: TokenUsage)
        requires
            index < old(self).agents@.len(),
            old(self).agents@[index as int].requests < usize::MAX,
            old(self).agents@[index as int].cached_in + usage.cached_tokens <= u64::MAX,
            old(self).agents@[index as int].written_in + usage.cache_write_tokens <= u64::MAX,
            old(self).agents@[index as int].uncached_in + uncached(usage) <= u64::MAX,
            old(self).agents@[index as int].out + usage.completion_tokens <= u64::MAX,
        ensures
            final(self).agents@.len() == old(self).agents@.len(),
            absorbed(old(self).agents@[index as int], final(self).agents@[index as int], usage),
            forall|i: int| 0 <= i < old(self).agents@.len() && i != index ==> final(self).agents@[i] == old(self).agents@[i],
            final(self).fault == old(self).fault,
    {
        let uncached_now = usage.prompt_tokens.saturating_sub(usage.cached_tokens);
        let mut record = self.agents.remove(index);
        if record.requests == 0 {
            record.first_cached_in = usage.cached_tokens;
            record.first_uncached_in = uncached_now;
        }
        record.requests = record.requests + 1;
        record.cached_in = record.cached_in + usage.cached_tokens;
        record.written_in = record.written_in + usage.cache_write_tokens;
        record.uncached_in = record.uncached_in + uncached_now;
        record.out = record.out + usage.completion_tokens;
        self.agents.insert(index, record);
    }

    /// Records what each call of a turn was answered with.
    pub fn note_tool_calls(&mut self, index: usize, calls: &Vec<crate::forks::wire::ToolCall>, results: &Vec<Option<Message>>)
        requires
            index < old(self).agents@.len(),
            results@.len() == calls@.len(),
        ensures
            final(self).agents@.len() == old(self).agents@.len(),
            final(self).agents@[index as int].tool_calls@.len() == old(self).agents@[index as int].tool_calls@.len() + calls@.len(),
            final(self).agents@[index as int].tool_calls@.subrange(0, old(self).agents@[index as int].tool_calls@.len() as int)
                == old(self).agents@[index as int].tool_calls@,
            final(self).agents@[index as int]
                == (AgentRecord { tool_calls: final(self).agents@[index as int].tool_calls, ..old(self).agents@[index as int] }),
            forall|k: int| 0 <= k < calls@.len() ==> {
                let rec = #[trigger] final(self).agents@[index as int].tool_calls@[old(self).agents@[index as int].tool_calls@.len() + k];
                &&& rec.name@ == calls@[k].function.name@
                &&& rec.arguments@ == calls@[k].function.arguments@
                &&& crate::forks::wire::opt_view(rec.result) == match results@[k] {
                    Some(m) => crate::forks::wire::opt_view(m.content),
                    None => None,
                }
            },
            forall|i: int| 0 <= i < old(self).agents@.len() && i != index ==> final(self).agents@[i] == old(self).agents@[i],
    {
        let mut record = self.agents.remove(index);
        let ghost base = record.tool_calls@;
        let ghost original = record;
        let mut k: usize = 0;
        while k < calls.len()
            invariant
                record == (AgentRecord { tool_calls: record.tool_calls, ..original }),
                results@.len() == calls@.len(),
                k <= calls@.len(),
                record.tool_calls@.len() == base.len() + k,
                record.tool_calls@.subrange(0, base.len() as int) == base,
                forall|j: int| 0 <= j < k ==> {
                    let rec = #[trigger] record.tool_calls@[base.len() + j];
                    &&& rec.name@ == calls@[j].function.name@
                    &&& rec.arguments@ == calls@[j].function.arguments@
                    &&& crate::forks::wire::opt_view(rec.result) == match results@[j] {
                        Some(m) => crate::forks::wire::opt_view(m.content),
                        None => None,
                    }
                },
            decreases calls@.len() - k,
        {
            let result = match &results[k] {
                Some(m) => crate::forks::wire::copy_opt(&m.content),
                None => None,
            };
            record.tool_calls.push(ToolCallRecord {
                name: copy(&calls[k].function.name),
                arguments: copy(&calls[k].function.arguments),
                result,
            });
            k = k + 1;
        }
        self.agents.insert(index, record);
    }

    /// Gives the scope's result to the most recent `task` call that has none.
    pub fn note_scope_result(&mut self, index: usize, text: &str)
        requires
            index < old(self).agents@.len(),
        ensures
            final(self).agents@.len() == old(self).agents@.len(),
            final(self).agents@[index as int].tool_calls@.len() == old(self).agents@[index as int].tool_calls@.len(),
            final(self).agents@[index as int]
                == (AgentRecord { tool_calls: final(self).agents@[index as int].tool_calls, ..old(self).agents@[index as int] }),
            forall|i: int| 0 <= i < old(self).agents@.len() && i != index ==> final(self).agents@[i] == old(self).agents@[i],
            ({
                let before = old(self).agents@[index as int].tool_calls@;
                let after = final(self).agents@[index as int].tool_calls@;
                match last_open_task(before, before.len() as int) {
                    Some(k) => after[k].result matches Some(t) && t@ == text@ && forall|j: int| 0 <= j < before.len() && j != k ==> after[j] == before[j],
                    None => after == before,
                }
            }),
    {
        let mut record = self.agents.remove(index);
        let ghost before = record.tool_calls@;
        let ghost rest = self.agents@;
        let ghost original = record;
        assert(original == old(self).agents@[index as int]);
        let mut k = record.tool_calls.len();
        while k > 0
            invariant
                k <= before.len(),
                record.tool_calls@ == before,
                record == original,
                original == old(self).agents@[index as int],
                before == original.tool_calls@,
                self.agents@ == rest,
                rest == old(self).agents@.remove(index as int),
                index < old(self).agents@.len(),
                last_open_task(before, before.len() as int) == last_open_task(before, k as int),
            decreases k,
        {
            let call = &record.tool_calls[k - 1];
            if crate::text::same(call.name.as_str(), "task") && call.result.is_none() {
                assert(last_open_task(before, k as int) == Some(k - 1));
                let mut entry = record.tool_calls.remove(k - 1);
                entry.result = Some(owned(text));
                record.tool_calls.insert(k - 1, entry);
                assert(record.tool_calls@ =~= before.update(k - 1, entry));
                let ghost updated = record;
                self.agents.insert(index, record);
                assert(self.agents@ =~= old(self).agents@.update(index as int, updated));
                assert(self.agents@[index as int] == updated);
                assert(before == old(self).agents@[index as int].tool_calls@);
                assert(updated.tool_calls@.len() == before.len());
                return;
            }
            k = k - 1;
        }
        self.agents.insert(index, record);
        assert(self.agents@ =~= old(self).agents@);
    }
}

/// The last `task` record before place `n` that has no result yet.
pub open spec fn last_open_task(calls: Seq<ToolCallRecord>, n: int) -> Option<int>
    decreases n,
{
    if n <= 0 {
        None
    } else if calls[n - 1].name@ == "task"@ && calls[n - 1].result is None {
        Some(n - 1)
    } else {
        last_open_task(calls, n - 1)
    }
}

/// Token totals over the agents of a run.
#[derive(Clone, Copy, Debug, Default)]
pub struct Tally {
    pub requests: usize,
    pub cached_in: u64,
    pub written_in: u64,
    pub uncached_in: u64,
    pub out: u64,
}

impl Tally {
    pub fn add(&mut self, agent: &AgentRecord)
        requires
            old(self).requests + agent.requests <= usize::MAX,
            old(self).cached_in + agent.cached_in <= u64::MAX,
            old(self).written_in + agent.written_in <= u64::MAX,
            old(self).uncached_in + agent.uncached_in <= u64::MAX,
            old(self).out + agent.out <= u64::MAX,
        ensures
            final(self).requests == old(self).requests + agent.requests,
            final(self).cached_in == old(self).cached_in + agent.cached_in,
            final(self).written_in == old(self).written_in + agent.written_in,
            final(self).uncached_in == old(self).uncached_in + agent.uncached_in,
            final(self).out == old(self).out + agent.out,
    {
        self.requests = self.requests + agent.requests;
        self.cached_in = self.cached_in + agent.cached_in;
        self.written_in = self.written_in + agent.written_in;
        self.uncached_in = self.uncached_in + agent.uncached_in;
        self.out = self.out + agent.out;
    }
}

/// What an agent does at the top of a turn.
pub enum TurnGate {
    /// The run was cancelled: the agent ends cancelled.
    Cancelled,
    /// Past its turn limit: a runaway fault with this reason.
    Runaway(String),
    /// Send the next request.
    Proceed,
}

/// The check at the top of each turn, `turns` counting this one.
pub fn turn_gate(cancelled: bool, turns: usize, max_turns: usize) -> (r: TurnGate)
    ensures
        cancelled ==> r is Cancelled,
        !cancelled && turns > max_turns ==> (r matches TurnGate::Runaway(why)
            && why@ == "agent ran past "@ + crate::text::decimal(max_turns as nat) + " turns"@),
        !cancelled && turns <= max_turns ==> r is Proceed,
{
    if cancelled {
        TurnGate::Cancelled
    } else if turns > max_turns {
        let mut why = owned("agent ran past ");
        crate::text::push_decimal(&mut why, max_turns as u64);
        why.append(" turns");
        TurnGate::Runaway(why)
    } else {
        TurnGate::Proceed
    }
}

/// The handoff after a reply that calls tools: its text when there is any
/// beyond whitespace, else the handoff so far.
pub fn next_handoff(text: &str, handoff: String) -> (r: String)
    ensures
        crate::text::trimmed(text@).len() != 0 ==> r@ == text@,
        crate::text::trimmed(text@).len() == 0 ==> r@ == handoff@,
{
    let t = crate::text::trim(text);
    if t.unicode_len() != 0 {
        owned(text)
    } else {
        handoff
    }
}

/// The retry schedule of one request, in nanoseconds. An ordinary transient
/// failure gets a few quick attempts with a backoff that triples; a rate
/// limit is waited out against the patience, starting at a twenty-fourth of
/// it and doubling, with the provider's `Retry-After` taking precedence.
pub struct RetrySchedule {
    /// Attempts sent so far, rate-limited ones included.
    pub attempt: usize,
    /// Attempts that failed other than by a rate limit: the ones that count
    /// against `ATTEMPTS`.
    pub failed: usize,
    pub backoff: u128,
    pub rate_backoff: u128,
    pub waited_out: u128,
    pub patience: u128,
}

/// HTTP attempts per request for an ordinary transient failure. A rate
/// limit is not counted against this: it is waited out against the
/// patience instead.
pub const ATTEMPTS: usize = 4;

/// The largest duration `std::time::Duration` holds, in nanoseconds.
pub open spec fn duration_max() -> int {
    18446744073709551615int * 1000000000int + 999999999int
}

/// What to do after a transient failure.
pub enum RetryStep {
    /// Wait this long, then attempt again.
    Wait(u128),
    /// Rate limited for longer than the patience allows.
    RateLimitedTooLong,
    /// Out of attempts; the reason to give.
    OutOfAttempts(String),
}

impl RetrySchedule {
    pub fn new(patience: u128) -> (r: RetrySchedule)
        ensures
            r.attempt == 0,
            r.failed == 0,
            r.backoff == 500_000_000,
            r.rate_backoff == patience / 24,
            r.waited_out == 0,
            r.patience == patience,
    {
        RetrySchedule { attempt: 0, failed: 0, backoff: 500_000_000, rate_backoff: patience / 24, waited_out: 0, patience }
    }

    /// Counts the next attempt.
    pub fn begin_attempt(&mut self)
        requires
            old(self).attempt < usize::MAX,
        ensures
            final(self).attempt == old(self).attempt + 1,
            final(self).failed == old(self).failed,
            final(self).backoff == old(self).backoff,
            final(self).rate_backoff == old(self).rate_backoff,
            final(self).waited_out == old(self).waited_out,
            final(self).patience == old(self).patience,
    {
        self.attempt = self.attempt + 1;
    }

    /// The decision after a transient failure of the current attempt. A
    /// rate limit is waited out against the patience and does not count as
    /// a failed attempt; any other failure does, and the fourth such ends
    /// the request.
    pub fn after_failure(&mut self, again: &Retryable) -> (r: RetryStep)
        requires
            old(self).failed < usize::MAX,
            old(self).waited_out <= duration_max(),
            old(self).rate_backoff * 2 <= duration_max(),
            old(self).backoff * 3 <= duration_max(),
            again.retry_after matches Some(w) ==> w <= duration_max(),
        ensures
            ({
                let delay = match again.retry_after {
                    Some(w) => w,
                    None => if again.rate_limited { old(self).rate_backoff } else { old(self).backoff },
                };
                if again.rate_limited {
                    if old(self).waited_out + delay > old(self).patience {
                        r is RateLimitedTooLong && *final(self) == *old(self)
                    } else {
                        r == RetryStep::Wait(delay as u128) && final(self).waited_out == old(self).waited_out + delay
                            && final(self).rate_backoff == old(self).rate_backoff * 2
                            && final(self).backoff == old(self).backoff && final(self).attempt == old(self).attempt
                            && final(self).failed == old(self).failed && final(self).patience == old(self).patience
                    }
                } else if old(self).failed + 1 >= ATTEMPTS {
                    (r matches RetryStep::OutOfAttempts(why) && why@ == crate::text::decimal((old(self).failed + 1) as nat)
                        + " attempts failed; last: "@ + again.reason@) && *final(self) == *old(self)
                } else {
                    r == RetryStep::Wait(delay as u128) && final(self).backoff == old(self).backoff * 3
                        && final(self).failed == old(self).failed + 1
                        && final(self).rate_backoff == old(self).rate_backoff && final(self).waited_out == old(self).waited_out
                        && final(self).attempt == old(self).attempt && final(self).patience == old(self).patience
                }
            }),
    {
        let delay = match again.retry_after {
            Some(w) => w,
            None => if again.rate_limited { self.rate_backoff } else { self.backoff },
        };
        if again.rate_limited {
            if self.waited_out + delay > self.patience {
                return RetryStep::RateLimitedTooLong;
            }
            self.waited_out = self.waited_out + delay;
            self.rate_backoff = self.rate_backoff * 2;
            RetryStep::Wait(delay)
        } else {
            if self.failed + 1 >= ATTEMPTS {
                let mut why = crate::text::decimal_string((self.failed + 1) as u64);
                why.append(" attempts failed; last: ");
                why.append(again.reason.as_str());
                return RetryStep::OutOfAttempts(why);
            }
            self.backoff = self.backoff * 3;
            self.failed = self.failed + 1;
            RetryStep::Wait(delay)
        }
    }
}

/// One message of an agent's context, as its record file shows it.
pub open spec fn context_message(m: crate::forks::wire::MessageView) -> Seq<char> {
    "\n## "@ + m.role + "\n\n"@ + (match m.tool_call_id {
        Some(id) => "(answering "@ + id + ")\n\n"@,
        None => Seq::empty(),
    }) + (match m.content {
        Some(c) => if c.len() > 0 { c + "\n"@ } else { Seq::empty() },
        None => Seq::empty(),
    }) + (match m.tool_calls {
        Some(cs) => context_calls(cs),
        None => Seq::empty(),
    })
}

/// The calls of a message, one line each.
pub open spec fn context_calls(cs: Seq<crate::forks::wire::ToolCallView>) -> Seq<char>
    decreases cs.len(),
{
    if cs.len() == 0 {
        Seq::empty()
    } else {
        context_calls(cs.drop_last()) + "\n-> "@ + cs.last().id + " "@ + cs.last().name + " "@ + cs.last().arguments + "\n"@
    }
}

pub open spec fn context_messages(ms: Seq<crate::forks::wire::MessageView>) -> Seq<char>
    decreases ms.len(),
{
    if ms.len() == 0 {
        Seq::empty()
    } else {
        context_messages(ms.drop_last()) + context_message(ms.last())
    }
}

/// The heading of an agent's context file.
pub open spec fn context_heading(path: Seq<char>, fresh: bool, state: Seq<char>, requests: nat, cost: Seq<char>) -> Seq<char> {
    "# "@ + path + "\n\n"@ + (if fresh { "fresh"@ } else { "fork"@ }) + " · "@ + state + " · "@
        + crate::text::decimal(requests) + " requests · "@ + cost + "\n"@
}

fn push_context_calls(out: &mut String, cs: &Vec<crate::forks::wire::ToolCall>)
    ensures
        final(out)@ == old(out)@ + context_calls(crate::forks::wire::calls_view(cs@)),
{
    let ghost mid = out@;
    let ghost cv = crate::forks::wire::calls_view(cs@);
    let mut i: usize = 0;
    while i < cs.len()
        invariant
            i <= cs@.len(),
            cv == crate::forks::wire::calls_view(cs@),
            out@ == mid + context_calls(cv.subrange(0, i as int)),
        decreases cs@.len() - i,
    {
        assert(cv.subrange(0, i + 1 as int).drop_last() =~= cv.subrange(0, i as int));
        assert(cv.subrange(0, i + 1 as int).last() == cs@[i as int]@);
        out.append("\n-> ");
        out.append(cs[i].id.as_str());
        out.append(" ");
        out.append(cs[i].function.name.as_str());
        out.append(" ");
        out.append(cs[i].function.arguments.as_str());
        out.append("\n");
        i = i + 1;
    }
    assert(cv.subrange(0, i as int) =~= cv);
}

fn push_context_message(out: &mut String, m: &Message)
    ensures
        final(out)@ == old(out)@ + context_message(m@),
{
    let ghost start = out@;
    out.append("\n## ");
    out.append(m.role.as_str());
    out.append("\n\n");
    let ghost a = out@;
    if let Some(id) = &m.tool_call_id {
        out.append("(answering ");
        out.append(id.as_str());
        out.append(")\n\n");
    }
    let ghost b = out@;
    if let Some(c) = &m.content {
        if c.as_str().unicode_len() > 0 {
            out.append(c.as_str());
            out.append("\n");
        }
    }
    let ghost mid = out@;
    if let Some(cs) = &m.tool_calls {
        push_context_calls(out, cs);
    }
    assert(a =~= start + "\n## "@ + m@.role + "\n\n"@);
    assert(out@ =~= start + context_message(m@));
}

/// An agent's context as its record file shows it; `cost` is how its
/// spend prints.
pub fn render_context(record: &AgentRecord, cost: &str) -> (r: String)
    ensures
        r@ == context_heading(record.path@, record.fresh, crate::forks::agent::state_short(record.state),
            record.requests as nat, cost@) + context_messages(crate::forks::wire::messages_view(record.messages@)),
{
    let mut text = cat3("# ", record.path.as_str(), "\n\n");
    text.append(if record.fresh { "fresh" } else { "fork" });
    text.append(" · ");
    text.append(record.state.short());
    text.append(" · ");
    crate::text::push_decimal(&mut text, record.requests as u64);
    text.append(" requests · ");
    text.append(cost);
    text.append("\n");
    let ghost head = text@;
    let ghost ms = crate::forks::wire::messages_view(record.messages@);
    let mut i: usize = 0;
    while i < record.messages.len()
        invariant
            i <= record.messages@.len(),
            ms == crate::forks::wire::messages_view(record.messages@),
            text@ == head + context_messages(ms.subrange(0, i as int)),
        decreases record.messages@.len() - i,
    {
        assert(ms.subrange(0, i + 1 as int).drop_last() =~= ms.subrange(0, i as int));
        assert(ms.subrange(0, i + 1 as int).last() == record.messages@[i as int]@);
        push_context_message(&mut text, &record.messages[i]);
        i = i + 1;
    }
    assert(ms.subrange(0, i as int) =~= ms);
    text
}

} // verus!
