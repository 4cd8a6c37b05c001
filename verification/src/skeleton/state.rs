//! The session state: a journal of records, each applied in sequence order,
//! and the model view projected from it. The journal is the source of
//! truth; replaying it rebuilds the state it was written from.
use vstd::prelude::*;
use crate::skeleton::protocol::{
    calls_view, copy_opt, opt_view, wires_view, AssistantMessage, CallView, Contribution, Outcome,
    ToolCall, WireMessage, WireView,
};
use crate::text::{cat, cat3, copy, owned, views};

verus! {

pub enum TranscriptEntry {
    UserMessage { text: String, arrived_during_exchange: bool },
    UserActivity { path: String, bytes: usize, head: String, arrived_during_exchange: bool },
    TurnEnd,
    CancelRequest,
    RebuildRequest,
    Quit,
    RequestAttempt { request_id: u64, model: String },
    RequestOutcome { request_id: u64, outcome: Outcome<AssistantMessage> },
    ToolStarted { call: ToolCall },
    ToolOutcome { call_id: String, outcome: Outcome<String> },
    TurnOutcome { outcome: Outcome<()> },
    SessionClosed,
}

pub enum StateEntry {
    SystemPrompt { text: String },
    Contribution { name: String, contribution: Contribution },
    Transcript { item: TranscriptEntry },
}

/// One line of the journal.
pub struct JournalRecord {
    pub seq: u64,
    pub ts_ms: u128,
    pub entry: StateEntry,
}

pub struct TranscriptRecord {
    pub seq: u64,
    pub item: TranscriptEntry,
}

/// What the journal has said so far.
pub struct SessionState {
    pub next_seq: u64,
    pub system_prompt: String,
    pub contributions: Vec<(String, Contribution)>,
    pub transcript: Vec<TranscriptRecord>,
    /// Tool calls answered by the provider and not yet resolved.
    pub open_call_ids: Vec<String>,
}

#[verifier::ext_equal]
pub struct SessionView {
    pub next_seq: nat,
    pub system_prompt: Seq<char>,
    pub contributions: Seq<(String, Contribution)>,
    pub transcript: Seq<TranscriptRecord>,
    pub open: Seq<Seq<char>>,
}

impl View for SessionState {
    type V = SessionView;

    open spec fn view(&self) -> SessionView {
        SessionView {
            next_seq: self.next_seq as nat,
            system_prompt: self.system_prompt@,
            contributions: self.contributions@,
            transcript: self.transcript@,
            open: views(self.open_call_ids@),
        }
    }
}

pub open spec fn call_ids(calls: Seq<ToolCall>) -> Seq<Seq<char>> {
    calls.map_values(|c: ToolCall| c.id@)
}

pub open spec fn without(ids: Seq<Seq<char>>, id: Seq<char>) -> Seq<Seq<char>> {
    ids.filter(|x: Seq<char>| x != id)
}

/// The open tool calls after one more transcript item.
pub open spec fn open_after(open: Seq<Seq<char>>, item: TranscriptEntry) -> Seq<Seq<char>> {
    match item {
        TranscriptEntry::RequestOutcome { outcome: Outcome::Completed { value }, .. } => open + call_ids(value.tool_calls@),
        TranscriptEntry::ToolOutcome { call_id, .. } => without(open, call_id@),
        TranscriptEntry::TurnOutcome { .. } => Seq::empty(),
        _ => open,
    }
}

/// The state after one entry, stamped `seq`.
pub open spec fn applied(s: SessionView, seq: u64, entry: StateEntry) -> SessionView {
    match entry {
        StateEntry::SystemPrompt { text } => SessionView { system_prompt: text@, ..s },
        StateEntry::Contribution { name, contribution } => SessionView {
            contributions: s.contributions.push((name, contribution)),
            ..s
        },
        StateEntry::Transcript { item } => SessionView {
            open: open_after(s.open, item),
            transcript: s.transcript.push(TranscriptRecord { seq, item }),
            ..s
        },
    }
}

/// The state after one journal record.
pub open spec fn stepped(s: SessionView, r: JournalRecord) -> SessionView {
    SessionView { next_seq: s.next_seq + 1, ..applied(s, r.seq, r.entry) }
}

/// Whether the transcript's records are numbered in increasing order, each
/// below the number the next record will get.
pub open spec fn well_numbered(s: SessionView) -> bool {
    &&& forall|i: int, j: int| 0 <= i < j < s.transcript.len() ==> (#[trigger] s.transcript[i]).seq < (#[trigger] s.transcript[j]).seq
    &&& forall|i: int| 0 <= i < s.transcript.len() ==> (#[trigger] s.transcript[i]).seq < s.next_seq
}

pub open spec fn empty_session() -> SessionView {
    SessionView {
        next_seq: 0,
        system_prompt: Seq::empty(),
        contributions: Seq::empty(),
        transcript: Seq::empty(),
        open: Seq::empty(),
    }
}

/// The state a journal describes, record by record.
pub open spec fn journal_state(records: Seq<JournalRecord>) -> SessionView
    decreases records.len(),
{
    if records.len() == 0 {
        empty_session()
    } else {
        stepped(journal_state(records.drop_last()), records.last())
    }
}

/// The first place whose record is not numbered by its place.
pub open spec fn first_misnumbered(records: Seq<JournalRecord>, n: nat) -> Option<int>
    decreases n,
{
    if n == 0 {
        None
    } else {
        match first_misnumbered(records, (n - 1) as nat) {
            Some(i) => Some(i),
            None => if records[n - 1].seq != (n - 1) as u64 { Some(n - 1) } else { None },
        }
    }
}

pub open spec fn seq_error(path: Seq<char>, found: u64, expected: nat) -> Seq<char> {
    "session journal "@ + path + " has sequence "@ + crate::text::decimal(found as nat) + " where "@
        + crate::text::decimal(expected) + " was expected"@
}

impl SessionState {
    /// A session with no journal yet.
    pub fn empty() -> (r: SessionState)
        ensures
            r@.next_seq == 0,
            r@ == empty_session(),
            well_numbered(r@),
    {
        let r = SessionState {
            next_seq: 0,
            system_prompt: String::new(),
            contributions: Vec::new(),
            transcript: Vec::new(),
            open_call_ids: Vec::new(),
        };
        assert(r@.open =~= Seq::<Seq<char>>::empty());
        assert(r@.system_prompt =~= Seq::<char>::empty());
        assert(r@.contributions =~= Seq::<(String, Contribution)>::empty());
        assert(r@.transcript =~= Seq::<TranscriptRecord>::empty());
        r
    }

    fn apply(&mut self, seq: u64, entry: StateEntry)
        ensures
            final(self)@ == applied(old(self)@, seq, entry),
    {
        match entry {
            StateEntry::SystemPrompt { text } => {
                self.system_prompt = text;
            },
            StateEntry::Contribution { name, contribution } => {
                self.contributions.push((name, contribution));
            },
            StateEntry::Transcript { item } => {
                match &item {
                    TranscriptEntry::RequestOutcome { outcome: Outcome::Completed { value }, .. } => {
                        extend_ids(&mut self.open_call_ids, &value.tool_calls);
                    },
                    TranscriptEntry::ToolOutcome { call_id, .. } => {
                        let kept = without_id(&self.open_call_ids, call_id.as_str());
                        self.open_call_ids = kept;
                    },
                    TranscriptEntry::TurnOutcome { .. } => {
                        self.open_call_ids = Vec::new();
                        assert(views(self.open_call_ids@) =~= Seq::<Seq<char>>::empty());
                    },
                    _ => {},
                }
                self.transcript.push(TranscriptRecord { seq, item });
            },
        }
    }

    /// The record that appending `entry` now would write.
    pub fn next_record(&self, entry: StateEntry, ts_ms: u128) -> (r: JournalRecord)
        ensures
            r.seq == self.next_seq,
            r.ts_ms == ts_ms,
            r.entry == entry,
    {
        JournalRecord { seq: self.next_seq, ts_ms, entry }
    }

    /// Applies the record just written to the journal.
    pub fn commit(&mut self, record: JournalRecord)
        requires
            record.seq == old(self).next_seq,
            old(self).next_seq < u64::MAX,
        ensures
            final(self)@ == stepped(old(self)@, record),
            well_numbered(old(self)@) ==> well_numbered(final(self)@),
    {
        self.next_seq = self.next_seq + 1;
        self.apply(record.seq, record.entry);
    }

    /// Rebuilds a session from its journal, checking that the records are
    /// numbered in order from zero.
    pub fn replay(path: &str, records: Vec<JournalRecord>) -> (r: Result<SessionState, String>)
        requires
            records@.len() < u64::MAX,
        ensures
            match first_misnumbered(records@, records@.len()) {
                None => r matches Ok(s) && s@ == journal_state(records@) && well_numbered(s@),
                Some(i) => r matches Err(e) && e@ == seq_error(path@, records@[i].seq, i as nat),
            },
    {
        let ghost all = records@;
        let mut state = SessionState::empty();
        let mut pending = records;
        let total: usize = pending.len();
        let mut k: usize = 0;
        while pending.len() > 0
            invariant
                all.len() < u64::MAX,
                total == all.len(),
                k + pending@.len() == all.len(),
                pending@ == all.subrange(k as int, all.len() as int),
                state@ == journal_state(all.subrange(0, k as int)),
                state.next_seq == k,
                well_numbered(state@),
                first_misnumbered(all, k as nat) is None,
                all == records@,
            decreases pending@.len(),
        {
            let record = pending.remove(0);
            assert(record == all[k as int]);
            if record.seq != state.next_seq {
                let mut e = cat3("session journal ", path, " has sequence ");
                crate::text::push_decimal(&mut e, record.seq);
                e.append(" where ");
                crate::text::push_decimal(&mut e, state.next_seq);
                e.append(" was expected");
                proof {
                    assert(first_misnumbered(all, (k + 1) as nat) == Some(k as int));
                    lemma_first_misnumbered_grows(all, (k + 1) as nat, all.len());
                    assert(e@ =~= seq_error(path@, all[k as int].seq, k as nat));
                }
                return Err(e);
            }
            let ghost before = state@;
            state.commit(record);
            proof {
                assert(all.subrange(0, k + 1 as int).drop_last() =~= all.subrange(0, k as int));
            }
            k = k + 1;
            proof {
                assert(pending@ =~= all.subrange(k as int, all.len() as int));
            }
        }
        assert(all.subrange(0, k as int) =~= all);
        Ok(state)
    }

    /// Did the limb record that this call actually began executing?
    /// A call without such a record is an unexecuted proposal and never
    /// receives an outcome.
    pub fn tool_started(&self, call_id: &str) -> (r: bool)
        ensures
            r == started(self.transcript@, call_id@),
    {
        let mut i: usize = 0;
        while i < self.transcript.len()
            invariant
                i <= self.transcript@.len(),
                forall|k: int| 0 <= k < i ==> !starts(#[trigger] self.transcript@[k].item, call_id@),
            decreases self.transcript@.len() - i,
        {
            if let TranscriptEntry::ToolStarted { call } = &self.transcript[i].item {
                if crate::text::same(call.id.as_str(), call_id) {
                    assert(starts(self.transcript@[i as int].item, call_id@));
                    return true;
                }
            }
            assert(!starts(self.transcript@[i as int].item, call_id@));
            i = i + 1;
        }
        false
    }

    /// Has any earlier provider response already used this tool-call id?
    /// The projection keys its bookkeeping by id, so a reused id is refused.
    pub fn knows_tool_call(&self, call_id: &str) -> (r: bool)
        ensures
            r == answered(self.transcript@, call_id@),
    {
        let mut i: usize = 0;
        while i < self.transcript.len()
            invariant
                i <= self.transcript@.len(),
                forall|k: int| 0 <= k < i ==> !answers(#[trigger] self.transcript@[k].item, call_id@),
            decreases self.transcript@.len() - i,
        {
            if let TranscriptEntry::RequestOutcome { outcome: Outcome::Completed { value }, .. } = &self.transcript[i].item {
                if calls_hold(&value.tool_calls, call_id) {
                    assert(answers(self.transcript@[i as int].item, call_id@));
                    return true;
                }
            }
            assert(!answers(self.transcript@[i as int].item, call_id@));
            i = i + 1;
        }
        false
    }

    /// Whether a user event arriving now arrives inside an open tool exchange.
    pub fn exchange_open(&self) -> (r: bool)
        ensures
            r == (self@.open.len() > 0),
    {
        self.open_call_ids.len() > 0
    }

    /// The journal entry for a user message typed now.
    pub fn user_message_entry(&self, text: String) -> (r: StateEntry)
        ensures
            r == (StateEntry::Transcript {
                item: TranscriptEntry::UserMessage { text, arrived_during_exchange: self@.open.len() > 0 },
            }),
    {
        StateEntry::Transcript {
            item: TranscriptEntry::UserMessage { text, arrived_during_exchange: self.exchange_open() },
        }
    }

    /// The journal entry for a file the user opened now.
    pub fn user_activity_entry(&self, path: String, bytes: usize, head: String) -> (r: StateEntry)
        ensures
            r == (StateEntry::Transcript {
                item: TranscriptEntry::UserActivity { path, bytes, head, arrived_during_exchange: self@.open.len() > 0 },
            }),
    {
        StateEntry::Transcript {
            item: TranscriptEntry::UserActivity { path, bytes, head, arrived_during_exchange: self.exchange_open() },
        }
    }
}

/// Appends the ids of `calls` to `ids`.
pub(crate) fn extend_ids(ids: &mut Vec<String>, calls: &Vec<ToolCall>)
    ensures
        views(final(ids)@) == views(old(ids)@) + call_ids(calls@),
{
    let ghost before = views(ids@);
    let mut i: usize = 0;
    while i < calls.len()
        invariant
            i <= calls@.len(),
            views(ids@) == before + call_ids(calls@).subrange(0, i as int),
        decreases calls@.len() - i,
    {
        let ghost prev = views(ids@);
        ids.push(copy(&calls[i].id));
        assert(views(ids@) =~= prev.push(calls@[i as int].id@));
        i = i + 1;
        assert(views(ids@) =~= before + call_ids(calls@).subrange(0, i as int));
    }
    assert(call_ids(calls@).subrange(0, i as int) =~= call_ids(calls@));
}

/// `ids` without any copy of `id`, in order.
pub(crate) fn without_id(ids: &Vec<String>, id: &str) -> (r: Vec<String>)
    ensures
        views(r@) == without(views(ids@), id@),
{
    let ghost all = views(ids@);
    let mut kept: Vec<String> = Vec::new();
    let mut i: usize = 0;
    while i < ids.len()
        invariant
            i <= ids@.len(),
            all == views(ids@),
            views(kept@) == without(all.subrange(0, i as int), id@),
        decreases ids@.len() - i,
    {
        let ghost prev = views(kept@);
        let ghost sub = all.subrange(0, i as int);
        if !crate::text::same(ids[i].as_str(), id) {
            kept.push(copy(&ids[i]));
            assert(views(kept@) =~= prev.push(all[i as int]));
        }
        assert(all.subrange(0, i + 1 as int).drop_last() =~= sub);
        assert(without(all.subrange(0, i + 1 as int), id@) =~= if all[i as int] != id@ {
            without(sub, id@).push(all[i as int])
        } else {
            without(sub, id@)
        }) by {
            reveal(Seq::filter);
            assert(all.subrange(0, i + 1 as int).last() == all[i as int]);
        }
        i = i + 1;
    }
    assert(all.subrange(0, i as int) =~= all);
    kept
}

/// Whether a transcript item records that the limb began executing `id`.
pub open spec fn starts(item: TranscriptEntry, id: Seq<char>) -> bool {
    item matches TranscriptEntry::ToolStarted { call } && call.id@ == id
}

/// Whether the transcript records that the limb began executing `id`.
pub open spec fn started(t: Seq<TranscriptRecord>, id: Seq<char>) -> bool {
    exists|k: int| 0 <= k < t.len() && #[trigger] starts(t[k].item, id)
}

/// Whether a transcript item is a provider answer with a call `id`.
pub open spec fn answers(item: TranscriptEntry, id: Seq<char>) -> bool {
    item matches TranscriptEntry::RequestOutcome { outcome: Outcome::Completed { value }, .. }
        && call_ids(value.tool_calls@).contains(id)
}

/// Whether some provider answer in the transcript has a call `id`.
pub open spec fn answered(t: Seq<TranscriptRecord>, id: Seq<char>) -> bool {
    exists|k: int| 0 <= k < t.len() && #[trigger] answers(t[k].item, id)
}

/// Whether one of `calls` has the id `id`.
pub fn calls_hold(calls: &Vec<ToolCall>, id: &str) -> (r: bool)
    ensures
        r == call_ids(calls@).contains(id@),
{
    let mut j: usize = 0;
    while j < calls.len()
        invariant
            j <= calls@.len(),
            forall|m: int| 0 <= m < j ==> calls@[m].id@ != id@,
        decreases calls@.len() - j,
    {
        if crate::text::same(calls[j].id.as_str(), id) {
            assert(call_ids(calls@)[j as int] == id@);
            return true;
        }
        j = j + 1;
    }
    assert forall|m: int| 0 <= m < call_ids(calls@).len() implies call_ids(calls@)[m] != id@ by {
        assert(calls@[m].id@ != id@);
    }
    false
}

proof fn lemma_first_misnumbered_grows(records: Seq<JournalRecord>, n: nat, m: nat)
    requires
        n <= m <= records.len(),
        first_misnumbered(records, n) is Some,
    ensures
        first_misnumbered(records, m) == first_misnumbered(records, n),
    decreases m - n,
{
    if m > n {
        lemma_first_misnumbered_grows(records, n, (m - 1) as nat);
    }
}

/// Replaying a journal gives back the state that appending its records built:
/// the state after a journal and one more committed record is the journal's
/// state stepped by that record, and a journal numbered from zero replays
/// without error.
pub proof fn lemma_replay_gives_back_appends(records: Seq<JournalRecord>, r: JournalRecord)
    ensures
        journal_state(records.push(r)) == stepped(journal_state(records), r),
        journal_state(records).next_seq == records.len(),
        (forall|i: int| 0 <= i < records.len() ==> #[trigger] records[i].seq == i as u64)
            ==> first_misnumbered(records, records.len()) is None,
    decreases records.len(),
{
    assert(records.push(r).drop_last() =~= records);
    if records.len() > 0 {
        lemma_replay_gives_back_appends(records.drop_last(), records.last());
        assert(records.drop_last().push(records.last()) =~= records);
    }
    lemma_numbered(records, records.len());
}

proof fn lemma_numbered(records: Seq<JournalRecord>, n: nat)
    requires
        n <= records.len(),
    ensures
        (forall|i: int| 0 <= i < records.len() ==> #[trigger] records[i].seq == i as u64)
            ==> first_misnumbered(records, n) is None,
    decreases n,
{
    if n > 0 {
        lemma_numbered(records, (n - 1) as nat);
    }
}

/// Milliseconds since the Unix epoch, by the system clock; zero when the
/// clock reads before the epoch. Nothing is claimed of the value: it is
/// the time.
#[verifier::external_body]
pub fn now_ms() -> u128 {
    std::time::SystemTime::now().duration_since(std::time::UNIX_EPOCH).map(|d| d.as_millis()).unwrap_or(0)
}

} // verus!
