//! The session context: an event log and its model view. The log is the
//! source of truth; the view is a projection of it, extended on every
//! append, or computed afresh from the whole log by `rebuild`. User events
//! that arrive inside an open tool exchange are held back and placed after
//! the exchange's results.
use vstd::prelude::*;
use crate::skeleton::events::{Event, EventKind, EventView, KindView};
use crate::skeleton::protocol::{
    calls_view, copy_calls, copy_opt, opt_view, wires_view, AnswerView, Outcome, OutcomeView,
    WireMessage, WireView,
};
use crate::skeleton::state::without;
use crate::skeleton::view::{activity_text, assistant_view, system_view, tool_view, user_view};
use crate::text::{owned, push_decimal, views};

verus! {

/// One message of the model view, tagged with the event that produced it
/// and whether it was held back behind a tool exchange.
pub struct WireEntry {
    pub message: WireMessage,
    pub seq: u64,
    pub piggybacked: bool,
}

pub open spec fn wire_entries(v: Seq<WireEntry>) -> Seq<(u64, WireView, bool)> {
    v.map_values(|e: WireEntry| (e.seq, e.message@, e.piggybacked))
}

/// The view of a log prefix.
#[verifier::ext_equal]
pub struct ContextFold {
    pub wire: Seq<(u64, WireView, bool)>,
    pub held: Seq<(u64, WireView, bool)>,
    pub open: Seq<Seq<char>>,
}

pub open spec fn tool_text(o: OutcomeView<Seq<char>>) -> Seq<char> {
    match o {
        OutcomeView::Completed(v) => v,
        OutcomeView::Failed(e) => "[tool error] "@ + e,
        OutcomeView::Cancelled(r) => "[tool cancelled] "@ + r,
        OutcomeView::Panicked(p) => "[tool panicked] "@ + p,
    }
}

pub open spec fn take_user_event(f: ContextFold, seq: u64, content: Seq<char>) -> ContextFold {
    if f.open.len() == 0 {
        ContextFold { wire: f.wire.push((seq, user_view(content), false)), ..f }
    } else {
        ContextFold { held: f.held.push((seq, user_view(content), true)), ..f }
    }
}

pub open spec fn take_answer_event(f: ContextFold, seq: u64, m: AnswerView) -> ContextFold {
    ContextFold {
        wire: f.wire.push((seq, assistant_view(m.text, m.tool_calls), false)),
        open: f.open + m.tool_calls.map_values(|c: crate::skeleton::protocol::CallView| c.id),
        ..f
    }
}

pub open spec fn take_result_event(f: ContextFold, seq: u64, call_id: Seq<char>, o: OutcomeView<Seq<char>>) -> ContextFold {
    let wire = f.wire.push((seq, tool_view(call_id, tool_text(o)), false));
    let open = without(f.open, call_id);
    if open.len() == 0 {
        ContextFold { wire: wire + f.held, held: Seq::empty(), open }
    } else {
        ContextFold { wire, open, ..f }
    }
}

/// The view after one more event. Attempts, turn ends, cancels and
/// rebuilds are facts about the session, not model context.
pub open spec fn project_event(f: ContextFold, e: EventView) -> ContextFold {
    match e.kind {
        KindView::SessionStarted(prompt) => ContextFold { wire: f.wire.push((e.seq, system_view(prompt), false)), ..f },
        KindView::UserMessage(text) => take_user_event(f, e.seq, text),
        KindView::FileOpened(path, _, head) => take_user_event(f, e.seq, activity_text(path, head)),
        KindView::RequestOutcome(_, OutcomeView::Completed(m)) => take_answer_event(f, e.seq, m),
        KindView::ToolCallOutcome(call_id, o) => take_result_event(f, e.seq, call_id, o),
        _ => f,
    }
}

/// The view of a whole log, event by event.
pub open spec fn replayed(log: Seq<EventView>) -> ContextFold
    decreases log.len(),
{
    if log.len() == 0 {
        ContextFold { wire: Seq::empty(), held: Seq::empty(), open: Seq::empty() }
    } else {
        project_event(replayed(log.drop_last()), log.last())
    }
}

pub open spec fn events_view(v: Seq<Event>) -> Seq<EventView> {
    v.map_values(|e: Event| e@)
}

/// The log and its cached view.
pub struct Context {
    log: Vec<Event>,
    next_seq: u64,
    wire: Vec<WireEntry>,
    held: Vec<WireEntry>,
    open_calls: Vec<String>,
}

pub struct ContextView {
    pub log: Seq<EventView>,
    pub next_seq: nat,
    pub view: ContextFold,
}

impl View for Context {
    type V = ContextView;

    closed spec fn view(&self) -> ContextView {
        ContextView {
            log: events_view(self.log@),
            next_seq: self.next_seq as nat,
            view: ContextFold {
                wire: wire_entries(self.wire@),
                held: wire_entries(self.held@),
                open: views(self.open_calls@),
            },
        }
    }
}

/// Whether a context is what its log says: stamped in order, with the view
/// its log replays to.
pub open spec fn coherent(c: ContextView) -> bool {
    &&& c.next_seq == c.log.len()
    &&& forall|i: int| 0 <= i < c.log.len() ==> (#[trigger] c.log[i]).seq == i
    &&& c.view == replayed(c.log)
}

fn push_entry(v: &mut Vec<WireEntry>, seq: u64, message: WireMessage, piggybacked: bool)
    ensures
        wire_entries(final(v)@) == wire_entries(old(v)@).push((seq, message@, piggybacked)),
{
    let ghost m = message@;
    v.push(WireEntry { message, seq, piggybacked });
    assert(wire_entries(v@) =~= wire_entries(old(v)@).push((seq, m, piggybacked)));
}

impl Context {
    pub fn new() -> (r: Context)
        ensures
            r@.log.len() == 0,
            coherent(r@),
    {
        let r = Context { log: Vec::new(), next_seq: 0, wire: Vec::new(), held: Vec::new(), open_calls: Vec::new() };
        assert(r@.log =~= Seq::<EventView>::empty());
        assert(r@.view =~= replayed(Seq::empty()));
        r
    }

    /// Projects one event into the view.
    fn project_into(event: &Event, wire: &mut Vec<WireEntry>, held: &mut Vec<WireEntry>, open_calls: &mut Vec<String>)
        ensures
            ({
                let before = ContextFold { wire: wire_entries(old(wire)@), held: wire_entries(old(held)@), open: views(old(open_calls)@) };
                (ContextFold { wire: wire_entries(final(wire)@), held: wire_entries(final(held)@), open: views(final(open_calls)@) })
                    == project_event(before, event@)
            }),
    {
        let seq = event.seq;
        let ghost before = ContextFold { wire: wire_entries(wire@), held: wire_entries(held@), open: views(open_calls@) };
        match &event.kind {
            EventKind::SessionStarted { system_prompt } => {
                let message = WireMessage {
                    role: owned("system"),
                    content: Some(crate::text::copy(system_prompt)),
                    tool_calls: None,
                    tool_call_id: None,
                };
                push_entry(wire, seq, message, false);
            },
            EventKind::UserMessage { text } => {
                let message = crate::skeleton::view::user_message(crate::text::copy(text));
                if open_calls.len() == 0 {
                    push_entry(wire, seq, message, false);
                } else {
                    push_entry(held, seq, message, true);
                }
            },
            EventKind::FileOpened { path, head, .. } => {
                let message = crate::skeleton::view::user_message(
                    crate::skeleton::view::activity_message(path.as_str(), head.as_str()),
                );
                if open_calls.len() == 0 {
                    push_entry(wire, seq, message, false);
                } else {
                    push_entry(held, seq, message, true);
                }
            },
            EventKind::RequestOutcome { outcome, .. } => {
                if let Outcome::Completed { value } = outcome {
                    let has_calls = value.tool_calls.len() > 0;
                    let message = WireMessage {
                        role: owned("assistant"),
                        content: copy_opt(&value.text),
                        tool_calls: if has_calls { Some(copy_calls(&value.tool_calls)) } else { None },
                        tool_call_id: None,
                    };
                    assert(message@ == assistant_view(opt_view(value.text), calls_view(value.tool_calls@)));
                    push_entry(wire, seq, message, false);
                    crate::skeleton::state::extend_ids(open_calls, &value.tool_calls);
                    assert(crate::skeleton::state::call_ids(value.tool_calls@)
                        =~= calls_view(value.tool_calls@).map_values(|c: crate::skeleton::protocol::CallView| c.id));
                }
            },
            EventKind::ToolCallOutcome { call_id, outcome } => {
                let content = crate::skeleton::view::render_tool_outcome(outcome);
                assert(content@ == tool_text(crate::skeleton::protocol::text_outcome(*outcome)));
                let message = WireMessage {
                    role: owned("tool"),
                    content: Some(content),
                    tool_calls: None,
                    tool_call_id: Some(crate::text::copy(call_id)),
                };
                push_entry(wire, seq, message, false);
                let kept = crate::skeleton::state::without_id(open_calls, call_id.as_str());
                *open_calls = kept;
                if open_calls.len() == 0 {
                    let ghost w = wire_entries(wire@);
                    let ghost h = wire_entries(held@);
                    wire.append(held);
                    assert(wire_entries(wire@) =~= w + h);
                    assert(wire_entries(held@) =~= Seq::<(u64, WireView, bool)>::empty());
                }
            },
            _ => {},
        }
        assert((ContextFold { wire: wire_entries(wire@), held: wire_entries(held@), open: views(open_calls@) })
            =~= project_event(before, event@));
    }

    /// Appends an event, stamped with the next sequence number and the
    /// current time, and extends the view with it. Gives back the stamped
    /// event for consumers.
    pub fn append(&mut self, kind: EventKind) -> (r: Event)
        requires
            coherent(old(self)@),
            old(self)@.next_seq < u64::MAX,
        ensures
            coherent(final(self)@),
            r.seq == old(self)@.next_seq,
            r.kind@ == kind@,
            final(self)@.log == old(self)@.log.push(r@),
    {
        let event = Event { seq: self.next_seq, ts_ms: crate::skeleton::state::now_ms(), kind };
        self.next_seq = self.next_seq + 1;
        let ghost log0 = events_view(self.log@);
        Self::project_into(&event, &mut self.wire, &mut self.held, &mut self.open_calls);
        let copy = event.duplicate();
        self.log.push(event);
        proof {
            assert(events_view(self.log@) =~= log0.push(copy@));
            assert(events_view(self.log@).drop_last() =~= log0);
        }
        copy
    }

    /// Recomputes the view from the whole log. Today it gives back the
    /// view that appending built; compaction would live here. Returns the
    /// number of wire messages.
    pub fn rebuild(&mut self) -> (r: usize)
        requires
            coherent(old(self)@),
        ensures
            final(self)@ == old(self)@,
            r == final(self)@.view.wire.len(),
    {
        let ghost log = events_view(self.log@);
        let mut wire: Vec<WireEntry> = Vec::new();
        let mut held: Vec<WireEntry> = Vec::new();
        let mut open_calls: Vec<String> = Vec::new();
        assert((ContextFold { wire: wire_entries(wire@), held: wire_entries(held@), open: views(open_calls@) }) =~= replayed(log.subrange(0, 0)));
        let mut i: usize = 0;
        while i < self.log.len()
            invariant
                i <= self.log@.len(),
                log == events_view(self.log@),
                (ContextFold { wire: wire_entries(wire@), held: wire_entries(held@), open: views(open_calls@) })
                    == replayed(log.subrange(0, i as int)),
            decreases self.log@.len() - i,
        {
            proof {
                assert(log.subrange(0, i + 1 as int).drop_last() =~= log.subrange(0, i as int));
                assert(log.subrange(0, i + 1 as int).last() == self.log@[i as int]@);
            }
            Self::project_into(&self.log[i], &mut wire, &mut held, &mut open_calls);
            i = i + 1;
        }
        assert(log.subrange(0, i as int) =~= log);
        self.wire = wire;
        self.held = held;
        self.open_calls = open_calls;
        self.wire.len()
    }

    /// The model view: the wire messages, then any still held.
    pub fn model_view(&self) -> (r: Vec<WireMessage>)
        ensures
            wires_view(r@) == (self@.view.wire + self@.view.held).map_values(|e: (u64, WireView, bool)| e.1),
    {
        let mut messages: Vec<WireMessage> = Vec::new();
        let ghost all = wire_entries(self.wire@) + wire_entries(self.held@);
        let ghost n = self.wire@.len();
        let mut i: usize = 0;
        while i < self.wire.len()
            invariant
                i <= self.wire@.len(),
                n == self.wire@.len(),
                all == wire_entries(self.wire@) + wire_entries(self.held@),
                wires_view(messages@) == all.subrange(0, i as int).map_values(|e: (u64, WireView, bool)| e.1),
            decreases self.wire@.len() - i,
        {
            let ghost before = wires_view(messages@);
            messages.push(self.wire[i].message.duplicate());
            assert(all[i as int] == wire_entries(self.wire@)[i as int]);
            assert(all.subrange(0, i + 1 as int).map_values(|e: (u64, WireView, bool)| e.1)
                =~= before.push(self.wire@[i as int].message@));
            assert(wires_view(messages@) =~= before.push(self.wire@[i as int].message@));
            i = i + 1;
        }
        let mut j: usize = 0;
        while j < self.held.len()
            invariant
                j <= self.held@.len(),
                n == self.wire@.len(),
                all == wire_entries(self.wire@) + wire_entries(self.held@),
                wires_view(messages@) == all.subrange(0, n + j).map_values(|e: (u64, WireView, bool)| e.1),
            decreases self.held@.len() - j,
        {
            let ghost before = wires_view(messages@);
            messages.push(self.held[j].message.duplicate());
            assert(all[n + j] == wire_entries(self.held@)[j as int]);
            assert(all.subrange(0, n + j + 1).map_values(|e: (u64, WireView, bool)| e.1)
                =~= before.push(self.held@[j as int].message@));
            assert(wires_view(messages@) =~= before.push(self.held@[j as int].message@));
            j = j + 1;
        }
        assert(all.subrange(0, all.len() as int) =~= all);
        messages
    }
}

/// The JSON a context dump shows, written by whoever holds the
/// serializers.
pub struct ContextTexts {
    /// Each event's kind as compact JSON, by event.
    pub kinds: Vec<(u64, String)>,
    /// The tool calls of each wire entry, pretty-printed, where it has any.
    pub wire_calls: Vec<Option<String>>,
    /// The same for each held entry.
    pub held_calls: Vec<Option<String>>,
}

pub open spec fn held_note(seq: u64) -> Seq<char> {
    "<!-- seq "@ + crate::text::decimal(seq as nat) + ": currently held: a tool exchange is open; will be placed after it -->\n"@
}

pub open spec fn entry_seqs(v: Seq<(u64, WireView, bool)>) -> Seq<u64> {
    v.map_values(|e: (u64, WireView, bool)| e.0)
}

pub open spec fn opt_at(v: Seq<Option<Seq<char>>>, i: int) -> Option<Seq<char>> {
    if 0 <= i < v.len() { v[i] } else { None }
}

/// The wire part of a context dump: each wire entry with the comments
/// before it and its piggyback note.
pub open spec fn wire_part(
    wire: Seq<(u64, WireView, bool)>,
    calls: Seq<Option<Seq<char>>>,
    kinds: Seq<(u64, Seq<char>)>,
    visible: Seq<u64>,
) -> (Seq<char>, Seq<u64>)
    decreases wire.len(),
{
    if wire.len() == 0 {
        (Seq::empty(), Seq::empty())
    } else {
        let (before, w) = wire_part(wire.drop_last(), calls, kinds, visible);
        let (seq, m, piggybacked) = wire.last();
        let (notes, w2) = crate::skeleton::dump::comments(kinds, Some(seq), visible, w);
        (before + notes + (if piggybacked { crate::skeleton::dump::piggyback_note(seq) } else { Seq::empty() })
            + crate::skeleton::dump::message_text(m, opt_at(calls, wire.len() - 1)), w2)
    }
}

/// The held part of a context dump.
pub open spec fn held_part(held: Seq<(u64, WireView, bool)>, calls: Seq<Option<Seq<char>>>) -> Seq<char>
    decreases held.len(),
{
    if held.len() == 0 {
        Seq::empty()
    } else {
        held_part(held.drop_last(), calls) + held_note(held.last().0)
            + crate::skeleton::dump::message_text(held.last().1, opt_at(calls, held.len() - 1))
    }
}

pub open spec fn context_dump_header() -> Seq<char> {
    "# walking-skeleton context dump — the model view\n\n"@
        + "<!-- Everything in HTML comments (like this) is invisible to the model. Everything else renders the exact wire context, in wire order. -->\n\n"@
}

impl Context {
    /// The dump of the model view, in wire order, with the events the
    /// model cannot see in comments, the piggybacked entries noted, and
    /// the entries still held flagged.
    pub fn dump_view(&self, texts: &ContextTexts) -> (r: String)
        ensures
            ({
                let kinds = crate::skeleton::dump::pairs_view(texts.kinds@);
                let visible = entry_seqs(self@.view.wire) + entry_seqs(self@.view.held);
                let (wire_text, w) = wire_part(self@.view.wire, crate::skeleton::dump::opt_texts(texts.wire_calls@), kinds, visible);
                r@ == context_dump_header() + wire_text + held_part(self@.view.held, crate::skeleton::dump::opt_texts(texts.held_calls@))
                    + crate::skeleton::dump::comments(kinds, None, visible, w).0
            }),
    {
        let ghost kinds = crate::skeleton::dump::pairs_view(texts.kinds@);
        let ghost wcalls = crate::skeleton::dump::opt_texts(texts.wire_calls@);
        let ghost hcalls = crate::skeleton::dump::opt_texts(texts.held_calls@);
        let ghost wv = wire_entries(self.wire@);
        let ghost hv = wire_entries(self.held@);
        let mut visible: Vec<u64> = Vec::new();
        let mut i: usize = 0;
        while i < self.wire.len()
            invariant
                i <= self.wire@.len(),
                wv == wire_entries(self.wire@),
                visible@ == entry_seqs(wv.subrange(0, i as int)),
            decreases self.wire@.len() - i,
        {
            visible.push(self.wire[i].seq);
            assert(entry_seqs(wv.subrange(0, i + 1 as int)) =~= entry_seqs(wv.subrange(0, i as int)).push(self.wire@[i as int].seq));
            i = i + 1;
        }
        assert(wv.subrange(0, i as int) =~= wv);
        let mut j: usize = 0;
        while j < self.held.len()
            invariant
                j <= self.held@.len(),
                hv == wire_entries(self.held@),
                visible@ == entry_seqs(wv) + entry_seqs(hv.subrange(0, j as int)),
            decreases self.held@.len() - j,
        {
            visible.push(self.held[j].seq);
            assert(entry_seqs(hv.subrange(0, j + 1 as int)) =~= entry_seqs(hv.subrange(0, j as int)).push(self.held@[j as int].seq));
            j = j + 1;
        }
        assert(hv.subrange(0, j as int) =~= hv);
        let ghost vis = visible@;
        let mut out = owned("# walking-skeleton context dump — the model view\n\n");
        out.append("<!-- Everything in HTML comments (like this) is invisible to the model. Everything else renders the exact wire context, in wire order. -->\n\n");
        let ghost head = out@;
        let mut emitted: Vec<u64> = Vec::new();
        let mut k: usize = 0;
        while k < self.wire.len()
            invariant
                k <= self.wire@.len(),
                wv == wire_entries(self.wire@),
                kinds == crate::skeleton::dump::pairs_view(texts.kinds@),
                wcalls == crate::skeleton::dump::opt_texts(texts.wire_calls@),
                visible@ == vis,
                out@ == head + wire_part(wv.subrange(0, k as int), wcalls, kinds, vis).0,
                emitted@ == wire_part(wv.subrange(0, k as int), wcalls, kinds, vis).1,
            decreases self.wire@.len() - k,
        {
            let ghost next = wv.subrange(0, k + 1 as int);
            assert(next.drop_last() =~= wv.subrange(0, k as int));
            assert(next.last() == (self.wire@[k as int].seq, self.wire@[k as int].message@, self.wire@[k as int].piggybacked));
            let seq = self.wire[k].seq;
            crate::skeleton::dump::render_comments(&mut out, &texts.kinds, Some(seq), &visible, &mut emitted);
            if self.wire[k].piggybacked {
                out.append("<!-- seq ");
                push_decimal(&mut out, seq);
                out.append(": arrived while a tool exchange was open; the model sees it here, after the exchange -->\n");
            }
            let none: Option<String> = None;
            let calls = if k < texts.wire_calls.len() { &texts.wire_calls[k] } else { &none };
            assert(crate::skeleton::protocol::opt_view(*calls) == opt_at(wcalls, k as int));
            crate::skeleton::dump::render_message(&mut out, &self.wire[k].message, calls);
            assert(out@ =~= head + wire_part(next, wcalls, kinds, vis).0);
            k = k + 1;
        }
        assert(wv.subrange(0, k as int) =~= wv);
        let ghost mid = out@;
        let mut h: usize = 0;
        while h < self.held.len()
            invariant
                h <= self.held@.len(),
                hv == wire_entries(self.held@),
                hcalls == crate::skeleton::dump::opt_texts(texts.held_calls@),
                out@ == mid + held_part(hv.subrange(0, h as int), hcalls),
            decreases self.held@.len() - h,
        {
            let ghost next = hv.subrange(0, h + 1 as int);
            assert(next.drop_last() =~= hv.subrange(0, h as int));
            assert(next.last() == (self.held@[h as int].seq, self.held@[h as int].message@, self.held@[h as int].piggybacked));
            out.append("<!-- seq ");
            push_decimal(&mut out, self.held[h].seq);
            out.append(": currently held: a tool exchange is open; will be placed after it -->\n");
            let none: Option<String> = None;
            let calls = if h < texts.held_calls.len() { &texts.held_calls[h] } else { &none };
            assert(crate::skeleton::protocol::opt_view(*calls) == opt_at(hcalls, h as int));
            crate::skeleton::dump::render_message(&mut out, &self.held[h].message, calls);
            assert(out@ =~= mid + held_part(next, hcalls));
            h = h + 1;
        }
        assert(hv.subrange(0, h as int) =~= hv);
        crate::skeleton::dump::render_comments(&mut out, &texts.kinds, None, &visible, &mut emitted);
        out
    }
}

/// Appending then rebuilding loses nothing: the view a log builds event by
/// event is the view of the log with that event, replayed whole.
pub proof fn lemma_append_then_rebuild(log: Seq<EventView>, e: EventView)
    ensures
        project_event(replayed(log), e) == replayed(log.push(e)),
{
    assert(log.push(e).drop_last() =~= log);
}

} // verus!
