//! The event vocabulary of the session log. An event is about its emitter,
//! not for anyone: consumers project events as they need. Attempts and
//! outcomes are separate facts, and an outcome is four-valued.
use vstd::prelude::*;
pub use crate::skeleton::protocol::{AssistantMessage, Contribution, Outcome};
use crate::skeleton::protocol::{
    answer_outcome, copy_answer_outcome, copy_text_outcome, copy_unit_outcome, text_outcome,
    unit_outcome, AnswerView, OutcomeView,
};
use crate::text::copy;

verus! {

/// One event in the session log; the log stamps `seq` when it appends.
pub struct Event {
    pub seq: u64,
    pub ts_ms: u128,
    pub kind: EventKind,
}

pub enum EventKind {
    /// The system prompt enters the session as a fact.
    SessionStarted { system_prompt: String },
    ContributionAdded { name: String, contribution: Contribution },
    UserMessage { text: String },
    /// The user opened a file in their own tooling.
    FileOpened { path: String, bytes: usize, head: String },
    TurnEnd,
    CancelRequest,
    Quit,
    RebuildRequest,
    DumpRequest,
    RequestAttempt { request_id: u64, model: String },
    RequestOutcome { request_id: u64, outcome: Outcome<AssistantMessage> },
    ToolCallAttempt { call_id: String, name: String, arguments: String },
    ToolCallOutcome { call_id: String, outcome: Outcome<String> },
    TurnOutcome { outcome: Outcome<()> },
    /// The context was rebuilt from the log.
    ContextRebuilt { wire_messages: usize },
    SessionClosed,
}

pub enum ContributionView {
    Fact(Seq<char>),
    Tool(Seq<char>),
}

pub open spec fn contribution_view(c: Contribution) -> ContributionView {
    match c {
        Contribution::Fact { text } => ContributionView::Fact(text@),
        Contribution::Tool { def } => ContributionView::Tool(def@),
    }
}

pub enum KindView {
    SessionStarted(Seq<char>),
    ContributionAdded(Seq<char>, ContributionView),
    UserMessage(Seq<char>),
    FileOpened(Seq<char>, usize, Seq<char>),
    TurnEnd,
    CancelRequest,
    Quit,
    RebuildRequest,
    DumpRequest,
    RequestAttempt(u64, Seq<char>),
    RequestOutcome(u64, OutcomeView<AnswerView>),
    ToolCallAttempt(Seq<char>, Seq<char>, Seq<char>),
    ToolCallOutcome(Seq<char>, OutcomeView<Seq<char>>),
    TurnOutcome(OutcomeView<()>),
    ContextRebuilt(usize),
    SessionClosed,
}

pub struct EventView {
    pub seq: u64,
    pub ts_ms: u128,
    pub kind: KindView,
}

impl View for EventKind {
    type V = KindView;

    open spec fn view(&self) -> KindView {
        match self {
            EventKind::SessionStarted { system_prompt } => KindView::SessionStarted(system_prompt@),
            EventKind::ContributionAdded { name, contribution } => KindView::ContributionAdded(name@, contribution_view(*contribution)),
            EventKind::UserMessage { text } => KindView::UserMessage(text@),
            EventKind::FileOpened { path, bytes, head } => KindView::FileOpened(path@, *bytes, head@),
            EventKind::TurnEnd => KindView::TurnEnd,
            EventKind::CancelRequest => KindView::CancelRequest,
            EventKind::Quit => KindView::Quit,
            EventKind::RebuildRequest => KindView::RebuildRequest,
            EventKind::DumpRequest => KindView::DumpRequest,
            EventKind::RequestAttempt { request_id, model } => KindView::RequestAttempt(*request_id, model@),
            EventKind::RequestOutcome { request_id, outcome } => KindView::RequestOutcome(*request_id, answer_outcome(*outcome)),
            EventKind::ToolCallAttempt { call_id, name, arguments } => KindView::ToolCallAttempt(call_id@, name@, arguments@),
            EventKind::ToolCallOutcome { call_id, outcome } => KindView::ToolCallOutcome(call_id@, text_outcome(*outcome)),
            EventKind::TurnOutcome { outcome } => KindView::TurnOutcome(unit_outcome(*outcome)),
            EventKind::ContextRebuilt { wire_messages } => KindView::ContextRebuilt(*wire_messages),
            EventKind::SessionClosed => KindView::SessionClosed,
        }
    }
}

impl View for Event {
    type V = EventView;

    open spec fn view(&self) -> EventView {
        EventView { seq: self.seq, ts_ms: self.ts_ms, kind: self.kind@ }
    }
}

pub fn copy_contribution(c: &Contribution) -> (r: Contribution)
    ensures
        contribution_view(r) == contribution_view(*c),
{
    match c {
        Contribution::Fact { text } => Contribution::Fact { text: copy(text) },
        Contribution::Tool { def } => Contribution::Tool { def: copy(def) },
    }
}

impl EventKind {
    pub fn duplicate(&self) -> (r: EventKind)
        ensures
            r@ == self@,
    {
        match self {
            EventKind::SessionStarted { system_prompt } => EventKind::SessionStarted { system_prompt: copy(system_prompt) },
            EventKind::ContributionAdded { name, contribution } => EventKind::ContributionAdded {
                name: copy(name),
                contribution: copy_contribution(contribution),
            },
            EventKind::UserMessage { text } => EventKind::UserMessage { text: copy(text) },
            EventKind::FileOpened { path, bytes, head } => EventKind::FileOpened { path: copy(path), bytes: *bytes, head: copy(head) },
            EventKind::TurnEnd => EventKind::TurnEnd,
            EventKind::CancelRequest => EventKind::CancelRequest,
            EventKind::Quit => EventKind::Quit,
            EventKind::RebuildRequest => EventKind::RebuildRequest,
            EventKind::DumpRequest => EventKind::DumpRequest,
            EventKind::RequestAttempt { request_id, model } => EventKind::RequestAttempt { request_id: *request_id, model: copy(model) },
            EventKind::RequestOutcome { request_id, outcome } => EventKind::RequestOutcome {
                request_id: *request_id,
                outcome: copy_answer_outcome(outcome),
            },
            EventKind::ToolCallAttempt { call_id, name, arguments } => EventKind::ToolCallAttempt {
                call_id: copy(call_id),
                name: copy(name),
                arguments: copy(arguments),
            },
            EventKind::ToolCallOutcome { call_id, outcome } => EventKind::ToolCallOutcome {
                call_id: copy(call_id),
                outcome: copy_text_outcome(outcome),
            },
            EventKind::TurnOutcome { outcome } => EventKind::TurnOutcome { outcome: copy_unit_outcome(outcome) },
            EventKind::ContextRebuilt { wire_messages } => EventKind::ContextRebuilt { wire_messages: *wire_messages },
            EventKind::SessionClosed => EventKind::SessionClosed,
        }
    }
}

impl Event {
    pub fn duplicate(&self) -> (r: Event)
        ensures
            r@ == self@,
    {
        Event { seq: self.seq, ts_ms: self.ts_ms, kind: self.kind.duplicate() }
    }
}

} // verus!
