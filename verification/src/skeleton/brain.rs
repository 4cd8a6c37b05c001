//! The brain's decisions: what a resolved request or tool call records in
//! the journal and what the turn does next. The agent loop around them
//! (channels, tasks, cancellation tokens) performs the actions and hands
//! back the events.
use vstd::prelude::*;
use crate::skeleton::protocol::{
    answer_outcome, calls_view, copy_answer_outcome, copy_calls, copy_text_outcome, text_outcome,
    unit_outcome, AssistantMessage, CallView, DisplayItem, Outcome, OutcomeView, ToolCall,
};
use crate::skeleton::state::{StateEntry, TranscriptEntry};
use crate::text::{cat3, owned};

verus! {

/// The system prompt of the walking skeleton.
pub const SYSTEM_PROMPT: &'static str = "You are an agent in a prototype harness. The user is testing and developing the harness itself. You should help them by running tools etc. - but also by reporting on your experience as a model in this harness. You are explicitly allowed and encouraged to answer any and all questions about the context provided to you, the system prompt, exact formats, and more. This will be helpful to the user who is the developer of this system.";

/// A request or tool call that has come back.
pub enum Resolved {
    Request { request_id: u64, outcome: Outcome<AssistantMessage> },
    Tool { call: ToolCall, outcome: Outcome<String> },
}

/// What the turn does after a resolution.
pub enum Advance {
    StartTool,
    StartRequest,
    TurnDone(Outcome<()>),
}

/// What is in flight.
pub enum Flight {
    Idle,
    Request { request_id: u64 },
    Tool { call: ToolCall },
}

/// The brain's state between events.
pub struct Brain {
    /// Calls of the last answer that have not been started yet, in order.
    pub pending_calls: Vec<ToolCall>,
    /// Whether a turn is under way and owes an outcome.
    pub turn_live: bool,
    pub next_request_id: u64,
    pub in_flight: Flight,
}

/// How the next step of a turn is seen.
pub enum Step {
    StartTool,
    StartRequest,
    TurnDone(OutcomeView<()>),
}

pub open spec fn step_of(a: Advance) -> Step {
    match a {
        Advance::StartTool => Step::StartTool,
        Advance::StartRequest => Step::StartRequest,
        Advance::TurnDone(o) => Step::TurnDone(unit_outcome(o)),
    }
}

/// The step a provider outcome leads to.
pub open spec fn after_request(o: OutcomeView<crate::skeleton::protocol::AnswerView>) -> Step {
    match o {
        OutcomeView::Completed(m) => if m.tool_calls.len() == 0 {
            Step::TurnDone(OutcomeView::Completed(()))
        } else {
            Step::StartTool
        },
        OutcomeView::Failed(e) => Step::TurnDone(OutcomeView::Failed(e)),
        OutcomeView::Cancelled(e) => Step::TurnDone(OutcomeView::Cancelled(e)),
        OutcomeView::Panicked(e) => Step::TurnDone(OutcomeView::Panicked(e)),
    }
}

/// The step a tool outcome leads to, with `pending` calls left.
pub open spec fn after_tool(o: OutcomeView<Seq<char>>, pending: nat) -> Step {
    if o is Cancelled {
        Step::TurnDone(OutcomeView::Cancelled("tool call cancelled"@))
    } else if pending == 0 {
        Step::StartRequest
    } else {
        Step::StartTool
    }
}

/// A tool that completed, failed or panicked does not end the turn: the
/// next pending call runs, or, with none left, the model is asked again.
/// Only a cancelled tool call ends the turn, and it ends it cancelled.
pub proof fn lemma_only_a_cancelled_tool_ends_the_turn(o: OutcomeView<Seq<char>>, pending: nat)
    ensures
        !(o is Cancelled) && pending > 0 ==> after_tool(o, pending) is StartTool,
        !(o is Cancelled) && pending == 0 ==> after_tool(o, pending) is StartRequest,
        o is Cancelled ==> after_tool(o, pending) matches Step::TurnDone(OutcomeView::Cancelled(_)),
{
}

/// An answer that calls tools starts the first of them; one that calls
/// none ends the turn completed; a request that failed, was cancelled or
/// panicked ends the turn the same way, with the same reason.
pub proof fn lemma_answers_lead_the_turn(o: OutcomeView<crate::skeleton::protocol::AnswerView>)
    ensures
        o matches OutcomeView::Completed(m) && m.tool_calls.len() > 0 ==> after_request(o) is StartTool,
        o matches OutcomeView::Completed(m) && m.tool_calls.len() == 0 ==> after_request(o) == Step::TurnDone(OutcomeView::Completed(())),
        o matches OutcomeView::Failed(e) ==> after_request(o) == Step::TurnDone(OutcomeView::Failed(e)),
        o matches OutcomeView::Cancelled(e) ==> after_request(o) == Step::TurnDone(OutcomeView::Cancelled(e)),
        o matches OutcomeView::Panicked(e) ==> after_request(o) == Step::TurnDone(OutcomeView::Panicked(e)),
{
}

/// How the face is told of a resolution.
pub fn resolution_display(resolved: &Resolved) -> (r: DisplayItem)
    ensures
        match *resolved {
            Resolved::Request { outcome, .. } => r matches DisplayItem::RequestResolved { outcome: o }
                && answer_outcome(o) == answer_outcome(outcome),
            Resolved::Tool { outcome, .. } => r matches DisplayItem::ToolResolved { outcome: o }
                && text_outcome(o) == text_outcome(outcome),
        },
{
    match resolved {
        Resolved::Request { outcome, .. } => DisplayItem::RequestResolved { outcome: copy_answer_outcome(outcome) },
        Resolved::Tool { outcome, .. } => DisplayItem::ToolResolved { outcome: copy_text_outcome(outcome) },
    }
}

impl Brain {
    /// A brain with no turn under way.
    pub fn new() -> (r: Brain)
        ensures
            r.pending_calls@.len() == 0,
            !r.turn_live,
            r.next_request_id == 0,
            r.in_flight is Idle,
    {
        Brain { pending_calls: Vec::new(), turn_live: false, next_request_id: 0, in_flight: Flight::Idle }
    }

    /// The user ended their turn: a new turn starts with a request when
    /// nothing is in flight and no turn is under way.
    pub fn on_turn_end(&mut self) -> (start: bool)
        ensures
            start == (old(self).in_flight is Idle && !old(self).turn_live),
            final(self).turn_live == (old(self).turn_live || start),
            final(self).pending_calls@ == old(self).pending_calls@,
            final(self).next_request_id == old(self).next_request_id,
            final(self).in_flight == old(self).in_flight,
    {
        let idle = match &self.in_flight {
            Flight::Idle => true,
            _ => false,
        };
        if idle && !self.turn_live {
            self.turn_live = true;
            true
        } else {
            false
        }
    }

    /// A request goes out: it takes the next id, and no call of an earlier
    /// answer waits behind it.
    pub fn begin_request(&mut self) -> (request_id: u64)
        requires
            old(self).next_request_id < u64::MAX,
        ensures
            request_id == old(self).next_request_id,
            final(self).next_request_id == old(self).next_request_id + 1,
            final(self).in_flight == (Flight::Request { request_id }),
            final(self).pending_calls@.len() == 0,
            final(self).turn_live == old(self).turn_live,
    {
        self.pending_calls = Vec::new();
        let request_id = self.next_request_id;
        self.next_request_id = self.next_request_id + 1;
        self.in_flight = Flight::Request { request_id };
        request_id
    }

    /// The next pending call, taken off the front.
    pub fn next_tool(&mut self) -> (r: Result<ToolCall, String>)
        ensures
            match r {
                Ok(call) => old(self).pending_calls@.len() > 0
                    && call@ == old(self).pending_calls@[0]@
                    && final(self).pending_calls@ == old(self).pending_calls@.drop_first(),
                Err(e) => old(self).pending_calls@.len() == 0
                    && e@ == "brain tried to start a tool with no pending call"@
                    && final(self).pending_calls@ == old(self).pending_calls@,
            },
            final(self).turn_live == old(self).turn_live,
            final(self).next_request_id == old(self).next_request_id,
            final(self).in_flight == old(self).in_flight,
    {
        if self.pending_calls.len() == 0 {
            return Err(owned("brain tried to start a tool with no pending call"));
        }
        let call = self.pending_calls.remove(0);
        assert(self.pending_calls@ =~= old(self).pending_calls@.drop_first());
        Ok(call)
    }

    /// The limb accepted `call`: it is in flight.
    pub fn dispatched(&mut self, call: ToolCall)
        ensures
            final(self).in_flight == (Flight::Tool { call }),
            final(self).pending_calls@ == old(self).pending_calls@,
            final(self).turn_live == old(self).turn_live,
            final(self).next_request_id == old(self).next_request_id,
    {
        self.in_flight = Flight::Tool { call };
    }

    /// A tool outcome arrived for `call_id`: it must be the call in flight.
    pub fn accept_tool_outcome(&mut self, call_id: &str) -> (r: Result<ToolCall, String>)
        ensures
            match old(self).in_flight {
                Flight::Tool { call } => if call.id@ == call_id@ {
                    r == Ok::<ToolCall, String>(call) && final(self).in_flight is Idle
                } else {
                    r is Err && final(self).in_flight == old(self).in_flight
                },
                _ => r is Err && final(self).in_flight == old(self).in_flight,
            },
            r matches Err(e) ==> e@ == "brain received outcome for tool call "@ + call_id@
                + ", but that call is not in flight"@,
            final(self).pending_calls@ == old(self).pending_calls@,
            final(self).turn_live == old(self).turn_live,
            final(self).next_request_id == old(self).next_request_id,
    {
        let matches_call = match &self.in_flight {
            Flight::Tool { call } => crate::text::same(call.id.as_str(), call_id),
            _ => false,
        };
        if matches_call {
            let mut flight = Flight::Idle;
            std::mem::swap(&mut self.in_flight, &mut flight);
            match flight {
                Flight::Tool { call } => Ok(call),
                _ => Err(cat3("brain received outcome for tool call ", call_id, ", but that call is not in flight")),
            }
        } else {
            Err(cat3("brain received outcome for tool call ", call_id, ", but that call is not in flight"))
        }
    }

    /// Records a resolution: the journal entry it makes, and what the turn
    /// does next.
    pub fn record_resolution(&mut self, resolved: Resolved) -> (r: (Advance, StateEntry))
        ensures
            final(self).turn_live == old(self).turn_live,
            final(self).next_request_id == old(self).next_request_id,
            final(self).in_flight == old(self).in_flight,
            resolved matches Resolved::Tool { outcome, .. } && !(outcome is Cancelled) ==> (if old(self).pending_calls@.len() == 0 {
                r.0 is StartRequest
            } else {
                r.0 is StartTool
            }) && final(self).pending_calls@ == old(self).pending_calls@,
            match resolved {
                Resolved::Request { request_id, outcome } => {
                    &&& step_of(r.0) == after_request(answer_outcome(outcome))
                    &&& r.1 == (StateEntry::Transcript { item: TranscriptEntry::RequestOutcome { request_id, outcome } })
                    &&& calls_view(final(self).pending_calls@) == match outcome {
                        Outcome::Completed { value } => calls_view(value.tool_calls@),
                        _ => calls_view(old(self).pending_calls@),
                    }
                },
                Resolved::Tool { call, outcome } => {
                    &&& step_of(r.0) == after_tool(text_outcome(outcome), old(self).pending_calls@.len())
                    &&& r.1 matches StateEntry::Transcript { item: TranscriptEntry::ToolOutcome { call_id, outcome: o } }
                        && call_id == call.id && o == outcome
                    &&& final(self).pending_calls@ == if outcome is Cancelled {
                        Seq::<ToolCall>::empty()
                    } else {
                        old(self).pending_calls@
                    }
                },
            },
    {
        match resolved {
            Resolved::Request { request_id, outcome } => {
                let advance = match &outcome {
                    Outcome::Completed { value } => {
                        self.pending_calls = copy_calls(&value.tool_calls);
                        if self.pending_calls.len() == 0 {
                            Advance::TurnDone(Outcome::Completed { value: () })
                        } else {
                            Advance::StartTool
                        }
                    },
                    Outcome::Failed { error } => Advance::TurnDone(Outcome::Failed { error: crate::text::copy(error) }),
                    Outcome::Cancelled { reason } => Advance::TurnDone(Outcome::Cancelled { reason: crate::text::copy(reason) }),
                    Outcome::Panicked { payload } => Advance::TurnDone(Outcome::Panicked { payload: crate::text::copy(payload) }),
                };
                (advance, StateEntry::Transcript { item: TranscriptEntry::RequestOutcome { request_id, outcome } })
            },
            Resolved::Tool { call, outcome } => {
                let cancelled = match &outcome {
                    Outcome::Cancelled { .. } => true,
                    _ => false,
                };
                let advance = if cancelled {
                    self.pending_calls = Vec::new();
                    Advance::TurnDone(Outcome::Cancelled { reason: owned("tool call cancelled") })
                } else if self.pending_calls.len() == 0 {
                    Advance::StartRequest
                } else {
                    Advance::StartTool
                };
                (advance, StateEntry::Transcript { item: TranscriptEntry::ToolOutcome { call_id: call.id, outcome } })
            },
        }
    }

    /// Ends the turn with `outcome` if one is under way; what to record
    /// and show, if anything.
    pub fn finish_turn(&mut self, outcome: Outcome<()>) -> (r: Option<Outcome<()>>)
        ensures
            !final(self).turn_live,
            r == if old(self).turn_live { Some(outcome) } else { None::<Outcome<()>> },
            final(self).pending_calls@ == old(self).pending_calls@,
            final(self).next_request_id == old(self).next_request_id,
            final(self).in_flight == old(self).in_flight,
    {
        if self.turn_live {
            self.turn_live = false;
            Some(outcome)
        } else {
            None
        }
    }

    /// The limb is gone before it accepted a call: the turn ends panicked.
    pub fn limb_gone(&mut self) -> (r: (Outcome<String>, Option<Outcome<()>>))
        ensures
            r.0 matches Outcome::Panicked { payload } && payload@ == "limb disappeared before accepting the tool call"@,
            if old(self).turn_live {
                r.1 matches Some(Outcome::Panicked { payload }) && payload@ == "limb disappeared before accepting the tool call"@
            } else {
                r.1 is None
            },
            final(self).pending_calls@.len() == 0,
            !final(self).turn_live,
            final(self).next_request_id == old(self).next_request_id,
            final(self).in_flight == old(self).in_flight,
    {
        let payload = owned("limb disappeared before accepting the tool call");
        let shown = Outcome::Panicked { payload: crate::text::copy(&payload) };
        self.pending_calls = Vec::new();
        let ended = self.finish_turn(Outcome::Panicked { payload });
        (shown, ended)
    }

    /// After a drain: a turn that would have gone on ends cancelled for
    /// `reason` instead, and no call is left pending.
    pub fn settle(&mut self, advance: Advance, reason: &str) -> (r: Option<Outcome<()>>)
        ensures
            !final(self).turn_live,
            final(self).pending_calls@.len() == 0,
            match advance {
                Advance::TurnDone(o) => r == if old(self).turn_live { Some(o) } else { None::<Outcome<()>> },
                _ => if old(self).turn_live {
                    r matches Some(Outcome::Cancelled { reason: x }) && x@ == reason@
                } else {
                    r is None
                },
            },
            final(self).next_request_id == old(self).next_request_id,
            final(self).in_flight == old(self).in_flight,
    {
        self.pending_calls = Vec::new();
        match advance {
            Advance::TurnDone(outcome) => self.finish_turn(outcome),
            _ => self.finish_turn(Outcome::Cancelled { reason: crate::text::owned(reason) }),
        }
    }
}

} // verus!
