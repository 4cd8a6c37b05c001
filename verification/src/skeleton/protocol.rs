//! The walking skeleton's vocabulary: wire messages, four-valued outcomes,
//! environment contributions, and the messages its participants exchange.
use vstd::prelude::*;
use crate::text::{copy, owned};

verus! {

#[derive(Debug)]
pub struct ToolCallFunction {
    pub name: String,
    /// JSON-encoded arguments object.
    pub arguments: String,
}

#[derive(Debug)]
pub struct ToolCall {
    pub id: String,
    pub call_type: String,
    pub function: ToolCallFunction,
}

/// One chat-completions message as it goes on the wire.
#[derive(Debug)]
pub struct WireMessage {
    pub role: String,
    pub content: Option<String>,
    pub tool_calls: Option<Vec<ToolCall>>,
    pub tool_call_id: Option<String>,
}

pub struct CallView {
    pub id: Seq<char>,
    pub call_type: Seq<char>,
    pub name: Seq<char>,
    pub arguments: Seq<char>,
}

pub struct WireView {
    pub role: Seq<char>,
    pub content: Option<Seq<char>>,
    pub tool_calls: Option<Seq<CallView>>,
    pub tool_call_id: Option<Seq<char>>,
}

impl View for ToolCall {
    type V = CallView;

    open spec fn view(&self) -> CallView {
        CallView {
            id: self.id@,
            call_type: self.call_type@,
            name: self.function.name@,
            arguments: self.function.arguments@,
        }
    }
}

pub open spec fn calls_view(v: Seq<ToolCall>) -> Seq<CallView> {
    v.map_values(|c: ToolCall| c@)
}

pub open spec fn opt_view(o: Option<String>) -> Option<Seq<char>> {
    match o {
        Some(s) => Some(s@),
        None => None,
    }
}

impl View for WireMessage {
    type V = WireView;

    open spec fn view(&self) -> WireView {
        WireView {
            role: self.role@,
            content: opt_view(self.content),
            tool_calls: match self.tool_calls {
                Some(v) => Some(calls_view(v@)),
                None => None,
            },
            tool_call_id: opt_view(self.tool_call_id),
        }
    }
}

pub open spec fn wires_view(v: Seq<WireMessage>) -> Seq<WireView> {
    v.map_values(|m: WireMessage| m@)
}

impl ToolCall {
    pub fn duplicate(&self) -> (r: ToolCall)
        ensures
            r@ == self@,
    {
        ToolCall {
            id: copy(&self.id),
            call_type: copy(&self.call_type),
            function: ToolCallFunction {
                name: copy(&self.function.name),
                arguments: copy(&self.function.arguments),
            },
        }
    }
}

pub fn copy_opt(o: &Option<String>) -> (r: Option<String>)
    ensures
        opt_view(r) == opt_view(*o),
{
    match o {
        Some(s) => Some(copy(s)),
        None => None,
    }
}

impl WireMessage {
    pub fn duplicate(&self) -> (r: WireMessage)
        ensures
            r@ == self@,
    {
        let tool_calls = match &self.tool_calls {
            Some(v) => {
                let mut out: Vec<ToolCall> = Vec::new();
                let mut i: usize = 0;
                while i < v.len()
                    invariant
                        i <= v@.len(),
                        calls_view(out@) == calls_view(v@).subrange(0, i as int),
                    decreases v@.len() - i,
                {
                    let ghost prev = calls_view(out@);
                    out.push(v[i].duplicate());
                    assert(calls_view(out@) =~= prev.push(v@[i as int]@));
                    i = i + 1;
                    assert(calls_view(out@) =~= calls_view(v@).subrange(0, i as int));
                }
                assert(calls_view(v@).subrange(0, i as int) =~= calls_view(v@));
                Some(out)
            },
            None => None,
        };
        WireMessage {
            role: copy(&self.role),
            content: copy_opt(&self.content),
            tool_calls,
            tool_call_id: copy_opt(&self.tool_call_id),
        }
    }
}

/// The type a tool call has when the wire leaves it out.
pub fn function_type() -> (r: String)
    ensures
        r@ == "function"@,
{
    owned("function")
}

/// Four-valued outcome: cancellation is a resolution of its own, distinct
/// from failure.
#[derive(Debug)]
pub enum Outcome<T> {
    Completed { value: T },
    Failed { error: String },
    Cancelled { reason: String },
    Panicked { payload: String },
}

/// An outcome seen as plain values.
pub enum OutcomeView<T> {
    Completed(T),
    Failed(Seq<char>),
    Cancelled(Seq<char>),
    Panicked(Seq<char>),
}

/// The resolution of an outcome whose value is seen through `f`.
pub open spec fn outcome_view<T, V>(o: Outcome<T>, f: spec_fn(T) -> V) -> OutcomeView<V> {
    match o {
        Outcome::Completed { value } => OutcomeView::Completed(f(value)),
        Outcome::Failed { error } => OutcomeView::Failed(error@),
        Outcome::Cancelled { reason } => OutcomeView::Cancelled(reason@),
        Outcome::Panicked { payload } => OutcomeView::Panicked(payload@),
    }
}

pub open spec fn text_outcome(o: Outcome<String>) -> OutcomeView<Seq<char>> {
    outcome_view(o, |s: String| s@)
}

pub open spec fn unit_outcome(o: Outcome<()>) -> OutcomeView<()> {
    outcome_view(o, |u: ()| ())
}

pub open spec fn answer_outcome(o: Outcome<AssistantMessage>) -> OutcomeView<AnswerView> {
    outcome_view(o, |m: AssistantMessage| m@)
}

/// The reasons of an outcome, copied; `value` becomes the copy's value.
fn copy_resolution<T, U>(o: &Outcome<T>, value: Option<U>) -> (r: Outcome<U>)
    requires
        o is Completed <==> value is Some,
    ensures
        match *o {
            Outcome::Completed { .. } => r == (Outcome::Completed { value: value.unwrap() }),
            Outcome::Failed { error } => r matches Outcome::Failed { error: e } && e@ == error@,
            Outcome::Cancelled { reason } => r matches Outcome::Cancelled { reason: e } && e@ == reason@,
            Outcome::Panicked { payload } => r matches Outcome::Panicked { payload: e } && e@ == payload@,
        },
{
    match o {
        Outcome::Completed { .. } => Outcome::Completed { value: value.unwrap() },
        Outcome::Failed { error } => Outcome::Failed { error: copy(error) },
        Outcome::Cancelled { reason } => Outcome::Cancelled { reason: copy(reason) },
        Outcome::Panicked { payload } => Outcome::Panicked { payload: copy(payload) },
    }
}

/// A copy of a tool outcome.
pub fn copy_text_outcome(o: &Outcome<String>) -> (r: Outcome<String>)
    ensures
        text_outcome(r) == text_outcome(*o),
{
    let value = match o {
        Outcome::Completed { value } => Some(copy(value)),
        _ => None,
    };
    copy_resolution(o, value)
}

/// A copy of a turn outcome.
pub fn copy_unit_outcome(o: &Outcome<()>) -> (r: Outcome<()>)
    ensures
        unit_outcome(r) == unit_outcome(*o),
{
    let value = match o {
        Outcome::Completed { .. } => Some(()),
        _ => None,
    };
    copy_resolution(o, value)
}

/// A copy of a provider outcome.
pub fn copy_answer_outcome(o: &Outcome<AssistantMessage>) -> (r: Outcome<AssistantMessage>)
    ensures
        answer_outcome(r) == answer_outcome(*o),
{
    let value = match o {
        Outcome::Completed { value } => Some(value.duplicate()),
        _ => None,
    };
    copy_resolution(o, value)
}

/// What the provider answered with.
#[derive(Debug)]
pub struct AssistantMessage {
    pub text: Option<String>,
    pub tool_calls: Vec<ToolCall>,
}

pub struct AnswerView {
    pub text: Option<Seq<char>>,
    pub tool_calls: Seq<CallView>,
}

impl View for AssistantMessage {
    type V = AnswerView;

    open spec fn view(&self) -> AnswerView {
        AnswerView { text: opt_view(self.text), tool_calls: calls_view(self.tool_calls@) }
    }
}

/// A copy of every call of `calls`.
pub fn copy_calls(calls: &Vec<ToolCall>) -> (r: Vec<ToolCall>)
    ensures
        calls_view(r@) == calls_view(calls@),
{
    let mut out: Vec<ToolCall> = Vec::new();
    let mut i: usize = 0;
    while i < calls.len()
        invariant
            i <= calls@.len(),
            calls_view(out@) == calls_view(calls@).subrange(0, i as int),
        decreases calls@.len() - i,
    {
        let ghost prev = calls_view(out@);
        out.push(calls[i].duplicate());
        assert(calls_view(out@) =~= prev.push(calls@[i as int]@));
        i = i + 1;
        assert(calls_view(out@) =~= calls_view(calls@).subrange(0, i as int));
    }
    assert(calls_view(calls@).subrange(0, i as int) =~= calls_view(calls@));
    out
}

impl AssistantMessage {
    pub fn duplicate(&self) -> (r: AssistantMessage)
        ensures
            r@ == self@,
    {
        AssistantMessage { text: copy_opt(&self.text), tool_calls: copy_calls(&self.tool_calls) }
    }
}

/// One contribution to the model's environment.
#[derive(Debug)]
pub enum Contribution {
    /// A textual environment fact, composed into the system prompt.
    Fact { text: String },
    /// A tool definition (its JSON text), sent as the request's `tools`.
    Tool { def: String },
}

pub enum BrainCommand {
    TurnEnd,
    Cancel,
    Rebuild,
    Quit,
}

pub enum BrainMsg {
    Command(BrainCommand),
    ToolOutcome { call_id: String, outcome: Outcome<String> },
}

pub enum LimbMsg {
    Execute { call: ToolCall },
    Cancel,
}

pub enum DisplayItem {
    RequestStarted { request_id: u64 },
    RequestResolved { outcome: Outcome<AssistantMessage> },
    ToolStarted { name: String, arguments: String },
    ToolResolved { outcome: Outcome<String> },
    TurnResolved { outcome: Outcome<()> },
    ContextRebuilt { wire_messages: usize },
    SessionClosed,
}

} // verus!
