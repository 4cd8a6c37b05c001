//! The transcript's message types, the two provider backends, and how a
//! failed HTTP attempt is classified. A message is stored exactly as it is
//! sent, so a forked child's copy of its parent's messages is the same text.
use vstd::prelude::*;
use crate::text::{copy, owned};

verus! {

#[derive(Debug)]
pub struct ToolCallFunction {
    pub name: String,
    /// JSON-encoded arguments object.
    pub arguments: String,
}

#[derive(Debug)]
pub struct ToolCall {
    pub id: String,
    pub call_type: String,
    pub function: ToolCallFunction,
}

#[derive(Debug)]
pub struct Message {
    pub role: String,
    pub content: Option<String>,
    pub tool_calls: Option<Vec<ToolCall>>,
    pub tool_call_id: Option<String>,
    /// The provider's reasoning blocks, as JSON text, echoed back verbatim.
    pub reasoning_details: Option<String>,
}

pub struct ToolCallView {
    pub id: Seq<char>,
    pub call_type: Seq<char>,
    pub name: Seq<char>,
    pub arguments: Seq<char>,
}

pub struct MessageView {
    pub role: Seq<char>,
    pub content: Option<Seq<char>>,
    pub tool_calls: Option<Seq<ToolCallView>>,
    pub tool_call_id: Option<Seq<char>>,
    pub reasoning_details: Option<Seq<char>>,
}

pub open spec fn opt_view(o: Option<String>) -> Option<Seq<char>> {
    match o {
        Some(s) => Some(s@),
        None => None,
    }
}

pub open spec fn calls_view(v: Seq<ToolCall>) -> Seq<ToolCallView> {
    v.map_values(|c: ToolCall| c@)
}

impl View for ToolCall {
    type V = ToolCallView;

    open spec fn view(&self) -> ToolCallView {
        ToolCallView {
            id: self.id@,
            call_type: self.call_type@,
            name: self.function.name@,
            arguments: self.function.arguments@,
        }
    }
}

impl View for Message {
    type V = MessageView;

    open spec fn view(&self) -> MessageView {
        MessageView {
            role: self.role@,
            content: opt_view(self.content),
            tool_calls: match self.tool_calls {
                Some(v) => Some(calls_view(v@)),
                None => None,
            },
            tool_call_id: opt_view(self.tool_call_id),
            reasoning_details: opt_view(self.reasoning_details),
        }
    }
}

pub open spec fn messages_view(v: Seq<Message>) -> Seq<MessageView> {
    v.map_values(|m: Message| m@)
}

pub fn copy_opt(o: &Option<String>) -> (r: Option<String>)
    ensures
        opt_view(r) == opt_view(*o),
{
    match o {
        Some(s) => Some(copy(s)),
        None => None,
    }
}

impl ToolCall {
    pub fn duplicate(&self) -> (r: ToolCall)
        ensures
            r@ == self@,
    {
        ToolCall {
            id: copy(&self.id),
            call_type: copy(&self.call_type),
            function: ToolCallFunction {
                name: copy(&self.function.name),
                arguments: copy(&self.function.arguments),
            },
        }
    }
}

pub fn copy_calls(v: &Vec<ToolCall>) -> (r: Vec<ToolCall>)
    ensures
        calls_view(r@) == calls_view(v@),
{
    let mut out: Vec<ToolCall> = Vec::new();
    let mut i: usize = 0;
    while i < v.len()
        invariant
            i <= v@.len(),
            calls_view(out@) == calls_view(v@).subrange(0, i as int),
        decreases v@.len() - i,
    {
        let ghost prev = calls_view(out@);
        out.push(v[i].duplicate());
        assert(calls_view(out@) =~= prev.push(v@[i as int]@));
        i = i + 1;
        assert(calls_view(out@) =~= calls_view(v@).subrange(0, i as int));
    }
    assert(calls_view(v@).subrange(0, i as int) =~= calls_view(v@));
    out
}

impl Message {
    pub fn new(role: &str, content: &str) -> (r: Message)
        ensures
            r@ == (MessageView {
                role: role@,
                content: Some(content@),
                tool_calls: None,
                tool_call_id: None,
                reasoning_details: None,
            }),
    {
        Message {
            role: owned(role),
            content: Some(owned(content)),
            tool_calls: None,
            tool_call_id: None,
            reasoning_details: None,
        }
    }

    pub fn tool_result(tool_call_id: &str, content: &str) -> (r: Message)
        ensures
            r@ == (MessageView {
                role: "tool"@,
                content: Some(content@),
                tool_calls: None,
                tool_call_id: Some(tool_call_id@),
                reasoning_details: None,
            }),
    {
        Message {
            role: owned("tool"),
            content: Some(owned(content)),
            tool_calls: None,
            tool_call_id: Some(owned(tool_call_id)),
            reasoning_details: None,
        }
    }

    pub fn duplicate(&self) -> (r: Message)
        ensures
            r@ == self@,
    {
        Message {
            role: copy(&self.role),
            content: copy_opt(&self.content),
            tool_calls: match &self.tool_calls {
                Some(v) => Some(copy_calls(v)),
                None => None,
            },
            tool_call_id: copy_opt(&self.tool_call_id),
            reasoning_details: copy_opt(&self.reasoning_details),
        }
    }
}

/// The messages `v[from..to]`, copied.
pub fn copy_messages(v: &Vec<Message>, from: usize, to: usize) -> (r: Vec<Message>)
    requires
        from <= to <= v@.len(),
    ensures
        messages_view(r@) == messages_view(v@).subrange(from as int, to as int),
{
    let mut out: Vec<Message> = Vec::new();
    let mut i: usize = from;
    while i < to
        invariant
            from <= i <= to,
            to <= v@.len(),
            messages_view(out@) == messages_view(v@).subrange(from as int, i as int),
        decreases to - i,
    {
        let ghost prev = messages_view(out@);
        out.push(v[i].duplicate());
        assert(messages_view(out@) =~= prev.push(v@[i as int]@));
        i = i + 1;
        assert(messages_view(out@) =~= messages_view(v@).subrange(from as int, i as int));
    }
    out
}

/// The type a tool call has when the wire leaves it out.
pub fn function_type() -> (r: String)
    ensures
        r@ == "function"@,
{
    owned("function")
}

/// OpenRouter's chat-completions API on a key, or Anthropic's Messages API
/// on a subscription token.
pub enum Backend {
    OpenRouter {
        base_url: String,
        api_key: Option<String>,
        /// Pinned routing.
        provider: Option<String>,
    },
    Anthropic {
        base_url: String,
        /// The identity text Anthropic requires as the first system message.
        identity: String,
        /// Where opencode keeps the subscription token.
        credentials: String,
    },
}

impl Backend {
    pub fn name(&self) -> (r: &'static str)
        ensures
            r@ == match self {
                Backend::OpenRouter { .. } => "openrouter"@,
                Backend::Anthropic { .. } => "anthropic"@,
            },
    {
        match self {
            Backend::OpenRouter { .. } => "openrouter",
            Backend::Anthropic { .. } => "anthropic",
        }
    }

    pub fn provider(&self) -> (r: Option<&str>)
        ensures
            match self {
                Backend::OpenRouter { provider, .. } => match provider {
                    Some(p) => r matches Some(x) && x@ == p@,
                    None => r is None,
                },
                Backend::Anthropic { .. } => r is None,
            },
    {
        match self {
            Backend::OpenRouter { provider, .. } => match provider {
                Some(p) => Some(p.as_str()),
                None => None,
            },
            Backend::Anthropic { .. } => None,
        }
    }

    /// The system messages every agent in a run starts with: the identity
    /// first on the subscription, then the prompt.
    pub fn system(&self, prompt: &str) -> (r: Vec<Message>)
        ensures
            messages_view(r@) == match self {
                Backend::Anthropic { identity, .. } => seq![system_message(identity@), system_message(prompt@)],
                Backend::OpenRouter { .. } => seq![system_message(prompt@)],
            },
    {
        let mut system: Vec<Message> = Vec::new();
        if let Backend::Anthropic { identity, .. } = self {
            system.push(Message::new("system", identity.as_str()));
        }
        system.push(Message::new("system", prompt));
        assert(messages_view(system@) =~= match self {
            Backend::Anthropic { identity, .. } => seq![system_message(identity@), system_message(prompt@)],
            Backend::OpenRouter { .. } => seq![system_message(prompt@)],
        });
        system
    }
}

pub open spec fn system_message(text: Seq<char>) -> MessageView {
    MessageView {
        role: "system"@,
        content: Some(text),
        tool_calls: None,
        tool_call_id: None,
        reasoning_details: None,
    }
}

#[derive(Debug, Clone, Copy, Default)]
pub struct PromptTokensDetails {
    pub cached_tokens: u64,
    pub cache_write_tokens: u64,
}

/// A failed attempt that is worth another.
pub struct Retryable {
    pub reason: String,
    /// A rate limit: the provider asks us to come back.
    pub rate_limited: bool,
    /// What the provider asked us to wait, in nanoseconds, when it said.
    pub retry_after: Option<u128>,
}

/// What a failed HTTP attempt means for the request.
pub enum Failure {
    /// Worth another attempt: the network, a 429, a 5xx, a timeout.
    Transient(Retryable),
    /// An out-of-band fault the harness cannot get past.
    Fatal(String),
}

/// A status worth another attempt, and whether it is a rate limit.
pub open spec fn retryable(code: u16) -> Option<bool> {
    if code == 429 {
        Some(true)
    } else if code == 408 || (500 <= code <= 599) {
        Some(false)
    } else {
        None
    }
}

pub fn retryable_status(code: u16) -> (r: Option<bool>)
    ensures
        r == retryable(code),
{
    if code == 429 {
        Some(true)
    } else if code == 408 || (500 <= code && code <= 599) {
        Some(false)
    } else {
        None
    }
}

/// A failed attempt with status `code`: transient when the status is worth
/// another attempt, fatal otherwise; the reason is kept either way.
pub fn classify(code: u16, reason: String, wait: Option<u128>) -> (r: Failure)
    ensures
        match retryable(code) {
            Some(rate_limited) => r matches Failure::Transient(again) && again.reason@ == reason@
                && again.rate_limited == rate_limited && again.retry_after == wait,
            None => r matches Failure::Fatal(why) && why@ == reason@,
        },
{
    match retryable_status(code) {
        Some(rate_limited) => Failure::Transient(Retryable { reason, rate_limited, retry_after: wait }),
        None => Failure::Fatal(reason),
    }
}

/// What a `Retry-After` header asks to wait, in nanoseconds: whole
/// seconds, as `str::parse::<u64>` reads the trimmed value. An HTTP-date
/// is not read; the backoff schedule stands instead.
pub open spec fn retry_after_of(header: Seq<char>) -> Option<u128> {
    let t = crate::text::trimmed(header);
    let d = if t.len() > 0 && t[0] == '+' { t.subrange(1, t.len() as int) } else { t };
    if crate::json::all_decimal(d) && crate::json::digits_number(d) <= u64::MAX {
        Some((crate::json::digits_number(d) * 1_000_000_000) as u128)
    } else {
        None
    }
}

pub fn retry_after(header: Option<&str>) -> (r: Option<u128>)
    ensures
        r == match header {
            Some(h) => retry_after_of(h@),
            None => None,
        },
{
    match header {
        None => None,
        Some(h) => {
            let t = crate::text::trim(h);
            let v = crate::text::chars_of(t.as_str());
            let digits = if v.len() > 0 && v[0] == '+' {
                crate::text::string_of(&v, 1, v.len())
            } else {
                t
            };
            match crate::json::decimal_u64(digits.as_str()) {
                Some(secs) => {
                    assert(secs * 1_000_000_000 <= u128::MAX) by (nonlinear_arith)
                        requires secs <= u64::MAX;
                    Some(secs as u128 * 1_000_000_000)
                },
                None => None,
            }
        },
    }
}

/// The error object OpenRouter may send inside a 200: its `code` as a
/// status (an absent or unreadable code is 0), when there is one.
pub open spec fn upstream_code(body: Seq<char>) -> Option<u16> {
    match crate::json::field_of(body, "error"@) {
        Some(error) => Some(match crate::json::u64_field(error, "code"@) {
            Some(c) => (c % 65536) as u16,
            None => 0,
        }),
        None => None,
    }
}

/// An upstream failure reported inside a successful response: OpenRouter
/// sends even rate limits this way, so it is classified by its own code.
pub fn upstream_error(body: &str, text: &str, wait: Option<u128>) -> (r: Option<Failure>)
    ensures
        match upstream_code(body@) {
            Some(code) => r matches Some(f) && match retryable(code) {
                Some(rate_limited) => f matches Failure::Transient(again)
                    && again.reason@ == "provider returned an error: "@ + text@
                    && again.rate_limited == rate_limited && again.retry_after == wait,
                None => f matches Failure::Fatal(why) && why@ == "provider returned an error: "@ + text@,
            },
            None => r is None,
        },
{
    match crate::json::field(body, "error") {
        Some(error) => {
            let code: u16 = match crate::json::u64_member(error.as_str(), "code") {
                Some(c) => (c % 65536) as u16,
                None => 0,
            };
            Some(classify(code, crate::text::cat("provider returned an error: ", text), wait))
        },
        None => None,
    }
}

/// A response whose status is not a success: `status` is how the status
/// prints, `code` its number. The subscription's identity refusal is a
/// fault; anything else is classified by its code.
pub fn status_failure(code: u16, status: &str, text: &str, wait: Option<u128>, on_subscription: bool) -> (r: Failure)
    ensures
        ({
            let reason = "provider returned "@ + status@ + ": "@ + text@;
            if on_subscription && crate::forks::anthropic::identity_rejected(code, text@) {
                r matches Failure::Fatal(why) && why@ == "Anthropic rejected the request identity: system[0] was not accepted as the identity the subscription requires. This is a 429 but not a rate limit, so it is not retried. "@ + reason
            } else {
                match retryable(code) {
                    Some(rate_limited) => r matches Failure::Transient(again) && again.reason@ == reason
                        && again.rate_limited == rate_limited && again.retry_after == wait,
                    None => r matches Failure::Fatal(why) && why@ == reason,
                }
            }
        }),
{
    let mut reason = crate::text::cat3("provider returned ", status, ": ");
    reason.append(text);
    if on_subscription && crate::forks::anthropic::is_identity_rejection(code, text) {
        let why = crate::text::cat(
            "Anthropic rejected the request identity: system[0] was not accepted as the identity the subscription requires. This is a 429 but not a rate limit, so it is not retried. ",
            reason.as_str(),
        );
        return Failure::Fatal(why);
    }
    classify(code, reason, wait)
}

/// A success whose body does not parse: the parser's words and the body.
pub fn unreadable_response(text: &str) -> (r: Option<String>)
    ensures
        match crate::json::json_document(text@) {
            crate::json::JsonParseView::Invalid(e) => r matches Some(m) && m@ == "response was not JSON: "@ + e + "; body: "@ + text@,
            _ => r is None,
        },
{
    match crate::json::parse_json(text) {
        crate::json::JsonParse::Invalid(e) => {
            let mut m = crate::text::cat("response was not JSON: ", e.as_str());
            m.append("; body: ");
            m.append(text);
            Some(m)
        },
        _ => None,
    }
}

} // verus!
