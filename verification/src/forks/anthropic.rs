//! Anthropic's Messages API on a subscription token: which model names it
//! serves, and the one refusal that looks like a rate limit and is not.
use vstd::prelude::*;
use crate::json::{all_decimal, decimal_u64, digits_number, field_of, json_document, parse_json, text_field, JsonNode, JsonNodeView, JsonParse, JsonParseView};
use crate::forks::run::TokenUsage;
use crate::forks::wire::{Message, MessageView, ToolCall, ToolCallView};
use crate::text::joined;
use crate::text::cat;

verus! {

/// The `anthropic-version` header.
pub const VERSION: &'static str = "2023-06-01";
/// The beta a subscription token is accepted with.
pub const OAUTH_BETA: &'static str = "oauth-2025-04-20";

/// Whether `model` names an Anthropic model: `anthropic/<name>`.
pub open spec fn anthropic_named(model: Seq<char>) -> bool {
    model.len() >= 10 && model.subrange(0, 10) == "anthropic/"@
}

/// The subscription serves Anthropic's models under their own names:
/// `anthropic/<name>` is `<name>`.
pub fn model_id(model: &str) -> (r: Result<&str, String>)
    ensures
        match r {
            Ok(id) => anthropic_named(model@) && id@ == model@.subrange(10, model@.len() as int),
            Err(e) => !anthropic_named(model@) && e@
                == "the anthropic backend serves Anthropic models only, named anthropic/<model>; got "@ + model@,
        },
{
    proof {
        reveal_strlit("anthropic/");
    }
    let n = model.unicode_len();
    let prefix = "anthropic/";
    let mut ok = n >= 10;
    let mut i: usize = 0;
    while ok && i < 10
        invariant
            n == model@.len(),
            i <= 10,
            prefix@ == "anthropic/"@,
            prefix@.len() == 10,
            ok ==> n >= 10,
            ok ==> forall|k: int| 0 <= k < i ==> model@[k] == prefix@[k],
            !ok ==> !anthropic_named(model@),
        decreases 10 - i + (if ok { 1int } else { 0int }),
    {
        if model.get_char(i) != prefix.get_char(i) {
            ok = false;
            assert(!anthropic_named(model@)) by {
                if anthropic_named(model@) {
                    assert(model@.subrange(0, 10)[i as int] == model@[i as int]);
                }
            }
        } else {
            i = i + 1;
        }
    }
    if ok {
        assert(model@.subrange(0, 10) =~= "anthropic/"@);
        Ok(model.substring_char(10, n))
    } else {
        Err(cat("the anthropic backend serves Anthropic models only, named anthropic/<model>; got ", model))
    }
}

/// Whether a response is the identity refusal: a 429 whose body's error
/// message is `Error`.
pub open spec fn identity_rejected(status: u16, text: Seq<char>) -> bool {
    status == 429 && match field_of(text, "error"@) {
        Some(error) => text_field(error, "message"@) == Some("Error"@),
        None => false,
    }
}

/// The identity refusal: a 429 whose body's error message is `Error`.
/// Waiting it out can never work.
pub fn is_identity_rejection(status: u16, text: &str) -> (r: bool)
    ensures
        r == identity_rejected(status, text@),
{
    if status != 429 {
        return false;
    }
    match crate::json::field(text, "error") {
        Some(error) => match crate::json::text_member(error.as_str(), "message") {
            Some(message) => crate::text::same(message.as_str(), "Error"),
            None => false,
        },
        None => false,
    }
}

/// The most a subscription request may answer with.
pub const MAX_TOKENS: u64 = 16000;

/// The usage the Messages API reports.
pub struct AnthropicUsage {
    pub input_tokens: u64,
    pub cache_creation_input_tokens: u64,
    pub cache_read_input_tokens: u64,
    pub output_tokens: u64,
}

/// What a content block of a response is.
pub open spec fn block_type(block: Seq<char>) -> Seq<char> {
    match text_field(block, "type"@) {
        Some(t) => t,
        None => Seq::empty(),
    }
}

/// A `tool_use` block as a call: its input as compact JSON.
pub open spec fn call_of_block(block: Seq<char>) -> ToolCallView {
    ToolCallView {
        id: match text_field(block, "id"@) { Some(t) => t, None => Seq::empty() },
        call_type: "function"@,
        name: match text_field(block, "name"@) { Some(t) => t, None => Seq::empty() },
        arguments: match field_of(block, "input"@) { Some(t) => t, None => "null"@ },
    }
}

pub open spec fn is_thinking(t: Seq<char>) -> bool {
    t == "thinking"@ || t == "redacted_thinking"@
}

/// The first block that is none of text, tool use or thinking.
pub open spec fn stray_block(blocks: Seq<Seq<char>>) -> Option<Seq<char>>
    decreases blocks.len(),
{
    if blocks.len() == 0 {
        None
    } else {
        match stray_block(blocks.drop_last()) {
            Some(t) => Some(t),
            None => {
                let t = block_type(blocks.last());
                if t == "text"@ || t == "tool_use"@ || is_thinking(t) { None } else { Some(t) }
            },
        }
    }
}

/// The answer's text: every text block's text, in order.
pub open spec fn text_of_blocks(blocks: Seq<Seq<char>>) -> Seq<char>
    decreases blocks.len(),
{
    if blocks.len() == 0 {
        Seq::empty()
    } else {
        let before = text_of_blocks(blocks.drop_last());
        if block_type(blocks.last()) == "text"@ {
            before + match text_field(blocks.last(), "text"@) { Some(t) => t, None => Seq::empty() }
        } else {
            before
        }
    }
}

/// The answer's calls, in order.
pub open spec fn calls_of_blocks(blocks: Seq<Seq<char>>) -> Seq<ToolCallView>
    decreases blocks.len(),
{
    if blocks.len() == 0 {
        Seq::empty()
    } else {
        let before = calls_of_blocks(blocks.drop_last());
        if block_type(blocks.last()) == "tool_use"@ { before.push(call_of_block(blocks.last())) } else { before }
    }
}

/// The answer's thinking blocks, in order.
pub open spec fn thinking_of_blocks(blocks: Seq<Seq<char>>) -> Seq<Seq<char>>
    decreases blocks.len(),
{
    if blocks.len() == 0 {
        Seq::empty()
    } else {
        let before = thinking_of_blocks(blocks.drop_last());
        if is_thinking(block_type(blocks.last())) { before.push(blocks.last()) } else { before }
    }
}

/// The assistant message a response's content blocks make. Thinking
/// blocks are kept whole, as a JSON array, to be sent back.
pub open spec fn reply_message(blocks: Seq<Seq<char>>) -> MessageView {
    let calls = calls_of_blocks(blocks);
    let thinking = thinking_of_blocks(blocks);
    MessageView {
        role: "assistant"@,
        content: Some(text_of_blocks(blocks)),
        tool_calls: if calls.len() > 0 { Some(calls) } else { None },
        tool_call_id: None,
        reasoning_details: if thinking.len() > 0 { Some("["@ + joined(thinking, ","@) + "]"@) } else { None },
    }
}

/// The assistant message and its usage, from a response's content blocks
/// (each as compact JSON), its stop reason and its usage; `body` is the
/// whole response, compact, for the error that names a stray block. The
/// subscription is not billed per token.
pub fn reply(blocks: &Vec<String>, stop_reason: Option<&str>, usage: &AnthropicUsage, body: &str) -> (r: Result<(Message, TokenUsage), String>)
    requires
        usage.input_tokens + usage.cache_creation_input_tokens + usage.cache_read_input_tokens <= u64::MAX,
    ensures
        ({
            let bs = crate::json::texts_view(blocks@);
            if stop_reason matches Some(s) && s@ == "max_tokens"@ {
                r matches Err(e) && e@ == "the response hit max_tokens (16000) before it finished"@
            } else if stray_block(bs) is Some {
                r matches Err(e) && e@ == "the response had a `"@ + stray_block(bs).unwrap() + "` block: "@ + body@
            } else {
                r matches Ok(answer) && answer.0@ == reply_message(bs) && answer.1 == (TokenUsage {
                    prompt_tokens: (usage.input_tokens + usage.cache_creation_input_tokens + usage.cache_read_input_tokens) as u64,
                    completion_tokens: usage.output_tokens,
                    cached_tokens: usage.cache_read_input_tokens,
                    cache_write_tokens: usage.cache_creation_input_tokens,
                })
            }
        }),
{
    proof {
        reveal_strlit("max_tokens");
        reveal_strlit("text");
        reveal_strlit("tool_use");
        reveal_strlit("thinking");
        reveal_strlit("redacted_thinking");
    }
    if let Some(s) = stop_reason {
        if crate::text::same(s, "max_tokens") {
            return Err(crate::text::owned("the response hit max_tokens (16000) before it finished"));
        }
    }
    let ghost bs = crate::json::texts_view(blocks@);
    let mut text = String::new();
    let mut calls: Vec<ToolCall> = Vec::new();
    let mut thinking: Vec<String> = Vec::new();
    let mut i: usize = 0;
    while i < blocks.len()
        invariant
            i <= blocks@.len(),
            bs == crate::json::texts_view(blocks@),
            !(stop_reason matches Some(s) && s@ == "max_tokens"@),
            stray_block(bs.subrange(0, i as int)) is None,
            text@ == text_of_blocks(bs.subrange(0, i as int)),
            crate::forks::wire::calls_view(calls@) == calls_of_blocks(bs.subrange(0, i as int)),
            crate::text::views(thinking@) == thinking_of_blocks(bs.subrange(0, i as int)),
        decreases blocks@.len() - i,
    {
        let ghost next = bs.subrange(0, i + 1 as int);
        assert(next.drop_last() =~= bs.subrange(0, i as int));
        assert(next.last() == blocks@[i as int]@);
        proof {
            reveal_strlit("text");
            reveal_strlit("tool_use");
            reveal_strlit("thinking");
            reveal_strlit("redacted_thinking");
            assert("tool_use"@[1] != "thinking"@[1]);
        }
        let block = blocks[i].as_str();
        let kind = match crate::json::text_member(block, "type") {
            Some(t) => t,
            None => String::new(),
        };
        let k = kind.as_str();
        assert(k@ == block_type(next.last()));
        if crate::text::same(k, "text") {
            let ghost before = text@;
            if let Some(t) = crate::json::text_member(block, "text") {
                text.append(t.as_str());
            } else {
                assert(before + Seq::<char>::empty() =~= before);
            }
            assert(text@ =~= text_of_blocks(next));
        } else if crate::text::same(k, "tool_use") {
            let id = match crate::json::text_member(block, "id") { Some(t) => t, None => String::new() };
            let name = match crate::json::text_member(block, "name") { Some(t) => t, None => String::new() };
            let arguments = match crate::json::field(block, "input") { Some(t) => t, None => crate::text::owned("null") };
            let call = ToolCall {
                id,
                call_type: crate::text::owned("function"),
                function: crate::forks::wire::ToolCallFunction { name, arguments },
            };
            let ghost before = crate::forks::wire::calls_view(calls@);
            let ghost cv = call@;
            assert(cv == call_of_block(next.last()));
            calls.push(call);
            assert(crate::forks::wire::calls_view(calls@) =~= before.push(cv));
        } else if crate::text::same(k, "thinking") || crate::text::same(k, "redacted_thinking") {
            let ghost before = crate::text::views(thinking@);
            thinking.push(crate::text::copy(&blocks[i]));
            assert(crate::text::views(thinking@) =~= before.push(bs[i as int]));
        } else {
            proof {
                assert(stray_block(next) == Some(block_type(bs[i as int])));
                lemma_stray_prefix(bs, (i + 1) as nat);
            }
            let mut e = crate::text::cat3("the response had a `", k, "` block: ");
            e.append(body);
            assert(stray_block(bs) == Some(k@));
            assert(e@ == "the response had a `"@ + stray_block(bs).unwrap() + "` block: "@ + body@);
            return Err(e);
        }
        assert(text@ =~= text_of_blocks(next));
        assert(crate::forks::wire::calls_view(calls@) =~= calls_of_blocks(next));
        assert(crate::text::views(thinking@) =~= thinking_of_blocks(next));
        i = i + 1;
    }
    assert(bs.subrange(0, i as int) =~= bs);
    let has_calls = calls.len() > 0;
    let has_thinking = thinking.len() > 0;
    let reasoning = if has_thinking {
        let mut t = crate::text::owned("[");
        let inner = crate::text::join(&thinking, ",");
        t.append(inner.as_str());
        t.append("]");
        Some(t)
    } else {
        None
    };
    let message = Message {
        role: crate::text::owned("assistant"),
        content: Some(text),
        tool_calls: if has_calls { Some(calls) } else { None },
        tool_call_id: None,
        reasoning_details: reasoning,
    };
    let tokens = TokenUsage {
        prompt_tokens: usage.input_tokens + usage.cache_creation_input_tokens + usage.cache_read_input_tokens,
        completion_tokens: usage.output_tokens,
        cached_tokens: usage.cache_read_input_tokens,
        cache_write_tokens: usage.cache_creation_input_tokens,
    };
    Ok((message, tokens))
}

proof fn lemma_stray_prefix(bs: Seq<Seq<char>>, n: nat)
    requires
        n <= bs.len(),
        stray_block(bs.subrange(0, n as int)) is Some,
    ensures
        stray_block(bs) == stray_block(bs.subrange(0, n as int)),
    decreases bs.len() - n,
{
    if n < bs.len() {
        assert(bs.subrange(0, n + 1 as int).drop_last() =~= bs.subrange(0, n as int));
        lemma_stray_prefix(bs, n + 1);
    } else {
        assert(bs.subrange(0, n as int) =~= bs);
    }
}

/// One content block of a Messages API request.
pub enum Block {
    Text { text: String },
    /// A call, its input as the JSON text the call's arguments hold.
    ToolUse { id: String, name: String, input: String },
    ToolResult { tool_use_id: Option<String>, content: String },
    /// A block sent back as it came (thinking), as JSON.
    Raw { json: String },
}

pub enum BlockView {
    Text(Seq<char>),
    ToolUse(Seq<char>, Seq<char>, Seq<char>),
    ToolResult(Option<Seq<char>>, Seq<char>),
    Raw(Seq<char>),
}

impl View for Block {
    type V = BlockView;

    open spec fn view(&self) -> BlockView {
        match self {
            Block::Text { text } => BlockView::Text(text@),
            Block::ToolUse { id, name, input } => BlockView::ToolUse(id@, name@, input@),
            Block::ToolResult { tool_use_id, content } => BlockView::ToolResult(crate::forks::wire::opt_view(*tool_use_id), content@),
            Block::Raw { json } => BlockView::Raw(json@),
        }
    }
}

/// One message of a Messages API request.
pub struct Turn {
    /// `user` or `assistant`.
    pub role: String,
    pub content: Vec<Block>,
}

pub struct TurnView {
    pub role: Seq<char>,
    pub content: Seq<BlockView>,
}

pub open spec fn blocks_view(v: Seq<Block>) -> Seq<BlockView> {
    v.map_values(|b: Block| b@)
}

impl View for Turn {
    type V = TurnView;

    open spec fn view(&self) -> TurnView {
        TurnView { role: self.role@, content: blocks_view(self.content@) }
    }
}

pub open spec fn turns_view(v: Seq<Turn>) -> Seq<TurnView> {
    v.map_values(|t: Turn| t@)
}

pub open spec fn or_empty(o: Option<Seq<char>>) -> Seq<char> {
    match o {
        Some(t) => t,
        None => Seq::empty(),
    }
}

/// Whether a turn is a run of tool results: a user turn of results only.
pub open spec fn is_tool_results(t: TurnView) -> bool {
    t.role == "user"@ && forall|i: int| 0 <= i < t.content.len() ==> #[trigger] t.content[i] is ToolResult
}

/// The blocks an assistant message becomes: its thinking, its text when
/// it has any, then its calls.
pub open spec fn assistant_blocks(m: MessageView) -> Seq<BlockView> {
    let thinking = match m.reasoning_details {
        Some(d) => match crate::json::array_of(d) {
            Some(items) => items.map_values(|b: Seq<char>| BlockView::Raw(b)),
            None => Seq::empty(),
        },
        None => Seq::empty(),
    };
    let text = or_empty(m.content);
    let calls = match m.tool_calls {
        Some(cs) => cs.map_values(|c: ToolCallView| BlockView::ToolUse(c.id, c.name, c.arguments)),
        None => Seq::empty(),
    };
    thinking + (if text.len() > 0 { seq![BlockView::Text(text)] } else { Seq::empty() }) + calls
}

/// The messages a transcript becomes, system messages aside: a run of tool
/// results is one user message, which is where Anthropic wants the answers
/// to one turn's calls.
pub open spec fn turns_of(ms: Seq<MessageView>) -> Seq<TurnView>
    decreases ms.len(),
{
    if ms.len() == 0 {
        Seq::empty()
    } else {
        let before = turns_of(ms.drop_last());
        let m = ms.last();
        if m.role == "system"@ {
            before
        } else if m.role == "user"@ {
            before.push(TurnView { role: "user"@, content: seq![BlockView::Text(or_empty(m.content))] })
        } else if m.role == "assistant"@ {
            before.push(TurnView { role: "assistant"@, content: assistant_blocks(m) })
        } else {
            let result = BlockView::ToolResult(m.tool_call_id, or_empty(m.content));
            if before.len() > 0 && is_tool_results(before.last()) {
                before.update(before.len() - 1, TurnView { role: "user"@, content: before.last().content.push(result) })
            } else {
                before.push(TurnView { role: "user"@, content: seq![result] })
            }
        }
    }
}

/// The system blocks: every system message's text, in order.
pub open spec fn system_of(ms: Seq<MessageView>) -> Seq<Seq<char>>
    decreases ms.len(),
{
    if ms.len() == 0 {
        Seq::empty()
    } else {
        let before = system_of(ms.drop_last());
        if ms.last().role == "system"@ { before.push(or_empty(ms.last().content)) } else { before }
    }
}

pub open spec fn known_role(r: Seq<char>) -> bool {
    r == "system"@ || r == "user"@ || r == "assistant"@ || r == "tool"@
}

/// A request transcript in the Messages API's shape: the system blocks,
/// then the messages.
pub fn request_turns(transcript: &Vec<Message>) -> (r: (Vec<String>, Vec<Turn>))
    requires
        forall|i: int| 0 <= i < transcript@.len() ==> known_role(#[trigger] transcript@[i]@.role),
    ensures
        crate::text::views(r.0@) == system_of(crate::forks::wire::messages_view(transcript@)),
        turns_view(r.1@) == turns_of(crate::forks::wire::messages_view(transcript@)),
{
    let ghost ms = crate::forks::wire::messages_view(transcript@);
    let mut system: Vec<String> = Vec::new();
    let mut turns: Vec<Turn> = Vec::new();
    let mut i: usize = 0;
    while i < transcript.len()
        invariant
            i <= transcript@.len(),
            ms == crate::forks::wire::messages_view(transcript@),
            forall|k: int| 0 <= k < transcript@.len() ==> known_role(#[trigger] transcript@[k]@.role),
            crate::text::views(system@) == system_of(ms.subrange(0, i as int)),
            turns_view(turns@) == turns_of(ms.subrange(0, i as int)),
        decreases transcript@.len() - i,
    {
        let ghost next = ms.subrange(0, i + 1 as int);
        assert(next.drop_last() =~= ms.subrange(0, i as int));
        assert(next.last() == transcript@[i as int]@);
        assert(known_role(transcript@[i as int]@.role));
        proof {
            reveal_strlit("system");
            reveal_strlit("user");
            reveal_strlit("assistant");
            reveal_strlit("tool");
            assert("user"@[0] != "tool"@[0]);
        }
        let m = &transcript[i];
        let text = match &m.content {
            Some(t) => crate::text::copy(t),
            None => String::new(),
        };
        assert(text@ == or_empty(m@.content));
        let ghost before_turns = turns_view(turns@);
        let ghost before_system = crate::text::views(system@);
        if crate::text::same(m.role.as_str(), "system") {
            system.push(text);
            assert(crate::text::views(system@) =~= before_system.push(or_empty(m@.content)));
        } else if crate::text::same(m.role.as_str(), "user") {
            let mut content: Vec<Block> = Vec::new();
            content.push(Block::Text { text });
            let turn = Turn { role: crate::text::owned("user"), content };
            assert(blocks_view(turn.content@) =~= seq![BlockView::Text(or_empty(m@.content))]);
            turns.push(turn);
            assert(turns_view(turns@) =~= before_turns.push(TurnView { role: "user"@, content: seq![BlockView::Text(or_empty(m@.content))] }));
        } else if crate::text::same(m.role.as_str(), "assistant") {
            let content = assistant_content(m);
            let turn = Turn { role: crate::text::owned("assistant"), content };
            turns.push(turn);
            assert(turns_view(turns@) =~= before_turns.push(TurnView { role: "assistant"@, content: assistant_blocks(m@) }));
        } else {
            let result = Block::ToolResult { tool_use_id: crate::forks::wire::copy_opt(&m.tool_call_id), content: text };
            let ghost rv = result@;
            let n = turns.len();
            let append = n > 0 && turn_is_tool_results(&turns[n - 1]);
            if append {
                let mut last = turns.pop().unwrap();
                let ghost lc = blocks_view(last.content@);
                last.content.push(result);
                assert(blocks_view(last.content@) =~= lc.push(rv));
                turns.push(last);
                assert(turns_view(turns@) =~= before_turns.update(before_turns.len() - 1, TurnView {
                    role: "user"@,
                    content: before_turns.last().content.push(rv),
                }));
            } else {
                let mut content: Vec<Block> = Vec::new();
                content.push(result);
                let turn = Turn { role: crate::text::owned("user"), content };
                assert(blocks_view(turn.content@) =~= seq![rv]);
                turns.push(turn);
                assert(turns_view(turns@) =~= before_turns.push(TurnView { role: "user"@, content: seq![rv] }));
            }
        }
        i = i + 1;
    }
    assert(ms.subrange(0, i as int) =~= ms);
    (system, turns)
}

fn turn_is_tool_results(t: &Turn) -> (r: bool)
    ensures
        r == is_tool_results(t@),
{
    if !crate::text::same(t.role.as_str(), "user") {
        return false;
    }
    let mut i: usize = 0;
    while i < t.content.len()
        invariant
            i <= t.content@.len(),
            forall|k: int| 0 <= k < i ==> #[trigger] blocks_view(t.content@)[k] is ToolResult,
        decreases t.content@.len() - i,
    {
        let is_result = match &t.content[i] {
            Block::ToolResult { .. } => true,
            _ => false,
        };
        if !is_result {
            assert(!(blocks_view(t.content@)[i as int] is ToolResult));
            return false;
        }
        i = i + 1;
    }
    true
}

/// The blocks of an assistant message.
fn assistant_content(m: &Message) -> (r: Vec<Block>)
    ensures
        blocks_view(r@) == assistant_blocks(m@),
{
    let mut content: Vec<Block> = Vec::new();
    if let Some(details) = &m.reasoning_details {
        if let Some(items) = crate::json::as_array(details.as_str()) {
            let ghost iv = crate::json::texts_view(items@);
            let mut k: usize = 0;
            while k < items.len()
                invariant
                    k <= items@.len(),
                    iv == crate::json::texts_view(items@),
                    blocks_view(content@) == iv.subrange(0, k as int).map_values(|b: Seq<char>| BlockView::Raw(b)),
                decreases items@.len() - k,
            {
                let ghost before = blocks_view(content@);
                content.push(Block::Raw { json: crate::text::copy(&items[k]) });
                assert(blocks_view(content@) =~= before.push(BlockView::Raw(iv[k as int])));
                assert(iv.subrange(0, k + 1 as int).map_values(|b: Seq<char>| BlockView::Raw(b))
                    =~= iv.subrange(0, k as int).map_values(|b: Seq<char>| BlockView::Raw(b)).push(BlockView::Raw(iv[k as int])));
                k = k + 1;
            }
            assert(iv.subrange(0, k as int) =~= iv);
        }
    }
    let ghost thinking = blocks_view(content@);
    let ghost text_part = if or_empty(m@.content).len() > 0 { seq![BlockView::Text(or_empty(m@.content))] } else { Seq::<BlockView>::empty() };
    if let Some(text) = &m.content {
        if text.as_str().unicode_len() > 0 {
            content.push(Block::Text { text: crate::text::copy(text) });
        }
    }
    assert(blocks_view(content@) =~= thinking + text_part);
    let ghost head = blocks_view(content@);
    if let Some(calls) = &m.tool_calls {
        let ghost cs = crate::forks::wire::calls_view(calls@);
        let mut j: usize = 0;
        while j < calls.len()
            invariant
                j <= calls@.len(),
                cs == crate::forks::wire::calls_view(calls@),
                blocks_view(content@) == head + cs.subrange(0, j as int).map_values(|c: ToolCallView| BlockView::ToolUse(c.id, c.name, c.arguments)),
            decreases calls@.len() - j,
        {
            let c = &calls[j];
            let ghost before = blocks_view(content@);
            content.push(Block::ToolUse {
                id: crate::text::copy(&c.id),
                name: crate::text::copy(&c.function.name),
                input: crate::text::copy(&c.function.arguments),
            });
            let ghost b = BlockView::ToolUse(cs[j as int].id, cs[j as int].name, cs[j as int].arguments);
            assert(blocks_view(content@) =~= before.push(b));
            assert(cs.subrange(0, j + 1 as int).map_values(|c: ToolCallView| BlockView::ToolUse(c.id, c.name, c.arguments))
                =~= cs.subrange(0, j as int).map_values(|c: ToolCallView| BlockView::ToolUse(c.id, c.name, c.arguments)).push(b));
            j = j + 1;
        }
        assert(cs.subrange(0, j as int) =~= cs);
    } else {
        assert(head =~= head + Seq::<BlockView>::empty());
    }
    content
}


/// `value.as_i64()` of a number written as `n`: decimal digits, possibly
/// after a minus sign, that fit in an `i64`.
pub open spec fn i64_digits(n: Seq<char>) -> Option<i64> {
    if all_decimal(n) && digits_number(n) <= i64::MAX {
        Some(digits_number(n) as i64)
    } else if n.len() > 1 && n[0] == '-' && all_decimal(n.drop_first()) && digits_number(n.drop_first()) <= 0x8000_0000_0000_0000 {
        Some((0 - digits_number(n.drop_first())) as i64)
    } else {
        None
    }
}

/// The expiry, in milliseconds since the epoch, a stored credential gives:
/// its `expires` member, when that is an integer that fits in an `i64`.
pub open spec fn stored_expiry(value: Seq<char>) -> Option<i64> {
    match field_of(value, "expires"@) {
        Some(t) => match json_document(t) {
            JsonParseView::Valid(JsonNodeView::Number(n)) => i64_digits(n),
            _ => None,
        },
        None => None,
    }
}

/// Why a stored credential cannot be used.
pub enum CredentialRefusal {
    /// It is not an OAuth token: no `access` text or no integer `expires`.
    NotOAuth,
    /// It expires within the minute, or has expired.
    Expired { expires: i64 },
}

fn digits_i64(n: &str) -> (r: Option<i64>)
    ensures
        r == i64_digits(n@),
{
    if let Some(u) = decimal_u64(n) {
        if u <= 0x7fff_ffff_ffff_ffff {
            return Some(u as i64);
        }
    }
    let v = crate::text::chars_of(n);
    if v.len() > 1 && v[0] == '-' {
        let rest = crate::text::string_of(&v, 1, v.len());
        assert(rest@ =~= n@.drop_first());
        if let Some(u) = decimal_u64(rest.as_str()) {
            if u <= 0x8000_0000_0000_0000 {
                let m: i128 = 0 - (u as i128);
                return Some(m as i64);
            }
        }
    }
    None
}

/// The access token of a stored subscription credential, with a minute's
/// margin so that it does not expire in flight: refused as no OAuth token
/// when the stored value lacks an `access` text or an integer `expires`,
/// and as expired when it expires no more than a minute after `now_ms`.
pub fn credential_token(value: &str, now_ms: i64) -> (r: Result<String, CredentialRefusal>)
    ensures
        match r {
            Ok(a) => text_field(value@, "access"@) == Some(a@)
                && (stored_expiry(value@) matches Some(e) && e > now_ms + 60_000),
            Err(CredentialRefusal::Expired { expires }) => text_field(value@, "access"@) is Some
                && stored_expiry(value@) == Some(expires) && expires <= now_ms + 60_000,
            Err(CredentialRefusal::NotOAuth) => text_field(value@, "access"@) is None || stored_expiry(value@) is None,
        },
{
    let access = match crate::json::text_member(value, "access") {
        Some(a) => a,
        None => return Err(CredentialRefusal::NotOAuth),
    };
    let expires = match crate::json::field(value, "expires") {
        Some(t) => match parse_json(t.as_str()) {
            JsonParse::Valid(JsonNode::Number(n)) => digits_i64(n.as_str()),
            _ => None,
        },
        None => None,
    };
    match expires {
        None => Err(CredentialRefusal::NotOAuth),
        Some(e) => if (e as i128) <= (now_ms as i128) + 60_000 {
            Err(CredentialRefusal::Expired { expires: e })
        } else {
            Ok(access)
        },
    }
}

} // verus!
