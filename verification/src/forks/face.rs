//! What you watch while the tree runs: append-only lines prefixed with the
//! agent's path in the tree. An event is one line; a message entering an
//! agent's context is shown whole, as a bracketed header with its place in
//! that context, then its text with every line behind a `│`.
use vstd::prelude::*;
use crate::forks::wire::{Message, ToolCall};
use crate::json::{array_of, text_field, texts_view};
use crate::text::{cat, cat3, decimal, joined, lines_of, lines_upto, owned, padded, push_decimal, views};

verus! {

/// Whether event lines and messages are shown; what the user asked for is
/// always shown.
pub struct Face {
    pub verbose: bool,
}

/// The body lines of a block: each behind `│`, text after a space.
pub open spec fn block_lines(lines: Seq<Seq<char>>) -> Seq<char>
    decreases lines.len(),
{
    if lines.len() == 0 {
        Seq::empty()
    } else {
        block_lines(lines.drop_last()) + "\n    │"@ + if lines.last().len() > 0 {
            " "@ + lines.last()
        } else {
            Seq::empty()
        }
    }
}

/// Message `n` of an agent's context: a header line, then the text.
pub open spec fn block_text(path: Seq<char>, n: nat, header: Seq<char>, text: Seq<char>) -> Seq<char> {
    padded(path, 28) + " ["@ + decimal(n) + " "@ + header + "]"@ + (if text.len() == 0 {
        " (empty)"@
    } else {
        Seq::empty()
    }) + block_lines(lines_of(text))
}

/// One message shown whole.
pub fn block(path: &str, n: usize, header: &str, text: &str) -> (r: String)
    ensures
        r@ == block_text(path@, n as nat, header@, text@),
{
    let mut out = crate::text::pad_right(path, 28);
    out.append(" [");
    push_decimal(&mut out, n as u64);
    out.append(" ");
    out.append(header);
    out.append("]");
    let empty = text.unicode_len() == 0;
    if empty {
        out.append(" (empty)");
    }
    let ghost head = out@;
    let lines = lines_upto(text, text.unicode_len());
    let mut i: usize = 0;
    while i < lines.len()
        invariant
            i <= lines@.len(),
            views(lines@) == lines_of(text@),
            out@ == head + block_lines(views(lines@).subrange(0, i as int)),
        decreases lines@.len() - i,
    {
        let ghost sub = views(lines@).subrange(0, i + 1 as int);
        assert(sub.drop_last() =~= views(lines@).subrange(0, i as int));
        assert(sub.last() == lines@[i as int]@);
        out.append("\n    │");
        if lines[i].as_str().unicode_len() > 0 {
            out.append(" ");
            out.append(lines[i].as_str());
        }
        i = i + 1;
    }
    assert(views(lines@).subrange(0, i as int) =~= views(lines@));
    out
}

/// What a reasoning block shows: its thinking, or else its text.
pub open spec fn block_words(b: Seq<char>) -> Option<Seq<char>> {
    match text_field(b, "thinking"@) {
        Some(t) => Some(t),
        None => text_field(b, "text"@),
    }
}

/// The words of the reasoning blocks that show any, in order.
pub open spec fn shown_words(blocks: Seq<Seq<char>>) -> Seq<Seq<char>>
    decreases blocks.len(),
{
    if blocks.len() == 0 {
        Seq::empty()
    } else {
        let before = shown_words(blocks.drop_last());
        match block_words(blocks.last()) {
            Some(w) => if w.len() > 0 { before.push(w) } else { before },
            None => before,
        }
    }
}

/// The header of a message's text block.
pub open spec fn text_header(role: Seq<char>, call_id: Option<Seq<char>>, tool: Option<Seq<char>>) -> Seq<char> {
    match call_id {
        Some(id) => match tool {
            Some(t) => role + " "@ + t + " "@ + id,
            None => role + " "@ + id,
        },
        None => role,
    }
}

/// The part that shows a message's reasoning, if it has any blocks.
pub open spec fn reasoning_part(path: Seq<char>, n: nat, role: Seq<char>, details: Option<Seq<char>>) -> Option<Seq<char>> {
    match details {
        Some(d) => match array_of(d) {
            Some(blocks) => if blocks.len() > 0 {
                let words = shown_words(blocks);
                if words.len() == 0 {
                    Some(padded(path, 28) + " ["@ + decimal(n) + " "@ + role + " thinking] (the provider did not show it)"@)
                } else {
                    Some(block_text(path, n, role + " thinking"@, joined(words, "\n"@)))
                }
            } else {
                None
            },
            None => None,
        },
        None => None,
    }
}

/// The blocks of a message's tool calls.
pub open spec fn call_parts(path: Seq<char>, n: nat, role: Seq<char>, calls: Seq<crate::forks::wire::ToolCallView>) -> Seq<Seq<char>> {
    calls.map_values(|c: crate::forks::wire::ToolCallView| block_text(path, n, role + " tool_use "@ + c.name + " "@ + c.id, c.arguments))
}

/// Every part of a message as it is shown: its reasoning, its text (when
/// it has text, or no calls), and each call.
pub open spec fn message_parts(path: Seq<char>, n: nat, m: crate::forks::wire::MessageView, tool: Option<Seq<char>>) -> Seq<Seq<char>> {
    let text = match m.content {
        Some(t) => t,
        None => Seq::empty(),
    };
    let calls = match m.tool_calls {
        Some(cs) => cs,
        None => Seq::empty(),
    };
    let reasoning = match reasoning_part(path, n, m.role, m.reasoning_details) {
        Some(p) => seq![p],
        None => Seq::empty(),
    };
    let body = if text.len() > 0 || calls.len() == 0 {
        seq![block_text(path, n, text_header(m.role, m.tool_call_id, tool), text)]
    } else {
        Seq::empty()
    };
    reasoning + body + call_parts(path, n, m.role, calls)
}

/// The words of reasoning blocks written as `blocks`.
fn words_of(blocks: &Vec<String>) -> (r: Vec<String>)
    ensures
        views(r@) == shown_words(texts_view(blocks@)),
{
    let ghost all = texts_view(blocks@);
    let mut words: Vec<String> = Vec::new();
    let mut i: usize = 0;
    while i < blocks.len()
        invariant
            i <= blocks@.len(),
            all == texts_view(blocks@),
            views(words@) == shown_words(all.subrange(0, i as int)),
        decreases blocks@.len() - i,
    {
        let ghost sub = all.subrange(0, i + 1 as int);
        assert(sub.drop_last() =~= all.subrange(0, i as int));
        assert(sub.last() == blocks@[i as int]@);
        let found = match crate::json::text_member(blocks[i].as_str(), "thinking") {
            Some(t) => Some(t),
            None => crate::json::text_member(blocks[i].as_str(), "text"),
        };
        let ghost before = views(words@);
        if let Some(w) = found {
            if w.as_str().unicode_len() > 0 {
                words.push(w);
                assert(views(words@) =~= before.push(block_words(sub.last()).unwrap()));
            }
        }
        i = i + 1;
    }
    assert(all.subrange(0, i as int) =~= all);
    words
}

impl Face {
    pub fn new(verbose: bool) -> (r: Face)
        ensures
            r.verbose == verbose,
    {
        Face { verbose }
    }

    /// An event about one agent, unless the face is quiet.
    pub fn line(&self, path: &str, text: &str) -> (r: Option<String>)
        ensures
            match r {
                Some(t) => self.verbose && t@ == padded(path@, 28) + " "@ + text@,
                None => !self.verbose,
            },
    {
        if self.verbose {
            let mut t = crate::text::pad_right(path, 28);
            t.append(" ");
            t.append(text);
            Some(t)
        } else {
            None
        }
    }

    /// What goes to the terminal for something the user must see: the text
    /// and a line break. Never suppressed.
    pub fn say(&self, text: &str) -> (r: String)
        ensures
            r@ == text@ + "\n"@,
    {
        cat(text, "\n")
    }

    /// Message `n` of an agent's context, unless the face is quiet. `tool`
    /// names the tool a tool result answers.
    pub fn message(&self, path: &str, n: usize, message: &Message, tool: Option<&str>) -> (r: Option<String>)
        ensures
            match r {
                Some(t) => self.verbose && t@ == joined(
                    message_parts(path@, n as nat, message@, match tool {
                        Some(t) => Some(t@),
                        None => None,
                    }),
                    "\n"@,
                ),
                None => !self.verbose,
            },
    {
        if !self.verbose {
            return None;
        }
        let ghost m = message@;
        let ghost tool_view = match tool {
            Some(t) => Some(t@),
            None => None::<Seq<char>>,
        };
        let role = message.role.as_str();
        let mut parts: Vec<String> = Vec::new();
        let text: &str = match &message.content {
            Some(t) => t.as_str(),
            None => "",
        };
        proof {
            reveal_strlit("");
        }
        let no_calls = match &message.tool_calls {
            Some(cs) => cs.len() == 0,
            None => true,
        };
        if let Some(details) = &message.reasoning_details {
            if let Some(blocks) = crate::json::as_array(details.as_str()) {
                if blocks.len() > 0 {
                    let words = words_of(&blocks);
                    if words.len() == 0 {
                        let mut p = crate::text::pad_right(path, 28);
                        p.append(" [");
                        push_decimal(&mut p, n as u64);
                        p.append(" ");
                        p.append(role);
                        p.append(" thinking] (the provider did not show it)");
                        parts.push(p);
                    } else {
                        let header = cat(role, " thinking");
                        let joined_words = crate::text::join(&words, "\n");
                        parts.push(block(path, n, header.as_str(), joined_words.as_str()));
                    }
                }
            }
        }
        let ghost reasoning = views(parts@);
        assert(reasoning == match reasoning_part(path@, n as nat, m.role, m.reasoning_details) {
            Some(p) => seq![p],
            None => Seq::<Seq<char>>::empty(),
        });
        if text.unicode_len() > 0 || no_calls {
            let header = match &message.tool_call_id {
                Some(id) => match tool {
                    Some(t) => {
                        let mut h = cat3(role, " ", t);
                        h.append(" ");
                        h.append(id.as_str());
                        h
                    },
                    None => cat3(role, " ", id.as_str()),
                },
                None => owned(role),
            };
            assert(header@ == text_header(m.role, m.tool_call_id, tool_view));
            let ghost before = views(parts@);
            parts.push(block(path, n, header.as_str(), text));
            assert(views(parts@) =~= before.push(block_text(path@, n as nat, header@, text@)));
        }
        let ghost with_body = views(parts@);
        let ghost calls = match m.tool_calls {
            Some(cs) => cs,
            None => Seq::empty(),
        };
        assert(with_body =~= reasoning + if (match m.content { Some(t) => t, None => Seq::empty() }).len() > 0 || calls.len() == 0 {
            seq![block_text(path@, n as nat, text_header(m.role, m.tool_call_id, tool_view), match m.content { Some(t) => t, None => Seq::empty() })]
        } else {
            Seq::empty()
        });
        if let Some(cs) = &message.tool_calls {
            let mut k: usize = 0;
            while k < cs.len()
                invariant
                    k <= cs@.len(),
                    calls == crate::forks::wire::calls_view(cs@),
                    views(parts@) == with_body + call_parts(path@, n as nat, m.role, calls).subrange(0, k as int),
                    role@ == m.role,
                decreases cs@.len() - k,
            {
                let c: &ToolCall = &cs[k];
                let mut header = cat(role, " tool_use ");
                header.append(c.function.name.as_str());
                header.append(" ");
                header.append(c.id.as_str());
                let ghost before = views(parts@);
                let b = block(path, n, header.as_str(), c.function.arguments.as_str());
                let ghost bv = b@;
                parts.push(b);
                assert(call_parts(path@, n as nat, m.role, calls)[k as int] == bv);
                assert(views(parts@) =~= before.push(bv));
                assert(call_parts(path@, n as nat, m.role, calls).subrange(0, k + 1 as int)
                    =~= call_parts(path@, n as nat, m.role, calls).subrange(0, k as int).push(bv));
                assert(views(parts@) =~= with_body + call_parts(path@, n as nat, m.role, calls).subrange(0, k + 1 as int));
                k = k + 1;
            }
            assert(call_parts(path@, n as nat, m.role, calls).subrange(0, k as int) =~= call_parts(path@, n as nat, m.role, calls));
        } else {
            assert(call_parts(path@, n as nat, m.role, calls) =~= Seq::<Seq<char>>::empty());
            assert(views(parts@) =~= with_body + call_parts(path@, n as nat, m.role, calls));
        }
        assert(views(parts@) =~= message_parts(path@, n as nat, m, tool_view));
        Some(crate::text::join(&parts, "\n"))
    }
}

} // verus!
