//! The face's decisions: what a typed line asks for, how each display item
//! reads on the terminal, and what an opened file contributes.
use vstd::prelude::*;
use crate::skeleton::protocol::{DisplayItem, Outcome};
use crate::text::{cat, cat3, chars_of, decimal, joined, lines_from, lines_upto, owned, push_decimal, string_of, trimmed, views};

verus! {

/// What a typed line asks the face to do.
pub enum LineAction {
    /// A blank line.
    Nothing,
    Quit,
    End,
    Cancel,
    Rebuild,
    Dump,
    /// `/open <path>`: read a file and record it as user activity.
    Open { path: String },
    /// Any other text: stage it as a user message.
    Stage { text: String },
}

/// `s` with every leading `/open ` taken off.
pub open spec fn strip_open(s: Seq<char>) -> Seq<char>
    decreases s.len(),
{
    if s.len() >= 6 && s.subrange(0, 6) == "/open "@ {
        strip_open(s.subrange(6, s.len() as int))
    } else {
        s
    }
}

/// Whether `s` begins with `p`.
pub open spec fn prefixed(s: Seq<char>, p: Seq<char>) -> bool {
    s.len() >= p.len() && s.subrange(0, p.len() as int) == p
}

/// Whether `v` holds `/open ` at `i`.
fn open_at(v: &Vec<char>, i: usize) -> (r: bool)
    requires
        i <= v@.len(),
    ensures
        r == (i + 6 <= v@.len() && v@.subrange(i as int, i + 6) == "/open "@),
{
    proof {
        reveal_strlit("/open ");
    }
    if v.len() - i < 6 {
        return false;
    }
    let r = v[i] == '/' && v[i + 1] == 'o' && v[i + 2] == 'p' && v[i + 3] == 'e' && v[i + 4] == 'n' && v[i + 5] == ' ';
    let ghost w = v@.subrange(i as int, i + 6);
    assert(r ==> w =~= "/open "@);
    assert(w == "/open "@ ==> r) by {
        if w == "/open "@ {
            assert(w[0] == '/' && w[1] == 'o' && w[2] == 'p' && w[3] == 'e' && w[4] == 'n' && w[5] == ' ');
        }
    }
    r
}

/// What a typed line asks for, once trimmed.
pub fn classify(line: &str) -> (r: LineAction)
    ensures
        ({
            let t = trimmed(line@);
            if t.len() == 0 {
                r is Nothing
            } else if t == "/quit"@ {
                r is Quit
            } else if t == "/end"@ {
                r is End
            } else if t == "/cancel"@ {
                r is Cancel
            } else if t == "/rebuild"@ {
                r is Rebuild
            } else if t == "/dump"@ {
                r is Dump
            } else if prefixed(t, "/open "@) {
                r matches LineAction::Open { path } && path@ == strip_open(t)
            } else {
                r matches LineAction::Stage { text } && text@ == t
            }
        }),
{
    proof {
        reveal_strlit("/open ");
    }
    let t = crate::text::trim(line);
    let v = chars_of(t.as_str());
    let n = v.len();
    if n == 0 {
        return LineAction::Nothing;
    }
    if crate::text::same(t.as_str(), "/quit") {
        return LineAction::Quit;
    }
    if crate::text::same(t.as_str(), "/end") {
        return LineAction::End;
    }
    if crate::text::same(t.as_str(), "/cancel") {
        return LineAction::Cancel;
    }
    if crate::text::same(t.as_str(), "/rebuild") {
        return LineAction::Rebuild;
    }
    if crate::text::same(t.as_str(), "/dump") {
        return LineAction::Dump;
    }
    if open_at(&v, 0) {
        assert(v@.subrange(0, n as int) =~= v@);
        let mut i: usize = 0;
        while open_at(&v, i)
            invariant
                i <= n,
                n == v@.len(),
                v@ == t@,
                strip_open(v@.subrange(i as int, n as int)) == strip_open(v@),
            decreases n - i,
        {
            let ghost rest = v@.subrange(i as int, n as int);
            assert(rest.subrange(0, 6) =~= v@.subrange(i as int, i + 6));
            assert(rest.subrange(6, rest.len() as int) =~= v@.subrange(i + 6, n as int));
            i = i + 6;
        }
        let ghost rest = v@.subrange(i as int, n as int);
        assert(!(rest.len() >= 6 && rest.subrange(0, 6) == "/open "@)) by {
            if rest.len() >= 6 {
                assert(rest.subrange(0, 6) =~= v@.subrange(i as int, i + 6));
            }
        }
        assert(v@.subrange(0, n as int) =~= v@);
        assert(v@.subrange(0, 6) =~= t@.subrange(0, 6));
        LineAction::Open { path: string_of(&v, i, n) }
    } else {
        assert(!prefixed(t@, "/open "@)) by {
            if t@.len() >= 6 {
                assert(v@.subrange(0, 6) =~= t@.subrange(0, 6));
            }
        }
        LineAction::Stage { text: t }
    }
}

/// How many bytes UTF-8 takes for `c`.
pub open spec fn utf8_width(c: char) -> nat {
    if (c as u32) < 0x80 {
        1
    } else if (c as u32) < 0x800 {
        2
    } else if (c as u32) < 0x10000 {
        3
    } else {
        4
    }
}

/// The UTF-8 length of a text, `str::len`.
pub open spec fn utf8_len(s: Seq<char>) -> nat
    decreases s.len(),
{
    if s.len() == 0 {
        0
    } else {
        utf8_len(s.drop_last()) + utf8_width(s.last())
    }
}

proof fn lemma_utf8_len_bound(s: Seq<char>)
    ensures
        utf8_len(s) <= 4 * s.len(),
    decreases s.len(),
{
    if s.len() > 0 {
        lemma_utf8_len_bound(s.drop_last());
    }
}

/// The length of `s` in bytes.
pub fn byte_len(s: &str) -> (r: usize)
    requires
        4 * s@.len() <= usize::MAX,
    ensures
        r == utf8_len(s@),
{
    let v = chars_of(s);
    let mut total: usize = 0;
    let mut i: usize = 0;
    while i < v.len()
        invariant
            i <= v@.len(),
            v@ == s@,
            4 * v@.len() <= usize::MAX,
            total == utf8_len(v@.subrange(0, i as int)),
        decreases v@.len() - i,
    {
        proof {
            assert(v@.subrange(0, i + 1 as int).drop_last() =~= v@.subrange(0, i as int));
            lemma_utf8_len_bound(v@.subrange(0, i as int));
        }
        let c = v[i];
        let code = c as u32;
        let w: usize = if code < 0x80 { 1 } else if code < 0x800 { 2 } else if code < 0x10000 { 3 } else { 4 };
        total = total + w;
        i = i + 1;
    }
    assert(v@.subrange(0, i as int) =~= v@);
    total
}

/// What a display item reads as on the terminal, one line; nothing for an
/// answer without text.
pub open spec fn display_text(item: DisplayItem) -> Option<Seq<char>> {
    match item {
        DisplayItem::RequestStarted { request_id } => Some(
            "[brain] request "@ + decimal(request_id as nat) + " in flight"@,
        ),
        DisplayItem::RequestResolved { outcome } => match outcome {
            Outcome::Completed { value } => match value.text {
                Some(t) => if t@.len() > 0 { Some("[agent] "@ + t@) } else { None },
                None => None,
            },
            Outcome::Failed { error } => Some("[brain] request failed: "@ + error@),
            Outcome::Cancelled { reason } => Some("[brain] request cancelled: "@ + reason@),
            Outcome::Panicked { payload } => Some("[brain] request panicked: "@ + payload@),
        },
        DisplayItem::ToolStarted { name, arguments } => Some(
            "[limb] tool call: "@ + name@ + "("@ + arguments@ + ")"@,
        ),
        DisplayItem::ToolResolved { outcome } => match outcome {
            Outcome::Completed { value } => Some(
                "[limb] tool result: "@ + decimal(utf8_len(value@)) + " bytes"@,
            ),
            Outcome::Failed { error } => Some("[limb] tool error: "@ + error@),
            Outcome::Cancelled { reason } => Some("[limb] tool cancelled: "@ + reason@),
            Outcome::Panicked { payload } => Some("[limb] tool panicked: "@ + payload@),
        },
        DisplayItem::TurnResolved { outcome } => match outcome {
            Outcome::Completed { .. } => Some("[brain] turn complete"@),
            Outcome::Failed { error } => Some("[brain] turn failed: "@ + error@),
            Outcome::Cancelled { reason } => Some("[brain] turn cancelled: "@ + reason@),
            Outcome::Panicked { payload } => Some("[brain] turn panicked: "@ + payload@),
        },
        DisplayItem::ContextRebuilt { wire_messages } => Some(
            "[brain] context rebuilt ("@ + decimal(wire_messages as nat) + " wire messages)"@,
        ),
        DisplayItem::SessionClosed => None,
    }
}

/// The terminal line for a display item; the face ends the session itself
/// on `SessionClosed`, which is never rendered.
pub fn render(item: &DisplayItem) -> (r: Option<String>)
    requires
        !(item is SessionClosed),
        item matches DisplayItem::ToolResolved { outcome: Outcome::Completed { value } }
            ==> 4 * value@.len() <= usize::MAX,
    ensures
        match r {
            Some(t) => display_text(*item) == Some(t@),
            None => display_text(*item) is None,
        },
{
    match item {
        DisplayItem::RequestStarted { request_id } => {
            let mut t = owned("[brain] request ");
            push_decimal(&mut t, *request_id);
            t.append(" in flight");
            Some(t)
        },
        DisplayItem::RequestResolved { outcome } => match outcome {
            Outcome::Completed { value } => match &value.text {
                Some(text) => if text.as_str().unicode_len() > 0 {
                    Some(cat("[agent] ", text.as_str()))
                } else {
                    None
                },
                None => None,
            },
            Outcome::Failed { error } => Some(cat("[brain] request failed: ", error.as_str())),
            Outcome::Cancelled { reason } => Some(cat("[brain] request cancelled: ", reason.as_str())),
            Outcome::Panicked { payload } => Some(cat("[brain] request panicked: ", payload.as_str())),
        },
        DisplayItem::ToolStarted { name, arguments } => {
            let mut t = cat3("[limb] tool call: ", name.as_str(), "(");
            t.append(arguments.as_str());
            t.append(")");
            Some(t)
        },
        DisplayItem::ToolResolved { outcome } => match outcome {
            Outcome::Completed { value } => {
                let n = byte_len(value.as_str());
                let mut t = owned("[limb] tool result: ");
                push_decimal(&mut t, n as u64);
                t.append(" bytes");
                Some(t)
            },
            Outcome::Failed { error } => Some(cat("[limb] tool error: ", error.as_str())),
            Outcome::Cancelled { reason } => Some(cat("[limb] tool cancelled: ", reason.as_str())),
            Outcome::Panicked { payload } => Some(cat("[limb] tool panicked: ", payload.as_str())),
        },
        DisplayItem::TurnResolved { outcome } => match outcome {
            Outcome::Completed { .. } => Some(owned("[brain] turn complete")),
            Outcome::Failed { error } => Some(cat("[brain] turn failed: ", error.as_str())),
            Outcome::Cancelled { reason } => Some(cat("[brain] turn cancelled: ", reason.as_str())),
            Outcome::Panicked { payload } => Some(cat("[brain] turn panicked: ", payload.as_str())),
        },
        DisplayItem::ContextRebuilt { wire_messages } => {
            let mut t = owned("[brain] context rebuilt (");
            push_decimal(&mut t, *wire_messages as u64);
            t.append(" wire messages)");
            Some(t)
        },
        DisplayItem::SessionClosed => None,
    }
}

/// The help the face prints at start.
pub fn help_text(base_url: &str, model: &str) -> (r: String)
    ensures
        r@ == "walking-skeleton — provider "@ + base_url@ + " model "@ + model@ + "\n"@
            + "  <text>        stage a user message (appends, never triggers)\n"@
            + "  /open <path>  simulate user file-open activity (appends, never triggers)\n"@
            + "  /end          end the turn (triggers inference)\n"@
            + "  /cancel       cancel in-flight work (request or tool call)\n"@
            + "  /rebuild      rebuild the context from the event log\n"@
            + "  /dump         open the model view (markdown) in $EDITOR, default nano\n"@
            + "  /quit         exit\n"@,
{
    let mut t = cat3("walking-skeleton — provider ", base_url, " model ");
    t.append(model);
    t.append("\n");
    t.append("  <text>        stage a user message (appends, never triggers)\n");
    t.append("  /open <path>  simulate user file-open activity (appends, never triggers)\n");
    t.append("  /end          end the turn (triggers inference)\n");
    t.append("  /cancel       cancel in-flight work (request or tool call)\n");
    t.append("  /rebuild      rebuild the context from the event log\n");
    t.append("  /dump         open the model view (markdown) in $EDITOR, default nano\n");
    t.append("  /quit         exit\n");
    t
}

/// The head of an opened file: its first twenty lines, joined by newlines.
pub open spec fn head_of(s: Seq<char>) -> Seq<char> {
    joined(lines_from(s, 0, 20), "\n"@)
}

/// What an opened file contributes: its size in bytes and its head.
pub fn opened_file(content: &str) -> (r: (usize, String))
    requires
        4 * content@.len() <= usize::MAX,
    ensures
        r.0 == utf8_len(content@),
        r.1@ == head_of(content@),
{
    let bytes = byte_len(content);
    let lines = lines_upto(content, 20);
    (bytes, crate::text::join(&lines, "\n"))
}

} // verus!
