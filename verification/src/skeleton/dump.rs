//! The dump: the model view rendered as markdown in wire order, with what
//! the model cannot see in HTML comments — records that are no message,
//! placed by their sequence numbers, the user events that waited for a tool
//! exchange, and the proposed calls the limb never started. The JSON of
//! records, tools and calls comes already written.
use vstd::prelude::*;
use crate::skeleton::protocol::{WireMessage, WireView};
use crate::skeleton::view::{entry_views, Projection};
use crate::text::{decimal, owned, push_decimal};

verus! {

/// The JSON the dump shows, written by whoever holds the serializers.
pub struct DumpTexts {
    /// The request's tools, pretty-printed as one array.
    pub tools: String,
    /// Each transcript record's entry as compact JSON, by record.
    pub items: Vec<(u64, String)>,
    /// Each message's tool calls pretty-printed, for the system message
    /// and then each projected entry, where it has calls.
    pub calls: Vec<Option<String>>,
    /// The omitted calls of each answer, as compact JSON.
    pub unexecuted: Vec<(u64, String)>,
}

pub open spec fn pairs_view(v: Seq<(u64, String)>) -> Seq<(u64, Seq<char>)> {
    v.map_values(|p: (u64, String)| (p.0, p.1@))
}

pub open spec fn opt_texts(v: Seq<Option<String>>) -> Seq<Option<Seq<char>>> {
    v.map_values(|o: Option<String>| crate::skeleton::protocol::opt_view(o))
}

/// The heading of a message: its role, and the call it answers.
pub open spec fn heading_text(m: WireView) -> Seq<char> {
    match m.tool_call_id {
        Some(id) => "## "@ + m.role + " ("@ + id + ")\n\n"@,
        None => "## "@ + m.role + "\n\n"@,
    }
}

/// The text of a message, when it has any.
pub open spec fn content_text(m: WireView) -> Seq<char> {
    match m.content {
        Some(c) => if c.len() > 0 { c + "\n\n"@ } else { Seq::empty() },
        None => Seq::empty(),
    }
}

/// The tool calls of a message, when it has them.
pub open spec fn calls_text(m: WireView, calls: Option<Seq<char>>) -> Seq<char> {
    if m.tool_calls is Some {
        "```json tool_calls\n"@ + (match calls { Some(c) => c, None => Seq::empty() }) + "\n```\n\n"@
    } else {
        Seq::empty()
    }
}

/// A message as the dump shows it.
pub open spec fn message_text(m: WireView, calls: Option<Seq<char>>) -> Seq<char> {
    heading_text(m) + content_text(m) + calls_text(m, calls)
}

/// A record the model cannot see, as a comment.
pub open spec fn comment(seq: u64, item: Seq<char>) -> Seq<char> {
    "<!-- seq "@ + decimal(seq as nat) + ": "@ + item + " -->\n"@
}

/// The comments for the records before `bound` (all of them when there is
/// none) that no message represents and that are not written yet; and the
/// records written after them.
pub open spec fn comments(
    items: Seq<(u64, Seq<char>)>,
    bound: Option<u64>,
    represented: Seq<u64>,
    written: Seq<u64>,
) -> (Seq<char>, Seq<u64>)
    decreases items.len(),
{
    if items.len() == 0 {
        (Seq::empty(), written)
    } else {
        let (before, w) = comments(items.drop_last(), bound, represented, written);
        let (seq, item) = items.last();
        if (bound matches Some(b) && seq >= b) || represented.contains(seq) || w.contains(seq) {
            (before, w)
        } else {
            (before + comment(seq, item), w.push(seq))
        }
    }
}

pub open spec fn piggyback_note(seq: u64) -> Seq<char> {
    "<!-- seq "@ + decimal(seq as nat)
        + ": arrived while a tool exchange was open; the model sees it here, after the exchange -->\n"@
}

/// The body of the dump after its header: each entry with the comments
/// that come before it, then the comments left.
pub open spec fn body_text(
    entries: Seq<(u64, WireView)>,
    calls: Seq<Option<Seq<char>>>,
    items: Seq<(u64, Seq<char>)>,
    represented: Seq<u64>,
    annotations: Seq<u64>,
) -> (Seq<char>, Seq<u64>)
    decreases entries.len(),
{
    if entries.len() == 0 {
        (Seq::empty(), Seq::empty())
    } else {
        let (before, w) = body_text(entries.drop_last(), calls, items, represented, annotations);
        let (seq, m) = entries.last();
        let (notes, w2) = comments(items, Some(seq), represented, w);
        let call_text = if entries.len() < calls.len() { calls[entries.len() as int] } else { None };
        (before + notes + (if annotations.contains(seq) { piggyback_note(seq) } else { Seq::empty() })
            + message_text(m, call_text), w2)
    }
}

pub open spec fn unexecuted_text(u: Seq<(u64, Seq<char>)>) -> Seq<char>
    decreases u.len(),
{
    if u.len() == 0 {
        Seq::empty()
    } else {
        unexecuted_text(u.drop_last()) + "<!-- seq "@ + decimal(u.last().0 as nat)
            + ": unexecuted tool calls omitted from the model view: "@ + u.last().1 + " -->\n"@
    }
}

pub open spec fn dump_header() -> Seq<char> {
    "# walking-skeleton context dump — the model view\n\n"@
        + "<!-- Everything in HTML comments is invisible to the model. -->\n\n"@
}

/// The whole dump of a projection.
pub open spec fn dump_text(
    system: Option<WireView>,
    tool_count: nat,
    texts_tools: Seq<char>,
    entries: Seq<(u64, WireView)>,
    calls: Seq<Option<Seq<char>>>,
    items: Seq<(u64, Seq<char>)>,
    represented: Seq<u64>,
    annotations: Seq<u64>,
    unexecuted: Seq<(u64, Seq<char>)>,
) -> Seq<char> {
    let (body, w) = body_text(entries, calls, items, represented, annotations);
    dump_header() + (match system {
        Some(m) => message_text(m, if calls.len() > 0 { calls[0] } else { None }),
        None => Seq::empty(),
    }) + (if tool_count > 0 {
        "## tools\n\n"@ + "<!-- sent as the request's `tools` field -->\n"@ + "```json\n"@ + texts_tools + "\n```\n\n"@
    } else {
        Seq::empty()
    }) + body + comments(items, None, represented, w).0 + unexecuted_text(unexecuted)
}

fn render_heading(out: &mut String, m: &WireMessage)
    ensures
        final(out)@ == old(out)@ + heading_text(m@),
{
    out.append("## ");
    out.append(m.role.as_str());
    match &m.tool_call_id {
        Some(id) => {
            out.append(" (");
            out.append(id.as_str());
            out.append(")\n\n");
        },
        None => {
            out.append("\n\n");
        },
    }
}

fn render_content(out: &mut String, m: &WireMessage)
    ensures
        final(out)@ == old(out)@ + content_text(m@),
{
    match &m.content {
        Some(c) => if c.as_str().unicode_len() > 0 {
            out.append(c.as_str());
            out.append("\n\n");
        } else {
            assert(old(out)@ + Seq::<char>::empty() =~= old(out)@);
        },
        None => {
            assert(old(out)@ + Seq::<char>::empty() =~= old(out)@);
        },
    }
}

fn render_calls(out: &mut String, m: &WireMessage, calls: &Option<String>)
    ensures
        final(out)@ == old(out)@ + calls_text(m@, crate::skeleton::protocol::opt_view(*calls)),
{
    if m.tool_calls.is_some() {
        out.append("```json tool_calls\n");
        match calls {
            Some(c) => out.append(c.as_str()),
            None => {},
        }
        out.append("\n```\n\n");
    } else {
        assert(old(out)@ + Seq::<char>::empty() =~= old(out)@);
    }
}

/// Appends a message as the dump shows it.
pub(crate) fn render_message(out: &mut String, m: &WireMessage, calls: &Option<String>)
    ensures
        final(out)@ == old(out)@ + message_text(m@, crate::skeleton::protocol::opt_view(*calls)),
{
    render_heading(out, m);
    render_content(out, m);
    render_calls(out, m, calls);
    assert(out@ =~= old(out)@ + message_text(m@, crate::skeleton::protocol::opt_view(*calls)));
}

pub(crate) fn holds_seq(v: &Vec<u64>, x: u64) -> (r: bool)
    ensures
        r == v@.contains(x),
{
    let mut i: usize = 0;
    while i < v.len()
        invariant
            i <= v@.len(),
            forall|k: int| 0 <= k < i ==> v@[k] != x,
        decreases v@.len() - i,
    {
        if v[i] == x {
            assert(v@[i as int] == x);
            return true;
        }
        i = i + 1;
    }
    false
}

/// Appends the comments for the records before `bound`.
pub(crate) fn render_comments(out: &mut String, items: &Vec<(u64, String)>, bound: Option<u64>, represented: &Vec<u64>, written: &mut Vec<u64>)
    ensures
        ({
            let (text, w) = comments(pairs_view(items@), bound, represented@, old(written)@);
            final(out)@ == old(out)@ + text && final(written)@ == w
        }),
{
    let ghost all = pairs_view(items@);
    let ghost start = out@;
    let ghost w0 = written@;
    let mut i: usize = 0;
    while i < items.len()
        invariant
            i <= items@.len(),
            all == pairs_view(items@),
            out@ == start + comments(all.subrange(0, i as int), bound, represented@, w0).0,
            written@ == comments(all.subrange(0, i as int), bound, represented@, w0).1,
        decreases items@.len() - i,
    {
        let ghost next = all.subrange(0, i + 1 as int);
        assert(next.drop_last() =~= all.subrange(0, i as int));
        assert(next.last() == (items@[i as int].0, items@[i as int].1@));
        let seq = items[i].0;
        let beyond = match bound {
            Some(b) => seq >= b,
            None => false,
        };
        if !beyond && !holds_seq(represented, seq) && !holds_seq(written, seq) {
            out.append("<!-- seq ");
            push_decimal(out, seq);
            out.append(": ");
            out.append(items[i].1.as_str());
            out.append(" -->\n");
            written.push(seq);
            assert(out@ =~= start + comments(next, bound, represented@, w0).0);
        }
        i = i + 1;
    }
    assert(all.subrange(0, i as int) =~= all);
}

impl Projection {
    /// The dump of this projection, with the JSON it shows given in `texts`.
    pub fn render(&self, texts: &DumpTexts) -> (r: String)
        ensures
            r@ == dump_text(
                if self.parts.messages@.len() > 0 { Some(self.parts.messages@[0]@) } else { None },
                self.parts.tools@.len(),
                texts.tools@,
                entry_views(self.entries@),
                opt_texts(texts.calls@),
                pairs_view(texts.items@),
                self.represented@,
                self.annotations@,
                pairs_view(texts.unexecuted@),
            ),
    {
        let ghost calls = opt_texts(texts.calls@);
        let ghost items = pairs_view(texts.items@);
        let ghost ents = entry_views(self.entries@);
        let mut out = owned("# walking-skeleton context dump — the model view\n\n");
        out.append("<!-- Everything in HTML comments is invisible to the model. -->\n\n");
        let ghost after_header = out@;
        if self.parts.messages.len() > 0 {
            let none: Option<String> = None;
            let first_calls = if texts.calls.len() > 0 { &texts.calls[0] } else { &none };
            assert(crate::skeleton::protocol::opt_view(*first_calls) == if calls.len() > 0 { calls[0] } else { None::<Seq<char>> });
            render_message(&mut out, &self.parts.messages[0], first_calls);
        }
        if self.parts.tools.len() > 0 {
            out.append("## tools\n\n");
            out.append("<!-- sent as the request's `tools` field -->\n");
            out.append("```json\n");
            out.append(texts.tools.as_str());
            out.append("\n```\n\n");
        }
        let ghost prefix = out@;
        let mut written: Vec<u64> = Vec::new();
        let mut k: usize = 0;
        while k < self.entries.len()
            invariant
                k <= self.entries@.len(),
                ents == entry_views(self.entries@),
                calls == opt_texts(texts.calls@),
                items == pairs_view(texts.items@),
                out@ == prefix + body_text(ents.subrange(0, k as int), calls, items, self.represented@, self.annotations@).0,
                written@ == body_text(ents.subrange(0, k as int), calls, items, self.represented@, self.annotations@).1,
            decreases self.entries@.len() - k,
        {
            let ghost next = ents.subrange(0, k + 1 as int);
            assert(next.drop_last() =~= ents.subrange(0, k as int));
            assert(next.last() == (self.entries@[k as int].seq, self.entries@[k as int].message@));
            let seq = self.entries[k].seq;
            let ghost before = out@;
            render_comments(&mut out, &texts.items, Some(seq), &self.represented, &mut written);
            if holds_seq(&self.annotations, seq) {
                out.append("<!-- seq ");
                push_decimal(&mut out, seq);
                out.append(": arrived while a tool exchange was open; the model sees it here, after the exchange -->\n");
            }
            let none: Option<String> = None;
            let entry_calls = if k + 1 < texts.calls.len() { &texts.calls[k + 1] } else { &none };
            assert(crate::skeleton::protocol::opt_view(*entry_calls) == if next.len() < calls.len() { calls[next.len() as int] } else { None::<Seq<char>> });
            render_message(&mut out, &self.entries[k].message, entry_calls);
            assert(out@ =~= prefix + body_text(next, calls, items, self.represented@, self.annotations@).0);
            k = k + 1;
        }
        assert(ents.subrange(0, k as int) =~= ents);
        let ghost after_body = out@;
        render_comments(&mut out, &texts.items, None, &self.represented, &mut written);
        let ghost un = pairs_view(texts.unexecuted@);
        let ghost before_un = out@;
        let mut j: usize = 0;
        while j < texts.unexecuted.len()
            invariant
                j <= texts.unexecuted@.len(),
                un == pairs_view(texts.unexecuted@),
                out@ == before_un + unexecuted_text(un.subrange(0, j as int)),
            decreases texts.unexecuted@.len() - j,
        {
            let ghost next = un.subrange(0, j + 1 as int);
            assert(next.drop_last() =~= un.subrange(0, j as int));
            assert(next.last() == (texts.unexecuted@[j as int].0, texts.unexecuted@[j as int].1@));
            out.append("<!-- seq ");
            push_decimal(&mut out, texts.unexecuted[j].0);
            out.append(": unexecuted tool calls omitted from the model view: ");
            out.append(texts.unexecuted[j].1.as_str());
            out.append(" -->\n");
            assert(out@ =~= before_un + unexecuted_text(next));
            j = j + 1;
        }
        assert(un.subrange(0, j as int) =~= un);
        assert(out@ =~= dump_text(
            if self.parts.messages@.len() > 0 { Some(self.parts.messages@[0]@) } else { None },
            self.parts.tools@.len(),
            texts.tools@,
            ents,
            calls,
            items,
            self.represented@,
            self.annotations@,
            un,
        ));
        out
    }
}


/// The calls text the dump owes projected entry `k`: the one written for
/// that message, after the system message's.
pub open spec fn own_calls(calls: Seq<Option<Seq<char>>>, k: int) -> Option<Seq<char>> {
    if 0 <= k + 1 < calls.len() { calls[k + 1] } else { None }
}

/// The body of a shorter run of entries starts the body of a longer one.
proof fn lemma_body_prefix(
    entries: Seq<(u64, WireView)>,
    calls: Seq<Option<Seq<char>>>,
    items: Seq<(u64, Seq<char>)>,
    represented: Seq<u64>,
    annotations: Seq<u64>,
    n: int,
)
    requires
        0 <= n <= entries.len(),
    ensures
        ({
            let short = body_text(entries.subrange(0, n), calls, items, represented, annotations).0;
            let long = body_text(entries, calls, items, represented, annotations).0;
            short.len() <= long.len() && long.subrange(0, short.len() as int) == short
        }),
    decreases entries.len() - n,
{
    if n == entries.len() {
        assert(entries.subrange(0, n) =~= entries);
    } else {
        let e1 = entries.subrange(0, n + 1);
        lemma_body_prefix(entries, calls, items, represented, annotations, n + 1);
        assert(e1.drop_last() =~= entries.subrange(0, n));
        let short = body_text(entries.subrange(0, n), calls, items, represented, annotations).0;
        let mid = body_text(e1, calls, items, represented, annotations).0;
        let long = body_text(entries, calls, items, represented, annotations).0;
        assert(mid.subrange(0, short.len() as int) =~= short);
        assert(long.subrange(0, short.len() as int) =~= mid.subrange(0, short.len() as int));
    }
}

/// Every projected entry is shown with its own calls: the part of the dump
/// body that ends with entry `k` ends with that message as the dump shows
/// it, its `tool_calls` block holding the calls text written for that very
/// message, and that part starts the whole body.
pub proof fn lemma_each_entry_shown_with_its_own_calls(
    entries: Seq<(u64, WireView)>,
    calls: Seq<Option<Seq<char>>>,
    items: Seq<(u64, Seq<char>)>,
    represented: Seq<u64>,
    annotations: Seq<u64>,
    k: int,
)
    requires
        0 <= k < entries.len(),
    ensures
        ({
            let upto = body_text(entries.subrange(0, k + 1), calls, items, represented, annotations).0;
            let whole = body_text(entries, calls, items, represented, annotations).0;
            let shown = heading_text(entries[k].1) + content_text(entries[k].1) + (if entries[k].1.tool_calls is Some {
                "```json tool_calls\n"@ + (match own_calls(calls, k) { Some(c) => c, None => Seq::empty() }) + "\n```\n\n"@
            } else {
                Seq::empty()
            });
            &&& shown.len() <= upto.len()
            &&& upto.subrange(upto.len() - shown.len(), upto.len() as int) == shown
            &&& upto.len() <= whole.len()
            &&& whole.subrange(0, upto.len() as int) == upto
        }),
{
    lemma_body_prefix(entries, calls, items, represented, annotations, k + 1);
    let e1 = entries.subrange(0, k + 1);
    assert(e1.last() == entries[k]);
    let upto = body_text(e1, calls, items, represented, annotations).0;
    let shown = message_text(entries[k].1, own_calls(calls, k));
    assert(upto.subrange(upto.len() - shown.len(), upto.len() as int) =~= shown);
}


/// The dump opens with its header and then the system message, shown with
/// the calls text written for it, the first of `calls`.
pub proof fn lemma_dump_opens_with_the_system_message(
    system: WireView,
    tool_count: nat,
    texts_tools: Seq<char>,
    entries: Seq<(u64, WireView)>,
    calls: Seq<Option<Seq<char>>>,
    items: Seq<(u64, Seq<char>)>,
    represented: Seq<u64>,
    annotations: Seq<u64>,
    unexecuted: Seq<(u64, Seq<char>)>,
)
    ensures
        ({
            let d = dump_text(Some(system), tool_count, texts_tools, entries, calls, items, represented, annotations, unexecuted);
            let head = dump_header() + message_text(system, if calls.len() > 0 { calls[0] } else { None });
            head.len() <= d.len() && d.subrange(0, head.len() as int) == head
        }),
{
    let d = dump_text(Some(system), tool_count, texts_tools, entries, calls, items, represented, annotations, unexecuted);
    let head = dump_header() + message_text(system, if calls.len() > 0 { calls[0] } else { None });
    assert(d.subrange(0, head.len() as int) =~= head);
}
} // verus!
