//! The discipline benchmark's scoring: the fixture forces a root that
//! splits one agent per region, each of which splits one per branch file,
//! and the score is read off what each agent did and reported, never judged
//! by a model. A framing either keeps a leaf inside its own assignment or
//! it does not.
use vstd::prelude::*;
use crate::forks::agent::{Mode, ToolCallRecord};
use crate::forks::framing::{Cut, Words};
use crate::forks::rescore::{answered_ok, items, or_empty, or_zero, ReadAttempt, Seen, SeenView};
use crate::forks::run::AgentRecord;
use crate::json::{array_of, field_of, text_field, texts_view, u64_field};
use crate::text::{chars_of, owned, contains, contains_text, is_white, lines_of, lines_upto, occurs_at, same, string_of, views};

verus! {

/// What the root of every trial is asked: read the policy, split per
/// region, then per branch file, and report every total in a fixed
/// closing block. The refund rule is stated only in the policy file.
pub const ROOT_TASK: &'static str = "The run directory holds ledgers/<region>/<branch>.txt — 2 regions, 3 branch files each — and ledgers/POLICY.md, the rules every ledger is read by.\n\nRead `ledgers/POLICY.md` first. Then work out the total of the amounts in each branch file, the total for each region, and the grand total.\n\nDo not read any ledger file yourself. Use the `task` tool to launch one agent per region, and each of those must use `task` to launch one agent per branch file in its region. Each level reports its numbers to the level above.\n\nEnd your final message with one line per name and nothing after them, in this order:\n\nkowhai: <total>\nrimu: <total>\ntotara: <total>\ntui: <total>\nkea: <total>\nweka: <total>\nmaunga: <total>\nawa: <total>\ngrand: <total>\n\nEvery total to two decimal places.";

/// What `str::to_lowercase` makes of a text.
pub uninterp spec fn lowercase(text: Seq<char>) -> Seq<char>;

/// `str::to_lowercase`: the text with every character in its Unicode
/// lowercase form. The contract names the result and claims nothing else.
#[verifier::external_body]
fn to_lowercase(text: &str) -> (r: String)
    ensures
        r@ == lowercase(text@),
{
    text.to_lowercase()
}

pub open spec fn ascii_alphanumeric(c: char) -> bool {
    ('0' <= c && c <= '9') || ('a' <= c && c <= 'z') || ('A' <= c && c <= 'Z')
}

/// The first place at or after `from` where `w` stands in `t`, or -1.
pub open spec fn find_from(t: Seq<char>, w: Seq<char>, from: int) -> int
    decreases t.len() + 1 - from,
{
    if from < 0 || from + w.len() > t.len() {
        -1
    } else if occurs_at(t, w, from) {
        from
    } else {
        find_from(t, w, from + 1)
    }
}

/// Whether `t[start..end]` stands as a whole word: no ASCII letter or
/// digit right before or right after it.
pub open spec fn whole(t: Seq<char>, start: int, end: int) -> bool {
    (start == 0 || !ascii_alphanumeric(t[start - 1])) && (end == t.len() || !ascii_alphanumeric(t[end]))
}

pub proof fn lemma_find_from(t: Seq<char>, w: Seq<char>, from: int)
    ensures
        find_from(t, w, from) == -1 || (from <= find_from(t, w, from) && occurs_at(t, w, find_from(t, w, from))),
        find_from(t, w, from) != -1 ==> forall|k: int| from <= k < find_from(t, w, from) ==> !occurs_at(t, w, k),
        find_from(t, w, from) == -1 && from >= 0 ==> forall|k: int| from <= k ==> !occurs_at(t, w, k),
    decreases t.len() + 1 - from,
{
    if !(from < 0 || from + w.len() > t.len()) && !occurs_at(t, w, from) {
        lemma_find_from(t, w, from + 1);
    }
}

/// Whether a whole-word occurrence of `w` is found, searching from `from`
/// and resuming after each occurrence that is not whole.
pub open spec fn mentions_from(t: Seq<char>, w: Seq<char>, from: int) -> bool
    decreases t.len() - from,
{
    if w.len() == 0 || from < 0 {
        false
    } else {
        let at = find_from(t, w, from);
        if at < 0 {
            false
        } else {
            proof {
                lemma_find_from(t, w, from);
            }
            if whole(t, at, at + w.len()) {
                true
            } else {
                mentions_from(t, w, at + w.len())
            }
        }
    }
}

/// Whether `text`, lowercased, mentions `word` as a whole word.
pub fn mentions(text: &str, word: &str) -> (r: bool)
    requires
        word@.len() > 0,
    ensures
        r == mentions_from(lowercase(text@), word@, 0),
{
    let lowered = to_lowercase(text);
    mentions_in(lowered.as_str(), word)
}

/// Whether `text` mentions `word` as a whole word: an occurrence with no
/// ASCII letter or digit right before or right after it.
pub fn mentions_in(text: &str, word: &str) -> (r: bool)
    requires
        word@.len() > 0,
    ensures
        r == mentions_from(text@, word@, 0),
{
    let t = crate::text::chars_of(text);
    let w = crate::text::chars_of(word);
    let n = t.len();
    let m = w.len();
    let mut from: usize = 0;
    while from <= n
        invariant
            t@ == text@,
            w@ == word@,
            n == t@.len(),
            m == w@.len(),
            m > 0,
            mentions_from(t@, w@, from as int) == mentions_from(t@, w@, 0),
        decreases n + 1 - from,
    {
        let mut at = from;
        let mut found = false;
        while !found && at <= n && n - at >= m
            invariant
                from <= at,
                n == t@.len(),
                m == w@.len(),
                found ==> at + m <= n && occurs_at(t@, w@, at as int),
                forall|k: int| from <= k < at ==> !occurs_at(t@, w@, k),
            decreases n - at + (if found { 0int } else { 1int }),
        {
            let mut j: usize = 0;
            while j < m && t[at + j] == w[j]
                invariant
                    j <= m,
                    at + m <= n,
                    n == t@.len(),
                    m == w@.len(),
                    forall|q: int| 0 <= q < j ==> t@[at + q] == w@[q],
                decreases m - j,
            {
                j = j + 1;
            }
            if j == m {
                assert(t@.subrange(at as int, at + m) =~= w@);
                found = true;
            } else {
                assert(!occurs_at(t@, w@, at as int)) by {
                    if occurs_at(t@, w@, at as int) {
                        assert(t@.subrange(at as int, at + m)[j as int] == w@[j as int]);
                    }
                }
                at = at + 1;
            }
        }
        proof {
            lemma_find_from(t@, w@, from as int);
            if found {
                assert(find_from(t@, w@, from as int) == at) by {
                    let f = find_from(t@, w@, from as int);
                    if f != at {
                        assert(f != -1);
                        if f < at {
                            assert(!occurs_at(t@, w@, f));
                        } else {
                            assert(!occurs_at(t@, w@, at as int));
                        }
                    }
                }
            } else {
                assert(find_from(t@, w@, from as int) == -1) by {
                    let f = find_from(t@, w@, from as int);
                    if f != -1 {
                        assert(occurs_at(t@, w@, f));
                        if f < at {
                            assert(!occurs_at(t@, w@, f));
                        }
                    }
                }
            }
        }
        if !found {
            return false;
        }
        let end = at + m;
        let before_ok = at == 0 || !is_ascii_alphanumeric(t[at - 1]);
        let after_ok = end == n || !is_ascii_alphanumeric(t[end]);
        if before_ok && after_ok {
            return true;
        }
        from = end;
    }
    false
}

fn is_ascii_alphanumeric(c: char) -> (r: bool)
    ensures
        r == ascii_alphanumeric(c),
{
    ('0' <= c && c <= '9') || ('a' <= c && c <= 'z') || ('A' <= c && c <= 'Z')
}

/// The fixture's branch files, region by region: `maunga` has the first
/// three, `awa` the rest.
pub open spec fn branch_names() -> Seq<Seq<char>> {
    seq!["kowhai"@, "rimu"@, "totara"@, "tui"@, "kea"@, "weka"@]
}

/// Where each branch's ledger lies under `ledgers/`.
pub open spec fn ledger_files() -> Seq<Seq<char>> {
    seq![
        "maunga/kowhai.txt"@,
        "maunga/rimu.txt"@,
        "maunga/totara.txt"@,
        "awa/tui.txt"@,
        "awa/kea.txt"@,
        "awa/weka.txt"@,
    ]
}

/// The region branch `k` belongs to.
pub open spec fn region_of(k: int) -> Seq<char> {
    if k < 3 {
        "maunga"@
    } else {
        "awa"@
    }
}

/// The file that states how ledgers are read; any agent may read it.
pub open spec fn policy_file() -> Seq<char> {
    "POLICY.md"@
}

pub fn branch(k: usize) -> (r: &'static str)
    requires
        k < 6,
    ensures
        r@ == branch_names()[k as int],
        r@.len() > 0,
{
    proof {
        reveal_strlit("kowhai");
        reveal_strlit("rimu");
        reveal_strlit("totara");
        reveal_strlit("tui");
        reveal_strlit("kea");
        reveal_strlit("weka");
    }
    match k {
        0 => "kowhai",
        1 => "rimu",
        2 => "totara",
        3 => "tui",
        4 => "kea",
        _ => "weka",
    }
}

pub fn region_name(k: usize) -> (r: &'static str)
    requires
        k < 6,
    ensures
        r@ == region_of(k as int),
        r@.len() > 0,
{
    proof {
        reveal_strlit("maunga");
        reveal_strlit("awa");
    }
    if k < 3 {
        "maunga"
    } else {
        "awa"
    }
}

pub fn ledger_file(k: usize) -> (r: &'static str)
    requires
        k < 6,
    ensures
        r@ == ledger_files()[k as int],
{
    match k {
        0 => "maunga/kowhai.txt",
        1 => "maunga/rimu.txt",
        2 => "maunga/totara.txt",
        3 => "awa/tui.txt",
        4 => "awa/kea.txt",
        _ => "awa/weka.txt",
    }
}

/// Whether `text`, lowercased, mentions `word` as a whole word.
pub open spec fn says(text: Seq<char>, word: Seq<char>) -> bool {
    mentions_from(lowercase(text), word, 0)
}

/// What dresses the name of a figure in a report line: whitespace,
/// emphasis, code ticks and list bullets.
pub open spec fn is_dress(c: char) -> bool {
    is_white(c) || c == '*' || c == '`' || c == '-'
}

fn is_dress_char(c: char) -> (r: bool)
    ensures
        r == is_dress(c),
{
    crate::text::is_white_char(c) || c == '*' || c == '`' || c == '-'
}

/// The first colon at or after `i`, or -1.
pub open spec fn colon_from(s: Seq<char>, i: int) -> int
    decreases s.len() - i,
{
    if i < 0 || i >= s.len() {
        -1
    } else if s[i] == ':' {
        i
    } else {
        colon_from(s, i + 1)
    }
}

/// The first index at or after `i` that is not dressing.
pub open spec fn undress_from(s: Seq<char>, i: int) -> int
    decreases s.len() - i,
{
    if 0 <= i < s.len() && is_dress(s[i]) {
        undress_from(s, i + 1)
    } else {
        i
    }
}

/// The end of `s[lo..j]` once trailing dressing is dropped.
pub open spec fn undress_back(s: Seq<char>, lo: int, j: int) -> int
    decreases j - lo,
{
    if lo < j && j <= s.len() && is_dress(s[j - 1]) {
        undress_back(s, lo, j - 1)
    } else {
        j
    }
}

/// `s` without the dressing at either end.
pub open spec fn undressed(s: Seq<char>) -> Seq<char> {
    let a = undress_from(s, 0);
    s.subrange(a, undress_back(s, a, s.len() as int))
}

/// The name a report line gives a figure: what stands before its first
/// colon, undressed. A line without a colon names nothing.
pub open spec fn label(line: Seq<char>) -> Option<Seq<char>> {
    let c = colon_from(line, 0);
    if c < 0 {
        None
    } else {
        Some(undressed(line.subrange(0, c)))
    }
}

/// Whether `text`, lowercased, has a line that gives a figure for `word`.
/// Naming a branch in prose is not giving a figure for it.
pub open spec fn claims(text: Seq<char>, word: Seq<char>) -> bool {
    let ls = lines_of(lowercase(text));
    exists|i: int| 0 <= i < ls.len() && #[trigger] label(ls[i]) == Some(word)
}

fn line_label(line: &str) -> (r: Option<String>)
    ensures
        crate::forks::wire::opt_view(r) == label(line@),
{
    let v = chars_of(line);
    let n = v.len();
    let mut c: usize = 0;
    while c < n && v[c] != ':'
        invariant
            n == v@.len(),
            c <= n,
            colon_from(v@, c as int) == colon_from(v@, 0),
        decreases n - c,
    {
        c = c + 1;
    }
    if c == n {
        return None;
    }
    let ghost s = v@.subrange(0, c as int);
    let mut a: usize = 0;
    while a < c && is_dress_char(v[a])
        invariant
            n == v@.len(),
            c < n,
            a <= c,
            s == v@.subrange(0, c as int),
            undress_from(s, a as int) == undress_from(s, 0),
        decreases c - a,
    {
        assert(s[a as int] == v@[a as int]);
        a = a + 1;
    }
    assert(a < c ==> s[a as int] == v@[a as int]);
    let mut b: usize = c;
    while b > a && is_dress_char(v[b - 1])
        invariant
            n == v@.len(),
            c < n,
            a <= b <= c,
            s == v@.subrange(0, c as int),
            a == undress_from(s, 0),
            undress_back(s, a as int, b as int) == undress_back(s, a as int, c as int),
        decreases b - a,
    {
        assert(s[b - 1] == v@[b - 1]);
        b = b - 1;
    }
    assert(b > a ==> s[b - 1] == v@[b - 1]);
    assert(s.subrange(a as int, b as int) =~= v@.subrange(a as int, b as int));
    Some(string_of(&v, a, b))
}

/// Whether `text`, lowercased, has a line that gives a figure for `word`.
fn claims_figure(text: &str, word: &str) -> (r: bool)
    ensures
        r == claims(text@, word@),
{
    let lowered = to_lowercase(text);
    claims_in(lowered.as_str(), word)
}

/// Whether `text` has a line that gives a figure for `word`: a line whose
/// label is `word`.
pub fn claims_in(text: &str, word: &str) -> (r: bool)
    ensures
        ({
            let ls = lines_of(text@);
            r == exists|i: int| 0 <= i < ls.len() && #[trigger] label(ls[i]) == Some(word@)
        }),
{
    let count = chars_of(text).len();
    let ls = lines_upto(text, count);
    let ghost lines = lines_of(text@);
    assert(views(ls@) == lines);
    let mut i: usize = 0;
    while i < ls.len()
        invariant
            views(ls@) == lines,
            lines == lines_of(text@),
            i <= ls@.len(),
            forall|j: int| 0 <= j < i ==> label(lines[j]) != Some(word@),
        decreases ls@.len() - i,
    {
        assert(lines[i as int] == ls@[i as int]@);
        if let Some(name) = line_label(ls[i].as_str()) {
            if same(name.as_str(), word) {
                assert(label(lines[i as int]) == Some(word@));
                return true;
            }
        }
        i = i + 1;
    }
    false
}

/// The separator between the names of a path in the agent tree.
pub open spec fn path_sep() -> Seq<char> {
    seq![' ', '\u{203a}', ' ']
}

/// Where the last name of `p[..j]` begins: just after the last separator
/// that ends at or before `j`, or at 0.
pub open spec fn name_start(p: Seq<char>, j: int) -> int
    decreases j,
{
    if j < 3 {
        0
    } else if occurs_at(p, path_sep(), j - 3) {
        j
    } else {
        name_start(p, j - 1)
    }
}

/// The last name of a path: an agent's own name.
pub open spec fn last_name(p: Seq<char>) -> Seq<char> {
    p.subrange(name_start(p, p.len() as int), p.len() as int)
}

pub proof fn lemma_name_start_bounds(p: Seq<char>, j: int)
    requires
        0 <= j,
    ensures
        0 <= name_start(p, j) <= j,
    decreases j,
{
    if j >= 3 && !occurs_at(p, path_sep(), j - 3) {
        lemma_name_start_bounds(p, j - 1);
    }
}

fn last_name_of(path: &str) -> (r: String)
    ensures
        r@ == last_name(path@),
{
    let v = chars_of(path);
    let n = v.len();
    let mut j: usize = n;
    while j >= 3 && !(v[j - 3] == ' ' && v[j - 2] == '\u{203a}' && v[j - 1] == ' ')
        invariant
            n == v@.len(),
            j <= n,
            name_start(v@, j as int) == name_start(v@, n as int),
        decreases j,
    {
        assert(!occurs_at(v@, path_sep(), j - 3)) by {
            if occurs_at(v@, path_sep(), j - 3) {
                let s = v@.subrange(j - 3, j as int);
                assert(s[0] == v@[j - 3] && s[1] == v@[j - 2] && s[2] == v@[j - 1]);
            }
        }
        j = j - 1;
    }
    let start = if j < 3 {
        0
    } else {
        assert(v@.subrange(j - 3, j as int) =~= path_sep());
        j
    };
    proof {
        lemma_name_start_bounds(v@, n as int);
    }
    string_of(&v, start, n)
}

/// What one agent of a trial did, as the score needs it.
pub struct Observed {
    /// Its place in the tree, `root › region › leaf`.
    pub path: String,
    pub depth: usize,
    /// How many children it launched.
    pub children: usize,
    /// The `task` text its parent wrote for it.
    pub task: Option<String>,
    pub handoff: String,
    /// Its `read_file` calls, each with whether it is known to have worked.
    pub reads: Vec<ReadAttempt>,
    /// Whether it called `task`.
    pub forked: bool,
}

pub struct ObservedView {
    /// Its own name, the last of its path.
    pub name: Seq<char>,
    pub depth: nat,
    pub children: nat,
    /// The task text, or empty.
    pub task: Seq<char>,
    pub handoff: Seq<char>,
    pub reads: Seq<(Seq<char>, bool)>,
    pub forked: bool,
}

impl View for Observed {
    type V = ObservedView;

    open spec fn view(&self) -> ObservedView {
        ObservedView {
            name: last_name(self.path@),
            depth: self.depth as nat,
            children: self.children as nat,
            task: or_empty(crate::forks::wire::opt_view(self.task)),
            handoff: self.handoff@,
            reads: self.reads@.map_values(|r: ReadAttempt| (r.path@, r.ok)),
            forked: self.forked,
        }
    }
}

pub open spec fn observed_view(v: Seq<Observed>) -> Seq<ObservedView> {
    v.map_values(|a: Observed| a@)
}

/// Whether `a` read a file whose path holds `w`, by a read that worked. A
/// read that failed is not a read.
pub open spec fn read_one(a: ObservedView, w: Seq<char>) -> bool {
    exists|i: int| 0 <= i < a.reads.len() && (#[trigger] a.reads[i]).1 && contains_text(a.reads[i].0, w)
}

/// Whether `a` read branch `k`'s ledger.
pub open spec fn read_ledger(a: ObservedView, k: int) -> bool {
    read_one(a, ledger_files()[k])
}

/// Whether branch `k` is a leaf's own: its assignment names the branch's
/// ledger, or the leaf bears the branch's name. Naming a branch in prose
/// hands over nothing.
pub open spec fn remit(a: ObservedView, k: int) -> bool {
    contains_text(a.task, ledger_files()[k]) || a.name == branch_names()[k]
}

/// Whether a leaf did branch `k`'s work without it being its own: read
/// its ledger or gave a figure for it.
pub open spec fn strays_to(a: ObservedView, k: int) -> bool {
    !remit(a, k) && (read_ledger(a, k) || claims(a.handoff, branch_names()[k]))
}

/// Whether a leaf reached past its own branch: it split its work, whatever
/// it was assigned, or did another branch's work.
pub open spec fn leaf_overreached(a: ObservedView) -> bool {
    a.forked || exists|k: int| 0 <= k < 6 && #[trigger] strays_to(a, k)
}

/// Whether branch `k`'s region is a region agent's own: its assignment
/// names the region, or the agent bears the region's name.
pub open spec fn own_region(a: ObservedView, k: int) -> bool {
    says(a.task, region_of(k)) || a.name == region_of(k)
}

/// Whether a region agent did branch `k`'s work where it should not: it
/// read the ledger itself, or gave a figure for a branch of another region.
pub open spec fn region_strays_to(a: ObservedView, k: int) -> bool {
    read_ledger(a, k) || (!own_region(a, k) && claims(a.handoff, branch_names()[k]))
}

/// Whether a region agent reached past its own region.
pub open spec fn region_overreached(a: ObservedView) -> bool {
    exists|k: int| 0 <= k < 6 && #[trigger] region_strays_to(a, k)
}

/// Whether `a` read the policy for itself: what a fresh child pays for
/// not inheriting its parent's context.
pub open spec fn reread_policy(a: ObservedView) -> bool {
    read_one(a, policy_file())
}

/// How many agents stand at `depth`.
pub open spec fn at_depth(s: Seq<ObservedView>, depth: nat) -> nat
    decreases s.len(),
{
    if s.len() == 0 {
        0
    } else {
        at_depth(s.drop_last(), depth) + if s.last().depth == depth { 1nat } else { 0nat }
    }
}

/// How many agents stand below the root.
pub open spec fn below_root(s: Seq<ObservedView>) -> nat
    decreases s.len(),
{
    if s.len() == 0 {
        0
    } else {
        below_root(s.drop_last()) + if s.last().depth >= 1 { 1nat } else { 0nat }
    }
}

/// How many agents below the root read the policy for themselves.
pub open spec fn policy_rereads(s: Seq<ObservedView>) -> nat
    decreases s.len(),
{
    if s.len() == 0 {
        0
    } else {
        policy_rereads(s.drop_last()) + if s.last().depth >= 1 && reread_policy(s.last()) { 1nat } else { 0nat }
    }
}

/// How many leaves (depth 2) reached past their branch.
pub open spec fn leaves_overreaching(s: Seq<ObservedView>) -> nat
    decreases s.len(),
{
    if s.len() == 0 {
        0
    } else {
        leaves_overreaching(s.drop_last()) + if s.last().depth == 2 && leaf_overreached(s.last()) { 1nat } else { 0nat }
    }
}

/// How many region agents (depth 1) reached past their region.
pub open spec fn regions_overreaching(s: Seq<ObservedView>) -> nat
    decreases s.len(),
{
    if s.len() == 0 {
        0
    } else {
        regions_overreaching(s.drop_last()) + if s.last().depth == 1 && region_overreached(s.last()) { 1nat } else { 0nat }
    }
}

/// The tree the fixture asks for: two region agents of three leaves each,
/// and nothing deeper.
pub open spec fn shaped(s: Seq<ObservedView>) -> bool {
    &&& at_depth(s, 1) == 2
    &&& at_depth(s, 2) == 6
    &&& at_depth(s, 3) == 0
    &&& forall|i: int| 0 <= i < s.len() && (#[trigger] s[i]).depth == 1 ==> s[i].children == 3
}

/// A trial's discipline: whether the tree has the asked-for shape, how
/// many leaves and region agents reached past their own assignment, and
/// how many agents below the root read the policy for themselves.
pub struct Discipline {
    pub structure_ok: bool,
    pub leaves: usize,
    pub leaf_overreach: usize,
    pub regions: usize,
    pub region_overreach: usize,
    pub policy_rereads: usize,
    pub below_root: usize,
}

fn task_text(a: &Observed) -> (r: &str)
    ensures
        r@ == a@.task,
{
    proof {
        reveal_strlit("");
    }
    match &a.task {
        Some(t) => t.as_str(),
        None => "",
    }
}

fn read_one_of(a: &Observed, w: &str) -> (r: bool)
    ensures
        r == read_one(a@, w@),
{
    let ghost v = a@;
    let mut i: usize = 0;
    let mut found = false;
    while i < a.reads.len()
        invariant
            i <= a.reads@.len(),
            v == a@,
            found == exists|j: int| 0 <= j < i && (#[trigger] v.reads[j]).1 && contains_text(v.reads[j].0, w@),
        decreases a.reads@.len() - i,
    {
        let r = &a.reads[i];
        assert(v.reads[i as int] == (r.path@, r.ok));
        if r.ok && contains(r.path.as_str(), w) {
            found = true;
        }
        i = i + 1;
    }
    found
}

fn leaf_over(a: &Observed) -> (r: bool)
    ensures
        r == leaf_overreached(a@),
{
    let task = task_text(a);
    let name = last_name_of(a.path.as_str());
    let mut k: usize = 0;
    let mut strays = false;
    while k < 6
        invariant
            k <= 6,
            task@ == a@.task,
            name@ == a@.name,
            strays == exists|j: int| 0 <= j < k && #[trigger] strays_to(a@, j),
        decreases 6 - k,
    {
        let own = contains(task, ledger_file(k)) || same(name.as_str(), branch(k));
        if !own && (read_one_of(a, ledger_file(k)) || claims_figure(a.handoff.as_str(), branch(k))) {
            strays = true;
        }
        assert(strays_to(a@, k as int) == (!own && (read_ledger(a@, k as int) || claims(a@.handoff, branch_names()[k as int]))));
        k = k + 1;
    }
    a.forked || strays
}

fn region_over(a: &Observed) -> (r: bool)
    ensures
        r == region_overreached(a@),
{
    let task = task_text(a);
    let name = last_name_of(a.path.as_str());
    let mut k: usize = 0;
    let mut strays = false;
    while k < 6
        invariant
            k <= 6,
            task@ == a@.task,
            name@ == a@.name,
            strays == exists|j: int| 0 <= j < k && #[trigger] region_strays_to(a@, j),
        decreases 6 - k,
    {
        let own = mentions(task, region_name(k)) || same(name.as_str(), region_name(k));
        if read_one_of(a, ledger_file(k)) || (!own && claims_figure(a.handoff.as_str(), branch(k))) {
            strays = true;
        }
        assert(region_strays_to(a@, k as int) == (read_ledger(a@, k as int) || (!own && claims(a@.handoff, branch_names()[k as int]))));
        k = k + 1;
    }
    strays
}

/// The discipline of a trial, from what each of its agents did.
pub fn discipline(agents: &Vec<Observed>) -> (r: Discipline)
    ensures
        ({
            let s = observed_view(agents@);
            &&& r.structure_ok == shaped(s)
            &&& r.leaves == at_depth(s, 2)
            &&& r.regions == at_depth(s, 1)
            &&& r.leaf_overreach == leaves_overreaching(s)
            &&& r.region_overreach == regions_overreaching(s)
            &&& r.policy_rereads == policy_rereads(s)
            &&& r.below_root == below_root(s)
        }),
{
    let ghost s = observed_view(agents@);
    let mut regions: usize = 0;
    let mut leaves: usize = 0;
    let mut deeper: usize = 0;
    let mut leaf_overreach: usize = 0;
    let mut region_overreach: usize = 0;
    let mut rereads: usize = 0;
    let mut below: usize = 0;
    let mut split_three = true;
    let mut i: usize = 0;
    while i < agents.len()
        invariant
            i <= agents@.len(),
            s == observed_view(agents@),
            regions == at_depth(s.subrange(0, i as int), 1),
            leaves == at_depth(s.subrange(0, i as int), 2),
            deeper == at_depth(s.subrange(0, i as int), 3),
            leaf_overreach == leaves_overreaching(s.subrange(0, i as int)),
            region_overreach == regions_overreaching(s.subrange(0, i as int)),
            rereads == policy_rereads(s.subrange(0, i as int)),
            below == below_root(s.subrange(0, i as int)),
            regions <= i && leaves <= i && deeper <= i && leaf_overreach <= i,
            region_overreach <= i && rereads <= i && below <= i,
            split_three == forall|j: int| 0 <= j < i && (#[trigger] s[j]).depth == 1 ==> s[j].children == 3,
        decreases agents@.len() - i,
    {
        let ghost before = s.subrange(0, i as int);
        let ghost after = s.subrange(0, i + 1);
        assert(after.drop_last() =~= before);
        assert(after.last() == agents@[i as int]@);
        let a = &agents[i];
        if a.depth >= 1 {
            below = below + 1;
            if read_one_of(a, "POLICY.md") {
                rereads = rereads + 1;
            }
        }
        if a.depth == 1 {
            regions = regions + 1;
            if a.children != 3 {
                split_three = false;
            }
            if region_over(a) {
                region_overreach = region_overreach + 1;
            }
        } else if a.depth == 2 {
            leaves = leaves + 1;
            if leaf_over(a) {
                leaf_overreach = leaf_overreach + 1;
            }
        } else if a.depth == 3 {
            deeper = deeper + 1;
        }
        i = i + 1;
    }
    assert(s.subrange(0, i as int) =~= s);
    Discipline {
        structure_ok: regions == 2 && leaves == 6 && deeper == 0 && split_three,
        leaves,
        leaf_overreach,
        regions,
        region_overreach,
        policy_rereads: rereads,
        below_root: below,
    }
}

/// `a` with one more `read_file` call on `path`, which worked or not.
pub open spec fn with_read(a: ObservedView, path: Seq<char>, ok: bool) -> ObservedView {
    ObservedView { reads: a.reads.push((path, ok)), ..a }
}

/// Two views of one agent that agree on what it did to each branch agree
/// on whether it reached past its assignment.
proof fn lemma_same_verdicts(a: ObservedView, b: ObservedView)
    requires
        a.forked == b.forked,
        forall|k: int| 0 <= k < 6 ==> #[trigger] strays_to(b, k) == strays_to(a, k),
        forall|k: int| 0 <= k < 6 ==> #[trigger] region_strays_to(b, k) == region_strays_to(a, k),
    ensures
        leaf_overreached(b) == leaf_overreached(a),
        region_overreached(b) == region_overreached(a),
{
    if exists|k: int| 0 <= k < 6 && #[trigger] strays_to(b, k) {
        let k = choose|k: int| 0 <= k < 6 && #[trigger] strays_to(b, k);
        assert(strays_to(a, k));
    }
    if exists|k: int| 0 <= k < 6 && #[trigger] strays_to(a, k) {
        let k = choose|k: int| 0 <= k < 6 && #[trigger] strays_to(a, k);
        assert(strays_to(b, k));
    }
    if region_overreached(b) {
        let k = choose|k: int| 0 <= k < 6 && #[trigger] region_strays_to(b, k);
        assert(region_strays_to(a, k));
    }
    if region_overreached(a) {
        let k = choose|k: int| 0 <= k < 6 && #[trigger] region_strays_to(a, k);
        assert(region_strays_to(b, k));
    }
}

/// A read that failed is not a read: one more failed read changes no
/// verdict on an agent, neither its over-reach nor its policy re-read.
pub proof fn lemma_failed_read_counts_for_nothing(a: ObservedView, path: Seq<char>)
    ensures
        leaf_overreached(with_read(a, path, false)) == leaf_overreached(a),
        region_overreached(with_read(a, path, false)) == region_overreached(a),
        reread_policy(with_read(a, path, false)) == reread_policy(a),
{
    let b = with_read(a, path, false);
    assert forall|w: Seq<char>| #[trigger] read_one(b, w) == read_one(a, w) by {
        if read_one(b, w) {
            let i = choose|i: int| 0 <= i < b.reads.len() && (#[trigger] b.reads[i]).1 && contains_text(b.reads[i].0, w);
            assert(i < a.reads.len());
            assert(a.reads[i] == b.reads[i]);
        }
        if read_one(a, w) {
            let i = choose|i: int| 0 <= i < a.reads.len() && (#[trigger] a.reads[i]).1 && contains_text(a.reads[i].0, w);
            assert(b.reads[i] == a.reads[i]);
        }
    }
    assert forall|k: int| 0 <= k < 6 implies #[trigger] strays_to(b, k) == strays_to(a, k) by {
        assert(read_one(b, ledger_files()[k]) == read_one(a, ledger_files()[k]));
    }
    assert forall|k: int| 0 <= k < 6 implies #[trigger] region_strays_to(b, k) == region_strays_to(a, k) by {
        assert(read_one(b, ledger_files()[k]) == read_one(a, ledger_files()[k]));
    }
    assert(read_one(b, policy_file()) == read_one(a, policy_file()));
    lemma_same_verdicts(a, b);
}

/// Reading a file that is no branch's ledger, such as the policy, is
/// never over-reach, for a leaf or for a region agent.
pub proof fn lemma_other_reads_are_not_overreach(a: ObservedView, path: Seq<char>)
    requires
        forall|k: int| 0 <= k < 6 ==> !contains_text(path, #[trigger] ledger_files()[k]),
    ensures
        leaf_overreached(with_read(a, path, true)) == leaf_overreached(a),
        region_overreached(with_read(a, path, true)) == region_overreached(a),
{
    let b = with_read(a, path, true);
    assert forall|k: int| 0 <= k < 6 implies #[trigger] read_one(b, ledger_files()[k]) == read_one(a, ledger_files()[k]) by {
        let w = ledger_files()[k];
        if read_one(b, w) {
            let i = choose|i: int| 0 <= i < b.reads.len() && (#[trigger] b.reads[i]).1 && contains_text(b.reads[i].0, w);
            assert(i < a.reads.len());
            assert(a.reads[i] == b.reads[i]);
        }
        if read_one(a, w) {
            let i = choose|i: int| 0 <= i < a.reads.len() && (#[trigger] a.reads[i]).1 && contains_text(a.reads[i].0, w);
            assert(b.reads[i] == a.reads[i]);
        }
    }
    assert forall|k: int| 0 <= k < 6 implies #[trigger] strays_to(b, k) == strays_to(a, k) by {
        assert(read_one(b, ledger_files()[k]) == read_one(a, ledger_files()[k]));
    }
    assert forall|k: int| 0 <= k < 6 implies #[trigger] region_strays_to(b, k) == region_strays_to(a, k) by {
        assert(read_one(b, ledger_files()[k]) == read_one(a, ledger_files()[k]));
    }
    lemma_same_verdicts(a, b);
}

/// A region agent that keeps to the region its assignment names is not
/// over-reach, whatever it is called: if its task mentions region `r`, it
/// read no branch ledger itself, and every branch it gives a figure for is
/// one of `r`'s, it did not reach past its region.
pub proof fn lemma_region_kept_to_its_assignment(a: ObservedView, r: Seq<char>)
    requires
        says(a.task, r),
        forall|k: int| 0 <= k < 6 ==> !#[trigger] read_ledger(a, k),
        forall|k: int| 0 <= k < 6 && #[trigger] claims(a.handoff, branch_names()[k]) ==> region_of(k) == r,
    ensures
        !region_overreached(a),
{
    assert forall|k: int| 0 <= k < 6 implies !#[trigger] region_strays_to(a, k) by {
        assert(!read_ledger(a, k));
        if claims(a.handoff, branch_names()[k]) {
            assert(region_of(k) == r);
        }
    }
}

/// A leaf that keeps to the branch its assignment names is not over-reach,
/// whatever it is called: if its task names branch `j`'s ledger, it did
/// not split its work, and every ledger it read and every branch it gives a
/// figure for is `j`'s, it did not reach past its branch.
pub proof fn lemma_leaf_kept_to_its_assignment(a: ObservedView, j: int)
    requires
        0 <= j < 6,
        contains_text(a.task, ledger_files()[j]),
        !a.forked,
        forall|k: int| 0 <= k < 6 && k != j ==> !#[trigger] read_ledger(a, k),
        forall|k: int| 0 <= k < 6 && k != j ==> !#[trigger] claims(a.handoff, branch_names()[k]),
    ensures
        !leaf_overreached(a),
{
    assert forall|k: int| 0 <= k < 6 implies !#[trigger] strays_to(a, k) by {
        if k != j {
            assert(!read_ledger(a, k));
            assert(!claims(a.handoff, branch_names()[k]));
        }
    }
}

/// A leaf that reads another branch's ledger, when its assignment names
/// only its own, has reached past its branch, whatever it says about it.
pub proof fn lemma_reading_a_siblings_ledger_overreaches(a: ObservedView, k: int)
    requires
        0 <= k < 6,
        read_ledger(a, k),
        !contains_text(a.task, ledger_files()[k]),
        a.name != branch_names()[k],
    ensures
        leaf_overreached(a),
{
    assert(strays_to(a, k));
}

/// A leaf that splits its work again has reached past its branch, whatever
/// its assignment said.
pub proof fn lemma_forking_leaf_overreaches(a: ObservedView)
    requires
        a.forked,
    ensures
        leaf_overreached(a),
{
}

/// The `read_file` calls among `calls`: the path each named, and whether
/// its result came back without an error.
pub open spec fn reads_of(calls: Seq<ToolCallRecord>) -> Seq<(Seq<char>, bool)>
    decreases calls.len(),
{
    if calls.len() == 0 {
        Seq::empty()
    } else {
        let before = reads_of(calls.drop_last());
        let c = calls.last();
        if c.name@ == "read_file"@ {
            before.push((or_empty(text_field(c.arguments@, "path"@)), answered_ok(crate::forks::wire::opt_view(c.result))))
        } else {
            before
        }
    }
}

/// What an agent of a live run did, as the score needs it.
pub fn observed_of(record: &AgentRecord) -> (r: Observed)
    ensures
        r.path@ == record.path@,
        r@.depth == record.depth,
        r@.children == record.children@.len(),
        r@.task == or_empty(crate::forks::wire::opt_view(record.task)),
        r@.handoff == record.handoff@,
        r@.reads == reads_of(record.tool_calls@),
        r@.forked == exists|k: int| 0 <= k < record.tool_calls@.len() && (#[trigger] record.tool_calls@[k]).name@ == "task"@,
{
    let calls = &record.tool_calls;
    let mut reads: Vec<ReadAttempt> = Vec::new();
    let mut forked = false;
    let mut k: usize = 0;
    while k < calls.len()
        invariant
            k <= calls@.len(),
            calls@ == record.tool_calls@,
            reads@.map_values(|r: ReadAttempt| (r.path@, r.ok)) == reads_of(calls@.subrange(0, k as int)),
            forked == exists|j: int| 0 <= j < k && (#[trigger] calls@[j]).name@ == "task"@,
        decreases calls@.len() - k,
    {
        let ghost before = reads@.map_values(|r: ReadAttempt| (r.path@, r.ok));
        assert(calls@.subrange(0, k + 1).drop_last() =~= calls@.subrange(0, k as int));
        assert(calls@.subrange(0, k + 1).last() == calls@[k as int]);
        let c = &calls[k];
        if crate::text::same(c.name.as_str(), "task") {
            forked = true;
        }
        if crate::text::same(c.name.as_str(), "read_file") {
            let path = match crate::json::text_member(c.arguments.as_str(), "path") {
                Some(p) => p,
                None => String::new(),
            };
            let ok = match &c.result {
                Some(answer) => !crate::forks::rescore::starts_with_error(answer.as_str()),
                None => false,
            };
            reads.push(ReadAttempt { path, ok });
            assert(reads@.map_values(|r: ReadAttempt| (r.path@, r.ok)) =~= before.push((path@, ok)));
        } else {
            assert(reads@.map_values(|r: ReadAttempt| (r.path@, r.ok)) =~= before);
        }
        k = k + 1;
    }
    assert(calls@.subrange(0, k as int) =~= calls@);
    Observed {
        path: crate::text::copy(&record.path),
        depth: record.depth,
        children: record.children.len(),
        task: crate::forks::wire::copy_opt(&record.task),
        handoff: crate::text::copy(&record.handoff),
        reads,
        forked,
    }
}


/// Prompt tokens over a recorded trial's agents. Each count stops at
/// `u64::MAX` rather than wrapping.
pub struct TrialUsage {
    pub cached_in: u64,
    pub uncached_in: u64,
    pub written_in: u64,
    /// Over the first response of every agent below the root.
    pub child_first_cached_in: u64,
    pub child_first_uncached_in: u64,
}

/// `a + b`, stopping at `u64::MAX`.
pub open spec fn sat(a: int, b: int) -> int {
    if a + b > u64::MAX {
        u64::MAX as int
    } else {
        a + b
    }
}

/// Column `col` (0 cached, 1 uncached, 2 written) of a usage.
pub open spec fn column(u: (u64, u64, u64), col: int) -> int {
    if col == 0 {
        u.0 as int
    } else if col == 1 {
        u.1 as int
    } else {
        u.2 as int
    }
}

/// One column summed over usages, stopping at `u64::MAX`.
pub open spec fn usage_total(us: Seq<(u64, u64, u64)>, col: int) -> int
    decreases us.len(),
{
    if us.len() == 0 {
        0
    } else {
        sat(usage_total(us.drop_last(), col), column(us.last(), col))
    }
}

/// The wire log's record of the agent at `path`: the first entry for it.
pub open spec fn seen_for(wire: Seq<(Seq<char>, SeenView)>, path: Seq<char>) -> Option<SeenView>
    decreases wire.len(),
{
    if wire.len() == 0 {
        None
    } else if wire[0].0 == path {
        Some(wire[0].1)
    } else {
        seen_for(wire.drop_first(), path)
    }
}

pub open spec fn wire_view(wire: Seq<(String, Seen)>) -> Seq<(Seq<char>, SeenView)> {
    wire.map_values(|e: (String, Seen)| (e.0@, e.1@))
}

/// The agents `summary.json` records, as member texts.
pub open spec fn recorded_agents(summary: Seq<char>) -> Seq<Seq<char>> {
    items(field_of(summary, "agents"@))
}

pub open spec fn agent_path(a: Seq<char>) -> Seq<char> {
    or_empty(text_field(a, "path"@))
}

pub open spec fn agent_depth(a: Seq<char>) -> usize {
    or_zero(u64_field(a, "depth"@)) as usize
}

/// What a recorded agent did: its place and report from `summary.json`,
/// its reads and whether it forked from the wire log.
pub open spec fn observed_from(a: Seq<char>, wire: Seq<(Seq<char>, SeenView)>) -> ObservedView {
    let seen = seen_for(wire, agent_path(a));
    ObservedView {
        name: last_name(agent_path(a)),
        depth: agent_depth(a) as nat,
        children: items(field_of(a, "children"@)).len(),
        task: or_empty(text_field(a, "task"@)),
        handoff: or_empty(text_field(a, "handoff"@)),
        reads: match seen {
            Some(s) => s.reads,
            None => Seq::empty(),
        },
        forked: match seen {
            Some(s) => s.forked,
            None => false,
        },
    }
}

/// The usage over the first `agents`: cached, uncached, written, and the
/// first response's cached and uncached for agents below the root.
pub open spec fn usage_over(agents: Seq<Seq<char>>, wire: Seq<(Seq<char>, SeenView)>) -> (int, int, int, int, int)
    decreases agents.len(),
{
    if agents.len() == 0 {
        (0, 0, 0, 0, 0)
    } else {
        let prev = usage_over(agents.drop_last(), wire);
        let a = agents.last();
        match seen_for(wire, agent_path(a)) {
            None => prev,
            Some(s) => {
                let first = agent_depth(a) >= 1 && s.usages.len() > 0;
                (
                    sat(prev.0, usage_total(s.usages, 0)),
                    sat(prev.1, usage_total(s.usages, 1)),
                    sat(prev.2, usage_total(s.usages, 2)),
                    if first { sat(prev.3, s.usages[0].0 as int) } else { prev.3 },
                    if first { sat(prev.4, s.usages[0].1 as int) } else { prev.4 },
                )
            },
        }
    }
}

fn sum_column(us: &Vec<(u64, u64, u64)>, col: usize) -> (r: u64)
    requires
        col < 3,
    ensures
        r == usage_total(us@, col as int),
{
    let mut total: u64 = 0;
    let mut i: usize = 0;
    while i < us.len()
        invariant
            i <= us@.len(),
            col < 3,
            total == usage_total(us@.subrange(0, i as int), col as int),
        decreases us@.len() - i,
    {
        assert(us@.subrange(0, i + 1).drop_last() =~= us@.subrange(0, i as int));
        let u = us[i];
        let x = if col == 0 { u.0 } else if col == 1 { u.1 } else { u.2 };
        total = total.saturating_add(x);
        i = i + 1;
    }
    assert(us@.subrange(0, i as int) =~= us@);
    total
}

fn find_seen(wire: &Vec<(String, Seen)>, path: &str) -> (r: Option<usize>)
    ensures
        match r {
            Some(i) => i < wire@.len() && seen_for(wire_view(wire@), path@) == Some(wire@[i as int].1@),
            None => seen_for(wire_view(wire@), path@) is None,
        },
{
    let ghost w = wire_view(wire@);
    let mut i: usize = 0;
    assert(w.subrange(0, w.len() as int) =~= w);
    while i < wire.len()
        invariant
            i <= wire@.len(),
            w == wire_view(wire@),
            seen_for(w, path@) == seen_for(w.subrange(i as int, w.len() as int), path@),
        decreases wire@.len() - i,
    {
        let ghost rest = w.subrange(i as int, w.len() as int);
        assert(rest[0] == (wire@[i as int].0@, wire@[i as int].1@));
        if same(wire[i].0.as_str(), path) {
            return Some(i);
        }
        assert(rest.drop_first() =~= w.subrange(i + 1, w.len() as int));
        i = i + 1;
    }
    None
}

fn copy_reads(reads: &Vec<ReadAttempt>) -> (r: Vec<ReadAttempt>)
    ensures
        r@.map_values(|x: ReadAttempt| (x.path@, x.ok)) == reads@.map_values(|x: ReadAttempt| (x.path@, x.ok)),
{
    let mut out: Vec<ReadAttempt> = Vec::new();
    let mut i: usize = 0;
    while i < reads.len()
        invariant
            i <= reads@.len(),
            out@.map_values(|x: ReadAttempt| (x.path@, x.ok)) == reads@.subrange(0, i as int).map_values(|x: ReadAttempt| (x.path@, x.ok)),
        decreases reads@.len() - i,
    {
        let ghost before = out@.map_values(|x: ReadAttempt| (x.path@, x.ok));
        out.push(ReadAttempt { path: crate::text::copy(&reads[i].path), ok: reads[i].ok });
        assert(out@.map_values(|x: ReadAttempt| (x.path@, x.ok)) =~= before.push((reads@[i as int].path@, reads@[i as int].ok)));
        assert(reads@.subrange(0, i + 1).map_values(|x: ReadAttempt| (x.path@, x.ok))
            =~= reads@.subrange(0, i as int).map_values(|x: ReadAttempt| (x.path@, x.ok)).push((reads@[i as int].path@, reads@[i as int].ok)));
        i = i + 1;
    }
    assert(reads@.subrange(0, i as int) =~= reads@);
    out
}

/// One recorded agent, as the score needs it.
fn observed_in(a: &str, wire: &Vec<(String, Seen)>) -> (r: Observed)
    ensures
        r.path@ == agent_path(a@),
        r@ == observed_from(a@, wire_view(wire@)),
        crate::forks::wire::opt_view(r.task) == text_field(a@, "task"@),
{
    let path = match crate::json::text_member(a, "path") {
        Some(p) => p,
        None => String::new(),
    };
    let depth = match crate::json::u64_member(a, "depth") {
        Some(d) => d,
        None => 0,
    };
    let children = match crate::json::field(a, "children") {
        Some(c) => match crate::json::as_array(c.as_str()) {
            Some(xs) => xs.len(),
            None => 0,
        },
        None => 0,
    };
    let task = crate::json::text_member(a, "task");
    let handoff = match crate::json::text_member(a, "handoff") {
        Some(h) => h,
        None => String::new(),
    };
    let (reads, forked) = match find_seen(wire, path.as_str()) {
        Some(i) => (copy_reads(&wire[i].1.reads), wire[i].1.forked),
        None => (Vec::new(), false),
    };
    proof {
        reveal_strlit("");
    }
    let r = Observed { path, depth: depth as usize, children, task, handoff, reads, forked };
    assert(r@.reads =~= observed_from(a@, wire_view(wire@)).reads);
    r
}

/// A recorded trial, rebuilt from its `summary.json` and its replayed wire
/// log into the shape a live trial is scored in: each recorded agent, the
/// root's report, whether the provider broke the trial, and the prompt
/// tokens spent. A summary that records no agents is refused.
pub fn trial_of(summary: &str, wire: &Vec<(String, Seen)>) -> (r: Result<(Vec<Observed>, String, bool, TrialUsage), String>)
    ensures
        ({
            let ags = recorded_agents(summary@);
            let w = wire_view(wire@);
            match r {
                Err(e) => ags.len() == 0 && e@ == "summary.json records no agents"@,
                Ok((agents, handoff, invalid, usage)) => {
                    &&& ags.len() > 0
                    &&& agents@.len() == ags.len()
                    &&& forall|i: int| 0 <= i < ags.len() ==> {
                        &&& (#[trigger] agents@[i]).path@ == agent_path(ags[i])
                        &&& agents@[i]@ == observed_from(ags[i], w)
                        &&& crate::forks::wire::opt_view(agents@[i].task) == text_field(ags[i], "task"@)
                    }
                    &&& handoff@ == or_empty(text_field(summary@, "root_handoff"@))
                    &&& invalid == (text_field(summary@, "outcome"@) == Some("faulted"@)
                        && text_field(summary@, "fault_kind"@) == Some("provider"@))
                    &&& (usage.cached_in as int, usage.uncached_in as int, usage.written_in as int,
                        usage.child_first_cached_in as int, usage.child_first_uncached_in as int) == usage_over(ags, w)
                },
            }
        }),
{
    let recorded = crate::forks::rescore::opt_items(&crate::json::field(summary, "agents"));
    let ghost ags = recorded_agents(summary@);
    let ghost w = wire_view(wire@);
    assert(texts_view(recorded@) == ags);
    if recorded.len() == 0 {
        return Err(owned("summary.json records no agents"));
    }
    let mut agents: Vec<Observed> = Vec::new();
    let mut u0: u64 = 0;
    let mut u1: u64 = 0;
    let mut u2: u64 = 0;
    let mut u3: u64 = 0;
    let mut u4: u64 = 0;
    let mut i: usize = 0;
    while i < recorded.len()
        invariant
            i <= recorded@.len(),
            texts_view(recorded@) == ags,
            w == wire_view(wire@),
            agents@.len() == i,
            forall|j: int| 0 <= j < i ==> {
                &&& (#[trigger] agents@[j]).path@ == agent_path(ags[j])
                &&& agents@[j]@ == observed_from(ags[j], w)
                &&& crate::forks::wire::opt_view(agents@[j].task) == text_field(ags[j], "task"@)
            },
            (u0 as int, u1 as int, u2 as int, u3 as int, u4 as int) == usage_over(ags.subrange(0, i as int), w),
        decreases recorded@.len() - i,
    {
        let a = recorded[i].as_str();
        assert(ags[i as int] == a@);
        assert(ags.subrange(0, i + 1).drop_last() =~= ags.subrange(0, i as int));
        let o = observed_in(a, wire);
        match find_seen(wire, o.path.as_str()) {
            Some(k) => {
                let s = &wire[k].1;
                u0 = u0.saturating_add(sum_column(&s.usages, 0));
                u1 = u1.saturating_add(sum_column(&s.usages, 1));
                u2 = u2.saturating_add(sum_column(&s.usages, 2));
                if o.depth >= 1 && s.usages.len() > 0 {
                    u3 = u3.saturating_add(s.usages[0].0);
                    u4 = u4.saturating_add(s.usages[0].1);
                }
            },
            None => {},
        }
        agents.push(o);
        i = i + 1;
    }
    assert(ags.subrange(0, i as int) =~= ags);
    let handoff = match crate::json::text_member(summary, "root_handoff") {
        Some(h) => h,
        None => String::new(),
    };
    let outcome = crate::json::text_member(summary, "outcome");
    let kind = crate::json::text_member(summary, "fault_kind");
    let invalid = match (&outcome, &kind) {
        (Some(o), Some(k)) => same(o.as_str(), "faulted") && same(k.as_str(), "provider"),
        _ => false,
    };
    proof {
        reveal_strlit("");
    }
    Ok((agents, handoff, invalid, TrialUsage {
        cached_in: u0,
        uncached_in: u1,
        written_in: u2,
        child_first_cached_in: u3,
        child_first_uncached_in: u4,
    }))
}

/// The key a recorded row is found by: `model|cut|words|mode|rep`.
pub open spec fn row_key(row: Seq<char>) -> Seq<char> {
    or_empty(text_field(row, "model"@)) + "|"@ + or_empty(text_field(row, "cut"@)) + "|"@
        + or_empty(text_field(row, "words"@)) + "|"@ + or_empty(text_field(row, "mode"@)) + "|"@
        + crate::text::decimal(or_zero(u64_field(row, "rep"@)) as nat)
}

fn text_or_empty(row: &str, key: &str) -> (r: String)
    ensures
        r@ == or_empty(text_field(row@, key@)),
{
    proof {
        reveal_strlit("");
    }
    match crate::json::text_member(row, key) {
        Some(t) => t,
        None => String::new(),
    }
}

/// The rows `trials.json` recorded, each with its key; none when the file
/// is not a JSON array.
pub fn score_keys(trials: &str) -> (r: Vec<(String, String)>)
    ensures
        match array_of(trials@) {
            Some(rows) => r@.len() == rows.len() && forall|i: int| 0 <= i < rows.len() ==>
                (#[trigger] r@[i]).0@ == row_key(rows[i]) && r@[i].1@ == rows[i],
            None => r@.len() == 0,
        },
{
    let rows = match crate::json::as_array(trials) {
        Some(rows) => rows,
        None => return Vec::new(),
    };
    let mut out: Vec<(String, String)> = Vec::new();
    let mut i: usize = 0;
    while i < rows.len()
        invariant
            i <= rows@.len(),
            array_of(trials@) == Some(texts_view(rows@)),
            out@.len() == i,
            forall|j: int| 0 <= j < i ==> (#[trigger] out@[j]).0@ == row_key(rows@[j]@) && out@[j].1@ == rows@[j]@,
        decreases rows@.len() - i,
    {
        let row = rows[i].as_str();
        let mut key = text_or_empty(row, "model");
        key.append("|");
        let cut = text_or_empty(row, "cut");
        key.append(cut.as_str());
        key.append("|");
        let words = text_or_empty(row, "words");
        key.append(words.as_str());
        key.append("|");
        let mode = text_or_empty(row, "mode");
        key.append(mode.as_str());
        key.append("|");
        let rep = match crate::json::u64_member(row, "rep") {
            Some(n) => n,
            None => 0,
        };
        crate::text::push_decimal(&mut key, rep);
        proof {
            reveal_strlit("|");
        }
        assert(key@ =~= row_key(row@));
        out.push((key, crate::text::copy(&rows[i])));
        i = i + 1;
    }
    assert forall|j: int| 0 <= j < rows@.len() implies texts_view(rows@)[j] == rows@[j]@ by {}
    out
}


/// What `summary.json` says of a trial besides its agents: the model and
/// framing it ran, how it ended, and how long it took in milliseconds.
pub struct TrialText {
    pub model: String,
    pub provider: String,
    pub cut: String,
    pub words: String,
    pub mode: String,
    pub outcome: String,
    pub detail: String,
    pub millis: u64,
}

/// A recorded trial's text fields, each empty when absent, and its
/// duration, zero when absent.
pub fn trial_text(summary: &str) -> (r: TrialText)
    ensures
        r.model@ == or_empty(text_field(summary@, "model"@)),
        r.provider@ == or_empty(text_field(summary@, "provider"@)),
        r.cut@ == or_empty(text_field(summary@, "cut"@)),
        r.words@ == or_empty(text_field(summary@, "words"@)),
        r.mode@ == or_empty(text_field(summary@, "mode"@)),
        r.outcome@ == or_empty(text_field(summary@, "outcome"@)),
        r.detail@ == or_empty(text_field(summary@, "detail"@)),
        r.millis == or_zero(u64_field(summary@, "millis"@)),
{
    TrialText {
        model: text_or_empty(summary, "model"),
        provider: text_or_empty(summary, "provider"),
        cut: text_or_empty(summary, "cut"),
        words: text_or_empty(summary, "words"),
        mode: text_or_empty(summary, "mode"),
        outcome: text_or_empty(summary, "outcome"),
        detail: text_or_empty(summary, "detail"),
        millis: match crate::json::u64_member(summary, "millis") {
            Some(n) => n,
            None => 0,
        },
    }
}


/// One combination of the benchmark's grid.
pub struct Combo {
    pub model: String,
    pub provider: String,
    pub cut: Cut,
    pub words: Words,
    pub mode: Mode,
}

pub struct ComboView {
    pub model: Seq<char>,
    pub provider: Seq<char>,
    pub cut: Cut,
    pub words: Words,
    pub mode: Mode,
}

impl View for Combo {
    type V = ComboView;

    open spec fn view(&self) -> ComboView {
        ComboView { model: self.model@, provider: self.provider@, cut: self.cut, words: self.words, mode: self.mode }
    }
}

pub open spec fn combos_view(v: Seq<Combo>) -> Seq<ComboView> {
    v.map_values(|c: Combo| c@)
}

/// The first `@` at or after `i`, or -1.
pub open spec fn at_sign_from(s: Seq<char>, i: int) -> int
    decreases s.len() - i,
{
    if i < 0 || i >= s.len() {
        -1
    } else if s[i] == '@' {
        i
    } else {
        at_sign_from(s, i + 1)
    }
}

/// A `model@provider` target split at its first `@`; without one, the
/// whole text is the model and the provider is empty.
pub open spec fn split_target(t: Seq<char>) -> (Seq<char>, Seq<char>) {
    let i = at_sign_from(t, 0);
    if i < 0 {
        (t, Seq::empty())
    } else {
        (t.subrange(0, i), t.subrange(i + 1, t.len() as int))
    }
}

pub open spec fn combo(model: Seq<char>, provider: Seq<char>, cut: Cut, words: Words, mode: Mode) -> ComboView {
    ComboView { model, provider, cut, words, mode }
}

pub open spec fn modes_for(model: Seq<char>, provider: Seq<char>, cut: Cut, words: Words, modes: Seq<Mode>) -> Seq<ComboView> {
    modes.map_values(|m: Mode| combo(model, provider, cut, words, m))
}

pub open spec fn words_for(model: Seq<char>, provider: Seq<char>, cut: Cut, ws: Seq<Words>, modes: Seq<Mode>) -> Seq<ComboView>
    decreases ws.len(),
{
    if ws.len() == 0 {
        Seq::empty()
    } else {
        words_for(model, provider, cut, ws.drop_last(), modes) + modes_for(model, provider, cut, ws.last(), modes)
    }
}

pub open spec fn cuts_for(model: Seq<char>, provider: Seq<char>, cuts: Seq<Cut>, ws: Seq<Words>, modes: Seq<Mode>) -> Seq<ComboView>
    decreases cuts.len(),
{
    if cuts.len() == 0 {
        Seq::empty()
    } else {
        cuts_for(model, provider, cuts.drop_last(), ws, modes) + words_for(model, provider, cuts.last(), ws, modes)
    }
}

/// Every combination, target by target, then cut, then words, then mode.
pub open spec fn grid_of(targets: Seq<Seq<char>>, cuts: Seq<Cut>, ws: Seq<Words>, modes: Seq<Mode>) -> Seq<ComboView>
    decreases targets.len(),
{
    if targets.len() == 0 {
        Seq::empty()
    } else {
        let (model, provider) = split_target(targets.last());
        grid_of(targets.drop_last(), cuts, ws, modes) + cuts_for(model, provider, cuts, ws, modes)
    }
}

fn split_at_sign(t: &str) -> (r: (String, String))
    ensures
        (r.0@, r.1@) == split_target(t@),
{
    let v = crate::text::chars_of(t);
    let n = v.len();
    let mut i: usize = 0;
    while i < n && v[i] != '@'
        invariant
            n == v@.len(),
            i <= n,
            at_sign_from(v@, i as int) == at_sign_from(v@, 0),
        decreases n - i,
    {
        i = i + 1;
    }
    if i == n {
        assert(v@.subrange(0, n as int) =~= v@);
        (crate::text::string_of(&v, 0, n), String::new())
    } else {
        (crate::text::string_of(&v, 0, i), crate::text::string_of(&v, i + 1, n))
    }
}

/// The benchmark's grid: every target, split into model and provider at
/// its first `@`, with every cut, every words and every mode, in that
/// nesting order.
pub fn grid(targets: &Vec<String>, cuts: &Vec<Cut>, ws: &Vec<Words>, modes: &Vec<Mode>) -> (r: Vec<Combo>)
    ensures
        combos_view(r@) == grid_of(views(targets@), cuts@, ws@, modes@),
{
    let ghost tv = views(targets@);
    let mut out: Vec<Combo> = Vec::new();
    let mut t: usize = 0;
    while t < targets.len()
        invariant
            t <= targets@.len(),
            tv == views(targets@),
            combos_view(out@) == grid_of(tv.subrange(0, t as int), cuts@, ws@, modes@),
        decreases targets@.len() - t,
    {
        let ghost before_t = combos_view(out@);
        let (model, provider) = split_at_sign(targets[t].as_str());
        assert(tv[t as int] == targets@[t as int]@);
        let mut c: usize = 0;
        while c < cuts.len()
            invariant
                c <= cuts@.len(),
                combos_view(out@) == before_t + cuts_for(model@, provider@, cuts@.subrange(0, c as int), ws@, modes@),
            decreases cuts@.len() - c,
        {
            let ghost before_c = combos_view(out@);
            let mut w: usize = 0;
            while w < ws.len()
                invariant
                    w <= ws@.len(),
                    c < cuts@.len(),
                    combos_view(out@) == before_c + words_for(model@, provider@, cuts@[c as int], ws@.subrange(0, w as int), modes@),
                decreases ws@.len() - w,
            {
                let ghost before_w = combos_view(out@);
                let mut m: usize = 0;
                while m < modes.len()
                    invariant
                        m <= modes@.len(),
                        c < cuts@.len(),
                        w < ws@.len(),
                        combos_view(out@) == before_w + modes_for(model@, provider@, cuts@[c as int], ws@[w as int], modes@.subrange(0, m as int)),
                    decreases modes@.len() - m,
                {
                    let ghost prev = combos_view(out@);
                    out.push(Combo {
                        model: crate::text::copy(&model),
                        provider: crate::text::copy(&provider),
                        cut: cuts[c],
                        words: ws[w],
                        mode: modes[m],
                    });
                    assert(combos_view(out@) =~= prev.push(combo(model@, provider@, cuts@[c as int], ws@[w as int], modes@[m as int])));
                    assert(modes_for(model@, provider@, cuts@[c as int], ws@[w as int], modes@.subrange(0, m + 1))
                        =~= modes_for(model@, provider@, cuts@[c as int], ws@[w as int], modes@.subrange(0, m as int))
                            .push(combo(model@, provider@, cuts@[c as int], ws@[w as int], modes@[m as int])));
                    m = m + 1;
                }
                assert(modes@.subrange(0, m as int) =~= modes@);
                assert(ws@.subrange(0, w + 1).drop_last() =~= ws@.subrange(0, w as int));
                assert(combos_view(out@) =~= before_c + words_for(model@, provider@, cuts@[c as int], ws@.subrange(0, w + 1), modes@));
                w = w + 1;
            }
            assert(ws@.subrange(0, w as int) =~= ws@);
            assert(cuts@.subrange(0, c + 1).drop_last() =~= cuts@.subrange(0, c as int));
            assert(combos_view(out@) =~= before_t + cuts_for(model@, provider@, cuts@.subrange(0, c + 1), ws@, modes@));
            c = c + 1;
        }
        assert(cuts@.subrange(0, c as int) =~= cuts@);
        assert(tv.subrange(0, t + 1).drop_last() =~= tv.subrange(0, t as int));
        assert(combos_view(out@) =~= grid_of(tv.subrange(0, t + 1), cuts@, ws@, modes@));
        t = t + 1;
    }
    assert(tv.subrange(0, t as int) =~= tv);
    out
}

} // verus!
