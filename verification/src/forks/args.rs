//! The command line: a command, positional arguments, and `--name value` or
//! `--name=value` flags, each of which may repeat.
use vstd::prelude::*;
use crate::forks::anthropic::anthropic_named;
use crate::forks::wire::Backend;
use crate::text::{same, cat, cat3, chars_of, contains, contains_text, copy, joined, lines_of, owned, string_of, trimmed, views};

verus! {

/// The help `forks` prints.
pub const FORKS_HELP: &'static str = "forks — agents as structured concurrency\n\n  forks run  --dir <path> \"<task>\"   one autonomous root, run to completion\n  forks chat --dir <path>            talk to the root; it forks when it wants to\n  forks bench                        the discipline benchmark over a grid of framings\n  forks rescore <bench-dir> [--json <file>]  score a recorded benchmark again, offline;\n                                     --json also writes every trial row as JSON\n\nFraming (the two knobs the benchmark sweeps):\n  --cut full|own|before   what a forked child inherits (default before)\n      full    the parent's messages through the `task` turn, then a tool\n              result addressed to this child\n      own     the same, but this child's copy of the `task` arguments holds\n              only its own entry\n      before  the parent's messages up to, not including, the `task` turn,\n              then a user message with the assignment\n  --words stop|explained  what the assignment says (default explained)\n      stop       the assignment, and \"do only this, then stop\"\n      explained  also: that it is one branch of a split, that its siblings\n                 hold the other assignments, and that its final message is\n                 exactly what its parent receives\n  --mode fork|fresh|declared   force every child's mode (run and chat default\n                               to declared: honour each `task` entry's `fresh`.\n                               bench defaults to fork)\n\nProvider:\n  --backend anthropic|openrouter   default anthropic\n      anthropic   Anthropic's API on your subscription, with the token\n                  opencode keeps. Not billed per token, so costs show as $0\n                  and --max-cost never trips\n      openrouter  OpenRouter's chat-completions API, paid from a key\n  --model <id>        default $FORKS_MODEL\n  --base-url <url>    default https://api.anthropic.com or\n                      https://openrouter.ai/api/v1\n  --credentials <db>  anthropic: opencode's database, default\n                      $XDG_DATA_HOME/opencode/opencode.db\n  --provider <slug>   openrouter: default amazon-bedrock; empty string sends\n                      no routing\n  --keys <file>       openrouter: default <experiment>/keys.ignore.env; or\n                      $OPENROUTER_API_KEY\n\nLimits:\n  --max-cost <usd>    stop before the request that would exceed it (default 0.50;\n                      bench uses 0.15 per trial)\n  --max-depth <n>     levels of agents below the root (default 3; bench uses 2,\n                      which is exactly the shape its task asks for)\n  --max-turns <n>     requests one agent may make (default 20)\n  --request-timeout <seconds>  give up on a silent provider and retry (default 300)\n  --rate-limit-patience <seconds>  how long to keep waiting out a 429 before\n                      giving up on it (default 120; the first wait is a\n                      twenty-fourth of it, doubling, and `Retry-After` wins)\n  --runs-dir <path>   default <experiment>/runs.ignore\n  --panic-in <agent path>  fault injection: make that agent's task panic\n\nBenchmark only:\n  --grid <model@provider,...>   default <model>@<provider>\n  --reps <n>                    trials per combination (default 1)\n  --budget <usd>                total for the whole benchmark; the only thing\n                                that stops it early (default 5.00). A trial that\n                                reaches its own --max-cost is a scored trial.\n  --cut / --words / --mode      accept comma-separated lists here\n\nIn chat: a line is a message to the root; /tree, /cancel, /quit. A line typed\nwhile a turn is running is refused and discarded, not queued.\n";

/// Whether a `forks` command line asks for help rather than a command:
/// nothing given, or `--help`, `-h` or `help` first.
pub fn wants_help(argv: &Vec<String>) -> (r: bool)
    ensures
        r == (argv@.len() == 0 || argv@[0]@ == "--help"@ || argv@[0]@ == "-h"@ || argv@[0]@ == "help"@),
{
    argv.len() == 0 || same(argv[0].as_str(), "--help") || same(argv[0].as_str(), "-h") || same(argv[0].as_str(), "help")
}

/// A parsed command line.
pub struct Args {
    pub command: String,
    pub positional: Vec<String>,
    /// Each flag once, in the order first given, with its values in order.
    pub flags: Vec<(String, Vec<String>)>,
}

pub struct ArgsView {
    pub command: Seq<char>,
    pub positional: Seq<Seq<char>>,
    pub flags: Seq<(Seq<char>, Seq<Seq<char>>)>,
}

pub open spec fn flags_view(f: Seq<(String, Vec<String>)>) -> Seq<(Seq<char>, Seq<Seq<char>>)> {
    f.map_values(|e: (String, Vec<String>)| (e.0@, views(e.1@)))
}

impl View for Args {
    type V = ArgsView;

    open spec fn view(&self) -> ArgsView {
        ArgsView { command: self.command@, positional: views(self.positional@), flags: flags_view(self.flags@) }
    }
}

/// The index of the first flag named `name`, or -1.
pub open spec fn flag_index(flags: Seq<(Seq<char>, Seq<Seq<char>>)>, name: Seq<char>) -> int
    decreases flags.len(),
{
    if flags.len() == 0 {
        -1
    } else {
        let p = flag_index(flags.drop_last(), name);
        if p >= 0 {
            p
        } else if flags.last().0 == name {
            flags.len() - 1
        } else {
            -1
        }
    }
}

/// The flags with one more value for `name`.
pub open spec fn add_value(flags: Seq<(Seq<char>, Seq<Seq<char>>)>, name: Seq<char>, value: Seq<char>) -> Seq<(Seq<char>, Seq<Seq<char>>)> {
    let p = flag_index(flags, name);
    if p >= 0 {
        flags.update(p, (name, flags[p].1.push(value)))
    } else {
        flags.push((name, seq![value]))
    }
}

/// The index of the first `c` in `s`, or -1.
pub open spec fn char_index(s: Seq<char>, c: char) -> int
    decreases s.len(),
{
    if s.len() == 0 {
        -1
    } else {
        let p = char_index(s.drop_last(), c);
        if p >= 0 {
            p
        } else if s.last() == c {
            s.len() - 1
        } else {
            -1
        }
    }
}

/// Where a scan of the command line stands.
pub struct Scan {
    pub positional: Seq<Seq<char>>,
    pub flags: Seq<(Seq<char>, Seq<Seq<char>>)>,
    /// A `--name` still waiting for its value.
    pub pending: Option<Seq<char>>,
}

/// The scan after one more argument.
pub open spec fn scan_step(s: Scan, a: Seq<char>) -> Scan {
    match s.pending {
        Some(name) => Scan { flags: add_value(s.flags, name, a), pending: None, ..s },
        None => if a.len() >= 2 && a[0] == '-' && a[1] == '-' {
            let rest = a.subrange(2, a.len() as int);
            let e = char_index(rest, '=');
            if e >= 0 {
                Scan { flags: add_value(s.flags, rest.subrange(0, e), rest.subrange(e + 1, rest.len() as int)), ..s }
            } else {
                Scan { pending: Some(rest), ..s }
            }
        } else {
            Scan { positional: s.positional.push(a), ..s }
        },
    }
}

/// The scan of `argv[1..n]`.
pub open spec fn scan(argv: Seq<Seq<char>>, n: nat) -> Scan
    decreases n,
{
    if n <= 1 {
        Scan { positional: Seq::empty(), flags: Seq::empty(), pending: None }
    } else {
        scan_step(scan(argv, (n - 1) as nat), argv[n - 1])
    }
}

/// The values given for `name`, if any.
pub open spec fn values_of(a: ArgsView, name: Seq<char>) -> Option<Seq<Seq<char>>> {
    let p = flag_index(a.flags, name);
    if p >= 0 {
        Some(a.flags[p].1)
    } else {
        None
    }
}

/// The last value given for `name`, if any.
pub open spec fn last_of(a: ArgsView, name: Seq<char>) -> Option<Seq<char>> {
    match values_of(a, name) {
        Some(vs) => if vs.len() > 0 { Some(vs.last()) } else { None },
        None => None,
    }
}

/// Pieces of `s` between the commas.
pub open spec fn split_commas(s: Seq<char>) -> Seq<Seq<char>>
    decreases s.len(),
{
    proof {
        lemma_char_index(s, ',');
    }
    let k = char_index(s, ',');
    if k < 0 {
        seq![s]
    } else {
        seq![s.subrange(0, k)] + split_commas(s.subrange(k + 1, s.len() as int))
    }
}

/// Trimmed pieces that are not empty.
pub open spec fn kept_pieces(pieces: Seq<Seq<char>>) -> Seq<Seq<char>>
    decreases pieces.len(),
{
    if pieces.len() == 0 {
        Seq::empty()
    } else {
        let before = kept_pieces(pieces.drop_last());
        let t = trimmed(pieces.last());
        if t.len() > 0 {
            before.push(t)
        } else {
            before
        }
    }
}

/// The value of a decimal digit.
pub open spec fn digit_value(c: char) -> int {
    c as int - '0' as int
}

pub open spec fn is_digit(c: char) -> bool {
    '0' <= c && c <= '9'
}

/// The number the digits of `s` write; `s` holds digits only.
pub open spec fn digits_value(s: Seq<char>) -> nat
    decreases s.len(),
{
    if s.len() == 0 {
        0
    } else {
        (digits_value(s.drop_last()) * 10 + digit_value(s.last())) as nat
    }
}

/// What `str::parse::<usize>` makes of `s`: an optional `+`, then one or
/// more digits, for a value that fits.
pub open spec fn parsed_number(s: Seq<char>) -> Option<nat> {
    let d = unsigned_digits(s);
    if d.len() > 0 && all_digits(d) && digits_value(d) <= usize::MAX {
        Some(digits_value(d))
    } else {
        None
    }
}

/// `s` without a leading `+`.
pub open spec fn unsigned_digits(s: Seq<char>) -> Seq<char> {
    if s.len() > 0 && s[0] == '+' {
        s.subrange(1, s.len() as int)
    } else {
        s
    }
}

pub open spec fn all_digits(d: Seq<char>) -> bool {
    forall|i: int| 0 <= i < d.len() ==> is_digit(#[trigger] d[i])
}

proof fn lemma_flag_index(flags: Seq<(Seq<char>, Seq<Seq<char>>)>, name: Seq<char>)
    ensures
        flag_index(flags, name) == -1 <==> (forall|k: int| 0 <= k < flags.len() ==> flags[k].0 != name),
        flag_index(flags, name) >= 0 ==> {
            &&& flag_index(flags, name) < flags.len()
            &&& flags[flag_index(flags, name)].0 == name
            &&& forall|k: int| 0 <= k < flag_index(flags, name) ==> flags[k].0 != name
        },
        flag_index(flags, name) >= -1,
    decreases flags.len(),
{
    if flags.len() > 0 {
        lemma_flag_index(flags.drop_last(), name);
        if flag_index(flags.drop_last(), name) == -1 {
            assert forall|k: int| 0 <= k < flags.len() - 1 implies flags[k].0 != name by {
                assert(flags.drop_last()[k] == flags[k]);
            }
        } else {
            assert(flags.drop_last()[flag_index(flags, name)] == flags[flag_index(flags, name)]);
            assert forall|k: int| 0 <= k < flag_index(flags, name) implies flags[k].0 != name by {
                assert(flags.drop_last()[k] == flags[k]);
            }
        }
    }
}

pub proof fn lemma_char_index(s: Seq<char>, c: char)
    ensures
        char_index(s, c) == -1 <==> (forall|k: int| 0 <= k < s.len() ==> s[k] != c),
        char_index(s, c) >= 0 ==> {
            &&& char_index(s, c) < s.len()
            &&& s[char_index(s, c)] == c
            &&& forall|k: int| 0 <= k < char_index(s, c) ==> s[k] != c
        },
        char_index(s, c) >= -1,
    decreases s.len(),
{
    if s.len() > 0 {
        lemma_char_index(s.drop_last(), c);
        if char_index(s.drop_last(), c) == -1 {
            assert forall|k: int| 0 <= k < s.len() - 1 implies s[k] != c by {
                assert(s.drop_last()[k] == s[k]);
            }
        } else {
            assert(s.drop_last()[char_index(s, c)] == s[char_index(s, c)]);
            assert forall|k: int| 0 <= k < char_index(s, c) implies s[k] != c by {
                assert(s.drop_last()[k] == s[k]);
            }
        }
    }
}

/// The index of the flag named `name`, if there is one.
fn find_flag(flags: &Vec<(String, Vec<String>)>, name: &str) -> (r: Option<usize>)
    ensures
        match r {
            Some(j) => flag_index(flags_view(flags@), name@) == j,
            None => flag_index(flags_view(flags@), name@) == -1,
        },
{
    proof {
        lemma_flag_index(flags_view(flags@), name@);
    }
    let mut j: usize = 0;
    while j < flags.len()
        invariant
            j <= flags@.len(),
            forall|m: int| 0 <= m < j ==> flags_view(flags@)[m].0 != name@,
        decreases flags@.len() - j,
    {
        if crate::text::same(flags[j].0.as_str(), name) {
            assert(flags_view(flags@)[j as int].0 == name@);
            proof {
                lemma_flag_index(flags_view(flags@), name@);
            }
            return Some(j);
        }
        j = j + 1;
    }
    proof {
        lemma_flag_index(flags_view(flags@), name@);
    }
    None
}

/// One more value for `name`.
fn add_flag_value(flags: &mut Vec<(String, Vec<String>)>, name: String, value: String)
    ensures
        flags_view(final(flags)@) == add_value(flags_view(old(flags)@), name@, value@),
{
    let ghost f = flags_view(flags@);
    proof {
        lemma_flag_index(f, name@);
    }
    match find_flag(flags, name.as_str()) {
        Some(j) => {
            let (n, mut vs) = flags.remove(j);
            let ghost before = views(vs@);
            vs.push(value);
            assert(views(vs@) =~= before.push(value@));
            flags.insert(j, (n, vs));
            assert(flags_view(flags@) =~= f.update(j as int, (name@, f[j as int].1.push(value@))));
        },
        None => {
            let mut vs: Vec<String> = Vec::new();
            vs.push(value);
            assert(views(vs@) =~= seq![value@]);
            flags.push((name, vs));
            assert(flags_view(flags@) =~= f.push((name@, seq![value@])));
        },
    }
}

/// The index of the first `c` in `v` from `from` on, or `v.len()`.
fn find_char(v: &Vec<char>, from: usize, c: char) -> (r: usize)
    requires
        from <= v@.len(),
    ensures
        from <= r <= v@.len(),
        forall|k: int| from <= k < r ==> v@[k] != c,
        r < v@.len() ==> v@[r as int] == c,
{
    let mut i = from;
    while i < v.len() && v[i] != c
        invariant
            from <= i <= v@.len(),
            forall|k: int| from <= k < i ==> v@[k] != c,
        decreases v@.len() - i,
    {
        i = i + 1;
    }
    i
}

impl Args {
    /// Parses the command line after the program name; the first word is
    /// the command.
    pub fn parse(argv: Vec<String>) -> (r: Result<Args, String>)
        requires
            argv@.len() > 0,
        ensures
            match scan(views(argv@), argv@.len()).pending {
                Some(name) => r matches Err(e) && e@ == "--"@ + name + " needs a value"@,
                None => r matches Ok(a) && a@ == (ArgsView {
                    command: argv@[0]@,
                    positional: scan(views(argv@), argv@.len()).positional,
                    flags: scan(views(argv@), argv@.len()).flags,
                }),
            },
    {
        let ghost all = views(argv@);
        let n = argv.len();
        let mut argv = argv;
        let ghost whole = argv@;
        let mut rest = argv.split_off(1);
        assert(views(rest@) =~= all.subrange(1, n as int));
        let command = argv.pop().unwrap();
        assert(command == whole[0]);
        let mut positional: Vec<String> = Vec::new();
        let mut flags: Vec<(String, Vec<String>)> = Vec::new();
        let mut pending: Option<String> = None;
        let mut i: usize = 1;
        while rest.len() > 0
            invariant
                1 <= i <= n,
                n == all.len(),
                views(rest@) == all.subrange(i as int, n as int),
                command@ == all[0],
                ({
                    let s = scan(all, i as nat);
                    &&& views(positional@) == s.positional
                    &&& flags_view(flags@) == s.flags
                    &&& crate::skeleton::protocol::opt_view(pending) == s.pending
                }),
            decreases rest@.len(),
        {
            let ghost old_rest = rest@;
            proof {
                assert(views(old_rest).len() == old_rest.len());
                assert(views(old_rest)[0] == old_rest[0]@);
                assert(all.subrange(i as int, n as int)[0] == all[i as int]);
                assert(views(old_rest)[0] == all[i as int]);
            }
            let argument = rest.remove(0);
            proof {
                assert(argument@ == all[i as int]);
                assert(views(rest@) =~= views(old_rest).subrange(1, old_rest.len() as int));
                assert(all.subrange(i as int, n as int).subrange(1, n - i) =~= all.subrange(i + 1, n as int));
                assert(views(rest@) =~= all.subrange(i + 1, n as int));
            }
            let ghost s = scan(all, i as nat);
            match pending {
                Some(name) => {
                    add_flag_value(&mut flags, name, argument);
                    pending = None;
                },
                None => {
                    let v = chars_of(argument.as_str());
                    if v.len() >= 2 && v[0] == '-' && v[1] == '-' {
                        let ghost a = argument@;
                        let ghost tail = a.subrange(2, a.len() as int);
                        let e = find_char(&v, 2, '=');
                        proof {
                            lemma_char_index(tail, '=');
                            if e < v.len() {
                                assert(tail[e - 2] == '=');
                                assert(char_index(tail, '=') == e - 2) by {
                                    if char_index(tail, '=') >= 0 && char_index(tail, '=') < e - 2 {
                                        assert(v@[char_index(tail, '=') + 2] != '=');
                                    }
                                }
                            } else {
                                assert forall|k: int| 0 <= k < tail.len() implies tail[k] != '=' by {
                                    assert(tail[k] == v@[k + 2]);
                                }
                            }
                        }
                        if e < v.len() {
                            let name = string_of(&v, 2, e);
                            let value = string_of(&v, e + 1, v.len());
                            assert(name@ =~= tail.subrange(0, e - 2));
                            assert(value@ =~= tail.subrange(e - 2 + 1, tail.len() as int));
                            add_flag_value(&mut flags, name, value);
                        } else {
                            let name = string_of(&v, 2, v.len());
                            assert(name@ =~= tail);
                            pending = Some(name);
                        }
                    } else {
                        let ghost before = views(positional@);
                        positional.push(argument);
                        assert(views(positional@) =~= before.push(all[i as int]));
                    }
                },
            }
            i = i + 1;
        }
        assert(i == n);
        match pending {
            Some(name) => Err(cat3("--", name.as_str(), " needs a value")),
            None => Ok(Args { command, positional, flags }),
        }
    }

    /// The last value given for `name`.
    fn last_value(&self, name: &str) -> (r: Option<String>)
        ensures
            crate::skeleton::protocol::opt_view(r) == last_of(self@, name@),
    {
        match find_flag(&self.flags, name) {
            Some(j) => {
                proof {
                    lemma_flag_index(flags_view(self.flags@), name@);
                }
                let values = &self.flags[j].1;
                assert(views(values@) == self@.flags[j as int].1);
                if values.len() > 0 {
                    assert(views(values@).last() == values@.last()@);
                    Some(copy(&values[values.len() - 1]))
                } else {
                    None
                }
            },
            None => None,
        }
    }

    /// Refuses a flag that `allowed` does not name, citing the flags it does.
    pub fn known(&self, allowed: &[&str]) -> (r: Result<(), String>)
        ensures
            match first_unknown(self@.flags, allowed_names(allowed@)) {
                Some(name) => r matches Err(e) && e@ == "unknown flag --"@ + name + " for `"@ + self@.command
                    + "`; accepted: "@ + joined(dashed(allowed_names(allowed@)), " "@),
                None => r is Ok,
            },
    {
        let ghost names = allowed_names(allowed@);
        let mut k: usize = 0;
        while k < self.flags.len()
            invariant
                k <= self@.flags.len(),
                names == allowed_names(allowed@),
                first_unknown(self@.flags.subrange(0, k as int), names) is None,
            decreases self@.flags.len() - k,
        {
            let name = self.flags[k].0.as_str();
            let mut found = false;
            let mut m: usize = 0;
            while m < allowed.len()
                invariant
                    m <= allowed@.len(),
                    names == allowed_names(allowed@),
                    found == (exists|q: int| 0 <= q < m && names[q] == name@),
                decreases allowed@.len() - m,
            {
                assert(names[m as int] == allowed@[m as int]@);
                if crate::text::same(allowed[m], name) {
                    found = true;
                }
                proof {
                    if exists|q: int| 0 <= q < m + 1 && names[q] == name@ {
                        let q = choose|q: int| 0 <= q < m + 1 && names[q] == name@;
                        assert(q == m || (0 <= q < m && names[q] == name@));
                    }
                }
                m = m + 1;
            }
            let ghost next = self@.flags.subrange(0, k + 1 as int);
            assert(next.drop_last() =~= self@.flags.subrange(0, k as int));
            assert(next.last() == self@.flags[k as int]);
            assert(names.contains(name@) == found) by {
                if found {
                    let q = choose|q: int| 0 <= q < m && names[q] == name@;
                    assert(names[q] == name@);
                }
            }
            if !found {
                let mut dashed_names: Vec<String> = Vec::new();
                let mut m: usize = 0;
                while m < allowed.len()
                    invariant
                        m <= allowed@.len(),
                        names == allowed_names(allowed@),
                        views(dashed_names@) == dashed(names).subrange(0, m as int),
                    decreases allowed@.len() - m,
                {
                    let ghost before = views(dashed_names@);
                    assert(names[m as int] == allowed@[m as int]@);
                    assert(dashed(names).len() == allowed@.len());
                    assert(dashed(names)[m as int] == "--"@ + names[m as int]);
                    let x = cat("--", allowed[m]);
                    assert(x@ == dashed(names)[m as int]);
                    dashed_names.push(x);
                    assert(views(dashed_names@) =~= before.push(dashed(names)[m as int]));
                    assert(views(dashed_names@) =~= dashed(names).subrange(0, m + 1 as int));
                    m = m + 1;
                }
                assert(dashed(names).subrange(0, m as int) =~= dashed(names));
                proof {
                    lemma_first_unknown_prefix(self@.flags, names, (k + 1) as nat);
                }
                let mut e = cat3("unknown flag --", name, " for `");
                e.append(self.command.as_str());
                e.append("`; accepted: ");
                let accepted = crate::text::join(&dashed_names, " ");
                e.append(accepted.as_str());
                return Err(e);
            }
            k = k + 1;
        }
        assert(self@.flags.subrange(0, k as int) =~= self@.flags);
        Ok(())
    }

    /// The last value of `name`, or `default`.
    pub fn one(&self, name: &str, default: &str) -> (r: String)
        ensures
            r@ == match last_of(self@, name@) {
                Some(v) => v,
                None => default@,
            },
    {
        match self.last_value(name) {
            Some(v) => v,
            None => owned(default),
        }
    }

    /// The last value of `name`, which must be given.
    pub fn required(&self, name: &str) -> (r: Result<String, String>)
        ensures
            match last_of(self@, name@) {
                Some(v) => r matches Ok(x) && x@ == v,
                None => r matches Err(e) && e@ == "--"@ + name@ + " is required"@,
            },
    {
        match self.last_value(name) {
            Some(v) => Ok(v),
            None => Err(cat3("--", name, " is required")),
        }
    }

    /// The session id to send; `--session-id ""` sends an empty one.
    pub fn session_id(&self) -> (r: Option<String>)
        ensures
            crate::skeleton::protocol::opt_view(r) == last_of(self@, "session-id"@),
    {
        self.last_value("session-id")
    }

    /// Where runs are written: `--runs-dir`, by default `runs.ignore` in
    /// the experiment's directory.
    pub fn runs_dir(&self, experiment_dir: &str) -> (r: String)
        ensures
            r@ == match last_of(self@, "runs-dir"@) {
                Some(v) => v,
                None => experiment_dir@ + "/runs.ignore"@,
            },
    {
        let default = cat(experiment_dir, "/runs.ignore");
        self.one("runs-dir", default.as_str())
    }

    /// The OpenRouter route: `--provider`, by default `amazon-bedrock` on
    /// the OpenRouter backend and none on the subscription.
    pub fn provider(&self) -> (r: String)
        ensures
            r@ == match last_of(self@, "provider"@) {
                Some(v) => v,
                None => if last_of(self@, "backend"@) == Some("openrouter"@) {
                    "amazon-bedrock"@
                } else {
                    ""@
                },
            },
    {
        let on_openrouter = match self.last_value("backend") {
            Some(b) => crate::text::same(b.as_str(), "openrouter"),
            None => false,
        };
        if on_openrouter {
            self.one("provider", "amazon-bedrock")
        } else {
            self.one("provider", "")
        }
    }

    /// Comma-separated values across every occurrence of `name` (or in
    /// `default`), trimmed, without empty ones.
    pub fn list(&self, name: &str, default: &str) -> (r: Vec<String>)
        ensures
            views(r@) == kept_pieces(split_commas(match values_of(self@, name@) {
                Some(vs) => joined(vs, ","@),
                None => default@,
            })),
    {
        let all = match find_flag(&self.flags, name) {
            Some(j) => {
                proof {
                    lemma_flag_index(flags_view(self.flags@), name@);
                }
                assert(views(self.flags@[j as int].1@) == self@.flags[j as int].1);
                crate::text::join(&self.flags[j].1, ",")
            },
            None => owned(default),
        };
        comma_pieces(all.as_str())
    }

    /// The last value of `name` as a count, or `default`.
    pub fn number(&self, name: &str, default: usize) -> (r: Result<usize, String>)
        ensures
            match last_of(self@, name@) {
                Some(text) => match parsed_number(text) {
                    Some(n) => r == Ok::<usize, String>(n as usize),
                    None => r matches Err(e) && e@ == "--"@ + name@ + " "@ + text + " is not a number"@,
                },
                None => r == Ok::<usize, String>(default),
            },
    {
        match self.last_value(name) {
            Some(text) => match parse_count(text.as_str()) {
                Some(n) => Ok(n),
                None => {
                    let mut e = cat3("--", name, " ");
                    e.append(text.as_str());
                    e.append(" is not a number");
                    Err(e)
                },
            },
            None => Ok(default),
        }
    }
}

/// The names of `allowed`.
pub open spec fn allowed_names(allowed: Seq<&str>) -> Seq<Seq<char>> {
    allowed.map_values(|a: &str| a@)
}

/// Each name with `--` before it.
pub open spec fn dashed(names: Seq<Seq<char>>) -> Seq<Seq<char>> {
    names.map_values(|a: Seq<char>| "--"@ + a)
}

/// The first flag whose name `allowed` does not hold.
pub open spec fn first_unknown(flags: Seq<(Seq<char>, Seq<Seq<char>>)>, allowed: Seq<Seq<char>>) -> Option<Seq<char>>
    decreases flags.len(),
{
    if flags.len() == 0 {
        None
    } else {
        match first_unknown(flags.drop_last(), allowed) {
            Some(n) => Some(n),
            None => if allowed.contains(flags.last().0) {
                None
            } else {
                Some(flags.last().0)
            },
        }
    }
}

proof fn lemma_first_unknown_prefix(flags: Seq<(Seq<char>, Seq<Seq<char>>)>, allowed: Seq<Seq<char>>, n: nat)
    requires
        n <= flags.len(),
        first_unknown(flags.subrange(0, n as int), allowed) is Some,
    ensures
        first_unknown(flags, allowed) == first_unknown(flags.subrange(0, n as int), allowed),
    decreases flags.len() - n,
{
    if n < flags.len() {
        assert(flags.subrange(0, n + 1 as int).drop_last() =~= flags.subrange(0, n as int));
        lemma_first_unknown_prefix(flags, allowed, n + 1);
    } else {
        assert(flags.subrange(0, n as int) =~= flags);
    }
}

/// The pieces of `s` between commas, trimmed, without empty ones.
pub fn comma_pieces(s: &str) -> (r: Vec<String>)
    ensures
        views(r@) == kept_pieces(split_commas(s@)),
{
    let v = chars_of(s);
    let n = v.len();
    let mut out: Vec<String> = Vec::new();
    let mut i: usize = 0;
    let ghost mut done: Seq<Seq<char>> = Seq::empty();
    assert(v@.subrange(0, n as int) =~= v@);
    assert(done + split_commas(v@) =~= split_commas(v@));
    loop
        invariant
            v@ == s@,
            n == v@.len(),
            i <= n,
            split_commas(s@) == done + split_commas(v@.subrange(i as int, n as int)),
            views(out@) == kept_pieces(done),
        decreases n - i,
    {
        let e = find_char(&v, i, ',');
        let ghost rest = v@.subrange(i as int, n as int);
        proof {
            lemma_char_index(rest, ',');
            if e < n {
                assert(rest[e - i] == ',');
                assert(char_index(rest, ',') == e - i) by {
                    if char_index(rest, ',') >= 0 && char_index(rest, ',') < e - i {
                        assert(v@[char_index(rest, ',') + i] != ',');
                    }
                }
            } else {
                assert forall|k: int| 0 <= k < rest.len() implies rest[k] != ',' by {
                    assert(rest[k] == v@[k + i]);
                }
            }
        }
        let piece = string_of(&v, i, e);
        let t = crate::text::trim(piece.as_str());
        let ghost before = views(out@);
        proof {
            assert(piece@ =~= rest.subrange(0, e - i));
            assert(kept_pieces(done.push(piece@)).drop_last() == kept_pieces(done) || true);
            assert(done.push(piece@).drop_last() =~= done);
        }
        if t.as_str().unicode_len() > 0 {
            out.push(t);
            assert(views(out@) =~= before.push(trimmed(piece@)));
        }
        proof {
            done = done.push(piece@);
        }
        if e >= n {
            proof {
                assert(split_commas(rest) == seq![rest]);
                assert(rest =~= piece@);
                assert(split_commas(s@) =~= done);
            }
            return out;
        }
        proof {
            assert(rest.subrange(e - i + 1, rest.len() as int) =~= v@.subrange(e + 1, n as int));
            assert(split_commas(rest) == seq![piece@] + split_commas(v@.subrange(e + 1, n as int)));
            assert(split_commas(s@) =~= done + split_commas(v@.subrange(e + 1, n as int)));
        }
        i = e + 1;
    }
}

/// `s.parse::<usize>()`.
pub fn parse_count(s: &str) -> (r: Option<usize>)
    ensures
        match parsed_number(s@) {
            Some(n) => r == Some(n as usize),
            None => r is None,
        },
{
    let v = chars_of(s);
    let n = v.len();
    let start: usize = if n > 0 && v[0] == '+' { 1 } else { 0 };
    let ghost d = v@.subrange(start as int, n as int);
    assert(d =~= unsigned_digits(s@));
    if start >= n {
        return None;
    }
    let mut value: usize = 0;
    let mut i: usize = start;
    while i < n
        invariant
            v@ == s@,
            n == v@.len(),
            start <= i <= n,
            d == v@.subrange(start as int, n as int),
            d == unsigned_digits(s@),
            forall|k: int| start <= k < i ==> is_digit(#[trigger] v@[k]),
            value == digits_value(v@.subrange(start as int, i as int)),
        decreases n - i,
    {
        let c = v[i];
        proof {
            assert(v@.subrange(start as int, i + 1 as int).drop_last() =~= v@.subrange(start as int, i as int));
            assert(v@.subrange(start as int, i + 1 as int).last() == c);
        }
        if !('0' <= c && c <= '9') {
            assert(!is_digit(d[i - start]));
            assert(!all_digits(d));
            assert(parsed_number(s@) is None);
            return None;
        }
        let digit = (c as u32 - '0' as u32) as usize;
        assert(digit == digit_value(c));
        proof {
            assert(d.subrange(0, i - start + 1) =~= v@.subrange(start as int, i + 1 as int));
            assert(digits_value(v@.subrange(start as int, i + 1 as int)) == value * 10 + digit);
            if all_digits(d) {
                lemma_digits_grow(d, (i - start + 1) as nat);
            }
        }
        match value.checked_mul(10) {
            Some(tens) => match tens.checked_add(digit) {
                Some(next) => {
                    value = next;
                },
                None => {
                    assert(value * 10 + digit > usize::MAX);
                    assert(parsed_number(s@) is None);
                    return None;
                },
            },
            None => {
                assert(value * 10 + digit > usize::MAX);
                assert(parsed_number(s@) is None);
                return None;
            },
        }
        i = i + 1;
    }
    assert(v@.subrange(start as int, i as int) =~= d);
    Some(value)
}

/// A longer run of digits writes at least as large a number.
proof fn lemma_digits_grow(d: Seq<char>, n: nat)
    requires
        n <= d.len(),
        forall|k: int| 0 <= k < d.len() ==> is_digit(#[trigger] d[k]),
    ensures
        digits_value(d) >= digits_value(d.subrange(0, n as int)),
    decreases d.len() - n,
{
    if n < d.len() {
        lemma_digits_grow(d, n + 1);
        let p = d.subrange(0, n + 1 as int);
        assert(p.drop_last() =~= d.subrange(0, n as int));
        assert(is_digit(p.last()));
    } else {
        assert(d.subrange(0, n as int) =~= d);
    }
}

/// The key a key file holds: the value of its first line that reads
/// `OPENROUTER_API_KEY=<value>` once trimmed, the value trimmed too.
pub open spec fn key_in(lines: Seq<Seq<char>>) -> Option<Seq<char>>
    decreases lines.len(),
{
    if lines.len() == 0 {
        None
    } else {
        let t = trimmed(lines[0]);
        let p = "OPENROUTER_API_KEY="@;
        if t.len() >= p.len() && t.subrange(0, p.len() as int) == p {
            Some(trimmed(t.subrange(p.len() as int, t.len() as int)))
        } else {
            key_in(lines.drop_first())
        }
    }
}

fn has_prefix(t: &Vec<char>, p: &Vec<char>) -> (r: bool)
    ensures
        r == (t@.len() >= p@.len() && t@.subrange(0, p@.len() as int) == p@),
{
    if t.len() < p.len() {
        return false;
    }
    let mut i: usize = 0;
    while i < p.len()
        invariant
            p@.len() <= t@.len(),
            i <= p@.len(),
            forall|k: int| 0 <= k < i ==> t@[k] == p@[k],
        decreases p@.len() - i,
    {
        if t[i] != p[i] {
            assert(t@.subrange(0, p@.len() as int)[i as int] == t@[i as int]);
            return false;
        }
        i = i + 1;
    }
    assert(t@.subrange(0, p@.len() as int) =~= p@);
    true
}

/// The API key in the text of a key file, if it names one.
pub fn key_from_file(text: &str) -> (r: Option<String>)
    ensures
        crate::skeleton::protocol::opt_view(r) == key_in(lines_of(text@)),
{
    let n = chars_of(text).len();
    let lines = crate::text::lines_upto(text, n);
    let prefix = chars_of("OPENROUTER_API_KEY=");
    let ghost all = views(lines@);
    assert(all == lines_of(text@));
    assert(all.subrange(0, all.len() as int) =~= all);
    let mut i: usize = 0;
    while i < lines.len()
        invariant
            i <= lines@.len(),
            all == views(lines@),
            all == lines_of(text@),
            prefix@ == "OPENROUTER_API_KEY="@,
            key_in(all) == key_in(all.subrange(i as int, all.len() as int)),
        decreases lines@.len() - i,
    {
        let ghost rest = all.subrange(i as int, all.len() as int);
        assert(rest[0] == all[i as int]);
        assert(rest.drop_first() =~= all.subrange(i + 1, all.len() as int));
        assert(lines@[i as int]@ == all[i as int]);
        let t = crate::text::trim(lines[i].as_str());
        let tv = chars_of(t.as_str());
        if has_prefix(&tv, &prefix) {
            let value = string_of(&tv, prefix.len(), tv.len());
            let key = crate::text::trim(value.as_str());
            assert(key_in(rest) == Some(key@));
            return Some(key);
        }
        assert(key_in(rest) == key_in(rest.drop_first()));
        i = i + 1;
    }
    assert(all.subrange(i as int, all.len() as int) =~= Seq::<Seq<char>>::empty());
    None
}

impl Args {
    /// The backend a run talks to. `--backend` picks it, the subscription
    /// by default. `provider` is the OpenRouter route, `api_key` the key
    /// found for OpenRouter, `identity` the text the subscription requires
    /// first, and `default_credentials` where its token is kept unless
    /// `--credentials` says otherwise. An OpenRouter URL without a key, a
    /// route on the subscription, a model the subscription does not serve
    /// and an unknown backend are refused.
    pub fn backend(&self, model: &str, provider: &str, api_key: Option<String>, identity: String, default_credentials: &str) -> (r: Result<Backend, String>)
        ensures
            ({
                let which = match last_of(self@, "backend"@) {
                    Some(b) => b,
                    None => "anthropic"@,
                };
                if which == "openrouter"@ {
                    let base_url = match last_of(self@, "base-url"@) {
                        Some(u) => u,
                        None => "https://openrouter.ai/api/v1"@,
                    };
                    if api_key is None && contains_text(base_url, "openrouter.ai"@) {
                        r matches Err(e) && e@ == "no API key: set OPENROUTER_API_KEY or put it in keys.ignore.env"@
                    } else {
                        r matches Ok(Backend::OpenRouter { base_url: u, api_key: k, provider: p })
                            && u@ == base_url && k == api_key
                            && (if provider@.len() == 0 { p is None } else { p matches Some(x) && x@ == provider@ })
                    }
                } else if which == "anthropic"@ {
                    if provider@.len() != 0 {
                        r matches Err(e) && e@ == "provider "@ + provider@ + " is an OpenRouter route, and the anthropic backend has none"@
                    } else if !anthropic_named(model@) {
                        r matches Err(e) && e@
                            == "the anthropic backend serves Anthropic models only, named anthropic/<model>; got "@ + model@
                    } else {
                        r matches Ok(Backend::Anthropic { base_url: u, identity: i, credentials: c })
                            && u@ == (match last_of(self@, "base-url"@) {
                                Some(x) => x,
                                None => "https://api.anthropic.com"@,
                            })
                            && i == identity
                            && c@ == (match last_of(self@, "credentials"@) {
                                Some(x) => x,
                                None => default_credentials@,
                            })
                    }
                } else {
                    r matches Err(e) && e@ == "unknown --backend "@ + which + "; expected anthropic or openrouter"@
                }
            }),
    {
        let which = self.one("backend", "anthropic");
        if crate::text::same(which.as_str(), "openrouter") {
            let base_url = self.one("base-url", "https://openrouter.ai/api/v1");
            if api_key.is_none() && contains(base_url.as_str(), "openrouter.ai") {
                return Err(owned("no API key: set OPENROUTER_API_KEY or put it in keys.ignore.env"));
            }
            let route = if provider.unicode_len() == 0 { None } else { Some(owned(provider)) };
            Ok(Backend::OpenRouter { base_url, api_key, provider: route })
        } else if crate::text::same(which.as_str(), "anthropic") {
            if provider.unicode_len() != 0 {
                return Err(cat3("provider ", provider, " is an OpenRouter route, and the anthropic backend has none"));
            }
            match crate::forks::anthropic::model_id(model) {
                Err(e) => return Err(e),
                Ok(_) => {},
            }
            let credentials = self.one("credentials", default_credentials);
            let base_url = self.one("base-url", "https://api.anthropic.com");
            Ok(Backend::Anthropic { base_url, identity, credentials })
        } else {
            let mut e = cat("unknown --backend ", which.as_str());
            e.append("; expected anthropic or openrouter");
            Err(e)
        }
    }
}

} // verus!
