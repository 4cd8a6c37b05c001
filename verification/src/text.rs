//! Character-level text helpers that every formatter and parser in the crate
//! builds on: comparison, trimming, joining, padding, line splitting and
//! decimal rendering, each stated over `Seq<char>`.
use vstd::prelude::*;

verus! {

/// Appends one character to a string (`String::push`).
#[verifier::external_body]
pub fn push_char(s: &mut String, c: char)
    ensures
        final(s)@ == old(s)@.push(c),
{
    s.push(c);
}

/// Whether two strings hold the same characters.
pub fn same(a: &str, b: &str) -> (r: bool)
    ensures
        r == (a@ == b@),
{
    let n = a.unicode_len();
    let m = b.unicode_len();
    if n != m {
        return false;
    }
    let mut i: usize = 0;
    while i < n
        invariant
            n == a@.len(),
            m == b@.len(),
            n == m,
            i <= n,
            forall|k: int| 0 <= k < i ==> a@[k] == b@[k],
        decreases n - i,
    {
        if a.get_char(i) != b.get_char(i) {
            return false;
        }
        i = i + 1;
    }
    assert(a@ =~= b@);
    true
}

/// The characters of a string, one per element.
pub fn chars_of(s: &str) -> (r: Vec<char>)
    ensures
        r@ == s@,
{
    let n = s.unicode_len();
    let mut out: Vec<char> = Vec::new();
    let mut i: usize = 0;
    while i < n
        invariant
            n == s@.len(),
            i <= n,
            out@ == s@.subrange(0, i as int),
        decreases n - i,
    {
        out.push(s.get_char(i));
        i = i + 1;
        assert(out@ =~= s@.subrange(0, i as int));
    }
    assert(out@ =~= s@);
    out
}

/// A string made of the characters `v[from..to]`.
pub fn string_of(v: &Vec<char>, from: usize, to: usize) -> (r: String)
    requires
        from <= to <= v@.len(),
    ensures
        r@ == v@.subrange(from as int, to as int),
{
    let mut out = String::new();
    let mut i = from;
    while i < to
        invariant
            from <= i <= to,
            to <= v@.len(),
            out@ == v@.subrange(from as int, i as int),
        decreases to - i,
    {
        push_char(&mut out, v[i]);
        i = i + 1;
        assert(out@ =~= v@.subrange(from as int, i as int));
    }
    out
}

/// An owned copy of a string slice.
pub fn owned(s: &str) -> (r: String)
    ensures
        r@ == s@,
{
    String::from_str(s)
}

/// A copy of a string.
pub fn copy(s: &String) -> (r: String)
    ensures
        r@ == s@,
{
    String::from_str(s.as_str())
}

/// Concatenation of two strings into a new one.
pub fn cat(a: &str, b: &str) -> (r: String)
    ensures
        r@ == a@ + b@,
{
    let mut out = String::from_str(a);
    out.append(b);
    out
}

/// Concatenation of three strings into a new one.
pub fn cat3(a: &str, b: &str, c: &str) -> (r: String)
    ensures
        r@ == a@ + b@ + c@,
{
    let mut out = String::from_str(a);
    out.append(b);
    out.append(c);
    out
}

/// Unicode `White_Space`, the set that `char::is_whitespace` and
/// `str::trim` use.
pub open spec fn is_white(c: char) -> bool {
    ||| ('\u{9}' <= c && c <= '\u{d}')
    ||| c == ' '
    ||| c == '\u{85}'
    ||| c == '\u{a0}'
    ||| c == '\u{1680}'
    ||| ('\u{2000}' <= c && c <= '\u{200a}')
    ||| c == '\u{2028}'
    ||| c == '\u{2029}'
    ||| c == '\u{202f}'
    ||| c == '\u{205f}'
    ||| c == '\u{3000}'
}

pub fn is_white_char(c: char) -> (r: bool)
    ensures
        r == is_white(c),
{
    ('\u{9}' <= c && c <= '\u{d}') || c == ' ' || c == '\u{85}' || c == '\u{a0}' || c == '\u{1680}'
        || ('\u{2000}' <= c && c <= '\u{200a}') || c == '\u{2028}' || c == '\u{2029}' || c
        == '\u{202f}' || c == '\u{205f}' || c == '\u{3000}'
}

/// The first index at or after `i` that does not hold whitespace.
pub open spec fn skip_white(s: Seq<char>, i: int) -> int
    decreases s.len() - i,
{
    if 0 <= i < s.len() && is_white(s[i]) {
        skip_white(s, i + 1)
    } else {
        i
    }
}

/// The end of `s[lo..j]` once trailing whitespace is dropped.
pub open spec fn back_white(s: Seq<char>, lo: int, j: int) -> int
    decreases j - lo,
{
    if lo < j && j <= s.len() && is_white(s[j - 1]) {
        back_white(s, lo, j - 1)
    } else {
        j
    }
}

/// `str::trim`: leading and trailing whitespace removed.
pub open spec fn trimmed(s: Seq<char>) -> Seq<char> {
    let a = skip_white(s, 0);
    s.subrange(a, back_white(s, a, s.len() as int))
}

pub proof fn lemma_skip_white_bounds(s: Seq<char>, i: int)
    requires
        0 <= i <= s.len(),
    ensures
        i <= skip_white(s, i) <= s.len(),
    decreases s.len() - i,
{
    if i < s.len() && is_white(s[i]) {
        lemma_skip_white_bounds(s, i + 1);
    }
}

pub proof fn lemma_back_white_bounds(s: Seq<char>, lo: int, j: int)
    requires
        0 <= lo <= j <= s.len(),
    ensures
        lo <= back_white(s, lo, j) <= j,
    decreases j - lo,
{
    if lo < j && is_white(s[j - 1]) {
        lemma_back_white_bounds(s, lo, j - 1);
    }
}

/// Bounds of the trimmed part of `v`.
pub fn trim_bounds(v: &Vec<char>) -> (r: (usize, usize))
    ensures
        r.0 == skip_white(v@, 0),
        r.1 == back_white(v@, r.0 as int, v@.len() as int),
        r.0 <= r.1 <= v@.len(),
{
    let n = v.len();
    let mut a: usize = 0;
    while a < n && is_white_char(v[a])
        invariant
            n == v@.len(),
            a <= n,
            skip_white(v@, a as int) == skip_white(v@, 0),
        decreases n - a,
    {
        a = a + 1;
    }
    let mut b: usize = n;
    while b > a && is_white_char(v[b - 1])
        invariant
            n == v@.len(),
            a <= b <= n,
            a == skip_white(v@, 0),
            back_white(v@, a as int, b as int) == back_white(v@, a as int, n as int),
        decreases b - a,
    {
        b = b - 1;
    }
    (a, b)
}

/// `str::trim`.
pub fn trim(s: &str) -> (r: String)
    ensures
        r@ == trimmed(s@),
{
    let v = chars_of(s);
    let (a, b) = trim_bounds(&v);
    string_of(&v, a, b)
}

/// The glyph of one decimal digit.
pub open spec fn digit_glyph(d: nat) -> char {
    if d == 0 { '0' }
    else if d == 1 { '1' }
    else if d == 2 { '2' }
    else if d == 3 { '3' }
    else if d == 4 { '4' }
    else if d == 5 { '5' }
    else if d == 6 { '6' }
    else if d == 7 { '7' }
    else if d == 8 { '8' }
    else { '9' }
}

/// The decimal rendering of a natural number, as `Display` writes it.
pub open spec fn decimal(n: nat) -> Seq<char>
    decreases n,
{
    if n < 10 {
        seq![digit_glyph(n)]
    } else {
        decimal(n / 10).push(digit_glyph(n % 10))
    }
}

fn digit_char(d: u64) -> (c: char)
    requires
        d < 10,
    ensures
        c == digit_glyph(d as nat),
{
    if d == 0 { '0' }
    else if d == 1 { '1' }
    else if d == 2 { '2' }
    else if d == 3 { '3' }
    else if d == 4 { '4' }
    else if d == 5 { '5' }
    else if d == 6 { '6' }
    else if d == 7 { '7' }
    else if d == 8 { '8' }
    else { '9' }
}

/// Appends the decimal rendering of `n`.
pub fn push_decimal(out: &mut String, n: u64)
    ensures
        final(out)@ == old(out)@ + decimal(n as nat),
    decreases n,
{
    if n < 10 {
        push_char(out, digit_char(n));
        assert(old(out)@.push(digit_glyph(n as nat)) =~= old(out)@ + decimal(n as nat));
    } else {
        push_decimal(out, n / 10);
        push_char(out, digit_char(n % 10));
        assert(old(out)@ + decimal((n / 10) as nat) + seq![digit_glyph((n % 10) as nat)]
            =~= old(out)@ + decimal(n as nat));
    }
}

/// `n.to_string()`.
pub fn decimal_string(n: u64) -> (r: String)
    ensures
        r@ == decimal(n as nat),
{
    let mut out = String::new();
    push_decimal(&mut out, n);
    assert(out@ =~= decimal(n as nat));
    out
}

/// `format!("{s:<width}")`: `s` followed by spaces up to `width` characters.
pub open spec fn padded(s: Seq<char>, width: nat) -> Seq<char> {
    if s.len() >= width {
        s
    } else {
        s + Seq::new((width - s.len()) as nat, |_i: int| ' ')
    }
}

pub fn pad_right(s: &str, width: usize) -> (r: String)
    ensures
        r@ == padded(s@, width as nat),
{
    let mut out = String::from_str(s);
    let n = s.unicode_len();
    let mut k = n;
    while k < width
        invariant
            n == s@.len(),
            k >= n,
            n < width ==> k <= width,
            n >= width ==> k == n,
            out@ == s@ + Seq::new((k - n) as nat, |_i: int| ' '),
        decreases width - k,
    {
        push_char(&mut out, ' ');
        k = k + 1;
        assert(out@ =~= s@ + Seq::new((k - n) as nat, |_i: int| ' '));
    }
    if n >= width {
        assert(out@ =~= s@);
    }
    out
}

/// Items joined by a separator (`[..].join(sep)`).
pub open spec fn joined(items: Seq<Seq<char>>, sep: Seq<char>) -> Seq<char>
    decreases items.len(),
{
    if items.len() == 0 {
        Seq::empty()
    } else if items.len() == 1 {
        items[0]
    } else {
        joined(items.drop_last(), sep) + sep + items.last()
    }
}

/// The views of a list of strings.
pub open spec fn views(v: Seq<String>) -> Seq<Seq<char>> {
    v.map_values(|s: String| s@)
}

pub fn join(items: &Vec<String>, sep: &str) -> (r: String)
    ensures
        r@ == joined(views(items@), sep@),
{
    let mut out = String::new();
    let mut i: usize = 0;
    while i < items.len()
        invariant
            i <= items@.len(),
            out@ == joined(views(items@.subrange(0, i as int)), sep@),
        decreases items@.len() - i,
    {
        let ghost before = items@.subrange(0, i as int);
        if i > 0 {
            out.append(sep);
        }
        out.append(items[i].as_str());
        i = i + 1;
        proof {
            let now = items@.subrange(0, i as int);
            assert(now.drop_last() =~= before);
            assert(views(now).drop_last() =~= views(before));
            if i == 1 {
                assert(out@ =~= joined(views(now), sep@));
            }
        }
    }
    assert(items@.subrange(0, items@.len() as int) =~= items@);
    out
}

/// Where the line that starts at `i` ends: at the next newline or at the
/// end of the text.
pub open spec fn line_end(s: Seq<char>, i: int) -> int
    decreases s.len() - i,
{
    if i < 0 || i >= s.len() || s[i] == '\n' {
        i
    } else {
        line_end(s, i + 1)
    }
}

/// The line that starts at `i`, without its line ending (`\n` or `\r\n`).
pub open spec fn line_at(s: Seq<char>, i: int) -> Seq<char> {
    let e = line_end(s, i);
    if e < s.len() && e > i && s[e - 1] == '\r' {
        s.subrange(i, e - 1)
    } else {
        s.subrange(i, e)
    }
}

/// The first `k` lines from `i` on, as `str::lines` yields them.
pub open spec fn lines_from(s: Seq<char>, i: int, k: nat) -> Seq<Seq<char>>
    decreases k,
{
    if k == 0 || i < 0 || i >= s.len() {
        Seq::empty()
    } else {
        seq![line_at(s, i)] + lines_from(s, line_end(s, i) + 1, (k - 1) as nat)
    }
}

pub proof fn lemma_line_end(s: Seq<char>, i: int, j: int)
    requires
        0 <= i <= j <= s.len(),
        forall|m: int| i <= m < j ==> s[m] != '\n',
    ensures
        line_end(s, i) == line_end(s, j),
    decreases j - i,
{
    if i < j {
        lemma_line_end(s, i + 1, j);
    }
}

/// The first `k` lines of `s`, as `s.lines().take(k)` yields them.
pub fn lines_upto(s: &str, k: usize) -> (r: Vec<String>)
    ensures
        views(r@) == lines_from(s@, 0, k as nat),
{
    let v = chars_of(s);
    let n = v.len();
    let mut lines: Vec<String> = Vec::new();
    let mut i: usize = 0;
    let mut taken: usize = 0;
    while taken < k && i < n
        invariant
            v@ == s@,
            n == v@.len(),
            i <= n,
            taken <= k,
            views(lines@) + lines_from(v@, i as int, (k - taken) as nat) == lines_from(v@, 0, k as nat),
        decreases k - taken,
    {
        let mut e: usize = i;
        while e < n && v[e] != '\n'
            invariant
                i <= e <= n,
                n == v@.len(),
                forall|m: int| i <= m < e ==> v@[m] != '\n',
            decreases n - e,
        {
            e = e + 1;
        }
        proof {
            lemma_line_end(v@, i as int, e as int);
        }
        let stop = if e < n && e > i && v[e - 1] == '\r' { e - 1 } else { e };
        let line = string_of(&v, i, stop);
        let ghost before = views(lines@);
        lines.push(line);
        proof {
            assert(views(lines@) =~= before.push(line_at(v@, i as int)));
            let rest = lines_from(v@, e + 1, (k - taken - 1) as nat);
            assert(lines_from(v@, i as int, (k - taken) as nat) == seq![line_at(v@, i as int)] + rest);
            assert(before.push(line_at(v@, i as int)) + rest =~= before + (seq![line_at(v@, i as int)] + rest));
        }
        taken = taken + 1;
        i = if e < n { e + 1 } else { n };
        proof {
            if e >= n {
                assert(lines_from(v@, e + 1, (k - taken) as nat) =~= Seq::<Seq<char>>::empty());
                assert(lines_from(v@, n as int, (k - taken) as nat) =~= Seq::<Seq<char>>::empty());
            }
        }
    }
    proof {
        assert(lines_from(v@, i as int, (k - taken) as nat) =~= Seq::<Seq<char>>::empty());
        assert(views(lines@) =~= lines_from(v@, 0, k as nat));
    }
    lines
}

/// Every line of `s`, as `s.lines()` yields them.
pub open spec fn lines_of(s: Seq<char>) -> Seq<Seq<char>> {
    lines_from(s, 0, s.len())
}

/// Whether `w` stands in `t` at `i`.
pub open spec fn occurs_at(t: Seq<char>, w: Seq<char>, i: int) -> bool {
    0 <= i && i + w.len() <= t.len() && t.subrange(i, i + w.len()) == w
}

/// Whether `w` stands somewhere in `s`.
pub open spec fn contains_text(s: Seq<char>, w: Seq<char>) -> bool {
    exists|i: int| occurs_at(s, w, i)
}

pub fn contains(s: &str, w: &str) -> (r: bool)
    ensures
        r == contains_text(s@, w@),
{
    let t = chars_of(s);
    let v = chars_of(w);
    let n = t.len();
    let m = v.len();
    if m > n {
        assert(!contains_text(s@, w@)) by {
            if contains_text(s@, w@) {
                let k = choose|k: int| occurs_at(s@, w@, k);
                assert(k + m <= n);
            }
        }
        return false;
    }
    let mut at: usize = 0;
    while at <= n - m
        invariant
            t@ == s@,
            v@ == w@,
            n == t@.len(),
            m == v@.len(),
            m <= n,
            at <= n - m + 1,
            forall|k: int| 0 <= k < at ==> !occurs_at(t@, v@, k),
        decreases n - m + 1 - at,
    {
        let mut j: usize = 0;
        while j < m && t[at + j] == v[j]
            invariant
                j <= m,
                at + m <= n,
                n == t@.len(),
                m == v@.len(),
                forall|q: int| 0 <= q < j ==> t@[at + q] == v@[q],
            decreases m - j,
        {
            j = j + 1;
        }
        if j == m {
            assert(t@.subrange(at as int, at + m) =~= v@);
            assert(occurs_at(s@, w@, at as int));
            return true;
        }
        assert(!occurs_at(t@, v@, at as int)) by {
            if occurs_at(t@, v@, at as int) {
                assert(t@.subrange(at as int, at + m)[j as int] == v@[j as int]);
            }
        }
        at = at + 1;
    }
    assert(!contains_text(s@, w@)) by {
        if contains_text(s@, w@) {
            let k = choose|k: int| occurs_at(s@, w@, k);
            assert(!occurs_at(t@, v@, k));
        }
    }
    false
}

} // verus!
