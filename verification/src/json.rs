//! JSON documents, one level at a time. `serde_json` parses a text; the
//! library keeps the outer shape of the value and the compact text of every
//! element and member, which it parses again when it needs to look inside.
use vstd::prelude::*;

verus! {

/// The top level of one JSON value. Elements of an array and values of an
/// object are held as their compact JSON text.
pub enum JsonNode {
    Null,
    Bool(bool),
    /// The number as `serde_json` writes it.
    Number(String),
    Text(String),
    Array(Vec<String>),
    /// Members in the order the parsed map yields them.
    Object(Vec<(String, String)>),
}

pub enum JsonNodeView {
    Null,
    Bool(bool),
    Number(Seq<char>),
    Text(Seq<char>),
    Array(Seq<Seq<char>>),
    Object(Seq<(Seq<char>, Seq<char>)>),
}

/// What parsing a text gave: a value, or the parser's error message.
pub enum JsonParse {
    Valid(JsonNode),
    Invalid(String),
}

pub enum JsonParseView {
    Valid(JsonNodeView),
    Invalid(Seq<char>),
}

pub open spec fn texts_view(v: Seq<String>) -> Seq<Seq<char>> {
    v.map_values(|s: String| s@)
}

pub open spec fn members_view(v: Seq<(String, String)>) -> Seq<(Seq<char>, Seq<char>)> {
    v.map_values(|m: (String, String)| (m.0@, m.1@))
}

impl View for JsonNode {
    type V = JsonNodeView;

    open spec fn view(&self) -> JsonNodeView {
        match self {
            JsonNode::Null => JsonNodeView::Null,
            JsonNode::Bool(b) => JsonNodeView::Bool(*b),
            JsonNode::Number(n) => JsonNodeView::Number(n@),
            JsonNode::Text(t) => JsonNodeView::Text(t@),
            JsonNode::Array(items) => JsonNodeView::Array(texts_view(items@)),
            JsonNode::Object(members) => JsonNodeView::Object(members_view(members@)),
        }
    }
}

impl View for JsonParse {
    type V = JsonParseView;

    open spec fn view(&self) -> JsonParseView {
        match self {
            JsonParse::Valid(node) => JsonParseView::Valid(node@),
            JsonParse::Invalid(e) => JsonParseView::Invalid(e@),
        }
    }
}

/// What `serde_json::from_str::<serde_json::Value>` makes of a text, seen one
/// level deep.
pub uninterp spec fn json_document(text: Seq<char>) -> JsonParseView;

/// Parses `text` with `serde_json::from_str` into a `serde_json::Value` and
/// takes its top level apart: the variant, a scalar's value, and the compact
/// serialization (`Value::to_string`) of each element or member, in the
/// order the value yields them. On failure, the error's `Display` text. The
/// contract names the result and claims nothing else about it.
#[verifier::external_body]
pub fn parse_json(text: &str) -> (r: JsonParse)
    ensures
        r@ == json_document(text@),
{
    match serde_json::from_str::<serde_json::Value>(text) {
        Ok(value) => JsonParse::Valid(match value {
            serde_json::Value::Null => JsonNode::Null,
            serde_json::Value::Bool(b) => JsonNode::Bool(b),
            serde_json::Value::Number(n) => JsonNode::Number(n.to_string()),
            serde_json::Value::String(s) => JsonNode::Text(s),
            serde_json::Value::Array(items) => JsonNode::Array(items.iter().map(|i| i.to_string()).collect()),
            serde_json::Value::Object(map) => JsonNode::Object(map.iter().map(|(k, v)| (k.clone(), v.to_string())).collect()),
        }),
        Err(error) => JsonParse::Invalid(error.to_string()),
    }
}

/// The member `key` of a set of object members: the first with that key.
pub open spec fn member(members: Seq<(Seq<char>, Seq<char>)>, key: Seq<char>) -> Option<Seq<char>>
    decreases members.len(),
{
    if members.len() == 0 {
        None
    } else if members[0].0 == key {
        Some(members[0].1)
    } else {
        member(members.drop_first(), key)
    }
}

/// `value.get(key)`: the text of member `key` when the document is an object
/// holding it.
pub open spec fn get(doc: JsonParseView, key: Seq<char>) -> Option<Seq<char>> {
    match doc {
        JsonParseView::Valid(JsonNodeView::Object(members)) => member(members, key),
        _ => None,
    }
}

/// `value.as_str()` of the value written as `text`.
pub open spec fn text_of(text: Seq<char>) -> Option<Seq<char>> {
    match json_document(text) {
        JsonParseView::Valid(JsonNodeView::Text(t)) => Some(t),
        _ => None,
    }
}

/// `value.as_bool()` of the value written as `text`.
pub open spec fn bool_of(text: Seq<char>) -> Option<bool> {
    match json_document(text) {
        JsonParseView::Valid(JsonNodeView::Bool(b)) => Some(b),
        _ => None,
    }
}

/// `value.as_array()` of the value written as `text`, as element texts.
pub open spec fn array_of(text: Seq<char>) -> Option<Seq<Seq<char>>> {
    match json_document(text) {
        JsonParseView::Valid(JsonNodeView::Array(items)) => Some(items),
        _ => None,
    }
}

/// `value.get(key)` on the value written as `text`.
pub open spec fn field_of(text: Seq<char>, key: Seq<char>) -> Option<Seq<char>> {
    get(json_document(text), key)
}

/// Looks up member `key`.
pub fn find_member(members: &Vec<(String, String)>, key: &str) -> (r: Option<String>)
    ensures
        r matches Some(t) ==> member(members_view(members@), key@) == Some(t@),
        r is None ==> member(members_view(members@), key@) is None,
{
    let mut i: usize = 0;
    assert(members@.subrange(0, members@.len() as int) =~= members@);
    while i < members.len()
        invariant
            i <= members@.len(),
            member(members_view(members@), key@) == member(
                members_view(members@.subrange(i as int, members@.len() as int)),
                key@,
            ),
        decreases members@.len() - i,
    {
        let ghost rest = members@.subrange(i as int, members@.len() as int);
        assert(members_view(rest)[0] == (members@[i as int].0@, members@[i as int].1@));
        if crate::text::same(members[i].0.as_str(), key) {
            return Some(crate::text::copy(&members[i].1));
        }
        assert(members_view(rest).drop_first() =~= members_view(
            members@.subrange(i + 1, members@.len() as int),
        ));
        i = i + 1;
    }
    None
}

/// `serde_json::from_str(text)?.get(key)`, as member text.
pub fn field(text: &str, key: &str) -> (r: Option<String>)
    ensures
        r matches Some(t) ==> field_of(text@, key@) == Some(t@),
        r is None ==> field_of(text@, key@) is None,
{
    match parse_json(text) {
        JsonParse::Valid(JsonNode::Object(members)) => find_member(&members, key),
        _ => None,
    }
}

/// `value.as_str()` of the value written as `text`.
pub fn as_text(text: &str) -> (r: Option<String>)
    ensures
        r matches Some(t) ==> text_of(text@) == Some(t@),
        r is None ==> text_of(text@) is None,
{
    match parse_json(text) {
        JsonParse::Valid(JsonNode::Text(t)) => Some(t),
        _ => None,
    }
}

/// `value.as_bool()` of the value written as `text`.
pub fn as_bool(text: &str) -> (r: Option<bool>)
    ensures
        r == bool_of(text@),
{
    match parse_json(text) {
        JsonParse::Valid(JsonNode::Bool(b)) => Some(b),
        _ => None,
    }
}

/// `value.as_array()` of the value written as `text`, as element texts.
pub fn as_array(text: &str) -> (r: Option<Vec<String>>)
    ensures
        r matches Some(items) ==> array_of(text@) == Some(texts_view(items@)),
        r is None ==> array_of(text@) is None,
{
    match parse_json(text) {
        JsonParse::Valid(JsonNode::Array(items)) => Some(items),
        _ => None,
    }
}

/// `value.get(key).and_then(|v| v.as_str())` on the value written as `text`.
pub open spec fn text_field(text: Seq<char>, key: Seq<char>) -> Option<Seq<char>> {
    match field_of(text, key) {
        Some(t) => text_of(t),
        None => None,
    }
}

pub fn text_member(text: &str, key: &str) -> (r: Option<String>)
    ensures
        r matches Some(t) ==> text_field(text@, key@) == Some(t@),
        r is None ==> text_field(text@, key@) is None,
{
    match field(text, key) {
        Some(t) => as_text(t.as_str()),
        None => None,
    }
}

/// The number a run of decimal digits writes.
pub open spec fn digits_number(s: Seq<char>) -> nat
    decreases s.len(),
{
    if s.len() == 0 {
        0
    } else {
        (digits_number(s.drop_last()) * 10 + (s.last() as int - '0' as int)) as nat
    }
}

/// Whether `s` is one or more decimal digits.
pub open spec fn all_decimal(s: Seq<char>) -> bool {
    s.len() > 0 && forall|i: int| 0 <= i < s.len() ==> '0' <= #[trigger] s[i] && s[i] <= '9'
}

/// `value.as_u64()` of the value written as `text`: a number written as
/// plain decimal digits (serde_json writes a non-negative integer so, and
/// every other number with a sign, a point or an exponent) that fits.
pub open spec fn u64_of(text: Seq<char>) -> Option<u64> {
    match json_document(text) {
        JsonParseView::Valid(JsonNodeView::Number(n)) => if all_decimal(n) && digits_number(n) <= u64::MAX {
            Some(digits_number(n) as u64)
        } else {
            None
        },
        _ => None,
    }
}

proof fn lemma_digits_number_grow(d: Seq<char>, n: nat)
    requires
        n <= d.len(),
        all_decimal(d),
    ensures
        digits_number(d) >= digits_number(d.subrange(0, n as int)),
    decreases d.len() - n,
{
    if n < d.len() {
        lemma_digits_number_grow(d, n + 1);
        let p = d.subrange(0, n + 1 as int);
        assert(p.drop_last() =~= d.subrange(0, n as int));
        assert('0' <= p.last());
    } else {
        assert(d.subrange(0, n as int) =~= d);
    }
}

/// The number decimal digits write, if they are digits and it fits.
pub fn decimal_u64(s: &str) -> (r: Option<u64>)
    ensures
        r == (if all_decimal(s@) && digits_number(s@) <= u64::MAX { Some(digits_number(s@) as u64) } else { None::<u64> }),
{
    let v = crate::text::chars_of(s);
    let n = v.len();
    if n == 0 {
        return None;
    }
    let mut value: u64 = 0;
    let mut i: usize = 0;
    while i < n
        invariant
            v@ == s@,
            n == v@.len(),
            n > 0,
            i <= n,
            forall|k: int| 0 <= k < i ==> '0' <= #[trigger] v@[k] && v@[k] <= '9',
            value == digits_number(v@.subrange(0, i as int)),
        decreases n - i,
    {
        let c = v[i];
        proof {
            assert(v@.subrange(0, i + 1 as int).drop_last() =~= v@.subrange(0, i as int));
            assert(v@.subrange(0, i + 1 as int).last() == c);
        }
        if !('0' <= c && c <= '9') {
            assert(!all_decimal(s@));
            return None;
        }
        let digit = (c as u32 - '0' as u32) as u64;
        proof {
            if all_decimal(s@) {
                lemma_digits_number_grow(s@, (i + 1) as nat);
            }
        }
        match value.checked_mul(10) {
            Some(tens) => match tens.checked_add(digit) {
                Some(next) => {
                    value = next;
                },
                None => {
                    return None;
                },
            },
            None => {
                return None;
            },
        }
        i = i + 1;
    }
    assert(v@.subrange(0, i as int) =~= s@);
    Some(value)
}

/// `value.as_u64()` of the value written as `text`.
pub fn as_u64(text: &str) -> (r: Option<u64>)
    ensures
        r == u64_of(text@),
{
    match parse_json(text) {
        JsonParse::Valid(JsonNode::Number(n)) => decimal_u64(n.as_str()),
        _ => None,
    }
}

/// `value.get(key).and_then(|v| v.as_u64())` on the value written as `text`.
pub open spec fn u64_field(text: Seq<char>, key: Seq<char>) -> Option<u64> {
    match field_of(text, key) {
        Some(t) => u64_of(t),
        None => None,
    }
}

pub fn u64_member(text: &str, key: &str) -> (r: Option<u64>)
    ensures
        r == u64_field(text@, key@),
{
    match field(text, key) {
        Some(t) => as_u64(t.as_str()),
        None => None,
    }
}

} // verus!
