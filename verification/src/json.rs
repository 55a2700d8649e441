//! JSON as plain values: the model the producer works on, the call into
//! `serde_json` that parses text into it, the call that quotes a string,
//! and the compact rendering built from those.

use vstd::prelude::*;
use crate::digest::hex_digit_lower;
use crate::text::{contains_spec, lemma_contains_self, lemma_contains_within};

verus! {

/// `serde_json::Error`, carried through as an opaque value.
#[verifier::external_type_specification]
#[verifier::external_body]
pub struct ExJsonError(serde_json::Error);

/// `serde_json::Value`, only ever converted into a [`JsonValue`].
#[verifier::external_type_specification]
#[verifier::external_body]
pub struct ExJsonDocument(serde_json::Value);

/// A parsed JSON value. Object members keep the order of the document.
#[derive(Debug)]
pub enum JsonValue {
    Null,
    Bool(bool),
    /// A number: how `serde_json` renders it, and its value where it is an
    /// integer that fits in a `u64`.
    Number(String, Option<u64>),
    Str(String),
    Array(Vec<JsonValue>),
    Object(Vec<(String, JsonValue)>),
}

/// Abstract value of a [`JsonValue`].
pub enum JsonView {
    Null,
    Bool(bool),
    Number(Seq<char>, Option<u64>),
    Str(Seq<char>),
    Array(Seq<JsonView>),
    Object(Seq<(Seq<char>, JsonView)>),
}

/// The abstract value of `v`.
pub open spec fn json_view(v: JsonValue) -> JsonView
    decreases v,
{
    match v {
        JsonValue::Null => JsonView::Null,
        JsonValue::Bool(b) => JsonView::Bool(b),
        JsonValue::Number(s, n) => JsonView::Number(s@, n),
        JsonValue::Str(s) => JsonView::Str(s@),
        JsonValue::Array(a) => JsonView::Array(
            Seq::new(a@.len(), |i: int| if 0 <= i < a@.len() { json_view(a@[i]) } else { JsonView::Null }),
        ),
        JsonValue::Object(m) => JsonView::Object(
            Seq::new(
                m@.len(),
                |i: int| if 0 <= i < m@.len() { (m@[i].0@, json_view(m@[i].1)) } else { (Seq::empty(), JsonView::Null) },
            ),
        ),
    }
}

impl View for JsonValue {
    type V = JsonView;

    open spec fn view(&self) -> JsonView {
        json_view(*self)
    }
}

/// The abstract members of an object's member list.
pub open spec fn members_view(m: Seq<(String, JsonValue)>) -> Seq<(Seq<char>, JsonView)> {
    Seq::new(m.len(), |i: int| (m[i].0@, m[i].1@))
}

/// The abstract elements of an array's element list.
pub open spec fn elems_view(a: Seq<JsonValue>) -> Seq<JsonView> {
    Seq::new(a.len(), |i: int| a[i]@)
}

/// The view of an object or an array is made of the views of its parts.
pub proof fn lemma_container_view(v: JsonValue)
    ensures
        v matches JsonValue::Object(m) ==> v@ == JsonView::Object(members_view(m@)),
        v matches JsonValue::Array(a) ==> v@ == JsonView::Array(elems_view(a@)),
{
    match v {
        JsonValue::Object(m) => {
            assert(v@->Object_0 =~= members_view(m@));
        },
        JsonValue::Array(a) => {
            assert(v@->Array_0 =~= elems_view(a@));
        },
        _ => {},
    }
}

/// What `serde_json` parses `text` into, as a [`JsonView`] (`None` when it
/// is not JSON).
pub uninterp spec fn json_parse_spec(text: Seq<char>) -> Option<JsonView>;

/// The message of a `serde_json::Error` (its `Display`: what went wrong
/// and where). Nothing is stated of the text.
#[verifier::external_body]
pub(crate) fn json_error_message(e: &serde_json::Error) -> String {
    e.to_string()
}

/// Moves a parsed `serde_json::Value` into the library's model, variant by
/// variant; a number becomes its `to_string` rendering and its `as_u64`.
#[verifier::external_body]
fn json_from_value(v: &serde_json::Value) -> JsonValue {
    match v {
        serde_json::Value::Null => JsonValue::Null,
        serde_json::Value::Bool(b) => JsonValue::Bool(*b),
        serde_json::Value::Number(n) => JsonValue::Number(n.to_string(), n.as_u64()),
        serde_json::Value::String(s) => JsonValue::Str(s.clone()),
        serde_json::Value::Array(a) => JsonValue::Array(a.iter().map(json_from_value).collect()),
        serde_json::Value::Object(m) => JsonValue::Object(m.iter().map(|(k, e)| (k.clone(), json_from_value(e))).collect()),
    }
}

/// `serde_json::from_str` into a `serde_json::Value`, moved into the
/// model. Whether `text` parses, and what it parses to, depend on `text`
/// alone: the result is named by [`json_parse_spec`]. What the parser
/// accepts is not restated here.
#[verifier::external_body]
pub(crate) fn parse_json(text: &str) -> (r: Result<JsonValue, serde_json::Error>)
    ensures
        match r {
            Ok(v) => json_parse_spec(text@) == Some(v@),
            Err(_) => json_parse_spec(text@) is None,
        },
{
    match serde_json::from_str::<serde_json::Value>(text) {
        Ok(v) => Ok(json_from_value(&v)),
        Err(e) => Err(e),
    }
}

/// How a JSON string literal writes one character: `"` and `\` and the
/// control characters are escaped (the short forms where JSON has one,
/// else `\u00` and two lowercase hex digits); every other character is
/// written as it is.
pub open spec fn json_char_escape(c: char) -> Seq<char> {
    if c == '"' {
        seq!['\\', '"']
    } else if c == '\\' {
        seq!['\\', '\\']
    } else if c == '\u{8}' {
        seq!['\\', 'b']
    } else if c == '\t' {
        seq!['\\', 't']
    } else if c == '\n' {
        seq!['\\', 'n']
    } else if c == '\u{c}' {
        seq!['\\', 'f']
    } else if c == '\r' {
        seq!['\\', 'r']
    } else if (c as int) < 0x20 {
        seq!['\\', 'u', '0', '0', hex_digit_lower((c as int) / 16), hex_digit_lower((c as int) % 16)]
    } else {
        seq![c]
    }
}

/// The escaped characters of `s`.
pub open spec fn json_escape_chars(s: Seq<char>) -> Seq<char>
    decreases s.len(),
{
    if s.len() == 0 {
        Seq::empty()
    } else {
        json_char_escape(s[0]) + json_escape_chars(s.drop_first())
    }
}

/// `s` as a JSON string literal.
pub open spec fn json_quoted(s: Seq<char>) -> Seq<char> {
    seq!['"'] + json_escape_chars(s) + seq!['"']
}

/// `s` as a JSON string literal, as `serde_json` writes it (the display
/// of a `serde_json::Value::String`): quoted, with the escapes of
/// [`json_char_escape`].
#[verifier::external_body]
pub(crate) fn json_quote(s: &str) -> (r: String)
    ensures
        r@ == json_quoted(s@),
{
    serde_json::Value::String(s.to_owned()).to_string()
}

/// Compact rendering of a value: no whitespace, object members in the
/// order of the document, strings quoted as `serde_json` quotes them,
/// numbers as `serde_json` renders them.
pub open spec fn compact_spec(v: JsonView) -> Seq<char>
    decreases v, 0int,
{
    match v {
        JsonView::Null => "null"@,
        JsonView::Bool(b) => if b { "true"@ } else { "false"@ },
        JsonView::Number(s, _) => s,
        JsonView::Str(s) => json_quoted(s),
        JsonView::Array(a) => "["@ + compact_elems(a, a.len() as int) + "]"@,
        JsonView::Object(m) => "{"@ + compact_fields(m, m.len() as int) + "}"@,
    }
}

/// The first `n` elements, comma-separated.
pub open spec fn compact_elems(a: Seq<JsonView>, n: int) -> Seq<char>
    decreases a, n,
{
    if n <= 0 || n > a.len() {
        Seq::empty()
    } else {
        compact_elems(a, n - 1) + (if n > 1 { ","@ } else { Seq::empty() }) + compact_spec(a[n - 1])
    }
}

/// The first `n` members, comma-separated, each as `"key":value`.
pub open spec fn compact_fields(m: Seq<(Seq<char>, JsonView)>, n: int) -> Seq<char>
    decreases m, n,
{
    if n <= 0 || n > m.len() {
        Seq::empty()
    } else {
        compact_fields(m, n - 1) + (if n > 1 { ","@ } else { Seq::empty() }) + json_quoted(m[n - 1].0) + ":"@
            + compact_spec(m[n - 1].1)
    }
}

/// Appends the compact rendering of `v`.
pub fn write_compact(v: &JsonValue, out: &mut String)
    ensures
        final(out)@ == old(out)@ + compact_spec(v@),
    decreases v,
{
    let ghost start = out@;
    match v {
        JsonValue::Null => out.append("null"),
        JsonValue::Bool(b) => if *b {
            out.append("true")
        } else {
            out.append("false")
        },
        JsonValue::Number(s, _) => out.append(s.as_str()),
        JsonValue::Str(s) => out.append(json_quote(s.as_str()).as_str()),
        JsonValue::Array(a) => {
            let ghost av = v@->Array_0;
            out.append("[");
            for i in 0..a.len()
                invariant
                    av == v@->Array_0,
                    *v == JsonValue::Array(*a),
                    av.len() == a@.len(),
                    forall|k: int| 0 <= k < a@.len() ==> #[trigger] av[k] == a@[k]@,
                    out@ == start + "["@ + compact_elems(av, i as int),
            {
                if i > 0 {
                    out.append(",");
                }
                proof {
                    assert(decreases_to!(*v => (*v)->Array_0));
                    assert((*v)->Array_0 == *a);
                    assert(decreases_to!(*a => a@));
                    assert(decreases_to!(a@ => a@[i as int]));
                }
                write_compact(&a[i], out);
                assert(out@ =~= start + "["@ + compact_elems(av, i + 1));
            }
            out.append("]");
        },
        JsonValue::Object(m) => {
            let ghost mv = v@->Object_0;
            out.append("{");
            for i in 0..m.len()
                invariant
                    mv == v@->Object_0,
                    *v == JsonValue::Object(*m),
                    mv.len() == m@.len(),
                    forall|k: int| 0 <= k < m@.len() ==> #[trigger] mv[k] == (m@[k].0@, m@[k].1@),
                    out@ == start + "{"@ + compact_fields(mv, i as int),
            {
                if i > 0 {
                    out.append(",");
                }
                out.append(json_quote(m[i].0.as_str()).as_str());
                out.append(":");
                proof {
                    assert(decreases_to!(*v => (*v)->Object_0));
                    assert((*v)->Object_0 == *m);
                    assert(decreases_to!(*m => m@));
                    assert(decreases_to!(m@ => m@[i as int]));
                    assert(decreases_to!(m@[i as int] => m@[i as int].1));
                }
                write_compact(&m[i].1, out);
                assert(out@ =~= start + "{"@ + compact_fields(mv, i + 1));
            }
            out.append("}");
        },
    }
}

/// Compact rendering of `v` as a string.
pub fn compact(v: &JsonValue) -> (r: String)
    ensures
        r@ == compact_spec(v@),
{
    let mut out = String::new();
    write_compact(v, &mut out);
    out
}

/// How one object member is written: `"key":value`.
pub open spec fn member_text(k: Seq<char>, v: JsonView) -> Seq<char> {
    json_quoted(k) + ":"@ + compact_spec(v)
}

proof fn lemma_fields_contain(m: Seq<(Seq<char>, JsonView)>, n: int, i: int)
    requires
        0 <= i < n <= m.len(),
    ensures
        contains_spec(compact_fields(m, n), member_text(m[i].0, m[i].1)),
    decreases n,
{
    let prev = compact_fields(m, n - 1);
    let sep = if n > 1 { ","@ } else { Seq::<char>::empty() };
    let last = member_text(m[n - 1].0, m[n - 1].1);
    assert(compact_fields(m, n) =~= prev + sep + last);
    if i == n - 1 {
        lemma_contains_self(last);
        lemma_contains_within(prev + sep, last, Seq::empty(), last);
        assert(prev + sep + last + Seq::<char>::empty() =~= compact_fields(m, n));
    } else {
        lemma_fields_contain(m, n - 1, i);
        lemma_contains_within(Seq::empty(), prev, sep + last, member_text(m[i].0, m[i].1));
        assert(Seq::<char>::empty() + prev + (sep + last) =~= compact_fields(m, n));
    }
}

proof fn lemma_elems_contain(a: Seq<JsonView>, n: int, i: int)
    requires
        0 <= i < n <= a.len(),
    ensures
        contains_spec(compact_elems(a, n), compact_spec(a[i])),
    decreases n,
{
    let prev = compact_elems(a, n - 1);
    let sep = if n > 1 { ","@ } else { Seq::<char>::empty() };
    let last = compact_spec(a[n - 1]);
    assert(compact_elems(a, n) =~= prev + sep + last);
    if i == n - 1 {
        lemma_contains_self(last);
        lemma_contains_within(prev + sep, last, Seq::empty(), last);
        assert(prev + sep + last + Seq::<char>::empty() =~= compact_elems(a, n));
    } else {
        lemma_elems_contain(a, n - 1, i);
        lemma_contains_within(Seq::empty(), prev, sep + last, compact_spec(a[i]));
        assert(Seq::<char>::empty() + prev + (sep + last) =~= compact_elems(a, n));
    }
}

/// The compact rendering keeps every part of a value: an object's text
/// holds every member as `"key":value` (so payloads that differ in any
/// member's rendering are told apart) and is wrapped in braces; an array's
/// text holds every element and is wrapped in brackets.
pub proof fn law_compact_keeps_every_part(v: JsonView)
    ensures
        v matches JsonView::Object(m) ==> {
            &&& compact_spec(v).len() >= 2
            &&& compact_spec(v)[0] == '{'
            &&& compact_spec(v).last() == '}'
            &&& forall|i: int| 0 <= i < m.len() ==> contains_spec(compact_spec(v), #[trigger] member_text(m[i].0, m[i].1))
        },
        v matches JsonView::Array(a) ==> {
            &&& compact_spec(v).len() >= 2
            &&& compact_spec(v)[0] == '['
            &&& compact_spec(v).last() == ']'
            &&& forall|i: int| 0 <= i < a.len() ==> contains_spec(compact_spec(v), #[trigger] compact_spec(a[i]))
        },
{
    reveal_strlit("{");
    reveal_strlit("}");
    reveal_strlit("[");
    reveal_strlit("]");
    match v {
        JsonView::Object(m) => {
            let body = compact_fields(m, m.len() as int);
            assert(compact_spec(v) == "{"@ + body + "}"@);
            assert forall|i: int| 0 <= i < m.len() implies contains_spec(compact_spec(v), #[trigger] member_text(m[i].0, m[i].1)) by {
                lemma_fields_contain(m, m.len() as int, i);
                lemma_contains_within("{"@, body, "}"@, member_text(m[i].0, m[i].1));
            }
        },
        JsonView::Array(a) => {
            let body = compact_elems(a, a.len() as int);
            assert(compact_spec(v) == "["@ + body + "]"@);
            assert forall|i: int| 0 <= i < a.len() implies contains_spec(compact_spec(v), #[trigger] compact_spec(a[i])) by {
                lemma_elems_contain(a, a.len() as int, i);
                lemma_contains_within("["@, body, "]"@, compact_spec(a[i]));
            }
        },
        _ => {},
    }
}

} // verus!
