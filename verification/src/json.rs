//! A small JSON model. The engine's input file is emitted by verified code
//! (see the escaping functions here and the payload builder in `engine`);
//! the engine's output file and the caller's option payloads are parsed by
//! serde_json behind one trusted wrapper and then interpreted by verified
//! code over the `JsonValue` tree.

use vstd::prelude::*;

use crate::text::{chars_of, hex_digit};

verus! {

/// One member of a JSON object.
#[derive(Debug, PartialEq)]
pub struct JsonMember {
    pub key: String,
    pub value: JsonValue,
}

/// A JSON document as a tree of plain values. Numbers keep their decimal
/// rendering as text: the library moves them between files and never does
/// arithmetic on them.
#[derive(Debug, PartialEq)]
pub enum JsonValue {
    Null,
    Bool(bool),
    Number(String),
    Text(String),
    Array(Vec<JsonValue>),
    Object(Vec<JsonMember>),
}

impl JsonValue {
    /// Is this one of the cell shapes a result table may hold?
    pub open spec fn is_scalar(self) -> bool {
        match self {
            JsonValue::Null => true,
            JsonValue::Bool(_) => true,
            JsonValue::Number(_) => true,
            JsonValue::Text(_) => true,
            JsonValue::Array(_) => false,
            JsonValue::Object(_) => false,
        }
    }
}

/// How one character is written inside a JSON string literal.
pub open spec fn json_escape_char(c: char) -> Seq<char> {
    if c == '"' {
        seq!['\\', '"']
    } else if c == '\\' {
        seq!['\\', '\\']
    } else if c == '\u{8}' {
        seq!['\\', 'b']
    } else if c == '\u{C}' {
        seq!['\\', 'f']
    } else if c == '\n' {
        seq!['\\', 'n']
    } else if c == '\r' {
        seq!['\\', 'r']
    } else if c == '\t' {
        seq!['\\', 't']
    } else if (c as u32) < 32 {
        seq!['\\', 'u', '0', '0', hex_digit(((c as u32) / 16) as nat), hex_digit(
            ((c as u32) % 16) as nat,
        )]
    } else {
        seq![c]
    }
}

/// The body of a JSON string literal for the given characters.
pub open spec fn json_escape(s: Seq<char>) -> Seq<char>
    decreases s.len(),
{
    if s.len() == 0 {
        Seq::empty()
    } else {
        json_escape_char(s[0]) + json_escape(s.drop_first())
    }
}

proof fn lemma_json_escape_push(s: Seq<char>, c: char)
    ensures
        json_escape(s.push(c)) == json_escape(s) + json_escape_char(c),
    decreases s.len(),
{
    if s.len() == 0 {
        assert(s.push(c)[0] == c);
        assert(json_escape(s.push(c)) == json_escape_char(c) + json_escape(
            s.push(c).drop_first(),
        ));
        assert(s.push(c).drop_first() =~= Seq::<char>::empty());
        assert(json_escape(Seq::<char>::empty()) == Seq::<char>::empty());
        assert(s =~= Seq::<char>::empty());
        assert(json_escape(s.push(c)) =~= json_escape(s) + json_escape_char(c));
    } else {
        assert(s.push(c)[0] == s[0]);
        assert(s.push(c).drop_first() =~= s.drop_first().push(c));
        lemma_json_escape_push(s.drop_first(), c);
        assert(json_escape(s.push(c)) == json_escape_char(s[0]) + json_escape(
            s.drop_first().push(c),
        ));
        assert(json_escape(s.push(c)) == json_escape_char(s[0]) + (json_escape(s.drop_first())
            + json_escape_char(c)));
        assert(json_escape(s) == json_escape_char(s[0]) + json_escape(s.drop_first()));
        assert(json_escape_char(s[0]) + (json_escape(s.drop_first()) + json_escape_char(c)) =~= (
        json_escape_char(s[0]) + json_escape(s.drop_first())) + json_escape_char(c));
    }
}

/// A whole JSON string literal: quote, escaped body, quote.
pub open spec fn json_string_text(s: Seq<char>) -> Seq<char> {
    seq!['"'] + json_escape(s) + seq!['"']
}

fn write_escaped_char(out: &mut Vec<char>, c: char)
    ensures
        final(out)@ == old(out)@ + json_escape_char(c),
{
    let ghost base = out@;
    if c == '"' {
        out.push('\\');
        out.push('"');
    } else if c == '\\' {
        out.push('\\');
        out.push('\\');
    } else if c == '\u{8}' {
        out.push('\\');
        out.push('b');
    } else if c == '\u{C}' {
        out.push('\\');
        out.push('f');
    } else if c == '\n' {
        out.push('\\');
        out.push('n');
    } else if c == '\r' {
        out.push('\\');
        out.push('r');
    } else if c == '\t' {
        out.push('\\');
        out.push('t');
    } else {
        let code = c as u32;
        if code < 32 {
            out.push('\\');
            out.push('u');
            out.push('0');
            out.push('0');
            out.push(crate::text::hex_digit_char((code / 16) as u64));
            out.push(crate::text::hex_digit_char((code % 16) as u64));
        } else {
            out.push(c);
        }
    }
    assert(out@ =~= base + json_escape_char(c));
}

/// Append a JSON string literal for `s` to `out`.
pub fn write_json_string(out: &mut Vec<char>, s: &Vec<char>)
    ensures
        final(out)@ == old(out)@ + json_string_text(s@),
{
    let ghost base = out@;
    out.push('"');
    let mut i: usize = 0;
    while i < s.len()
        invariant
            0 <= i <= s@.len(),
            out@ == base + seq!['"'] + json_escape(s@.subrange(0, i as int)),
        decreases s@.len() - i,
    {
        write_escaped_char(out, s[i]);
        proof {
            lemma_json_escape_push(s@.subrange(0, i as int), s@[i as int]);
            assert(s@.subrange(0, i as int).push(s@[i as int]) =~= s@.subrange(0, i + 1));
        }
        i = i + 1;
    }
    out.push('"');
    proof {
        assert(s@.subrange(0, s@.len() as int) =~= s@);
        assert(out@ =~= base + json_string_text(s@));
    }
}

/// Append a JSON string literal for the string `s` to `out`.
pub fn write_json_string_str(out: &mut Vec<char>, s: &str)
    ensures
        final(out)@ == old(out)@ + json_string_text(s@),
{
    let cs = chars_of(s);
    write_json_string(out, &cs);
}

/// The comma-joined string literals of the first `i` names.
pub open spec fn string_list_text(ns: Seq<Seq<char>>, i: int) -> Seq<char>
    decreases i,
{
    if i <= 0 {
        Seq::empty()
    } else {
        let item = json_string_text(ns[i - 1]);
        if i - 1 == 0 {
            item
        } else {
            string_list_text(ns, i - 1) + seq![','] + item
        }
    }
}

/// A JSON array of string literals.
pub open spec fn json_string_array_text(ns: Seq<Seq<char>>) -> Seq<char> {
    seq!['['] + string_list_text(ns, ns.len() as int) + seq![']']
}

/// Append a JSON array holding these names as string literals.
pub fn write_json_string_array(out: &mut Vec<char>, names: &Vec<String>)
    ensures
        final(out)@ == old(out)@ + json_string_array_text(
            Seq::new(names@.len(), |i: int| names@[i]@),
        ),
{
    let ghost ns = Seq::new(names@.len(), |i: int| names@[i]@);
    let ghost base = out@;
    out.push('[');
    let mut i: usize = 0;
    while i < names.len()
        invariant
            0 <= i <= names@.len(),
            ns == Seq::new(names@.len(), |k: int| names@[k]@),
            out@ == base + seq!['['] + string_list_text(ns, i as int),
        decreases names@.len() - i,
    {
        if i > 0 {
            out.push(',');
        }
        write_json_string_str(out, names[i].as_str());
        proof {
            assert(out@ =~= base + seq!['['] + string_list_text(ns, i + 1));
        }
        i = i + 1;
    }
    out.push(']');
    proof {
        assert(out@ =~= base + json_string_array_text(ns));
    }
}

/// The value under the first member with this key, if any.
pub open spec fn obj_lookup(ms: Seq<JsonMember>, key: Seq<char>) -> Option<JsonValue>
    decreases ms.len(),
{
    if ms.len() == 0 {
        None
    } else if ms[0].key@ == key {
        Some(ms[0].value)
    } else {
        obj_lookup(ms.drop_first(), key)
    }
}

proof fn lemma_obj_lookup_at(ms: Seq<JsonMember>, key: Seq<char>, i: int)
    requires
        0 <= i < ms.len(),
        ms[i].key@ == key,
        forall|k: int| 0 <= k < i ==> #[trigger] ms[k].key@ != key,
    ensures
        obj_lookup(ms, key) == Some(ms[i].value),
    decreases i,
{
    if i > 0 {
        let tail = ms.drop_first();
        assert(forall|k: int| 0 <= k < i - 1 ==> #[trigger] tail[k].key@ != key);
        lemma_obj_lookup_at(tail, key, i - 1);
    }
}

proof fn lemma_obj_lookup_none(ms: Seq<JsonMember>, key: Seq<char>)
    requires
        forall|k: int| 0 <= k < ms.len() ==> #[trigger] ms[k].key@ != key,
    ensures
        obj_lookup(ms, key) is None,
    decreases ms.len(),
{
    if ms.len() > 0 {
        let tail = ms.drop_first();
        assert(forall|k: int| 0 <= k < tail.len() ==> #[trigger] tail[k].key@ != key);
        lemma_obj_lookup_none(tail, key);
    }
}

/// Find the first member with this key.
pub fn find_member(ms: &Vec<JsonMember>, key: &String) -> (r: Option<usize>)
    ensures
        match r {
            Some(i) => 0 <= i < ms@.len() && ms@[i as int].key@ == key@ && (forall|k: int|
                0 <= k < i ==> #[trigger] ms@[k].key@ != key@) && obj_lookup(ms@, key@) == Some(
                ms@[i as int].value,
            ),
            None => obj_lookup(ms@, key@) is None,
        },
{
    let mut i: usize = 0;
    while i < ms.len()
        invariant
            0 <= i <= ms@.len(),
            forall|k: int| 0 <= k < i ==> #[trigger] ms@[k].key@ != key@,
        decreases ms@.len() - i,
    {
        if ms[i].key == *key {
            proof {
                lemma_obj_lookup_at(ms@, key@, i as int);
            }
            return Some(i);
        }
        i = i + 1;
    }
    proof {
        lemma_obj_lookup_none(ms@, key@);
    }
    None
}

/// Are all of these values JSON strings?
pub open spec fn all_text(vs: Seq<JsonValue>) -> bool {
    forall|i: int| 0 <= i < vs.len() ==> (#[trigger] vs[i]) is Text
}

/// The character sequences of a list of JSON strings.
pub open spec fn text_views(vs: Seq<JsonValue>) -> Seq<Seq<char>> {
    Seq::new(
        vs.len(),
        |i: int|
            match vs[i] {
                JsonValue::Text(s) => s@,
                _ => Seq::empty(),
            },
    )
}

/// Read an array of JSON strings as strings; refused when any element is
/// not a string.
pub fn texts_of_array(vs: &Vec<JsonValue>) -> (r: Option<Vec<String>>)
    ensures
        match r {
            Some(ss) => all_text(vs@) && ss@.len() == vs@.len() && (forall|i: int|
                0 <= i < ss@.len() ==> #[trigger] ss@[i]@ == text_views(vs@)[i]),
            None => !all_text(vs@),
        },
{
    let mut out: Vec<String> = Vec::new();
    let mut i: usize = 0;
    while i < vs.len()
        invariant
            0 <= i <= vs@.len(),
            out@.len() == i,
            forall|k: int| 0 <= k < i ==> (#[trigger] vs@[k]) is Text,
            forall|k: int| 0 <= k < i ==> #[trigger] out@[k]@ == text_views(vs@)[k],
        decreases vs@.len() - i,
    {
        match &vs[i] {
            JsonValue::Text(s) => {
                out.push(s.clone());
            },
            _ => {
                return None;
            },
        }
        i = i + 1;
    }
    Some(out)
}

#[verifier::external_type_specification]
#[verifier::external_body]
pub struct ExValue(serde_json::Value);

/// What serde_json's parser makes of a text, carried over to this library's
/// JSON tree: the parse is a function of the text alone.
pub uninterp spec fn json_doc_of(s: Seq<char>) -> Option<JsonValue>;

/// Relies on `serde_json::Value`'s variants: each is carried over to the
/// library's tree one arm at a time, numbers by their canonical rendering.
#[verifier::external_body]
fn value_to_json(v: &serde_json::Value) -> JsonValue {
    match v {
        serde_json::Value::Null => JsonValue::Null,
        serde_json::Value::Bool(b) => JsonValue::Bool(*b),
        serde_json::Value::Number(n) => JsonValue::Number(n.to_string()),
        serde_json::Value::String(s) => JsonValue::Text(s.clone()),
        serde_json::Value::Array(vs) => JsonValue::Array(vs.iter().map(value_to_json).collect()),
        serde_json::Value::Object(ms) => JsonValue::Object(
            ms.iter().map(
                |m: (&String, &serde_json::Value)|
                    JsonMember { key: m.0.clone(), value: value_to_json(m.1) },
            ).collect(),
        ),
    }
}

/// Relies on `serde_json::from_str::<Value>`: whether a text parses, and to
/// what document, depends on the text alone; the error text is diagnostic.
#[verifier::external_body]
pub fn parse_json(s: &str) -> (r: Result<JsonValue, String>)
    ensures
        match r {
            Ok(v) => json_doc_of(s@) == Some(v),
            Err(_) => json_doc_of(s@) is None,
        },
{
    match serde_json::from_str::<serde_json::Value>(s) {
        Ok(v) => Ok(value_to_json(&v)),
        Err(e) => Err(e.to_string()),
    }
}

} // verus!
