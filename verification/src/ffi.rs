//! In-process inference through the runtime's conversation API: the opaque
//! handle types, the user message sent to the runtime, the extraction of the
//! assistant's text from the JSON reply, and the check on what came back.
use vstd::prelude::*;
use crate::error::GenieError;
use crate::text::{chars_of, digit_value, hex_digit, lemma_digit_roundtrip, trim, trim_range};

verus! {

// The handles below stand for objects owned by the runtime. They are only
// ever used behind raw pointers handed out by the runtime, so they carry no
// data of their own and cannot be built outside this crate.

/// The content of an opaque handle: nothing that can be read or built
/// outside this crate.
pub struct OpaqueData {
    _private: (),
}

/// Opaque handle: engine settings.
pub enum LiteRtLmEngineSettings {
    Opaque(OpaqueData),
}

/// Opaque handle: an inference engine.
pub enum LiteRtLmEngine {
    Opaque(OpaqueData),
}

/// Opaque handle: a conversation with an engine.
pub enum LiteRtLmConversation {
    Opaque(OpaqueData),
}

/// Opaque handle: configuration of a conversation.
pub enum LiteRtLmConversationConfig {
    Opaque(OpaqueData),
}

/// Opaque handle: optional arguments of a message.
pub enum LiteRtLmConversationOptionalArgs {
    Opaque(OpaqueData),
}

/// Opaque handle: a JSON reply of the engine.
pub enum LiteRtLmJsonResponse {
    Opaque(OpaqueData),
}

/// A JSON value. Numbers are held in their textual form; an object holds its
/// entries in order, each key once.
#[derive(Debug)]
pub enum JsonValue {
    Null,
    Bool(bool),
    Number(String),
    Str(String),
    Array(Vec<JsonValue>),
    Object(Vec<(String, JsonValue)>),
}

/// A JSON value as mathematics sees it: texts as character sequences.
pub enum JsonView {
    Null,
    Bool(bool),
    Number(Seq<char>),
    Str(Seq<char>),
    Array(Seq<JsonView>),
    Object(Seq<(Seq<char>, JsonView)>),
}

/// The view of a JSON value.
pub open spec fn json_view(v: JsonValue) -> JsonView
    decreases v,
{
    match v {
        JsonValue::Null => JsonView::Null,
        JsonValue::Bool(b) => JsonView::Bool(b),
        JsonValue::Number(n) => JsonView::Number(n@),
        JsonValue::Str(s) => JsonView::Str(s@),
        JsonValue::Array(items) => JsonView::Array(
            Seq::new(items@.len(), |i: int| if 0 <= i < items@.len() { json_view(items@[i]) } else { JsonView::Null }),
        ),
        JsonValue::Object(es) => JsonView::Object(
            Seq::new(es@.len(), |i: int| if 0 <= i < es@.len() { (es@[i].0@, json_view(es@[i].1)) } else { (Seq::empty(), JsonView::Null) }),
        ),
    }
}

/// The view of an optional JSON value.
pub open spec fn opt_view(v: Option<JsonValue>) -> Option<JsonView> {
    match v {
        Some(x) => Some(json_view(x)),
        None => None,
    }
}

/// The value of the first entry with key `key`.
pub open spec fn entry_get(entries: Seq<(Seq<char>, JsonView)>, key: Seq<char>) -> Option<JsonView>
    decreases entries.len(),
{
    if entries.len() == 0 {
        None
    } else if entries[0].0 == key {
        Some(entries[0].1)
    } else {
        entry_get(entries.drop_first(), key)
    }
}

/// The member `key` of an object; nothing for any other value.
pub open spec fn json_get(v: JsonView, key: Seq<char>) -> Option<JsonView> {
    match v {
        JsonView::Object(es) => entry_get(es, key),
        _ => None,
    }
}

/// The text of a string value; nothing for any other value.
pub open spec fn json_str(v: Option<JsonView>) -> Option<Seq<char>> {
    match v {
        Some(JsonView::Str(s)) => Some(s),
        _ => None,
    }
}

/// The `text` members that are strings, of the given items, concatenated.
pub open spec fn item_texts(items: Seq<JsonView>) -> Seq<char>
    decreases items.len(),
{
    if items.len() == 0 {
        Seq::empty()
    } else {
        item_texts(items.drop_last()) + match json_str(json_get(items.last(), "text"@)) {
            Some(t) => t,
            None => Seq::empty(),
        }
    }
}

/// The assistant's text in a reply `raw`, parsed as `parsed` (nothing when
/// `raw` is not JSON): the `text` strings of the items of a `content`
/// array, concatenated, when that is not empty; else a `content` string;
/// else a `text` string; else the raw reply.
pub open spec fn extract_text_spec(raw: Seq<char>, parsed: Option<JsonView>) -> Seq<char> {
    match parsed {
        None => raw,
        Some(v) => {
            let content = json_get(v, "content"@);
            let joined = match content {
                Some(JsonView::Array(items)) => item_texts(items),
                _ => Seq::empty(),
            };
            if joined.len() > 0 {
                joined
            } else if json_str(content) is Some {
                json_str(content).unwrap()
            } else if json_str(json_get(v, "text"@)) is Some {
                json_str(json_get(v, "text"@)).unwrap()
            } else {
                raw
            }
        },
    }
}

fn get_member<'a>(v: &'a JsonValue, key: &String) -> (r: Option<&'a JsonValue>)
    ensures
        match r {
            Some(x) => json_get(json_view(*v), key@) == Some(json_view(*x)),
            None => json_get(json_view(*v), key@) is None,
        },
{
    match v {
        JsonValue::Object(es) => {
            let ghost ev = match json_view(*v) {
                JsonView::Object(e) => e,
                _ => Seq::empty(),
            };
            assert(json_view(*v) == JsonView::Object(ev));
            assert(ev.len() == es@.len());
            let mut i: usize = 0;
            assert(ev.skip(0) == ev);
            while i < es.len()
                invariant
                    i <= es.len() == ev.len(),
                    json_get(json_view(*v), key@) == entry_get(ev, key@),
                    forall|j: int| 0 <= j < es@.len() ==> #[trigger] ev[j] == (es@[j].0@, json_view(es@[j].1)),
                    entry_get(ev, key@) == entry_get(ev.skip(i as int), key@),
                decreases es.len() - i,
            {
                assert(ev.skip(i as int)[0] == ev[i as int]);
                if es[i].0 == *key {
                    assert(entry_get(ev.skip(i as int), key@) == Some(json_view(es@[i as int].1)));
                    return Some(&es[i].1);
                }
                assert(ev.skip(i as int).drop_first() == ev.skip(i + 1));
                i = i + 1;
            }
            None
        },
        _ => None,
    }
}

/// The assistant text of the JSON reply `raw`, given what it parses to
/// (`None` when it is not JSON): the `text` strings of the items of a
/// `content` array, concatenated, when that is not empty; else a `content`
/// string; else a `text` string; else the raw reply unchanged.
pub fn extract_text_from(raw: &str, parsed: &Option<JsonValue>) -> (t: String)
    ensures
        t@ == extract_text_spec(raw@, opt_view(*parsed)),
{
    let v = match parsed {
        Some(v) => v,
        None => {
            return raw.to_string();
        },
    };
    let content_key = "content".to_string();
    let text_key = "text".to_string();
    let content = get_member(v, &content_key);
    if let Some(JsonValue::Array(items)) = content {
        let ghost iv = match json_view(*content.unwrap()) {
            JsonView::Array(e) => e,
            _ => Seq::empty(),
        };
        assert(json_view(*content.unwrap()) == JsonView::Array(iv));
        assert(iv.len() == items@.len());
        let mut joined = String::new();
        let mut i: usize = 0;
        while i < items.len()
            invariant
                i <= items.len() == iv.len(),
                text_key@ == "text"@,
                forall|j: int| 0 <= j < items@.len() ==> #[trigger] iv[j] == json_view(items@[j]),
                joined@ == item_texts(iv.take(i as int)),
            decreases items.len() - i,
        {
            assert(iv[i as int] == json_view(items@[i as int]));
            if let Some(JsonValue::Str(s)) = get_member(&items[i], &text_key) {
                joined.append(s.as_str());
            }
            assert(iv.take(i + 1).drop_last() == iv.take(i as int));
            i = i + 1;
        }
        assert(iv.take(items.len() as int) == iv);
        if !joined.as_str().is_empty() {
            return joined;
        }
    }
    if let Some(JsonValue::Str(s)) = content {
        return s.clone();
    }
    if let Some(JsonValue::Str(s)) = get_member(v, &text_key) {
        return s.clone();
    }
    raw.to_string()
}

/// What serde_json parses a text to, as a view; nothing when the text is
/// not JSON.
pub uninterp spec fn json_parse(text: Seq<char>) -> Option<JsonView>;

#[verifier::external_type_specification]
#[verifier::external_body]
pub struct ExJsonValue(serde_json::Value);

/// A serde_json value as the library holds it, variant for variant: numbers
/// in the text serde_json writes for them, object entries in the order
/// serde_json keeps them.
///
/// Trusted: a one-for-one conversion of an outside value; used by
/// [`parse_reply`] alone.
#[verifier::external_body]
fn json_of(v: &serde_json::Value) -> JsonValue {
    match v {
        serde_json::Value::Null => JsonValue::Null,
        serde_json::Value::Bool(b) => JsonValue::Bool(*b),
        serde_json::Value::Number(n) => JsonValue::Number(n.to_string()),
        serde_json::Value::String(s) => JsonValue::Str(s.clone()),
        serde_json::Value::Array(items) => JsonValue::Array(items.iter().map(json_of).collect()),
        serde_json::Value::Object(m) => JsonValue::Object(m.iter().map(|(k, x)| (k.clone(), json_of(x))).collect()),
    }
}

/// Parses a reply as JSON.
///
/// Trusted: calls `serde_json::from_str::<serde_json::Value>` and converts
/// the value with [`json_of`]. The contract names the result by
/// [`json_parse`], a function of the text alone; an object read this way
/// holds each key once (serde_json keeps objects in a map).
#[verifier::external_body]
fn parse_reply(text: &str) -> (r: Option<JsonValue>)
    ensures
        opt_view(r) == json_parse(text@),
{
    match serde_json::from_str::<serde_json::Value>(text) {
        Ok(v) => Some(json_of(&v)),
        Err(_) => None,
    }
}

/// Pull the assistant text out of the JSON reply
/// (`{"content":[{"type":"text","text":"..."}]}`, or simpler shapes): the
/// `text` strings of the items of a `content` array, concatenated, when that
/// is not empty; else a `content` string; else a `text` string; else, and
/// when the reply is not JSON, the reply unchanged.
pub fn extract_text(json: &str) -> (t: String)
    ensures
        t@ == extract_text_spec(json@, json_parse(json@)),
{
    let parsed = parse_reply(json);
    extract_text_from(json, &parsed)
}

/// What the runtime produced, checked: text that is all whitespace is an
/// error; anything else is the answer, unchanged.
pub fn check_generated(out: String) -> (r: Result<String, GenieError>)
    ensures
        trim(out@).len() == 0 ==> r matches Err(GenieError::NoOutput),
        trim(out@).len() > 0 ==> r == Ok::<String, GenieError>(out),
{
    let cs = chars_of(out.as_str());
    let (a, b) = trim_range(&cs, 0, cs.len());
    assert(cs@.subrange(0, cs@.len() as int) == cs@);
    if a == b {
        Err(GenieError::NoOutput)
    } else {
        Ok(out)
    }
}

/// The escape that serde_json writes for one character of a string: `\"`
/// and `\\`; `\b`, `\t`, `\n`, `\f`, `\r` for those five controls;
/// `\u00xx` with lowercase hexadecimal for the other characters below
/// U+0020; every other character as it is.
pub open spec fn json_escape_char(c: char) -> Seq<char> {
    let u = c as u32;
    if c == '"' {
        seq!['\\', '"']
    } else if c == '\\' {
        seq!['\\', '\\']
    } else if u == 0x08 {
        seq!['\\', 'b']
    } else if u == 0x09 {
        seq!['\\', 't']
    } else if u == 0x0a {
        seq!['\\', 'n']
    } else if u == 0x0c {
        seq!['\\', 'f']
    } else if u == 0x0d {
        seq!['\\', 'r']
    } else if u < 0x20 {
        seq!['\\', 'u', '0', '0', hex_digit((u / 16) as nat), hex_digit((u % 16) as nat)]
    } else {
        seq![c]
    }
}

/// The escaped characters of a string.
pub open spec fn json_escape(s: Seq<char>) -> Seq<char>
    decreases s.len(),
{
    if s.len() == 0 {
        Seq::empty()
    } else {
        json_escape_char(s[0]) + json_escape(s.drop_first())
    }
}

/// The JSON string literal that serde_json writes for a string: the escaped
/// characters between double quotes.
pub open spec fn json_string_literal(s: Seq<char>) -> Seq<char> {
    seq!['"'] + json_escape(s) + seq!['"']
}

/// Quotes `s` as a JSON string literal.
///
/// Trusted: calls `serde_json::to_string` on the string. For a `str` it
/// escapes the text into a `Vec<u8>`, which cannot fail, and writes each
/// character as [`json_escape_char`] says; the contract states both.
#[verifier::external_body]
fn json_quote(s: &str) -> (r: Option<String>)
    ensures
        r is Some,
        r.unwrap()@ == json_string_literal(s@),
{
    serde_json::to_string(s).ok()
}

/// The user message as the conversation API takes it, around the quoted
/// prompt: `{"content":<prompt>,"role":"user"}` (the keys in sorted order,
/// as serde_json writes an object).
pub open spec fn user_message_spec(quoted: Seq<char>) -> Seq<char> {
    "{\"content\":"@ + quoted + ",\"role\":\"user\"}"@
}

/// The user message around a prompt already quoted as a JSON string.
pub fn user_message_from_quoted(quoted: &str) -> (m: String)
    ensures
        m@ == user_message_spec(quoted@),
{
    let mut m = "{\"content\":".to_string();
    m.append(quoted);
    m.append(",\"role\":\"user\"}");
    m
}

/// The JSON user message that carries `prompt`:
/// `{"content":<prompt as a JSON string>,"role":"user"}`.
pub fn user_message_json(prompt: &str) -> (m: String)
    ensures
        m@ == user_message_spec(json_string_literal(prompt@)),
{
    let q = json_quote(prompt).unwrap();
    user_message_from_quoted(q.as_str())
}

/// The character that a two-character escape `\e` stands for in a JSON
/// string.
pub open spec fn simple_unescape(e: char) -> char {
    if e == 'b' {
        '\u{8}'
    } else if e == 'f' {
        '\u{c}'
    } else if e == 'n' {
        '\n'
    } else if e == 'r' {
        '\r'
    } else if e == 't' {
        '\t'
    } else {
        e
    }
}

/// Reads the escapes of JSON string contents back (`\uxxxx` with lowercase
/// hexadecimal digits, as written above, and the two-character escapes).
pub open spec fn json_unescape(t: Seq<char>) -> Seq<char>
    decreases t.len(),
{
    if t.len() == 0 {
        Seq::empty()
    } else if t[0] == '\\' && t.len() >= 6 && t[1] == 'u' {
        seq![
            (4096 * digit_value(t[2]) + 256 * digit_value(t[3]) + 16 * digit_value(t[4])
                + digit_value(t[5])) as char,
        ] + json_unescape(t.skip(6))
    } else if t[0] == '\\' && t.len() >= 2 {
        seq![simple_unescape(t[1])] + json_unescape(t.skip(2))
    } else {
        seq![t[0]] + json_unescape(t.skip(1))
    }
}

proof fn lemma_unescape_char(c: char, r: Seq<char>)
    ensures
        json_unescape(json_escape_char(c) + r) == seq![c] + json_unescape(r),
        forall|i: int| 0 <= i < json_escape_char(c).len() ==> (#[trigger] json_escape_char(c)[i] as u32) >= 0x20,
{
    let e = json_escape_char(c);
    let t = e + r;
    let u = c as u32;
    if u < 0x20 && u != 0x08 && u != 0x09 && u != 0x0a && u != 0x0c && u != 0x0d {
        let hi = (u / 16) as nat;
        let lo = (u % 16) as nat;
        lemma_digit_roundtrip(hi);
        lemma_digit_roundtrip(lo);
        assert(t[0] == '\\' && t[1] == 'u' && t[2] == '0' && t[3] == '0' && t[4] == hex_digit(hi) && t[5] == hex_digit(lo));
        assert(t.skip(6) == r);
        assert(16 * hi + lo == u);
        assert(((4096 * digit_value(t[2]) + 256 * digit_value(t[3]) + 16 * digit_value(t[4])
            + digit_value(t[5])) as char) == c);
    } else if e.len() == 2 {
        assert(t[0] == '\\' && t[1] == e[1]);
        assert(t.skip(2) == r);
    } else {
        assert(e == seq![c]);
        assert(t[0] == c);
        assert(t.skip(1) == r);
    }
}

/// The quoted prompt reads back as the prompt: unescaping the escaped text
/// gives the text again, and the escaped text holds no control character
/// (every character is at least U+0020), as JSON requires of string
/// contents.
pub proof fn law_json_escape_roundtrip(s: Seq<char>)
    ensures
        json_unescape(json_escape(s)) == s,
        forall|i: int| 0 <= i < json_escape(s).len() ==> (#[trigger] json_escape(s)[i] as u32) >= 0x20,
    decreases s.len(),
{
    if s.len() > 0 {
        let rest = s.drop_first();
        law_json_escape_roundtrip(rest);
        lemma_unescape_char(s[0], json_escape(rest));
        assert(seq![s[0]] + rest == s);
        let e = json_escape_char(s[0]);
        assert forall|i: int| 0 <= i < json_escape(s).len() implies (#[trigger] json_escape(s)[i] as u32) >= 0x20 by {
            if i < e.len() {
                assert(json_escape(s)[i] == e[i]);
            } else {
                assert(json_escape(s)[i] == json_escape(rest)[i - e.len()]);
            }
        }
    } else {
        assert(json_escape(s) =~= Seq::<char>::empty());
    }
}

} // verus!
