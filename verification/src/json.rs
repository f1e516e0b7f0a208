//! JSON values, as `serde_json` decodes them.
//!
//! `Json` is the mathematical model of a decoded value. The functions below are
//! the only ones that touch `serde_json`; what they promise of it is stated
//! over the model and not proved.
use crate::text::{replaced, stands_at};
use serde_json::Value;
use vstd::prelude::*;

verus! {

/// A decoded JSON value.
#[verifier::external_type_specification]
#[verifier::external_body]
pub struct ExValue(serde_json::Value);

/// A JSON value as a mathematical value.
pub enum Json {
    Null,
    Bool(bool),
    /// A number: the integer it is, where it is one that fits, and the bits of
    /// the double that it is read as.
    Number { integer: Option<i64>, double: u64 },
    Text(Seq<char>),
    Array(Seq<Json>),
    Object(Map<Seq<char>, Json>),
}

/// What a decoded value holds.
pub uninterp spec fn json_of(v: serde_json::Value) -> Json;

/// What a byte sequence decodes to, if it is one JSON document.
pub uninterp spec fn json_decoded(bytes: Seq<u8>) -> Option<Json>;

/// What an optional value holds.
pub open spec fn opt_json(v: Option<&Value>) -> Option<Json> {
    match v {
        Some(x) => Some(json_of(*x)),
        None => None,
    }
}

/// The member of an object with a key.
pub open spec fn json_member(value: Json, key: Seq<char>) -> Option<Json> {
    match value {
        Json::Object(m) => if m.contains_key(key) {
            Some(m[key])
        } else {
            None
        },
        _ => None,
    }
}

/// The number that decimal digits stand for.
pub open spec fn digits_value(digits: Seq<char>) -> int
    decreases digits.len(),
{
    if digits.len() == 0 {
        0
    } else {
        10 * digits_value(digits.drop_last()) + (digits.last() as int - '0' as int)
    }
}

/// The array index that a text is: decimal digits without leading zeros.
pub open spec fn array_index(token: Seq<char>) -> Option<int> {
    if token.len() > 0 && (forall|i: int|
        0 <= i < token.len() ==> '0' <= #[trigger] token[i] && token[i] <= '9') && (token[0] != '0'
        || token.len() == 1) {
        Some(digits_value(token))
    } else {
        None
    }
}

/// What one token of a JSON pointer leads to: the member of an object or the
/// element of an array.
pub open spec fn json_step(value: Json, token: Seq<char>) -> Option<Json> {
    match value {
        Json::Array(a) => match array_index(token) {
            Some(i) => if i < a.len() {
                Some(a[i])
            } else {
                None
            },
            None => None,
        },
        _ => json_member(value, token),
    }
}

/// How many characters stand before the first slash.
pub open spec fn token_length(s: Seq<char>) -> int
    decreases s.len(),
{
    if s.len() == 0 || s[0] == '/' {
        0
    } else {
        1 + token_length(s.skip(1))
    }
}

/// A token as it is meant: `~1` stands for a slash, `~0` for a tilde.
pub open spec fn unescaped(token: Seq<char>) -> Seq<char> {
    replaced(replaced(token, "~1"@, "/"@), "~0"@, "~"@)
}

/// What a JSON pointer leads to, starting from a value: each of its tokens stands
/// behind a slash and leads one step further.
pub open spec fn json_at(value: Json, path: Seq<char>) -> Option<Json>
    decreases path.len(),
{
    if path.len() == 0 {
        Some(value)
    } else if path[0] != '/' {
        None
    } else {
        let rest = path.skip(1);
        let n = token_length(rest);
        if 0 <= n <= rest.len() {
            match json_step(value, unescaped(rest.take(n))) {
                Some(v) => json_at(v, rest.skip(n)),
                None => None,
            }
        } else {
            None
        }
    }
}

proof fn lemma_token_length(s: Seq<char>)
    ensures
        0 <= token_length(s) <= s.len(),
    decreases s.len(),
{
    if s.len() > 0 && s[0] != '/' {
        lemma_token_length(s.skip(1));
    }
}

proof fn lemma_nothing_to_replace(s: Seq<char>, pattern: Seq<char>, with: Seq<char>)
    requires
        pattern.len() > 0,
        forall|i: int| 0 <= i < s.len() ==> s[i] != pattern[0],
    ensures
        replaced(s, pattern, with) == s,
    decreases s.len(),
{
    if s.len() > 0 {
        if stands_at(s, pattern, 0) {
            assert(s.subrange(0, pattern.len() as int)[0] == s[0]);
        }
        lemma_nothing_to_replace(s.skip(1), pattern, with);
        assert(seq![s[0]] + s.skip(1) =~= s);
    }
}

proof fn lemma_whole_token(s: Seq<char>)
    requires
        forall|i: int| 0 <= i < s.len() ==> s[i] != '/',
    ensures
        token_length(s) == s.len(),
    decreases s.len(),
{
    if s.len() > 0 {
        lemma_whole_token(s.skip(1));
    }
}

/// A pointer of one plain name leads to the object's member of that name.
pub proof fn law_a_plain_pointer_names_a_member(value: Json, name: Seq<char>)
    requires
        value is Object,
        forall|i: int| 0 <= i < name.len() ==> name[i] != '/' && name[i] != '~',
    ensures
        json_at(value, "/"@ + name) == json_member(value, name),
{
    reveal_strlit("/");
    reveal_strlit("~");
    reveal_strlit("~1");
    reveal_strlit("~0");
    let path = "/"@ + name;
    assert(path.skip(1) =~= name);
    lemma_whole_token(name);
    assert(name.take(name.len() as int) =~= name);
    lemma_nothing_to_replace(name, "~1"@, "/"@);
    lemma_nothing_to_replace(name, "~0"@, "~"@);
    assert(name.skip(name.len() as int) =~= Seq::<char>::empty());
    if let Some(v) = json_member(value, name) {
        assert(json_at(v, name.skip(name.len() as int)) == Some(v));
    }
}

/// Pointers lead on from one another: what the one leads to, the other starts
/// from.
pub proof fn law_pointers_lead_on(value: Json, first: Seq<char>, second: Seq<char>)
    requires
        second.len() > 0,
        second[0] == '/',
    ensures
        json_at(value, first + second) == (match json_at(value, first) {
            Some(v) => json_at(v, second),
            None => None,
        }),
    decreases first.len(),
{
    let path = first + second;
    if first.len() == 0 {
        assert(path =~= second);
    } else if first[0] == '/' {
        let a = first.skip(1);
        let b = path.skip(1);
        assert(b =~= a + second);
        lemma_token_length(a);
        lemma_same_token(a, second);
        let n = token_length(a);
        assert(b.take(n) =~= a.take(n));
        assert(b.skip(n) =~= a.skip(n) + second);
        if let Some(v) = json_step(value, unescaped(a.take(n))) {
            law_pointers_lead_on(v, a.skip(n), second);
        }
    }
}

proof fn lemma_same_token(a: Seq<char>, b: Seq<char>)
    requires
        b.len() > 0,
        b[0] == '/',
    ensures
        token_length(a + b) == token_length(a),
    decreases a.len(),
{
    if a.len() == 0 {
        assert(a + b =~= b);
    } else if a[0] != '/' {
        assert((a + b).skip(1) =~= a.skip(1) + b);
        lemma_same_token(a.skip(1), b);
    }
}

/// The first element of an array.
pub open spec fn json_first(value: Json) -> Option<Json> {
    match value {
        Json::Array(a) => if a.len() > 0 {
            Some(a[0])
        } else {
            None
        },
        _ => None,
    }
}

/// The integer that a value is.
pub open spec fn json_integer(value: Json) -> Option<i64> {
    match value {
        Json::Number { integer, double } => integer,
        _ => None,
    }
}

/// The bits of the double that a number is read as.
pub open spec fn json_double(value: Json) -> Option<u64> {
    match value {
        Json::Number { integer, double } => Some(double),
        _ => None,
    }
}

/// The characters of a text value.
pub open spec fn json_text(value: Json) -> Option<Seq<char>> {
    match value {
        Json::Text(t) => Some(t),
        _ => None,
    }
}

/// `serde_json::from_slice` decodes one JSON document and fails on anything
/// else. The result depends on the bytes alone; the grammar is not spelt out.
#[verifier::external_body]
pub(crate) fn decode(bytes: &[u8]) -> (r: Option<Value>)
    ensures
        match r {
            Some(v) => json_decoded(bytes@) == Some(json_of(v)),
            None => json_decoded(bytes@) is None,
        },
{
    serde_json::from_slice::<Value>(bytes).ok()
}

/// `Value::get` with a text index: the member of that name, where the value is
/// an object that has one.
#[verifier::external_body]
pub(crate) fn member<'a>(v: &'a Value, key: &str) -> (r: Option<&'a Value>)
    ensures
        opt_json(r) == json_member(json_of(*v), key@),
{
    v.get(key)
}

/// `Value::pointer` follows a JSON pointer, token by token: it splits the text at
/// its slashes, puts `/` for `~1` and then `~` for `~0` in each token, and takes
/// the member of an object or the element of an array. The empty pointer leads to
/// the value itself; any other has to begin with a slash.
#[verifier::external_body]
pub(crate) fn at_pointer<'a>(v: &'a Value, path: &str) -> (r: Option<&'a Value>)
    ensures
        opt_json(r) == json_at(json_of(*v), path@),
{
    v.pointer(path)
}

/// `Value::as_array`, then the first element of the slice, where there is one.
#[verifier::external_body]
pub(crate) fn first_element(v: &Value) -> (r: Option<&Value>)
    ensures
        opt_json(r) == json_first(json_of(*v)),
{
    v.as_array().and_then(|a| a.first())
}

/// `Value::as_i64`: the integer that the value is, where it is one that fits.
#[verifier::external_body]
pub(crate) fn as_integer(v: &Value) -> (r: Option<i64>)
    ensures
        r == json_integer(json_of(*v)),
{
    v.as_i64()
}

/// `Value::as_f64`: the double that a number is read as, here by its bits.
#[verifier::external_body]
pub(crate) fn as_double_bits(v: &Value) -> (r: Option<u64>)
    ensures
        r == json_double(json_of(*v)),
{
    v.as_f64().map(|d| d.to_bits())
}

/// `Value::as_str`: the characters of a text value.
#[verifier::external_body]
pub(crate) fn as_text(v: &Value) -> (r: Option<&str>)
    ensures
        crate::text::opt_str_view(r) == json_text(json_of(*v)),
{
    v.as_str()
}

} // verus!
