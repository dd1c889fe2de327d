//! JSON text of strings and of string-valued objects, as serde_json writes
//! it.

use vstd::prelude::*;

verus! {

/// The hexadecimal digit of `d` (`d < 16`), lower case.
pub open spec fn hex_digit(d: nat) -> char {
    if d < 10 {
        ('0' as nat + d) as char
    } else {
        ('a' as nat + (d - 10)) as char
    }
}

/// How serde_json writes one character inside a JSON string: quote and
/// backslash are escaped, control characters are escaped by their short
/// form or as `\u00XX`, every other character stands for itself.
pub open spec fn escaped_char(c: char) -> Seq<char> {
    if c == '"' {
        seq!['\\', '"']
    } else if c == '\\' {
        seq!['\\', '\\']
    } else if c == '\u{8}' {
        seq!['\\', 'b']
    } else if c == '\t' {
        seq!['\\', 't']
    } else if c == '\n' {
        seq!['\\', 'n']
    } else if c == '\u{c}' {
        seq!['\\', 'f']
    } else if c == '\r' {
        seq!['\\', 'r']
    } else if (c as nat) < 0x20 {
        seq!['\\', 'u', '0', '0', hex_digit((c as nat) / 16), hex_digit((c as nat) % 16)]
    } else {
        seq![c]
    }
}

/// The escaped contents of a JSON string.
pub open spec fn escaped(s: Seq<char>) -> Seq<char>
    decreases s.len(),
{
    if s.len() == 0 {
        Seq::empty()
    } else {
        escaped(s.drop_last()) + escaped_char(s.last())
    }
}

/// A text none of whose characters needs an escape (no quote, backslash
/// or control character) is written as it is.
pub proof fn law_plain_text_is_not_escaped(s: Seq<char>)
    requires
        forall|i: int| 0 <= i < s.len() ==> #[trigger] s[i] != '"' && s[i] != '\\' && (s[i] as nat) >= 0x20,
    ensures
        escaped(s) == s,
    decreases s.len(),
{
    if s.len() > 0 {
        law_plain_text_is_not_escaped(s.drop_last());
        assert(s.last() == s[s.len() - 1]);
        assert(escaped(s) =~= s);
    }
}

/// A JSON string literal.
pub open spec fn quoted(s: Seq<char>) -> Seq<char> {
    seq!['"'] + escaped(s) + seq!['"']
}

/// `a` sorts before `b`, character by character (as `String`s compare).
pub open spec fn text_less(a: Seq<char>, b: Seq<char>) -> bool
    decreases a.len(),
{
    if a.len() == 0 {
        b.len() > 0
    } else if b.len() == 0 {
        false
    } else if a[0] != b[0] {
        (a[0] as u32) < (b[0] as u32)
    } else {
        text_less(a.drop_first(), b.drop_first())
    }
}

pub(crate) proof fn lemma_less_irreflexive(a: Seq<char>)
    ensures
        !text_less(a, a),
    decreases a.len(),
{
    if a.len() > 0 {
        lemma_less_irreflexive(a.drop_first());
    }
}

pub(crate) proof fn lemma_less_asymmetric(a: Seq<char>, b: Seq<char>)
    requires
        text_less(a, b),
    ensures
        !text_less(b, a),
        a != b,
    decreases a.len(),
{
    lemma_less_irreflexive(a);
    if a.len() > 0 && b.len() > 0 && a[0] == b[0] {
        lemma_less_asymmetric(a.drop_first(), b.drop_first());
    }
}

/// The keys of `entries` are strictly ascending.
pub open spec fn keys_ascending(entries: Seq<(Seq<char>, Seq<char>)>) -> bool {
    forall|i: int, j: int| 0 <= i < j < entries.len() ==> text_less(#[trigger] entries[i].0, #[trigger] entries[j].0)
}

/// The `"key":"value"` texts of the first `n` entries, comma-separated.
pub open spec fn members_text(entries: Seq<(Seq<char>, Seq<char>)>, n: int) -> Seq<char>
    decreases n,
{
    if n <= 0 || n > entries.len() {
        Seq::empty()
    } else if n == 1 {
        quoted(entries[0].0) + seq![':'] + quoted(entries[0].1)
    } else {
        members_text(entries, n - 1) + seq![','] + quoted(entries[n - 1].0) + seq![':'] + quoted(
            entries[n - 1].1,
        )
    }
}

/// The compact JSON text of an object whose values are strings.
pub open spec fn object_text(entries: Seq<(Seq<char>, Seq<char>)>) -> Seq<char> {
    seq!['{'] + members_text(entries, entries.len() as int) + seq!['}']
}

/// `text` is the compact JSON text of an object with the members of `m`,
/// in ascending key order.
pub open spec fn is_object_text(m: Map<Seq<char>, Seq<char>>, text: Seq<char>) -> bool {
    exists|entries: Seq<(Seq<char>, Seq<char>)>|
        keys_ascending(entries) && lists_map(entries, m) && text == object_text(entries)
}

/// `entries` lists exactly the members of `m`.
pub open spec fn lists_map(entries: Seq<(Seq<char>, Seq<char>)>, m: Map<Seq<char>, Seq<char>>) -> bool {
    &&& forall|i: int| 0 <= i < entries.len() ==> #[trigger] m.contains_key(entries[i].0) && m[entries[i].0] == entries[i].1
    &&& forall|k: Seq<char>| #[trigger] m.contains_key(k) ==> exists|i: int| 0 <= i < entries.len() && entries[i].0 == k
}

/// serde_json's object map, opaque here: what it holds is named by
/// `string_members`.
#[verifier::external_type_specification]
#[verifier::external_body]
#[verifier::reject_recursive_types(K)]
#[verifier::reject_recursive_types(V)]
pub struct ExJsonMap<K, V>(serde_json::Map<K, V>);

/// serde_json's JSON value, opaque here; it only fills the maps above.
#[verifier::external_type_specification]
#[verifier::external_body]
pub struct ExJsonValue(serde_json::Value);

/// A JSON object map, as serde_json keeps the members of an object.
pub type JsonObject = serde_json::Map<String, serde_json::Value>;

/// The members of a JSON object map whose values are strings: each such
/// key to its string.
pub uninterp spec fn string_members(m: JsonObject) -> Map<Seq<char>, Seq<char>>;

/// Every member of a JSON object map has a string value.
pub uninterp spec fn all_strings(m: JsonObject) -> bool;

/// `serde_json::Map::new`: an empty object map.
#[verifier::external_body]
pub(crate) fn new_object() -> (m: JsonObject)
    ensures
        string_members(m).is_empty(),
        all_strings(m),
{
    serde_json::Map::new()
}

/// `serde_json::Map::insert` of a `Value::String`: the key is set to the
/// string, replacing whatever value it had (the map is a `BTreeMap`, whose
/// `insert` keeps one entry per key).
#[verifier::external_body]
pub(crate) fn insert_string(m: &mut JsonObject, key: String, value: String)
    ensures
        string_members(*final(m)) == string_members(*old(m)).insert(key@, value@),
        all_strings(*old(m)) ==> all_strings(*final(m)),
{
    m.insert(key, serde_json::Value::String(value));
}

/// `serde_json::to_string` of a `Value::Object` whose members are all
/// strings. The contract claims serde_json's compact output: the members in
/// the order of its `BTreeMap`, that is keys ascending as `String`s
/// compare, each key and value a JSON string escaped as `escaped_char` says.
/// Serialising a `Value` does not fail.
#[verifier::external_body]
pub(crate) fn object_to_json(m: JsonObject) -> (text: String)
    requires
        all_strings(m),
    ensures
        is_object_text(string_members(m), text@),
{
    serde_json::to_string(&serde_json::Value::Object(m)).unwrap_or_default()
}

} // verus!
