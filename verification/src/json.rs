//! JSON documents, as `serde_json` holds, reads and writes them.
//!
//! A `serde_json::Value` is a container whose contents are the document; contracts speak
//! of that document, a `JsonView`.

use crate::text;
use serde_json::Value;
use vstd::prelude::*;

verus! {

/// A JSON number, in the three forms in which `serde_json` keeps one: an unsigned
/// integer, a negative integer, or the bit pattern of a binary64 number.
pub enum JsonNumber {
    PosInt(u64),
    NegInt(i64),
    Float(u64),
}

/// What a JSON document says.
pub enum JsonView {
    Null,
    Bool(bool),
    Number(JsonNumber),
    Text(Seq<char>),
    List(Seq<JsonView>),
    Object(Map<Seq<char>, JsonView>),
}

/// The members of an object, by key.
pub type Members = Map<Seq<char>, JsonView>;

/// An object without members.
pub open spec fn no_members() -> Members {
    Map::empty()
}

/// The member of that name, where the document is an object that has one.
pub open spec fn member_of(j: JsonView, key: Seq<char>) -> Option<JsonView> {
    match j {
        JsonView::Object(m) => if m.contains_key(key) {
            Some(m[key])
        } else {
            None
        },
        _ => None,
    }
}

/// The text, where the document is a text.
pub open spec fn text_of(j: JsonView) -> Option<Seq<char>> {
    match j {
        JsonView::Text(s) => Some(s),
        _ => None,
    }
}

/// The truth value, where the document is one.
pub open spec fn bool_of(j: JsonView) -> Option<bool> {
    match j {
        JsonView::Bool(b) => Some(b),
        _ => None,
    }
}

/// The integer, where the document is a number kept as an integer that an `i64` holds.
pub open spec fn i64_of(j: JsonView) -> Option<i64> {
    match j {
        JsonView::Number(JsonNumber::PosInt(n)) => if n <= i64::MAX {
            Some(n as i64)
        } else {
            None
        },
        JsonView::Number(JsonNumber::NegInt(n)) => Some(n),
        _ => None,
    }
}

/// The integer, where the document is a number kept as an unsigned integer.
pub open spec fn u64_of(j: JsonView) -> Option<u64> {
    match j {
        JsonView::Number(JsonNumber::PosInt(n)) => Some(n),
        _ => None,
    }
}

/// The items, where the document is a list.
pub open spec fn list_of(j: JsonView) -> Option<Seq<JsonView>> {
    match j {
        JsonView::List(items) => Some(items),
        _ => None,
    }
}

/// The members, where the document is an object.
pub open spec fn members_of(j: JsonView) -> Option<Members> {
    match j {
        JsonView::Object(m) => Some(m),
        _ => None,
    }
}

/// The binary64 bit pattern nearest to the number, where the document is a number.
pub open spec fn bits_of(j: JsonView) -> Option<u64> {
    match j {
        JsonView::Number(n) => Some(number_bits(n)),
        _ => None,
    }
}

/// The documents that the values of a list hold.
pub open spec fn documents(vs: Seq<Value>) -> Seq<JsonView> {
    vs.map_values(|v: Value| json_of(v))
}

// ---- the order of an object's keys ----

/// Each key comes before all those behind it.
pub open spec fn ascending(keys: Seq<Seq<char>>) -> bool {
    forall|i: int, j: int| 0 <= i < j < keys.len() ==> text::precedes(keys[i], keys[j])
}

/// `keys` names every member of the object, in ascending order.
pub open spec fn lists_in_order(keys: Seq<Seq<char>>, m: Members) -> bool {
    &&& ascending(keys)
    &&& forall|k: Seq<char>| keys.contains(k) <==> #[trigger] m.contains_key(k)
}

/// The keys of an object in ascending order.
pub open spec fn key_order(m: Members) -> Seq<Seq<char>> {
    choose|keys: Seq<Seq<char>>| lists_in_order(keys, m)
}

proof fn lemma_precedes_transitive(a: Seq<char>, b: Seq<char>, c: Seq<char>)
    requires
        text::precedes(a, b),
        text::precedes(b, c),
    ensures
        text::precedes(a, c),
{
    let i = choose|i: int| text::precedes_at(a, b, i);
    let j = choose|j: int| text::precedes_at(b, c, j);
    if i <= j {
        assert(text::precedes_at(a, c, i));
    } else {
        assert(text::precedes_at(a, c, j));
    }
}

proof fn lemma_precedes_irreflexive(a: Seq<char>)
    ensures
        !text::precedes(a, a),
{
}

/// An object's keys stand in ascending order in one way only.
pub proof fn lemma_order_is_unique(a: Seq<Seq<char>>, b: Seq<Seq<char>>)
    requires
        ascending(a),
        ascending(b),
        forall|k: Seq<char>| a.contains(k) <==> b.contains(k),
    ensures
        a == b,
    decreases a.len(),
{
    if a.len() == 0 {
        if b.len() > 0 {
            assert(b.contains(b[0]));
            assert(a.contains(b[0]));
        }
        assert(a =~= b);
    } else {
        assert(a.contains(a[0]));
        assert(b.contains(a[0]));
        assert(b.contains(b[0]));
        assert(a.contains(b[0]));
        let j = choose|j: int| 0 <= j < b.len() && b[j] == a[0];
        let i = choose|i: int| 0 <= i < a.len() && a[i] == b[0];
        if a[0] != b[0] {
            assert(text::precedes(a[0], a[i]));
            assert(text::precedes(b[0], b[j]));
            lemma_precedes_transitive(a[0], b[0], a[0]);
            lemma_precedes_irreflexive(a[0]);
        }
        let x = a.drop_first();
        let y = b.drop_first();
        assert forall|k: Seq<char>| x.contains(k) implies y.contains(k) by {
            let p = choose|p: int| 0 <= p < x.len() && x[p] == k;
            assert(a[p + 1] == k);
            assert(a.contains(k));
            let q = choose|q: int| 0 <= q < b.len() && b[q] == k;
            assert(text::precedes(a[0], a[p + 1]));
            lemma_precedes_irreflexive(a[0]);
            assert(q != 0);
            assert(y[q - 1] == k);
        }
        assert forall|k: Seq<char>| y.contains(k) implies x.contains(k) by {
            let p = choose|p: int| 0 <= p < y.len() && y[p] == k;
            assert(b[p + 1] == k);
            assert(b.contains(k));
            let q = choose|q: int| 0 <= q < a.len() && a[q] == k;
            assert(text::precedes(b[0], b[p + 1]));
            lemma_precedes_irreflexive(b[0]);
            assert(q != 0);
            assert(x[q - 1] == k);
        }
        lemma_order_is_unique(x, y);
        assert(a =~= seq![a[0]] + x);
        assert(b =~= seq![b[0]] + y);
    }
}

/// Whatever lists an object's keys in order is its key order.
pub proof fn lemma_key_order(keys: Seq<Seq<char>>, m: Members)
    requires
        lists_in_order(keys, m),
    ensures
        key_order(m) == keys,
{
    let other = key_order(m);
    assert(lists_in_order(other, m));
    assert forall|k: Seq<char>| keys.contains(k) <==> other.contains(k) by {
        assert(keys.contains(k) <==> m.contains_key(k));
    }
    lemma_order_is_unique(keys, other);
}

// ---- serde_json ----

/// `serde_json::Value`, a container for one JSON document.
#[verifier::external_type_specification]
#[verifier::external_body]
pub struct ExValue(serde_json::Value);

/// The document that a `serde_json::Value` holds.
pub uninterp spec fn json_of(v: Value) -> JsonView;

/// `serde_json::Map`, the members of one JSON object.
#[verifier::external_type_specification]
#[verifier::external_body]
#[verifier::reject_recursive_types(K)]
#[verifier::reject_recursive_types(V)]
pub struct ExMap<K, V>(serde_json::Map<K, V>);

/// The members that a `serde_json::Map` holds.
pub uninterp spec fn object_of(m: serde_json::Map<String, Value>) -> Members;

/// What `serde_json::Number::as_f64` makes of a number: its bit pattern as a binary64
/// number, rounded where an integer has more digits than that holds.
pub uninterp spec fn number_bits(n: JsonNumber) -> u64;

/// What `serde_json::from_str` makes of a text: the document, or the words of its error.
pub uninterp spec fn json_from_str(text: Seq<char>) -> Result<JsonView, Seq<char>>;

/// The compact text that `serde_json` writes for a document.
pub uninterp spec fn json_text(j: JsonView) -> Seq<char>;

/// `Value::as_str`: the text of a text, and nothing of any other document.
pub assume_specification[ serde_json::Value::as_str ](v: &Value) -> (r: Option<&str>)
    ensures
        r is Some <==> text_of(json_of(*v)) is Some,
        r matches Some(s) ==> text_of(json_of(*v)) == Some(s@),
;

/// `Value::as_bool`: the value of a truth value, and nothing of any other document.
pub assume_specification[ serde_json::Value::as_bool ](v: &Value) -> (r: Option<bool>)
    ensures
        r == bool_of(json_of(*v)),
;

/// `Value::as_i64`: an integer within the range of `i64`; nothing of a number that is
/// kept as binary64, nor of any other document.
pub assume_specification[ serde_json::Value::as_i64 ](v: &Value) -> (r: Option<i64>)
    ensures
        r == i64_of(json_of(*v)),
;

/// `Value::as_u64`: an unsigned integer; nothing of a negative number, of one kept as
/// binary64, nor of any other document.
pub assume_specification[ serde_json::Value::as_u64 ](v: &Value) -> (r: Option<u64>)
    ensures
        r == u64_of(json_of(*v)),
;

/// `Value::as_array`: the items of a list, and nothing of any other document.
pub assume_specification[ serde_json::Value::as_array ](v: &Value) -> (r: Option<&Vec<Value>>)
    ensures
        r is Some <==> list_of(json_of(*v)) is Some,
        r matches Some(items) ==> list_of(json_of(*v)) == Some(documents(items@)),
;

/// `Value::as_object`: the members of an object, and nothing of any other document.
pub assume_specification[ serde_json::Value::as_object ](v: &Value) -> (r: Option<
    &serde_json::Map<String, Value>,
>)
    ensures
        r is Some <==> members_of(json_of(*v)) is Some,
        r matches Some(m) ==> members_of(json_of(*v)) == Some(object_of(*m)),
;

/// `Value::clone`: a value that holds the same document.
pub assume_specification[ <serde_json::Value as Clone>::clone ](v: &Value) -> (r: Value)
    ensures
        json_of(r) == json_of(*v),
;

/// `Map::new`: an object without members.
pub assume_specification[ serde_json::Map::<String, Value>::new ]() -> (r: serde_json::Map<
    String,
    Value,
>)
    ensures
        object_of(r) == no_members(),
;

/// `Map::insert`: the key gets the new document, in place of the one it had; that one is
/// handed back.
pub assume_specification[ serde_json::Map::<String, Value>::insert ](
    m: &mut serde_json::Map<String, Value>,
    k: String,
    v: Value,
) -> (r: Option<Value>)
    ensures
        object_of(*final(m)) == object_of(*old(m)).insert(k@, json_of(v)),
        r is Some <==> object_of(*old(m)).contains_key(k@),
        r matches Some(was) ==> json_of(was) == object_of(*old(m))[k@],
;

/// `Value::get` with a key: the member of that name, where the document is an object that
/// has one.
#[verifier::external_body]
pub(crate) fn member<'a>(v: &'a Value, key: &str) -> (r: Option<&'a Value>)
    ensures
        r is Some <==> member_of(json_of(*v), key@) is Some,
        r matches Some(c) ==> member_of(json_of(*v), key@) == Some(json_of(*c)),
{
    v.get(key)
}

/// `Value::as_f64`: the bit pattern of a number, and nothing of any other document. A
/// number that is kept as binary64 comes out as it is kept.
#[verifier::external_body]
pub(crate) fn number_as_bits(v: &Value) -> (r: Option<u64>)
    ensures
        r == (match json_of(*v) {
            JsonView::Number(n) => Some(number_bits(n)),
            _ => None,
        }),
        json_of(*v) matches JsonView::Number(JsonNumber::Float(b)) ==> r == Some(b),
{
    v.as_f64().map(|x| x.to_bits())
}

/// `Map::iter`: every member once, in ascending order of the keys. (The map is a
/// `BTreeMap`, whose order of `String` keys is that of their characters.)
#[verifier::external_body]
pub(crate) fn entries<'a>(m: &'a serde_json::Map<String, Value>) -> (r: Vec<
    (&'a String, &'a Value),
>)
    ensures
        lists_in_order(r@.map_values(|e: (&'a String, &'a Value)| e.0@), object_of(*m)),
        forall|i: int|
            0 <= i < r@.len() ==> json_of(*(#[trigger] r@[i]).1) == object_of(*m)[r@[i].0@],
{
    m.iter().collect()
}

/// `serde_json::from_str`: what it makes of a text depends on the text alone.
#[verifier::external_body]
pub(crate) fn parse_text(text: &str) -> (r: Result<Value, String>)
    ensures
        r is Ok <==> json_from_str(text@) is Ok,
        r matches Ok(v) ==> json_from_str(text@)->Ok_0 == json_of(v),
        r matches Err(e) ==> json_from_str(text@)->Err_0 == e@,
{
    serde_json::from_str(text).map_err(|e| e.to_string())
}

/// The `Display` form of a `Value`: compact JSON, which depends on the document alone.
#[verifier::external_body]
pub(crate) fn write_text(v: &Value) -> (r: String)
    ensures
        r@ == json_text(json_of(*v)),
{
    v.to_string()
}

/// `Value::Null`.
#[verifier::external_body]
pub(crate) fn null_value() -> (r: Value)
    ensures
        json_of(r) == JsonView::Null,
{
    Value::Null
}

/// `Value::Bool`.
#[verifier::external_body]
pub(crate) fn bool_value(b: bool) -> (r: Value)
    ensures
        json_of(r) == JsonView::Bool(b),
{
    Value::Bool(b)
}

/// `Value::from` on an unsigned integer.
#[verifier::external_body]
pub(crate) fn number_value(n: u64) -> (r: Value)
    ensures
        json_of(r) == JsonView::Number(JsonNumber::PosInt(n)),
{
    Value::from(n)
}

/// `Value::String`.
#[verifier::external_body]
pub(crate) fn text_value(s: String) -> (r: Value)
    ensures
        json_of(r) == JsonView::Text(s@),
{
    Value::String(s)
}

/// `Value::Object`.
#[verifier::external_body]
pub(crate) fn object_value(m: serde_json::Map<String, Value>) -> (r: Value)
    ensures
        json_of(r) == JsonView::Object(object_of(m)),
{
    Value::Object(m)
}

} // verus!
