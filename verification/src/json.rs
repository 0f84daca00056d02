//! JSON values as plain data.
use vstd::prelude::*;
use vstd::string::*;

use crate::text;

verus! {

/// A JSON number, as far as it is read: its value as a 64-bit integer and
/// the bits of its double-precision value, where it has one.
#[derive(Clone, Copy)]
pub struct JsonNumber {
    /// The value, if it is an integer of 64 bits.
    pub integer: Option<i64>,
    /// The bits of the double nearest to the value.
    pub bits: Option<u64>,
}

/// A JSON value.
pub enum Json {
    /// `null`.
    Null,
    /// `true` or `false`.
    Bool(bool),
    /// A number.
    Number(JsonNumber),
    /// A string.
    Text(String),
    /// An array.
    Array(Vec<Json>),
    /// An object, its members in the order in which they are walked.
    Object(Vec<Member>),
}

/// A member of a JSON object.
pub struct Member {
    /// The key.
    pub key: String,
    /// The value.
    pub value: Json,
}

/// The model of a JSON value.
pub enum JsonView {
    /// `null`.
    Null,
    /// `true` or `false`.
    Bool(bool),
    /// A number.
    Number(JsonNumber),
    /// A string.
    Text(Seq<char>),
    /// An array.
    Array(Seq<JsonView>),
    /// An object.
    Object(Seq<(Seq<char>, JsonView)>),
}

/// The model of a value.
pub open spec fn json_view(j: Json) -> JsonView
    decreases j,
{
    match j {
        Json::Null => JsonView::Null,
        Json::Bool(b) => JsonView::Bool(b),
        Json::Number(n) => JsonView::Number(n),
        Json::Text(s) => JsonView::Text(s@),
        Json::Array(items) => JsonView::Array(
            Seq::new(
                items@.len(),
                |i: int|
                    if 0 <= i < items@.len() {
                        json_view(items@[i])
                    } else {
                        JsonView::Null
                    },
            ),
        ),
        Json::Object(members) => JsonView::Object(
            Seq::new(
                members@.len(),
                |i: int|
                    if 0 <= i < members@.len() {
                        (members@[i].key@, json_view(members@[i].value))
                    } else {
                        (Seq::empty(), JsonView::Null)
                    },
            ),
        ),
    }
}

impl View for Json {
    type V = JsonView;

    open spec fn view(&self) -> JsonView {
        json_view(*self)
    }
}

/// The model of an optional value.
pub open spec fn opt_json(j: Option<Json>) -> Option<JsonView> {
    match j {
        Some(v) => Some(v@),
        None => None,
    }
}

/// The model of an optional reference to a value.
pub open spec fn opt_ref(j: Option<&Json>) -> Option<JsonView> {
    match j {
        Some(v) => Some(v@),
        None => None,
    }
}

// ---------------------------------------------------------------------------
// Parsing
// ---------------------------------------------------------------------------
/// A parsed value of `serde_json`.
#[verifier::external_type_specification]
#[verifier::external_body]
pub struct ExValue(serde_json::Value);

/// A character that JSON passes over around a value.
pub open spec fn is_json_space(c: char) -> bool {
    c == ' ' || c == '\n' || c == '\t' || c == '\r'
}

/// `text` without the spaces at its end.
pub open spec fn without_end_space(text: Seq<char>) -> Seq<char>
    decreases text.len(),
{
    if text.len() > 0 && is_json_space(text.last()) {
        without_end_space(text.drop_last())
    } else {
        text
    }
}

/// The value that a text without spaces at its end writes in JSON; nothing if
/// it is not JSON.
pub uninterp spec fn value_of(text: Seq<char>) -> Option<JsonView>;

/// The value that `text` writes in JSON; nothing if it is not JSON. Spaces at
/// the end mean nothing.
pub open spec fn json_of(text: Seq<char>) -> Option<JsonView> {
    value_of(without_end_space(text))
}

/// What a parsed value holds.
pub uninterp spec fn held(value: serde_json::Value) -> JsonView;

/// `serde_json::from_str` into a `serde_json::Value`. What counts as JSON is
/// serde_json's to say; what the value holds depends on the text alone, and
/// not on the spaces, tabs, line feeds and carriage returns at its end, which
/// serde_json passes over behind a value.
#[verifier::external_body]
pub(crate) fn parse_value(text: &str) -> (r: Option<serde_json::Value>)
    ensures
        value_of(without_end_space(text@)) == (match r {
            Some(v) => Some(held(v)),
            None => None,
        }),
{
    serde_json::from_str::<serde_json::Value>(text).ok()
}

/// The outermost layer of a parsed value.
enum Layer<'a> {
    /// `null`.
    Null,
    /// `true` or `false`.
    Bool(bool),
    /// A number.
    Number(JsonNumber),
    /// A string.
    Text(&'a String),
    /// The items of an array.
    Array(&'a Vec<serde_json::Value>),
    /// The members of an object.
    Object(Vec<(&'a String, &'a serde_json::Value)>),
}

/// What a value with the given outermost layer holds.
spec fn layer_view(layer: Layer) -> JsonView {
    match layer {
        Layer::Null => JsonView::Null,
        Layer::Bool(b) => JsonView::Bool(b),
        Layer::Number(n) => JsonView::Number(n),
        Layer::Text(s) => JsonView::Text(s@),
        Layer::Array(items) => JsonView::Array(Seq::new(items@.len(), |i: int| held(items@[i]))),
        Layer::Object(members) => JsonView::Object(
            Seq::new(members@.len(), |i: int| (members@[i].0@, held(*members@[i].1))),
        ),
    }
}

/// The variants of `serde_json::Value`, told apart: numbers through
/// `Number::as_i64` and `Number::as_f64`, members in the order of
/// `serde_json::Map::iter`. What a value holds is made up of what the values
/// directly inside it hold.
#[verifier::external_body]
fn layer_of(value: &serde_json::Value) -> (r: Layer<'_>)
    ensures
        held(*value) == layer_view(r),
{
    match value {
        serde_json::Value::Null => Layer::Null,
        serde_json::Value::Bool(b) => Layer::Bool(*b),
        serde_json::Value::Number(n) => Layer::Number(
            JsonNumber { integer: n.as_i64(), bits: n.as_f64().map(|x| x.to_bits()) },
        ),
        serde_json::Value::String(s) => Layer::Text(s),
        serde_json::Value::Array(a) => Layer::Array(a),
        serde_json::Value::Object(m) => Layer::Object(m.iter().collect()),
    }
}

/// A parsed value as plain data.
fn json_from_value(value: &serde_json::Value) -> (r: Json)
    ensures
        r@ == held(*value),
    decreases held(*value),
{
    match layer_of(value) {
        Layer::Null => Json::Null,
        Layer::Bool(b) => Json::Bool(b),
        Layer::Number(n) => Json::Number(n),
        Layer::Text(s) => Json::Text(s.clone()),
        Layer::Array(items) => {
            let ghost all = held(*value)->Array_0;
            let mut out: Vec<Json> = Vec::new();
            let mut i: usize = 0;
            while i < items.len()
                invariant
                    i <= items@.len(),
                    held(*value) == JsonView::Array(all),
                    all == Seq::new(items@.len(), |j: int| held(items@[j])),
                    out@.len() == i,
                    forall|j: int| 0 <= j < i ==> (#[trigger] out@[j])@ == all[j],
                decreases items@.len() - i,
            {
                proof {
                    let h = held(*value);
                    assert(decreases_to!(h => h->Array_0));
                    assert(decreases_to!(all => all[i as int]));
                }
                out.push(json_from_value(&items[i]));
                i += 1;
            }
            let r = Json::Array(out);
            assert(r@->Array_0 =~= all);
            r
        },
        Layer::Object(members) => {
            let ghost all = held(*value)->Object_0;
            let mut out: Vec<Member> = Vec::new();
            let mut i: usize = 0;
            while i < members.len()
                invariant
                    i <= members@.len(),
                    held(*value) == JsonView::Object(all),
                    all == Seq::new(
                        members@.len(),
                        |j: int| (members@[j].0@, held(*members@[j].1)),
                    ),
                    out@.len() == i,
                    forall|j: int|
                        0 <= j < i ==> ((#[trigger] out@[j]).key@, out@[j].value@) == all[j],
                decreases members@.len() - i,
            {
                proof {
                    let h = held(*value);
                    assert(decreases_to!(h => h->Object_0));
                    assert(decreases_to!(all => all[i as int]));
                    assert(decreases_to!(all[i as int] => all[i as int].1));
                }
                let (key, inner) = members[i];
                out.push(Member { key: key.clone(), value: json_from_value(inner) });
                i += 1;
            }
            let r = Json::Object(out);
            assert(r@->Object_0 =~= all);
            r
        },
    }
}

/// The value that a text writes in JSON.
pub(crate) fn parse_json(text: &str) -> (r: Option<Json>)
    ensures
        opt_json(r) == json_of(text@),
{
    match parse_value(text) {
        Some(v) => Some(json_from_value(&v)),
        None => None,
    }
}

// ---------------------------------------------------------------------------
// Reading
// ---------------------------------------------------------------------------
/// The first member with the given key, from index `i` on.
pub open spec fn member_from(
    members: Seq<(Seq<char>, JsonView)>,
    key: Seq<char>,
    i: int,
) -> Option<JsonView>
    decreases members.len() - i,
{
    if i < 0 || i >= members.len() {
        None
    } else if members[i].0 == key {
        Some(members[i].1)
    } else {
        member_from(members, key, i + 1)
    }
}

/// The member of an object under `key`; nothing for another kind of value.
pub open spec fn get_of(j: JsonView, key: Seq<char>) -> Option<JsonView> {
    match j {
        JsonView::Object(members) => member_from(members, key, 0),
        _ => None,
    }
}

/// The member under `key` of an optional value.
pub open spec fn get_in(j: Option<JsonView>, key: Seq<char>) -> Option<JsonView> {
    match j {
        Some(v) => get_of(v, key),
        None => None,
    }
}

/// The string that a value holds.
pub open spec fn text_in(j: Option<JsonView>) -> Option<Seq<char>> {
    match j {
        Some(JsonView::Text(s)) => Some(s),
        _ => None,
    }
}

/// The truth value that a value holds.
pub open spec fn bool_in(j: Option<JsonView>) -> Option<bool> {
    match j {
        Some(JsonView::Bool(b)) => Some(b),
        _ => None,
    }
}

/// The items of an array.
pub open spec fn items_in(j: Option<JsonView>) -> Option<Seq<JsonView>> {
    match j {
        Some(JsonView::Array(items)) => Some(items),
        _ => None,
    }
}

/// The number that a value holds.
pub open spec fn number_in(j: Option<JsonView>) -> Option<JsonNumber> {
    match j {
        Some(JsonView::Number(n)) => Some(n),
        _ => None,
    }
}

/// The string that a value holds, or a default.
pub open spec fn text_or(j: Option<JsonView>, default: Seq<char>) -> Seq<char> {
    match text_in(j) {
        Some(s) => s,
        None => default,
    }
}

/// The member of an object under `key`.
pub fn get<'a>(j: &'a Json, key: &str) -> (r: Option<&'a Json>)
    ensures
        opt_ref(r) == get_of(j@, key@),
{
    match j {
        Json::Object(members) => {
            let ghost all = j@->Object_0;
            let mut i: usize = 0;
            while i < members.len()
                invariant
                    i <= members@.len(),
                    *j == Json::Object(*members),
                    all == j@->Object_0,
                    member_from(all, key@, i as int) == member_from(all, key@, 0),
                decreases members@.len() - i,
            {
                assert(all[i as int] == (members@[i as int].key@, members@[i as int].value@));
                if text::same(members[i].key.as_str(), key) {
                    return Some(&members[i].value);
                }
                i += 1;
            }
            None
        },
        _ => None,
    }
}

/// The member under `key` of an optional value.
pub fn get_opt<'a>(j: Option<&'a Json>, key: &str) -> (r: Option<&'a Json>)
    ensures
        opt_ref(r) == get_in(opt_ref(j), key@),
{
    match j {
        Some(v) => get(v, key),
        None => None,
    }
}

/// The string that a value holds.
pub fn as_text<'a>(j: Option<&'a Json>) -> (r: Option<&'a str>)
    ensures
        text::opt_str(r) == text_in(opt_ref(j)),
{
    match j {
        Some(Json::Text(s)) => Some(s.as_str()),
        _ => None,
    }
}

/// The string that a value holds, or a default.
pub fn as_text_or(j: Option<&Json>, default: &str) -> (r: String)
    ensures
        r@ == text_or(opt_ref(j), default@),
{
    match as_text(j) {
        Some(s) => s.to_owned(),
        None => default.to_owned(),
    }
}

/// The truth value that a value holds.
pub fn as_bool(j: Option<&Json>) -> (r: Option<bool>)
    ensures
        r == bool_in(opt_ref(j)),
{
    match j {
        Some(Json::Bool(b)) => Some(*b),
        _ => None,
    }
}

/// The number that a value holds.
pub fn as_number(j: Option<&Json>) -> (r: Option<JsonNumber>)
    ensures
        r == number_in(opt_ref(j)),
{
    match j {
        Some(Json::Number(n)) => Some(*n),
        _ => None,
    }
}

/// The items of an array.
pub fn as_items<'a>(j: Option<&'a Json>) -> (r: Option<&'a Vec<Json>>)
    ensures
        match r {
            Some(v) => items_in(opt_ref(j)) == Some(Seq::new(v@.len(), |i: int| v@[i]@)),
            None => items_in(opt_ref(j)) is None,
        },
{
    match j {
        Some(Json::Array(v)) => {
            assert(items_in(opt_ref(j))->0 =~= Seq::new(v@.len(), |i: int| v@[i]@));
            Some(v)
        },
        _ => None,
    }
}

// ---------------------------------------------------------------------------
// Writing
// ---------------------------------------------------------------------------
/// The members of an object, whatever their order; none for another kind of
/// value.
pub open spec fn members_of(j: JsonView) -> Map<Seq<char>, JsonView> {
    Map::new(|key: Seq<char>| get_of(j, key) is Some, |key: Seq<char>| get_of(j, key)->0)
}

/// The text that `serde_json` writes for a value.
pub uninterp spec fn written(value: serde_json::Value) -> Seq<char>;

/// `serde_json::to_string`. It has no error to report of a value: keys are
/// strings and the text goes to memory. How a value is written is
/// serde_json's to say; the text depends on the value alone.
#[verifier::external_body]
pub(crate) fn write_value(value: &serde_json::Value) -> (r: String)
    ensures
        r@ == written(*value),
{
    serde_json::to_string(value).unwrap_or_default()
}

/// `serde_json::Value::String`: a value that holds a string.
#[verifier::external_body]
pub(crate) fn text_value(s: &str) -> (r: serde_json::Value)
    ensures
        held(r) == JsonView::Text(s@),
{
    serde_json::Value::String(s.to_string())
}

/// `serde_json::Value::Object` of an empty `serde_json::Map`.
#[verifier::external_body]
pub(crate) fn empty_object() -> (r: serde_json::Value)
    ensures
        held(r) == JsonView::Object(Seq::empty()),
{
    serde_json::Value::Object(serde_json::Map::new())
}

/// `serde_json::Map::insert` on a value that is an object: the member under
/// `key` is added or replaced, the others are kept. Another kind of value is
/// left as it is. In which order the members stand is not stated.
#[verifier::external_body]
pub(crate) fn with_member(value: serde_json::Value, key: &str, member: serde_json::Value) -> (r:
    serde_json::Value)
    ensures
        held(value) is Object ==> held(r) is Object && members_of(held(r)) == members_of(
            held(value),
        ).insert(key@, held(member)),
        !(held(value) is Object) ==> held(r) == held(value),
{
    let mut out = value;
    if let Some(members) = out.as_object_mut() {
        members.insert(key.to_string(), member);
    }
    out
}

/// `serde_json::Value::get` with a string and `Clone` on what it finds: a copy
/// of the member under `key`.
#[verifier::external_body]
pub(crate) fn member_value(value: &serde_json::Value, key: &str) -> (r: Option<serde_json::Value>)
    ensures
        get_of(held(*value), key@) == (match r {
            Some(v) => Some(held(v)),
            None => None,
        }),
{
    value.get(key).cloned()
}

// ---------------------------------------------------------------------------
// Laws
// ---------------------------------------------------------------------------
/// What is found under a key is the value of the first member with that key;
/// nothing is found if there is none, or in a value that is no object.
pub proof fn law_first_member_counts(members: Seq<(Seq<char>, JsonView)>, key: Seq<char>, n: int)
    ensures
        0 <= n < members.len() && members[n].0 == key && (forall|j: int|
            0 <= j < n ==> (#[trigger] members[j]).0 != key) ==> get_of(
            JsonView::Object(members),
            key,
        ) == Some(members[n].1),
        (forall|j: int| 0 <= j < members.len() ==> (#[trigger] members[j]).0 != key) ==> get_of(
            JsonView::Object(members),
            key,
        ) is None,
        forall|v: JsonView| !(v is Object) ==> #[trigger] get_of(v, key) is None,
{
    lemma_member_from(members, key, 0);
    match member_from(members, key, 0) {
        Some(v) => {
            let k = choose|k: int|
                0 <= k < members.len() && (#[trigger] members[k]).0 == key && members[k].1 == v
                    && forall|j: int| 0 <= j < k ==> (#[trigger] members[j]).0 != key;
            assert(members[k].0 == key);
            if 0 <= n < members.len() && members[n].0 == key && k < n {
                assert(members[k].0 == key);
            }
        },
        None => {},
    }
}

/// A search finds the first member with the key.
proof fn lemma_member_from(members: Seq<(Seq<char>, JsonView)>, key: Seq<char>, i: int)
    requires
        0 <= i,
    ensures
        match member_from(members, key, i) {
            Some(v) => exists|k: int|
                i <= k < members.len() && (#[trigger] members[k]).0 == key && members[k].1 == v
                    && forall|j: int| i <= j < k ==> (#[trigger] members[j]).0 != key,
            None => forall|j: int| i <= j < members.len() ==> (#[trigger] members[j]).0 != key,
        },
    decreases members.len() - i,
{
    if i < members.len() && members[i].0 != key {
        lemma_member_from(members, key, i + 1);
        if let Some(v) = member_from(members, key, i + 1) {
            let k = choose|k: int|
                i + 1 <= k < members.len() && (#[trigger] members[k]).0 == key && members[k].1 == v
                    && forall|j: int| i + 1 <= j < k ==> (#[trigger] members[j]).0 != key;
            assert(members[k].0 == key);
        }
    } else if i < members.len() {
        assert(members[i].0 == key);
    }
}

/// Spaces, tabs and ends of lines behind a value do not change it.
pub proof fn law_space_behind_a_value(text: Seq<char>, space: Seq<char>)
    requires
        forall|i: int|
            0 <= i < space.len() ==> #[trigger] space[i] == ' ' || space[i] == '\t' || space[i]
                == '\n' || space[i] == '\r',
    ensures
        json_of(text + space) == json_of(text),
    decreases space.len(),
{
    if space.len() > 0 {
        assert(space.last() == space[space.len() - 1]);
        assert((text + space).drop_last() =~= text + space.drop_last());
        law_space_behind_a_value(text, space.drop_last());
    } else {
        assert(text + space =~= text);
    }
}

/// A value is read as what it is and as nothing else; a text that is missing, or is no
/// text, gives way to the default.
pub proof fn law_values_are_read_as_what_they_are(
    j: Option<JsonView>,
    t: Seq<char>,
    b: bool,
    items: Seq<JsonView>,
    n: JsonNumber,
    default: Seq<char>,
)
    ensures
        text_in(j) == Some(t) <==> j == Some(JsonView::Text(t)),
        bool_in(j) == Some(b) <==> j == Some(JsonView::Bool(b)),
        items_in(j) == Some(items) <==> j == Some(JsonView::Array(items)),
        number_in(j) == Some(n) <==> j == Some(JsonView::Number(n)),
        j == Some(JsonView::Text(t)) ==> text_or(j, default) == t,
        !(j matches Some(JsonView::Text(_))) ==> text_or(j, default) == default,
        get_in(None, t) is None,
        forall|v: JsonView| #[trigger] get_in(Some(v), t) == get_of(v, t),
{
}

} // verus!
