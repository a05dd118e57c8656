//! JSON values, as far as the readers and writers of span events need them.
use crate::text::text_of;
use vstd::prelude::*;

verus! {

/// A JSON number: an integer, or a finite floating-point number given by its
/// IEEE 754 bits.
#[derive(Clone, Copy, Debug, PartialEq, Eq, Structural)]
pub enum JsonNumber {
    /// An integer from zero up.
    PosInt(u64),
    /// An integer below zero.
    NegInt(i64),
    /// The bits of a double-precision number.
    Float(u64),
}

/// A JSON value as mathematics sees it: an object is a map.
pub enum Json {
    Null,
    Bool(bool),
    Number(JsonNumber),
    Text(Seq<char>),
    Array(Seq<Json>),
    Object(Map<Seq<char>, Json>),
}

/// A JSON value. An object lists its members; where a key occurs more than
/// once, the first occurrence counts.
#[derive(Debug)]
pub enum JsonValue {
    Null,
    Bool(bool),
    Number(JsonNumber),
    Text(String),
    Array(Vec<JsonValue>),
    Object(Vec<(String, JsonValue)>),
}

/// The values of the elements of an array.
pub open spec fn array_items(items: Seq<JsonValue>) -> Seq<Json>
    decreases items,
{
    if items.len() == 0 {
        Seq::empty()
    } else {
        array_items(items.drop_last()).push(json_of(items.last()))
    }
}

/// The members of an object: of equal keys the first counts.
pub open spec fn object_members(members: Seq<(String, JsonValue)>) -> Map<Seq<char>, Json>
    decreases members,
{
    if members.len() == 0 {
        Map::empty()
    } else {
        object_members(members.drop_first()).insert(members[0].0@, json_of(members[0].1))
    }
}

/// The value that `value` stands for.
pub open spec fn json_of(value: JsonValue) -> Json
    decreases value,
{
    match value {
        JsonValue::Null => Json::Null,
        JsonValue::Bool(b) => Json::Bool(b),
        JsonValue::Number(n) => Json::Number(n),
        JsonValue::Text(s) => Json::Text(s@),
        JsonValue::Array(items) => Json::Array(array_items(items@)),
        JsonValue::Object(members) => Json::Object(object_members(members@)),
    }
}

impl View for JsonValue {
    type V = Json;

    open spec fn view(&self) -> Json {
        json_of(*self)
    }
}

/// The members of an object given as pairs of key and value: of equal keys the
/// first counts.
pub open spec fn members_map(members: Seq<(Seq<char>, Json)>) -> Map<Seq<char>, Json>
    decreases members.len(),
{
    if members.len() == 0 {
        Map::empty()
    } else {
        members_map(members.drop_first()).insert(members[0].0, members[0].1)
    }
}

/// Whether no key occurs twice.
pub open spec fn distinct_keys(members: Seq<(Seq<char>, Json)>) -> bool {
    forall|i: int, j: int|
        0 <= i < j < members.len() ==> (#[trigger] members[i]).0 != (#[trigger] members[j]).0
}

/// The object with the given members.
pub open spec fn object(members: Seq<(Seq<char>, Json)>) -> Json {
    Json::Object(members_map(members))
}

/// The text, or null where there is none.
pub open spec fn optional_text(text: Option<Seq<char>>) -> Json {
    match text {
        Some(t) => Json::Text(t),
        None => Json::Null,
    }
}

/// The number that stands for the integer `n`.
pub open spec fn integer(n: int) -> JsonNumber {
    if n >= 0 {
        JsonNumber::PosInt(n as u64)
    } else {
        JsonNumber::NegInt(n as i64)
    }
}

/// The integer, or null where there is none.
pub open spec fn optional_integer(n: Option<i64>) -> Json {
    match n {
        Some(n) => Json::Number(integer(n as int)),
        None => Json::Null,
    }
}

/// Whether the bits are those of a number that is neither infinite nor NaN:
/// the exponent field, bits 52 to 62, is not all ones.
pub open spec fn finite_bits(bits: u64) -> bool {
    (bits / 0x10_0000_0000_0000) % 0x800 != 0x7ff
}

/// The floating-point number, or null where there is none or it is not finite.
pub open spec fn optional_float(bits: Option<u64>) -> Json {
    match bits {
        Some(b) => if finite_bits(b) {
            Json::Number(JsonNumber::Float(b))
        } else {
            Json::Null
        },
        None => Json::Null,
    }
}

impl Json {
    /// The member of an object at `key`.
    pub open spec fn member(self, key: Seq<char>) -> Option<Json> {
        match self {
            Json::Object(members) => if members.contains_key(key) {
                Some(members[key])
            } else {
                None
            },
            _ => None,
        }
    }

    /// The text, where the value is one.
    pub open spec fn text(self) -> Option<Seq<char>> {
        match self {
            Json::Text(t) => Some(t),
            _ => None,
        }
    }

    /// The integer, where the value is one that fits in 64 bits with a sign.
    pub open spec fn int64(self) -> Option<int> {
        match self {
            Json::Number(JsonNumber::PosInt(n)) => if n <= i64::MAX {
                Some(n as int)
            } else {
                None
            },
            Json::Number(JsonNumber::NegInt(n)) => Some(n as int),
            _ => None,
        }
    }
}

/// An element of an array stands at its place.
pub proof fn lemma_array_item(items: Seq<JsonValue>, i: int)
    requires
        0 <= i < items.len(),
    ensures
        array_items(items).len() == items.len(),
        array_items(items)[i] == items[i]@,
    decreases items.len(),
{
    lemma_array_len(items);
    if i < items.len() - 1 {
        lemma_array_len(items.drop_last());
        lemma_array_item(items.drop_last(), i);
    }
}

/// An array has as many items as elements.
pub proof fn lemma_array_len(items: Seq<JsonValue>)
    ensures
        array_items(items).len() == items.len(),
    decreases items.len(),
{
    if items.len() > 0 {
        lemma_array_len(items.drop_last());
    }
}

/// The members of an object, as pairs of key and value.
pub open spec fn member_pairs(members: Seq<(String, JsonValue)>) -> Seq<(Seq<char>, Json)> {
    members.map_values(|m: (String, JsonValue)| (m.0@, m.1@))
}

/// Listing the members as pairs does not change the object.
pub proof fn lemma_object_members(members: Seq<(String, JsonValue)>)
    ensures
        object_members(members) == members_map(member_pairs(members)),
    decreases members.len(),
{
    let pairs = member_pairs(members);
    if members.len() > 0 {
        lemma_object_members(members.drop_first());
        assert(pairs.drop_first() =~= member_pairs(members.drop_first()));
    }
}

/// An object has finitely many members.
pub proof fn lemma_members_finite(members: Seq<(Seq<char>, Json)>)
    ensures
        members_map(members).dom().finite(),
    decreases members.len(),
{
    if members.len() > 0 {
        lemma_members_finite(members.drop_first());
    }
}

/// What a key looks up in an object whose first member with that key is at `i`.
pub proof fn lemma_member_at(members: Seq<(Seq<char>, Json)>, i: int)
    requires
        0 <= i < members.len(),
        forall|j: int| 0 <= j < i ==> (#[trigger] members[j]).0 != members[i].0,
    ensures
        members_map(members).contains_key(members[i].0),
        members_map(members)[members[i].0] == members[i].1,
    decreases members.len(),
{
    if i > 0 {
        let rest = members.drop_first();
        assert(forall|j: int| 0 <= j < i - 1 ==> #[trigger] rest[j] == members[j + 1]);
        lemma_member_at(rest, i - 1);
        assert(members[0].0 != members[i].0);
    }
}

/// A key that no member has looks up nothing.
pub proof fn lemma_no_member(members: Seq<(Seq<char>, Json)>, key: Seq<char>)
    requires
        forall|j: int| 0 <= j < members.len() ==> (#[trigger] members[j]).0 != key,
    ensures
        !members_map(members).contains_key(key),
    decreases members.len(),
{
    if members.len() > 0 {
        let rest = members.drop_first();
        assert(forall|j: int| 0 <= j < rest.len() ==> #[trigger] rest[j] == members[j + 1]);
        lemma_no_member(rest, key);
        assert(members[0].0 != key);
    }
}

impl JsonValue {
    /// The text, or null where there is none.
    pub fn from_optional_text(text: Option<String>) -> (value: JsonValue)
        ensures
            value@ == optional_text(text_of(text)),
    {
        match text {
            Some(t) => JsonValue::Text(t),
            None => JsonValue::Null,
        }
    }

    /// The number that stands for `n`.
    pub fn from_integer(n: i64) -> (value: JsonValue)
        ensures
            value@ == Json::Number(integer(n as int)),
    {
        if n >= 0 {
            JsonValue::Number(JsonNumber::PosInt(n as u64))
        } else {
            JsonValue::Number(JsonNumber::NegInt(n))
        }
    }

    /// The integer, or null where there is none.
    pub fn from_optional_integer(n: Option<i64>) -> (value: JsonValue)
        ensures
            value@ == optional_integer(n),
    {
        match n {
            Some(n) => JsonValue::from_integer(n),
            None => JsonValue::Null,
        }
    }

    /// The floating-point number, or null where there is none or it is not
    /// finite.
    pub fn from_optional_float(bits: Option<u64>) -> (value: JsonValue)
        ensures
            value@ == optional_float(bits),
    {
        match bits {
            Some(b) => if (b / 0x10_0000_0000_0000) % 0x800 != 0x7ff {
                JsonValue::Number(JsonNumber::Float(b))
            } else {
                JsonValue::Null
            },
            None => JsonValue::Null,
        }
    }

    /// The member of an object at `key`.
    pub fn get(&self, key: &String) -> (value: Option<&JsonValue>)
        ensures
            match value {
                Some(v) => self@.member(key@) == Some(v@),
                None => self@.member(key@) is None,
            },
    {
        match self {
            JsonValue::Object(members) => {
                let n: usize = members.len();
                let mut i: usize = 0;
                let ghost pairs = member_pairs(members@);
                proof {
                    lemma_object_members(members@);
                }
                while i < n
                    invariant
                        i <= n == members@.len(),
                        pairs == member_pairs(members@),
                        self@ == Json::Object(members_map(pairs)),
                        forall|j: int| 0 <= j < i ==> (#[trigger] pairs[j]).0 != key@,
                    decreases n - i,
                {
                    if members[i].0 == *key {
                        proof {
                            lemma_member_at(pairs, i as int);
                        }
                        return Some(&members[i].1);
                    }
                    i = i + 1;
                }
                proof {
                    lemma_no_member(pairs, key@);
                }
                None
            },
            _ => None,
        }
    }

    /// The text, where the value is one.
    pub fn as_text(&self) -> (text: Option<&String>)
        ensures
            match text {
                Some(t) => self@.text() == Some(t@),
                None => self@.text() is None,
            },
    {
        match self {
            JsonValue::Text(t) => Some(t),
            _ => None,
        }
    }

    /// The integer, where the value is one that fits in an `i64`.
    pub fn as_i64(&self) -> (n: Option<i64>)
        ensures
            match n {
                Some(n) => self@.int64() == Some(n as int),
                None => self@.int64() is None,
            },
    {
        match self {
            JsonValue::Number(JsonNumber::PosInt(n)) => if *n <= i64::MAX as u64 {
                Some(*n as i64)
            } else {
                None
            },
            JsonValue::Number(JsonNumber::NegInt(n)) => Some(*n),
            _ => None,
        }
    }

    /// A copy of the value.
    pub fn duplicate(&self) -> (copy: JsonValue)
        ensures
            copy@ == self@,
        decreases *self,
    {
        match self {
            JsonValue::Null => JsonValue::Null,
            JsonValue::Bool(b) => JsonValue::Bool(*b),
            JsonValue::Number(n) => JsonValue::Number(*n),
            JsonValue::Text(t) => JsonValue::Text(t.clone()),
            JsonValue::Array(items) => {
                let n: usize = items.len();
                let mut copies: Vec<JsonValue> = Vec::new();
                let mut i: usize = 0;
                assert(array_items(copies@) =~= array_items(items@.take(0)));
                while i < n
                    invariant
                        i <= n == items@.len(),
                        *self == JsonValue::Array(*items),
                        array_items(copies@) == array_items(items@.take(i as int)),
                    decreases n - i,
                {
                    assert(decreases_to!(*self => self->Array_0));
                    assert(decreases_to!(*items => items@));
                    assert(decreases_to!(items@ => items@[i as int]));
                    let copy = items[i].duplicate();
                    proof {
                        assert(copies@.push(copy).drop_last() =~= copies@);
                        assert(items@.take(i + 1).drop_last() =~= items@.take(i as int));
                    }
                    copies.push(copy);
                    i = i + 1;
                }
                assert(items@.take(n as int) =~= items@);
                JsonValue::Array(copies)
            },
            JsonValue::Object(members) => {
                let n: usize = members.len();
                let mut copies: Vec<(String, JsonValue)> = Vec::new();
                let mut i: usize = 0;
                assert(member_pairs(copies@) =~= member_pairs(members@.take(0)));
                while i < n
                    invariant
                        i <= n == members@.len(),
                        *self == JsonValue::Object(*members),
                        member_pairs(copies@) == member_pairs(members@.take(i as int)),
                    decreases n - i,
                {
                    assert(decreases_to!(*self => self->Object_0));
                    assert(decreases_to!(*members => members@));
                    assert(decreases_to!(members@ => members@[i as int]));
                    assert(decreases_to!(members@[i as int] => members@[i as int].1));
                    let copy = members[i].1.duplicate();
                    let key = members[i].0.clone();
                    let ghost before = copies@;
                    copies.push((key, copy));
                    i = i + 1;
                    proof {
                        assert(member_pairs(copies@) =~= member_pairs(before).push((key@, copy@)));
                        assert(member_pairs(members@.take(i as int)) =~= member_pairs(
                            members@.take(i - 1),
                        ).push((key@, copy@)));
                    }
                }
                proof {
                    assert(members@.take(n as int) =~= members@);
                    lemma_object_members(copies@);
                    lemma_object_members(members@);
                }
                JsonValue::Object(copies)
            },
        }
    }
}

/// `serde_json::Value`, the tree that the parser of `serde_json` makes.
#[verifier::external_type_specification]
#[verifier::external_body]
pub struct ExParsedValue(serde_json::Value);

/// What a `serde_json::Value` holds.
pub uninterp spec fn value_json(value: serde_json::Value) -> Json;

/// What `serde_json` reads from `text`: `None` where it is no JSON document.
pub uninterp spec fn parsed_json(text: Seq<char>) -> Option<Json>;

/// A `serde_json::Value`, opened one level deep.
pub(crate) enum ParsedNode {
    Null,
    Bool(bool),
    Number,
    Text(String),
    Array(Vec<serde_json::Value>),
    Object(Vec<(String, serde_json::Value)>),
}

/// The elements of a parsed array.
pub open spec fn parsed_items(items: Seq<serde_json::Value>) -> Seq<Json> {
    items.map_values(|v: serde_json::Value| value_json(v))
}

/// The members of a parsed object.
pub open spec fn parsed_members(members: Seq<(String, serde_json::Value)>) -> Seq<
    (Seq<char>, Json),
> {
    members.map_values(|m: (String, serde_json::Value)| (m.0@, value_json(m.1)))
}

impl ParsedNode {
    /// Whether `json` is a value that the node stands for.
    pub(crate) open spec fn stands_for(self, json: Json) -> bool {
        match self {
            ParsedNode::Null => json == Json::Null,
            ParsedNode::Bool(b) => json == Json::Bool(b),
            ParsedNode::Number => json is Number,
            ParsedNode::Text(t) => json == Json::Text(t@),
            ParsedNode::Array(items) => json == Json::Array(parsed_items(items@)),
            ParsedNode::Object(members) => {
                &&& json == object(parsed_members(members@))
                &&& distinct_keys(parsed_members(members@))
            },
        }
    }
}

/// Calls `serde_json::from_str` for a `serde_json::Value`. What it reads, and
/// whether it reads anything, depends on the text alone.
#[verifier::external_body]
fn read_value(text: &str) -> (value: Option<serde_json::Value>)
    ensures
        match value {
            Some(v) => parsed_json(text@) == Some(value_json(v)),
            None => parsed_json(text@) is None,
        },
{
    serde_json::from_str(text).ok()
}

/// Tells the variants of `serde_json::Value` apart. The node holds what the
/// value held: the elements of an array in order; the members of an object,
/// each key once. Of a number it says only that it is one.
#[verifier::external_body]
fn open_value(value: serde_json::Value) -> (node: ParsedNode)
    ensures
        node.stands_for(value_json(value)),
{
    match value {
        serde_json::Value::Null => ParsedNode::Null,
        serde_json::Value::Bool(b) => ParsedNode::Bool(b),
        serde_json::Value::Number(_) => ParsedNode::Number,
        serde_json::Value::String(s) => ParsedNode::Text(s),
        serde_json::Value::Array(items) => ParsedNode::Array(items),
        serde_json::Value::Object(members) => ParsedNode::Object(members.into_iter().collect()),
    }
}

/// Calls `serde_json::Value::as_u64`, which gives the integers from zero up.
#[verifier::external_body]
fn value_as_u64(value: &serde_json::Value) -> (n: Option<u64>)
    ensures
        n == match value_json(*value) {
            Json::Number(JsonNumber::PosInt(n)) => Some(n),
            _ => None,
        },
{
    value.as_u64()
}

/// Calls `serde_json::Value::as_i64`, which gives the integers that 64 bits
/// with a sign can hold.
#[verifier::external_body]
fn value_as_i64(value: &serde_json::Value) -> (n: Option<i64>)
    ensures
        match n {
            Some(n) => value_json(*value).int64() == Some(n as int),
            None => value_json(*value).int64() is None,
        },
{
    value.as_i64()
}

/// Calls `serde_json::Value::as_f64` and takes the bits of its result. It gives
/// a number for each number; one that is no integer as it is. Which number it
/// gives for an integer is left unsaid.
#[verifier::external_body]
fn value_as_float(value: &serde_json::Value) -> (bits: Option<u64>)
    ensures
        bits is Some == value_json(*value) is Number,
        value_json(*value) matches Json::Number(JsonNumber::Float(b)) ==> bits == Some(b),
{
    value.as_f64().map(|number| number.to_bits())
}

/// The number that a parsed value is, if it is one.
fn parsed_number(value: &serde_json::Value) -> (number: Option<JsonNumber>)
    ensures
        number == match value_json(*value) {
            Json::Number(n) => Some(n),
            _ => None,
        },
{
    match (value_as_u64(value), value_as_i64(value), value_as_float(value)) {
        (Some(n), _, _) => Some(JsonNumber::PosInt(n)),
        (None, Some(n), _) => Some(JsonNumber::NegInt(n)),
        (None, None, Some(bits)) => Some(JsonNumber::Float(bits)),
        (None, None, None) => None,
    }
}

/// Rewrites a parsed value.
fn from_parsed(value: serde_json::Value) -> (json: JsonValue)
    ensures
        json@ == value_json(value),
    decreases value_json(value),
{
    if let Some(n) = parsed_number(&value) {
        return JsonValue::Number(n);
    }
    match open_value(value) {
        ParsedNode::Null => JsonValue::Null,
        ParsedNode::Bool(b) => JsonValue::Bool(b),
        ParsedNode::Number => vstd::pervasive::unreached(),
        ParsedNode::Text(t) => JsonValue::Text(t),
        ParsedNode::Array(items) => {
            let ghost all = items@;
            let ghost items_json = parsed_items(all);
            let mut copies: Vec<JsonValue> = Vec::new();
            assert(array_items(copies@) =~= items_json.take(0));
            for item in it: items
                invariant
                    it.seq() == all,
                    items_json == parsed_items(all),
                    value_json(value) == Json::Array(items_json),
                    array_items(copies@) == items_json.take(it.index()),
            {
                let ghost i = it.index();
                proof {
                    assert(item == all[i]);
                    assert(value_json(item) == items_json[i]);
                    assert(decreases_to!(value_json(value) => value_json(value)->Array_0));
                    assert(decreases_to!(items_json => items_json[i]));
                }
                let copy = from_parsed(item);
                proof {
                    assert(copies@.push(copy).drop_last() =~= copies@);
                    assert(items_json.take(i + 1) =~= items_json.take(i).push(copy@));
                }
                copies.push(copy);
            }
            assert(items_json.take(items_json.len() as int) =~= items_json);
            JsonValue::Array(copies)
        },
        ParsedNode::Object(members) => {
            let ghost all = members@;
            let ghost pairs = parsed_members(all);
            let mut copies: Vec<(String, JsonValue)> = Vec::new();
            assert(member_pairs(copies@) =~= pairs.take(0));
            for member in it: members
                invariant
                    it.seq() == all,
                    pairs == parsed_members(all),
                    value_json(value) == object(pairs),
                    distinct_keys(pairs),
                    member_pairs(copies@) == pairs.take(it.index()),
            {
                let ghost i = it.index();
                let (key, inner) = member;
                proof {
                    assert((key, inner) == all[i]);
                    assert(pairs[i] == (key@, value_json(inner)));
                    lemma_members_finite(pairs);
                    lemma_member_at(pairs, i);
                    assert(decreases_to!(value_json(value) => value_json(value)->Object_0));
                    assert(decreases_to!(members_map(pairs) => members_map(pairs)[key@]));
                }
                let copy = from_parsed(inner);
                proof {
                    assert(member_pairs(copies@.push((key, copy))) =~= member_pairs(copies@).push(
                        (key@, copy@),
                    ));
                    assert(pairs.take(i + 1) =~= pairs.take(i).push((key@, copy@)));
                }
                copies.push((key, copy));
            }
            proof {
                assert(pairs.take(pairs.len() as int) =~= pairs);
                lemma_object_members(copies@);
            }
            JsonValue::Object(copies)
        },
    }
}

/// The JSON value that `text` is, or `None` where it is no JSON document.
pub fn parse_json(text: &str) -> (value: Option<JsonValue>)
    ensures
        match value {
            Some(v) => parsed_json(text@) == Some(v@),
            None => parsed_json(text@) is None,
        },
{
    match read_value(text) {
        Some(v) => Some(from_parsed(v)),
        None => None,
    }
}

} // verus!
