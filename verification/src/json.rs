//! JSON values as plain data.
//!
//! A [`Json`] holds what a `serde_json::Value` holds, in a form that contracts
//! can speak of; its view has the members of an object as a map. Reading and
//! printing JSON text is `serde_json`'s work: the contracts name its results
//! ([`parsed_json`], [`json_text`], [`schema_text`]) and say nothing of the grammar.
use crate::text::{same_text, trim_start, views};
use vstd::prelude::*;

verus! {

/// The numbers of `serde_json`, carried through unread.
#[verifier::external_type_specification]
#[verifier::external_body]
pub struct ExNumber(serde_json::Number);

/// A value of `serde_json`, as its parser builds it and its printer takes it.
#[verifier::external_type_specification]
#[verifier::external_body]
pub struct ExValue(serde_json::Value);

/// A JSON value.
pub enum Json {
    /// Nothing.
    Null,
    /// A truth value.
    Bool(bool),
    /// A number.
    Number(serde_json::Number),
    /// A string.
    Str(String),
    /// A list.
    Array(Vec<Json>),
    /// Members by name; of two with the same name the later counts.
    Object(Vec<(String, Json)>),
}

/// The view of a [`Json`]. The members of an object have no order.
pub enum JsonView {
    Null,
    Bool(bool),
    Number(serde_json::Number),
    Str(Seq<char>),
    Array(Seq<JsonView>),
    Object(Map<Seq<char>, JsonView>),
}

/// What a JSON value holds.
pub open spec fn json_view(json: Json) -> JsonView
    decreases json,
{
    match json {
        Json::Null => JsonView::Null,
        Json::Bool(b) => JsonView::Bool(b),
        Json::Number(n) => JsonView::Number(n),
        Json::Str(s) => JsonView::Str(s@),
        Json::Array(items) => JsonView::Array(items_view(items@)),
        Json::Object(entries) => JsonView::Object(entries_view(entries@)),
    }
}

/// What the items of a list hold.
pub open spec fn items_view(items: Seq<Json>) -> Seq<JsonView>
    decreases items,
{
    if items.len() == 0 {
        Seq::empty()
    } else {
        items_view(items.drop_last()).push(json_view(items.last()))
    }
}

/// The members that a list of entries gives.
pub open spec fn entries_view(entries: Seq<(String, Json)>) -> Map<Seq<char>, JsonView>
    decreases entries,
{
    if entries.len() == 0 {
        Map::empty()
    } else {
        entries_view(entries.drop_last()).insert(entries.last().0@, json_view(entries.last().1))
    }
}

impl View for Json {
    type V = JsonView;

    open spec fn view(&self) -> JsonView {
        json_view(*self)
    }
}

/// What a value of `serde_json` holds.
pub uninterp spec fn value_tree(value: serde_json::Value) -> JsonView;

/// What `serde_json::from_str` reads from a text, or the message of its error.
pub uninterp spec fn parsed_json(text: Seq<char>) -> Result<JsonView, Seq<char>>;

/// What `Value::to_string` of `serde_json` prints of a value: its compact JSON text.
pub uninterp spec fn json_text(tree: JsonView) -> Seq<char>;

/// What `serde_json::to_string` prints of the `Schema` of `schemars` that holds
/// a value: the value's JSON text, with the keywords of a schema in an order of
/// their own.
pub uninterp spec fn schema_text(tree: JsonView) -> Seq<char>;

/// What `Number::as_u64` of `serde_json` gives.
pub uninterp spec fn number_as_u64(number: serde_json::Number) -> Option<u64>;

/// `Number::as_u64` of `serde_json` depends on the number alone.
pub assume_specification[ serde_json::Number::as_u64 ](number: &serde_json::Number) -> (value:
    Option<u64>)
    ensures
        value == number_as_u64(*number),
;

/// `Number::clone` of `serde_json` copies the number.
pub assume_specification[ <serde_json::Number as Clone>::clone ](
    number: &serde_json::Number,
) -> (copy: serde_json::Number)
    ensures
        copy == *number,
;

/// Turns a `serde_json::Value` into a [`Json`] that holds the same, variant by
/// variant; a `Value` is opaque, so what it holds is only named.
#[verifier::external_body]
fn json_of_value(value: serde_json::Value) -> (json: Json)
    ensures
        json@ == value_tree(value),
{
    match value {
        serde_json::Value::Null => Json::Null,
        serde_json::Value::Bool(b) => Json::Bool(b),
        serde_json::Value::Number(n) => Json::Number(n),
        serde_json::Value::String(s) => Json::Str(s),
        serde_json::Value::Array(items) => Json::Array(items.into_iter().map(json_of_value).collect()),
        serde_json::Value::Object(map) => Json::Object(
            map.into_iter().map(|(key, item)| (key, json_of_value(item))).collect(),
        ),
    }
}

/// Turns a [`Json`] into a `serde_json::Value` that holds the same, variant by
/// variant. `serde_json`'s map keeps the later of two members with the same
/// name, as the view does.
#[verifier::external_body]
fn value_of_json(json: &Json) -> (value: serde_json::Value)
    ensures
        value_tree(value) == json@,
{
    match json {
        Json::Null => serde_json::Value::Null,
        Json::Bool(b) => serde_json::Value::Bool(*b),
        Json::Number(n) => serde_json::Value::Number(n.clone()),
        Json::Str(s) => serde_json::Value::String(s.clone()),
        Json::Array(items) => serde_json::Value::Array(items.iter().map(value_of_json).collect()),
        Json::Object(entries) => serde_json::Value::Object(
            entries.iter().map(|(key, item)| (key.clone(), value_of_json(item))).collect(),
        ),
    }
}

/// Whether `s` is nothing but the white space that JSON knows.
pub open spec fn blank(s: Seq<char>) -> bool {
    forall|i: int|
        0 <= i < s.len() ==> #[trigger] s[i] == ' ' || s[i] == '\n' || s[i] == '\t' || s[i] == '\r'
}

/// Whether `text` starts with an opening brace, white space aside.
pub open spec fn opens_object(text: Seq<char>) -> bool {
    trim_start(text).len() > 0 && trim_start(text)[0] == '{'
}

/// Whether a longer text that starts with `text` can be read only where the
/// rest of it is blank.
pub open spec fn read_to_its_end(text: Seq<char>) -> bool {
    forall|rest: Seq<char>| (#[trigger] parsed_json(text + rest)) is Ok ==> blank(rest)
}

/// `serde_json::from_str` reads a value, or fails with a message; both depend
/// on the text alone. It reads an object up to the brace that closes it and
/// fails where anything but white space follows, so that a text from which it
/// reads an object is the start of no other, white space aside.
#[verifier::external_body]
fn value_from_str(text: &str) -> (value: Result<serde_json::Value, String>)
    ensures
        match value {
            Ok(value) => parsed_json(text@) == Ok::<JsonView, Seq<char>>(value_tree(value)) && (
            opens_object(text@) ==> read_to_its_end(text@)),
            Err(message) => parsed_json(text@) == Err::<JsonView, Seq<char>>(message@),
        },
{
    serde_json::from_str(text).map_err(|e| e.to_string())
}

/// `Value::to_string` of `serde_json`: the text depends on what the value holds
/// alone. Its objects are sorted by name, as its feature `preserve_order` is off.
#[verifier::external_body]
fn value_to_string(value: &serde_json::Value) -> (text: String)
    ensures
        text@ == json_text(value_tree(*value)),
{
    value.to_string()
}

/// `serde_json::to_string` of a `Schema` of `schemars`: the text depends on what
/// the schema holds alone, which is an object or a boolean.
#[verifier::external_body]
fn schema_to_string(value: &serde_json::Value) -> (text: String)
    requires
        value_tree(*value) is Object || value_tree(*value) is Bool,
    ensures
        text@ == schema_text(value_tree(*value)),
{
    let schema = <&schemars::Schema>::try_from(value).unwrap();
    serde_json::to_string(schema).unwrap()
}

/// Reads JSON text.
pub fn parse_json(text: &str) -> (json: Result<Json, String>)
    ensures
        match json {
            Ok(json) => parsed_json(text@) == Ok::<JsonView, Seq<char>>(json@) && (opens_object(
                text@,
            ) ==> read_to_its_end(text@)),
            Err(message) => parsed_json(text@) == Err::<JsonView, Seq<char>>(message@),
        },
{
    match value_from_str(text) {
        Ok(value) => Ok(json_of_value(value)),
        Err(message) => Err(message),
    }
}

impl Json {
    /// Prints the value as compact JSON text.
    pub fn print(&self) -> (text: String)
        ensures
            text@ == json_text(self@),
    {
        value_to_string(&value_of_json(self))
    }

    /// Prints the value as the text of a JSON schema.
    pub fn print_schema(&self) -> (text: String)
        requires
            self@ is Object || self@ is Bool,
        ensures
            text@ == schema_text(self@),
    {
        schema_to_string(&value_of_json(self))
    }
}

impl JsonView {
    /// The member of an object under `key`.
    pub open spec fn get(self, key: Seq<char>) -> Option<JsonView> {
        match self {
            JsonView::Object(members) if members.contains_key(key) => Some(members[key]),
            _ => None,
        }
    }

    /// The characters of a string.
    pub open spec fn as_str(self) -> Option<Seq<char>> {
        match self {
            JsonView::Str(text) => Some(text),
            _ => None,
        }
    }

    /// The items of an array.
    pub open spec fn as_array(self) -> Option<Seq<JsonView>> {
        match self {
            JsonView::Array(items) => Some(items),
            _ => None,
        }
    }

    /// The truth value of a boolean.
    pub open spec fn as_bool(self) -> Option<bool> {
        match self {
            JsonView::Bool(b) => Some(b),
            _ => None,
        }
    }

    /// The value of a non-negative integer that fits in 64 bits.
    pub open spec fn as_u64(self) -> Option<u64> {
        match self {
            JsonView::Number(number) => number_as_u64(number),
            _ => None,
        }
    }

    /// The string member of an object under `key`.
    pub open spec fn get_str(self, key: Seq<char>) -> Option<Seq<char>> {
        match self.get(key) {
            Some(member) => member.as_str(),
            None => None,
        }
    }

    /// The array member of an object under `key`.
    pub open spec fn get_array(self, key: Seq<char>) -> Option<Seq<JsonView>> {
        match self.get(key) {
            Some(member) => member.as_array(),
            None => None,
        }
    }

    /// The object member of an object under `key`.
    pub open spec fn get_object(self, key: Seq<char>) -> Option<JsonView> {
        match self.get(key) {
            Some(member) if member is Object => Some(member),
            _ => None,
        }
    }
}

/// The views of the items of an array are the view of the array.
pub proof fn lemma_items_view(items: Seq<Json>)
    ensures
        items_view(items) == views(items),
    decreases items.len(),
{
    if items.len() > 0 {
        lemma_items_view(items.drop_last());
    }
    assert(items_view(items) =~= views(items));
}

impl Clone for Json {
    fn clone(&self) -> (copy: Self)
        ensures
            copy@ == self@,
        decreases self,
    {
        match self {
            Json::Null => Json::Null,
            Json::Bool(b) => Json::Bool(*b),
            Json::Number(number) => Json::Number(number.clone()),
            Json::Str(text) => Json::Str(text.clone()),
            Json::Array(items) => {
                let mut copies: Vec<Json> = Vec::new();
                let mut i: usize = 0;
                while i < items.len()
                    invariant
                        i <= items@.len(),
                        *self == Json::Array(*items),
                        items_view(copies@) == items_view(items@.take(i as int)),
                    decreases items@.len() - i,
                {
                    assert(decreases_to!(*self => self->Array_0));
                    assert(decreases_to!(*items => items@));
                    assert(decreases_to!(items@ => items@[i as int]));
                    let item = items[i].clone();
                    let ghost before = copies@;
                    copies.push(item);
                    assert(copies@.drop_last() =~= before);
                    assert(items@.take(i + 1).drop_last() =~= items@.take(i as int));
                    i = i + 1;
                }
                assert(items@.take(i as int) =~= items@);
                Json::Array(copies)
            },
            Json::Object(entries) => {
                let mut copies: Vec<(String, Json)> = Vec::new();
                let mut i: usize = 0;
                while i < entries.len()
                    invariant
                        i <= entries@.len(),
                        *self == Json::Object(*entries),
                        entries_view(copies@) == entries_view(entries@.take(i as int)),
                    decreases entries@.len() - i,
                {
                    let entry = &entries[i];
                    assert(decreases_to!(*self => self->Object_0));
                    assert(decreases_to!(*entries => entries@));
                    assert(decreases_to!(entries@ => entries@[i as int]));
                    assert(decreases_to!(entries@[i as int] => entries@[i as int].1));
                    let item = entry.1.clone();
                    let ghost before = copies@;
                    copies.push((entry.0.clone(), item));
                    assert(copies@.drop_last() =~= before);
                    assert(entries@.take(i + 1).drop_last() =~= entries@.take(i as int));
                    i = i + 1;
                }
                assert(entries@.take(i as int) =~= entries@);
                Json::Object(copies)
            },
        }
    }
}

impl Json {
    /// An object without members.
    pub fn empty_object() -> (json: Json)
        ensures
            json@ == JsonView::Object(Map::empty()),
    {
        Json::Object(Vec::new())
    }

    /// This object with the member `key` set to `value`.
    pub fn with(self, key: &str, value: Json) -> (json: Json)
        requires
            self is Object,
        ensures
            json is Object,
            json@ == JsonView::Object(self@->Object_0.insert(key@, value@)),
    {
        match self {
            Json::Object(entries) => {
                let mut extended = entries;
                extended.push((key.to_owned(), value));
                assert(extended@.drop_last() =~= entries@);
                Json::Object(extended)
            },
            other => other,
        }
    }

    /// The member of an object under `key`.
    pub fn get(&self, key: &str) -> (member: Option<&Json>)
        ensures
            match member {
                Some(member) => self@.get(key@) == Some(member@),
                None => self@.get(key@) is None,
            },
    {
        match self {
            Json::Object(entries) => {
                let mut i: usize = entries.len();
                assert(entries@.take(i as int) =~= entries@);
                while i > 0
                    invariant
                        i <= entries@.len(),
                        self@ == JsonView::Object(entries_view(entries@)),
                        JsonView::Object(entries_view(entries@.take(i as int))).get(key@)
                            == JsonView::Object(entries_view(entries@)).get(key@),
                    decreases i,
                {
                    let entry = &entries[i - 1];
                    assert(entries@.take(i as int).drop_last() =~= entries@.take(i - 1));
                    if same_text(entry.0.as_str(), key) {
                        return Some(&entry.1);
                    }
                    i = i - 1;
                }
                None
            },
            _ => None,
        }
    }

    /// The text of a string.
    pub fn as_str(&self) -> (text: Option<&String>)
        ensures
            match text {
                Some(text) => self@.as_str() == Some(text@),
                None => self@.as_str() is None,
            },
    {
        match self {
            Json::Str(text) => Some(text),
            _ => None,
        }
    }

    /// The items of an array.
    pub fn as_array(&self) -> (items: Option<&Vec<Json>>)
        ensures
            match items {
                Some(items) => self@.as_array() == Some(views(items@)),
                None => self@.as_array() is None,
            },
    {
        match self {
            Json::Array(items) => {
                proof {
                    lemma_items_view(items@);
                }
                Some(items)
            },
            _ => None,
        }
    }

    /// The truth value of a boolean.
    pub fn as_bool(&self) -> (value: Option<bool>)
        ensures
            value == self@.as_bool(),
    {
        match self {
            Json::Bool(b) => Some(*b),
            _ => None,
        }
    }

    /// The value of a non-negative integer that fits in 64 bits.
    pub fn as_u64(&self) -> (value: Option<u64>)
        ensures
            value == self@.as_u64(),
    {
        match self {
            Json::Number(number) => number.as_u64(),
            _ => None,
        }
    }

    /// Whether the value is an object.
    pub fn is_object(&self) -> (object: bool)
        ensures
            object == (self@ is Object),
    {
        matches!(self, Json::Object(_))
    }

    /// The string member of an object under `key`.
    pub fn get_str(&self, key: &str) -> (text: Option<&String>)
        ensures
            match text {
                Some(text) => self@.get_str(key@) == Some(text@),
                None => self@.get_str(key@) is None,
            },
    {
        match self.get(key) {
            Some(member) => member.as_str(),
            None => None,
        }
    }

    /// The array member of an object under `key`.
    pub fn get_array(&self, key: &str) -> (items: Option<&Vec<Json>>)
        ensures
            match items {
                Some(items) => self@.get_array(key@) == Some(views(items@)),
                None => self@.get_array(key@) is None,
            },
    {
        match self.get(key) {
            Some(member) => member.as_array(),
            None => None,
        }
    }

    /// The object member of an object under `key`.
    pub fn get_object(&self, key: &str) -> (object: Option<&Json>)
        ensures
            match object {
                Some(object) => self@.get_object(key@) == Some(object@),
                None => self@.get_object(key@) is None,
            },
    {
        match self.get(key) {
            Some(member) => if member.is_object() {
                Some(member)
            } else {
                None
            },
            None => None,
        }
    }
}

/// The member of an object under a name is the value of the last entry with that
/// name; an object without such an entry has none, and neither has any other value.
pub proof fn law_the_last_member_of_a_name_counts(
    entries: Vec<(String, Json)>,
    key: Seq<char>,
    i: int,
)
    ensures
        0 <= i < entries@.len() && entries@[i].0@ == key && (forall|j: int|
            i < j < entries@.len() ==> (#[trigger] entries@[j]).0@ != key) ==> Json::Object(
            entries,
        )@.get(key) == Some(entries@[i].1@),
        (forall|j: int| 0 <= j < entries@.len() ==> (#[trigger] entries@[j]).0@ != key)
            ==> Json::Object(entries)@.get(key) is None,
{
    lemma_members(entries@, key, i);
}

/// Which member a list of entries gives under a name.
proof fn lemma_members(entries: Seq<(String, Json)>, key: Seq<char>, i: int)
    ensures
        0 <= i < entries.len() && entries[i].0@ == key && (forall|j: int|
            i < j < entries.len() ==> (#[trigger] entries[j]).0@ != key) ==> entries_view(
            entries,
        ).contains_key(key) && entries_view(entries)[key] == json_view(entries[i].1),
        (forall|j: int| 0 <= j < entries.len() ==> (#[trigger] entries[j]).0@ != key)
            ==> !entries_view(entries).contains_key(key),
    decreases entries.len(),
{
    if entries.len() > 0 {
        let before = entries.drop_last();
        lemma_members(before, key, i);
        assert(forall|j: int| 0 <= j < before.len() ==> before[j] == #[trigger] entries[j]);
        assert(entries[entries.len() - 1] == entries.last());
    }
}

/// A value holds what it was made from, and reading it as one kind gives nothing
/// where it is of another.
pub proof fn law_values_are_read_as_their_kind(value: JsonView, key: Seq<char>)
    ensures
        value.as_str() is Some <==> value is Str,
        value.as_array() is Some <==> value is Array,
        value.as_bool() is Some <==> value is Bool,
        value matches JsonView::Str(text) ==> value.as_str() == Some(text),
        value matches JsonView::Array(items) ==> value.as_array() == Some(items),
        value matches JsonView::Bool(b) ==> value.as_bool() == Some(b),
        value matches JsonView::Number(number) ==> value.as_u64() == number_as_u64(number),
        !(value is Number) ==> value.as_u64() is None,
        !(value is Object) ==> value.get(key) is None,
        value matches JsonView::Object(members) ==> (value.get(key) is Some
            <==> members.contains_key(key)),
        value matches JsonView::Object(members) ==> (value.get(key) is Some ==> value.get(key)->0
            == members[key]),
        value.get_str(key) is Some <==> value.get(key) is Some && value.get(key)->0 is Str,
        value.get_str(key) is Some ==> JsonView::Str(value.get_str(key)->0) == value.get(key)->0,
        value.get_array(key) is Some <==> value.get(key) is Some && value.get(key)->0 is Array,
        value.get_array(key) is Some ==> JsonView::Array(value.get_array(key)->0) == value.get(
            key,
        )->0,
        value.get_object(key) is Some <==> value.get(key) is Some && value.get(key)->0 is Object,
        value.get_object(key) is Some ==> value.get_object(key) == value.get(key),
{
}

/// A list holds what its items hold, in order.
pub proof fn law_lists_hold_their_items(items: Vec<Json>)
    ensures
        Json::Array(items)@ matches JsonView::Array(held) && held.len() == items@.len() && forall|
            k: int,
        |
            0 <= k < items@.len() ==> #[trigger] held[k] == items@[k]@,
{
    lemma_items_view(items@);
}

}
