//! JSON values, as the supervisor reads and writes them.

use std::collections::BTreeMap;

use serde_json::value::RawValue;
use serde_json::{from_slice, Value};
use vstd::prelude::*;
use vstd::string::*;
use vstd::utf8::*;

use crate::error::Error;
use crate::text::{opt_str, same, texts};

verus! {

/// A JSON value.
#[derive(Debug)]
pub enum Json {
    Null,
    Bool(bool),
    /// A whole number.
    Integer(i128),
    /// Any other number, by its text.
    Decimal(String),
    Text(String),
    Array(Vec<Json>),
    Object(Vec<JsonField>),
}

/// One member of a JSON object.
#[derive(Debug)]
pub struct JsonField {
    pub key: String,
    pub value: Json,
}

/// What a JSON value is.
pub enum JsonView {
    Null,
    Bool(bool),
    Integer(int),
    Decimal(Seq<char>),
    Text(Seq<char>),
    Array(Seq<JsonView>),
    Object(Seq<(Seq<char>, JsonView)>),
}

impl Json {
    pub open spec fn view(&self) -> JsonView
        decreases self,
    {
        match self {
            Json::Null => JsonView::Null,
            Json::Bool(value) => JsonView::Bool(*value),
            Json::Integer(value) => JsonView::Integer(*value as int),
            Json::Decimal(text) => JsonView::Decimal(text@),
            Json::Text(text) => JsonView::Text(text@),
            Json::Array(items) => JsonView::Array(
                Seq::new(
                    items@.len(),
                    |i: int|
                        if 0 <= i < items@.len() {
                            items@[i].view()
                        } else {
                            JsonView::Null
                        },
                ),
            ),
            Json::Object(fields) => JsonView::Object(
                Seq::new(
                    fields@.len(),
                    |i: int|
                        if 0 <= i < fields@.len() {
                            (fields@[i].key@, fields@[i].value.view())
                        } else {
                            (Seq::empty(), JsonView::Null)
                        },
                ),
            ),
        }
    }
}

/// The place of the first member of `fields` that is named `key`, searched from `from` on.
pub open spec fn place_from(
    fields: Seq<(Seq<char>, JsonView)>,
    key: Seq<char>,
    from: int,
) -> Option<
    int,
>
    decreases fields.len() - from,
{
    if from < 0 || from >= fields.len() {
        None
    } else if fields[from].0 == key {
        Some(from)
    } else {
        place_from(fields, key, from + 1)
    }
}

/// The value of the member of `fields` that is named `key`.
pub open spec fn member_of(fields: Seq<(Seq<char>, JsonView)>, key: Seq<char>) -> Option<JsonView> {
    match place_from(fields, key, 0) {
        Some(i) => Some(fields[i].1),
        None => None,
    }
}

/// `fields` with the member named `key` set to `value`: in its place where there is one, else at
/// the end.
pub open spec fn with_member(
    fields: Seq<(Seq<char>, JsonView)>,
    key: Seq<char>,
    value: JsonView,
) -> Seq<(Seq<char>, JsonView)> {
    match place_from(fields, key, 0) {
        Some(i) => fields.update(i, (key, value)),
        None => fields.push((key, value)),
    }
}

proof fn lemma_place_in_range(fields: Seq<(Seq<char>, JsonView)>, key: Seq<char>, from: int)
    requires
        0 <= from,
    ensures
        place_from(fields, key, from) matches Some(i) ==> from <= i < fields.len() && fields[i].0
            == key,
        place_from(fields, key, from) is Some <==> exists|i: int|
            from <= i < fields.len() && #[trigger] fields[i].0 == key,
        forall|j: int|
            from <= j < fields.len() && (place_from(fields, key, from) matches Some(i) ==> j < i)
                ==> #[trigger] fields[j].0 != key,
    decreases fields.len() - from,
{
    if from < fields.len() && fields[from].0 != key {
        lemma_place_in_range(fields, key, from + 1);
    }
}

proof fn lemma_place_is(fields: Seq<(Seq<char>, JsonView)>, key: Seq<char>, from: int, place: int)
    requires
        0 <= from <= place < fields.len(),
        fields[place].0 == key,
        forall|j: int| from <= j < place ==> #[trigger] fields[j].0 != key,
    ensures
        place_from(fields, key, from) == Some(place),
    decreases place - from,
{
    if from < place {
        lemma_place_is(fields, key, from + 1, place);
    }
}

/// A member that was set is read back, and every other member is as it was.
pub proof fn law_set_member_is_read_back(
    fields: Seq<(Seq<char>, JsonView)>,
    key: Seq<char>,
    value: JsonView,
    other: Seq<char>,
)
    ensures
        member_of(with_member(fields, key, value), key) == Some(value),
        other != key ==> member_of(with_member(fields, key, value), other) == member_of(
            fields,
            other,
        ),
{
    let after = with_member(fields, key, value);
    lemma_place_in_range(fields, key, 0);
    match place_from(fields, key, 0) {
        Some(i) => {
            assert(after[i].0 == key);
            assert forall|j: int| 0 <= j < i implies #[trigger] after[j].0 != key by {
                assert(fields[j].0 != key);
            }
            lemma_place_is(after, key, 0, i);
        },
        None => {
            let last = fields.len() as int;
            assert(after[last].0 == key);
            assert forall|j: int| 0 <= j < last implies #[trigger] after[j].0 != key by {
                assert(fields[j].0 != key);
            }
            lemma_place_is(after, key, 0, last);
        },
    }
    if other != key {
        lemma_place_in_range(fields, other, 0);
        lemma_place_in_range(after, other, 0);
        match place_from(fields, other, 0) {
            Some(i) => {
                assert(after[i].0 == other);
                assert forall|j: int| 0 <= j < i implies #[trigger] after[j].0 != other by {
                    assert(fields[j].0 != other);
                }
                lemma_place_is(after, other, 0, i);
            },
            None => {
                if let Some(i) = place_from(after, other, 0) {
                    assert(after[i].0 == other);
                    if i < fields.len() {
                        assert(fields[i].0 == other);
                    }
                }
            },
        }
    }
}

/// What the members of an object are.
pub open spec fn fields_view(fields: Seq<JsonField>) -> Seq<(Seq<char>, JsonView)> {
    Seq::new(fields.len(), |i: int| (fields[i].key@, fields[i].value@))
}

/// What the items of an array are.
pub open spec fn items_view(items: Seq<Json>) -> Seq<JsonView> {
    Seq::new(items.len(), |i: int| items[i]@)
}

/// The members of a value that is an object.
pub open spec fn object_of(value: JsonView) -> Option<Seq<(Seq<char>, JsonView)>> {
    match value {
        JsonView::Object(fields) => Some(fields),
        _ => None,
    }
}

/// The items of a value that is an array.
pub open spec fn array_of(value: JsonView) -> Option<Seq<JsonView>> {
    match value {
        JsonView::Array(items) => Some(items),
        _ => None,
    }
}

/// The text of a value that is a string.
pub open spec fn text_of(value: JsonView) -> Option<Seq<char>> {
    match value {
        JsonView::Text(text) => Some(text),
        _ => None,
    }
}

/// The value of the member named `key`, where `value` is an object that has it.
pub open spec fn get_of(value: JsonView, key: Seq<char>) -> Option<JsonView> {
    match value {
        JsonView::Object(fields) => member_of(fields, key),
        _ => None,
    }
}

/// The text of the member named `key`, where `value` is an object that has it as a string.
pub open spec fn text_at(value: JsonView, key: Seq<char>) -> Option<Seq<char>> {
    match get_of(value, key) {
        Some(member) => text_of(member),
        None => None,
    }
}

/// The place of the first member of `fields` that is named `key`.
pub fn find_member(fields: &Vec<JsonField>, key: &str) -> (r: Option<usize>)
    ensures
        match r {
            Some(i) => i < fields@.len() && place_from(fields_view(fields@), key@, 0) == Some(
                i as int,
            ),
            None => place_from(fields_view(fields@), key@, 0) is None,
        },
{
    let mut i: usize = 0;
    while i < fields.len()
        invariant
            i <= fields@.len(),
            forall|j: int| 0 <= j < i ==> (#[trigger] fields_view(fields@)[j]).0 != key@,
        decreases fields.len() - i,
    {
        assert(fields_view(fields@)[i as int].0 == fields@[i as int].key@);
        if same(fields[i].key.as_str(), key) {
            proof {
                lemma_place_is(fields_view(fields@), key@, 0, i as int);
            }
            return Some(i);
        }
        i += 1;
    }
    proof {
        lemma_place_in_range(fields_view(fields@), key@, 0);
    }
    None
}

/// Sets the member of `fields` that is named `key`.
pub fn set_member(fields: &mut Vec<JsonField>, key: &str, value: Json)
    ensures
        fields_view(final(fields)@) == with_member(fields_view(old(fields)@), key@, value@),
{
    let ghost before = fields_view(fields@);
    let field = JsonField { key: key.to_owned(), value };
    match find_member(fields, key) {
        Some(i) => {
            fields.set(i, field);
            assert(fields_view(fields@) == before.update(i as int, (key@, value@)));
        },
        None => {
            fields.push(field);
            assert(fields_view(fields@) == before.push((key@, value@)));
        },
    }
}

/// `value` with the member named `key` set to `member`, where `value` can have members: an object,
/// or nothing at all.
pub open spec fn with_value(value: JsonView, key: Seq<char>, member: JsonView) -> JsonView {
    match value {
        JsonView::Object(fields) => JsonView::Object(with_member(fields, key, member)),
        _ => JsonView::Object(seq![(key, member)]),
    }
}

/// Whether `value` can have members.
pub open spec fn takes_members(value: JsonView) -> bool {
    value is Object || value is Null
}

/// A member of an object.
pub fn field(key: &str, value: Json) -> (r: JsonField)
    ensures
        r.key@ == key@,
        r.value@ == value@,
{
    JsonField { key: key.to_owned(), value }
}

impl Json {
    /// A JSON string.
    pub fn text(text: &str) -> (r: Json)
        ensures
            r@ == JsonView::Text(text@),
    {
        Json::Text(text.to_owned())
    }

    /// A JSON object of these members.
    pub fn object(fields: Vec<JsonField>) -> (r: Json)
        ensures
            r@ == JsonView::Object(fields_view(fields@)),
    {
        let r = Json::Object(fields);
        assert(r@->Object_0 == fields_view(fields@));
        r
    }

    /// A JSON array of these items.
    pub fn array(items: Vec<Json>) -> (r: Json)
        ensures
            r@ == JsonView::Array(items_view(items@)),
    {
        let r = Json::Array(items);
        assert(r@->Array_0 == items_view(items@));
        r
    }

    /// This value with the member named `key` set.
    pub fn with(self, key: &str, member: Json) -> (r: Json)
        requires
            takes_members(self@),
        ensures
            r@ == with_value(self@, key@, member@),
    {
        match self {
            Json::Object(fields) => {
                assert(self@->Object_0 == fields_view(fields@));
                let mut fields = fields;
                set_member(&mut fields, key, member);
                Json::object(fields)
            },
            _ => {
                let mut fields: Vec<JsonField> = Vec::new();
                fields.push(field(key, member));
                assert(fields_view(fields@) =~= seq![(key@, member@)]);
                Json::object(fields)
            },
        }
    }

    /// The members, where this is an object.
    pub fn as_object(&self) -> (r: Option<&Vec<JsonField>>)
        ensures
            match r {
                Some(fields) => object_of(self@) == Some(fields_view(fields@)),
                None => object_of(self@) is None,
            },
    {
        match self {
            Json::Object(fields) => {
                assert(self@->Object_0 == fields_view(fields@));
                Some(fields)
            },
            _ => None,
        }
    }

    /// The items, where this is an array.
    pub fn as_array(&self) -> (r: Option<&Vec<Json>>)
        ensures
            match r {
                Some(items) => array_of(self@) == Some(items_view(items@)),
                None => array_of(self@) is None,
            },
    {
        match self {
            Json::Array(items) => {
                assert(self@->Array_0 == items_view(items@));
                Some(items)
            },
            _ => None,
        }
    }

    /// The text, where this is a string.
    pub fn as_str(&self) -> (r: Option<&str>)
        ensures
            opt_str(r) == text_of(self@),
    {
        match self {
            Json::Text(text) => Some(text.as_str()),
            _ => None,
        }
    }

    /// The truth value, where this is one.
    pub fn as_bool(&self) -> (r: Option<bool>)
        ensures
            r == (match self@ {
                JsonView::Bool(value) => Some(value),
                _ => None,
            }),
    {
        match self {
            Json::Bool(value) => Some(*value),
            _ => None,
        }
    }

    /// The number, where this is a whole number that an `i64` holds.
    pub fn as_i64(&self) -> (r: Option<i64>)
        ensures
            r == i64_value(self@),
    {
        match self {
            Json::Integer(value) => {
                if -0x8000_0000_0000_0000 <= *value && *value <= 0x7fff_ffff_ffff_ffff {
                    Some(*value as i64)
                } else {
                    None
                }
            },
            _ => None,
        }
    }

    /// The number, where this is a whole number that a `u64` holds.
    pub fn as_u64(&self) -> (r: Option<u64>)
        ensures
            r == u64_value(self@),
    {
        match self {
            Json::Integer(value) => {
                if 0 <= *value && *value <= 0xffff_ffff_ffff_ffff {
                    Some(*value as u64)
                } else {
                    None
                }
            },
            _ => None,
        }
    }

    /// The member named `key`, where this is an object that has it.
    pub fn get(&self, key: &str) -> (r: Option<&Json>)
        ensures
            match r {
                Some(value) => get_of(self@, key@) == Some(value@),
                None => get_of(self@, key@) is None,
            },
    {
        match self.as_object() {
            Some(fields) => match find_member(fields, key) {
                Some(i) => Some(&fields[i].value),
                None => None,
            },
            None => None,
        }
    }

    /// The text of the member named `key`, where this is an object that has it as a string.
    pub fn get_str(&self, key: &str) -> (r: Option<&str>)
        ensures
            opt_str(r) == text_at(self@, key@),
    {
        match self.get(key) {
            Some(value) => value.as_str(),
            None => None,
        }
    }

    /// The same value once more.
    pub fn copy(&self) -> (r: Json)
        ensures
            r@ == self@,
        decreases self,
    {
        match self {
            Json::Null => Json::Null,
            Json::Bool(value) => Json::Bool(*value),
            Json::Integer(value) => Json::Integer(*value),
            Json::Decimal(text) => Json::Decimal(text.clone()),
            Json::Text(text) => Json::Text(text.clone()),
            Json::Array(items) => {
                let mut copies: Vec<Json> = Vec::new();
                let mut i: usize = 0;
                while i < items.len()
                    invariant
                        i <= items@.len(),
                        *self == Json::Array(*items),
                        copies@.len() == i,
                        forall|j: int| 0 <= j < i ==> (#[trigger] copies@[j])@ == items@[j]@,
                    decreases items.len() - i,
                {
                    assert(decreases_to!(self => self->Array_0));
                    assert(decreases_to!(items@ => items@[i as int]));
                    copies.push(items[i].copy());
                    i += 1;
                }
                let r = Json::Array(copies);
                assert(r@->Array_0 == self@->Array_0);
                r
            },
            Json::Object(fields) => {
                let mut copies: Vec<JsonField> = Vec::new();
                let mut i: usize = 0;
                while i < fields.len()
                    invariant
                        i <= fields@.len(),
                        *self == Json::Object(*fields),
                        copies@.len() == i,
                        forall|j: int|
                            0 <= j < i ==> (#[trigger] copies@[j]).key@ == fields@[j].key@
                                && copies@[j].value@ == fields@[j].value@,
                    decreases fields.len() - i,
                {
                    assert(decreases_to!(self => self->Object_0));
                    assert(decreases_to!(fields@ => fields@[i as int]));
                    let value = fields[i].value.copy();
                    copies.push(JsonField { key: fields[i].key.clone(), value });
                    i += 1;
                }
                let r = Json::Object(copies);
                assert(r@->Object_0 == self@->Object_0);
                r
            },
        }
    }
}

/// The number of a value that is a whole number within the bounds of `i64`.
pub open spec fn i64_value(value: JsonView) -> Option<i64> {
    match value {
        JsonView::Integer(n) if i64::MIN <= n <= i64::MAX => Some(n as i64),
        _ => None,
    }
}

/// The number of a value that is a whole number within the bounds of `u64`.
pub open spec fn u64_value(value: JsonView) -> Option<u64> {
    match value {
        JsonView::Integer(n) if 0 <= n <= u64::MAX => Some(n as u64),
        _ => None,
    }
}

/// What the outermost layer of a JSON text is: the values inside it stand as the text writes them.
pub enum JsonShape {
    Null,
    Bool(bool),
    /// A number, and its value where it is whole.
    Number(Option<i128>),
    Text(String),
    Array(Vec<String>),
    Object(Vec<(String, String)>),
}

/// A JSON text that was read: its outermost layer, and the whole value in compact form.
pub struct JsonReading {
    pub shape: JsonShape,
    pub compact: String,
}

/// What a `JsonShape` is.
pub enum ShapeView {
    Null,
    Bool(bool),
    Number(Option<int>),
    Text(Seq<char>),
    Array(Seq<Seq<char>>),
    Object(Seq<(Seq<char>, Seq<char>)>),
}

impl JsonShape {
    pub open spec fn view(&self) -> ShapeView {
        match self {
            JsonShape::Null => ShapeView::Null,
            JsonShape::Bool(value) => ShapeView::Bool(*value),
            JsonShape::Number(whole) => ShapeView::Number(
                match whole {
                    Some(value) => Some(*value as int),
                    None => None,
                },
            ),
            JsonShape::Text(text) => ShapeView::Text(text@),
            JsonShape::Array(items) => ShapeView::Array(texts(items@)),
            JsonShape::Object(fields) => ShapeView::Object(
                Seq::new(fields@.len(), |i: int| (fields@[i].0@, fields@[i].1@)),
            ),
        }
    }
}

/// What a JSON value is, but for what an array or an object holds.
pub enum JsonKind {
    Null,
    Bool(bool),
    /// A number, and its value where it is whole.
    Number(Option<i128>),
    Text(String),
    Array,
    Object,
}

/// What a `JsonKind` is.
pub enum KindView {
    Null,
    Bool(bool),
    Number(Option<int>),
    Text(Seq<char>),
    Array,
    Object,
}

impl JsonKind {
    pub open spec fn view(&self) -> KindView {
        match self {
            JsonKind::Null => KindView::Null,
            JsonKind::Bool(value) => KindView::Bool(*value),
            JsonKind::Number(whole) => KindView::Number(
                match whole {
                    Some(value) => Some(*value as int),
                    None => None,
                },
            ),
            JsonKind::Text(text) => KindView::Text(text@),
            JsonKind::Array => KindView::Array,
            JsonKind::Object => KindView::Object,
        }
    }
}

/// What `serde_json::from_slice::<Value>` reads in the bytes of a text: what the value is, and its
/// compact text; or the message of its error.
pub uninterp spec fn value_reading(bytes: Seq<u8>) -> Result<(KindView, Seq<char>), Seq<char>>;

/// What `serde_json::from_slice::<Vec<&RawValue>>` reads in the bytes of a text: the parts of it
/// that write the items of an array; or the message of its error.
pub uninterp spec fn items_reading(bytes: Seq<u8>) -> Result<Seq<Seq<char>>, Seq<char>>;

/// What `serde_json::from_slice::<BTreeMap<String, &RawValue>>` reads in the bytes of a text: the
/// members of an object by name, each with the part of the text that writes its value; or the
/// message of its error.
pub uninterp spec fn fields_reading(bytes: Seq<u8>) -> Result<
    Seq<(Seq<char>, Seq<char>)>,
    Seq<char>,
>;

/// Reads the bytes of a JSON text with `serde_json::from_slice` as a `Value`, and writes it in
/// compact form, which is its `Display`. Both depend on the bytes alone: what they give is
/// `value_reading` of them.
#[verifier::external_body]
fn read_kind(bytes: &[u8]) -> (r: Result<(JsonKind, String), String>)
    ensures
        value_reading(bytes@) == (match r {
            Ok((kind, compact)) => Ok((kind@, compact@)),
            Err(message) => Err(message@),
        }),
{
    from_slice::<Value>(bytes).map_err(|error| error.to_string()).map(|value| {
        let compact = value.to_string();
        let kind = match value {
            Value::Null => JsonKind::Null,
            Value::Bool(flag) => JsonKind::Bool(flag),
            Value::Number(number) => JsonKind::Number(number.as_i128()),
            Value::String(text) => JsonKind::Text(text),
            Value::Array(_) => JsonKind::Array,
            Value::Object(_) => JsonKind::Object,
        };
        (kind, compact)
    })
}

/// Reads the bytes of a JSON text with `serde_json::from_slice` as a row of `RawValue`s, whose
/// `Display` is the part of the text that writes each. That depends on the bytes alone: it is
/// `items_reading` of them.
#[verifier::external_body]
fn read_items(bytes: &[u8]) -> (r: Result<Vec<String>, String>)
    ensures
        items_reading(bytes@) == (match r {
            Ok(items) => Ok(texts(items@)),
            Err(message) => Err(message@),
        }),
{
    from_slice::<Vec<&RawValue>>(bytes)
        .map(|items| items.iter().map(ToString::to_string).collect())
        .map_err(|error| error.to_string())
}

/// Reads the bytes of a JSON text with `serde_json::from_slice` as a map of `RawValue`s, whose
/// `Display` is the part of the text that writes each. That depends on the bytes alone: it is
/// `fields_reading` of them.
#[verifier::external_body]
fn read_fields(bytes: &[u8]) -> (r: Result<Vec<(String, String)>, String>)
    ensures
        fields_reading(bytes@) == (match r {
            Ok(fields) => Ok(field_texts(fields@)),
            Err(message) => Err(message@),
        }),
{
    from_slice::<BTreeMap<String, &RawValue>>(bytes)
        .map(|fields| fields.into_iter().map(|(key, value)| (key, value.to_string())).collect())
        .map_err(|error| error.to_string())
}

/// What is read in the bytes of a text: the outermost layer of the value, with the part of the
/// text that writes each value inside it, and the compact text of the whole; or why there is none.
pub open spec fn json_reading(bytes: Seq<u8>) -> Result<(ShapeView, Seq<char>), Seq<char>> {
    match value_reading(bytes) {
        Err(message) => Err(message),
        Ok((KindView::Null, compact)) => Ok((ShapeView::Null, compact)),
        Ok((KindView::Bool(value), compact)) => Ok((ShapeView::Bool(value), compact)),
        Ok((KindView::Number(whole), compact)) => Ok((ShapeView::Number(whole), compact)),
        Ok((KindView::Text(text), compact)) => Ok((ShapeView::Text(text), compact)),
        Ok((KindView::Array, compact)) => match items_reading(bytes) {
            Ok(items) => Ok((ShapeView::Array(items), compact)),
            Err(message) => Err(message),
        },
        Ok((KindView::Object, compact)) => match fields_reading(bytes) {
            Ok(fields) => Ok((ShapeView::Object(fields), compact)),
            Err(message) => Err(message),
        },
    }
}

fn read_json(bytes: &[u8]) -> (r: Result<JsonReading, String>)
    ensures
        reading_result(r) == json_reading(bytes@),
{
    let (kind, compact) = match read_kind(bytes) {
        Ok(read) => read,
        Err(message) => {
            return Err(message);
        },
    };
    let shape = match kind {
        JsonKind::Null => JsonShape::Null,
        JsonKind::Bool(value) => JsonShape::Bool(value),
        JsonKind::Number(whole) => JsonShape::Number(whole),
        JsonKind::Text(text) => JsonShape::Text(text),
        JsonKind::Array => match read_items(bytes) {
            Ok(items) => JsonShape::Array(items),
            Err(message) => {
                return Err(message);
            },
        },
        JsonKind::Object => match read_fields(bytes) {
            Ok(fields) => {
                let shape = JsonShape::Object(fields);
                assert(shape@->Object_0 =~= field_texts(fields@));
                shape
            },
            Err(message) => {
                return Err(message);
            },
        },
    };
    Ok(JsonReading { shape, compact })
}

/// How deep a JSON text may nest.
pub const MAX_DEPTH: u32 = 128;

/// The value that a reading gives, down to `depth` layers; or why it is none.
pub open spec fn layer_value(
    reading: Result<(ShapeView, Seq<char>), Seq<char>>,
    depth: nat,
) -> Result<JsonView, Seq<char>>
    decreases depth, 0nat, 0nat,
{
    match reading {
        Err(message) => Err(message),
        Ok((ShapeView::Null, _)) => Ok(JsonView::Null),
        Ok((ShapeView::Bool(value), _)) => Ok(JsonView::Bool(value)),
        Ok((ShapeView::Number(Some(value)), _)) => Ok(JsonView::Integer(value)),
        Ok((ShapeView::Number(None), compact)) => Ok(JsonView::Decimal(compact)),
        Ok((ShapeView::Text(value), _)) => Ok(JsonView::Text(value)),
        Ok((ShapeView::Array(items), _)) => if depth == 0 {
            Err("the text nests too deep"@)
        } else {
            match json_values(items, (depth - 1) as nat) {
                Ok(values) => Ok(JsonView::Array(values)),
                Err(message) => Err(message),
            }
        },
        Ok((ShapeView::Object(fields), _)) => if depth == 0 {
            Err("the text nests too deep"@)
        } else {
            match json_members(fields, (depth - 1) as nat) {
                Ok(members) => Ok(JsonView::Object(members)),
                Err(message) => Err(message),
            }
        },
    }
}

/// The value that a JSON text writes, down to `depth` layers; or why it is none.
pub open spec fn json_value(text: Seq<char>, depth: nat) -> Result<JsonView, Seq<char>>
    decreases depth, 1nat, 0nat,
{
    layer_value(json_reading(encode_utf8(text)), depth)
}

/// The values that a row of JSON texts writes; or why the first that is none is none.
pub open spec fn json_values(items: Seq<Seq<char>>, depth: nat) -> Result<Seq<JsonView>, Seq<char>>
    decreases depth, 2nat, items.len(),
{
    if items.len() == 0 {
        Ok(Seq::empty())
    } else {
        match json_values(items.drop_last(), depth) {
            Err(message) => Err(message),
            Ok(before) => match json_value(items.last(), depth) {
                Err(message) => Err(message),
                Ok(value) => Ok(before.push(value)),
            },
        }
    }
}

/// The members whose values a row of JSON texts writes; or why the first that is none is none.
pub open spec fn json_members(fields: Seq<(Seq<char>, Seq<char>)>, depth: nat) -> Result<
    Seq<(Seq<char>, JsonView)>,
    Seq<char>,
>
    decreases depth, 2nat, fields.len(),
{
    if fields.len() == 0 {
        Ok(Seq::empty())
    } else {
        match json_members(fields.drop_last(), depth) {
            Err(message) => Err(message),
            Ok(before) => match json_value(fields.last().1, depth) {
                Err(message) => Err(message),
                Ok(value) => Ok(before.push((fields.last().0, value))),
            },
        }
    }
}

proof fn lemma_values_fail_early(items: Seq<Seq<char>>, depth: nat, size: int)
    requires
        0 <= size <= items.len(),
        json_values(items.take(size), depth) is Err,
    ensures
        json_values(items, depth) == json_values(items.take(size), depth),
    decreases items.len(),
{
    if size < items.len() {
        assert(items.drop_last().take(size) == items.take(size));
        lemma_values_fail_early(items.drop_last(), depth, size);
    } else {
        assert(items.take(size) == items);
    }
}

proof fn lemma_members_fail_early(fields: Seq<(Seq<char>, Seq<char>)>, depth: nat, size: int)
    requires
        0 <= size <= fields.len(),
        json_members(fields.take(size), depth) is Err,
    ensures
        json_members(fields, depth) == json_members(fields.take(size), depth),
    decreases fields.len(),
{
    if size < fields.len() {
        assert(fields.drop_last().take(size) == fields.take(size));
        lemma_members_fail_early(fields.drop_last(), depth, size);
    } else {
        assert(fields.take(size) == fields);
    }
}

/// What the texts of an object's members are.
pub open spec fn field_texts(fields: Seq<(String, String)>) -> Seq<(Seq<char>, Seq<char>)> {
    Seq::new(fields.len(), |i: int| (fields[i].0@, fields[i].1@))
}

/// What reading a value gave.
pub open spec fn value_result(r: Result<Json, String>) -> Result<JsonView, Seq<char>> {
    match r {
        Ok(value) => Ok(value@),
        Err(message) => Err(message@),
    }
}

/// What reading a layer gave.
pub open spec fn reading_result(r: Result<JsonReading, String>) -> Result<
    (ShapeView, Seq<char>),
    Seq<char>,
> {
    match r {
        Ok(reading) => Ok((reading.shape@, reading.compact@)),
        Err(message) => Err(message@),
    }
}

fn read_layer(reading: Result<JsonReading, String>, depth: u32) -> (r: Result<Json, String>)
    ensures
        value_result(r) == layer_value(reading_result(reading), depth as nat),
    decreases depth, 0nat,
{
    match reading {
        Err(message) => Err(message),
        Ok(reading) => match reading.shape {
            JsonShape::Null => Ok(Json::Null),
            JsonShape::Bool(value) => Ok(Json::Bool(value)),
            JsonShape::Number(Some(value)) => Ok(Json::Integer(value)),
            JsonShape::Number(None) => Ok(Json::Decimal(reading.compact)),
            JsonShape::Text(value) => Ok(Json::Text(value)),
            JsonShape::Array(items) => {
                if depth == 0 {
                    return Err("the text nests too deep".to_owned());
                }
                match read_values(&items, depth - 1) {
                    Ok(values) => {
                        let r = Json::Array(values);
                        assert(r@->Array_0 == items_view(values@));
                        Ok(r)
                    },
                    Err(message) => Err(message),
                }
            },
            JsonShape::Object(fields) => {
                assert(reading.shape@->Object_0 == field_texts(fields@));
                if depth == 0 {
                    return Err("the text nests too deep".to_owned());
                }
                match read_members(&fields, depth - 1) {
                    Ok(members) => {
                        let r = Json::Object(members);
                        assert(r@->Object_0 == fields_view(members@));
                        Ok(r)
                    },
                    Err(message) => Err(message),
                }
            },
        },
    }
}

fn read_value(text: &str, depth: u32) -> (r: Result<Json, String>)
    ensures
        value_result(r) == json_value(text@, depth as nat),
    decreases depth, 1nat,
{
    read_layer(read_json(text.as_bytes()), depth)
}

fn read_values(items: &Vec<String>, depth: u32) -> (r: Result<Vec<Json>, String>)
    ensures
        json_values(texts(items@), depth as nat) == (match r {
            Ok(values) => Ok(items_view(values@)),
            Err(message) => Err(message@),
        }),
    decreases depth, 2nat,
{
    let ghost all = texts(items@);
    let mut values: Vec<Json> = Vec::new();
    let mut i: usize = 0;
    assert(items_view(values@) == Seq::<JsonView>::empty());
    while i < items.len()
        invariant
            i <= items@.len(),
            all == texts(items@),
            json_values(all.take(i as int), depth as nat) == Ok::<Seq<JsonView>, Seq<char>>(
                items_view(values@),
            ),
        decreases items.len() - i,
    {
        let ghost before = values@;
        assert(all.take(i + 1).drop_last() == all.take(i as int));
        assert(all.take(i + 1).last() == items@[i as int]@);
        match read_value(items[i].as_str(), depth) {
            Ok(value) => {
                values.push(value);
                assert(items_view(values@) == items_view(before).push(value@));
            },
            Err(message) => {
                proof {
                    lemma_values_fail_early(all, depth as nat, i + 1);
                }
                return Err(message);
            },
        }
        i += 1;
    }
    assert(all.take(items@.len() as int) == all);
    Ok(values)
}

fn read_members(fields: &Vec<(String, String)>, depth: u32) -> (r: Result<Vec<JsonField>, String>)
    ensures
        json_members(field_texts(fields@), depth as nat) == (match r {
            Ok(members) => Ok(fields_view(members@)),
            Err(message) => Err(message@),
        }),
    decreases depth, 2nat,
{
    let ghost all = field_texts(fields@);
    let mut members: Vec<JsonField> = Vec::new();
    let mut i: usize = 0;
    assert(fields_view(members@) == Seq::<(Seq<char>, JsonView)>::empty());
    while i < fields.len()
        invariant
            i <= fields@.len(),
            all == field_texts(fields@),
            json_members(all.take(i as int), depth as nat) == Ok::<
                Seq<(Seq<char>, JsonView)>,
                Seq<char>,
            >(fields_view(members@)),
        decreases fields.len() - i,
    {
        let ghost before = members@;
        assert(all.take(i + 1).drop_last() == all.take(i as int));
        assert(all.take(i + 1).last() == (fields@[i as int].0@, fields@[i as int].1@));
        match read_value(fields[i].1.as_str(), depth) {
            Ok(value) => {
                let key = fields[i].0.clone();
                members.push(JsonField { key, value });
                assert(fields_view(members@) == fields_view(before).push((key@, value@)));
            },
            Err(message) => {
                proof {
                    lemma_members_fail_early(all, depth as nat, i + 1);
                }
                return Err(message);
            },
        }
        i += 1;
    }
    assert(all.take(fields@.len() as int) == all);
    Ok(members)
}

/// The value that a JSON text writes, where it is one.
pub open spec fn parsed(text: Seq<char>) -> Result<JsonView, Seq<char>> {
    json_value(text, MAX_DEPTH as nat)
}

/// Reads a JSON text.
pub fn parse(text: &str) -> (r: Result<Json, Error>)
    ensures
        match parsed(text@) {
            Ok(value) => r matches Ok(json) && json@ == value,
            Err(message) => r matches Err(error) && error@ == seq![message],
        },
{
    match read_value(text, MAX_DEPTH) {
        Ok(value) => Ok(value),
        Err(message) => Err(Error::new(message)),
    }
}

/// The value that a row of bytes writes in JSON, where it is one.
pub open spec fn parsed_bytes(bytes: Seq<u8>) -> Result<JsonView, Seq<char>> {
    layer_value(json_reading(bytes), MAX_DEPTH as nat)
}

/// Reads JSON bytes.
pub fn parse_bytes(bytes: &Vec<u8>) -> (r: Result<Json, Error>)
    ensures
        match parsed_bytes(bytes@) {
            Ok(value) => r matches Ok(json) && json@ == value,
            Err(message) => r matches Err(error) && error@ == seq![message],
        },
{
    match read_layer(read_json(bytes.as_slice()), MAX_DEPTH) {
        Ok(value) => Ok(value),
        Err(message) => Err(Error::new(message)),
    }
}

/// A JSON value, with its compact form.
#[derive(Debug)]
pub struct Document {
    pub value: Json,
    pub compact: String,
}

pub struct DocumentView {
    pub value: JsonView,
    pub compact: Seq<char>,
}

impl View for Document {
    type V = DocumentView;

    open spec fn view(&self) -> DocumentView {
        DocumentView { value: self.value@, compact: self.compact@ }
    }
}

/// The value that a JSON text writes, with its compact form.
pub open spec fn parsed_document(text: Seq<char>) -> Result<DocumentView, Seq<char>> {
    match (json_reading(encode_utf8(text)), parsed(text)) {
        (Ok((_, compact)), Ok(value)) => Ok(DocumentView { value, compact }),
        (Ok(_), Err(message)) => Err(message),
        (Err(message), _) => Err(message),
    }
}

/// Reads a JSON text, and writes it in compact form.
pub fn parse_document(text: &str) -> (r: Result<Document, Error>)
    ensures
        match parsed_document(text@) {
            Ok(document) => r matches Ok(found) && found@ == document,
            Err(message) => r matches Err(error) && error@ == seq![message],
        },
{
    match read_json(text.as_bytes()) {
        Err(message) => Err(Error::new(message)),
        Ok(reading) => {
            let compact = reading.compact.clone();
            match read_layer(Ok(reading), MAX_DEPTH) {
                Ok(value) => Ok(Document { value, compact }),
                Err(message) => Err(Error::new(message)),
            }
        },
    }
}

/// A member of an object, with its value also in compact form.
#[derive(Debug)]
pub struct Member {
    pub key: String,
    pub value: Json,
    pub compact: String,
}

/// What a `Member` is.
pub struct MemberView {
    pub key: Seq<char>,
    pub value: JsonView,
    pub compact: Seq<char>,
}

impl View for Member {
    type V = MemberView;

    open spec fn view(&self) -> MemberView {
        MemberView { key: self.key@, value: self.value@, compact: self.compact@ }
    }
}

/// What the members of a list are.
pub open spec fn members_view(members: Seq<Member>) -> Seq<MemberView> {
    members.map_values(|member: Member| member@)
}

/// The compact form of the value that a JSON text writes, where it is one.
pub open spec fn compact_form(text: Seq<char>) -> Seq<char> {
    json_reading(encode_utf8(text))->Ok_0.1
}

/// The members of the object that a JSON text writes; `None` where it writes another value.
pub open spec fn parsed_members(text: Seq<char>) -> Result<Option<Seq<MemberView>>, Seq<char>> {
    match json_reading(encode_utf8(text)) {
        Err(message) => Err(message),
        Ok((ShapeView::Object(fields), _)) => match json_members(fields, (MAX_DEPTH - 1) as nat) {
            Err(message) => Err(message),
            Ok(members) => Ok(
                Some(
                    Seq::new(
                        members.len(),
                        |i: int|
                            MemberView {
                                key: members[i].0,
                                value: members[i].1,
                                compact: compact_form(fields[i].1),
                            },
                    ),
                ),
            ),
        },
        Ok(_) => Ok(None),
    }
}

/// Reads the members of an object, each with its value also in compact form.
fn read_members_fully(fields: &Vec<(String, String)>, depth: u32) -> (r: Result<
    Vec<Member>,
    String,
>)
    ensures
        match json_members(field_texts(fields@), depth as nat) {
            Ok(members) => {
                &&& r matches Ok(list)
                &&& list@.len() == members.len() == fields@.len()
                &&& forall|i: int|
                    0 <= i < list@.len() ==> (#[trigger] list@[i])@ == (MemberView {
                        key: members[i].0,
                        value: members[i].1,
                        compact: compact_form(fields@[i].1@),
                    })
            },
            Err(message) => r matches Err(told) && told@ == message,
        },
{
    let ghost all = field_texts(fields@);
    let mut list: Vec<Member> = Vec::new();
    let mut i: usize = 0;
    while i < fields.len()
        invariant
            i <= fields@.len(),
            all == field_texts(fields@),
            list@.len() == i,
            json_members(all.take(i as int), depth as nat) matches Ok(members) && members.len() == i
                && forall|j: int|
                0 <= j < i ==> (#[trigger] list@[j])@ == (MemberView {
                    key: members[j].0,
                    value: members[j].1,
                    compact: compact_form(fields@[j].1@),
                }),
        decreases fields.len() - i,
    {
        assert(all.take(i + 1).drop_last() == all.take(i as int));
        assert(all.take(i + 1).last() == (fields@[i as int].0@, fields@[i as int].1@));
        let ghost before = json_members(all.take(i as int), depth as nat)->Ok_0;
        let reading = read_json(fields[i].1.as_str().as_bytes());
        assert(json_value(fields@[i as int].1@, depth as nat) == layer_value(
            reading_result(reading),
            depth as nat,
        ));
        let compact = match &reading {
            Ok(reading) => reading.compact.clone(),
            Err(_) => String::new(),
        };
        match read_layer(reading, depth) {
            Ok(value) => {
                list.push(Member { key: fields[i].0.clone(), value, compact });
                assert(json_members(all.take(i + 1), depth as nat) == Ok::<
                    Seq<(Seq<char>, JsonView)>,
                    Seq<char>,
                >(before.push((fields@[i as int].0@, value@))));
            },
            Err(message) => {
                proof {
                    lemma_members_fail_early(all, depth as nat, i + 1);
                }
                return Err(message);
            },
        }
        i += 1;
    }
    assert(all.take(fields@.len() as int) == all);
    Ok(list)
}

/// Reads a JSON text, and takes the members of the object it writes.
pub fn parse_members(text: &str) -> (r: Result<Option<Vec<Member>>, Error>)
    ensures
        match parsed_members(text@) {
            Ok(Some(members)) => r matches Ok(Some(list)) && members_view(list@) == members,
            Ok(None) => r matches Ok(None),
            Err(message) => r matches Err(error) && error@ == seq![message],
        },
{
    match read_json(text.as_bytes()) {
        Err(message) => Err(Error::new(message)),
        Ok(reading) => match reading.shape {
            JsonShape::Object(fields) => {
                assert(reading.shape@->Object_0 == field_texts(fields@));
                match read_members_fully(&fields, MAX_DEPTH - 1) {
                    Err(message) => Err(Error::new(message)),
                    Ok(list) => {
                        assert(forall|i: int|
                            0 <= i < fields@.len() ==> (#[trigger] field_texts(fields@)[i]).1
                                == fields@[i].1@);
                        assert(members_view(list@) == parsed_members(text@)->Ok_0->Some_0);
                        Ok(Some(list))
                    },
                }
            },
            _ => Ok(None),
        },
    }
}

/// A member is the first of its name, and there is none where no member has the name.
pub proof fn law_member_is_the_first_of_its_name(
    fields: Seq<(Seq<char>, JsonView)>,
    key: Seq<char>,
    place: int,
)
    requires
        0 <= place <= fields.len(),
        forall|j: int| 0 <= j < place ==> (#[trigger] fields[j]).0 != key,
        place < fields.len() ==> fields[place].0 == key,
    ensures
        member_of(fields, key) == (if place < fields.len() {
            Some(fields[place].1)
        } else {
            None
        }),
        get_of(JsonView::Object(fields), key) == member_of(fields, key),
{
    if place < fields.len() {
        lemma_place_is(fields, key, 0, place);
    } else {
        lemma_place_in_range(fields, key, 0);
    }
}

/// Only an object has members, and only a string has a text. Setting a member of an object, or of
/// nothing, is read back and leaves every other member as it was.
pub proof fn law_value_gives_what_it_is(
    value: JsonView,
    key: Seq<char>,
    member: JsonView,
    other: Seq<char>,
)
    ensures
        !(value is Object) ==> get_of(value, key) is None && object_of(value) is None,
        text_of(value) is Some <==> value is Text,
        value matches JsonView::Text(text) ==> text_of(value) == Some(text),
        array_of(value) is Some <==> value is Array,
        value matches JsonView::Array(items) ==> array_of(value) == Some(items),
        value matches JsonView::Object(fields) ==> object_of(value) == Some(fields),
        get_of(value, key) is None ==> text_at(value, key) is None,
        get_of(value, key) is Some ==> text_at(value, key) == text_of(get_of(value, key)->Some_0),
        get_of(with_value(value, key, member), key) == Some(member),
        other != key ==> get_of(with_value(value, key, member), other) == get_of(value, other),
{
    if let JsonView::Object(fields) = value {
        law_set_member_is_read_back(fields, key, member, other);
    } else {
        let fields = seq![(key, member)];
        lemma_place_is(fields, key, 0, 0);
        lemma_place_in_range(fields, other, 0);
    }
}

/// A whole number is read as one of a size exactly where that size has room for it.
pub proof fn law_whole_numbers_are_read_in_their_bounds(n: int)
    ensures
        i64_value(JsonView::Integer(n)) is Some <==> -0x8000_0000_0000_0000 <= n
            <= 0x7fff_ffff_ffff_ffff,
        i64_value(JsonView::Integer(n)) matches Some(number) ==> number == n,
        u64_value(JsonView::Integer(n)) is Some <==> 0 <= n <= 0xffff_ffff_ffff_ffff,
        u64_value(JsonView::Integer(n)) matches Some(number) ==> number == n,
{
}

/// A row of texts is read item by item: as many values as texts, each what its text writes, and
/// none at all where one of the texts writes none.
pub proof fn law_items_are_read_one_by_one(items: Seq<Seq<char>>, depth: nat)
    ensures
        match json_values(items, depth) {
            Ok(values) => {
                &&& values.len() == items.len()
                &&& forall|i: int|
                    0 <= i < items.len() ==> json_value(#[trigger] items[i], depth) == Ok::<
                        JsonView,
                        Seq<char>,
                    >(values[i])
            },
            Err(message) => exists|i: int|
                {
                    &&& 0 <= i < items.len()
                    &&& json_value(#[trigger] items[i], depth) == Err::<JsonView, Seq<char>>(
                        message,
                    )
                    &&& forall|j: int|
                        0 <= j < i ==> json_value(#[trigger] items[j], depth) is Ok
                },
        },
    decreases items.len(),
{
    if items.len() > 0 {
        let rest = items.drop_last();
        let last = items.len() - 1;
        law_items_are_read_one_by_one(rest, depth);
        assert(forall|i: int| 0 <= i < rest.len() ==> #[trigger] items[i] == rest[i]);
        assert(items[last] == items.last());
        match json_values(rest, depth) {
            Ok(before) => {},
            Err(message) => {
                let i = choose|i: int|
                    {
                        &&& 0 <= i < rest.len()
                        &&& json_value(#[trigger] rest[i], depth) == Err::<JsonView, Seq<char>>(
                            message,
                        )
                        &&& forall|j: int|
                            0 <= j < i ==> json_value(#[trigger] rest[j], depth) is Ok
                    };
                assert(items[i] == rest[i]);
                assert forall|j: int| 0 <= j < i implies json_value(
                    #[trigger] items[j],
                    depth,
                ) is Ok by {
                    assert(items[j] == rest[j]);
                }
            },
        }
    }
}

/// The members of an object are read one by one: as many as the text writes, each under its name
/// and with the value that its text writes, and none at all where one of the texts writes none.
pub proof fn law_members_are_read_one_by_one(fields: Seq<(Seq<char>, Seq<char>)>, depth: nat)
    ensures
        match json_members(fields, depth) {
            Ok(members) => {
                &&& members.len() == fields.len()
                &&& forall|i: int|
                    0 <= i < fields.len() ==> {
                        &&& members[i].0 == (#[trigger] fields[i]).0
                        &&& json_value(fields[i].1, depth) == Ok::<JsonView, Seq<char>>(
                            members[i].1,
                        )
                    }
            },
            Err(message) => exists|i: int|
                {
                    &&& 0 <= i < fields.len()
                    &&& json_value((#[trigger] fields[i]).1, depth) == Err::<JsonView, Seq<char>>(
                        message,
                    )
                    &&& forall|j: int|
                        0 <= j < i ==> json_value((#[trigger] fields[j]).1, depth) is Ok
                },
        },
    decreases fields.len(),
{
    if fields.len() > 0 {
        let rest = fields.drop_last();
        let last = fields.len() - 1;
        law_members_are_read_one_by_one(rest, depth);
        assert(forall|i: int| 0 <= i < rest.len() ==> #[trigger] fields[i] == rest[i]);
        assert(fields[last] == fields.last());
        match json_members(rest, depth) {
            Ok(before) => {},
            Err(message) => {
                let i = choose|i: int|
                    {
                        &&& 0 <= i < rest.len()
                        &&& json_value((#[trigger] rest[i]).1, depth) == Err::<
                            JsonView,
                            Seq<char>,
                        >(message)
                        &&& forall|j: int|
                            0 <= j < i ==> json_value((#[trigger] rest[j]).1, depth) is Ok
                    };
                assert(fields[i] == rest[i]);
                assert forall|j: int| 0 <= j < i implies json_value(
                    (#[trigger] fields[j]).1,
                    depth,
                ) is Ok by {
                    assert(fields[j] == rest[j]);
                }
            },
        }
    }
}

/// A text is read as the value that it writes: what is read in its bytes decides which kind of value
/// that is, and a text in which nothing is read writes none.
#[verifier::rlimit(40)]
pub proof fn law_text_is_read_as_its_kind(text: Seq<char>)
    ensures
        match value_reading(encode_utf8(text)) {
            Err(message) => parsed(text) == Err::<JsonView, Seq<char>>(message),
            Ok((KindView::Null, _)) => parsed(text) == Ok::<JsonView, Seq<char>>(JsonView::Null),
            Ok((KindView::Bool(value), _)) => parsed(text) == Ok::<JsonView, Seq<char>>(
                JsonView::Bool(value),
            ),
            Ok((KindView::Number(Some(n)), _)) => parsed(text) == Ok::<JsonView, Seq<char>>(
                JsonView::Integer(n),
            ),
            Ok((KindView::Number(None), compact)) => parsed(text) == Ok::<JsonView, Seq<char>>(
                JsonView::Decimal(compact),
            ),
            Ok((KindView::Text(value), _)) => parsed(text) == Ok::<JsonView, Seq<char>>(
                JsonView::Text(value),
            ),
            Ok((KindView::Array, _)) => match items_reading(encode_utf8(text)) {
                Err(message) => parsed(text) == Err::<JsonView, Seq<char>>(message),
                Ok(items) => parsed(text) matches Ok(value) ==> {
                    &&& value matches JsonView::Array(values)
                    &&& values.len() == items.len()
                    &&& forall|i: int|
                        0 <= i < items.len() ==> json_value(#[trigger] items[i], 127) == Ok::<
                            JsonView,
                            Seq<char>,
                        >(values[i])
                },
            },
            Ok((KindView::Object, _)) => match fields_reading(encode_utf8(text)) {
                Err(message) => parsed(text) == Err::<JsonView, Seq<char>>(message),
                Ok(fields) => parsed(text) matches Ok(value) ==> {
                    &&& value matches JsonView::Object(members)
                    &&& members.len() == fields.len()
                    &&& forall|i: int|
                        0 <= i < fields.len() ==> {
                            &&& members[i].0 == (#[trigger] fields[i]).0
                            &&& json_value(fields[i].1, 127) == Ok::<JsonView, Seq<char>>(
                                members[i].1,
                            )
                        }
                },
            },
        },
        parsed_bytes(encode_utf8(text)) == parsed(text),
{
    if let Ok(items) = items_reading(encode_utf8(text)) {
        law_items_are_read_one_by_one(items, 127);
    }
    if let Ok(fields) = fields_reading(encode_utf8(text)) {
        law_members_are_read_one_by_one(fields, 127);
    }
}

/// A document is the value that its text writes, with the compact text that was read beside it. The
/// members that are taken from a text are those of the object that it writes, in their order.
#[verifier::rlimit(40)]
pub proof fn law_document_is_what_its_text_writes(text: Seq<char>)
    ensures
        parsed_document(text) is Ok <==> parsed(text) is Ok,
        parsed_document(text) matches Ok(document) ==> {
            &&& parsed(text) == Ok::<JsonView, Seq<char>>(document.value)
            &&& value_reading(encode_utf8(text)) matches Ok((_, compact))
            &&& document.compact == compact
        },
        parsed_members(text) is Err <==> parsed(text) is Err && (value_reading(
            encode_utf8(text),
        ) is Err || value_reading(encode_utf8(text))->Ok_0.0 is Object || (value_reading(
            encode_utf8(text),
        )->Ok_0.0 is Array && items_reading(encode_utf8(text)) is Err)),
        parsed_members(text) matches Ok(Some(members)) ==> {
            &&& parsed(text) matches Ok(JsonView::Object(fields))
            &&& members.len() == fields.len()
            &&& forall|i: int|
                0 <= i < members.len() ==> (#[trigger] members[i]).key == fields[i].0
                    && members[i].value == fields[i].1
        },
        parsed(text) matches Ok(JsonView::Object(fields)) ==> parsed_members(text) matches Ok(Some(_)),
{
    let bytes = encode_utf8(text);
    if let Ok(fields) = fields_reading(bytes) {
        law_members_are_read_one_by_one(fields, 127);
    }
}

/// An array is read exactly where each of its items is, and an object where each of its members is.
pub proof fn law_nothing_but_a_bad_part_spoils_a_value(text: Seq<char>)
    ensures
        value_reading(encode_utf8(text)) matches Ok((KindView::Array, _)) ==> (items_reading(
            encode_utf8(text),
        ) matches Ok(items) ==> (parsed(text) is Ok <==> forall|i: int|
            0 <= i < items.len() ==> json_value(#[trigger] items[i], 127) is Ok)),
        value_reading(encode_utf8(text)) matches Ok((KindView::Object, _)) ==> (fields_reading(
            encode_utf8(text),
        ) matches Ok(fields) ==> (parsed(text) is Ok <==> forall|i: int|
            0 <= i < fields.len() ==> json_value((#[trigger] fields[i]).1, 127) is Ok)),
{
    if let Ok(items) = items_reading(encode_utf8(text)) {
        law_items_are_read_one_by_one(items, 127);
    }
    if let Ok(fields) = fields_reading(encode_utf8(text)) {
        law_members_are_read_one_by_one(fields, 127);
    }
}

/// A value that is read within some depth is read the same within any greater one.
pub proof fn law_depth_changes_no_value(text: Seq<char>, depth: nat, more: nat)
    requires
        json_value(text, depth) is Ok,
        depth <= more,
    ensures
        json_value(text, more) == json_value(text, depth),
    decreases depth, 1nat, 0nat,
{
    match json_reading(encode_utf8(text)) {
        Ok((ShapeView::Array(items), _)) => {
            lemma_depth_changes_no_values(items, (depth - 1) as nat, (more - 1) as nat);
        },
        Ok((ShapeView::Object(fields), _)) => {
            lemma_depth_changes_no_members(fields, (depth - 1) as nat, (more - 1) as nat);
        },
        _ => {},
    }
}

proof fn lemma_depth_changes_no_values(items: Seq<Seq<char>>, depth: nat, more: nat)
    requires
        json_values(items, depth) is Ok,
        depth <= more,
    ensures
        json_values(items, more) == json_values(items, depth),
    decreases depth, 2nat, items.len(),
{
    if items.len() > 0 {
        lemma_depth_changes_no_values(items.drop_last(), depth, more);
        law_depth_changes_no_value(items.last(), depth, more);
    }
}

proof fn lemma_depth_changes_no_members(
    fields: Seq<(Seq<char>, Seq<char>)>,
    depth: nat,
    more: nat,
)
    requires
        json_members(fields, depth) is Ok,
        depth <= more,
    ensures
        json_members(fields, more) == json_members(fields, depth),
    decreases depth, 2nat, fields.len(),
{
    if fields.len() > 0 {
        lemma_depth_changes_no_members(fields.drop_last(), depth, more);
        law_depth_changes_no_value(fields.last().1, depth, more);
    }
}

} // verus!
