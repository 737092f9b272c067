//! JSON values, in plain form.
use crate::lists::views;
use crate::text::same_text;
use serde_json::Value;
use vstd::prelude::*;

verus! {

/// A JSON value. What a number is has no part in anything here.
#[derive(Debug)]
pub enum Json {
    Null,
    Bool(bool),
    Number,
    Text(String),
    List(Vec<Json>),
    /// Each name once, with what stands under it.
    Object(Vec<(String, Json)>),
}

#[verifier::ext_equal]
pub enum JsonModel {
    Null,
    Bool(bool),
    Number,
    Text(Seq<char>),
    List(Seq<JsonModel>),
    Object(Seq<(Seq<char>, JsonModel)>),
}

/// The model of a value.
pub open spec fn json_model(value: Json) -> JsonModel
    decreases value,
{
    match value {
        Json::Null => JsonModel::Null,
        Json::Bool(flag) => JsonModel::Bool(flag),
        Json::Number => JsonModel::Number,
        Json::Text(text) => JsonModel::Text(text@),
        Json::List(items) => JsonModel::List(
            Seq::new(
                items@.len(),
                |index: int|
                    if 0 <= index < items@.len() {
                        json_model(items@[index])
                    } else {
                        arbitrary()
                    },
            ),
        ),
        Json::Object(members) => JsonModel::Object(
            Seq::new(
                members@.len(),
                |index: int|
                    if 0 <= index < members@.len() {
                        (members@[index].0@, json_model(members@[index].1))
                    } else {
                        arbitrary()
                    },
            ),
        ),
    }
}

impl View for Json {
    type V = JsonModel;

    open spec fn view(&self) -> JsonModel {
        json_model(*self)
    }
}

/// The model of a value that may be missing.
pub open spec fn optional_json(value: Option<Json>) -> Option<JsonModel> {
    match value {
        Some(value) => Some(value@),
        None => None,
    }
}

/// `serde_json::Value`, opaque: only `read_json` looks into it.
#[verifier::external_type_specification]
#[verifier::external_body]
pub struct ExValue(serde_json::Value);

/// A `serde_json::Value`, variant by variant, with the members of an object in
/// the order of `serde_json::Map`. Nothing is claimed of it here: it is a part
/// of what `parse_json` gives.
#[verifier::external_body]
fn read_json(value: Value) -> (result: Json) {
    match value {
        Value::Null => Json::Null,
        Value::Bool(flag) => Json::Bool(flag),
        Value::Number(_) => Json::Number,
        Value::String(text) => Json::Text(text),
        Value::Array(items) => Json::List(items.into_iter().map(read_json).collect()),
        Value::Object(members) => {
            let read = |(name, value): (String, Value)| (name, read_json(value));
            Json::Object(members.into_iter().map(read).collect())
        }
    }
}

/// The value that `serde_json::from_slice` reads out of some bytes, or nothing
/// where they are no JSON text.
pub uninterp spec fn json_value(bytes: Seq<u8>) -> Option<JsonModel>;

/// `serde_json::from_slice` reads bytes into a `serde_json::Value`, or fails.
/// What it makes of them depends on nothing but the bytes. What the value is is
/// left unsaid: that is the grammar of JSON.
#[verifier::external_body]
pub(crate) fn parse_json(bytes: &Vec<u8>) -> (result: Option<Json>)
    ensures
        optional_json(result) == json_value(bytes@),
{
    serde_json::from_slice::<Value>(bytes).ok().map(read_json)
}

/// What stands under a name, from a place among members on.
pub open spec fn member_from(
    members: Seq<(Seq<char>, JsonModel)>,
    name: Seq<char>,
    index: int,
) -> Option<JsonModel>
    decreases members.len() - index,
{
    if index < 0 || index >= members.len() {
        None
    } else if members[index].0 == name {
        Some(members[index].1)
    } else {
        member_from(members, name, index + 1)
    }
}

/// What stands in an object under a name.
pub open spec fn member_of(value: JsonModel, name: Seq<char>) -> Option<JsonModel> {
    match value {
        JsonModel::Object(members) => member_from(members, name, 0),
        _ => None,
    }
}

/// The list that stands in an object under a name.
pub open spec fn list_under(value: JsonModel, name: Seq<char>) -> Option<Seq<JsonModel>> {
    match member_of(value, name) {
        Some(JsonModel::List(items)) => Some(items),
        _ => None,
    }
}

/// The text that stands in an object under a name.
pub open spec fn text_under(value: JsonModel, name: Seq<char>) -> Option<Seq<char>> {
    match member_of(value, name) {
        Some(JsonModel::Text(text)) => Some(text),
        _ => None,
    }
}

impl Json {
    /// What stands in an object under a name.
    pub fn member(&self, name: &str) -> (result: Option<&Json>)
        ensures
            (match result {
                Some(value) => Some(value@),
                None => None,
            }) == member_of(self@, name@),
    {
        match self {
            Json::Object(members) => {
                let ghost model = self@->Object_0;
                let mut index: usize = 0;
                while index < members.len()
                    invariant
                        index <= members@.len(),
                        model == json_model(Json::Object(*members))->Object_0,
                        member_of(self@, name@) == member_from(model, name@, 0),
                        member_from(model, name@, index as int) == member_from(model, name@, 0),
                    decreases members@.len() - index,
                {
                    proof {
                        assert(model[index as int] == (
                            members@[index as int].0@,
                            members@[index as int].1@,
                        ));
                    }
                    if same_text(members[index].0.as_str(), name) {
                        return Some(&members[index].1);
                    }
                    index += 1;
                }
                None
            },
            _ => None,
        }
    }

    /// The list that stands in an object under a name.
    pub fn list(&self, name: &str) -> (result: Option<&Vec<Json>>)
        ensures
            match result {
                Some(items) => list_under(self@, name@) == Some(views(items@)),
                None => list_under(self@, name@) is None,
            },
    {
        match self.member(name) {
            Some(Json::List(items)) => {
                proof {
                    assert(json_model(Json::List(*items))->List_0 =~= views(items@));
                }
                Some(items)
            },
            _ => None,
        }
    }

    /// The text that stands in an object under a name.
    pub fn text(&self, name: &str) -> (result: Option<&String>)
        ensures
            (match result {
                Some(text) => Some(text@),
                None => None,
            }) == text_under(self@, name@),
    {
        match self.member(name) {
            Some(Json::Text(text)) => Some(text),
            _ => None,
        }
    }
}

} // verus!
