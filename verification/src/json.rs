//! JSON values, as far as the chat reads and writes them.
use vstd::prelude::*;

use crate::text::{chars_of, same_text};

verus! {

/// A JSON value. A number stands as its text.
#[derive(Debug)]
pub enum Json {
    Null,
    Bool(bool),
    Number(String),
    Text(String),
    List(Vec<Json>),
    Object(Vec<(String, Json)>),
}

/// A [`Json`] as a mathematical value.
pub enum JsonModel {
    Null,
    Bool(bool),
    Number(Seq<char>),
    Text(Seq<char>),
    List(Seq<JsonModel>),
    Object(Seq<(Seq<char>, JsonModel)>),
}

/// What a value holds.
pub open spec fn model_of(j: Json) -> JsonModel
    decreases j,
{
    match j {
        Json::Null => JsonModel::Null,
        Json::Bool(b) => JsonModel::Bool(b),
        Json::Number(s) => JsonModel::Number(s@),
        Json::Text(s) => JsonModel::Text(s@),
        Json::List(items) => JsonModel::List(
            Seq::new(
                items@.len(),
                |i: int|
                    if 0 <= i < items@.len() {
                        model_of(items@[i])
                    } else {
                        JsonModel::Null
                    },
            ),
        ),
        Json::Object(members) => JsonModel::Object(
            Seq::new(
                members@.len(),
                |i: int|
                    if 0 <= i < members@.len() {
                        (members@[i].0@, model_of(members@[i].1))
                    } else {
                        (Seq::empty(), JsonModel::Null)
                    },
            ),
        ),
    }
}

impl View for Json {
    type V = JsonModel;

    open spec fn view(&self) -> JsonModel {
        model_of(*self)
    }
}

/// The value type of the `serde_json` crate.
#[verifier::external_type_specification]
#[verifier::external_body]
pub struct ExValue(serde_json::Value);

/// What a value of the `serde_json` crate holds.
pub uninterp spec fn value_model(value: serde_json::Value) -> JsonModel;

/// The value that `serde_json::from_str` reads in a text, where it reads one.
pub uninterp spec fn parsed_json(text: Seq<char>) -> Option<JsonModel>;

/// `serde_json::from_str`: the value in a text, or none where the text is not
/// one JSON value. Which texts are, and which value they hold, is a matter of
/// the text alone.
#[verifier::external_body]
fn read_value(text: &str) -> (r: Option<serde_json::Value>)
    ensures
        match r {
            Some(value) => parsed_json(text@) == Some(value_model(value)),
            None => parsed_json(text@) is None,
        },
{
    serde_json::from_str(text).ok()
}

/// The variants of `serde_json::Value`: a value of this library that holds the
/// same. A number becomes its text, as `serde_json::Number` displays it.
#[verifier::external_body]
fn convert(value: serde_json::Value) -> (r: Json)
    ensures
        r@ == value_model(value),
{
    match value {
        serde_json::Value::Null => Json::Null,
        serde_json::Value::Bool(b) => Json::Bool(b),
        serde_json::Value::Number(n) => Json::Number(n.to_string()),
        serde_json::Value::String(s) => Json::Text(s),
        serde_json::Value::Array(items) => Json::List(items.into_iter().map(convert).collect()),
        serde_json::Value::Object(members) => Json::Object(
            members.into_iter().map(|(key, member)| (key, convert(member))).collect(),
        ),
    }
}

/// The JSON value in a text, or none where the text is not one.
pub fn parse_json(text: &str) -> (r: Option<Json>)
    ensures
        match r {
            Some(j) => parsed_json(text@) == Some(j@),
            None => parsed_json(text@) is None,
        },
{
    match read_value(text) {
        Some(value) => Some(convert(value)),
        None => None,
    }
}

// ---------------------------------------------------------------------------
// Reading
// ---------------------------------------------------------------------------

/// The first member of that name from position `from` on, or null.
pub open spec fn member_from(
    members: Seq<(Seq<char>, JsonModel)>,
    key: Seq<char>,
    from: int,
) -> JsonModel
    decreases members.len() - from,
{
    if from >= members.len() {
        JsonModel::Null
    } else if members[from].0 == key {
        members[from].1
    } else {
        member_from(members, key, from + 1)
    }
}

/// The member of that name: null where there is none and where the value is no
/// object.
pub open spec fn member(j: JsonModel, key: Seq<char>) -> JsonModel {
    match j {
        JsonModel::Object(members) => member_from(members, key, 0),
        _ => JsonModel::Null,
    }
}

/// The value's text, where it is one.
pub open spec fn text_in(j: JsonModel) -> Option<Seq<char>> {
    match j {
        JsonModel::Text(s) => Some(s),
        _ => None,
    }
}

impl Json {
    /// The member of that name, where the value is an object that has one.
    pub fn member(&self, key: &str) -> (r: Option<&Json>)
        ensures
            match r {
                Some(j) => member(self@, key@) == j@,
                None => member(self@, key@) == JsonModel::Null,
            },
    {
        match self {
            Json::Object(members) => {
                let wanted = chars_of(key);
                let ghost all = self@->Object_0;
                let mut i: usize = 0;
                while i < members.len()
                    invariant
                        i <= members@.len(),
                        wanted@ == key@,
                        self@ == JsonModel::Object(all),
                        all.len() == members@.len(),
                        forall|k: int|
                            0 <= k < all.len() ==> #[trigger] all[k] == (
                                members@[k].0@,
                                members@[k].1@,
                            ),
                        member_from(all, key@, 0) == member_from(all, key@, i as int),
                    decreases members@.len() - i,
                {
                    assert(all[i as int] == (members@[i as int].0@, members@[i as int].1@));
                    if same_text(&chars_of(members[i].0.as_str()), &wanted) {
                        return Some(&members[i].1);
                    }
                    i = i + 1;
                }
                None
            },
            _ => None,
        }
    }

    /// The value's text, where it is one.
    pub fn text(&self) -> (r: Option<&String>)
        ensures
            match r {
                Some(s) => text_in(self@) == Some(s@),
                None => text_in(self@) is None,
            },
    {
        match self {
            Json::Text(s) => Some(s),
            _ => None,
        }
    }

    /// Whether the value is the truth value `true`.
    pub fn is_true(&self) -> (r: bool)
        ensures
            r == (self@ == JsonModel::Bool(true)),
    {
        match self {
            Json::Bool(b) => *b,
            _ => false,
        }
    }
}

// ---------------------------------------------------------------------------
// Laws
// ---------------------------------------------------------------------------

/// Whether `j` is an object whose first member of that name is `value`.
pub open spec fn has_member(j: JsonModel, key: Seq<char>, value: JsonModel) -> bool {
    match j {
        JsonModel::Object(members) => exists|i: int|
            0 <= i < members.len() && #[trigger] members[i] == (key, value) && forall|k: int|
                0 <= k < i ==> (#[trigger] members[k]).0 != key,
        _ => false,
    }
}

/// Whether `j` is no object, or one without a member of that name.
pub open spec fn lacks_member(j: JsonModel, key: Seq<char>) -> bool {
    match j {
        JsonModel::Object(members) => forall|i: int|
            0 <= i < members.len() ==> (#[trigger] members[i]).0 != key,
        _ => true,
    }
}

proof fn lemma_member_at(
    members: Seq<(Seq<char>, JsonModel)>,
    key: Seq<char>,
    from: int,
    i: int,
)
    requires
        0 <= from <= i <= members.len(),
        forall|k: int| from <= k < i ==> (#[trigger] members[k]).0 != key,
        i < members.len() ==> members[i].0 == key,
    ensures
        member_from(members, key, from) == (if i < members.len() {
            members[i].1
        } else {
            JsonModel::Null
        }),
    decreases i - from,
{
    if from < i {
        lemma_member_at(members, key, from + 1, i);
    }
}

/// The member of a name is the first member of that name, as it stands; a value
/// without such a member has null there.
pub proof fn member_is_the_first_of_its_name(j: JsonModel, key: Seq<char>, value: JsonModel)
    ensures
        has_member(j, key, value) ==> member(j, key) == value,
        lacks_member(j, key) ==> member(j, key) == JsonModel::Null,
{
    if let JsonModel::Object(members) = j {
        if has_member(j, key, value) {
            let i = choose|i: int|
                0 <= i < members.len() && #[trigger] members[i] == (key, value) && forall|k: int|
                    0 <= k < i ==> (#[trigger] members[k]).0 != key;
            lemma_member_at(members, key, 0, i);
        }
        if lacks_member(j, key) {
            lemma_member_at(members, key, 0, members.len() as int);
        }
    }
}

} // verus!
