//! Changes of single keys in the configuration document.
use vstd::prelude::*;

use crate::text::{chars_of, concat, trim, trimmed};
use vstd::string::StringExecFns;

verus! {

/// A JSON value.
#[verifier::external_type_specification]
#[verifier::external_body]
pub struct ExJsonValue(serde_json::Value);

/// A member of a JSON object; one that is neither a boolean nor a string, by
/// its compact text.
pub enum Member {
    Truth(bool),
    Text(Seq<char>),
    Other(Seq<char>),
}

/// The members of a JSON object; none for a value that is no object.
pub uninterp spec fn members(document: serde_json::Value) -> Option<Map<Seq<char>, Member>>;

/// What a text reads as: the members, as [`members`] gives them, or the
/// problem in words.
pub uninterp spec fn reading(text: Seq<char>) -> Result<
    Option<Map<Seq<char>, Member>>,
    Seq<char>,
>;

/// Calls `serde_json::from_str` for a `serde_json::Value`. What it reads, or
/// the words of its error, depend on the text alone.
#[verifier::external_body]
fn read_json(text: &str) -> (r: Result<serde_json::Value, String>)
    ensures
        match r {
            Ok(document) => reading(text@) == Ok::<
                Option<Map<Seq<char>, Member>>,
                Seq<char>,
            >(members(document)),
            Err(problem) => reading(text@) == Err::<
                Option<Map<Seq<char>, Member>>,
                Seq<char>,
            >(problem@),
        },
{
    match serde_json::from_str::<serde_json::Value>(text) {
        Ok(document) => Ok(document),
        Err(error) => Err(error.to_string()),
    }
}

/// Calls `serde_json::Map::new`: an object without members.
#[verifier::external_body]
fn empty_object() -> (r: serde_json::Value)
    ensures
        members(r) == Some(Map::<Seq<char>, Member>::empty()),
{
    serde_json::Value::Object(serde_json::Map::new())
}

/// Calls `serde_json::Value::as_object_mut` and, on an object,
/// `serde_json::Map::insert`: the member is set, every other one stays. A
/// value that is no object is left alone, and the answer is `false`.
#[verifier::external_body]
fn insert_member(document: &mut serde_json::Value, key: &str, value: ConfigValue) -> (r: bool)
    ensures
        r == members(*old(document)) is Some,
        members(*final(document)) == match members(*old(document)) {
            Some(before) => Some(before.insert(key@, value@)),
            None => None,
        },
{
    let value = match value {
        ConfigValue::Truth(truth) => serde_json::Value::Bool(truth),
        ConfigValue::Text(text) => serde_json::Value::String(text),
    };
    match document.as_object_mut() {
        Some(object) => {
            object.insert(key.to_string(), value);
            true
        },
        None => false,
    }
}

/// A value to write into the configuration.
#[derive(Debug, PartialEq, Eq)]
pub enum ConfigValue {
    Truth(bool),
    Text(String),
}

impl View for ConfigValue {
    type V = Member;

    open spec fn view(&self) -> Member {
        match self {
            ConfigValue::Truth(truth) => Member::Truth(*truth),
            ConfigValue::Text(text) => Member::Text(text@),
        }
    }
}

/// What a document holds before the change: a missing or blank one reads as an
/// empty object.
pub open spec fn present_members(contents: Option<&str>) -> Result<
    Option<Map<Seq<char>, Member>>,
    Seq<char>,
> {
    match contents {
        Some(text) => if trimmed(text@).len() == 0 {
            Ok(Some(Map::<Seq<char>, Member>::empty()))
        } else {
            reading(text@)
        },
        None => Ok(Some(Map::<Seq<char>, Member>::empty())),
    }
}

/// The words of a failed change.
pub open spec fn update_problem(path: Seq<char>, problem: Seq<char>) -> Seq<char> {
    "cannot update "@ + path + ": "@ + problem
}

fn update_error(path: &str, problem: &str) -> (r: String)
    ensures
        r@ == update_problem(path@, problem@),
{
    let mut message = concat("cannot update ", path);
    message.append(": ");
    message.append(problem);
    message
}

/// Sets one key of a document that was read, or begins a new one. Every other
/// key keeps its value.
pub fn set_key(
    document: Result<serde_json::Value, String>,
    path: &str,
    key: &str,
    value: ConfigValue,
) -> (r: Result<serde_json::Value, String>)
    ensures
        match document {
            Err(problem) => r matches Err(message) && message@ == update_problem(
                path@,
                "cannot parse "@ + path@ + ": "@ + problem@,
            ),
            Ok(before) => match members(before) {
                Some(present) => r matches Ok(after) && members(after) == Some(
                    present.insert(key@, value@),
                ),
                None => r matches Err(message) && message@ == update_problem(
                    path@,
                    "configuration root is not an object"@,
                ),
            },
        },
{
    let mut document = match document {
        Ok(document) => document,
        Err(problem) => {
            let mut inner = concat("cannot parse ", path);
            inner.append(": ");
            inner.append(problem.as_str());
            return Err(update_error(path, inner.as_str()));
        },
    };
    if insert_member(&mut document, key, value) {
        Ok(document)
    } else {
        Err(update_error(path, "configuration root is not an object"))
    }
}

/// The document with one key set. `contents` is the text of the file at
/// `path`, if it is there.
pub fn updated_document(
    contents: Option<&str>,
    path: &str,
    key: &str,
    value: ConfigValue,
) -> (r: Result<serde_json::Value, String>)
    ensures
        match present_members(contents) {
            Err(problem) => r matches Err(message) && message@ == update_problem(
                path@,
                "cannot parse "@ + path@ + ": "@ + problem,
            ),
            Ok(None) => r matches Err(message) && message@ == update_problem(
                path@,
                "configuration root is not an object"@,
            ),
            Ok(Some(present)) => r matches Ok(after) && members(after) == Some(
                present.insert(key@, value@),
            ),
        },
{
    let document = match contents {
        Some(text) => {
            if chars_of(trim(text).as_str()).len() == 0 {
                Ok(empty_object())
            } else {
                read_json(text)
            }
        },
        None => Ok(empty_object()),
    };
    set_key(document, path, key, value)
}

/// Setting a key changes that key and no other; a document that cannot be read
/// or is no object is refused, and none is written in its place.
pub proof fn law_only_the_key_is_changed(
    text: &str,
    path: &str,
    key: &str,
    value: ConfigValue,
    document: Result<serde_json::Value, String>,
    r: Result<serde_json::Value, String>,
    set: Result<serde_json::Value, String>,
    fresh: Result<serde_json::Value, String>,
)
    requires
        call_ensures(updated_document, (Some(text), path, key, value), r),
        call_ensures(updated_document, (None, path, key, value), fresh),
        call_ensures(set_key, (document, path, key, value), set),
    ensures
        fresh is Ok && members(fresh->Ok_0) is Some,
        members(fresh->Ok_0)->0.dom() =~= set![key@],
        members(fresh->Ok_0)->0[key@] == value@,
        r is Ok ==> members(r->Ok_0) is Some && members(r->Ok_0)->0.contains_key(key@) && members(
            r->Ok_0,
        )->0[key@] == value@,
        r is Ok && trimmed(text@).len() > 0 ==> (reading(text@) matches Ok(Some(before))
            ==> forall|k: Seq<char>|
            k != key@ ==> (before.contains_key(k) <==> #[trigger] members(
                r->Ok_0,
            )->0.contains_key(k)) && (before.contains_key(k) ==> members(r->Ok_0)->0[k]
                == before[k])),
        trimmed(text@).len() > 0 && reading(text@) is Err ==> r is Err,
        document is Err ==> set is Err,
        document is Ok && members(document->Ok_0) is None ==> set is Err,
        document is Ok && members(document->Ok_0) is Some ==> set is Ok && members(set->Ok_0)
            is Some && members(set->Ok_0)->0[key@] == value@ && members(set->Ok_0)->0.remove(key@)
            =~= members(document->Ok_0)->0.remove(key@),
{
}

} // verus!
