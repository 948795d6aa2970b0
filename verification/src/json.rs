//! JSON at the edges of the core: the stored form of a cached result, the
//! request put to the completion service and the reading of its answer.

use vstd::prelude::*;
use vstd::string::StringExecFns;
use crate::error::ErrorKind;
use crate::models::views;

verus! {

/// `serde_json::Value`, a JSON document in memory; nothing is known of its
/// inside.
#[verifier::external_type_specification]
#[verifier::external_body]
pub struct ExJsonValue(serde_json::Value);

/// `serde_json::Error`, why JSON was not written or read; nothing is known
/// of its inside.
#[verifier::external_type_specification]
#[verifier::external_body]
pub struct ExJsonError(serde_json::Error);

/// The JSON array that writes the texts `texts`, in their order.
pub uninterp spec fn json_of_texts(texts: Seq<Seq<char>>) -> Seq<char>;

/// The texts that the JSON text `json` writes, if it is an array of
/// strings.
pub uninterp spec fn texts_of_json(json: Seq<char>) -> Option<Seq<Seq<char>>>;

/// The JSON string that writes `text`, quotes and escapes included.
pub uninterp spec fn json_of_text(text: Seq<char>) -> Seq<char>;

/// The string that the JSON document `json` holds at the place that the
/// JSON pointer `pointer` names: `None` where `json` is no JSON, holds
/// nothing there, or holds something other than a string.
pub uninterp spec fn json_string_at(json: Seq<char>, pointer: Seq<char>) -> Option<Seq<char>>;

/// The string that `value` holds at the place that the JSON pointer
/// `pointer` names, if it holds a string there.
pub uninterp spec fn value_string_at(value: serde_json::Value, pointer: Seq<char>) -> Option<
    Seq<char>,
>;

/// The string that `value` is, if it is a string.
pub uninterp spec fn value_string(value: serde_json::Value) -> Option<Seq<char>>;

/// Whether the JSON document `json` holds an array at the place that the
/// JSON pointer `pointer` names.
pub uninterp spec fn json_array_at(json: Seq<char>, pointer: Seq<char>) -> bool;

/// Whether `value` holds an array at the place that the JSON pointer
/// `pointer` names.
pub uninterp spec fn value_array_at(value: serde_json::Value, pointer: Seq<char>) -> bool;

/// Whether `value` is an array.
pub uninterp spec fn value_is_array(value: serde_json::Value) -> bool;

/// `serde_json::to_string` on a list of strings: the JSON array of the
/// texts. It succeeds: it writes into memory, and a list of strings has
/// neither a map with keys that are no strings nor a part that refuses to
/// be written.
#[verifier::external_body]
fn texts_to_json(texts: &Vec<String>) -> (r: Result<String, serde_json::Error>)
    ensures
        match r {
            Ok(json) => json@ == json_of_texts(views(texts@)),
            Err(_) => false,
        },
{
    serde_json::to_string(texts)
}

/// `serde_json::from_str` for a list of strings: succeeds on a JSON array
/// of strings, and only there, with its texts in their order.
#[verifier::external_body]
fn texts_from_json(json: &str) -> (r: Result<Vec<String>, serde_json::Error>)
    ensures
        match r {
            Ok(texts) => texts_of_json(json@) == Some(views(texts@)),
            Err(_) => texts_of_json(json@) is None,
        },
{
    serde_json::from_str(json)
}

/// `serde_json::to_string` on one string: the JSON string of the text. It
/// succeeds: it writes into memory, and a string has no part that refuses
/// to be written.
#[verifier::external_body]
fn text_to_json(text: &str) -> (r: Result<String, serde_json::Error>)
    ensures
        match r {
            Ok(json) => json@ == json_of_text(text@),
            Err(_) => false,
        },
{
    serde_json::to_string(text)
}

/// `serde_json::from_str` for a `serde_json::Value`: succeeds on JSON, and
/// only there, with a document that holds the strings and the arrays of
/// `json` at their places.
#[verifier::external_body]
fn value_from_json(json: &str) -> (r: Result<serde_json::Value, serde_json::Error>)
    ensures
        match r {
            Ok(value) => (forall|pointer: Seq<char>|
                #[trigger] value_string_at(value, pointer) == json_string_at(json@, pointer))
                && (forall|pointer: Seq<char>|
                #[trigger] value_array_at(value, pointer) == json_array_at(json@, pointer)),
            Err(_) => (forall|pointer: Seq<char>| #[trigger]
                json_string_at(json@, pointer) is None) && (forall|pointer: Seq<char>|
                !#[trigger] json_array_at(json@, pointer)),
        },
{
    serde_json::from_str(json)
}

/// `serde_json::Value::pointer` looks up the value at a JSON pointer: what
/// it returns is a string exactly where `value` holds a string at that
/// place, and then that string; it is an array exactly where `value` holds
/// an array there.
pub assume_specification<'a>[ serde_json::Value::pointer ](
    value: &'a serde_json::Value,
    pointer: &str,
) -> (found: Option<&'a serde_json::Value>)
    ensures
        match found {
            Some(inner) => value_string(*inner) == value_string_at(*value, pointer@)
                && value_is_array(*inner) == value_array_at(*value, pointer@),
            None => value_string_at(*value, pointer@) is None && !value_array_at(
                *value,
                pointer@,
            ),
        },
;

/// `serde_json::Value::is_array` says whether the value is an array.
pub assume_specification[ serde_json::Value::is_array ](value: &serde_json::Value) -> (b: bool)
    ensures
        b == value_is_array(*value),
;

/// `serde_json::Value::as_str` returns the string that the value is, if it
/// is a string.
pub assume_specification[ serde_json::Value::as_str ](
    value: &serde_json::Value,
) -> (text: Option<&str>)
    ensures
        match text {
            Some(s) => value_string(*value) == Some(s@),
            None => value_string(*value) is None,
        },
;

/// The string that `value` holds at `pointer`.
fn value_text_at(value: &serde_json::Value, pointer: &str) -> (text: Option<String>)
    ensures
        match text {
            Some(t) => value_string_at(*value, pointer@) == Some(t@),
            None => value_string_at(*value, pointer@) is None,
        },
{
    match value.pointer(pointer) {
        Some(inner) => match inner.as_str() {
            Some(s) => Some(s.to_owned()),
            None => None,
        },
        None => None,
    }
}

/// Whether `value` holds an array at `pointer`.
fn value_lists_at(value: &serde_json::Value, pointer: &str) -> (b: bool)
    ensures
        b == value_array_at(*value, pointer@),
{
    match value.pointer(pointer) {
        Some(inner) => inner.is_array(),
        None => false,
    }
}

/// The string at `pointer` in the document `json`.
pub fn string_at(json: &str, pointer: &str) -> (text: Option<String>)
    ensures
        match text {
            Some(t) => json_string_at(json@, pointer@) == Some(t@),
            None => json_string_at(json@, pointer@) is None,
        },
{
    match value_from_json(json) {
        Ok(value) => value_text_at(&value, pointer),
        Err(_) => None,
    }
}

/// The stored form of the texts of a cached result: their JSON array.
/// Every list of texts has one.
pub fn encode_results(texts: &Vec<String>) -> (r: Result<String, ErrorKind>)
    ensures
        r matches Ok(json) && json@ == json_of_texts(views(texts@)),
{
    match texts_to_json(texts) {
        Ok(json) => Ok(json),
        Err(_) => Err(ErrorKind::Store),
    }
}

/// The texts of a cached result, from their stored form, in their order.
/// Fails where `json` is not an array of strings.
pub fn decode_results(json: &str) -> (r: Result<Vec<String>, ErrorKind>)
    ensures
        match r {
            Ok(texts) => texts_of_json(json@) == Some(views(texts@)),
            Err(e) => e == ErrorKind::Store && texts_of_json(json@) is None,
        },
{
    match texts_from_json(json) {
        Ok(texts) => Ok(texts),
        Err(_) => Err(ErrorKind::Store),
    }
}

/// The model that completions are asked of.
pub open spec fn request_head() -> Seq<char> {
    "{\"model\":\"deepseek-chat\",\"messages\":[{\"role\":\"user\",\"content\":"@
}

/// The request that asks for a completion of a prompt whose JSON string is
/// `prompt_json`: one message of the user, to the chat model.
pub open spec fn request_of(prompt_json: Seq<char>) -> Seq<char> {
    request_head() + prompt_json + "}]}"@
}

/// The body of the request around the JSON string of the prompt.
pub fn frame_request(prompt_json: &str) -> (body: String)
    ensures
        body@ == request_of(prompt_json@),
{
    let mut body = "{\"model\":\"deepseek-chat\",\"messages\":[{\"role\":\"user\",\"content\":".to_owned();
    body.append(prompt_json);
    body.append("}]}");
    body
}

/// The body of the request that asks the completion service to complete
/// `prompt`. Every prompt has one.
pub fn completion_request(prompt: &str) -> (r: Result<String, ErrorKind>)
    ensures
        r matches Ok(body) && body@ == request_of(json_of_text(prompt@)),
{
    match text_to_json(prompt) {
        Ok(json) => Ok(frame_request(json.as_str())),
        Err(_) => Err(ErrorKind::Llm),
    }
}

/// Where an answer of the completion service holds its choices.
pub open spec fn choices_pointer() -> Seq<char> {
    "/choices"@
}

/// Where an answer of the completion service holds its text.
pub open spec fn completion_pointer() -> Seq<char> {
    "/choices/0/message/content"@
}

/// The completion that an answer carries: its choices are an array, and the
/// message of the first of them has a string as its content. An answer
/// whose choices are anything else carries none, whatever it holds under
/// a member named `0`.
pub open spec fn completion_in(body: Seq<char>) -> Option<Seq<char>> {
    if json_array_at(body, choices_pointer()) {
        json_string_at(body, completion_pointer())
    } else {
        None
    }
}

/// The completion, given what the answer of the service holds at the place
/// of its text: an answer without a string there is a failure of the
/// service.
pub fn completion_from(content: Option<String>) -> (r: Result<String, ErrorKind>)
    ensures
        match content {
            Some(text) => r == Ok::<String, ErrorKind>(text),
            None => r == Err::<String, ErrorKind>(ErrorKind::Llm),
        },
{
    match content {
        Some(text) => Ok(text),
        None => Err(ErrorKind::Llm),
    }
}

/// The completion that the answer `body` of the service carries: the text
/// of the message of the first of its choices. Fails where `body` is not
/// JSON, where its choices are no array, or where it has no string at
/// that place.
pub fn extract_completion(body: &str) -> (r: Result<String, ErrorKind>)
    ensures
        match r {
            Ok(text) => completion_in(body@) == Some(text@),
            Err(e) => e == ErrorKind::Llm && completion_in(body@) is None,
        },
{
    match value_from_json(body) {
        Ok(value) => {
            if value_lists_at(&value, "/choices") {
                completion_from(value_text_at(&value, "/choices/0/message/content"))
            } else {
                completion_from(None)
            }
        },
        Err(_) => completion_from(None),
    }
}

} // verus!
