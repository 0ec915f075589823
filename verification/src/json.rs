//! The JSON library's word on whether a text is a JSON object.

use vstd::prelude::*;

verus! {

/// What `serde_json::from_str` makes of a text as a `serde_json::Map<String, serde_json::Value>`:
/// nothing to report where it takes the text, and the message of its error where it does not.
pub uninterp spec fn json_object_error(text: Seq<char>) -> Option<Seq<char>>;

/// The reason of a refusal.
pub open spec fn reason_of(checked: Result<(), String>) -> Option<Seq<char>> {
    match checked {
        Ok(_) => None,
        Err(reason) => Some(reason@),
    }
}

/// Calls `serde_json::from_str` for a `serde_json::Map<String, serde_json::Value>` and reports
/// whether the text is taken, or the message of the error. The outcome is a function of the text
/// alone; which texts are JSON objects, and how the messages read, is left to that library.
#[verifier::external_body]
pub(crate) fn check_json_object(text: &str) -> (checked: Result<(), String>)
    ensures
        reason_of(checked) == json_object_error(text@),
{
    match serde_json::from_str::<serde_json::Map<String, serde_json::Value>>(text) {
        Ok(_) => Ok(()),
        Err(error) => Err(error.to_string()),
    }
}

} // verus!
