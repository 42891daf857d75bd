use vstd::prelude::*;
use crate::text::texts;

verus! {

#[verifier::external_type_specification]
#[verifier::external_body]
pub struct ExJsonError(serde_json::Error);

/// The strings of the JSON array that a text is, if it is a JSON array of
/// strings.
pub uninterp spec fn json_string_array(text: Seq<char>) -> Option<Seq<Seq<char>>>;

/// Calls `serde_json::from_str` for a vector of strings. Whether the text
/// is a JSON array of strings, and which strings it holds, depends on the
/// text alone.
#[verifier::external_body]
pub(crate) fn parse_string_array(text: &str) -> (result: Result<Vec<String>, serde_json::Error>)
    ensures
        match result {
            Ok(strings) => json_string_array(text@) == Some(texts(strings@)),
            Err(_) => json_string_array(text@) is None,
        },
{
    serde_json::from_str::<Vec<String>>(text)
}

/// The strings of the JSON array that a text is, if it is one.
pub fn string_array(text: &str) -> (strings: Option<Vec<String>>)
    ensures
        match strings {
            Some(found) => json_string_array(text@) == Some(texts(found@)),
            None => json_string_array(text@) is None,
        },
{
    match parse_string_array(text) {
        Ok(strings) => Some(strings),
        Err(_) => None,
    }
}

} // verus!
