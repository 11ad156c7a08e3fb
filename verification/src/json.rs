//! JSON documents as text: a member of an object, the text of a string, and a string as JSON.

use vstd::prelude::*;

verus! {

/// The member of a JSON object: the document of the value under `key`, nothing where the document
/// is no object or has no such key, and the parser's words where it is no JSON.
pub uninterp spec fn json_member(document: Seq<char>, key: Seq<char>) -> Result<
    Option<Seq<char>>,
    Seq<char>,
>;

/// The text of a JSON string; nothing where the document is anything else.
pub uninterp spec fn json_string(document: Seq<char>) -> Option<Seq<char>>;

/// A text as a JSON string.
pub uninterp spec fn json_quoted(text: Seq<char>) -> Seq<char>;

/// `serde_json::Value::get` on the value that `serde_json::from_str` reads from a document: a
/// member that depends on the document and the key alone, written back as a document, or the words
/// of the error where the document cannot be read. What JSON is, is left to the name.
#[verifier::external_body]
pub(crate) fn member(document: &str, key: &str) -> (found: Result<Option<String>, String>)
    ensures
        match found {
            Ok(Some(value)) => json_member(document@, key@) == Ok::<_, Seq<char>>(Some(value@)),
            Ok(None) => json_member(document@, key@) == Ok::<Option<Seq<char>>, Seq<char>>(None),
            Err(words) => json_member(document@, key@) == Err::<Option<Seq<char>>, _>(words@),
        },
{
    let value: serde_json::Value = serde_json::from_str(document).map_err(|e| e.to_string())?;
    Ok(value.get(key).map(|found| found.to_string()))
}

/// `serde_json::Value::as_str` on the value that `serde_json::from_str` reads from a document: a
/// text that depends on the document alone, and none where that is not a string.
#[verifier::external_body]
pub(crate) fn string(document: &str) -> (text: Option<String>)
    ensures
        match text {
            Some(t) => json_string(document@) == Some(t@),
            None => json_string(document@) is None,
        },
{
    let value: serde_json::Value = serde_json::from_str(document).ok()?;
    value.as_str().map(|text| text.to_owned())
}

/// The compact text that `serde_json` displays a `Value::String` as: a document that depends on the
/// text alone, and that reads back as that text.
#[verifier::external_body]
pub(crate) fn quoted(text: &str) -> (document: String)
    ensures
        document@ == json_quoted(text@),
        json_string(document@) == Some(text@),
{
    serde_json::Value::String(text.to_owned()).to_string()
}

} // verus!
