use vstd::prelude::*;

verus! {

#[verifier::external_type_specification]
#[verifier::external_body]
pub struct ExJsonError(serde_json::Error);

/// The characters of each string in a list.
pub open spec fn string_views(v: Seq<String>) -> Seq<Seq<char>> {
    v.map_values(|s: String| s@)
}

/// The list of strings that a JSON text holds, if it is a JSON array of strings.
pub uninterp spec fn json_string_list(text: Seq<char>) -> Option<Seq<Seq<char>>>;

/// The pretty-printed JSON text of a list of strings.
pub uninterp spec fn json_pretty_string_list(items: Seq<Seq<char>>) -> Seq<char>;

/// `serde_json::from_str::<Vec<String>>`: parses a JSON array of strings. What it
/// accepts is named, not stated.
#[verifier::external_body]
pub(crate) fn parse_string_list(text: &str) -> (r: Result<Vec<String>, serde_json::Error>)
    ensures
        r is Ok <==> json_string_list(text@) is Some,
        r matches Ok(v) ==> json_string_list(text@) == Some(string_views(v@)),
{
    serde_json::from_str::<Vec<String>>(text)
}

/// `serde_json::to_string_pretty` on a `Vec<String>`: the text is named. It succeeds:
/// its documented failures are a `Serialize` impl that decides to fail and a map with
/// non-string keys, neither of which a list of strings has, and its writer is a
/// `Vec<u8>`. `serde_json::from_str::<Vec<String>>` reads the same strings back from
/// the text (strings are written escaped and read unescaped).
#[verifier::external_body]
pub(crate) fn render_string_list(items: &Vec<String>) -> (r: Result<String, serde_json::Error>)
    ensures
        r is Ok,
        r matches Ok(text) ==> text@ == json_pretty_string_list(string_views(items@)),
        r matches Ok(text) ==> json_string_list(text@) == Some(string_views(items@)),
{
    serde_json::to_string_pretty(items)
}

} // verus!
