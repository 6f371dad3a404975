use vstd::prelude::*;
use crate::json::{json_pretty_string_list, json_string_list, parse_string_list, render_string_list};
use crate::keys::{decode_key_texts, encode_key_texts, key_texts, key_views, keys_from_texts, lemma_keys_from_key_texts};
use crate::pubkey::Pubkey;

verus! {

/// Why a list of keys could not be written out.
#[derive(Debug, Clone, Copy, PartialEq, Eq)]
pub enum PersistError {
    /// The JSON encoder refused the list.
    Encoding,
}

/// The keys that a stored JSON text lists: the valid hexadecimal keys of a JSON array
/// of strings, in order, or none where the text is no such array.
pub open spec fn stored_keys(text: Seq<char>) -> Seq<Seq<u8>> {
    match json_string_list(text) {
        Some(items) => keys_from_texts(items),
        None => seq![],
    }
}

/// `stored_keys` of an optional text; no text stores no keys.
pub open spec fn stored_keys_of(text: Option<Seq<char>>) -> Seq<Seq<u8>> {
    match text {
        Some(t) => stored_keys(t),
        None => seq![],
    }
}

/// The view of an optional string.
pub open spec fn opt_text(text: Option<&str>) -> Option<Seq<char>> {
    match text {
        Some(t) => Some(t@),
        None => None,
    }
}

/// Reads the keys that a stored JSON text lists.
pub fn read_stored_keys(text: Option<&str>) -> (r: Vec<Pubkey>)
    ensures
        key_views(r@) == stored_keys_of(opt_text(text)),
{
    match text {
        None => {
            let empty: Vec<Pubkey> = Vec::new();
            assert(key_views(empty@) =~= seq![]);
            empty
        },
        Some(t) => match parse_string_list(t) {
            Ok(items) => decode_key_texts(&items),
            Err(_) => {
                let empty: Vec<Pubkey> = Vec::new();
                assert(key_views(empty@) =~= seq![]);
                empty
            },
        },
    }
}

/// The pretty JSON array of the keys' lowercase hexadecimal texts; what it returns
/// reads back as the same keys, and it is always produced.
pub fn write_stored_keys(keys: &Vec<Pubkey>) -> (r: Result<String, PersistError>)
    ensures
        r is Ok,
        r matches Ok(text) ==> text@ == json_pretty_string_list(key_texts(key_views(keys@))),
        r matches Ok(text) ==> stored_keys(text@) == key_views(keys@),
{
    let texts = encode_key_texts(keys);
    match render_string_list(&texts) {
        Ok(text) => {
            proof {
                lemma_keys_from_key_texts(key_views(keys@));
            }
            Ok(text)
        },
        Err(_) => Err(PersistError::Encoding),
    }
}

} // verus!
