//! What the library takes from serde_json: re-encoding a text as compact JSON.
use vstd::prelude::*;

verus! {

/// The compact JSON text of the value that `s` parses to, or `None` when `s` is not JSON.
pub uninterp spec fn json_reencoded(s: Seq<char>) -> Option<Seq<char>>;

/// The compact JSON text of the JSON string whose content is `s` (quoted and escaped).
pub uninterp spec fn json_quoted(s: Seq<char>) -> Seq<char>;

/// `serde_json::from_str::<serde_json::Value>`, then the value's `Display` (compact
/// serialization): the text re-encoded, or `None` where serde_json refuses the text.
/// The result is a function of `s` alone; what it is is left to serde_json.
#[verifier::external_body]
pub(crate) fn json_reencode(s: &str) -> (res: Option<String>)
    ensures
        match res {
            Some(t) => json_reencoded(s@) == Some(t@),
            None => json_reencoded(s@) is None,
        },
{
    match serde_json::from_str::<serde_json::Value>(s) {
        Ok(v) => Some(v.to_string()),
        Err(_) => None,
    }
}

/// The `Display` (compact serialization) of `serde_json::Value::String(s)`: `s` as a JSON
/// string literal. The result is a function of `s` alone; what it is is left to serde_json.
#[verifier::external_body]
pub(crate) fn json_string_literal(s: &str) -> (res: String)
    ensures
        res@ == json_quoted(s@),
{
    serde_json::Value::String(s.to_string()).to_string()
}

} // verus!
