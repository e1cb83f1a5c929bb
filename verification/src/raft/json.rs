//! JSON encoding of the plain values that are replicated or snapshotted.
//!
//! Everything here is a thin, trusted call into `serde_json`. The text that the
//! encoder produces and the value that the decoder recovers are not specified
//! here; they are only given names, so that contracts elsewhere can refer to them.
use vstd::prelude::*;

verus! {

/// The error type of `serde_json`, carried through opaquely.
#[verifier::external_type_specification]
#[verifier::external_body]
pub struct ExJsonError(serde_json::Error);

/// The JSON bytes that `serde_json::to_vec` gives for the pair of server lists
/// `(old, new)`, each server an `(id, address)` pair.
pub uninterp spec fn membership_json(
    old: Seq<(u64, Seq<char>)>,
    new: Seq<(u64, Seq<char>)>,
) -> Seq<u8>;

/// The pair of server lists that `serde_json::from_slice` reads from `data`, or
/// `None` where `data` is not the JSON of such a pair.
pub uninterp spec fn json_membership(data: Seq<u8>) -> Option<
    (Seq<(u64, Seq<char>)>, Seq<(u64, Seq<char>)>),
>;

/// The JSON text that `serde_json::to_string` gives for a list of byte strings.
pub uninterp spec fn payloads_json(payloads: Seq<Seq<u8>>) -> Seq<char>;

/// The list of byte strings that `serde_json::from_str` reads from `text`, or
/// `None` where `text` is not the JSON of such a list.
pub uninterp spec fn json_payloads(text: Seq<char>) -> Option<Seq<Seq<u8>>>;

/// Calls `serde_json::to_vec` on the tuple `(old, new)`.
///
/// Trusted: the call succeeds, and the bytes returned are the ones named
/// `membership_json`. The encoder fails only where a value refuses to be
/// serialized or a map has keys that are no strings; tuples and lists of numbers
/// and strings do neither. Nothing is claimed about what the bytes are.
#[verifier::external_body]
pub(crate) fn to_vec_membership(old: &Vec<(u64, String)>, new: &Vec<(u64, String)>) -> (r: Result<
    Vec<u8>,
    serde_json::Error,
>)
    ensures
        r is Ok,
        match r {
            Ok(bytes) => bytes@ == membership_json(old.deep_view(), new.deep_view()),
            Err(_) => true,
        },
{
    serde_json::to_vec(&(old, new))
}

/// Calls `serde_json::from_slice` for a tuple of two lists of `(id, address)` pairs.
///
/// Trusted: the value returned is the one named `json_membership`, and an
/// error is returned exactly where that name is `None`.
#[verifier::external_body]
pub(crate) fn from_slice_membership(data: &[u8]) -> (r: Result<
    (Vec<(u64, String)>, Vec<(u64, String)>),
    serde_json::Error,
>)
    ensures
        match r {
            Ok(lists) => json_membership(data@) == Some(lists.deep_view()),
            Err(_) => json_membership(data@) is None,
        },
{
    serde_json::from_slice::<(Vec<(u64, String)>, Vec<(u64, String)>)>(data)
}

/// Calls `serde_json::to_string` on a list of byte strings.
///
/// Trusted: the call succeeds, and the text returned is the one named
/// `payloads_json`. The encoder fails only where a value refuses to be
/// serialized or a map has keys that are no strings; lists of lists of bytes do
/// neither.
#[verifier::external_body]
pub(crate) fn to_string_payloads(payloads: &Vec<Vec<u8>>) -> (r: Result<String, serde_json::Error>)
    ensures
        r is Ok,
        match r {
            Ok(text) => text@ == payloads_json(payloads.deep_view()),
            Err(_) => true,
        },
{
    serde_json::to_string(payloads)
}

/// Calls `serde_json::from_str` for a list of byte strings.
///
/// Trusted: the value returned is the one named `json_payloads`, and an error
/// is returned exactly where that name is `None`.
#[verifier::external_body]
pub(crate) fn from_str_payloads(text: &str) -> (r: Result<Vec<Vec<u8>>, serde_json::Error>)
    ensures
        match r {
            Ok(payloads) => json_payloads(text@) == Some(payloads.deep_view()),
            Err(_) => json_payloads(text@) is None,
        },
{
    serde_json::from_str::<Vec<Vec<u8>>>(text)
}

} // verus!
