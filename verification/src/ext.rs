//! Trusted boundary: the few outside calls the verified code relies on.
//!
//! Each function here wraps exactly one call whose behaviour Verus takes
//! from the stated contract; everything around these wrappers is proved.

use vstd::prelude::*;

verus! {

/// Relies on `char::from_u32`: `Some` exactly for Unicode scalar values
/// (not a surrogate, at most 0x10FFFF), yielding the character with that
/// code point.
#[verifier::external_body]
pub fn char_from_u32(u: u32) -> (r: Option<char>)
    ensures
        r is Some <==> crate::parse::is_scalar_code(u as int),
        match r {
            Some(c) => c == u as char,
            None => true,
        },
{
    char::from_u32(u)
}

/// Relies on `String`'s `FromIterator<char>`: the string holding exactly
/// the given characters, in order.
#[verifier::external_body]
pub fn string_from_chars(cs: &Vec<char>) -> (r: String)
    ensures
        r@ == cs@,
{
    cs.iter().collect()
}

/// Relies on `str::from_utf8`: `Ok` exactly for valid UTF-8, giving the
/// decoded characters.
#[verifier::external_body]
pub fn utf8_to_string(bytes: &[u8]) -> (r: Option<String>)
    ensures
        r is Some <==> vstd::utf8::valid_utf8(bytes@),
        match r {
            Some(s) => s@ == vstd::utf8::decode_utf8(bytes@),
            None => true,
        },
{
    match std::str::from_utf8(bytes) {
        Ok(s) => Some(s.to_owned()),
        Err(_) => None,
    }
}

/// Relies on `uuid::Uuid::new_v4` and its hyphenated form: a fresh random
/// identifier, 36 characters long; nothing else is assumed of it. The
/// crate's random-number shim aborts the process if the operating
/// system's random source fails — an environmental fault, not one any
/// input can trigger.
#[verifier::external_body]
pub fn fresh_uuid() -> (r: String)
    ensures
        r@.len() == 36,
{
    uuid::Uuid::new_v4().to_string()
}

/// Relies on `gethostname::gethostname`: the machine's host name; nothing
/// is assumed of the value.
#[verifier::external_body]
pub fn host_name() -> String {
    gethostname::gethostname().into_string().unwrap_or(String::new())
}

} // verus!
