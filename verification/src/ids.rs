//! Room identifiers: minting fresh ids and validating client-supplied ones.
//!
//! Room ids are UUID strings. What counts as a parseable UUID is decided by
//! the `uuid` crate; the library names that judgement `uuid_string` and
//! builds its validation contract on it.

use vstd::prelude::*;

verus! {

/// Whether the `uuid` crate's `Uuid::parse_str` accepts `s`. The exact
/// grammar (hyphenated, simple, braced and URN forms) belongs to that crate;
/// the library only relies on the judgement being a function of `s`.
pub uninterp spec fn uuid_string(s: Seq<char>) -> bool;

/// Relies on `uuid::Uuid::new_v4` and the `Display` rendering of `Uuid`: a
/// fresh v4 UUID prints in hyphenated form (36 characters), which
/// `Uuid::parse_str` accepts.
#[verifier::external_body]
pub(crate) fn fresh_room_id() -> (r: String)
    ensures
        uuid_string(r@),
        r@.len() == 36,
{
    uuid::Uuid::new_v4().to_string()
}

/// Relies on `uuid::Uuid::parse_str`: returns whether it accepts `s`.
#[verifier::external_body]
pub(crate) fn parse_room_id_ok(s: &String) -> (r: bool)
    ensures
        r == uuid_string(s@),
{
    uuid::Uuid::parse_str(s.as_str()).is_ok()
}

/// Accept a client-supplied room id exactly when it parses as a UUID; the
/// error carries the message the HTTP layer reports with status 400.
pub fn validate_room_id(room_id: &String) -> (r: Result<(), &'static str>)
    ensures
        r matches Ok(()) <==> uuid_string(room_id@),
        r matches Err(e) ==> e@ == "Invalid room ID format"@ && !uuid_string(room_id@),
{
    if parse_room_id_ok(room_id) {
        Ok(())
    } else {
        Err("Invalid room ID format")
    }
}

} // verus!
