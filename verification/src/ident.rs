//! Random identifiers.

use vstd::prelude::*;
use vstd::string::*;

verus! {

/// Whether `c` is a hexadecimal digit, letters in lower case.
pub open spec fn is_hex(c: char) -> bool {
    ('0' <= c && c <= '9') || ('a' <= c && c <= 'f')
}

/// Whether `i` is a place of a hyphen in the text of a UUID.
pub open spec fn is_hyphen_place(i: int) -> bool {
    i == 8 || i == 13 || i == 18 || i == 23
}

/// Whether `s` is the hyphenated lower-case text of a random UUID (version 4,
/// RFC 4122 variant).
pub open spec fn is_uuid_text(s: Seq<char>) -> bool {
    &&& s.len() == 36
    &&& forall|i: int|
        #![trigger s[i]]
        0 <= i < 36 ==> if is_hyphen_place(i) {
            s[i] == '-'
        } else {
            is_hex(s[i])
        }
    &&& s[14] == '4'
    &&& (s[19] == '8' || s[19] == '9' || s[19] == 'a' || s[19] == 'b')
}

/// `uuid::Uuid::new_v4`, printed with its `Display`: 122 random bits with the
/// version and variant bits set, written as lower-case hexadecimal digits in
/// groups of 8, 4, 4, 4 and 12 with hyphens between them. Which digits come is
/// chance, so only the form is stated; that two calls give different texts is
/// overwhelmingly likely, but not certain, and is not stated. The bits come
/// from the operating system's source of randomness; where there is none the
/// call panics.
#[verifier::external_body]
fn random_uuid() -> (r: String)
    ensures
        is_uuid_text(r@),
{
    uuid::Uuid::new_v4().to_string()
}

/// A fresh identifier for a run.
pub fn fresh_run_id() -> (r: String)
    ensures
        is_uuid_text(r@),
{
    random_uuid()
}

/// A fresh name for a container or for a run's temporary directory.
pub fn fresh_name() -> (r: String)
    ensures
        exists|id: Seq<char>| r@ == "forge-"@ + id && #[trigger] is_uuid_text(id),
{
    let id = random_uuid();
    let r = "forge-".to_string().concat(id.as_str());
    assert(r@ == "forge-"@ + id@ && is_uuid_text(id@));
    r
}

} // verus!
