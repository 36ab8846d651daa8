//! Fresh identifiers from the `uuid` crate.

use vstd::prelude::*;

verus! {

/// A lowercase hexadecimal digit.
pub open spec fn is_lower_hex(c: char) -> bool {
    ('0' <= c && c <= '9') || ('a' <= c && c <= 'f')
}

/// The hyphenated form of a UUID: 36 characters, hyphens at 8, 13, 18 and
/// 23, lowercase hexadecimal digits elsewhere.
pub open spec fn is_hyphenated_uuid(s: Seq<char>) -> bool {
    &&& s.len() == 36
    &&& forall|i: int| 0 <= i < 36 ==> if i == 8 || i == 13 || i == 18 || i == 23 {
        s[i] == '-'
    } else {
        is_lower_hex(#[trigger] s[i])
    }
}

/// The simple form of a UUID: 32 lowercase hexadecimal digits.
pub open spec fn is_simple_uuid(s: Seq<char>) -> bool {
    s.len() == 32 && forall|i: int| 0 <= i < 32 ==> is_lower_hex(#[trigger] s[i])
}

/// Calls `uuid::Uuid::new_v4` and writes it with `to_string`, which gives the
/// lowercase hyphenated form. The value is random; only its form is stated.
#[verifier::external_body]
pub(crate) fn new_uuid_string() -> (r: String)
    ensures
        is_hyphenated_uuid(r@),
{
    uuid::Uuid::new_v4().to_string()
}

/// Calls `uuid::Uuid::new_v4` and writes its `simple()` form: 32 lowercase
/// hexadecimal digits. The value is random; only its form is stated.
#[verifier::external_body]
pub(crate) fn new_uuid_simple() -> (r: String)
    ensures
        is_simple_uuid(r@),
{
    uuid::Uuid::new_v4().simple().to_string()
}

} // verus!
