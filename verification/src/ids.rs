//! Fresh identifiers and the time.
use vstd::prelude::*;

verus! {

/// Whether `c` is a hexadecimal digit, in small letters.
pub open spec fn hex_digit(c: char) -> bool {
    '0' <= c <= '9' || 'a' <= c <= 'f'
}

/// Whether `s` is a random UUID in its usual form: 36 characters, hyphens after the
/// 8th, 12th, 16th and 20th of its hexadecimal digits, the 13th of which is 4.
pub open spec fn random_uuid(s: Seq<char>) -> bool {
    &&& s.len() == 36
    &&& s[14] == '4'
    &&& forall|i: int|
        0 <= i < 36 ==> if i == 8 || i == 13 || i == 18 || i == 23 {
            #[trigger] s[i] == '-'
        } else {
            hex_digit(s[i])
        }
}

/// Whether these are all random UUIDs.
pub open spec fn all_random(unique: Seq<Seq<char>>) -> bool {
    forall|k: int| 0 <= k < unique.len() ==> random_uuid(#[trigger] unique[k])
}

/// `uuid::Uuid::new_v4`, written by its `Display`: a random UUID. Nothing is said of
/// which one.
#[verifier::external_body]
pub(crate) fn fresh_uuid() -> (r: String)
    ensures
        random_uuid(r@),
{
    uuid::Uuid::new_v4().to_string()
}

/// `chrono::Utc::now` as `timestamp` gives it: the seconds since 1970 by the clock of
/// the machine, of which nothing is known.
#[verifier::external_body]
pub(crate) fn unix_time() -> (r: i64) {
    chrono::Utc::now().timestamp()
}

} // verus!
