//! Calls into outside crates. What these items promise is taken on trust from
//! the crates' documentation and source; everything built on them is proved.
use crate::text::{digits_value, is_digit};
use vstd::prelude::*;

verus! {

/// Whether an id is a random UUID: version 4, of the variant of RFC 9562.
pub open spec fn is_random_id(id: u128) -> bool {
    &&& (id >> 76) & 0xF == 4
    &&& (id >> 62) & 3 == 2
}

/// Whether the two digits before place `end` of `s` write a number from `lo` to
/// `hi`.
pub open spec fn two_digits(s: Seq<char>, end: int, lo: nat, hi: nat) -> bool {
    lo <= digits_value(s.subrange(end - 2, end)) <= hi
}

/// Whether `s` is a time in the form `%Y%m%d-%H%M%S`: the year in four digits, or
/// in more with a sign, the month and the day, a dash, then hour, minute and
/// second.
pub open spec fn is_stamp(s: Seq<char>) -> bool {
    let n = s.len() as int;
    &&& n >= 15
    &&& is_digit(s[0]) || s[0] == '+' || s[0] == '-'
    &&& s[n - 7] == '-'
    &&& forall|i: int| 0 < i < n && i != n - 7 ==> is_digit(#[trigger] s[i])
    &&& two_digits(s, n - 9, 1, 12)
    &&& two_digits(s, n - 7, 1, 31)
    &&& two_digits(s, n - 4, 0, 23)
    &&& two_digits(s, n - 2, 0, 59)
    &&& two_digits(s, n, 0, 60)
}

/// `uuid::Uuid::new_v4`, as the 128-bit number that `as_u128` gives. The id is
/// random: all that holds of every one is the version (4) and the variant bits.
/// Two calls may return the same id.
#[verifier::external_body]
pub(crate) fn fresh_uuid() -> (id: u128)
    ensures
        is_random_id(id),
{
    uuid::Uuid::new_v4().as_u128()
}

/// `chrono::Local::now`, rendered by `DateTime::format`. The format is one that
/// `format` renders without an error: the text has its form, with each part in its
/// range (a leap second is written as 60). Which time it is depends on the clock
/// and the time zone of the machine, so nothing is promised of that.
#[verifier::external_body]
pub(crate) fn local_time(format: &str) -> (text: String)
    requires
        format@ == "%Y%m%d-%H%M%S"@,
    ensures
        is_stamp(text@),
{
    chrono::Local::now().format(format).to_string()
}

} // verus!
