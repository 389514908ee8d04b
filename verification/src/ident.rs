//! Identifiers and time stamps: the two values that come from outside the
//! pipeline's own rules.
//!
//! An identifier is the 128-bit value of a UUID. Its text is the usual
//! hyphenated form in lower-case hexadecimal.

use crate::model::Timestamp;
use vstd::arithmetic::power::pow;
use vstd::prelude::*;

verus! {

/// The lower-case hexadecimal digit for `n`.
pub open spec fn hex_char(n: int) -> char {
    seq!['0', '1', '2', '3', '4', '5', '6', '7', '8', '9', 'a', 'b', 'c', 'd', 'e', 'f'][n]
}

/// The `k`-th of the 32 hexadecimal digits of `id`, most significant first.
pub open spec fn hex_place(id: u128, k: int) -> int {
    (id as int / pow(16, (31 - k) as nat)) % 16
}

/// The hyphenated text of an identifier: its 32 hexadecimal digits in groups
/// of 8, 4, 4, 4 and 12, with a hyphen between groups.
pub open spec fn hyphenated(id: u128) -> Seq<char> {
    Seq::new(
        36,
        |i: int|
            if i == 8 || i == 13 || i == 18 || i == 23 {
                '-'
            } else if i < 8 {
                hex_char(hex_place(id, i))
            } else if i < 13 {
                hex_char(hex_place(id, i - 1))
            } else if i < 18 {
                hex_char(hex_place(id, i - 2))
            } else if i < 23 {
                hex_char(hex_place(id, i - 3))
            } else {
                hex_char(hex_place(id, i - 4))
            },
    )
}

/// Whether `id` is marked as a random UUID: its version digit is 4 and its
/// variant digit is one of 8, 9, a and b.
pub open spec fn is_random_id(id: u128) -> bool {
    hex_place(id, 12) == 4 && 8 <= hex_place(id, 16) < 12
}

/// The text of an identifier holds 36 characters, each a hexadecimal digit
/// or a hyphen: it holds no slash and no dot.
pub proof fn lemma_hyphenated_chars(id: u128)
    ensures
        hyphenated(id).len() == 36,
        forall|i: int|
            0 <= i < 36 ==> {
                let c = #[trigger] hyphenated(id)[i];
                c == '-' || '0' <= c <= '9' || 'a' <= c <= 'f'
            },
        !hyphenated(id).contains('/'),
        !hyphenated(id).contains('.'),
{
    assert forall|i: int| 0 <= i < 36 implies {
        let c = #[trigger] hyphenated(id)[i];
        c == '-' || '0' <= c <= '9' || 'a' <= c <= 'f'
    } by {
        let k = if i < 8 {
            i
        } else if i < 13 {
            i - 1
        } else if i < 18 {
            i - 2
        } else if i < 23 {
            i - 3
        } else {
            i - 4
        };
        let n = hex_place(id, k);
        assert(0 <= n < 16);
        assert(n == 0 || n == 1 || n == 2 || n == 3 || n == 4 || n == 5 || n == 6 || n == 7 || n
            == 8 || n == 9 || n == 10 || n == 11 || n == 12 || n == 13 || n == 14 || n == 15);
    }
}

/// `Uuid::to_string` of the `uuid` crate, on the UUID made by
/// `Uuid::from_u128`. The crate formats a UUID through its hyphenated
/// lower-case form: the bytes of the value, most significant first, as two
/// hexadecimal digits each, with hyphens after the 8th, 12th, 16th and 20th
/// digit.
#[verifier::external_body]
pub(crate) fn id_text(id: u128) -> (text: String)
    ensures
        text@ == hyphenated(id),
{
    uuid::Uuid::from_u128(id).to_string()
}

/// `Uuid::new_v4` of the `uuid` crate, read with `Uuid::as_u128`. The value
/// is random but for the six bits that mark it as a random UUID, which the
/// crate sets in every value it makes. It does not return on a machine that
/// cannot give random bytes.
#[verifier::external_body]
pub(crate) fn fresh_id() -> (id: u128)
    ensures
        is_random_id(id),
{
    uuid::Uuid::new_v4().as_u128()
}

/// `Utc::now` of the `chrono` crate, read with `DateTime::timestamp` and
/// `DateTime::timestamp_subsec_nanos`. The crate takes the system clock's
/// distance from the start of 1970, so the seconds are not negative and the
/// nanoseconds stay below one second. It does not return on a machine whose
/// clock stands before 1970.
#[verifier::external_body]
pub(crate) fn current_time() -> (now: Timestamp)
    ensures
        now.secs >= 0,
        now.nanos < 1_000_000_000,
{
    let now = chrono::Utc::now();
    Timestamp { secs: now.timestamp(), nanos: now.timestamp_subsec_nanos() }
}

} // verus!
