//! The human-readable session id generator: three letters, a dash, five
//! letters or digits. Collisions are not actively prevented; callers that
//! need uniqueness must reject and retry.

use vstd::prelude::*;

use crate::text::chars_to_string;

verus! {

pub assume_specification<T>[ rand::random::<T> ]() -> (r: T)
    where
        rand::distributions::Standard: rand::distributions::Distribution<T>,
;

/// Whether a character is an upper-case letter.
pub open spec fn sp_upper(c: char) -> bool {
    'A' <= c <= 'Z'
}

/// Whether a character is an upper-case letter or a digit.
pub open spec fn sp_upper_or_digit(c: char) -> bool {
    sp_upper(c) || '0' <= c <= '9'
}

/// Whether a string has the generated-id shape: `AAA-BBBBB`.
pub open spec fn sp_id_shape(s: Seq<char>) -> bool {
    &&& s.len() == 9
    &&& s[3] == '-'
    &&& forall|i: int| 0 <= i < 3 ==> sp_upper(#[trigger] s[i])
    &&& forall|i: int| 4 <= i < 9 ==> sp_upper_or_digit(#[trigger] s[i])
}

/// The letter a random byte picks.
fn letter_of(b: u8) -> (r: char)
    ensures
        sp_upper(r),
{
    let d = b % 26;
    (('A' as u8) + d) as char
}

/// The letter or digit a random byte picks.
fn letter_or_digit_of(b: u8) -> (r: char)
    ensures
        sp_upper_or_digit(r),
{
    let d = b % 36;
    if d < 26 {
        (('A' as u8) + d) as char
    } else {
        (('0' as u8) + (d - 26)) as char
    }
}

/// Builds an id of the documented shape from eight random bytes.
pub fn generate_id_from(bytes: &[u8; 8]) -> (r: String)
    ensures
        sp_id_shape(r@),
{
    let mut v: Vec<char> = Vec::new();
    v.push(letter_of(bytes[0]));
    v.push(letter_of(bytes[1]));
    v.push(letter_of(bytes[2]));
    v.push('-');
    v.push(letter_or_digit_of(bytes[3]));
    v.push(letter_or_digit_of(bytes[4]));
    v.push(letter_or_digit_of(bytes[5]));
    v.push(letter_or_digit_of(bytes[6]));
    v.push(letter_or_digit_of(bytes[7]));
    let r = chars_to_string(v);
    proof {
        assert(sp_id_shape(r@));
    }
    r
}

/// Draws a fresh id. Whatever the random source hands back, the result has
/// the documented shape.
pub fn generate_id() -> (r: String)
    ensures
        sp_id_shape(r@),
{
    let bytes: [u8; 8] = rand::random();
    generate_id_from(&bytes)
}

} // verus!
