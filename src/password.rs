//! Random passwords over the letters, the digits and `!@#$%^&*`.

use rand::Rng;
use vstd::prelude::*;

verus! {

/// Characters in a generated password.
pub const PASSWORD_LEN: usize = 20;

/// Size of the alphabet: 26 capitals, 26 small letters, 10 digits, 8 symbols.
pub const ALPHABET_LEN: usize = 70;

/// Relies on `rand::Rng::gen_range` over `rand::thread_rng()`: a number drawn
/// from `0..bound`, which panics only for an empty range.
#[verifier::external_body]
fn random_below(bound: usize) -> (r: usize)
    requires
        bound > 0,
    ensures
        r < bound,
{
    rand::thread_rng().gen_range(0..bound)
}

/// Relies on `String::push`: appends one character.
#[verifier::external_body]
fn push_char(s: &mut String, c: char)
    ensures
        final(s)@ == old(s)@.push(c),
{
    s.push(c)
}

/// `c` is an ASCII letter, an ASCII digit, or one of `!@#$%^&*`.
pub open spec fn in_alphabet(c: char) -> bool {
    ('A' <= c && c <= 'Z') || ('a' <= c && c <= 'z') || ('0' <= c && c <= '9') || c == '!' || c
        == '@' || c == '#' || c == '$' || c == '%' || c == '^' || c == '&' || c == '*'
}

/// Character `k` of `A..Z a..z 0..9 !@#$%^&*`, in that order.
pub open spec fn alphabet_at(k: int) -> char {
    if k < 26 {
        ((65 + k) as u8) as char
    } else if k < 52 {
        ((97 + (k - 26)) as u8) as char
    } else if k < 62 {
        ((48 + (k - 52)) as u8) as char
    } else {
        seq!['!', '@', '#', '$', '%', '^', '&', '*'][k - 62]
    }
}

/// Character `k` of `A..Z a..z 0..9 !@#$%^&*`.
pub fn alphabet_char(k: usize) -> (c: char)
    requires
        k < ALPHABET_LEN,
    ensures
        c == alphabet_at(k as int),
        in_alphabet(c),
{
    if k < 26 {
        ((65u8 + k as u8) as char)
    } else if k < 52 {
        ((97u8 + (k - 26) as u8) as char)
    } else if k < 62 {
        ((48u8 + (k - 52) as u8) as char)
    } else if k == 62 {
        '!'
    } else if k == 63 {
        '@'
    } else if k == 64 {
        '#'
    } else if k == 65 {
        '$'
    } else if k == 66 {
        '%'
    } else if k == 67 {
        '^'
    } else if k == 68 {
        '&'
    } else {
        '*'
    }
}

/// A password of twenty characters, each drawn at random from the alphabet.
pub fn generate_password() -> (r: String)
    ensures
        r@.len() == PASSWORD_LEN,
        forall|i: int| 0 <= i < r@.len() ==> in_alphabet(#[trigger] r@[i]),
{
    let mut s = String::new();
    let mut n: usize = 0;
    while n < PASSWORD_LEN
        invariant
            n <= PASSWORD_LEN,
            s@.len() == n,
            forall|i: int| 0 <= i < s@.len() ==> in_alphabet(#[trigger] s@[i]),
        decreases PASSWORD_LEN - n,
    {
        let c = alphabet_char(random_below(ALPHABET_LEN));
        let ghost before = s@;
        push_char(&mut s, c);
        assert forall|i: int| 0 <= i < s@.len() implies in_alphabet(#[trigger] s@[i]) by {
            if i < before.len() {
                assert(s@[i] == before[i]);
            }
        }
        n += 1;
    }
    s
}

} // verus!
