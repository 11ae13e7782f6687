//! Small string helpers: equality of string slices, appending
//! characters and decimal numbers, and checked character codes.

use vstd::prelude::*;

verus! {

/// Whether two string slices hold the same characters.
#[verifier::loop_isolation(false)]
pub fn str_eq(a: &str, b: &str) -> (r: bool)
    ensures
        r == (a@ == b@),
{
    let la = a.unicode_len();
    let lb = b.unicode_len();
    if la != lb {
        return false;
    }
    let mut i: usize = 0;
    while i < la
        invariant
            la == a@.len() == b@.len(),
            0 <= i <= la,
            forall|j: int| 0 <= j < i ==> a@[j] == b@[j],
        decreases la - i,
    {
        if a.get_char(i) != b.get_char(i) {
            return false;
        }
        i = i + 1;
    }
    proof {
        assert(a@ =~= b@);
    }
    true
}

/// Relies on `String::push`: appends exactly one character at the end.
#[verifier::external_body]
pub fn push_char(s: &mut String, c: char)
    ensures
        final(s)@ == old(s)@.push(c),
{
    s.push(c)
}

/// The character codes that a `char` can carry: Unicode scalar values.
pub open spec fn valid_char_code(c: int) -> bool {
    (0 <= c < 0xD800) || (0xE000 <= c <= 0x10FFFF)
}

/// Relies on `char::from_u32`: `Some` exactly on Unicode scalar
/// values, and the returned character carries the given code.
#[verifier::external_body]
pub fn char_from_u32(u: u32) -> (r: Option<char>)
    ensures
        r == (if valid_char_code(u as int) {
            Some(u as char)
        } else {
            None::<char>
        }),
{
    char::from_u32(u)
}

/// The decimal digit character for `d`, for `d < 10`.
pub open spec fn digit_char(d: nat) -> char {
    ((48 + d) as u8) as char
}

/// The decimal rendering of `n`, most significant digit first, with
/// no leading zeroes.
pub open spec fn dec_digits(n: nat) -> Seq<char>
    decreases n,
{
    if n < 10 {
        seq![digit_char(n)]
    } else {
        dec_digits(n / 10) + seq![digit_char(n % 10)]
    }
}

/// Appends the decimal rendering of `n` to `s`.
pub fn push_dec(s: &mut String, n: usize)
    ensures
        final(s)@ == old(s)@ + dec_digits(n as nat),
    decreases n,
{
    if n < 10 {
        let d: u8 = 48 + (n as u8);
        push_char(s, d as char);
        assert(s@ =~= old(s)@ + dec_digits(n as nat));
    } else {
        push_dec(s, n / 10);
        let d: u8 = 48 + ((n % 10) as u8);
        push_char(s, d as char);
        assert(s@ =~= old(s)@ + dec_digits(n as nat));
    }
}

} // verus!
