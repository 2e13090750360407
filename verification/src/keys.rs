//! Decimal note keys: the store names its notes `"1"`, `"2"`, ... and this
//! module produces and reasons about those decimal strings.

use vstd::prelude::*;
use crate::chars::chars_to_string;

verus! {

/// The character for a single decimal digit `d` (`0 <= d < 10`).
pub open spec fn digit_char(d: int) -> char {
    ((48 + d) as u8) as char
}

/// The decimal representation of a non-negative integer, as a sequence of
/// digit characters without sign or leading zeros (`0` is `"0"`).
pub open spec fn dec_rep(n: int) -> Seq<char>
    decreases n,
{
    if n < 10 {
        seq![digit_char(n)]
    } else {
        dec_rep(n / 10).push(digit_char(n % 10))
    }
}

/// The decimal representation is never empty.
pub proof fn lemma_dec_rep_len(n: int)
    ensures
        dec_rep(n).len() >= 1,
        n >= 10 ==> dec_rep(n).len() >= 2,
    decreases n,
{
    if n >= 10 {
        lemma_dec_rep_len(n / 10);
    }
}

/// Distinct non-negative integers have distinct decimal representations.
pub proof fn lemma_dec_rep_injective(a: int, b: int)
    requires
        a >= 0,
        b >= 0,
        dec_rep(a) == dec_rep(b),
    ensures
        a == b,
    decreases a,
{
    lemma_dec_rep_len(a);
    lemma_dec_rep_len(b);
    if a < 10 && b < 10 {
        assert(dec_rep(a)[0] == digit_char(a));
        assert(dec_rep(b)[0] == digit_char(b));
        assert(digit_char(a) as u8 == 48 + a);
        assert(digit_char(b) as u8 == 48 + b);
    } else if a < 10 {
        assert(dec_rep(a).len() == 1);
    } else if b < 10 {
        assert(dec_rep(b).len() == 1);
    } else {
        let la = dec_rep(a / 10);
        let lb = dec_rep(b / 10);
        assert(dec_rep(a).last() == digit_char(a % 10));
        assert(dec_rep(b).last() == digit_char(b % 10));
        assert(digit_char(a % 10) as u8 == 48 + a % 10);
        assert(digit_char(b % 10) as u8 == 48 + b % 10);
        assert(a % 10 == b % 10);
        assert(la =~= dec_rep(a).drop_last());
        assert(lb =~= dec_rep(b).drop_last());
        lemma_dec_rep_injective(a / 10, b / 10);
        vstd::arithmetic::div_mod::lemma_fundamental_div_mod(a, 10);
        vstd::arithmetic::div_mod::lemma_fundamental_div_mod(b, 10);
    }
}

/// The exec counterpart of [`digit_char`].
fn digit_of(d: usize) -> (c: char)
    requires
        d < 10,
    ensures
        c == digit_char(d as int),
{
    (48 + d as u8) as char
}

/// Appends the decimal digits of `n` to `out`.
fn push_decimal(n: usize, out: &mut Vec<char>)
    ensures
        final(out)@ == old(out)@ + dec_rep(n as int),
    decreases n,
{
    if n < 10 {
        out.push(digit_of(n));
        assert(out@ =~= old(out)@ + dec_rep(n as int));
    } else {
        push_decimal(n / 10, out);
        out.push(digit_of(n % 10));
        assert(out@ =~= old(out)@ + dec_rep(n as int));
    }
}

/// The decimal string for `n`: the key under which the store files a note.
pub fn key_for(n: usize) -> (s: String)
    ensures
        s@ == dec_rep(n as int),
{
    let mut digits: Vec<char> = Vec::new();
    push_decimal(n, &mut digits);
    assert(digits@ =~= dec_rep(n as int));
    chars_to_string(&digits)
}

} // verus!
