//! Building the texts of error messages.
use vstd::prelude::*;
use vstd::utf8::{decode_utf8, valid_utf8};

verus! {

/// The character of the decimal digit `d`.
pub open spec fn digit_char(d: int) -> char {
    if d == 0 { '0' } else if d == 1 { '1' } else if d == 2 { '2' } else if d == 3 { '3' }
    else if d == 4 { '4' } else if d == 5 { '5' } else if d == 6 { '6' } else if d == 7 { '7' }
    else if d == 8 { '8' } else { '9' }
}

/// The decimal representation of `n`, as `to_string` writes it.
pub open spec fn decimal(n: nat) -> Seq<char>
    decreases n,
{
    if n < 10 {
        seq![digit_char(n as int)]
    } else {
        decimal(n / 10) + seq![digit_char((n % 10) as int)]
    }
}

/// Appends the character `c` to `s` (`String::push`).
#[verifier::external_body]
pub(crate) fn push_char(s: &mut String, c: char)
    ensures
        final(s)@ == old(s)@.push(c),
{
    s.push(c);
}

/// Appends the decimal representation of `n` to `s`.
pub fn push_decimal(s: &mut String, n: usize)
    ensures
        final(s)@ == old(s)@ + decimal(n as nat),
    decreases n,
{
    if n >= 10 {
        push_decimal(s, n / 10);
    }
    let d = n % 10;
    let c = if d == 0 { '0' } else if d == 1 { '1' } else if d == 2 { '2' } else if d == 3 { '3' }
        else if d == 4 { '4' } else if d == 5 { '5' } else if d == 6 { '6' } else if d == 7 { '7' }
        else if d == 8 { '8' } else { '9' };
    push_char(s, c);
    proof {
        if n < 10 {
            assert(n % 10 == n);
        }
    }
    assert(s@ =~= old(s)@ + decimal(n as nat));
}

/// Returns a new string holding `a`.
pub fn string_of(a: &str) -> (r: String)
    ensures
        r@ == a@,
{
    a.to_owned()
}

/// Converts bytes into a string (`String::from_utf8_lossy`). Bytes that are
/// valid UTF-8 give the string they encode; of other bytes nothing is claimed
/// (the library replaces each invalid sequence by U+FFFD).
#[verifier::external_body]
pub(crate) fn string_from_bytes(bytes: &[u8]) -> (r: String)
    ensures
        valid_utf8(bytes@) ==> r@ == decode_utf8(bytes@),
{
    String::from_utf8_lossy(bytes).into_owned()
}


/// Appends the decimal representation of `n + 1` to `s`, for every `n`,
/// the largest included.
pub fn push_decimal_succ(s: &mut String, n: usize)
    ensures
        final(s)@ == old(s)@ + decimal(n as nat + 1),
    decreases n,
{
    let d = n % 10;
    if d == 9 {
        push_decimal_succ(s, n / 10);
        push_char(s, '0');
        proof {
            let m = n as nat + 1;
            assert(m >= 10);
            assert(m / 10 == n as nat / 10 + 1);
            assert(m % 10 == 0);
            assert(decimal(m) == decimal(m / 10) + seq![digit_char(0)]);
        }
        assert(s@ =~= old(s)@ + decimal(n as nat + 1));
    } else {
        if n >= 10 {
            push_decimal(s, n / 10);
        }
        let c = if d == 0 { '1' } else if d == 1 { '2' } else if d == 2 { '3' } else if d == 3 { '4' }
            else if d == 4 { '5' } else if d == 5 { '6' } else if d == 6 { '7' } else if d == 7 { '8' }
            else { '9' };
        push_char(s, c);
        proof {
            let m = n as nat + 1;
            assert(c == digit_char(d as int + 1));
            if n >= 10 {
                assert(m >= 10);
                assert(m / 10 == n as nat / 10);
                assert(m % 10 == d + 1);
            } else {
                assert(m < 10);
                assert(m == d + 1);
            }
        }
        assert(s@ =~= old(s)@ + decimal(n as nat + 1));
    }
}

/// The number of digits of the decimal representation of `n`, as far as
/// four.
pub(crate) proof fn lemma_decimal_width(n: nat)
    ensures
        n < 10 ==> decimal(n).len() == 1,
        10 <= n < 100 ==> decimal(n).len() == 2,
        100 <= n < 1000 ==> decimal(n).len() == 3,
        1000 <= n ==> decimal(n).len() >= 4,
{
    if n >= 10 {
        assert(decimal(n) == decimal(n / 10) + seq![digit_char((n % 10) as int)]);
        let a = n / 10;
        if a >= 10 {
            assert(decimal(a) == decimal(a / 10) + seq![digit_char((a % 10) as int)]);
            let b = a / 10;
            if b >= 10 {
                assert(decimal(b) == decimal(b / 10) + seq![digit_char((b % 10) as int)]);
                let c = b / 10;
                if c >= 10 {
                    assert(decimal(c) == decimal(c / 10) + seq![digit_char((c % 10) as int)]);
                }
            }
        }
    }
}

} // verus!
