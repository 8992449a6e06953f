//! Decimal digit sequences: rendering unsigned integers as text and reading
//! unsigned integers from tokens of ASCII digits.

use vstd::prelude::*;

verus! {

/// 10 to the power `n`.
pub open spec fn pow10(n: nat) -> nat
    decreases n,
{
    if n == 0 {
        1
    } else {
        10 * pow10((n - 1) as nat)
    }
}

pub proof fn lemma_pow10_adds(a: nat, b: nat)
    ensures
        pow10(a + b) == pow10(a) * pow10(b),
    decreases a,
{
    if a == 0 {
    } else {
        lemma_pow10_adds((a - 1) as nat, b);
        assert(pow10(a + b) == 10 * pow10((a + b - 1) as nat)) by {
            assert(a + b != 0);
        }
        assert(10 * (pow10((a - 1) as nat) * pow10(b)) == (10 * pow10((a - 1) as nat)) * pow10(
            b,
        )) by (nonlinear_arith);
    }
}

pub proof fn lemma_pow10_pos(n: nat)
    ensures
        pow10(n) >= 1,
    decreases n,
{
    if n > 0 {
        lemma_pow10_pos((n - 1) as nat)
    }
}

pub proof fn lemma_pow10_mono(a: nat, b: nat)
    requires
        a <= b,
    ensures
        pow10(a) <= pow10(b),
    decreases b,
{
    if a < b {
        lemma_pow10_mono(a, (b - 1) as nat);
        lemma_pow10_pos((b - 1) as nat);
    }
}

/// The concrete powers of ten that bound the exact decimal scalars.
pub proof fn lemma_pow10_values()
    ensures
        pow10(17) == 0x16345785d8a0000,
        pow10(18) == 0xde0b6b3a7640000,
        pow10(36) == pow10(18) * pow10(18),
        pow10(37) == 0x785ee10d5da46d900f436a000000000,
{
    reveal_with_fuel(pow10, 40);
    lemma_pow10_adds(18, 18);
}

/// The character for one decimal digit.
pub open spec fn dec_digit(d: nat) -> char {
    if d == 0 {
        '0'
    } else if d == 1 {
        '1'
    } else if d == 2 {
        '2'
    } else if d == 3 {
        '3'
    } else if d == 4 {
        '4'
    } else if d == 5 {
        '5'
    } else if d == 6 {
        '6'
    } else if d == 7 {
        '7'
    } else if d == 8 {
        '8'
    } else {
        '9'
    }
}

/// The decimal rendering of `n`, most significant digit first, no sign and no
/// leading zeros (a single `'0'` for zero).
pub open spec fn dec_seq(n: nat) -> Seq<char>
    decreases n,
{
    if n < 10 {
        seq![dec_digit(n)]
    } else {
        dec_seq(n / 10) + seq![dec_digit(n % 10)]
    }
}

pub proof fn lemma_dec_seq_len(n: nat)
    ensures
        dec_seq(n).len() >= 1,
    decreases n,
{
    if n >= 10 {
        lemma_dec_seq_len(n / 10);
    }
}

/// Characters that never occur in a decimal rendering.
pub open spec fn is_digit_char(c: char) -> bool {
    c == '0' || c == '1' || c == '2' || c == '3' || c == '4' || c == '5' || c == '6' || c == '7'
        || c == '8' || c == '9'
}

pub proof fn lemma_dec_seq_digits(n: nat)
    ensures
        forall|i: int| 0 <= i < dec_seq(n).len() ==> is_digit_char(dec_seq(n)[i]),
    decreases n,
{
    if n >= 10 {
        lemma_dec_seq_digits(n / 10);
        assert forall|i: int| 0 <= i < dec_seq(n).len() implies is_digit_char(dec_seq(n)[i]) by {
            if i < dec_seq(n / 10).len() {
                assert(dec_seq(n)[i] == dec_seq(n / 10)[i]);
            } else {
                assert(dec_seq(n)[i] == dec_digit(n % 10));
            }
        }
    }
}

/// Appends the single digit character for `d`.
pub fn push_digit(out: &mut String, d: u8)
    requires
        d < 10,
    ensures
        final(out)@ == old(out)@ + seq![dec_digit(d as nat)],
{
    proof {
        reveal_strlit("0");
        reveal_strlit("1");
        reveal_strlit("2");
        reveal_strlit("3");
        reveal_strlit("4");
        reveal_strlit("5");
        reveal_strlit("6");
        reveal_strlit("7");
        reveal_strlit("8");
        reveal_strlit("9");
    }
    if d == 0 {
        out.append("0");
        proof {
            assert(out@ =~= old(out)@ + seq![dec_digit(d as nat)]);
        }
    } else if d == 1 {
        out.append("1");
        proof {
            assert(out@ =~= old(out)@ + seq![dec_digit(d as nat)]);
        }
    } else if d == 2 {
        out.append("2");
        proof {
            assert(out@ =~= old(out)@ + seq![dec_digit(d as nat)]);
        }
    } else if d == 3 {
        out.append("3");
        proof {
            assert(out@ =~= old(out)@ + seq![dec_digit(d as nat)]);
        }
    } else if d == 4 {
        out.append("4");
        proof {
            assert(out@ =~= old(out)@ + seq![dec_digit(d as nat)]);
        }
    } else if d == 5 {
        out.append("5");
        proof {
            assert(out@ =~= old(out)@ + seq![dec_digit(d as nat)]);
        }
    } else if d == 6 {
        out.append("6");
        proof {
            assert(out@ =~= old(out)@ + seq![dec_digit(d as nat)]);
        }
    } else if d == 7 {
        out.append("7");
        proof {
            assert(out@ =~= old(out)@ + seq![dec_digit(d as nat)]);
        }
    } else if d == 8 {
        out.append("8");
        proof {
            assert(out@ =~= old(out)@ + seq![dec_digit(d as nat)]);
        }
    } else {
        out.append("9");
        proof {
            assert(out@ =~= old(out)@ + seq![dec_digit(d as nat)]);
        }
    }
}

/// Appends the decimal rendering of `n`.
pub fn push_dec(out: &mut String, n: u128)
    ensures
        final(out)@ == old(out)@ + dec_seq(n as nat),
    decreases n,
{
    if n < 10 {
        push_digit(out, n as u8);
    } else {
        push_dec(out, n / 10);
        push_digit(out, (n % 10) as u8);
        proof {
            assert(out@ =~= old(out)@ + dec_seq(n as nat));
        }
    }
}

/// An ASCII decimal digit byte.
pub open spec fn is_digit(b: u8) -> bool {
    48 <= b <= 57
}

pub open spec fn all_digits(d: Seq<u8>) -> bool {
    forall|i: int| 0 <= i < d.len() ==> is_digit(d[i])
}

/// The number read from a sequence of ASCII digit bytes, most significant
/// first (zero for the empty sequence).
pub open spec fn dec_val(d: Seq<u8>) -> nat
    decreases d.len(),
{
    if d.len() == 0 {
        0
    } else {
        dec_val(d.drop_last()) * 10 + (d.last() - 48) as nat
    }
}

pub proof fn lemma_dec_val_step(d: Seq<u8>, i: int)
    requires
        0 <= i < d.len(),
    ensures
        dec_val(d.take(i + 1)) == dec_val(d.take(i)) * 10 + (d[i] - 48) as nat,
{
    assert(d.take(i + 1).drop_last() =~= d.take(i));
    assert(d.take(i + 1).last() == d[i]);
}

pub proof fn lemma_dec_val_grows(d: Seq<u8>, i: int)
    requires
        0 <= i <= d.len(),
    ensures
        dec_val(d.take(i)) <= dec_val(d),
    decreases d.len() - i,
{
    if i == d.len() {
        assert(d.take(i) =~= d);
    } else {
        lemma_dec_val_step(d, i);
        lemma_dec_val_grows(d, i + 1);
        assert(dec_val(d.take(i)) <= dec_val(d.take(i)) * 10) by (nonlinear_arith);
    }
}

/// The digit part of a counting token: an optional leading `'+'` sign is
/// allowed, as the standard unsigned parser accepts it.
pub open spec fn count_digits(t: Seq<u8>) -> Seq<u8> {
    if t.len() > 0 && t[0] == 43 {
        t.skip(1)
    } else {
        t
    }
}

/// What a token of the voxel-count line denotes: a nonnegative integer that
/// fits the machine word, or nothing for a malformed token.
pub open spec fn count_val(t: Seq<u8>) -> Option<usize> {
    let d = count_digits(t);
    if d.len() > 0 && all_digits(d) && dec_val(d) <= usize::MAX {
        Some(dec_val(d) as usize)
    } else {
        None
    }
}

/// Reads an unsigned decimal count from one token.
pub fn parse_count(t: &[u8]) -> (r: Option<usize>)
    ensures
        r == count_val(t@),
{
    let ghost d: Seq<u8> = count_digits(t@);
    let len: usize = t.len();
    let start: usize = if len > 0 && t[0] == 43 {
        1
    } else {
        0
    };
    assert(d =~= t@.skip(start as int));
    if start >= len {
        return None;
    }
    let mut n: usize = 0;
    let mut i: usize = start;
    while i < len
        invariant
            start <= i <= len,
            len == t@.len(),
            d == count_digits(t@),
            d == t@.skip(start as int),
            all_digits(d.take(i - start)),
            n == dec_val(d.take(i - start)),
        decreases len - i,
    {
        let b: u8 = t[i];
        if b < 48 || b > 57 {
            assert(!is_digit(d[i - start]));
            assert(!all_digits(d));
            return None;
        }
        let dig: usize = (b - 48) as usize;
        if n > (usize::MAX - dig) / 10 {
            proof {
                lemma_dec_val_step(d, i - start);
                let x: int = usize::MAX - dig;
                vstd::arithmetic::div_mod::lemma_fundamental_div_mod(x, 10);
                vstd::arithmetic::div_mod::lemma_mod_bound(x, 10);
                assert(n * 10 >= (x / 10) * 10 + 10);
                assert(n * 10 + dig > usize::MAX);
                lemma_dec_val_grows(d, i - start + 1);
                assert(dec_val(d) > usize::MAX);
            }
            return None;
        }
        proof {
            lemma_dec_val_step(d, i - start);
            let x: int = usize::MAX - dig;
            vstd::arithmetic::div_mod::lemma_fundamental_div_mod(x, 10);
            vstd::arithmetic::div_mod::lemma_mod_bound(x, 10);
            assert(n * 10 <= (x / 10) * 10);
            assert(n * 10 + dig <= usize::MAX);
            assert(d.take(i - start + 1) =~= d.take(i - start).push(d[i - start]));
        }
        n = n * 10 + dig;
        i = i + 1;
    }
    proof {
        assert(d.take(i - start) =~= d);
    }
    Some(n)
}

} // verus!
