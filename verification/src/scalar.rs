//! Scalar tokens and exact decimal coordinate values.
//!
//! A scalar token is a finite decimal literal with an optional exponent, the
//! form the standard float parser accepts for finite values. Dose and
//! uncertainty tokens are only checked and carried through as text.
//! Coordinate tokens are in addition read into [`Scalar`], an exact signed
//! decimal value, so that voxel centroids can be computed exactly.

use vstd::prelude::*;

use crate::digits::{dec_val, is_digit, pow10};

verus! {

/// Index of the first non-digit byte at or after `i`, or `t.len()`.
pub open spec fn scan_digits(t: Seq<u8>, i: nat) -> nat
    decreases t.len() - i,
{
    if i < t.len() && is_digit(t[i as int]) {
        scan_digits(t, i + 1)
    } else {
        i
    }
}

pub proof fn lemma_scan_props(t: Seq<u8>, i: nat)
    requires
        i <= t.len(),
    ensures
        i <= scan_digits(t, i) <= t.len(),
        forall|k: int| i <= k < scan_digits(t, i) ==> is_digit(t[k]),
        scan_digits(t, i) < t.len() ==> !is_digit(t[scan_digits(t, i) as int]),
    decreases t.len() - i,
{
    if i < t.len() && is_digit(t[i as int]) {
        lemma_scan_props(t, i + 1);
    }
}

pub proof fn lemma_scan_at(t: Seq<u8>, i: nat, j: nat)
    requires
        i <= j <= t.len(),
        forall|k: int| i <= k < j ==> is_digit(t[k]),
        j < t.len() ==> !is_digit(t[j as int]),
    ensures
        scan_digits(t, i) == j,
    decreases j - i,
{
    if i < j {
        lemma_scan_at(t, i + 1, j);
    }
}

/// Length of the optional leading sign.
pub open spec fn sign_len(t: Seq<u8>) -> nat {
    if t.len() > 0 && (t[0] == 43 || t[0] == 45) {
        1
    } else {
        0
    }
}

/// End of the integer-part digits.
pub open spec fn int_end(t: Seq<u8>) -> nat {
    scan_digits(t, sign_len(t))
}

/// Whether a decimal point follows the integer part.
pub open spec fn has_dot(t: Seq<u8>) -> bool {
    int_end(t) < t.len() && t[int_end(t) as int] == 46
}

/// End of the fraction digits (equal to `int_end` without a point).
pub open spec fn frac_end(t: Seq<u8>) -> nat {
    if has_dot(t) {
        scan_digits(t, int_end(t) + 1)
    } else {
        int_end(t)
    }
}

/// The mantissa must hold at least one digit, before or after the point.
pub open spec fn mant_ok(t: Seq<u8>) -> bool {
    int_end(t) > sign_len(t) || (has_dot(t) && frac_end(t) > int_end(t) + 1)
}

/// Whether an exponent marker follows the mantissa.
pub open spec fn has_exp(t: Seq<u8>) -> bool {
    frac_end(t) < t.len() && (t[frac_end(t) as int] == 101 || t[frac_end(t) as int] == 69)
}

/// Length of the optional exponent sign.
pub open spec fn exp_sign_len(t: Seq<u8>) -> nat {
    if has_exp(t) && frac_end(t) + 1 < t.len() && (t[frac_end(t) as int + 1] == 43 || t[frac_end(
        t,
    ) as int + 1] == 45) {
        1
    } else {
        0
    }
}

/// Start of the exponent digits.
pub open spec fn exp_start(t: Seq<u8>) -> nat {
    frac_end(t) + 1 + exp_sign_len(t)
}

/// A finite decimal scalar literal: optional sign, digits with an optional
/// point, and an optional signed decimal exponent.
pub open spec fn is_scalar_token(t: Seq<u8>) -> bool {
    mant_ok(t) && if has_exp(t) {
        exp_start(t) < t.len() && scan_digits(t, exp_start(t)) == t.len()
    } else {
        frac_end(t) == t.len()
    }
}

/// A byte that can occur in a scalar token.
pub open spec fn is_num_byte(b: u8) -> bool {
    is_digit(b) || b == 43 || b == 45 || b == 46 || b == 101 || b == 69
}

/// Every byte of a scalar token is a sign, digit, point or exponent marker.
pub proof fn lemma_token_bytes(t: Seq<u8>)
    requires
        is_scalar_token(t),
    ensures
        forall|i: int| 0 <= i < t.len() ==> is_num_byte(t[i]),
        t.len() > 0,
{
    lemma_scan_props(t, sign_len(t));
    if has_dot(t) {
        lemma_scan_props(t, int_end(t) + 1);
    }
    if has_exp(t) {
        lemma_scan_props(t, exp_start(t));
    }
    assert forall|i: int| 0 <= i < t.len() implies is_num_byte(t[i]) by {
        if i < sign_len(t) {
        } else if i < int_end(t) {
        } else if has_dot(t) && i == int_end(t) {
        } else if has_dot(t) && i < frac_end(t) {
        } else if has_exp(t) && i == frac_end(t) {
        } else if has_exp(t) && i < exp_start(t) {
        } else {
        }
    }
}

/// The character a scalar-token byte stands for.
pub open spec fn num_char_of(b: u8) -> char {
    if b == 43 {
        '+'
    } else if b == 45 {
        '-'
    } else if b == 46 {
        '.'
    } else if b == 101 {
        'e'
    } else if b == 69 {
        'E'
    } else {
        crate::digits::dec_digit((b - 48) as nat)
    }
}

/// The text of a scalar token.
pub open spec fn token_chars(t: Seq<u8>) -> Seq<char> {
    t.map_values(|b: u8| num_char_of(b))
}

/// A character that can occur in the text of a scalar token.
pub open spec fn is_num_char(c: char) -> bool {
    crate::digits::is_digit_char(c) || c == '+' || c == '-' || c == '.' || c == 'e' || c == 'E'
}

/// Nonempty text made of scalar-token characters only.
pub open spec fn num_text(s: Seq<char>) -> bool {
    s.len() > 0 && forall|i: int| 0 <= i < s.len() ==> is_num_char(s[i])
}

/// Checks one token against the scalar literal grammar.
pub fn token_ok(t: &[u8]) -> (b: bool)
    ensures
        b == is_scalar_token(t@),
{
    let n: usize = t.len();
    let sl: usize = if n > 0 && (t[0] == 43 || t[0] == 45) {
        1
    } else {
        0
    };
    assert(sl == sign_len(t@));
    let ie: usize = scan_run(t, sl);
    let dot: bool = ie < n && t[ie] == 46;
    assert(dot == has_dot(t@));
    let fe: usize = if dot {
        scan_run(t, ie + 1)
    } else {
        ie
    };
    assert(fe == frac_end(t@));
    let m_ok: bool = ie > sl || (dot && fe > ie + 1);
    if !m_ok {
        return false;
    }
    if fe < n && (t[fe] == 101 || t[fe] == 69) {
        let esl: usize = if fe + 1 < n && (t[fe + 1] == 43 || t[fe + 1] == 45) {
            1
        } else {
            0
        };
        assert(esl == exp_sign_len(t@));
        let es: usize = fe + 1 + esl;
        if es >= n {
            return false;
        }
        let ee: usize = scan_run(t, es);
        ee == n
    } else {
        fe == n
    }
}

/// Scans a run of digit bytes.
fn scan_run(t: &[u8], from: usize) -> (j: usize)
    requires
        from <= t@.len(),
    ensures
        j == scan_digits(t@, from as nat),
        from <= j <= t@.len(),
{
    let n: usize = t.len();
    let mut j: usize = from;
    while j < n && t[j] >= 48 && t[j] <= 57
        invariant
            from <= j <= n,
            n == t@.len(),
            forall|k: int| from <= k < j ==> is_digit(t@[k]),
        decreases n - j,
    {
        j = j + 1;
    }
    proof {
        lemma_scan_at(t@, from as nat, j as nat);
    }
    j
}

/// Appends the character for one scalar-token byte.
pub fn push_num_byte(out: &mut String, b: u8)
    requires
        is_num_byte(b),
    ensures
        final(out)@ == old(out)@ + seq![num_char_of(b)],
{
    if b == 43 {
        proof {
            reveal_strlit("+");
        }
        out.append("+");
        proof {
            assert(out@ =~= old(out)@ + seq![num_char_of(b)]);
        }
    } else if b == 45 {
        proof {
            reveal_strlit("-");
        }
        out.append("-");
        proof {
            assert(out@ =~= old(out)@ + seq![num_char_of(b)]);
        }
    } else if b == 46 {
        proof {
            reveal_strlit(".");
        }
        out.append(".");
        proof {
            assert(out@ =~= old(out)@ + seq![num_char_of(b)]);
        }
    } else if b == 101 {
        proof {
            reveal_strlit("e");
        }
        out.append("e");
        proof {
            assert(out@ =~= old(out)@ + seq![num_char_of(b)]);
        }
    } else if b == 69 {
        proof {
            reveal_strlit("E");
        }
        out.append("E");
        proof {
            assert(out@ =~= old(out)@ + seq![num_char_of(b)]);
        }
    } else {
        crate::digits::push_digit(out, b - 48);
        proof {
            assert(out@ =~= old(out)@ + seq![num_char_of(b)]);
        }
    }
}

/// The text of one validated scalar token.
pub fn token_text(t: &[u8]) -> (s: String)
    requires
        is_scalar_token(t@),
    ensures
        s@ == token_chars(t@),
        num_text(s@),
{
    proof {
        lemma_token_bytes(t@);
    }
    let n: usize = t.len();
    let mut s: String = String::new();
    let mut i: usize = 0;
    while i < n
        invariant
            i <= n,
            n == t@.len(),
            forall|k: int| 0 <= k < n ==> is_num_byte(t@[k]),
            s@ == token_chars(t@.take(i as int)),
        decreases n - i,
    {
        push_num_byte(&mut s, t[i]);
        proof {
            assert(s@ =~= token_chars(t@.take(i as int + 1))) by {
                assert(token_chars(t@.take(i as int + 1)) =~= token_chars(t@.take(i as int))
                    + seq![num_char_of(t@[i as int])]);
            }
        }
        i = i + 1;
    }
    proof {
        assert(t@.take(n as int) =~= t@);
        assert forall|k: int| 0 <= k < s@.len() implies is_num_char(s@[k]) by {
            assert(s@[k] == num_char_of(t@[k]));
        }
        assert(s@.len() > 0) by {
            assert(t@.len() > 0);
        }
    }
    s
}

} // verus!

use crate::digits::{
    dec_digit, dec_seq, lemma_dec_val_grows, lemma_dec_val_step, lemma_pow10_adds,
    lemma_pow10_mono, lemma_pow10_pos, lemma_pow10_values, push_dec, push_digit,
};

verus! {

/// An exact signed decimal scalar: the value `mag / 10^scale`, negated when
/// `neg` is set.
#[derive(Clone, Copy, Debug, PartialEq, Eq, Structural)]
pub struct Scalar {
    /// Magnitude numerator.
    pub mag: u128,
    /// Power of ten of the denominator.
    pub scale: u32,
    /// Sign.
    pub neg: bool,
}

/// The signed numerator of a scalar.
pub open spec fn scalar_num(c: Scalar) -> int {
    if c.neg {
        -(c.mag as int)
    } else {
        c.mag as int
    }
}

/// Bounds of a scalar read from a coordinate token.
pub open spec fn coord_wf(c: Scalar) -> bool {
    c.mag < pow10(18) && c.scale <= 18
}

/// Bounds of any scalar the library computes with.
pub open spec fn scalar_wf(c: Scalar) -> bool {
    c.mag <= pow10(37) && c.scale <= 37
}

pub proof fn lemma_coord_wf_scalar_wf(c: Scalar)
    requires
        coord_wf(c),
    ensures
        scalar_wf(c),
{
    lemma_pow10_mono(18, 37);
}

/// Whether the token is negated.
pub open spec fn is_neg(t: Seq<u8>) -> bool {
    t.len() > 0 && t[0] == 45
}

/// All mantissa digits of the token, the decimal point dropped.
pub open spec fn mant_digits(t: Seq<u8>) -> Seq<u8> {
    t.subrange(sign_len(t) as int, int_end(t) as int) + if has_dot(t) {
        t.subrange(int_end(t) as int + 1, frac_end(t) as int)
    } else {
        Seq::<u8>::empty()
    }
}

/// The mantissa read as an integer.
pub open spec fn mant_val(t: Seq<u8>) -> nat {
    dec_val(mant_digits(t))
}

/// Number of digits after the decimal point.
pub open spec fn frac_len(t: Seq<u8>) -> nat {
    if has_dot(t) {
        (frac_end(t) - int_end(t) - 1) as nat
    } else {
        0
    }
}

/// Magnitude of the exponent.
pub open spec fn exp_mag(t: Seq<u8>) -> nat {
    dec_val(t.subrange(exp_start(t) as int, t.len() as int))
}

/// The signed exponent (zero when the token has none).
pub open spec fn exp_int(t: Seq<u8>) -> int {
    if !has_exp(t) {
        0
    } else if exp_sign_len(t) == 1 && t[frac_end(t) as int + 1] == 45 {
        -(exp_mag(t) as int)
    } else {
        exp_mag(t) as int
    }
}

/// The power of ten the mantissa is scaled down by: the token's value is
/// `mant_val / 10^scale_of`, negated for a negative sign.
pub open spec fn scale_of(t: Seq<u8>) -> int {
    frac_len(t) - exp_int(t)
}

/// The exact scalar a coordinate token denotes, if the token is a scalar
/// literal and its value fits the coordinate bounds: at most 18 significant
/// digits and a scale between 0 and 18 after the exponent is folded in.
pub open spec fn coord_of(t: Seq<u8>) -> Option<Scalar> {
    if !is_scalar_token(t) {
        None
    } else if mant_val(t) == 0 {
        Some(Scalar { mag: 0, scale: 0, neg: false })
    } else if mant_val(t) >= pow10(18) {
        None
    } else {
        let s0 = scale_of(t);
        if s0 < 0 {
            if -s0 <= 18 && mant_val(t) * pow10((-s0) as nat) < pow10(18) {
                Some(
                    Scalar {
                        mag: (mant_val(t) * pow10((-s0) as nat)) as u128,
                        scale: 0,
                        neg: is_neg(t),
                    },
                )
            } else {
                None
            }
        } else {
            if s0 <= 18 {
                Some(Scalar { mag: mant_val(t) as u128, scale: s0 as u32, neg: is_neg(t) })
            } else {
                None
            }
        }
    }
}

/// Reads the mantissa digits as an integer, or reports that they exceed 18
/// significant digits.
fn read_mantissa(t: &[u8], sl: usize, ie: usize, dot: bool, fe: usize) -> (r: Option<u128>)
    requires
        is_scalar_token(t@),
        sl == sign_len(t@),
        ie == int_end(t@),
        dot == has_dot(t@),
        fe == frac_end(t@),
    ensures
        r is Some ==> r.unwrap() as nat == mant_val(t@) && (r.unwrap() as nat) < pow10(18),
        r is None ==> mant_val(t@) >= pow10(18),
{
    let ghost md: Seq<u8> = mant_digits(t@);
    let n: usize = t.len();
    proof {
        lemma_pow10_values();
        lemma_scan_props(t@, sl as nat);
        if dot {
            lemma_scan_props(t@, ie as nat + 1);
        }
        assert(md.len() == (ie - sl) + if dot { fe - ie - 1 } else { 0 });
        assert forall|k: int| 0 <= k < md.len() implies is_digit(md[k]) && md[k] == (if k < ie - sl
            { t@[sl + k] } else { t@[ie + 1 + (k - (ie - sl))] }) by {}
    }
    let mut m: u128 = 0;
    let mut i: usize = sl;
    while i < ie
        invariant
            sl <= i <= ie <= n,
            n == t@.len(),
            md == mant_digits(t@),
            md.len() >= ie - sl,
            forall|k: int| 0 <= k < md.len() ==> is_digit(md[k]),
            forall|k: int| 0 <= k < ie - sl ==> md[k] == t@[sl + k],
            forall|k: int| sl <= k < ie ==> is_digit(t@[k]),
            m == dec_val(md.take(i - sl)),
            m < 0xde0b6b3a7640000,
            pow10(18) == 0xde0b6b3a7640000,
            pow10(17) == 0x16345785d8a0000,
        decreases ie - i,
    {
        let b: u8 = t[i];
        if m >= 0x16345785d8a0000u128 {
            proof {
                lemma_dec_val_step(md, i - sl);
                lemma_dec_val_grows(md, i - sl + 1);
            }
            return None;
        }
        proof {
            lemma_dec_val_step(md, i - sl);
        }
        m = m * 10 + (b - 48) as u128;
        i = i + 1;
    }
    if dot {
        let mut q: usize = ie + 1;
        while q < fe
            invariant
                ie + 1 <= q <= fe <= n,
                n == t@.len(),
                md == mant_digits(t@),
                md.len() == (ie - sl) + (fe - ie - 1),
                sl <= ie,
                forall|k: int| 0 <= k < md.len() ==> is_digit(md[k]),
                forall|k: int|
                    ie - sl <= k < md.len() ==> md[k] == t@[ie + 1 + (k - (ie - sl))],
                m == dec_val(md.take((ie - sl) + (q - ie - 1))),
                m < 0xde0b6b3a7640000,
                pow10(18) == 0xde0b6b3a7640000,
                pow10(17) == 0x16345785d8a0000,
            decreases fe - q,
        {
            let b: u8 = t[q];
            let ghost idx: int = (ie - sl) + (q - ie - 1);
            assert(md[idx] == t@[q as int]);
            if m >= 0x16345785d8a0000u128 {
                proof {
                    lemma_dec_val_step(md, idx);
                    lemma_dec_val_grows(md, idx + 1);
                }
                return None;
            }
            proof {
                lemma_dec_val_step(md, idx);
            }
            m = m * 10 + (b - 48) as u128;
            q = q + 1;
        }
        proof {
            assert(md.take((ie - sl) + (fe - ie - 1)) =~= md);
        }
    } else {
        proof {
            assert(md.take(ie - sl) =~= md);
        }
    }
    Some(m)
}

/// Reads the exponent magnitude, or reports that it is far too large for any
/// representable coordinate.
fn read_exp(t: &[u8], es: usize) -> (r: Option<u128>)
    requires
        is_scalar_token(t@),
        has_exp(t@),
        es == exp_start(t@),
        es < t@.len(),
    ensures
        r is Some ==> r.unwrap() as nat == exp_mag(t@) && r.unwrap() <= t@.len() + 18,
        r is None ==> exp_mag(t@) > t@.len() + 18,
{
    let n: usize = t.len();
    let cap: u128 = n as u128 + 18;
    let ghost ed: Seq<u8> = t@.subrange(es as int, n as int);
    proof {
        lemma_scan_props(t@, es as nat);
    }
    let mut e: u128 = 0;
    let mut q: usize = es;
    while q < n
        invariant
            es <= q <= n,
            n == t@.len(),
            cap == n + 18,
            es == exp_start(t@),
            is_scalar_token(t@),
            has_exp(t@),
            ed == t@.subrange(es as int, n as int),
            forall|k: int| 0 <= k < n - es ==> #[trigger] ed[k] == t@[es + k] && is_digit(ed[k]),
            e == dec_val(ed.take(q - es)),
            e <= cap,
        decreases n - q,
    {
        let b: u8 = t[q];
        assert(ed[q - es] == t@[q as int]);
        proof {
            lemma_dec_val_step(ed, q - es);
        }
        if e > cap / 10 {
            proof {
                lemma_dec_val_grows(ed, q - es + 1);
                vstd::arithmetic::div_mod::lemma_fundamental_div_mod(cap as int, 10);
                vstd::arithmetic::div_mod::lemma_mod_bound(cap as int, 10);
                assert(e * 10 > cap);
                assert(dec_val(ed) > cap);
            }
            return None;
        }
        proof {
            vstd::arithmetic::div_mod::lemma_fundamental_div_mod(cap as int, 10);
            vstd::arithmetic::div_mod::lemma_mod_bound(cap as int, 10);
            assert(e * 10 <= cap);
        }
        e = e * 10 + (b - 48) as u128;
        if e > cap {
            proof {
                lemma_dec_val_grows(ed, q - es + 1);
                assert(dec_val(ed) > cap);
            }
            return None;
        }
        q = q + 1;
    }
    proof {
        assert(ed.take(n - es) =~= ed);
    }
    Some(e)
}

/// Multiplies a mantissa by a power of ten, or reports that the result would
/// leave the coordinate range.
fn mul_pow10(m0: u128, k: u32) -> (r: Option<u128>)
    requires
        0 < m0 < pow10(18),
        k <= 18,
    ensures
        r is Some ==> r.unwrap() as nat == m0 * pow10(k as nat) && (r.unwrap() as nat) < pow10(18),
        r is None ==> m0 * pow10(k as nat) >= pow10(18),
{
    proof {
        lemma_pow10_values();
    }
    let mut m: u128 = m0;
    let mut j: u32 = 0;
    proof {
        assert(pow10(0) == 1);
        assert(m0 * pow10(0) == m0) by (nonlinear_arith)
            requires
                pow10(0) == 1,
        ;
    }
    while j < k
        invariant
            0 <= j <= k <= 18,
            m == m0 * pow10(j as nat),
            0 < m0,
            0 < m < 0xde0b6b3a7640000,
            pow10(18) == 0xde0b6b3a7640000,
            pow10(17) == 0x16345785d8a0000,
        decreases k - j,
    {
        proof {
            lemma_pow10_adds(j as nat, 1);
            assert(m0 * (pow10(j as nat) * 10) == (m0 * pow10(j as nat)) * 10)
                by (nonlinear_arith);
        }
        if m >= 0x16345785d8a0000u128 {
            proof {
                assert(m0 * pow10((j + 1) as nat) >= pow10(18));
                lemma_pow10_mono((j + 1) as nat, k as nat);
                assert(m0 * pow10((j + 1) as nat) <= m0 * pow10(k as nat)) by (nonlinear_arith)
                    requires
                        pow10((j + 1) as nat) <= pow10(k as nat),
                        m0 >= 0,
                ;
            }
            return None;
        }
        m = m * 10;
        j = j + 1;
    }
    Some(m)
}

/// Reads a coordinate token into an exact scalar.
pub fn parse_coord(t: &[u8]) -> (r: Option<Scalar>)
    ensures
        r == coord_of(t@),
        r is Some ==> coord_wf(r.unwrap()),
{
    proof {
        lemma_pow10_values();
    }
    let n: usize = t.len();
    let sl: usize = if n > 0 && (t[0] == 43 || t[0] == 45) {
        1
    } else {
        0
    };
    assert(sl == sign_len(t@));
    let ie: usize = scan_run(t, sl);
    let dot: bool = ie < n && t[ie] == 46;
    assert(dot == has_dot(t@));
    let fe: usize = if dot {
        scan_run(t, ie + 1)
    } else {
        ie
    };
    assert(fe == frac_end(t@));
    if !(ie > sl || (dot && fe > ie + 1)) {
        return None;
    }
    let has_e: bool = fe < n && (t[fe] == 101 || t[fe] == 69);
    assert(has_e == has_exp(t@));
    let mut es: usize = n;
    let mut eneg: bool = false;
    if has_e {
        let esl: usize = if fe + 1 < n && (t[fe + 1] == 43 || t[fe + 1] == 45) {
            1
        } else {
            0
        };
        assert(esl == exp_sign_len(t@));
        es = fe + 1 + esl;
        eneg = esl == 1 && t[fe + 1] == 45;
        if es >= n {
            return None;
        }
        let ee: usize = scan_run(t, es);
        if ee != n {
            return None;
        }
    } else {
        if fe != n {
            return None;
        }
    }
    assert(is_scalar_token(t@));
    let m: u128 = match read_mantissa(t, sl, ie, dot, fe) {
        Some(m) => m,
        None => {
            return None;
        },
    };
    if m == 0 {
        return Some(Scalar { mag: 0, scale: 0, neg: false });
    }
    let fl: usize = if dot {
        fe - ie - 1
    } else {
        0
    };
    assert(fl == frac_len(t@));
    proof {
        if dot {
            lemma_scan_props(t@, ie as nat + 1);
        }
        lemma_scan_props(t@, sl as nat);
    }
    let mut e: u128 = 0;
    if has_e {
        e = match read_exp(t, es) {
            Some(e) => e,
            None => {
                proof {
                    if eneg {
                        assert(scale_of(t@) > 18);
                    } else {
                        assert(scale_of(t@) < 0 && -scale_of(t@) > 18);
                    }
                }
                return None;
            },
        };
    }
    let s0: i128 = if has_e {
        if eneg {
            fl as i128 + e as i128
        } else {
            fl as i128 - e as i128
        }
    } else {
        fl as i128
    };
    assert(s0 == scale_of(t@));
    let neg: bool = n > 0 && t[0] == 45;
    assert(neg == is_neg(t@));
    if s0 < 0 {
        let k: i128 = -s0;
        if k > 18 {
            return None;
        }
        match mul_pow10(m, k as u32) {
            Some(mm) => Some(Scalar { mag: mm, scale: 0, neg }),
            None => None,
        }
    } else {
        if s0 > 18 {
            return None;
        }
        Some(Scalar { mag: m, scale: s0 as u32, neg })
    }
}

} // verus!

verus! {

/// Ten to the `k`, as a machine word.
fn pow10_exec(k: u32) -> (r: u128)
    requires
        k <= 37,
    ensures
        r as nat == pow10(k as nat),
{
    proof {
        lemma_pow10_values();
    }
    let mut r: u128 = 1;
    let mut j: u32 = 0;
    while j < k
        invariant
            j <= k <= 37,
            r as nat == pow10(j as nat),
            pow10(37) == 0x785ee10d5da46d900f436a000000000,
        decreases k - j,
    {
        proof {
            lemma_pow10_mono((j + 1) as nat, 37);
        }
        r = r * 10;
        j = j + 1;
    }
    r
}

/// The exact midpoint of two coordinate scalars: both are brought to the
/// larger scale, the signed sum is halved by appending one more decimal place
/// and multiplying by five.
pub open spec fn mid_spec(a: Scalar, b: Scalar) -> Scalar {
    let sa = a.scale as nat;
    let sb = b.scale as nat;
    let smax = if sa >= sb {
        sa
    } else {
        sb
    };
    let ma = a.mag as nat * pow10((smax - sa) as nat);
    let mb = b.mag as nat * pow10((smax - sb) as nat);
    if a.neg == b.neg {
        let mag = (ma + mb) * 5;
        Scalar {
            mag: mag as u128,
            scale: (smax + 1) as u32,
            neg: if mag == 0 {
                false
            } else {
                a.neg
            },
        }
    } else if ma >= mb {
        let mag = (ma - mb) * 5;
        Scalar {
            mag: mag as u128,
            scale: (smax + 1) as u32,
            neg: if mag == 0 {
                false
            } else {
                a.neg
            },
        }
    } else {
        Scalar { mag: ((mb - ma) * 5) as u128, scale: (smax + 1) as u32, neg: b.neg }
    }
}

/// Computes the exact midpoint of two coordinates.
pub fn mid(a: Scalar, b: Scalar) -> (r: Scalar)
    requires
        coord_wf(a),
        coord_wf(b),
    ensures
        r == mid_spec(a, b),
        scalar_wf(r),
{
    proof {
        lemma_pow10_values();
    }
    let smax: u32 = if a.scale >= b.scale {
        a.scale
    } else {
        b.scale
    };
    let fa: u128 = pow10_exec(smax - a.scale);
    let fb: u128 = pow10_exec(smax - b.scale);
    proof {
        lemma_pow10_mono((smax - a.scale) as nat, 18);
        lemma_pow10_mono((smax - b.scale) as nat, 18);
        assert(a.mag as nat * (fa as nat) < pow10(18) * pow10(18)) by (nonlinear_arith)
            requires
                (a.mag as nat) < pow10(18),
                0 <= (fa as nat) <= pow10(18),
                pow10(18) > 0,
        ;
        assert(b.mag as nat * (fb as nat) < pow10(18) * pow10(18)) by (nonlinear_arith)
            requires
                (b.mag as nat) < pow10(18),
                0 <= (fb as nat) <= pow10(18),
                pow10(18) > 0,
        ;
    }
    let ma: u128 = a.mag * fa;
    let mb: u128 = b.mag * fb;
    let neg0: bool;
    let mag0: u128;
    if a.neg == b.neg {
        neg0 = a.neg;
        mag0 = ma + mb;
    } else if ma >= mb {
        neg0 = a.neg;
        mag0 = ma - mb;
    } else {
        neg0 = b.neg;
        mag0 = mb - ma;
    }
    let neg1: bool = if mag0 == 0 {
        false
    } else {
        neg0
    };
    let r = Scalar { mag: mag0 * 5, scale: smax + 1, neg: neg1 };
    proof {
        assert(pow10(37) == 10 * pow10(36)) by {
            lemma_pow10_adds(1, 36);
        }
        assert(r == mid_spec(a, b));
    }
    r
}

/// Drops trailing zeros of the fraction: while the scale is positive and the
/// magnitude ends in zero, both shrink.
pub open spec fn strip_zeros(m: nat, s: nat) -> (nat, nat)
    decreases s,
{
    if s > 0 && m % 10 == 0 {
        strip_zeros(m / 10, (s - 1) as nat)
    } else {
        (m, s)
    }
}

/// Exactly `s` digits of `v`, zero-padded on the left.
pub open spec fn pad_seq(v: nat, s: nat) -> Seq<char>
    decreases s,
{
    if s == 0 {
        seq![]
    } else {
        pad_seq(v / 10, (s - 1) as nat) + seq![dec_digit(v % 10)]
    }
}

/// The canonical text of a scalar: sign, integer digits, and a fractional
/// part only where it is nonzero; zero is written `0`.
pub open spec fn canon_text(c: Scalar) -> Seq<char> {
    if c.mag == 0 {
        seq!['0']
    } else {
        let ms = strip_zeros(c.mag as nat, c.scale as nat);
        let body = if ms.1 == 0 {
            dec_seq(ms.0)
        } else if ms.0 >= pow10(ms.1) {
            dec_seq(ms.0 / pow10(ms.1)) + seq!['.'] + pad_seq(ms.0 % pow10(ms.1), ms.1)
        } else {
            seq!['0', '.'] + pad_seq(ms.0, ms.1)
        };
        if c.neg {
            seq!['-'] + body
        } else {
            body
        }
    }
}

/// Appends exactly `s` digits of `v`.
fn pad_push(out: &mut String, v: u128, s: u32)
    ensures
        final(out)@ == old(out)@ + pad_seq(v as nat, s as nat),
    decreases s,
{
    if s > 0 {
        pad_push(out, v / 10, s - 1);
        push_digit(out, (v % 10) as u8);
        proof {
            assert(out@ =~= old(out)@ + pad_seq(v as nat, s as nat));
        }
    } else {
        proof {
            assert(out@ =~= old(out)@ + pad_seq(v as nat, 0));
        }
    }
}

/// Appends the canonical text of a scalar.
pub fn canon_push(out: &mut String, c: Scalar)
    requires
        scalar_wf(c),
    ensures
        final(out)@ == old(out)@ + canon_text(c),
{
    if c.mag == 0 {
        push_digit(out, 0);
        proof {
            assert(old(out)@ + seq![dec_digit(0)] =~= old(out)@ + canon_text(c));
        }
        return ;
    }
    let mut m: u128 = c.mag;
    let mut s: u32 = c.scale;
    while s > 0 && m % 10 == 0
        invariant
            strip_zeros(m as nat, s as nat) == strip_zeros(c.mag as nat, c.scale as nat),
            1 <= m <= c.mag,
            s <= c.scale,
            c.mag > 0,
            scalar_wf(c),
        decreases s,
    {
        proof {
            vstd::arithmetic::div_mod::lemma_fundamental_div_mod(m as int, 10);
        }
        m = m / 10;
        s = s - 1;
    }
    let ghost ms: (nat, nat) = strip_zeros(c.mag as nat, c.scale as nat);
    proof {
        assert(ms.0 == m as nat && ms.1 == s as nat);
    }
    let ghost head: Seq<char> = out@;
    if c.neg {
        proof {
            reveal_strlit("-");
        }
        out.append("-");
        proof {
            assert(out@ =~= head + seq!['-']);
        }
    }
    let ghost signed: Seq<char> = out@;
    if s == 0 {
        push_dec(out, m);
        proof {
            assert(out@ =~= head + canon_text(c));
        }
    } else {
        let p: u128 = pow10_exec(s);
        proof {
            lemma_pow10_pos(s as nat);
        }
        if m >= p {
            push_dec(out, m / p);
            proof {
                reveal_strlit(".");
            }
            out.append(".");
            pad_push(out, m % p, s);
            proof {
                assert(out@ =~= signed + (dec_seq((m / p) as nat) + seq!['.'] + pad_seq(
                    (m % p) as nat,
                    s as nat,
                )));
                assert(out@ =~= head + canon_text(c));
            }
        } else {
            push_digit(out, 0);
            proof {
                reveal_strlit(".");
            }
            out.append(".");
            pad_push(out, m, s);
            proof {
                assert(out@ =~= signed + (seq!['0', '.'] + pad_seq(m as nat, s as nat)));
                assert(out@ =~= head + canon_text(c));
            }
        }
    }
}

/// A character that can occur in canonical scalar text.
pub open spec fn is_canon_char(c: char) -> bool {
    crate::digits::is_digit_char(c) || c == '-' || c == '.'
}

proof fn lemma_pad_digits(v: nat, s: nat)
    ensures
        pad_seq(v, s).len() == s,
        forall|i: int| 0 <= i < s ==> crate::digits::is_digit_char(pad_seq(v, s)[i]),
    decreases s,
{
    if s > 0 {
        lemma_pad_digits(v / 10, (s - 1) as nat);
        assert forall|i: int| 0 <= i < s implies crate::digits::is_digit_char(
            pad_seq(v, s)[i],
        ) by {
            if i < s - 1 {
                assert(pad_seq(v, s)[i] == pad_seq(v / 10, (s - 1) as nat)[i]);
            } else {
                assert(pad_seq(v, s)[i] == dec_digit(v % 10));
            }
        }
    }
}

/// Canonical text is never empty and holds only digits, a sign and a point.
pub proof fn lemma_canon_chars(c: Scalar)
    ensures
        canon_text(c).len() > 0,
        forall|i: int| 0 <= i < canon_text(c).len() ==> is_canon_char(canon_text(c)[i]),
{
    if c.mag == 0 {
    } else {
        let ms = strip_zeros(c.mag as nat, c.scale as nat);
        crate::digits::lemma_dec_seq_digits(ms.0);
        crate::digits::lemma_dec_seq_len(ms.0);
        if ms.1 == 0 {
        } else if ms.0 >= pow10(ms.1) {
            crate::digits::lemma_dec_seq_digits(ms.0 / pow10(ms.1));
            crate::digits::lemma_dec_seq_len(ms.0 / pow10(ms.1));
            lemma_pad_digits(ms.0 % pow10(ms.1), ms.1);
        } else {
            lemma_pad_digits(ms.0, ms.1);
        }
        let body = if ms.1 == 0 {
            dec_seq(ms.0)
        } else if ms.0 >= pow10(ms.1) {
            dec_seq(ms.0 / pow10(ms.1)) + seq!['.'] + pad_seq(ms.0 % pow10(ms.1), ms.1)
        } else {
            seq!['0', '.'] + pad_seq(ms.0, ms.1)
        };
        assert(forall|i: int| 0 <= i < body.len() ==> is_canon_char(body[i]));
        if c.neg {
            assert forall|i: int| 0 <= i < canon_text(c).len() implies is_canon_char(
                canon_text(c)[i],
            ) by {
                if i == 0 {
                } else {
                    assert(canon_text(c)[i] == body[i - 1]);
                }
            }
        }
    }
}

/// The midpoint law: over the midpoint's own power-of-ten denominator, twice
/// the midpoint's numerator is exactly the sum of the two coordinates'
/// numerators, each brought to that denominator. In other words the computed
/// centroid is exactly `(a + b) / 2`.
pub proof fn lemma_mid_exact(a: Scalar, b: Scalar)
    requires
        coord_wf(a),
        coord_wf(b),
    ensures
        mid_spec(a, b).scale == 1 + if a.scale >= b.scale {
            a.scale
        } else {
            b.scale
        },
        2 * scalar_num(mid_spec(a, b)) == scalar_num(a) * pow10(
            (mid_spec(a, b).scale - a.scale) as nat,
        ) + scalar_num(b) * pow10((mid_spec(a, b).scale - b.scale) as nat),
{
    let sa = a.scale as nat;
    let sb = b.scale as nat;
    let smax = if sa >= sb {
        sa
    } else {
        sb
    };
    let pa = pow10((smax - sa) as nat);
    let pb = pow10((smax - sb) as nat);
    let ma = a.mag as nat * pa;
    let mb = b.mag as nat * pb;
    lemma_pow10_values();
    lemma_pow10_mono((smax - sa) as nat, 18);
    lemma_pow10_mono((smax - sb) as nat, 18);
    assert(ma < pow10(18) * pow10(18)) by (nonlinear_arith)
        requires
            (a.mag as nat) < pow10(18),
            0 <= pa <= pow10(18),
            pow10(18) > 0,
            ma == a.mag as nat * pa,
    ;
    assert(mb < pow10(18) * pow10(18)) by (nonlinear_arith)
        requires
            (b.mag as nat) < pow10(18),
            0 <= pb <= pow10(18),
            pow10(18) > 0,
            mb == b.mag as nat * pb,
    ;
    assert(pow10(37) == 10 * pow10(36)) by {
        lemma_pow10_adds(1, 36);
    }
    assert((ma + mb) * 5 <= pow10(37)) by (nonlinear_arith)
        requires
            ma < pow10(36),
            mb < pow10(36),
            pow10(37) == 10 * pow10(36),
    ;
    lemma_pow10_adds(1, (smax - sa) as nat);
    lemma_pow10_adds(1, (smax - sb) as nat);
    assert(pow10((smax + 1 - sa) as nat) == 10 * pa);
    assert(pow10((smax + 1 - sb) as nat) == 10 * pb);
    assert(a.mag as int * (10 * pa) == 10 * (a.mag as int * pa)) by (nonlinear_arith);
    assert(b.mag as int * (10 * pb) == 10 * (b.mag as int * pb)) by (nonlinear_arith);
    assert((-(a.mag as int)) * (10 * pa) == -((a.mag as int) * (10 * pa))) by (nonlinear_arith);
    assert((-(b.mag as int)) * (10 * pb) == -((b.mag as int) * (10 * pb))) by (nonlinear_arith);
    let r = mid_spec(a, b);
    assert(r.scale == smax + 1);
    if a.neg == b.neg {
        assert(r.mag as nat == (ma + mb) * 5);
        assert(2 * ((ma + mb) * 5) == 10 * ma + 10 * mb) by (nonlinear_arith);
        if a.neg {
            assert(scalar_num(a) * (10 * pa) == -(10 * ma));
            assert(scalar_num(b) * (10 * pb) == -(10 * mb));
            if r.mag == 0 {
                assert(2 * scalar_num(r) == 0);
            }
        } else {
            assert(scalar_num(a) * (10 * pa) == 10 * ma);
            assert(scalar_num(b) * (10 * pb) == 10 * mb);
        }
    } else if ma >= mb {
        assert(r.mag as nat == (ma - mb) * 5);
        assert(2 * ((ma - mb) * 5) == 10 * ma - 10 * mb) by (nonlinear_arith);
        if a.neg {
            assert(scalar_num(a) * (10 * pa) == -(10 * ma));
            assert(scalar_num(b) * (10 * pb) == 10 * mb);
        } else {
            assert(scalar_num(a) * (10 * pa) == 10 * ma);
            assert(scalar_num(b) * (10 * pb) == -(10 * mb));
        }
    } else {
        assert(r.mag as nat == (mb - ma) * 5);
        assert(2 * ((mb - ma) * 5) == 10 * mb - 10 * ma) by (nonlinear_arith);
        if b.neg {
            assert(scalar_num(a) * (10 * pa) == 10 * ma);
            assert(scalar_num(b) * (10 * pb) == -(10 * mb));
        } else {
            assert(scalar_num(a) * (10 * pa) == -(10 * ma));
            assert(scalar_num(b) * (10 * pb) == 10 * mb);
        }
    }
}

} // verus!
