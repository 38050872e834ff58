//! The numeric domain of the calculator.
//!
//! Every value on the stack is an IEEE-754 binary64 number, carried as its
//! 64-bit pattern.  The tests a command needs (is the top of the stack zero,
//! is it strictly negative) are decided here directly on the bit pattern, and
//! so is the grammar of a float literal; the arithmetic itself, and the
//! reading of a decimal literal's value, are done by outside soft-float
//! libraries behind trusted wrappers.

use rustc_apfloat::Float;
use vstd::prelude::*;

verus! {

/// Bit pattern of +0.0.
pub const ZERO_BITS: u64 = 0;

/// Bit pattern of 1.0.
pub const ONE_BITS: u64 = 0x3FF0_0000_0000_0000;

/// The sign bit; also the bit pattern of -0.0.
pub const SIGN_BIT: u64 = 0x8000_0000_0000_0000;

/// The eleven exponent bits.
pub const EXPONENT_MASK: u64 = 0x7FF0_0000_0000_0000;

/// The 52 mantissa bits.
pub const MANTISSA_MASK: u64 = 0x000F_FFFF_FFFF_FFFF;

/// Bit pattern of +infinity.
pub const INFINITY_BITS: u64 = 0x7FF0_0000_0000_0000;

/// Bit pattern of the canonical quiet NaN.
pub const QUIET_NAN_BITS: u64 = 0x7FF8_0000_0000_0000;

/// A NaN has all exponent bits set and a non-zero mantissa.
pub open spec fn is_nan_bits(b: u64) -> bool {
    b & EXPONENT_MASK == EXPONENT_MASK && b & MANTISSA_MASK != 0
}

/// `b` compares equal to 0.0: it is +0.0 or -0.0.
pub open spec fn is_zero_bits(b: u64) -> bool {
    b == ZERO_BITS || b == SIGN_BIT
}

/// `b` compares strictly below 0.0: its sign bit is set and it is neither
/// -0.0 nor a NaN.
pub open spec fn is_negative_bits(b: u64) -> bool {
    b & SIGN_BIT != 0 && b != SIGN_BIT && !is_nan_bits(b)
}

/// The negated number: IEEE-754 negation flips the sign bit and nothing else.
pub open spec fn negate_bits(b: u64) -> u64 {
    b ^ SIGN_BIT
}

/// The sum of the two numbers, rounded to nearest, ties to even.
pub uninterp spec fn add_bits(a: u64, b: u64) -> u64;

/// The difference of the two numbers, rounded to nearest, ties to even.
pub uninterp spec fn sub_bits(a: u64, b: u64) -> u64;

/// The product of the two numbers, rounded to nearest, ties to even.
pub uninterp spec fn mul_bits(a: u64, b: u64) -> u64;

/// The quotient of the two numbers, rounded to nearest, ties to even.
pub uninterp spec fn div_bits(a: u64, b: u64) -> u64;

/// The square root of the number, rounded to nearest, ties to even.
pub uninterp spec fn sqrt_bits(b: u64) -> u64;

/// Relies on rustc_apfloat: `Double::add_r` with round to nearest, ties to
/// even, is IEEE-754 binary64 addition, a function of the two bit patterns
/// alone.
#[verifier::external_body]
pub(crate) fn add64(a: u64, b: u64) -> (r: u64)
    ensures
        r == add_bits(a, b),
{
    let x = rustc_apfloat::ieee::Double::from_bits(a as u128);
    let y = rustc_apfloat::ieee::Double::from_bits(b as u128);
    x.add_r(y, rustc_apfloat::Round::NearestTiesToEven).value.to_bits() as u64
}

/// Relies on rustc_apfloat: `Double::sub_r` with round to nearest, ties to
/// even, is IEEE-754 binary64 subtraction, a function of the two bit patterns
/// alone.
#[verifier::external_body]
pub(crate) fn sub64(a: u64, b: u64) -> (r: u64)
    ensures
        r == sub_bits(a, b),
{
    let x = rustc_apfloat::ieee::Double::from_bits(a as u128);
    let y = rustc_apfloat::ieee::Double::from_bits(b as u128);
    x.sub_r(y, rustc_apfloat::Round::NearestTiesToEven).value.to_bits() as u64
}

/// Relies on rustc_apfloat: `Double::mul_r` with round to nearest, ties to
/// even, is IEEE-754 binary64 multiplication, a function of the two bit
/// patterns alone.
#[verifier::external_body]
pub(crate) fn mul64(a: u64, b: u64) -> (r: u64)
    ensures
        r == mul_bits(a, b),
{
    let x = rustc_apfloat::ieee::Double::from_bits(a as u128);
    let y = rustc_apfloat::ieee::Double::from_bits(b as u128);
    x.mul_r(y, rustc_apfloat::Round::NearestTiesToEven).value.to_bits() as u64
}

/// Relies on rustc_apfloat: `Double::div_r` with round to nearest, ties to
/// even, is IEEE-754 binary64 division, a function of the two bit patterns
/// alone.
#[verifier::external_body]
pub(crate) fn div64(a: u64, b: u64) -> (r: u64)
    ensures
        r == div_bits(a, b),
{
    let x = rustc_apfloat::ieee::Double::from_bits(a as u128);
    let y = rustc_apfloat::ieee::Double::from_bits(b as u128);
    x.div_r(y, rustc_apfloat::Round::NearestTiesToEven).value.to_bits() as u64
}

/// softfp's rounding-direction attribute, carried through opaquely.
#[verifier::external_type_specification]
#[verifier::external_body]
pub struct ExRoundingMode(softfp::RoundingMode);

/// softfp's exception-flag set, carried through opaquely.
#[verifier::external_type_specification]
#[verifier::external_body]
pub struct ExExceptionFlags(softfp::ExceptionFlags);

/// The rounding mode handed to softfp: round to nearest, ties to even.
#[verifier::external_body]
fn round_to_nearest() -> softfp::RoundingMode {
    softfp::RoundingMode::TiesToEven
}

/// Discards softfp's exception flags, which this calculator does not observe.
#[verifier::external_body]
fn discard_exception_flags(_flags: softfp::ExceptionFlags) {
}

/// Relies on softfp: `F64::square_root` is the IEEE-754 binary64 square root,
/// rounded to nearest, ties to even, a function of the bit pattern alone.  It
/// never panics: NaN, zero, negative and infinite inputs are answered before
/// its digit-by-digit loop.  The two registered callbacks fix the rounding
/// mode and discard the exception flags.
#[verifier::external_body]
pub(crate) fn sqrt64(b: u64) -> (r: u64)
    ensures
        r == sqrt_bits(b),
{
    softfp::register_get_rounding_mode(round_to_nearest);
    softfp::register_set_exception_flags(discard_exception_flags);
    softfp::F64::new(b).square_root().0
}

/// Whether `b` compares equal to 0.0.
pub fn bits_equal_zero(b: u64) -> (r: bool)
    ensures
        r == is_zero_bits(b),
{
    b == ZERO_BITS || b == SIGN_BIT
}

/// Whether `b` compares strictly below 0.0.
pub fn bits_strictly_negative(b: u64) -> (r: bool)
    ensures
        r == is_negative_bits(b),
{
    b & SIGN_BIT != 0 && b != SIGN_BIT && !(b & EXPONENT_MASK == EXPONENT_MASK
        && b & MANTISSA_MASK != 0)
}

/// `c` is a decimal digit.
pub open spec fn is_digit_char(c: char) -> bool {
    '0' as u32 <= c as u32 && c as u32 <= '9' as u32
}

/// `c` is a leading sign.
pub open spec fn is_sign_char(c: char) -> bool {
    c == '+' || c == '-'
}

/// `c` is `low` or `up`, the two cases of one letter.
pub open spec fn ci_char(c: char, low: char, up: char) -> bool {
    c == low || c == up
}

/// The mantissa of a decimal literal: one or more characters, each a digit
/// or a decimal point, with at least one digit and at most one point.
/// This admits forms such as `17`, `1.5`, `.5` and `5.`.
pub open spec fn is_mantissa(t: Seq<char>) -> bool {
    &&& t.len() >= 1
    &&& forall|i: int| 0 <= i < t.len() ==> is_digit_char(#[trigger] t[i]) || t[i] == '.'
    &&& exists|i: int| 0 <= i < t.len() && is_digit_char(#[trigger] t[i])
    &&& forall|i: int, j: int| 0 <= i < j < t.len() ==> !(#[trigger] t[i] == '.' && #[trigger] t[j] == '.')
}

/// The digits of an exponent part: what stands behind its optional sign.
pub open spec fn exponent_digits(t: Seq<char>) -> Seq<char> {
    if t.len() > 0 && is_sign_char(t[0]) {
        t.drop_first()
    } else {
        t
    }
}

/// What follows an exponent marker: an optional sign, then one or more digits.
pub open spec fn is_exponent_tail(t: Seq<char>) -> bool {
    exponent_digits(t).len() >= 1 && forall|i: int|
        0 <= i < exponent_digits(t).len() ==> is_digit_char(#[trigger] exponent_digits(t)[i])
}

/// `t` splits at `k` into a mantissa and, unless `k` is the end, an `e` or
/// `E` followed by an exponent.
pub open spec fn is_number_split_at(t: Seq<char>, k: int) -> bool {
    &&& 0 <= k <= t.len()
    &&& is_mantissa(t.take(k))
    &&& (k == t.len() || ((t[k] == 'e' || t[k] == 'E') && is_exponent_tail(t.skip(k + 1))))
}

/// An unsigned decimal literal: a mantissa, optionally followed by an
/// exponent part.  Together with the sign and the spelled-out words below
/// this is the grammar that `str::parse` for 64-bit floats documents.
pub open spec fn is_number(t: Seq<char>) -> bool {
    exists|k: int| #[trigger] is_number_split_at(t, k)
}

/// The word `inf`, in any mix of cases.
pub open spec fn is_inf_word(t: Seq<char>) -> bool {
    t.len() == 3 && ci_char(t[0], 'i', 'I') && ci_char(t[1], 'n', 'N') && ci_char(t[2], 'f', 'F')
}

/// The word `infinity`, in any mix of cases.
pub open spec fn is_infinity_word(t: Seq<char>) -> bool {
    &&& t.len() == 8
    &&& ci_char(t[0], 'i', 'I')
    &&& ci_char(t[1], 'n', 'N')
    &&& ci_char(t[2], 'f', 'F')
    &&& ci_char(t[3], 'i', 'I')
    &&& ci_char(t[4], 'n', 'N')
    &&& ci_char(t[5], 'i', 'I')
    &&& ci_char(t[6], 't', 'T')
    &&& ci_char(t[7], 'y', 'Y')
}

/// The word `nan`, in any mix of cases.
pub open spec fn is_nan_word(t: Seq<char>) -> bool {
    t.len() == 3 && ci_char(t[0], 'n', 'N') && ci_char(t[1], 'a', 'A') && ci_char(t[2], 'n', 'N')
}

/// The token starts with a sign character.
pub open spec fn has_sign(t: Seq<char>) -> bool {
    t.len() > 0 && is_sign_char(t[0])
}

/// The token without its leading sign, if it has one.
pub open spec fn magnitude_part(t: Seq<char>) -> Seq<char> {
    if has_sign(t) {
        t.drop_first()
    } else {
        t
    }
}

/// A 64-bit float literal: an optional sign before an unsigned decimal
/// literal or one of the words `inf`, `infinity` and `nan`.
pub open spec fn is_float_literal(t: Seq<char>) -> bool {
    let m = magnitude_part(t);
    is_number(m) || is_inf_word(m) || is_infinity_word(m) || is_nan_word(m)
}

/// The binary64 number that the unsigned decimal literal `t` denotes,
/// rounded to nearest, ties to even.
pub uninterp spec fn number_bits(t: Seq<char>) -> u64;

/// The number a float literal denotes: the magnitude read by `number_bits`
/// or spelled by a word, negated when the sign is `-`.  IEEE-754 negation
/// is exactly a flip of the sign bit, for every value.
pub open spec fn literal_bits(t: Seq<char>) -> u64 {
    let m = magnitude_part(t);
    let mag = if is_inf_word(m) || is_infinity_word(m) {
        INFINITY_BITS
    } else if is_nan_word(m) {
        QUIET_NAN_BITS
    } else {
        number_bits(m)
    };
    if t.len() > 0 && t[0] == '-' {
        negate_bits(mag)
    } else {
        mag
    }
}

/// Relies on rustc_apfloat: `Double::from_str` reads a decimal literal as
/// the nearest binary64 number, ties to even, a function of the text alone.
/// Its decimal reader accepts every string that `is_number` admits and
/// returns an error only on strings outside it, so the last arm is never
/// reached.
#[verifier::external_body]
fn parse_number(t: &Vec<char>) -> (r: u64)
    requires
        is_number(t@),
    ensures
        r == number_bits(t@),
{
    let s: String = t.iter().collect();
    match s.parse::<rustc_apfloat::ieee::Double>() {
        Ok(v) => v.to_bits() as u64,
        Err(_) => 0,
    }
}

/// Whether `c` is a decimal digit.
fn digit_char(c: char) -> (r: bool)
    ensures
        r == is_digit_char(c),
{
    '0' as u32 <= c as u32 && c as u32 <= '9' as u32
}

/// Whether `t` from position `from` on is an exponent tail.
fn check_exponent_tail(t: &Vec<char>, from: usize) -> (r: bool)
    requires
        from <= t@.len(),
    ensures
        r == is_exponent_tail(t@.skip(from as int)),
{
    let ghost s = t@.skip(from as int);
    let start: usize = if from < t.len() && (t[from] == '+' || t[from] == '-') {
        from + 1
    } else {
        from
    };
    proof {
        assert(s.len() == t@.len() - from);
        if s.len() > 0 {
            assert(s[0] == t@[from as int]);
        }
        assert(exponent_digits(s) =~= t@.skip(start as int));
    }
    if start == t.len() {
        return false;
    }
    let mut i: usize = start;
    while i < t.len()
        invariant
            from <= start <= i <= t@.len(),
            s == t@.skip(from as int),
            exponent_digits(s) == t@.skip(start as int),
            forall|j: int| start <= j < i ==> is_digit_char(#[trigger] t@[j]),
        decreases t@.len() - i,
    {
        if !digit_char(t[i]) {
            proof {
                assert(exponent_digits(s)[i - start] == t@[i as int]);
            }
            return false;
        }
        i += 1;
    }
    proof {
        assert forall|j: int| 0 <= j < exponent_digits(s).len() implies is_digit_char(
            #[trigger] exponent_digits(s)[j],
        ) by {
            assert(exponent_digits(s)[j] == t@[start + j]);
        }
    }
    true
}

/// Whether `t` from position `from` on is an unsigned decimal literal.
fn check_number(t: &Vec<char>, from: usize) -> (r: bool)
    requires
        from <= t@.len(),
    ensures
        r == is_number(t@.skip(from as int)),
{
    let ghost s = t@.skip(from as int);
    // The split can only lie at the first exponent marker: every character
    // of a mantissa is a digit or a point.
    let mut k: usize = from;
    while k < t.len() && !(t[k] == 'e' || t[k] == 'E')
        invariant
            from <= k <= t@.len(),
            forall|j: int| from <= j < k ==> !(#[trigger] t@[j] == 'e' || t@[j] == 'E'),
        decreases t@.len() - k,
    {
        k += 1;
    }
    let mantissa_ok = check_mantissa_from(t, from, k);
    let r = if k == t.len() {
        mantissa_ok
    } else {
        mantissa_ok && check_exponent_tail(t, k + 1)
    };
    proof {
        let sk = (k - from) as int;
        assert(s.take(sk) =~= t@.subrange(from as int, k as int));
        if k < t@.len() {
            assert(s[sk] == t@[k as int]);
            assert(s.skip(sk + 1) =~= t@.skip(k as int + 1));
        }
        if r {
            assert(is_number_split_at(s, sk));
        } else {
            assert forall|k2: int| !#[trigger] is_number_split_at(s, k2) by {
                if is_number_split_at(s, k2) {
                    assert(0 <= k2 <= s.len());
                    // no character below the split is an exponent marker
                    assert forall|j: int| 0 <= j < k2 implies !(#[trigger] s[j] == 'e' || s[j]
                        == 'E') by {
                        assert(s.take(k2)[j] == s[j]);
                        assert(is_digit_char(s[j]) || s[j] == '.');
                    }
                    // and the first marker sits at `k`, so the split is `k`
                    if k2 < s.len() {
                        assert(s[k2] == 'e' || s[k2] == 'E');
                        assert(s[k2] == t@[from + k2]);
                        assert(k2 == sk);
                    } else {
                        assert(k == t@.len());
                        assert(k2 == sk);
                    }
                    assert(false);
                }
            }
        }
    }
    r
}

/// Whether `t` from position `from` up to `end` is a mantissa.
fn check_mantissa_from(t: &Vec<char>, from: usize, end: usize) -> (r: bool)
    requires
        from <= end <= t@.len(),
    ensures
        r == is_mantissa(t@.skip(from as int).take(end - from as int)),
{
    let ghost m = t@.skip(from as int).take(end - from as int);
    let mut i: usize = from;
    let mut seen_digit = false;
    let mut seen_dot = false;
    proof {
        assert(forall|j: int| 0 <= j < m.len() ==> #[trigger] m[j] == t@[from + j]);
    }
    while i < end
        invariant
            from <= i <= end <= t@.len(),
            m == t@.skip(from as int).take(end - from as int),
            m.len() == end - from,
            forall|j: int| 0 <= j < m.len() ==> #[trigger] m[j] == t@[from + j],
            forall|j: int| from <= j < i ==> is_digit_char(#[trigger] t@[j]) || t@[j] == '.',
            seen_digit == exists|j: int| from <= j < i && is_digit_char(#[trigger] t@[j]),
            seen_dot == exists|j: int| from <= j < i && #[trigger] t@[j] == '.',
            forall|j1: int, j2: int|
                from <= j1 < j2 < i ==> !(#[trigger] t@[j1] == '.' && #[trigger] t@[j2] == '.'),
        decreases end - i,
    {
        let c = t[i];
        if c == '.' {
            if seen_dot {
                proof {
                    let jd = choose|j: int| from <= j < i && #[trigger] t@[j] == '.';
                    assert(m[jd - from] == '.');
                    assert(m[i - from] == '.');
                }
                return false;
            }
            seen_dot = true;
        } else if digit_char(c) {
            seen_digit = true;
        } else {
            proof {
                assert(m[i - from] == t@[i as int]);
            }
            return false;
        }
        i += 1;
    }
    let r = end - from >= 1 && seen_digit;
    proof {
        if seen_digit {
            let jd = choose|j: int| from <= j < i && is_digit_char(#[trigger] t@[j]);
            assert(is_digit_char(m[jd - from]));
        }
        if r {
            assert forall|j1: int, j2: int| 0 <= j1 < j2 < m.len() implies !(#[trigger] m[j1]
                == '.' && #[trigger] m[j2] == '.') by {
                assert(m[j1] == t@[from + j1]);
                assert(m[j2] == t@[from + j2]);
            }
        } else {
            if end - from >= 1 && !seen_digit {
                if exists|j: int| 0 <= j < m.len() && is_digit_char(#[trigger] m[j]) {
                    let jm = choose|j: int| 0 <= j < m.len() && is_digit_char(#[trigger] m[j]);
                    assert(is_digit_char(t@[from + jm]));
                }
            }
        }
    }
    r
}

/// Whether `c` is `low` or `up`.
pub(crate) fn ci(c: char, low: char, up: char) -> (r: bool)
    ensures
        r == ci_char(c, low, up),
{
    c == low || c == up
}

/// Whether `t` from position `from` on spells `inf`, in any mix of cases.
fn check_inf_word(t: &Vec<char>, from: usize) -> (r: bool)
    requires
        from <= t@.len(),
    ensures
        r == is_inf_word(t@.skip(from as int)),
{
    t.len() - from == 3 && ci(t[from], 'i', 'I') && ci(t[from + 1], 'n', 'N') && ci(
        t[from + 2],
        'f',
        'F',
    )
}

/// Whether `t` from position `from` on spells `infinity`, in any mix of cases.
fn check_infinity_word(t: &Vec<char>, from: usize) -> (r: bool)
    requires
        from <= t@.len(),
    ensures
        r == is_infinity_word(t@.skip(from as int)),
{
    t.len() - from == 8 && ci(t[from], 'i', 'I') && ci(t[from + 1], 'n', 'N') && ci(
        t[from + 2],
        'f',
        'F',
    ) && ci(t[from + 3], 'i', 'I') && ci(t[from + 4], 'n', 'N') && ci(t[from + 5], 'i', 'I') && ci(
        t[from + 6],
        't',
        'T',
    ) && ci(t[from + 7], 'y', 'Y')
}

/// Whether `t` from position `from` on spells `nan`, in any mix of cases.
fn check_nan_word(t: &Vec<char>, from: usize) -> (r: bool)
    requires
        from <= t@.len(),
    ensures
        r == is_nan_word(t@.skip(from as int)),
{
    t.len() - from == 3 && ci(t[from], 'n', 'N') && ci(t[from + 1], 'a', 'A') && ci(
        t[from + 2],
        'n',
        'N',
    )
}

/// Where the magnitude of the token begins: after a leading sign, if any.
fn magnitude_start(t: &Vec<char>) -> (r: usize)
    ensures
        r <= t@.len(),
        t@.skip(r as int) == magnitude_part(t@),
{
    if t.len() > 0 && (t[0] == '+' || t[0] == '-') {
        proof {
            assert(t@.skip(1) =~= t@.drop_first());
        }
        1
    } else {
        proof {
            assert(t@.skip(0) =~= t@);
        }
        0
    }
}

/// Whether the token is a 64-bit float literal.
pub fn is_float_token(t: &Vec<char>) -> (r: bool)
    ensures
        r == is_float_literal(t@),
{
    let start = magnitude_start(t);
    check_number(t, start) || check_inf_word(t, start) || check_infinity_word(t, start)
        || check_nan_word(t, start)
}

/// The number a float literal token denotes.
pub fn parse_float_token(t: &Vec<char>) -> (r: u64)
    requires
        is_float_literal(t@),
    ensures
        r == literal_bits(t@),
{
    let negative = t.len() > 0 && t[0] == '-';
    let start = magnitude_start(t);
    let mag: u64 = if check_inf_word(t, start) || check_infinity_word(t, start) {
        INFINITY_BITS
    } else if check_nan_word(t, start) {
        QUIET_NAN_BITS
    } else {
        let mut m: Vec<char> = Vec::new();
        let mut i: usize = start;
        while i < t.len()
            invariant
                start <= i <= t@.len(),
                m@ =~= t@.subrange(start as int, i as int),
            decreases t@.len() - i,
        {
            m.push(t[i]);
            i += 1;
        }
        proof {
            assert(m@ =~= t@.skip(start as int));
        }
        parse_number(&m)
    };
    if negative {
        mag ^ SIGN_BIT
    } else {
        mag
    }
}

} // verus!
