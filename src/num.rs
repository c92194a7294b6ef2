//! Exact fixed-point numbers and the literal grammars read from a beatmap file.
use vstd::prelude::*;

use crate::error::ParseError;
use crate::text::{split, split_bytes};

verus! {

/// Units per whole: a [`Num`] counts multiples of 10^-9.
pub const SCALE: i128 = 1_000_000_000;

/// Exclusive bound on the units of a number read from text (10^18).
pub const UNIT_LIMIT: i128 = 1_000_000_000_000_000_000;

/// A decimal number with nine fractional digits, held exactly as a count of
/// units of 10^-9.
#[derive(Clone, Copy, Debug, PartialEq, Eq, Structural)]
pub struct Num {
    pub units: i128,
}

impl Num {
    /// Whether the number lies in the range that literals are read into.
    pub open spec fn in_range(self) -> bool {
        -UNIT_LIMIT < self.units < UNIT_LIMIT
    }

    /// The number `n / 10^9`.
    pub fn from_units(units: i128) -> (r: Num)
        ensures
            r.units == units,
    {
        Num { units }
    }

    /// The whole number `n`.
    pub fn from_int(n: i64) -> (r: Num)
        ensures
            r.units == n * SCALE,
    {
        Num { units: n as i128 * SCALE }
    }

    /// The number of whole units below this value, towards zero.
    pub fn units(&self) -> (r: i128)
        ensures
            r == self.units,
    {
        self.units
    }
}

pub open spec fn is_digit(b: u8) -> bool {
    48 <= b <= 57
}

pub open spec fn all_digits(s: Seq<u8>) -> bool {
    forall|i: int| 0 <= i < s.len() ==> is_digit(#[trigger] s[i])
}

/// The value of a string of decimal digits.
pub open spec fn digits_value(s: Seq<u8>) -> int
    decreases s.len(),
{
    if s.len() == 0 {
        0
    } else {
        digits_value(s.drop_last()) * 10 + (s.last() - 48)
    }
}

pub proof fn lemma_digits_value_nonneg(s: Seq<u8>)
    requires
        all_digits(s),
    ensures
        digits_value(s) >= 0,
    decreases s.len(),
{
    if s.len() > 0 {
        lemma_digits_value_nonneg(s.drop_last());
    }
}

/// `s` without a leading `+`.
pub open spec fn without_plus(s: Seq<u8>) -> Seq<u8> {
    if s.len() > 0 && s[0] == 43 {
        s.drop_first()
    } else {
        s
    }
}

/// `s` without a leading `+` or `-`.
pub open spec fn without_sign(s: Seq<u8>) -> Seq<u8> {
    if s.len() > 0 && (s[0] == 43 || s[0] == 45) {
        s.drop_first()
    } else {
        s
    }
}

pub open spec fn is_negative(s: Seq<u8>) -> bool {
    s.len() > 0 && s[0] == 45
}

/// An unsigned integer literal: an optional `+` and at least one digit, with a
/// value of at most `max`.
pub open spec fn uint_literal(s: Seq<u8>, max: int) -> Option<int> {
    let body = without_plus(s);
    if body.len() > 0 && all_digits(body) && digits_value(body) <= max {
        Some(digits_value(body))
    } else {
        None
    }
}

/// Reads an unsigned integer literal of at most `max`.
pub fn parse_uint(s: &[u8], max: u64) -> (r: Option<u64>)
    ensures
        r is Some <==> uint_literal(s@, max as int) is Some,
        r matches Some(v) ==> uint_literal(s@, max as int) == Some(v as int),
{
    let body: &[u8] = if s.len() > 0 && s[0] == 43 {
        &s[1..s.len()]
    } else {
        s
    };
    assert(body@ == without_plus(s@)) by {
        if s@.len() > 0 && s@[0] == 43 {
            assert(s@.subrange(1, s@.len() as int) =~= s@.drop_first());
        }
    }
    if body.len() == 0 {
        return None;
    }
    let cap: u128 = max as u128 + 1;
    let mut acc: u128 = 0;
    let mut i: usize = 0;
    while i < body.len()
        invariant
            i <= body@.len(),
            body@ == without_plus(s@),
            cap == max + 1,
            all_digits(body@.subrange(0, i as int)),
            acc as int == if digits_value(body@.subrange(0, i as int)) < cap {
                digits_value(body@.subrange(0, i as int))
            } else {
                cap as int
            },
        decreases body.len() - i,
    {
        let b = body[i];
        if b < 48 || b > 57 {
            assert(!is_digit(body@[i as int]));
            return None;
        }
        let ghost pre = body@.subrange(0, i as int);
        let ghost next = body@.subrange(0, i + 1);
        assert(next.drop_last() =~= pre);
        proof {
            lemma_digits_value_nonneg(pre);
        }
        let d = (b - 48) as u128;
        let wide = acc * 10 + d;
        acc = if wide < cap {
            wide
        } else {
            cap
        };
        assert(all_digits(next)) by {
            assert forall|k: int| 0 <= k < next.len() implies is_digit(#[trigger] next[k]) by {
                if k < i {
                    assert(next[k] == pre[k]);
                }
            }
        }
        i = i + 1;
    }
    assert(body@.subrange(0, body@.len() as int) =~= body@);
    if acc < cap {
        Some(acc as u64)
    } else {
        None
    }
}

/// Whether `s` spells `w` (given in lower case), ignoring ASCII case.
pub open spec fn eq_ignore_case(s: Seq<u8>, w: Seq<u8>) -> bool {
    s.len() == w.len() && forall|i: int|
        0 <= i < s.len() ==> (if 65 <= s[i] <= 90 {
            s[i] + 32
        } else {
            s[i] as int
        }) == w[i] as int
}

/// The words that denote a value that is not finite.
pub open spec fn is_nonfinite_word(s: Seq<u8>) -> bool {
    eq_ignore_case(s, seq![105u8, 110, 102]) || eq_ignore_case(
        s,
        seq![105u8, 110, 102, 105, 110, 105, 116, 121],
    ) || eq_ignore_case(s, seq![110u8, 97, 110])
}

/// A decimal literal without its sign: digits, optionally one `.` and more
/// digits, with at least one digit in all.
pub open spec fn decimal_well_formed(body: Seq<u8>) -> bool {
    let parts = split(body, 46);
    ||| parts.len() == 1 && parts[0].len() > 0 && all_digits(parts[0])
    ||| parts.len() == 2 && all_digits(parts[0]) && all_digits(parts[1]) && (parts[0].len() > 0
        || parts[1].len() > 0)
}

/// The digits before the `.`.
pub open spec fn int_part(body: Seq<u8>) -> Seq<u8> {
    split(body, 46)[0]
}

/// The digits after the `.`, if any.
pub open spec fn frac_part(body: Seq<u8>) -> Seq<u8> {
    if split(body, 46).len() >= 2 {
        split(body, 46)[1]
    } else {
        Seq::empty()
    }
}

/// Whether `b` is `e` or `E`, which opens an exponent.
pub open spec fn is_exp_mark(b: u8) -> bool {
    b == 101 || b == 69
}

/// The index of the first exponent mark in `s`, or its length.
pub open spec fn exp_index(s: Seq<u8>) -> int
    decreases s.len(),
{
    if s.len() == 0 || is_exp_mark(s[0]) {
        0
    } else {
        1 + exp_index(s.drop_first())
    }
}

/// The part of an unsigned literal before its exponent.
pub open spec fn mantissa(body: Seq<u8>) -> Seq<u8> {
    body.subrange(0, exp_index(body))
}

/// The exponent of an unsigned literal, after its `e`, if it has one.
pub open spec fn exponent_part(body: Seq<u8>) -> Option<Seq<u8>> {
    let i = exp_index(body);
    if i < body.len() {
        Some(body.subrange(i + 1, body.len() as int))
    } else {
        None
    }
}

/// An exponent: an optional sign and at least one digit.
pub open spec fn exponent_well_formed(x: Seq<u8>) -> bool {
    without_sign(x).len() > 0 && all_digits(without_sign(x))
}

/// The value of an exponent; zero where there is none.
pub open spec fn exponent_value(o: Option<Seq<u8>>) -> int {
    match o {
        None => 0,
        Some(x) => if is_negative(x) {
            -digits_value(without_sign(x))
        } else {
            digits_value(without_sign(x))
        },
    }
}

/// An unsigned literal: a well-formed mantissa, then optionally `e` or `E`
/// and an exponent.
pub open spec fn literal_well_formed(body: Seq<u8>) -> bool {
    decimal_well_formed(mantissa(body)) && match exponent_part(body) {
        None => true,
        Some(x) => exponent_well_formed(x),
    }
}

/// All digits of a mantissa, the `.` left out.
pub open spec fn mantissa_digits(m: Seq<u8>) -> Seq<u8> {
    int_part(m) + frac_part(m)
}

/// The value of the digits `d` times 10^k, rounded towards zero.
pub open spec fn scaled(d: Seq<u8>, k: int) -> int {
    if k >= 0 {
        digits_value(d) * pow10(k as nat)
    } else if d.len() + k <= 0 {
        0
    } else {
        digits_value(d.subrange(0, d.len() + k))
    }
}

/// The power of ten that turns the mantissa's digits into units.
pub open spec fn units_shift(body: Seq<u8>) -> int {
    exponent_value(exponent_part(body)) - frac_part(mantissa(body)).len() + 9
}

/// The units of a well-formed, unsigned literal: digits past the ninth
/// fractional place are dropped.
pub open spec fn magnitude(body: Seq<u8>) -> int {
    scaled(mantissa_digits(mantissa(body)), units_shift(body))
}

/// What a decimal literal reads as: an optional sign, digits with at most one
/// `.`, and optionally `e` or `E` with a signed exponent. Non-finite words and
/// values of 10^9 or more in magnitude are refused as not finite; anything
/// else that is not a well-formed literal is refused as malformed.
pub open spec fn decimal_literal(s: Seq<u8>) -> Result<Num, ParseError> {
    let body = without_sign(s);
    if is_nonfinite_word(body) {
        Err(ParseError::InvalidDecimalNumber)
    } else if !literal_well_formed(body) {
        Err(ParseError::InvalidFloat)
    } else if magnitude(body) >= UNIT_LIMIT {
        Err(ParseError::InvalidDecimalNumber)
    } else if is_negative(s) {
        Ok(Num { units: (-magnitude(body)) as i128 })
    } else {
        Ok(Num { units: magnitude(body) as i128 })
    }
}

pub open spec fn lower(b: u8) -> int {
    if 65 <= b <= 90 {
        b + 32
    } else {
        b as int
    }
}

fn lower_byte(b: u8) -> (r: u8)
    ensures
        r as int == lower(b),
{
    if 65 <= b && b <= 90 {
        b + 32
    } else {
        b
    }
}

fn eq_ignore_case_bytes(s: &[u8], w: &[u8]) -> (r: bool)
    ensures
        r == eq_ignore_case(s@, w@),
{
    if s.len() != w.len() {
        return false;
    }
    let mut i: usize = 0;
    while i < s.len()
        invariant
            s@.len() == w@.len(),
            i <= s@.len(),
            forall|k: int| 0 <= k < i ==> lower(s@[k]) == w@[k] as int,
        decreases s.len() - i,
    {
        if lower_byte(s[i]) != w[i] {
            return false;
        }
        i = i + 1;
    }
    true
}

fn nonfinite_word(s: &[u8]) -> (r: bool)
    ensures
        r == is_nonfinite_word(s@),
{
    let inf: [u8; 3] = [105u8, 110, 102];
    let infinity: [u8; 8] = [105u8, 110, 102, 105, 110, 105, 116, 121];
    let nan: [u8; 3] = [110u8, 97, 110];
    assert(inf@ =~= seq![105u8, 110, 102]);
    assert(infinity@ =~= seq![105u8, 110, 102, 105, 110, 105, 116, 121]);
    assert(nan@ =~= seq![110u8, 97, 110]);
    eq_ignore_case_bytes(s, inf.as_slice()) || eq_ignore_case_bytes(s, infinity.as_slice())
        || eq_ignore_case_bytes(s, nan.as_slice())
}

fn all_digit_bytes(s: &[u8]) -> (r: bool)
    ensures
        r == all_digits(s@),
{
    let mut i: usize = 0;
    while i < s.len()
        invariant
            i <= s@.len(),
            forall|k: int| 0 <= k < i ==> is_digit(#[trigger] s@[k]),
        decreases s.len() - i,
    {
        if s[i] < 48 || s[i] > 57 {
            assert(!is_digit(s@[i as int]));
            return false;
        }
        i = i + 1;
    }
    true
}

/// `v` limited to at most `cap`.
pub open spec fn capped(v: int, cap: int) -> int {
    if v < cap {
        v
    } else {
        cap
    }
}

/// The value of a string of digits, limited to at most `cap`.
fn digits_capped(s: &[u8], cap: i128) -> (r: i128)
    requires
        all_digits(s@),
        0 < cap <= 100_000_000_000_000_000_000_000_000_000,
    ensures
        r == capped(digits_value(s@), cap as int),
        0 <= r,
{
    let mut acc: i128 = 0;
    let mut i: usize = 0;
    while i < s.len()
        invariant
            i <= s@.len(),
            all_digits(s@),
            0 < cap <= 100_000_000_000_000_000_000_000_000_000,
            acc == capped(digits_value(s@.subrange(0, i as int)), cap as int),
            0 <= acc,
        decreases s.len() - i,
    {
        let ghost pre = s@.subrange(0, i as int);
        assert(s@.subrange(0, i + 1).drop_last() =~= pre);
        assert(all_digits(pre));
        assert(is_digit(s@[i as int]));
        proof {
            lemma_digits_value_nonneg(pre);
        }
        let wide = acc * 10 + (s[i] - 48) as i128;
        acc = if wide < cap {
            wide
        } else {
            cap
        };
        i = i + 1;
    }
    assert(s@.subrange(0, s@.len() as int) =~= s@);
    acc
}

pub open spec fn pow10(e: nat) -> int
    decreases e,
{
    if e == 0 {
        1
    } else {
        10 * pow10((e - 1) as nat)
    }
}

proof fn lemma_pow10_le(a: nat, b: nat)
    requires
        a <= b,
    ensures
        1 <= pow10(a) <= pow10(b),
    decreases b,
{
    if a < b {
        lemma_pow10_le(a, (b - 1) as nat);
    } else if b > 0 {
        lemma_pow10_le(0, (b - 1) as nat);
    }
}

proof fn lemma_pow10_eighteen()
    ensures
        pow10(18) == UNIT_LIMIT,
{
    reveal_with_fuel(pow10, 19);
}

/// Digits scaled up by at least 10^18 are zero or out of range.
proof fn lemma_scaled_large(d: Seq<u8>, k: int)
    requires
        all_digits(d),
        k >= 18,
    ensures
        digits_value(d) == 0 ==> scaled(d, k) == 0,
        digits_value(d) != 0 ==> scaled(d, k) >= UNIT_LIMIT,
{
    lemma_digits_value_nonneg(d);
    lemma_pow10_le(18, k as nat);
    lemma_pow10_eighteen();
    let m = digits_value(d);
    let p = pow10(k as nat);
    assert(scaled(d, k) == m * p);
    if m > 0 {
        assert(m * p >= p) by (nonlinear_arith)
            requires
                m >= 1,
                p >= 1,
        ;
    } else {
        assert(m * p == 0) by (nonlinear_arith)
            requires
                m == 0,
        ;
    }
}

/// `e` with its magnitude limited to at most `limit`.
pub open spec fn capped_signed(e: int, limit: int) -> int {
    if e >= 0 {
        capped(e, limit)
    } else {
        -capped(-e, limit)
    }
}

/// Limiting the exponent to 40 past the number of digits changes no result.
proof fn lemma_exponent_cap(d: Seq<u8>, e: int, limit: int, fl: int)
    requires
        all_digits(d),
        0 <= fl <= d.len(),
        limit == d.len() + 40,
    ensures
        capped(scaled(d, capped_signed(e, limit) - fl + 9), UNIT_LIMIT as int) == capped(
            scaled(d, e - fl + 9),
            UNIT_LIMIT as int,
        ),
{
    let c = capped_signed(e, limit);
    if c != e {
        if e > 0 {
            assert(c == limit);
            lemma_scaled_large(d, c - fl + 9);
            lemma_scaled_large(d, e - fl + 9);
        } else {
            assert(c == -limit);
            assert(d.len() + (c - fl + 9) <= 0);
            assert(d.len() + (e - fl + 9) <= 0);
        }
    }
}

proof fn lemma_exp_index(s: Seq<u8>, i: int)
    requires
        0 <= i <= s.len(),
        forall|j: int| 0 <= j < i ==> !is_exp_mark(#[trigger] s[j]),
        i < s.len() ==> is_exp_mark(s[i]),
    ensures
        exp_index(s) == i,
    decreases i,
{
    if i > 0 {
        let t = s.drop_first();
        assert(!is_exp_mark(s[0]));
        assert forall|j: int| 0 <= j < i - 1 implies !is_exp_mark(#[trigger] t[j]) by {
            assert(t[j] == s[j + 1]);
        }
        if i < s.len() {
            assert(t[i - 1] == s[i]);
        }
        lemma_exp_index(t, i - 1);
    }
}

/// The units of `dv` times 10^shift, limited to the range of literals.
fn scale_capped(dv: &Vec<u8>, shift: i128) -> (r: i128)
    requires
        all_digits(dv@),
        -1_000_000_000_000_000_000_000_000 < shift < 1_000_000_000_000_000_000_000_000,
    ensures
        r == capped(scaled(dv@, shift as int), UNIT_LIMIT as int),
        r >= 0,
{
    if shift >= 0 {
        let mut v = digits_capped(dv.as_slice(), UNIT_LIMIT);
        let ghost m = digits_value(dv@);
        proof {
            lemma_digits_value_nonneg(dv@);
        }
        let mut i: i128 = 0;
        assert(m * pow10(0) == m);
        while i < shift
            invariant
                0 <= i <= shift,
                m >= 0,
                v >= 0,
                v == capped(m * pow10(i as nat), UNIT_LIMIT as int),
            decreases shift - i,
        {
            let ghost x = m * pow10(i as nat);
            assert(m * pow10((i + 1) as nat) == x * 10) by {
                assert(pow10((i + 1) as nat) == 10 * pow10(i as nat));
                assert(m * (10 * pow10(i as nat)) == (m * pow10(i as nat)) * 10) by (nonlinear_arith);
            }
            proof {
                lemma_pow10_le(0, i as nat);
                assert(x >= 0) by (nonlinear_arith)
                    requires
                        m >= 0,
                        pow10(i as nat) >= 1,
                        x == m * pow10(i as nat),
                ;
            }
            let wide = v * 10;
            v = if wide < UNIT_LIMIT {
                wide
            } else {
                UNIT_LIMIT
            };
            i = i + 1;
        }
        v
    } else {
        let n = dv.len();
        if -shift >= n as i128 {
            0
        } else {
            let count = (n as i128 + shift) as usize;
            let head = &dv.as_slice()[0..count];
            assert(all_digits(head@)) by {
                assert forall|j: int| 0 <= j < head@.len() implies is_digit(#[trigger] head@[j]) by {
                    assert(head@[j] == dv@[j]);
                }
            }
            digits_capped(head, UNIT_LIMIT)
        }
    }
}

/// Reads the exponent after the mark at `ei`, its magnitude limited to
/// `limit`; zero where there is no exponent.
fn read_exponent(body: &[u8], ei: usize, limit: i128) -> (r: Result<i128, ParseError>)
    requires
        ei == exp_index(body@),
        ei <= body@.len(),
        0 < limit <= 100_000_000_000_000_000_000,
    ensures
        match exponent_part(body@) {
            None => r == Ok::<i128, ParseError>(0),
            Some(x) => if exponent_well_formed(x) {
                r == Ok::<i128, ParseError>(
                    capped_signed(exponent_value(exponent_part(body@)), limit as int) as i128,
                )
            } else {
                r == Err::<i128, ParseError>(ParseError::InvalidFloat)
            },
        },
{
    let n = body.len();
    if ei >= n {
        return Ok(0);
    }
    let x = &body[ei + 1..n];
    let x_signed = x.len() > 0 && (x[0] == 43 || x[0] == 45);
    let x_negative = x.len() > 0 && x[0] == 45;
    let xd: &[u8] = if x_signed {
        &x[1..x.len()]
    } else {
        x
    };
    assert(xd@ == without_sign(x@)) by {
        if x_signed {
            assert(x@.subrange(1, x@.len() as int) =~= x@.drop_first());
        }
    }
    if xd.len() == 0 || !all_digit_bytes(xd) {
        return Err(ParseError::InvalidFloat);
    }
    let e = digits_capped(xd, limit);
    proof {
        lemma_digits_value_nonneg(xd@);
    }
    if x_negative {
        Ok(-e)
    } else {
        Ok(e)
    }
}

/// The digits of `ip` followed by those of `fp`.
fn join_digits(ip: &[u8], fp: &[u8]) -> (r: Vec<u8>)
    ensures
        r@ == ip@ + fp@,
{
    let mut dv: Vec<u8> = Vec::new();
    let mut j: usize = 0;
    while j < ip.len()
        invariant
            j <= ip@.len(),
            dv@ == ip@.subrange(0, j as int),
        decreases ip.len() - j,
    {
        dv.push(ip[j]);
        j = j + 1;
        assert(dv@ =~= ip@.subrange(0, j as int));
    }
    assert(ip@.subrange(0, ip@.len() as int) =~= ip@);
    let mut j: usize = 0;
    assert(dv@ =~= ip@ + fp@.subrange(0, 0));
    while j < fp.len()
        invariant
            j <= fp@.len(),
            dv@ == ip@ + fp@.subrange(0, j as int),
        decreases fp.len() - j,
    {
        dv.push(fp[j]);
        j = j + 1;
        assert(dv@ =~= ip@ + fp@.subrange(0, j as int));
    }
    assert(fp@.subrange(0, fp@.len() as int) =~= fp@);
    dv
}

/// Reads a decimal literal.
#[verifier::rlimit(40)]
pub fn parse_decimal(s: &[u8]) -> (r: Result<Num, ParseError>)
    ensures
        r == decimal_literal(s@),
        r matches Ok(n) ==> n.in_range(),
{
    let signed = s.len() > 0 && (s[0] == 43 || s[0] == 45);
    let negative = s.len() > 0 && s[0] == 45;
    let body: &[u8] = if signed {
        &s[1..s.len()]
    } else {
        s
    };
    assert(body@ == without_sign(s@)) by {
        if signed {
            assert(s@.subrange(1, s@.len() as int) =~= s@.drop_first());
        }
    }
    if nonfinite_word(body) {
        return Err(ParseError::InvalidDecimalNumber);
    }
    let n = body.len();
    let mut ei: usize = 0;
    while ei < n && !(body[ei] == 101 || body[ei] == 69)
        invariant
            n == body@.len(),
            ei <= n,
            forall|j: int| 0 <= j < ei ==> !is_exp_mark(#[trigger] body@[j]),
        decreases n - ei,
    {
        ei = ei + 1;
    }
    proof {
        lemma_exp_index(body@, ei as int);
    }
    let mant = &body[0..ei];
    assert(mant@ == mantissa(body@));
    let parts = split_bytes(mant, 46);
    let well_formed = if parts.len() == 1 {
        parts[0].len() > 0 && all_digit_bytes(parts[0])
    } else if parts.len() == 2 {
        all_digit_bytes(parts[0]) && all_digit_bytes(parts[1]) && (parts[0].len() > 0
            || parts[1].len() > 0)
    } else {
        false
    };
    if !well_formed {
        return Err(ParseError::InvalidFloat);
    }
    let empty: [u8; 0] = [];
    assert(empty@ =~= Seq::<u8>::empty());
    let fp: &[u8] = if parts.len() == 2 {
        parts[1]
    } else {
        empty.as_slice()
    };
    let ip: &[u8] = parts[0];
    assert(fp@ == frac_part(mant@));
    assert(ip@ == int_part(mant@));
    let dv = join_digits(ip, fp);
    assert(all_digits(dv@)) by {
        assert forall|k: int| 0 <= k < dv@.len() implies is_digit(#[trigger] dv@[k]) by {
            if k < ip@.len() {
                assert(dv@[k] == ip@[k]);
            } else {
                assert(dv@[k] == fp@[k - ip@.len()]);
            }
        }
    }
    let limit: i128 = dv.len() as i128 + 40;
    let exp = match read_exponent(body, ei, limit) {
        Err(e) => {
            return Err(e);
        },
        Ok(e) => e,
    };
    assert(literal_well_formed(body@));
    let shift: i128 = exp - fp.len() as i128 + 9;
    let v = scale_capped(&dv, shift);
    proof {
        lemma_exponent_cap(
            dv@,
            exponent_value(exponent_part(body@)),
            limit as int,
            fp@.len() as int,
        );
    }
    if v >= UNIT_LIMIT {
        return Err(ParseError::InvalidDecimalNumber);
    }
    if negative {
        Ok(Num { units: -v })
    } else {
        Ok(Num { units: v })
    }
}

} // verus!
