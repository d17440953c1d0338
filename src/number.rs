use vstd::prelude::*;
use crate::scanner::{digits_end, is_digit, is_digit_byte};
use crate::text::{text, text_bytes, append_bytes, subrange_bytes, DOT_BYTE, MINUS_BYTE, ZERO};

verus! {

/// How many fractional digits a number that has no finite decimal
/// expansion shows before it is cut.
pub const MAX_FRACTION_DIGITS: u64 = 18;

/// How many digits a number literal may have.
pub const MAX_LITERAL_DIGITS: usize = 38;

/// A number of the language: the exact rational `num / den`, kept in lowest
/// terms with `den >= 1`, and both parts within `i64::MAX` in magnitude.
/// A result that cannot be held so is a runtime error, never a rounding.
#[derive(PartialEq, Eq, Structural, Copy, Clone, Debug)]
pub struct Number {
    num: i64,
    den: i64,
}

pub open spec fn gcd(a: nat, b: nat) -> nat
    decreases b,
{
    if b == 0 {
        a
    } else {
        gcd(b, a % b)
    }
}

pub open spec fn abs(n: int) -> nat {
    if n < 0 {
        (-n) as nat
    } else {
        n as nat
    }
}

/// `n / d` in lowest terms, when both parts fit; `d` is positive.
pub closed spec fn rational(n: int, d: int) -> Option<Number> {
    let g = gcd(abs(n), d as nat);
    let q: int = (abs(n) / g) as int;
    let r: int = d / (g as int);
    if q <= i64::MAX && r <= i64::MAX {
        Some(Number { num: (if n < 0 { -q } else { q }) as i64, den: r as i64 })
    } else {
        None
    }
}

pub closed spec fn num_add(a: Number, b: Number) -> Option<Number> {
    rational(a.num * b.den + b.num * a.den, a.den * b.den)
}

pub closed spec fn num_sub(a: Number, b: Number) -> Option<Number> {
    rational(a.num * b.den - b.num * a.den, a.den * b.den)
}

pub closed spec fn num_mul(a: Number, b: Number) -> Option<Number> {
    rational(a.num * b.num, a.den * b.den)
}

/// The quotient, for a nonzero divisor.
pub closed spec fn num_div(a: Number, b: Number) -> Option<Number> {
    if b.num > 0 {
        rational(a.num * b.den, a.den * b.num)
    } else {
        rational(-(a.num * b.den), a.den * -b.num)
    }
}

pub closed spec fn num_neg(a: Number) -> Number {
    Number { num: (-a.num) as i64, den: a.den }
}

pub closed spec fn num_lt(a: Number, b: Number) -> bool {
    a.num * b.den < b.num * a.den
}

pub closed spec fn num_eq(a: Number, b: Number) -> bool {
    a.num * b.den == b.num * a.den
}

pub proof fn lemma_gcd_positive(a: nat, b: nat)
    requires
        b > 0,
    ensures
        0 < gcd(a, b) <= b,
    decreases b,
{
    reveal_with_fuel(gcd, 2);
    if a % b != 0 {
        lemma_gcd_positive(b, a % b);
    }
}

fn gcd_u128(a: u128, b: u128) -> (g: u128)
    ensures
        g == gcd(a as nat, b as nat),
    decreases b,
{
    if b == 0 {
        a
    } else {
        gcd_u128(b, a % b)
    }
}

/// `n / d` in lowest terms, or `None` when it does not fit.
pub fn make_rational(n: i128, d: i128) -> (r: Option<Number>)
    requires
        d > 0,
        n > i128::MIN,
    ensures
        r == rational(n as int, d as int),
{
    let a: u128 = if n < 0 { (-n) as u128 } else { n as u128 };
    let g = gcd_u128(a, d as u128);
    proof {
        lemma_gcd_positive(a as nat, d as nat);
        assert(abs(n as int) == a);
    }
    let q = a / g;
    let r = (d as u128) / g;
    proof {
        assert(r >= 1) by (nonlinear_arith)
            requires r == (d as u128) / g, 0 < g <= d,
        ;
    }
    if q <= i64::MAX as u128 && r <= i64::MAX as u128 {
        let m = q as i64;
        Some(Number { num: if n < 0 { -m } else { m }, den: r as i64 })
    } else {
        None
    }
}

impl Number {
    /// The number is in range: a positive denominator, and a numerator
    /// whose negation fits.
    #[verifier::type_invariant]
    pub closed spec fn wf(&self) -> bool {
        self.den >= 1 && self.num > i64::MIN
    }

    /// The numerator.
    pub closed spec fn numer(&self) -> int {
        self.num as int
    }

    /// The denominator, always positive.
    pub closed spec fn denom(&self) -> int {
        self.den as int
    }

    pub fn numerator(&self) -> (r: i64)
        ensures
            r == self.numer(),
    {
        self.num
    }

    pub fn denominator(&self) -> (r: i64)
        ensures
            r == self.denom(),
    {
        self.den
    }

    /// The integer `n`.
    pub fn from_int(n: i64) -> (r: Number)
        requires
            n > i64::MIN,
        ensures
            r.numer() == n,
            r.denom() == 1,
    {
        Number { num: n, den: 1 }
    }

    pub fn add(&self, o: &Number) -> (r: Option<Number>)
        ensures
            r == num_add(*self, *o),
    {
        proof {
            use_type_invariant(self);
            use_type_invariant(o);
            lemma_products(*self, *o);
        }
        make_rational(self.num as i128 * o.den as i128 + o.num as i128 * self.den as i128, self.den as i128 * o.den as i128)
    }

    pub fn sub(&self, o: &Number) -> (r: Option<Number>)
        ensures
            r == num_sub(*self, *o),
    {
        proof {
            use_type_invariant(self);
            use_type_invariant(o);
            lemma_products(*self, *o);
        }
        make_rational(self.num as i128 * o.den as i128 - o.num as i128 * self.den as i128, self.den as i128 * o.den as i128)
    }

    pub fn mul(&self, o: &Number) -> (r: Option<Number>)
        ensures
            r == num_mul(*self, *o),
    {
        proof {
            use_type_invariant(self);
            use_type_invariant(o);
            lemma_products(*self, *o);
        }
        make_rational(self.num as i128 * o.num as i128, self.den as i128 * o.den as i128)
    }

    /// The quotient by a nonzero number.
    pub fn div(&self, o: &Number) -> (r: Option<Number>)
        requires
            o.numer() != 0,
        ensures
            r == num_div(*self, *o),
    {
        proof {
            use_type_invariant(self);
            use_type_invariant(o);
            lemma_products(*self, *o);
        }
        let n = self.num as i128 * o.den as i128;
        if o.num > 0 {
            make_rational(n, self.den as i128 * o.num as i128)
        } else {
            make_rational(-n, self.den as i128 * -(o.num as i128))
        }
    }

    pub fn neg(&self) -> (r: Number)
        ensures
            r == num_neg(*self),
    {
        proof {
            use_type_invariant(self);
        }
        Number { num: -self.num, den: self.den }
    }

    pub fn is_zero(&self) -> (r: bool)
        ensures
            r == (self.numer() == 0),
    {
        self.num == 0
    }

    /// `self < o`, comparing the rationals.
    pub fn lt(&self, o: &Number) -> (r: bool)
        ensures
            r == num_lt(*self, *o),
    {
        proof {
            use_type_invariant(self);
            use_type_invariant(o);
            lemma_products(*self, *o);
        }
        (self.num as i128 * o.den as i128) < (o.num as i128 * self.den as i128)
    }

    /// `self == o`, comparing the rationals.
    pub fn same(&self, o: &Number) -> (r: bool)
        ensures
            r == num_eq(*self, *o),
    {
        proof {
            use_type_invariant(self);
            use_type_invariant(o);
            lemma_products(*self, *o);
        }
        (self.num as i128 * o.den as i128) == (o.num as i128 * self.den as i128)
    }
}

proof fn lemma_products(a: Number, b: Number)
    requires
        a.den >= 1 && a.num > i64::MIN,
        b.den >= 1 && b.num > i64::MIN,
    ensures
        -0x4000_0000_0000_0000_0000_0000_0000_0000 < a.num * b.den < 0x4000_0000_0000_0000_0000_0000_0000_0000,
        -0x4000_0000_0000_0000_0000_0000_0000_0000 < b.num * a.den < 0x4000_0000_0000_0000_0000_0000_0000_0000,
        -0x4000_0000_0000_0000_0000_0000_0000_0000 < a.num * b.num < 0x4000_0000_0000_0000_0000_0000_0000_0000,
        0 < a.den * b.den < 0x4000_0000_0000_0000_0000_0000_0000_0000,
        b.num > 0 ==> 0 < a.den * b.num < 0x4000_0000_0000_0000_0000_0000_0000_0000,
        b.num < 0 ==> 0 < a.den * -b.num < 0x4000_0000_0000_0000_0000_0000_0000_0000,
{
    if b.num > 0 {
        assert(0 < a.den * b.num < 0x4000_0000_0000_0000_0000_0000_0000_0000) by (nonlinear_arith)
            requires 0 < a.den < 0x8000_0000_0000_0000, 0 < b.num < 0x8000_0000_0000_0000;
    }
    if b.num < 0 {
        assert(0 < a.den * -b.num < 0x4000_0000_0000_0000_0000_0000_0000_0000) by (nonlinear_arith)
            requires 0 < a.den < 0x8000_0000_0000_0000, 0 < -b.num < 0x8000_0000_0000_0000;
    }
    assert(-0x4000_0000_0000_0000_0000_0000_0000_0000 < a.num * b.den < 0x4000_0000_0000_0000_0000_0000_0000_0000) by (nonlinear_arith)
        requires -0x8000_0000_0000_0000 < a.num < 0x8000_0000_0000_0000, 0 < b.den < 0x8000_0000_0000_0000;
    assert(-0x4000_0000_0000_0000_0000_0000_0000_0000 < b.num * a.den < 0x4000_0000_0000_0000_0000_0000_0000_0000) by (nonlinear_arith)
        requires -0x8000_0000_0000_0000 < b.num < 0x8000_0000_0000_0000, 0 < a.den < 0x8000_0000_0000_0000;
    assert(-0x4000_0000_0000_0000_0000_0000_0000_0000 < a.num * b.num < 0x4000_0000_0000_0000_0000_0000_0000_0000) by (nonlinear_arith)
        requires -0x8000_0000_0000_0000 < a.num < 0x8000_0000_0000_0000, -0x8000_0000_0000_0000 < b.num < 0x8000_0000_0000_0000;
    assert(0 < a.den * b.den < 0x4000_0000_0000_0000_0000_0000_0000_0000) by (nonlinear_arith)
        requires 0 < a.den < 0x8000_0000_0000_0000, 0 < b.den < 0x8000_0000_0000_0000;
}

} // verus!

verus! {

pub open spec fn pow10(k: nat) -> nat
    decreases k,
{
    if k == 0 {
        1
    } else {
        10 * pow10((k - 1) as nat)
    }
}

/// The value of a string of decimal digits.
pub open spec fn decimal(s: Seq<u8>) -> nat
    decreases s.len(),
{
    if s.len() == 0 {
        0
    } else {
        decimal(s.drop_last()) * 10 + (s.last() - ZERO) as nat
    }
}

/// The digits of a number literal with its dot taken out.
pub open spec fn literal_digits(s: Seq<u8>) -> Seq<u8> {
    let e = digits_end(s, 0);
    if e < s.len() {
        s.subrange(0, e) + s.subrange(e + 1, s.len() as int)
    } else {
        s
    }
}

/// How many digits of a number literal follow its dot.
pub open spec fn literal_scale(s: Seq<u8>) -> nat {
    let e = digits_end(s, 0);
    if e < s.len() {
        (s.len() - e - 1) as nat
    } else {
        0
    }
}

/// The number a literal denotes: its digits over a power of ten, when the
/// literal has at most `MAX_LITERAL_DIGITS` digits and the value fits.
pub open spec fn literal_number(s: Seq<u8>) -> Option<Number> {
    let d = literal_digits(s);
    if d.len() <= MAX_LITERAL_DIGITS && forall|k: int| 0 <= k < d.len() ==> is_digit(#[trigger] d[k]) {
        rational(decimal(d) as int, pow10(literal_scale(s)) as int)
    } else {
        None
    }
}

proof fn lemma_pow10_bound(k: nat)
    requires
        k <= 38,
    ensures
        1 <= pow10(k) <= pow10(38),
        pow10(38) == 100_000_000_000_000_000_000_000_000_000_000_000_000,
    decreases 38 - k,
{
    reveal_with_fuel(pow10, 39);
    if k < 38 {
        lemma_pow10_bound(k + 1);
    }
}

/// Reads a number literal.
pub fn parse_literal(lexeme: &[u8]) -> (r: Option<Number>)
    ensures
        r == literal_number(lexeme@),
{
    let ghost s = lexeme@;
    let n = lexeme.len();
    let mut e: usize = 0;
    while e < n && is_digit_byte(lexeme[e])
        invariant
            0 <= e <= n == lexeme@.len(),
            digits_end(lexeme@, 0) == digits_end(lexeme@, e as int),
        decreases n - e,
    {
        e += 1;
    }
    let mut digits = subrange_bytes(lexeme, 0, e);
    let mut scale: usize = 0;
    if e < n {
        let tail = subrange_bytes(lexeme, e + 1, n);
        append_bytes(&mut digits, tail.as_slice());
        scale = n - e - 1;
    } else {
        assert(s.subrange(0, e as int) =~= s);
    }
    assert(digits@ == literal_digits(s));
    if digits.len() > MAX_LITERAL_DIGITS {
        return None;
    }
    let mut acc: u128 = 0;
    let mut i: usize = 0;
    proof {
        lemma_pow10_bound(0);
        assert(digits@.subrange(0, 0) =~= Seq::<u8>::empty());
    }
    while i < digits.len()
        invariant
            0 <= i <= digits@.len() <= 38,
            acc == decimal(digits@.subrange(0, i as int)),
            acc < pow10(i as nat),
            forall|k: int| 0 <= k < i ==> is_digit(#[trigger] digits@[k]),
            digits@ == literal_digits(s),
            s == lexeme@,
        decreases digits@.len() - i,
    {
        let c = digits[i];
        if !is_digit_byte(c) {
            return None;
        }
        proof {
            lemma_pow10_bound(i as nat);
            lemma_pow10_bound((i + 1) as nat);
            assert(digits@.subrange(0, i + 1).drop_last() =~= digits@.subrange(0, i as int));
            let p = pow10(i as nat);
            assert(acc * 10 + 9 < 10 * p) by (nonlinear_arith)
                requires acc < p;
        }
        acc = acc * 10 + (c - ZERO) as u128;
        i += 1;
    }
    assert(digits@.subrange(0, i as int) =~= digits@);
    let mut p: u128 = 1;
    let mut k: usize = 0;
    proof {
        lemma_pow10_bound(0);
        reveal_with_fuel(pow10, 1);
    }
    while k < scale
        invariant
            scale <= 38,
            0 <= k <= scale,
            p == pow10(k as nat),
        decreases scale - k,
    {
        proof {
            lemma_pow10_bound((k + 1) as nat);
        }
        p = p * 10;
        k += 1;
    }
    proof {
        lemma_pow10_bound(scale as nat);
        lemma_pow10_bound(i as nat);
    }
    make_rational(acc as i128, p as i128)
}

/// The decimal digits of `n`.
pub open spec fn digits_of(n: nat) -> Seq<u8>
    decreases n,
{
    if n < 10 {
        seq![(ZERO + n) as u8]
    } else {
        digits_of(n / 10) + seq![(ZERO + n % 10) as u8]
    }
}

/// The first `k` digits of the decimal expansion of `r / d`, stopping early
/// when the expansion ends.
pub open spec fn fraction_digits(r: nat, d: nat, k: nat) -> Seq<u8>
    decreases k,
{
    if k == 0 || r == 0 || d == 0 {
        Seq::empty()
    } else {
        seq![(ZERO + (r * 10) / d) as u8] + fraction_digits((r * 10) % d, d, (k - 1) as nat)
    }
}

pub closed spec fn sign_text(n: Number) -> Seq<u8> {
    if n.num < 0 {
        seq![MINUS_BYTE]
    } else {
        Seq::empty()
    }
}

/// The decimal rendering of a number that is not an integer.
pub closed spec fn fraction_text(n: Number) -> Seq<u8> {
    let a = abs(n.num as int);
    sign_text(n) + digits_of(a / (n.den as nat)) + seq![DOT_BYTE] + fraction_digits(
        a % (n.den as nat),
        n.den as nat,
        MAX_FRACTION_DIGITS as nat,
    )
}

/// The canonical rendering of a number, as in a literal: an integer shows
/// one fractional digit (`4.0`).
pub closed spec fn number_text(n: Number) -> Seq<u8> {
    if n.den == 1 {
        sign_text(n) + digits_of(abs(n.num as int)) + text(".0")
    } else {
        fraction_text(n)
    }
}

/// The rendering of a number as a program prints it: an integer shows no
/// fractional part (`4`).
pub closed spec fn number_display(n: Number) -> Seq<u8> {
    if n.den == 1 {
        sign_text(n) + digits_of(abs(n.num as int))
    } else {
        fraction_text(n)
    }
}

pub fn push_digits(out: &mut Vec<u8>, n: u64)
    ensures
        final(out)@ == old(out)@ + digits_of(n as nat),
    decreases n,
{
    if n < 10 {
        out.push(ZERO + n as u8);
    } else {
        push_digits(out, n / 10);
        out.push(ZERO + (n % 10) as u8);
    }
    assert(out@ =~= old(out)@ + digits_of(n as nat));
}

fn push_fraction(out: &mut Vec<u8>, r: u64, d: u64)
    requires
        r < d,
    ensures
        final(out)@ == old(out)@ + fraction_digits(r as nat, d as nat, MAX_FRACTION_DIGITS as nat),
{
    let mut rem: u64 = r;
    let mut k: u64 = MAX_FRACTION_DIGITS;
    while k > 0 && rem != 0
        invariant
            rem < d,
            k <= MAX_FRACTION_DIGITS,
            out@ + fraction_digits(rem as nat, d as nat, k as nat) == old(out)@ + fraction_digits(
                r as nat,
                d as nat,
                MAX_FRACTION_DIGITS as nat,
            ),
        decreases k,
    {
        let wide: u128 = rem as u128 * 10;
        let digit = (wide / d as u128) as u8;
        proof {
            assert(wide / (d as u128) < 10) by (nonlinear_arith)
                requires wide == rem * 10, rem < d;
            assert(wide % (d as u128) < d) by (nonlinear_arith)
                requires d > 0;
        }
        let ghost before = out@;
        out.push(ZERO + digit);
        rem = (wide % d as u128) as u64;
        k -= 1;
        proof {
            assert(out@ + fraction_digits(rem as nat, d as nat, k as nat) =~= before + (seq![(ZERO + digit) as u8] + fraction_digits(rem as nat, d as nat, k as nat)));
        }
    }
    assert(out@ + fraction_digits(rem as nat, d as nat, k as nat) =~= out@);
}

impl Number {
    fn push_sign_and_whole(&self, out: &mut Vec<u8>) -> (a: u64)
        ensures
            a == abs(self.num as int),
            final(out)@ == old(out)@ + sign_text(*self) + digits_of(abs(self.num as int) / (self.den as nat)),
    {
        proof {
            use_type_invariant(self);
        }
        let a: u64 = if self.num < 0 { (-self.num) as u64 } else { self.num as u64 };
        if self.num < 0 {
            out.push(MINUS_BYTE);
        }
        let ghost mid = out@;
        push_digits(out, a / self.den as u64);
        assert(out@ =~= old(out)@ + sign_text(*self) + digits_of(abs(self.num as int) / (self.den as nat)));
        a
    }

    /// The canonical rendering, as in a literal.
    pub fn to_text(&self) -> (r: Vec<u8>)
        ensures
            r@ == number_text(*self),
    {
        proof {
            use_type_invariant(self);
        }
        let mut out: Vec<u8> = Vec::new();
        let a = self.push_sign_and_whole(&mut out);
        assert(abs(self.num as int) / 1 == abs(self.num as int));
        if self.den == 1 {
            let tail = text_bytes(".0");
            append_bytes(&mut out, tail.as_slice());
        } else {
            out.push(DOT_BYTE);
            push_fraction(&mut out, a % self.den as u64, self.den as u64);
        }
        proof {
            assert(out@ =~= number_text(*self));
        }
        out
    }

    /// The rendering a program prints.
    pub fn to_display(&self) -> (r: Vec<u8>)
        ensures
            r@ == number_display(*self),
    {
        proof {
            use_type_invariant(self);
        }
        let mut out: Vec<u8> = Vec::new();
        let a = self.push_sign_and_whole(&mut out);
        assert(abs(self.num as int) / 1 == abs(self.num as int));
        if self.den != 1 {
            out.push(DOT_BYTE);
            push_fraction(&mut out, a % self.den as u64, self.den as u64);
        }
        proof {
            assert(out@ =~= number_display(*self));
        }
        out
    }
}

} // verus!
