//! Integer implementation of the IEEE-754 operations used by the RISC-V F and D
//! extensions.
//!
//! A finite operand is the exact number `±m * 2^e`. Every arithmetic result is
//! described by [`rounded`], or [`rounded_ratio`] for a quotient: the
//! representable number that the rounding mode selects for an exact number, with
//! the exception flags that this raises.

use vstd::prelude::*;
use vstd::arithmetic::power2::*;
use crate::arith;

verus! {

pub const FLAG_INEXACT: u32 = 1;
pub const FLAG_UNDERFLOW: u32 = 2;
pub const FLAG_OVERFLOW: u32 = 4;
pub const FLAG_DIVIDE_ZERO: u32 = 8;
pub const FLAG_INVALID: u32 = 16;

#[derive(Clone, Copy, Debug, PartialEq, Eq, Structural)]
pub enum RoundingMode {
    NearEven,
    Zero,
    Down,
    Up,
    NearMaxMag,
}

/// An interchange format: binary32 or binary64.
#[derive(Clone, Copy, Debug, PartialEq, Eq, Structural)]
pub enum Format {
    Single,
    Double,
}

/// What an encoding stands for. `Finite(s, m, e)` is the number `m * 2^e`,
/// negated when `s` holds; `Nan(true)` is a signaling NaN.
#[derive(Clone, Copy, Debug, PartialEq, Eq, Structural)]
pub enum Value {
    Zero(bool),
    Finite(bool, u128, i32),
    Inf(bool),
    Nan(bool),
}

/// An encoding together with the exception flags that producing it raises.
#[derive(Clone, Copy, Debug, PartialEq, Eq, Structural)]
pub struct Outcome {
    pub bits: u64,
    pub raised: u32,
}

/// The order of two operands.
#[derive(Clone, Copy, Debug, PartialEq, Eq, Structural)]
pub enum Relation {
    Less,
    Equal,
    Greater,
    Unordered,
}

impl Format {
    /// Number of fraction bits.
    pub open spec fn frac(self) -> nat {
        match self {
            Format::Single => 23,
            Format::Double => 52,
        }
    }

    /// Weight of the exponent field: `2^frac`.
    pub open spec fn unit(self) -> nat {
        match self {
            Format::Single => 0x80_0000,
            Format::Double => 0x10_0000_0000_0000,
        }
    }

    /// The all-ones exponent field.
    pub open spec fn exp_max(self) -> nat {
        match self {
            Format::Single => 255,
            Format::Double => 2047,
        }
    }

    /// Weight of the sign bit.
    pub open spec fn sign_weight(self) -> nat {
        match self {
            Format::Single => 0x8000_0000,
            Format::Double => 0x8000_0000_0000_0000,
        }
    }

    /// Exponent of the last place of the subnormal numbers.
    pub open spec fn min_exp(self) -> int {
        match self {
            Format::Single => -149,
            Format::Double => -1074,
        }
    }

    /// The canonical quiet NaN.
    pub open spec fn quiet_nan(self) -> nat {
        match self {
            Format::Single => 0x7fc0_0000,
            Format::Double => 0x7ff8_0000_0000_0000,
        }
    }

    /// The encoding of positive infinity.
    pub open spec fn infinity(self) -> nat {
        match self {
            Format::Single => 0x7f80_0000,
            Format::Double => 0x7ff0_0000_0000_0000,
        }
    }

    /// Whether `a` is an encoding in this format.
    pub open spec fn holds(self, a: u64) -> bool {
        a < 2 * self.sign_weight()
    }

    fn frac_bits(self) -> (r: u32)
        ensures
            r == self.frac(),
            r == 23 || r == 52,
    {
        match self {
            Format::Single => 23,
            Format::Double => 52,
        }
    }

    fn unit_value(self) -> (r: u64)
        ensures
            r == self.unit(),
            r > 0,
    {
        match self {
            Format::Single => 0x80_0000,
            Format::Double => 0x10_0000_0000_0000,
        }
    }

    fn sign_value(self) -> (r: u64)
        ensures
            r == self.sign_weight(),
            r > 0,
    {
        match self {
            Format::Single => 0x8000_0000,
            Format::Double => 0x8000_0000_0000_0000,
        }
    }

    fn infinity_value(self) -> (r: u64)
        ensures
            r == self.infinity(),
    {
        match self {
            Format::Single => 0x7f80_0000,
            Format::Double => 0x7ff0_0000_0000_0000,
        }
    }

    fn lowest_exponent(self) -> (r: i32)
        ensures
            r == self.min_exp(),
    {
        match self {
            Format::Single => -149,
            Format::Double => -1074,
        }
    }
}

/// Whether the sign bit of `a` is set.
pub open spec fn negative(a: u64, f: Format) -> bool {
    a >= f.sign_weight()
}

/// `a` without its sign bit.
pub open spec fn magnitude(a: u64, f: Format) -> nat {
    if negative(a, f) {
        (a - f.sign_weight()) as nat
    } else {
        a as nat
    }
}

/// The value that `a` encodes.
pub open spec fn decoded(a: u64, f: Format) -> Value {
    let exp = magnitude(a, f) / f.unit();
    let frac = magnitude(a, f) % f.unit();
    if exp == f.exp_max() {
        if frac == 0 {
            Value::Inf(negative(a, f))
        } else {
            Value::Nan(2 * frac < f.unit())
        }
    } else if exp == 0 {
        if frac == 0 {
            Value::Zero(negative(a, f))
        } else {
            Value::Finite(negative(a, f), frac as u128, f.min_exp() as i32)
        }
    } else {
        Value::Finite(
            negative(a, f),
            (frac + f.unit()) as u128,
            (exp - 1 + f.min_exp()) as i32,
        )
    }
}

/// `magnitude` with the given sign.
pub open spec fn signed_bits(sign: bool, magnitude: nat, f: Format) -> u64 {
    (if sign {
        f.sign_weight() + magnitude
    } else {
        magnitude
    }) as u64
}

/// Whether a discarded part `rest` of a unit `whole` moves the kept part away
/// from zero. `odd` says whether the kept part is odd.
pub open spec fn rounds_up(rm: RoundingMode, sign: bool, odd: bool, rest: nat, whole: nat) -> bool {
    match rm {
        RoundingMode::NearEven => 2 * rest > whole || (2 * rest == whole && odd),
        RoundingMode::NearMaxMag => 2 * rest >= whole,
        RoundingMode::Zero => false,
        RoundingMode::Down => sign && rest > 0,
        RoundingMode::Up => !sign && rest > 0,
    }
}

/// `m * 2^-n` rounded to an integer.
pub open spec fn round_integer(rm: RoundingMode, sign: bool, m: nat, n: int) -> nat {
    if n <= 0 {
        m * pow2((-n) as nat)
    } else {
        let whole = pow2(n as nat);
        if rounds_up(rm, sign, (m / whole) % 2 == 1, m % whole, whole) {
            m / whole + 1
        } else {
            m / whole
        }
    }
}

/// Whether `m * 2^-n` is not an integer.
pub open spec fn drops_bits(m: nat, n: int) -> bool {
    n > 0 && m % pow2(n as nat) != 0
}

/// Exponent of the last place of the representable numbers near `m * 2^e`.
pub open spec fn last_place(m: nat, e: int, f: Format) -> int {
    let exp = e + arith::bit_length(m) - 1 - f.frac();
    if exp < f.min_exp() {
        f.min_exp()
    } else {
        exp
    }
}

/// Encoding, without its sign, of `m * 2^e` rounded with an unbounded exponent
/// range above.
pub open spec fn rounded_magnitude(rm: RoundingMode, sign: bool, m: nat, e: int, f: Format) -> nat {
    let q = last_place(m, e, f);
    ((q - f.min_exp()) * f.unit() + round_integer(rm, sign, m, q - e)) as nat
}

/// Whether rounding `m * 2^e` is inexact.
pub open spec fn rounding_inexact(m: nat, e: int, f: Format) -> bool {
    drops_bits(m, last_place(m, e, f) - e)
}

/// Whether `m * 2^e`, rounded to the precision of the format without a lower
/// bound on exponents, lies below the normal numbers.
pub open spec fn tiny(rm: RoundingMode, sign: bool, m: nat, e: int, f: Format) -> bool {
    let q = e + arith::bit_length(m) - 1 - f.frac();
    q < f.min_exp() && !(q == f.min_exp() - 1 && round_integer(rm, sign, m, q - e) == 2 * f.unit())
}

/// Whether a result too large for the format becomes infinite.
pub open spec fn overflows_to_infinity(rm: RoundingMode, sign: bool) -> bool {
    match rm {
        RoundingMode::NearEven => true,
        RoundingMode::NearMaxMag => true,
        RoundingMode::Zero => false,
        RoundingMode::Down => sign,
        RoundingMode::Up => !sign,
    }
}

/// The result with an encoding `magnitude`, without its sign, that was rounded
/// with an unbounded exponent range above. An inexact result that is tiny after
/// rounding underflows.
pub open spec fn packed(
    rm: RoundingMode,
    sign: bool,
    magnitude: nat,
    inexact: bool,
    tiny: bool,
    f: Format,
) -> Outcome {
    if magnitude >= f.infinity() {
        Outcome {
            bits: signed_bits(
                sign,
                if overflows_to_infinity(rm, sign) {
                    f.infinity()
                } else {
                    (f.infinity() - 1) as nat
                },
                f,
            ),
            raised: (FLAG_OVERFLOW + FLAG_INEXACT) as u32,
        }
    } else {
        Outcome {
            bits: signed_bits(sign, magnitude, f),
            raised: if !inexact {
                0
            } else if tiny {
                (FLAG_UNDERFLOW + FLAG_INEXACT) as u32
            } else {
                FLAG_INEXACT
            },
        }
    }
}

/// The number `m * 2^e`, negated when `sign` holds, rounded to the format.
#[verifier::opaque]
pub open spec fn rounded(rm: RoundingMode, sign: bool, m: nat, e: int, f: Format) -> Outcome {
    if m == 0 {
        Outcome { bits: signed_bits(sign, 0, f), raised: 0 }
    } else {
        packed(
            rm,
            sign,
            rounded_magnitude(rm, sign, m, e, f),
            rounding_inexact(m, e, f),
            tiny(rm, sign, m, e, f),
            f,
        )
    }
}

/// `n / d` rounded to an integer.
pub open spec fn round_fraction(rm: RoundingMode, sign: bool, n: nat, d: nat) -> nat {
    if rounds_up(rm, sign, (n / d) % 2 == 1, n % d, d) {
        n / d + 1
    } else {
        n / d
    }
}

/// Numerator and denominator of `n / d * 2^-s`.
pub open spec fn fraction_at(n: nat, d: nat, s: int) -> (nat, nat) {
    if s <= 0 {
        (n * pow2((-s) as nat), d)
    } else {
        (n, d * pow2(s as nat))
    }
}

/// The place `l` of the leading bit of `n / d`: `2^l <= n / d < 2^(l + 1)`.
pub open spec fn leading_place(n: nat, d: nat) -> int {
    let k = arith::bit_length(d);
    arith::bit_length(n * pow2(k) / d) - 1 - k
}

/// The number `n / d * 2^e`, negated when `sign` holds, rounded to the format.
pub open spec fn rounded_ratio(
    rm: RoundingMode,
    sign: bool,
    n: nat,
    d: nat,
    e: int,
    f: Format,
) -> Outcome {
    let wide = e + leading_place(n, d) - f.frac();
    let place = if wide < f.min_exp() {
        f.min_exp()
    } else {
        wide
    };
    let (num, den) = fraction_at(n, d, place - e);
    let (wide_num, wide_den) = fraction_at(n, d, wide - e);
    packed(
        rm,
        sign,
        ((place - f.min_exp()) * f.unit() + round_fraction(rm, sign, num, den)) as nat,
        num % den != 0,
        wide < f.min_exp() && !(wide == f.min_exp() - 1 && round_fraction(
            rm,
            sign,
            wide_num,
            wide_den,
        ) == 2 * f.unit()),
        f,
    )
}

// ---------------------------------------------------------------------------
// Rounding
// ---------------------------------------------------------------------------

/// Scaling the significand against the exponent changes nothing.
pub proof fn lemma_rounded_scale(rm: RoundingMode, sign: bool, m: nat, e: int, k: nat, f: Format)
    ensures
        rounded(rm, sign, m * pow2(k), e - k, f) == rounded(rm, sign, m, e, f),
{
    reveal(rounded);
    let p = pow2(k);
    lemma_pow2_pos(k);
    if m == 0 {
        assert(m * p == 0) by (nonlinear_arith)
            requires
                m == 0,
        ;
    } else {
        assert(m * p > 0) by (nonlinear_arith)
            requires
                m > 0,
                p > 0,
        ;
        arith::lemma_bit_length_append(m, k, 0);
        let q = last_place(m, e, f);
        assert(last_place(m * p, e - k, f) == q);
        lemma_round_integer_scale(rm, sign, m, q - e, k);
        let wide = e + arith::bit_length(m) - 1 - f.frac();
        lemma_round_integer_scale(rm, sign, m, wide - e, k);
    }
}

proof fn lemma_round_integer_scale(rm: RoundingMode, sign: bool, m: nat, n: int, k: nat)
    ensures
        round_integer(rm, sign, m * pow2(k), n + k) == round_integer(rm, sign, m, n),
        drops_bits(m * pow2(k), n + k) == drops_bits(m, n),
{
    let p = pow2(k);
    lemma_pow2_pos(k);
    if n + k <= 0 {
        lemma_pow2_adds(k, (-n - k) as nat);
        let x = pow2((-n - k) as nat);
        assert(m * p * x == m * (p * x)) by (nonlinear_arith);
    } else if n <= 0 {
        lemma_pow2_adds((-n) as nat, (n + k) as nat);
        let x = pow2((-n) as nat);
        let w = pow2((n + k) as nat);
        lemma_pow2_pos((n + k) as nat);
        assert(m * p == (m * x) * w) by (nonlinear_arith)
            requires
                p == x * w,
        ;
        vstd::arithmetic::div_mod::lemma_div_multiples_vanish((m * x) as int, w as int);
        vstd::arithmetic::div_mod::lemma_mod_multiples_basic((m * x) as int, w as int);
        assert(w * (m * x) == (m * x) * w) by (nonlinear_arith);
    } else {
        lemma_pow2_adds(n as nat, k);
        let w = pow2(n as nat);
        lemma_pow2_pos(n as nat);
        let a = m / w;
        let r = m % w;
        vstd::arithmetic::div_mod::lemma_fundamental_div_mod(m as int, w as int);
        vstd::arithmetic::div_mod::lemma_mod_bound(m as int, w as int);
        assert(m * p == (w * p) * a + r * p) by (nonlinear_arith)
            requires
                m == w * a + r,
        ;
        assert(r * p < w * p) by (nonlinear_arith)
            requires
                r < w,
                p > 0,
        ;
        assert(r * p >= 0) by (nonlinear_arith);
        assert((w * p) * a == a * (w * p)) by (nonlinear_arith);
        vstd::arithmetic::div_mod::lemma_fundamental_div_mod_converse(
            (m * p) as int,
            (w * p) as int,
            a as int,
            (r * p) as int,
        );
        assert(2 * (r * p) > w * p <==> 2 * r > w) by (nonlinear_arith)
            requires
                p > 0,
        ;
        assert(2 * (r * p) == w * p <==> 2 * r == w) by (nonlinear_arith)
            requires
                p > 0,
        ;
        assert(r * p > 0 <==> r > 0) by (nonlinear_arith)
            requires
                p > 0,
                r >= 0,
        ;
    }
}

/// Bits below a sticky bit do not decide how a number is rounded to an integer,
/// as long as the sticky bit lies two places or more below the units.
proof fn lemma_round_integer_sticky(
    rm: RoundingMode,
    sign: bool,
    b: nat,
    d: nat,
    r: nat,
    n: nat,
)
    requires
        n >= 2,
        0 < r < pow2(d),
    ensures
        round_integer(rm, sign, b * pow2(d) + r, (n + d) as int) == round_integer(
            rm,
            sign,
            arith::stick(b, true),
            n as int,
        ),
        drops_bits(b * pow2(d) + r, (n + d) as int),
        drops_bits(arith::stick(b, true), n as int),
{
    let p = pow2(d);
    lemma_pow2_pos(d);
    let a = b * p + r;
    let t = arith::stick(b, true);
    let w = pow2(n);
    let h = pow2((n - 1) as nat);
    arith::lemma_pow2_step((n - 1) as nat);
    arith::lemma_pow2_step((n - 2) as nat);
    lemma_pow2_adds(n, d);
    let k = b / w;
    let x = b % w;
    vstd::arithmetic::div_mod::lemma_fundamental_div_mod(b as int, w as int);
    vstd::arithmetic::div_mod::lemma_mod_bound(b as int, w as int);
    // The sticky number drops an odd remainder.
    let y = arith::stick(x, true);
    assert(w % 2 == 0 && w >= 4 && h % 2 == 0);
    assert((w * k) % 2 == 0) by {
        let z = pow2((n - 1) as nat);
        assert(w * k == 2 * (z * k)) by (nonlinear_arith)
            requires
                w == 2 * z,
        ;
    }
    assert(b % 2 == x % 2);
    assert(t == w * k + y);
    assert(y < w);
    assert(w * k == k * w) by (nonlinear_arith);
    vstd::arithmetic::div_mod::lemma_fundamental_div_mod_converse(
        t as int,
        w as int,
        k as int,
        y as int,
    );
    // The full number drops that remainder followed by the low bits.
    let full = x * p + r;
    assert(a == (w * p) * k + full) by (nonlinear_arith)
        requires
            a == b * p + r,
            b == w * k + x,
            full == x * p + r,
    ;
    assert(full < w * p) by (nonlinear_arith)
        requires
            full == x * p + r,
            r < p,
            x + 1 <= w,
    ;
    assert(0 < full) by (nonlinear_arith)
        requires
            full == x * p + r,
            r > 0,
    ;
    assert((w * p) * k == k * (w * p)) by (nonlinear_arith);
    vstd::arithmetic::div_mod::lemma_fundamental_div_mod_converse(
        a as int,
        (w * p) as int,
        k as int,
        full as int,
    );
    assert(w * p == 2 * (h * p)) by (nonlinear_arith)
        requires
            w == 2 * h,
    ;
    if x >= h {
        assert(full > h * p) by (nonlinear_arith)
            requires
                full == x * p + r,
                x >= h,
                r > 0,
                p > 0,
        ;
    } else {
        assert(full < h * p) by (nonlinear_arith)
            requires
                full == x * p + r,
                x + 1 <= h,
                r < p,
        ;
    }
    assert(2 * y > w <==> x >= h);
    assert(2 * y != w);
}

/// Dropping low bits behind a sticky bit changes nothing, as long as two bits
/// or more stay below the precision of the format.
pub proof fn lemma_rounded_sticky(
    rm: RoundingMode,
    sign: bool,
    b: nat,
    d: nat,
    r: nat,
    e: int,
    f: Format,
)
    requires
        b > 0,
        r < pow2(d),
        arith::bit_length(b) >= f.frac() + 3,
    ensures
        rounded(rm, sign, b * pow2(d) + r, e - d, f) == rounded(
            rm,
            sign,
            arith::stick(b, r != 0),
            e,
            f,
        ),
{
    reveal(rounded);
    if r == 0 {
        lemma_rounded_scale(rm, sign, b, e, d, f);
    } else {
        let p = pow2(d);
        lemma_pow2_pos(d);
        arith::lemma_bit_length_append(b, d, r);
        arith::lemma_bit_length_stick(b, true);
        let a = b * p + r;
        assert(a > 0) by (nonlinear_arith)
            requires
                a == b * p + r,
                r > 0,
        ;
        let q = last_place(b, e, f);
        let wide = e + arith::bit_length(b) - 1 - f.frac();
        assert(last_place(a, e - d, f) == q);
        assert(last_place(arith::stick(b, true), e, f) == q);
        lemma_round_integer_sticky(rm, sign, b, d, r, (q - e) as nat);
        lemma_round_integer_sticky(rm, sign, b, d, r, (wide - e) as nat);
    }
}

/// `m / 2^n` rounded to an integer, with whether anything was dropped.
fn round_shift(rm: RoundingMode, sign: bool, m: u128, n: u32) -> (r: (u128, bool))
    requires
        n > 0,
    ensures
        r.0 == round_integer(rm, sign, m as nat, n as int),
        r.1 == drops_bits(m as nat, n as int),
        r.0 <= m || r.0 == 1,
{
    let kept: u128 = arith::shift_right(m, n);
    let lost: u128 = arith::low_part(m, n);
    proof {
        arith::lemma_pow2_127();
        lemma_pow2_pos(n as nat);
        vstd::arithmetic::div_mod::lemma_fundamental_div_mod(m as int, pow2(n as nat) as int);
        arith::lemma_pow2_step((n - 1) as nat);
        let w = pow2(n as nat) as int;
        let k = kept as int;
        assert(w * k >= 2 * k) by (nonlinear_arith)
            requires
                w >= 2,
                k >= 0,
        ;
        if n >= 129 {
            arith::lemma_pow2_step(128);
            arith::lemma_pow2_monotonic(129, n as nat);
        }
    }
    let (above, half): (bool, bool) = if n >= 129 {
        (false, false)
    } else {
        let middle: u128 = arith::power(n - 1);
        (lost > middle, lost == middle)
    };
    let up: bool = match rm {
        RoundingMode::NearEven => above || (half && kept % 2 == 1),
        RoundingMode::NearMaxMag => above || half,
        RoundingMode::Zero => false,
        RoundingMode::Down => sign && lost != 0,
        RoundingMode::Up => !sign && lost != 0,
    };
    let value: u128 = if up {
        kept + 1
    } else {
        kept
    };
    (value, lost != 0)
}

fn sign_bit(sign: bool, f: Format) -> (r: u64)
    ensures
        r == signed_bits(sign, 0, f),
{
    if sign {
        f.sign_value()
    } else {
        0
    }
}

fn with_sign(sign: bool, magnitude: u64, f: Format) -> (r: u64)
    requires
        magnitude <= f.infinity(),
    ensures
        r == signed_bits(sign, magnitude as nat, f),
{
    if sign {
        f.sign_value() + magnitude
    } else {
        magnitude
    }
}

/// Whether a result is tiny.
fn underflows(rm: RoundingMode, sign: bool, m: u128, e: i64, length: u32, f: Format) -> (r: bool)
    requires
        m > 0,
        -0x1_0000_0000 <= e <= 0x1_0000_0000,
        length == arith::bit_length(m as nat),
        length <= 128,
    ensures
        r == tiny(rm, sign, m as nat, e as int, f),
{
    let wide: i64 = e + length as i64 - 1 - f.frac_bits() as i64;
    let lowest: i64 = f.lowest_exponent() as i64;
    if wide >= lowest {
        return false;
    }
    if wide < lowest - 1 {
        return true;
    }
    let shift: i64 = wide - e;
    if shift > 0 {
        let (value, _): (u128, bool) = round_shift(rm, sign, m, shift as u32);
        value != 2 * f.unit_value() as u128
    } else {
        proof {
            let n = (-shift) as nat;
            arith::lemma_bit_length(m as nat);
            lemma_pow2_adds(length as nat, n);
            lemma_pow2_pos(n);
            lemma_unit_pow2(f);
            let (t, p) = (pow2(length as nat), pow2(n));
            assert(m * p < t * p) by (nonlinear_arith)
                requires
                    m < t,
                    p > 0,
            ;
        }
        true
    }
}

/// Encoding, without its sign, of a number rounded with an unbounded exponent
/// range above, and whether rounding it was inexact.
fn round_magnitude(rm: RoundingMode, sign: bool, m: u128, e: i64, length: u32, f: Format) -> (r: (
    u128,
    bool,
))
    requires
        m > 0,
        -0x8000_0001 <= e <= 0x8000_0000,
        length == arith::bit_length(m as nat),
        length <= 128,
    ensures
        r.0 == rounded_magnitude(rm, sign, m as nat, e as int, f),
        r.1 == rounding_inexact(m as nat, e as int, f),
{
    let wide: i64 = e + length as i64 - 1 - f.frac_bits() as i64;
    let lowest: i64 = f.lowest_exponent() as i64;
    let q: i64 = if wide < lowest {
        lowest
    } else {
        wide
    };
    let shift: i64 = q - e;
    let ghost frac = f.frac();
    assert(-0x100 < shift < 0x1_0000_0000);
    proof {
        arith::lemma_bit_length(m as nat);
        arith::lemma_pow2_127();
    }
    let (value, inexact): (u128, bool) = if shift > 0 {
        round_shift(rm, sign, m, shift as u32)
    } else {
        proof {
            // The shifted significand keeps at most `frac + 1` bits.
            let s = (-shift) as nat;
            lemma_pow2_adds(length as nat, s);
            arith::lemma_pow2_monotonic(length as nat + s, frac + 1);
            arith::lemma_pow2_monotonic(frac + 1, 53);
            let p = pow2(s);
            let t = pow2(length as nat);
            assert(m * p <= t * p) by (nonlinear_arith)
                requires
                    m <= t,
                    p >= 0,
            ;
        }
        (arith::shift_left(m, (-shift) as u32), false)
    };
    proof {
        lemma_round_bound(rm, sign, m as nat, shift as int, length as nat, frac);
    }
    let base: u128 = (q - lowest) as u128;
    let unit: u64 = f.unit_value();
    proof {
        let u = unit as int;
        let b = base as int;
        assert(0 <= b * u <= 0x1_0000_0000 * 0x10_0000_0000_0000) by (nonlinear_arith)
            requires
                0 <= b <= 0x1_0000_0000,
                0 <= u <= 0x10_0000_0000_0000,
        ;
    }
    (base * (unit as u128) + value, inexact)
}

/// Rounds `(sig + s/2) * 2^exp`, where `s` is some number strictly between
/// zero and one when `sticky` holds and zero otherwise. A significand of zero
/// gives zero.
fn pack(sign: bool, sig: u128, exp: i32, rm: RoundingMode, sticky: bool, f: Format) -> (r: Outcome)
    requires
        sig < 0x8000_0000_0000_0000_0000_0000_0000_0000,
    ensures
        r == rounded(rm, sign, (2 * sig + (if sticky && sig != 0 {
            1int
        } else {
            0
        })) as nat, exp - 1, f),
        !sticky ==> r == rounded(rm, sign, sig as nat, exp as int, f),
        f.holds(r.bits),
{
    proof {
        reveal(rounded);
        arith::lemma_pow2_127();
        lemma_rounded_scale(rm, sign, sig as nat, exp as int, 1, f);
        assert(sig * pow2(1) == 2 * sig);
    }
    if sig == 0 {
        return Outcome { bits: sign_bit(sign, f), raised: 0 };
    }
    let m: u128 = 2 * sig + if sticky {
        1
    } else {
        0
    };
    let e: i64 = exp as i64 - 1;
    let length: u32 = arith::bit_len(m);
    let (total, inexact): (u128, bool) = round_magnitude(rm, sign, m, e, length, f);
    let infinity: u64 = f.infinity_value();
    if total >= infinity as u128 {
        let infinite: bool = match rm {
            RoundingMode::NearEven => true,
            RoundingMode::NearMaxMag => true,
            RoundingMode::Zero => false,
            RoundingMode::Down => sign,
            RoundingMode::Up => !sign,
        };
        let top: u64 = if infinite {
            infinity
        } else {
            infinity - 1
        };
        return Outcome {
            bits: with_sign(sign, top, f),
            raised: FLAG_OVERFLOW + FLAG_INEXACT,
        };
    }
    let raised: u32 = if !inexact {
        0
    } else if underflows(rm, sign, m, e, length, f) {
        FLAG_UNDERFLOW + FLAG_INEXACT
    } else {
        FLAG_INEXACT
    };
    Outcome { bits: with_sign(sign, total as u64, f), raised }
}

/// A rounded significand has at most `frac + 1` bits, or is the power of two
/// above them.
proof fn lemma_round_bound(rm: RoundingMode, sign: bool, m: nat, shift: int, length: nat, frac: nat)
    requires
        m < pow2(length),
        shift >= length - 1 - frac,
        frac <= 52,
    ensures
        round_integer(rm, sign, m, shift) <= pow2(frac + 1),
        round_integer(rm, sign, m, shift) <= 0x20_0000_0000_0000,
{
    arith::lemma_pow2_127();
    arith::lemma_pow2_monotonic(frac + 1, 53);
    if shift <= 0 {
        let s = (-shift) as nat;
        lemma_pow2_adds(length, s);
        arith::lemma_pow2_monotonic(length + s, frac + 1);
        let p = pow2(s);
        let t = pow2(length);
        assert(m * p <= t * p) by (nonlinear_arith)
            requires
                m <= t,
                p >= 0,
        ;
    } else {
        let s = shift as nat;
        lemma_pow2_adds(s, frac + 1);
        arith::lemma_pow2_monotonic(length, s + frac + 1);
        lemma_pow2_pos(s);
        let w = pow2(s);
        let t = pow2(frac + 1);
        assert(m < w * t);
        vstd::arithmetic::div_mod::lemma_fundamental_div_mod(m as int, w as int);
        vstd::arithmetic::div_mod::lemma_mod_bound(m as int, w as int);
        let k = m / w;
        assert(k < t) by (nonlinear_arith)
            requires
                w * k <= m,
                m < w * t,
                w > 0,
        ;
    }
}

// ---------------------------------------------------------------------------
// Decoding
// ---------------------------------------------------------------------------

/// The range of the numbers that a format encodes.
pub open spec fn in_range(v: Value, f: Format) -> bool {
    match v {
        Value::Finite(_, m, e) => {
            &&& 0 < m < 2 * f.unit()
            &&& f.min_exp() <= e < f.min_exp() + f.exp_max() - 1
            &&& e > f.min_exp() ==> m >= f.unit()
        },
        _ => true,
    }
}

pub proof fn lemma_decoded_in_range(a: u64, f: Format)
    requires
        f.holds(a),
    ensures
        in_range(decoded(a, f), f),
{
    let m = magnitude(a, f);
    if f is Single {
        assert(m / 0x80_0000 <= 255);
        assert(m % 0x80_0000 < 0x80_0000);
    } else {
        assert(m / 0x10_0000_0000_0000 <= 2047);
        assert(m % 0x10_0000_0000_0000 < 0x10_0000_0000_0000);
    }
}

fn decode(a: u64, f: Format) -> (r: Value)
    requires
        f.holds(a),
    ensures
        r == decoded(a, f),
        in_range(r, f),
{
    proof {
        lemma_decoded_in_range(a, f);
    }
    let sign: bool = a >= f.sign_value();
    let bits: u64 = if sign {
        a - f.sign_value()
    } else {
        a
    };
    let (exp, frac): (u64, u64) = match f {
        Format::Single => (bits / 0x80_0000, bits % 0x80_0000),
        Format::Double => (bits / 0x10_0000_0000_0000, bits % 0x10_0000_0000_0000),
    };
    let (top, unit): (u64, u64) = match f {
        Format::Single => (255, 0x80_0000),
        Format::Double => (2047, 0x10_0000_0000_0000),
    };
    assert(exp == magnitude(a, f) / f.unit() && frac == magnitude(a, f) % f.unit());
    assert(frac < unit && exp <= top);
    if exp == top {
        if frac == 0 {
            Value::Inf(sign)
        } else {
            Value::Nan(2 * frac < unit)
        }
    } else if exp == 0 {
        if frac == 0 {
            Value::Zero(sign)
        } else {
            Value::Finite(sign, frac as u128, f.lowest_exponent())
        }
    } else {
        Value::Finite(sign, (frac + unit) as u128, exp as i32 - 1 + f.lowest_exponent())
    }
}

pub open spec fn is_nan(v: Value) -> bool {
    v is Nan
}

pub open spec fn is_signaling(v: Value) -> bool {
    v == Value::Nan(true)
}

/// The quiet NaN; `signaling` says whether an operand was a signaling NaN.
pub open spec fn nan_outcome(signaling: bool, f: Format) -> Outcome {
    Outcome {
        bits: f.quiet_nan() as u64,
        raised: if signaling {
            FLAG_INVALID
        } else {
            0
        },
    }
}

pub open spec fn exact(bits: u64) -> Outcome {
    Outcome { bits, raised: 0 }
}

fn quiet(signaling: bool, f: Format) -> (r: Outcome)
    ensures
        r == nan_outcome(signaling, f),
        f.holds(r.bits),
{
    let bits: u64 = match f {
        Format::Single => 0x7fc0_0000,
        Format::Double => 0x7ff8_0000_0000_0000,
    };
    Outcome { bits, raised: if signaling { FLAG_INVALID } else { 0 } }
}

fn plain(bits: u64) -> (r: Outcome)
    ensures
        r == exact(bits),
{
    Outcome { bits, raised: 0 }
}

fn nan(v: Value) -> (r: bool)
    ensures
        r == is_nan(v),
{
    match v {
        Value::Nan(_) => true,
        _ => false,
    }
}

fn signaling(v: Value) -> (r: bool)
    ensures
        r == is_signaling(v),
{
    match v {
        Value::Nan(s) => s,
        _ => false,
    }
}

// ---------------------------------------------------------------------------
// Addition
// ---------------------------------------------------------------------------

pub open spec fn apply_sign(sign: bool, m: nat) -> int {
    if sign {
        -(m as int)
    } else {
        m as int
    }
}

pub open spec fn absolute(x: int) -> nat {
    if x < 0 {
        (-x) as nat
    } else {
        x as nat
    }
}

/// The signed number `total * 2^e` rounded, where a zero total is positive
/// unless rounding down.
pub open spec fn rounded_total(rm: RoundingMode, total: int, e: int, f: Format) -> Outcome {
    if total == 0 {
        exact(signed_bits(rm is Down, 0, f))
    } else {
        rounded(rm, total < 0, absolute(total), e, f)
    }
}

/// The exact sum of two finite numbers, rounded once.
pub open spec fn finite_sum(
    rm: RoundingMode,
    sa: bool,
    a: nat,
    ea: int,
    sb: bool,
    b: nat,
    eb: int,
    f: Format,
) -> Outcome {
    let e = if ea < eb {
        ea
    } else {
        eb
    };
    rounded_total(
        rm,
        apply_sign(sa, a * pow2((ea - e) as nat)) + apply_sign(sb, b * pow2((eb - e) as nat)),
        e,
        f,
    )
}

/// The sum of two encodings.
pub open spec fn sum(rm: RoundingMode, a: u64, b: u64, f: Format) -> Outcome {
    let av = decoded(a, f);
    let bv = decoded(b, f);
    if is_nan(av) || is_nan(bv) {
        nan_outcome(is_signaling(av) || is_signaling(bv), f)
    } else {
        match (av, bv) {
            (Value::Inf(sa), Value::Inf(sb)) => if sa != sb {
                nan_outcome(true, f)
            } else {
                exact(a)
            },
            (Value::Inf(_), _) => exact(a),
            (_, Value::Inf(_)) => exact(b),
            (Value::Zero(sa), Value::Zero(sb)) => exact(
                signed_bits(
                    if sa == sb {
                        sa
                    } else {
                        rm is Down
                    },
                    0,
                    f,
                ),
            ),
            (Value::Zero(_), _) => exact(b),
            (_, Value::Zero(_)) => exact(a),
            (Value::Finite(sa, ma, ea), Value::Finite(sb, mb, eb)) => finite_sum(
                rm,
                sa,
                ma as nat,
                ea as int,
                sb,
                mb as nat,
                eb as int,
                f,
            ),
            _ => nan_outcome(false, f),
        }
    }
}

/// The order of the operands of a sum does not matter.
proof fn lemma_sum_swapped(
    rm: RoundingMode,
    sa: bool,
    m: nat,
    ea: int,
    sb: bool,
    n: nat,
    eb: int,
    f: Format,
)
    ensures
        finite_sum(rm, sa, m, ea, sb, n, eb, f) == finite_sum(rm, sb, n, eb, sa, m, ea, f),
{
}

/// What a sum comes to when the first exponent is the larger one.
proof fn lemma_sum_form(
    rm: RoundingMode,
    sa: bool,
    m: nat,
    ea: int,
    sb: bool,
    n: nat,
    eb: int,
    f: Format,
)
    requires
        ea >= eb,
    ensures
        finite_sum(rm, sa, m, ea, sb, n, eb, f) == rounded_total(
            rm,
            apply_sign(sa, m * pow2((ea - eb) as nat)) + apply_sign(sb, n),
            eb,
            f,
        ),
{
    arith::lemma_pow2_127();
    assert(n * pow2(0) == n);
    assert(m * pow2(0) == m);
}

/// Distant exponents: when the first operand is extended to 124 bits, the second
/// one only matters above its last bit and for whether anything lies below.
proof fn lemma_far_sum(
    rm: RoundingMode,
    sa: bool,
    m: nat,
    s: nat,
    ea: int,
    sb: bool,
    n: nat,
    t: nat,
    f: Format,
)
    requires
        n > 0,
        s > 0,
        t > 0,
        pow2(123) <= m * pow2(s),
        n < pow2(106),
    ensures
        finite_sum(rm, sa, m, ea, sb, n, ea - s - t, f) == rounded_total(
            rm,
            apply_sign(sa, m * pow2(s)) + apply_sign(sb, arith::jammed(n, t)),
            ea - s,
            f,
        ),
{
    let d = s + t;
    let w = pow2(d);
    let p = pow2(t);
    let e = ea - s;
    lemma_sum_form(rm, sa, m, ea, sb, n, e - t, f);
    lemma_pow2_pos(t);
    lemma_pow2_adds(s, t);
    arith::lemma_pow2_step((s - 1) as nat);
    let x = m * pow2(s);
    assert(x % 2 == 0) by {
        let half = pow2((s - 1) as nat);
        assert(x == 2 * (m * half)) by (nonlinear_arith)
            requires
                x == m * (2 * half),
        ;
    }
    let q = n / p;
    let r = n % p;
    vstd::arithmetic::div_mod::lemma_fundamental_div_mod(n as int, p as int);
    vstd::arithmetic::div_mod::lemma_mod_bound(n as int, p as int);
    vstd::arithmetic::div_mod::lemma_div_nonincreasing(n as int, p as int);
    let y = arith::jammed(n, t);
    assert(y == arith::stick(q, r != 0));
    assert(m * w == x * p) by (nonlinear_arith)
        requires
            x == m * pow2(s),
            w == pow2(s) * p,
    ;
    // Enough bits stay above the last one.
    arith::lemma_pow2_step(122);
    arith::lemma_pow2_monotonic(106, 121);
    arith::lemma_pow2_step(121);
    assert(x - q - 1 >= pow2(122));
    arith::lemma_bit_length_ge(x + q, 122);
    arith::lemma_bit_length_ge((x - q - 1) as nat, 122);
    arith::lemma_bit_length_ge((x - q) as nat, 122);
    if sa == sb {
        let total = x + q;
        assert(total * p + r == m * w + n) by (nonlinear_arith)
            requires
                total == x + q,
                m * w == x * p,
                n == p * q + r,
        ;
        lemma_rounded_sticky(rm, sa, total, t, r, e, f);
        assert(arith::stick(total, r != 0) == x + y);
    } else if r == 0 {
        let total = (x - q) as nat;
        assert(total * p == m * w - n && total * p > 0) by (nonlinear_arith)
            requires
                total == x - q,
                total > 0,
                p > 0,
                m * w == x * p,
                n == p * q,
        ;
        lemma_rounded_scale(rm, sa, total, e, t, f);
    } else {
        let total = (x - q - 1) as nat;
        let rest = (p - r) as nat;
        assert(total * p + rest == m * w - n && total * p >= 0) by (nonlinear_arith)
            requires
                total == x - q - 1,
                total >= 0,
                p > 0,
                rest == p - r,
                m * w == x * p,
                n == p * q + r,
        ;
        lemma_rounded_sticky(rm, sa, total, t, rest, e, f);
        assert(arith::stick(total, true) == x - y);
    }
}

/// Adds two numbers of one exponent.
fn combine(sa: bool, x: u128, sb: bool, y: u128, e: i32, rm: RoundingMode, f: Format) -> (r: Outcome)
    requires
        0 < x < 0x1000_0000_0000_0000_0000_0000_0000_0000,
        y < 0x1000_0000_0000_0000_0000_0000_0000_0000,
        -20000 <= e <= 20000,
    ensures
        r == rounded_total(
            rm,
            apply_sign(sa, x as nat) + apply_sign(sb, y as nat),
            e as int,
            f,
        ),
        f.holds(r.bits),
{
    if sa == sb {
        pack(sa, x + y, e, rm, false, f)
    } else if x > y {
        pack(sa, x - y, e, rm, false, f)
    } else if y > x {
        pack(sb, y - x, e, rm, false, f)
    } else {
        let down: bool = match rm {
            RoundingMode::Down => true,
            _ => false,
        };
        plain(sign_bit(down, f))
    }
}

/// Adds two numbers of which the first has the larger exponent.
fn add_ordered(
    sa: bool,
    a: u128,
    ea: i32,
    sb: bool,
    b: u128,
    eb: i32,
    rm: RoundingMode,
    f: Format,
) -> (r: Outcome)
    requires
        0 < a < 0x400_0000_0000_0000_0000_0000_0000,
        0 < b < 0x400_0000_0000_0000_0000_0000_0000,
        -4000 <= eb <= ea <= 4000,
    ensures
        r == finite_sum(rm, sa, a as nat, ea as int, sb, b as nat, eb as int, f),
        f.holds(r.bits),
{
    let d: u32 = (ea - eb) as u32;
    let length: u32 = arith::bit_len(a);
    proof {
        lemma_wide_powers();
        arith::lemma_bit_length_le(a as nat, 106);
        arith::lemma_bit_length(a as nat);
        lemma_sum_form(rm, sa, a as nat, ea as int, sb, b as nat, eb as int, f);
    }
    let room: u32 = 124 - length;
    if d <= room {
        proof {
            lemma_extended(a as nat, length as nat, d as nat, 124);
        }
        let x: u128 = arith::shift_left(a, d);
        combine(sa, x, sb, b, eb, rm, f)
    } else {
        proof {
            lemma_extended(a as nat, length as nat, room as nat, 124);
            lemma_far_sum(
                rm,
                sa,
                a as nat,
                room as nat,
                ea as int,
                sb,
                b as nat,
                (d - room) as nat,
                f,
            );
        }
        let x: u128 = arith::shift_left(a, room);
        let y: u128 = arith::jam(b, d - room);
        combine(sa, x, sb, y, ea - room as i32, rm, f)
    }
}

proof fn lemma_wide_powers()
    ensures
        pow2(106) == 0x400_0000_0000_0000_0000_0000_0000,
        pow2(124) == 0x1000_0000_0000_0000_0000_0000_0000_0000,
{
    lemma2_to64();
    lemma2_to64_rest();
    lemma_pow2_adds(64, 42);
    lemma_pow2_adds(64, 60);
}

/// A number of `length` bits that is extended by `n`.
proof fn lemma_extended(m: nat, length: nat, n: nat, limit: nat)
    requires
        m > 0,
        length == arith::bit_length(m),
        length + n <= limit,
    ensures
        0 < m * pow2(n) < pow2(limit),
        length >= 1,
        m * pow2(n) >= pow2((length + n - 1) as nat),
{
    arith::lemma_bit_length(m);
    lemma_pow2_adds(length, n);
    lemma_pow2_adds((length - 1) as nat, n);
    arith::lemma_pow2_monotonic(length + n, limit);
    lemma_pow2_pos(n);
    let (lo, hi, p) = (pow2((length - 1) as nat), pow2(length), pow2(n));
    assert(lo * p <= m * p < hi * p && m * p > 0) by (nonlinear_arith)
        requires
            0 < m,
            lo <= m < hi,
            p > 0,
    ;
}

/// Adds two numbers exactly and rounds once.
fn add_parts(
    sa: bool,
    a: u128,
    ea: i32,
    sb: bool,
    b: u128,
    eb: i32,
    rm: RoundingMode,
    f: Format,
) -> (r: Outcome)
    requires
        0 < a < 0x400_0000_0000_0000_0000_0000_0000,
        0 < b < 0x400_0000_0000_0000_0000_0000_0000,
        -4000 <= ea <= 4000,
        -4000 <= eb <= 4000,
    ensures
        r == finite_sum(rm, sa, a as nat, ea as int, sb, b as nat, eb as int, f),
        f.holds(r.bits),
{
    if ea >= eb {
        add_ordered(sa, a, ea, sb, b, eb, rm, f)
    } else {
        proof {
            lemma_sum_swapped(rm, sa, a as nat, ea as int, sb, b as nat, eb as int, f);
        }
        add_ordered(sb, b, eb, sa, a, ea, rm, f)
    }
}

proof fn lemma_unit_pow2(f: Format)
    ensures
        f.unit() == pow2(f.frac()),
        2 * f.unit() == pow2(f.frac() + 1),
{
    arith::lemma_pow2_127();
}

pub fn add(a: u64, b: u64, rm: RoundingMode, f: Format) -> (r: Outcome)
    requires
        f.holds(a),
        f.holds(b),
    ensures
        r == sum(rm, a, b, f),
        f.holds(r.bits),
{
    let av: Value = decode(a, f);
    let bv: Value = decode(b, f);
    if nan(av) || nan(bv) {
        return quiet(signaling(av) || signaling(bv), f);
    }
    match (av, bv) {
        (Value::Inf(sa), Value::Inf(sb)) => {
            if sa != sb {
                quiet(true, f)
            } else {
                plain(a)
            }
        },
        (Value::Inf(_), _) => plain(a),
        (_, Value::Inf(_)) => plain(b),
        (Value::Zero(sa), Value::Zero(sb)) => {
            let down: bool = match rm {
                RoundingMode::Down => true,
                _ => false,
            };
            plain(
                sign_bit(
                    if sa == sb {
                        sa
                    } else {
                        down
                    },
                    f,
                ),
            )
        },
        (Value::Zero(_), _) => plain(b),
        (_, Value::Zero(_)) => plain(a),
        (Value::Finite(sa, ma, ea), Value::Finite(sb, mb, eb)) => {
            add_parts(sa, ma, ea, sb, mb, eb, rm, f)
        },
        _ => quiet(false, f),
    }
}

// ---------------------------------------------------------------------------
// Multiplication and division
// ---------------------------------------------------------------------------

/// Infinity with the given sign.
pub open spec fn infinite(sign: bool, f: Format) -> u64 {
    signed_bits(sign, f.infinity(), f)
}

fn infinity(sign: bool, f: Format) -> (r: u64)
    ensures
        r == infinite(sign, f),
        f.holds(r),
{
    with_sign(sign, f.infinity_value(), f)
}

/// The product of two encodings.
pub open spec fn product(rm: RoundingMode, a: u64, b: u64, f: Format) -> Outcome {
    let av = decoded(a, f);
    let bv = decoded(b, f);
    let sign = negative(a, f) != negative(b, f);
    if is_nan(av) || is_nan(bv) {
        nan_outcome(is_signaling(av) || is_signaling(bv), f)
    } else {
        match (av, bv) {
            (Value::Inf(_), Value::Zero(_)) => nan_outcome(true, f),
            (Value::Zero(_), Value::Inf(_)) => nan_outcome(true, f),
            (Value::Inf(_), _) => exact(infinite(sign, f)),
            (_, Value::Inf(_)) => exact(infinite(sign, f)),
            (Value::Zero(_), _) => exact(signed_bits(sign, 0, f)),
            (_, Value::Zero(_)) => exact(signed_bits(sign, 0, f)),
            (Value::Finite(_, ma, ea), Value::Finite(_, mb, eb)) => rounded(
                rm,
                sign,
                (ma * mb) as nat,
                ea + eb,
                f,
            ),
            _ => nan_outcome(false, f),
        }
    }
}

/// The product of two significands fits.
proof fn lemma_product_bound(a: u128, b: u128)
    requires
        a < 0x20_0000_0000_0000,
        b < 0x20_0000_0000_0000,
    ensures
        a * b < 0x400_0000_0000_0000_0000_0000_0000,
{
    assert(a * b <= 0x1f_ffff_ffff_ffff * 0x1f_ffff_ffff_ffff) by (nonlinear_arith)
        requires
            a <= 0x1f_ffff_ffff_ffff,
            b <= 0x1f_ffff_ffff_ffff,
    ;
}

pub fn is_negative(a: u64, f: Format) -> (r: bool)
    ensures
        r == negative(a, f),
{
    a >= f.sign_value()
}

pub fn mul(a: u64, b: u64, rm: RoundingMode, f: Format) -> (r: Outcome)
    requires
        f.holds(a),
        f.holds(b),
    ensures
        r == product(rm, a, b, f),
        f.holds(r.bits),
{
    let av: Value = decode(a, f);
    let bv: Value = decode(b, f);
    if nan(av) || nan(bv) {
        return quiet(signaling(av) || signaling(bv), f);
    }
    let sign: bool = is_negative(a, f) != is_negative(b, f);
    match (av, bv) {
        (Value::Inf(_), Value::Zero(_)) => quiet(true, f),
        (Value::Zero(_), Value::Inf(_)) => quiet(true, f),
        (Value::Inf(_), _) => plain(infinity(sign, f)),
        (_, Value::Inf(_)) => plain(infinity(sign, f)),
        (Value::Zero(_), _) => plain(sign_bit(sign, f)),
        (_, Value::Zero(_)) => plain(sign_bit(sign, f)),
        (Value::Finite(_, ma, ea), Value::Finite(_, mb, eb)) => {
            proof {
                lemma_product_bound(ma, mb);
            }
            pack(sign, ma * mb, ea + eb, rm, false, f)
        },
        _ => quiet(false, f),
    }
}

/// Number of bits by which a dividend is extended: it is brought to full
/// precision, and ten bits more than the precision follow.
spec fn quotient_bits(ma: nat, f: Format) -> nat {
    (f.frac() + 10 + (f.frac() + 1 - arith::bit_length(ma))) as nat
}

/// The quotient of two encodings.
pub open spec fn quotient(rm: RoundingMode, a: u64, b: u64, f: Format) -> Outcome {
    let av = decoded(a, f);
    let bv = decoded(b, f);
    let sign = negative(a, f) != negative(b, f);
    if is_nan(av) || is_nan(bv) {
        nan_outcome(is_signaling(av) || is_signaling(bv), f)
    } else {
        match (av, bv) {
            (Value::Inf(_), Value::Inf(_)) => nan_outcome(true, f),
            (Value::Zero(_), Value::Zero(_)) => nan_outcome(true, f),
            (Value::Inf(_), _) => exact(infinite(sign, f)),
            (_, Value::Inf(_)) => exact(signed_bits(sign, 0, f)),
            (Value::Zero(_), _) => exact(signed_bits(sign, 0, f)),
            (_, Value::Zero(_)) => Outcome { bits: infinite(sign, f), raised: FLAG_DIVIDE_ZERO },
            (Value::Finite(_, ma, ea), Value::Finite(_, mb, eb)) => rounded_ratio(
                rm,
                sign,
                ma as nat,
                mb as nat,
                ea - eb,
                f,
            ),
            _ => nan_outcome(false, f),
        }
    }
}

pub fn div(a: u64, b: u64, rm: RoundingMode, f: Format) -> (r: Outcome)
    requires
        f.holds(a),
        f.holds(b),
    ensures
        r == quotient(rm, a, b, f),
        f.holds(r.bits),
{
    let av: Value = decode(a, f);
    let bv: Value = decode(b, f);
    if nan(av) || nan(bv) {
        return quiet(signaling(av) || signaling(bv), f);
    }
    let sign: bool = is_negative(a, f) != is_negative(b, f);
    match (av, bv) {
        (Value::Inf(_), Value::Inf(_)) => quiet(true, f),
        (Value::Zero(_), Value::Zero(_)) => quiet(true, f),
        (Value::Inf(_), _) => plain(infinity(sign, f)),
        (_, Value::Inf(_)) => plain(sign_bit(sign, f)),
        (Value::Zero(_), _) => plain(sign_bit(sign, f)),
        (_, Value::Zero(_)) => Outcome { bits: infinity(sign, f), raised: FLAG_DIVIDE_ZERO },
        (Value::Finite(_, ma, ea), Value::Finite(_, mb, eb)) => {
            let length: u32 = arith::bit_len(ma);
            proof {
                lemma_unit_pow2(f);
                lemma_wide_powers();
                arith::lemma_bit_length_le(ma as nat, f.frac() + 1);
            }
            let n: u32 = f.frac_bits() + 10 + (f.frac_bits() + 1 - length);
            proof {
                lemma_extended(ma as nat, length as nat, n as nat, 124);
            }
            let num: u128 = arith::shift_left(ma, n);
            proof {
                lemma_quotient_bound(num as nat, mb as nat);
                lemma_dividend_larger(ma, mb, f);
                lemma_developed_quotient(
                    rm,
                    sign,
                    ma as nat,
                    mb as nat,
                    ea - eb,
                    f,
                );
            }
            pack(sign, num / mb, ea - eb - n as i32, rm, num % mb != 0, f)
        },
        _ => quiet(false, f),
    }
}

proof fn lemma_quotient_bound(n: nat, d: nat)
    requires
        d > 0,
    ensures
        n / d <= n,
{
    vstd::arithmetic::div_mod::lemma_div_nonincreasing(n as int, d as int);
}

/// An extended dividend is not below a divisor.
proof fn lemma_dividend_larger(ma: u128, mb: u128, f: Format)
    requires
        0 < ma < 2 * f.unit(),
        0 < mb < 2 * f.unit(),
    ensures
        (ma * pow2(quotient_bits(ma as nat, f))) as nat / mb as nat > 0,
{
    let k = quotient_bits(ma as nat, f);
    lemma_unit_pow2(f);
    arith::lemma_bit_length_le(ma as nat, f.frac() + 1);
    arith::lemma_pow2_monotonic(f.frac() + 1, k);
    let p = pow2(k);
    assert(ma * p >= p) by (nonlinear_arith)
        requires
            ma >= 1,
            p >= 0,
    ;
    vstd::arithmetic::div_mod::lemma_div_non_zero(ma * p, mb as int);
}

/// A fraction does not change when both parts are multiplied.
proof fn lemma_fraction_scale(rm: RoundingMode, sign: bool, n: nat, d: nat, c: nat)
    requires
        d > 0,
        c > 0,
    ensures
        c * d > 0,
        round_fraction(rm, sign, c * n, c * d) == round_fraction(rm, sign, n, d),
        (c * n) % (c * d) == 0 <==> n % d == 0,
{
    let (k, x) = (n / d, n % d);
    vstd::arithmetic::div_mod::lemma_fundamental_div_mod(n as int, d as int);
    vstd::arithmetic::div_mod::lemma_mod_bound(n as int, d as int);
    assert(c * n == k * (c * d) + c * x) by (nonlinear_arith)
        requires
            n == d * k + x,
    ;
    assert(0 <= c * x < c * d) by (nonlinear_arith)
        requires
            0 <= x < d,
            c > 0,
    ;
    vstd::arithmetic::div_mod::lemma_fundamental_div_mod_converse(
        (c * n) as int,
        (c * d) as int,
        k as int,
        (c * x) as int,
    );
    assert((2 * (c * x) > c * d <==> 2 * x > d) && (2 * (c * x) == c * d <==> 2 * x == d) && (c * x
        == 0 <==> x == 0)) by (nonlinear_arith)
        requires
            c > 0,
            x >= 0,
    ;
}

/// Rounding a fraction looks no further than at its integer part behind two
/// spare bits and at whether anything follows.
proof fn lemma_fraction_sticky(rm: RoundingMode, sign: bool, q: nat, p: nat, r: nat, n: nat)
    requires
        n >= 2,
        r < p,
    ensures
        round_fraction(rm, sign, q * p + r, pow2((n - 1) as nat) * p) == round_integer(
            rm,
            sign,
            arith::stick(2 * q, r != 0),
            n as int,
        ),
        (q * p + r) % (pow2((n - 1) as nat) * p) != 0 <==> drops_bits(
            arith::stick(2 * q, r != 0),
            n as int,
        ),
{
    let w = pow2((n - 1) as nat);
    let h = pow2((n - 2) as nat);
    arith::lemma_pow2_step((n - 1) as nat);
    arith::lemma_pow2_step((n - 2) as nat);
    lemma_pow2_pos((n - 2) as nat);
    let (k, x) = (q / w, q % w);
    vstd::arithmetic::div_mod::lemma_fundamental_div_mod(q as int, w as int);
    vstd::arithmetic::div_mod::lemma_mod_bound(q as int, w as int);
    let s: nat = if r != 0 {
        1
    } else {
        0
    };
    let full = x * p + r;
    assert(q * p + r == k * (w * p) + full) by (nonlinear_arith)
        requires
            q == w * k + x,
            full == x * p + r,
    ;
    assert(0 <= full < w * p) by (nonlinear_arith)
        requires
            full == x * p + r,
            0 <= r < p,
            0 <= x,
            x + 1 <= w,
    ;
    vstd::arithmetic::div_mod::lemma_fundamental_div_mod_converse(
        (q * p + r) as int,
        (w * p) as int,
        k as int,
        full as int,
    );
    assert(2 * q + s == k * (2 * w) + (2 * x + s)) by (nonlinear_arith)
        requires
            q == w * k + x,
    ;
    vstd::arithmetic::div_mod::lemma_fundamental_div_mod_converse(
        (2 * q + s) as int,
        (2 * w) as int,
        k as int,
        (2 * x + s) as int,
    );
    assert(arith::stick(2 * q, r != 0) == 2 * q + s);
    assert(w * p == 2 * (h * p)) by (nonlinear_arith)
        requires
            w == 2 * h,
    ;
    if x > h || x == h && r > 0 {
        assert(full > h * p) by (nonlinear_arith)
            requires
                full == x * p + r,
                0 <= r < p,
                x > h || x == h && r > 0,
        ;
    } else if x == h {
        assert(full == h * p);
    } else {
        assert(full < h * p) by (nonlinear_arith)
            requires
                full == x * p + r,
                x + 1 <= h,
                r < p,
        ;
    }
    assert(full == 0 <==> x == 0 && r == 0) by (nonlinear_arith)
        requires
            full == x * p + r,
            0 <= r < p,
            0 <= x,
    ;
}

/// Dividing with `j` more bits appends them to the quotient.
proof fn lemma_long_division(n: nat, d: nat, j: nat)
    requires
        d > 0,
    ensures
        ({
            let low = ((n % d) * pow2(j)) / d;
            n * pow2(j) / d == n / d * pow2(j) + low && low < pow2(j)
        }),
{
    let (q, r, p) = (n / d, n % d, pow2(j));
    lemma_pow2_pos(j);
    vstd::arithmetic::div_mod::lemma_fundamental_div_mod(n as int, d as int);
    vstd::arithmetic::div_mod::lemma_mod_bound(n as int, d as int);
    assert(r * p >= 0) by (nonlinear_arith);
    let t = (r * p) / d;
    let rest = (r * p) % d;
    vstd::arithmetic::div_mod::lemma_fundamental_div_mod((r * p) as int, d as int);
    vstd::arithmetic::div_mod::lemma_mod_bound((r * p) as int, d as int);
    assert(t < p) by (nonlinear_arith)
        requires
            d * t <= r * p,
            r < d,
            p > 0,
            d > 0,
    ;
    assert(n * p == (q * p + t) * d + rest) by (nonlinear_arith)
        requires
            n == d * q + r,
            r * p == d * t + rest,
    ;
    vstd::arithmetic::div_mod::lemma_fundamental_div_mod_converse(
        (n * p) as int,
        d as int,
        (q * p + t) as int,
        rest as int,
    );
}

/// A quotient developed to `k` bits leads with the leading bit of the ratio.
proof fn lemma_leading_place(n: nat, d: nat, k: nat)
    requires
        n > 0,
        d > 0,
        k >= arith::bit_length(d),
    ensures
        leading_place(n, d) == arith::bit_length(n * pow2(k) / d) - 1 - k,
        n * pow2(k) / d > 0,
{
    let k0 = arith::bit_length(d);
    let j = (k - k0) as nat;
    let p = pow2(k0);
    let start = n * p;
    arith::lemma_bit_length(d);
    lemma_pow2_adds(k0, j);
    lemma_pow2_pos(j);
    assert(start >= p) by (nonlinear_arith)
        requires
            start == n * p,
            n >= 1,
            p >= 0,
    ;
    vstd::arithmetic::div_mod::lemma_div_non_zero(start as int, d as int);
    assert(n * pow2(k) == start * pow2(j)) by (nonlinear_arith)
        requires
            start == n * p,
            pow2(k) == p * pow2(j),
    ;
    lemma_long_division(start, d, j);
    let low = ((start % d) * pow2(j)) / d;
    arith::lemma_bit_length_append(start / d, j, low);
    let q0 = start / d;
    assert(q0 * pow2(j) > 0) by (nonlinear_arith)
        requires
            q0 > 0,
            pow2(j) > 0,
    ;
}

/// The leading bit of a ratio stands where it has to: scaled by it, the ratio is
/// at least one and below two.
pub proof fn law_leading_place(n: nat, d: nat)
    requires
        n > 0,
        d > 0,
    ensures
        ({
            let (num, den) = fraction_at(n, d, leading_place(n, d));
            0 < den <= num < 2 * den
        }),
{
    let k = arith::bit_length(d);
    let p = pow2(k);
    let q = n * p / d;
    let l = leading_place(n, d);
    let (num, den) = fraction_at(n, d, l);
    lemma_leading_place(n, d, k);
    arith::lemma_bit_length(q);
    let top = (arith::bit_length(q) - 1) as nat;
    let w = pow2(top);
    arith::lemma_pow2_step(top);
    lemma_pow2_pos(top);
    lemma_pow2_pos(k);
    vstd::arithmetic::div_mod::lemma_fundamental_div_mod((n * p) as int, d as int);
    vstd::arithmetic::div_mod::lemma_mod_bound((n * p) as int, d as int);
    let r = (n * p) % d;
    assert(d * w <= n * p < 2 * (d * w)) by (nonlinear_arith)
        requires
            n * p == d * q + r,
            0 <= r < d,
            w <= q,
            q + 1 <= 2 * w,
    ;
    if l <= 0 {
        let u = pow2((-l) as nat);
        lemma_pow2_adds(top, (-l) as nat);
        assert(d <= num < 2 * d) by (nonlinear_arith)
            requires
                d * w <= n * p < 2 * (d * w),
                p == w * u,
                num == n * u,
                w > 0,
        ;
    } else {
        let u = pow2(l as nat);
        lemma_pow2_adds(l as nat, k);
        lemma_pow2_pos(l as nat);
        assert(0 < den <= n < 2 * den) by (nonlinear_arith)
            requires
                d * w <= n * p < 2 * (d * w),
                w == u * p,
                den == d * u,
                p > 0,
                d > 0,
                u > 0,
        ;
    }
}

/// At a place no further down than two bits above the end of the development,
/// the developed quotient rounds like the ratio.
proof fn lemma_developed_place(
    rm: RoundingMode,
    sign: bool,
    n: nat,
    d: nat,
    k: nat,
    s: int,
)
    requires
        d > 0,
        s + k >= 1,
    ensures
        ({
            let long = n * pow2(k);
            let developed = arith::stick(2 * (long / d), long % d != 0);
            let (num, den) = fraction_at(n, d, s);
            &&& round_fraction(rm, sign, num, den) == round_integer(
                rm,
                sign,
                developed,
                s + k + 1,
            )
            &&& num % den != 0 <==> drops_bits(developed, s + k + 1)
        }),
{
    let long = n * pow2(k);
    let (q, r) = (long / d, long % d);
    let (num, den) = fraction_at(n, d, s);
    vstd::arithmetic::div_mod::lemma_fundamental_div_mod(long as int, d as int);
    vstd::arithmetic::div_mod::lemma_mod_bound(long as int, d as int);
    assert(d * q == q * d) by (nonlinear_arith);
    lemma_fraction_sticky(rm, sign, q, d, r, (s + k + 1) as nat);
    let w = pow2((s + k) as nat);
    if s <= 0 {
        let c = w;
        lemma_pow2_pos((s + k) as nat);
        lemma_pow2_adds((-s) as nat, (s + k) as nat);
        let u = pow2((-s) as nat);
        assert(c * num == long) by (nonlinear_arith)
            requires
                num == n * u,
                long == n * pow2(k),
                pow2(k) == u * c,
        ;
        lemma_fraction_scale(rm, sign, num, den, c);
    } else {
        let c = pow2(k);
        lemma_pow2_pos(k);
        lemma_pow2_pos(s as nat);
        lemma_pow2_adds(s as nat, k);
        let u = pow2(s as nat);
        assert(c * num == long) by (nonlinear_arith)
            requires
                num == n,
                long == n * c,
        ;
        assert(c * den == w * d) by (nonlinear_arith)
            requires
                den == d * u,
                w == u * c,
        ;
        assert(den > 0) by (nonlinear_arith)
            requires
                den == d * u,
                d > 0,
                u > 0,
        ;
        lemma_fraction_scale(rm, sign, num, den, c);
    }
}

/// A quotient that is developed far enough rounds like the ratio itself.
proof fn lemma_developed_quotient(
    rm: RoundingMode,
    sign: bool,
    ma: nat,
    mb: nat,
    e: int,
    f: Format,
)
    requires
        0 < ma < 2 * f.unit(),
        0 < mb < 2 * f.unit(),
    ensures
        ({
            let k = quotient_bits(ma, f);
            let long = ma * pow2(k);
            rounded_ratio(rm, sign, ma, mb, e, f) == rounded(
                rm,
                sign,
                arith::stick(2 * (long / mb), long % mb != 0),
                e - k - 1,
                f,
            )
        }),
{
    reveal(rounded);
    let k = quotient_bits(ma, f);
    let n = ma * pow2(k);
    let q = n / mb;
    let developed = arith::stick(2 * q, n % mb != 0);
    // The quotient has at least `frac + 10` bits.
    lemma_unit_pow2(f);
    arith::lemma_bit_length_le(ma, f.frac() + 1);
    arith::lemma_bit_length_le(mb, f.frac() + 1);
    lemma_extended(ma, arith::bit_length(ma), k, 2 * f.frac() + 11);
    lemma_pow2_adds(f.frac() + 1, f.frac() + 9);
    let (u, w) = (pow2(f.frac() + 1), pow2(f.frac() + 9));
    assert(n >= u * w);
    assert(q >= w) by {
        assert(w * mb <= n) by (nonlinear_arith)
            requires
                n >= u * w,
                mb < u,
                w >= 0,
        ;
        vstd::arithmetic::div_mod::lemma_div_is_ordered((w * mb) as int, n as int, mb as int);
        vstd::arithmetic::div_mod::lemma_div_multiples_vanish(w as int, mb as int);
        assert(mb * w == w * mb) by (nonlinear_arith);
    }
    lemma_pow2_pos(f.frac() + 9);
    arith::lemma_bit_length_ge(q, f.frac() + 9);
    lemma_leading_place(ma, mb, k);
    arith::lemma_bit_length_stick(2 * q, n % mb != 0);
    assert(arith::bit_length(2 * q) == arith::bit_length(q) + 1) by {
        assert((2 * q) / 2 == q);
    }
    let wide = e + leading_place(ma, mb) - f.frac();
    let place = if wide < f.min_exp() {
        f.min_exp()
    } else {
        wide
    };
    lemma_developed_place(rm, sign, ma, mb, k, place - e);
    lemma_developed_place(rm, sign, ma, mb, k, wide - e);
    assert(last_place(developed, e - k - 1, f) == place);
}

// ---------------------------------------------------------------------------
// Square root
// ---------------------------------------------------------------------------

/// Whether `root` is the square root of `n`, rounded down.
pub open spec fn is_root(n: nat, root: nat) -> bool {
    root * root <= n < (root + 1) * (root + 1)
}

/// The square root of `n`, rounded down.
pub open spec fn floor_root(n: nat) -> nat {
    choose|root: nat| is_root(n, root)
}

proof fn lemma_root_unique(n: nat, a: nat)
    requires
        is_root(n, a),
    ensures
        floor_root(n) == a,
{
    let b = floor_root(n);
    assert(is_root(n, b));
    if a < b {
        assert((a + 1) * (a + 1) <= b * b) by (nonlinear_arith)
            requires
                a + 1 <= b,
        ;
    }
    if b < a {
        assert((b + 1) * (b + 1) <= a * a) by (nonlinear_arith)
            requires
                b + 1 <= a,
        ;
    }
}

/// Square root with remainder, one binary digit at a time.
fn isqrt(n: u128) -> (r: (u128, u128))
    ensures
        is_root(n as nat, r.0 as nat),
        r.0 == floor_root(n as nat),
        r.0 * r.0 + r.1 == n,
        r.0 <= 0xffff_ffff_ffff_ffff,
{
    let mut root: u128 = 0;
    let mut rem: u128 = 0;
    let mut i: u32 = 64;
    proof {
        arith::lemma_pow2_127();
        vstd::arithmetic::div_mod::lemma_basic_div(n as int, pow2(128) as int);
    }
    while i > 0
        invariant
            i <= 64,
            root * root + rem == n as nat / pow2(2 * i as nat),
            rem <= 2 * root,
            root < pow2((64 - i) as nat),
        decreases i,
    {
        i = i - 1;
        let ghost before = (root, rem);
        let digits: u128 = arith::shift_right(n, 2 * i) % 4;
        proof {
            let k = 2 * i as nat;
            arith::lemma_pow2_127();
            lemma_pow2_adds(k, 2);
            lemma2_to64();
            lemma_pow2_pos(k);
            let p = pow2(k) as int;
            vstd::arithmetic::div_mod::lemma_div_denominator(n as int, p, 4);
            arith::lemma_pow2_monotonic((63 - i) as nat, 63);
            arith::lemma_pow2_step((63 - i) as nat);
        }
        rem = rem * 4 + digits;
        let trial: u128 = root * 4 + 1;
        let ghost prefix = n as nat / pow2(2 * i as nat);
        assert(prefix == 4 * (before.0 * before.0 + before.1) + digits);
        let ghost s = before.0 as int;
        assert((2 * s) * (2 * s) == 4 * (s * s)) by (nonlinear_arith);
        assert((2 * s + 1) * (2 * s + 1) == 4 * (s * s) + 4 * s + 1) by (nonlinear_arith);
        if rem >= trial {
            rem = rem - trial;
            root = root * 2 + 1;
        } else {
            root = root * 2;
        }
    }
    proof {
        arith::lemma_pow2_127();
        assert(n as nat / 1 == n);
        let a = root as int;
        assert((a + 1) * (a + 1) == a * a + 2 * a + 1) by (nonlinear_arith);
        lemma_root_unique(n as nat, root as nat);
    }
    (root, rem)
}

/// The significand and exponent of a number, scaled to an even exponent.
pub open spec fn even_parts(m: nat, e: int) -> (nat, int) {
    if e % 2 != 0 {
        (2 * m, e - 1)
    } else {
        (m, e)
    }
}

/// The even number of bits by which a significand is extended before its root
/// is taken.
pub open spec fn root_bits(m: nat, f: Format) -> nat {
    let room = (2 * (f.frac() + 5) - arith::bit_length(m)) as nat;
    (room - room % 2) as nat
}

/// The square root of `m * 2^e`, `e` even, developed from `2 * k` further bits
/// of the significand, the rest jammed one place below.
pub open spec fn developed_root(rm: RoundingMode, m: nat, e: int, k: nat, f: Format) -> Outcome {
    let n = m * pow2(2 * k);
    let root = floor_root(n);
    rounded(rm, false, arith::stick(2 * root, root * root != n), e / 2 - k - 1, f)
}

/// The square root of an encoding.
pub open spec fn square_root(rm: RoundingMode, a: u64, f: Format) -> Outcome {
    match decoded(a, f) {
        Value::Nan(s) => nan_outcome(s, f),
        Value::Inf(false) => exact(a),
        Value::Zero(_) => exact(a),
        Value::Inf(true) => nan_outcome(true, f),
        Value::Finite(true, _, _) => nan_outcome(true, f),
        Value::Finite(false, m, e) => {
            let parts = even_parts(m as nat, e as int);
            developed_root(rm, parts.0, parts.1, root_bits(parts.0, f) / 2, f)
        },
    }
}

pub fn sqrt(a: u64, rm: RoundingMode, f: Format) -> (r: Outcome)
    requires
        f.holds(a),
    ensures
        r == square_root(rm, a, f),
        f.holds(r.bits),
{
    match decode(a, f) {
        Value::Nan(s) => quiet(s, f),
        Value::Zero(_) => plain(a),
        Value::Inf(sign) => {
            if sign {
                quiet(true, f)
            } else {
                plain(a)
            }
        },
        Value::Finite(sign, significand, exponent) => {
            if sign {
                return quiet(true, f);
            }
            let raised: u32 = (exponent + 2048) as u32;
            let odd: bool = raised % 2 != 0;
            assert(odd == (exponent as int % 2 != 0));
            let m: u128 = if odd {
                significand * 2
            } else {
                significand
            };
            let half: i32 = (raised / 2) as i32 - 1024;
            let ghost parts = even_parts(significand as nat, exponent as int);
            assert(m == parts.0 && half == parts.1 / 2);
            proof {
                arith::lemma_pow2_127();
                lemma2_to64();
                lemma2_to64_rest();
                arith::lemma_bit_length_le(m as nat, 54);
                if f is Single {
                    arith::lemma_bit_length_le(m as nat, 25);
                }
                arith::lemma_bit_length(m as nat);
            }
            let length: u32 = arith::bit_len(m);
            let room: u32 = 2 * (f.frac_bits() + 5) - length;
            let shift: u32 = room - room % 2;
            proof {
                let p = pow2(shift as nat);
                let t = pow2(length as nat);
                lemma_pow2_adds(length as nat, shift as nat);
                arith::lemma_pow2_monotonic(length as nat + shift as nat, 120);
                lemma_pow2_adds(64, 56);
                lemma_pow2_pos(shift as nat);
                assert(m * p <= t * p) by (nonlinear_arith)
                    requires
                        m <= t,
                        p >= 0,
                ;
                assert(m * p > 0) by (nonlinear_arith)
                    requires
                        m > 0,
                        p > 0,
                ;
            }
            let extended: u128 = arith::shift_left(m, shift);
            let (root, remainder): (u128, u128) = isqrt(extended);
            proof {
                if root == 0 {
                    assert((root + 1) * (root + 1) == 1) by (nonlinear_arith)
                        requires
                            root == 0,
                    ;
                }
            }
            pack(false, root, half - (shift / 2) as i32, rm, remainder != 0, f)
        },
    }
}

// ---------------------------------------------------------------------------
// Fused multiplication and addition
// ---------------------------------------------------------------------------

/// The outcome of `a * b + c`: the exact number, rounded once.
pub open spec fn fused(rm: RoundingMode, a: u64, b: u64, c: u64, f: Format) -> Outcome {
    let av = decoded(a, f);
    let bv = decoded(b, f);
    let cv = decoded(c, f);
    let sign = negative(a, f) != negative(b, f);
    let invalid_product = (av is Inf && bv is Zero) || (av is Zero && bv is Inf);
    if is_nan(av) || is_nan(bv) || is_nan(cv) {
        nan_outcome(
            invalid_product || is_signaling(av) || is_signaling(bv) || is_signaling(cv),
            f,
        )
    } else if invalid_product {
        nan_outcome(true, f)
    } else if av is Inf || bv is Inf {
        if cv is Inf && cv->Inf_0 != sign {
            nan_outcome(true, f)
        } else {
            exact(infinite(sign, f))
        }
    } else if cv is Inf {
        exact(c)
    } else if av is Zero || bv is Zero {
        sum(rm, signed_bits(sign, 0, f), c, f)
    } else {
        match (av, bv, cv) {
            (Value::Finite(_, ma, ea), Value::Finite(_, mb, eb), Value::Finite(sc, mc, ec)) =>
                finite_sum(rm, sign, (ma * mb) as nat, ea + eb, sc, mc as nat, ec as int, f),
            (Value::Finite(_, ma, ea), Value::Finite(_, mb, eb), Value::Zero(_)) => rounded(
                rm,
                sign,
                (ma * mb) as nat,
                ea + eb,
                f,
            ),
            _ => nan_outcome(false, f),
        }
    }
}

pub fn fma(a: u64, b: u64, c: u64, rm: RoundingMode, f: Format) -> (r: Outcome)
    requires
        f.holds(a),
        f.holds(b),
        f.holds(c),
    ensures
        r == fused(rm, a, b, c, f),
        f.holds(r.bits),
{
    let av: Value = decode(a, f);
    let bv: Value = decode(b, f);
    let cv: Value = decode(c, f);
    let invalid_product: bool = match (av, bv) {
        (Value::Inf(_), Value::Zero(_)) => true,
        (Value::Zero(_), Value::Inf(_)) => true,
        _ => false,
    };
    if nan(av) || nan(bv) || nan(cv) {
        return quiet(invalid_product || signaling(av) || signaling(bv) || signaling(cv), f);
    }
    if invalid_product {
        return quiet(true, f);
    }
    let sign: bool = is_negative(a, f) != is_negative(b, f);
    match (av, bv, cv) {
        (Value::Inf(_), _, Value::Inf(sc)) => {
            if sc != sign {
                quiet(true, f)
            } else {
                plain(infinity(sign, f))
            }
        },
        (_, Value::Inf(_), Value::Inf(sc)) => {
            if sc != sign {
                quiet(true, f)
            } else {
                plain(infinity(sign, f))
            }
        },
        (Value::Inf(_), _, _) => plain(infinity(sign, f)),
        (_, Value::Inf(_), _) => plain(infinity(sign, f)),
        (_, _, Value::Inf(_)) => plain(c),
        (Value::Zero(_), _, _) => self::add(sign_bit(sign, f), c, rm, f),
        (_, Value::Zero(_), _) => self::add(sign_bit(sign, f), c, rm, f),
        (Value::Finite(_, ma, ea), Value::Finite(_, mb, eb), Value::Finite(sc, mc, ec)) => {
            proof {
                lemma_product_bound(ma, mb);
                assert(ma * mb > 0) by (nonlinear_arith)
                    requires
                        ma > 0,
                        mb > 0,
                ;
            }
            add_parts(sign, ma * mb, ea + eb, sc, mc, ec, rm, f)
        },
        (Value::Finite(_, ma, ea), Value::Finite(_, mb, eb), Value::Zero(_)) => {
            proof {
                lemma_product_bound(ma, mb);
            }
            pack(sign, ma * mb, ea + eb, rm, false, f)
        },
        _ => quiet(false, f),
    }
}

// ---------------------------------------------------------------------------
// Comparison and classification
// ---------------------------------------------------------------------------

/// An integer that orders encodings as the numbers they stand for; both zeros
/// share one key.
pub open spec fn order_key(a: u64, f: Format) -> int {
    apply_sign(negative(a, f), magnitude(a, f))
}

/// The order of two encodings.
pub open spec fn relation(a: u64, b: u64, f: Format) -> Relation {
    if is_nan(decoded(a, f)) || is_nan(decoded(b, f)) {
        Relation::Unordered
    } else if order_key(a, f) < order_key(b, f) {
        Relation::Less
    } else if order_key(a, f) == order_key(b, f) {
        Relation::Equal
    } else {
        Relation::Greater
    }
}

/// Flags that a comparison raises. A quiet one objects to signaling NaNs only.
pub open spec fn relation_raises(a: u64, b: u64, quiet: bool, f: Format) -> u32 {
    let av = decoded(a, f);
    let bv = decoded(b, f);
    if (is_nan(av) || is_nan(bv)) && (!quiet || is_signaling(av) || is_signaling(bv)) {
        FLAG_INVALID
    } else {
        0
    }
}

pub fn compare(a: u64, b: u64, f: Format, quiet: bool) -> (r: (Relation, u32))
    requires
        f.holds(a),
        f.holds(b),
    ensures
        r.0 == relation(a, b, f),
        r.1 == relation_raises(a, b, quiet, f),
{
    let av: Value = decode(a, f);
    let bv: Value = decode(b, f);
    if nan(av) || nan(bv) {
        let raised: u32 = if !quiet || signaling(av) || signaling(bv) {
            FLAG_INVALID
        } else {
            0
        };
        return (Relation::Unordered, raised);
    }
    let sa: bool = is_negative(a, f);
    let sb: bool = is_negative(b, f);
    let x: u64 = if sa {
        a - f.sign_value()
    } else {
        a
    };
    let y: u64 = if sb {
        b - f.sign_value()
    } else {
        b
    };
    let order: Relation = if x == 0 && y == 0 {
        Relation::Equal
    } else if sa != sb {
        if sa {
            Relation::Less
        } else {
            Relation::Greater
        }
    } else if x == y {
        Relation::Equal
    } else if (x < y) != sa {
        Relation::Less
    } else {
        Relation::Greater
    };
    (order, 0)
}

/// The smaller or the larger operand. A NaN gives way to a number, and a
/// negative zero counts as smaller than a positive one.
pub open spec fn extreme(a: u64, b: u64, max: bool, f: Format) -> Outcome {
    let av = decoded(a, f);
    let bv = decoded(b, f);
    let raised = if is_signaling(av) || is_signaling(bv) {
        FLAG_INVALID
    } else {
        0
    };
    let bits = if is_nan(av) && is_nan(bv) {
        f.quiet_nan() as u64
    } else if is_nan(av) {
        b
    } else if is_nan(bv) {
        a
    } else if order_key(a, f) == order_key(b, f) {
        if max == negative(a, f) {
            b
        } else {
            a
        }
    } else if (order_key(a, f) > order_key(b, f)) == max {
        a
    } else {
        b
    };
    Outcome { bits, raised }
}

pub fn minmax(a: u64, b: u64, f: Format, max: bool) -> (r: Outcome)
    requires
        f.holds(a),
        f.holds(b),
    ensures
        r == extreme(a, b, max, f),
        f.holds(r.bits),
{
    let av: Value = decode(a, f);
    let bv: Value = decode(b, f);
    let raised: u32 = if signaling(av) || signaling(bv) {
        FLAG_INVALID
    } else {
        0
    };
    let bits: u64 = if nan(av) {
        if nan(bv) {
            quiet(false, f).bits
        } else {
            b
        }
    } else if nan(bv) {
        a
    } else {
        match compare(a, b, f, true).0 {
            Relation::Equal => if max == is_negative(a, f) {
                b
            } else {
                a
            },
            Relation::Greater => if max {
                a
            } else {
                b
            },
            _ => if max {
                b
            } else {
                a
            },
        }
    };
    Outcome { bits, raised }
}

/// The class of an encoding: one bit of ten.
pub open spec fn class_bit(a: u64, f: Format) -> u32 {
    match decoded(a, f) {
        Value::Inf(true) => 1,
        Value::Finite(true, m, _) => if m >= f.unit() {
            2
        } else {
            4
        },
        Value::Zero(true) => 8,
        Value::Zero(false) => 16,
        Value::Finite(false, m, _) => if m < f.unit() {
            32
        } else {
            64
        },
        Value::Inf(false) => 128,
        Value::Nan(true) => 256,
        Value::Nan(false) => 512,
    }
}

pub fn class(a: u64, f: Format) -> (r: u32)
    requires
        f.holds(a),
    ensures
        r == class_bit(a, f),
{
    let unit: u128 = f.unit_value() as u128;
    match decode(a, f) {
        Value::Inf(sign) => if sign {
            1
        } else {
            128
        },
        Value::Finite(sign, m, _) => if sign {
            if m < unit {
                4
            } else {
                2
            }
        } else if m < unit {
            32
        } else {
            64
        },
        Value::Zero(sign) => if sign {
            8
        } else {
            16
        },
        Value::Nan(signaling) => if signaling {
            256
        } else {
            512
        },
    }
}

// ---------------------------------------------------------------------------
// Conversions
// ---------------------------------------------------------------------------

/// An encoding of one format in another.
pub open spec fn converted(rm: RoundingMode, a: u64, src: Format, dst: Format) -> Outcome {
    match decoded(a, src) {
        Value::Zero(s) => exact(signed_bits(s, 0, dst)),
        Value::Inf(s) => exact(infinite(s, dst)),
        Value::Nan(s) => nan_outcome(s, dst),
        Value::Finite(s, m, e) => rounded(rm, s, m as nat, e as int, dst),
    }
}

pub fn convert_format(a: u64, src: Format, dst: Format, rm: RoundingMode) -> (r: Outcome)
    requires
        src.holds(a),
    ensures
        r == converted(rm, a, src, dst),
        dst.holds(r.bits),
{
    match decode(a, src) {
        Value::Zero(s) => plain(sign_bit(s, dst)),
        Value::Inf(s) => plain(infinity(s, dst)),
        Value::Nan(s) => quiet(s, dst),
        Value::Finite(s, m, e) => pack(s, m, e, rm, false, dst),
    }
}

/// An integer together with the exception flags that producing it raises.
#[derive(Clone, Copy, Debug, PartialEq, Eq, Structural)]
pub struct Whole {
    pub value: i128,
    pub raised: u32,
}

/// The smallest integer of a type.
pub open spec fn least_integer(signed: bool, bits: nat) -> int {
    if signed {
        -(pow2((bits - 1) as nat) as int)
    } else {
        0
    }
}

/// The largest integer of a type.
pub open spec fn greatest_integer(signed: bool, bits: nat) -> int {
    if signed {
        pow2((bits - 1) as nat) - 1
    } else {
        pow2(bits) - 1
    }
}

/// `x`, or the nearest bound with the invalid flag when `x` lies outside.
pub open spec fn saturated(x: int, inexact: bool, low: int, high: int) -> Whole {
    if x < low {
        Whole { value: low as i128, raised: FLAG_INVALID }
    } else if x > high {
        Whole { value: high as i128, raised: FLAG_INVALID }
    } else {
        Whole {
            value: x as i128,
            raised: if inexact {
                FLAG_INEXACT
            } else {
                0
            },
        }
    }
}

/// The integer of the given type that an encoding converts to.
pub open spec fn integer_of(rm: RoundingMode, a: u64, f: Format, signed: bool, bits: nat) -> Whole {
    let low = least_integer(signed, bits);
    let high = greatest_integer(signed, bits);
    match decoded(a, f) {
        Value::Zero(_) => Whole { value: 0, raised: 0 },
        Value::Nan(_) => Whole { value: high as i128, raised: FLAG_INVALID },
        Value::Inf(s) => Whole {
            value: if s {
                low as i128
            } else {
                high as i128
            },
            raised: FLAG_INVALID,
        },
        Value::Finite(s, m, e) => saturated(
            apply_sign(s, round_integer(rm, s, m as nat, -e)),
            drops_bits(m as nat, -e),
            low,
            high,
        ),
    }
}

pub fn float_to_int(source: u64, f: Format, rm: RoundingMode, signed: bool, bits: u32) -> (r: Whole)
    requires
        f.holds(source),
        bits == 32 || bits == 64,
    ensures
        r == integer_of(rm, source, f, signed, bits as nat),
        least_integer(signed, bits as nat) <= r.value <= greatest_integer(signed, bits as nat),
{
    proof {
        arith::lemma_pow2_127();
        lemma2_to64();
    }
    let low: i128 = if !signed {
        0
    } else if bits == 32 {
        -0x8000_0000
    } else {
        -0x8000_0000_0000_0000
    };
    let high: i128 = if signed {
        if bits == 32 {
            0x7fff_ffff
        } else {
            0x7fff_ffff_ffff_ffff
        }
    } else if bits == 32 {
        0xffff_ffff
    } else {
        0xffff_ffff_ffff_ffff
    };
    assert(low == least_integer(signed, bits as nat));
    assert(high == greatest_integer(signed, bits as nat));
    let (sign, significand, exponent): (bool, u128, i32) = match decode(source, f) {
        Value::Zero(_) => {
            return Whole { value: 0, raised: 0 };
        },
        Value::Nan(_) => {
            return Whole { value: high, raised: FLAG_INVALID };
        },
        Value::Inf(sign) => {
            return Whole {
                value: if sign {
                    low
                } else {
                    high
                },
                raised: FLAG_INVALID,
            };
        },
        Value::Finite(sign, significand, exponent) => (sign, significand, exponent),
    };
    if exponent >= 64 {
        proof {
            arith::lemma_pow2_monotonic(64, exponent as nat);
            let p = pow2(exponent as nat);
            assert(significand * p >= p) by (nonlinear_arith)
                requires
                    significand >= 1,
                    p >= 0,
            ;
        }
        return Whole {
            value: if sign {
                low
            } else {
                high
            },
            raised: FLAG_INVALID,
        };
    }
    let (whole, inexact): (u128, bool) = if exponent >= 0 {
        proof {
            arith::lemma_pow2_monotonic(exponent as nat, 64);
            let p = pow2(exponent as nat);
            assert(significand * p <= 0x20_0000_0000_0000 * 0x1_0000_0000_0000_0000)
                by (nonlinear_arith)
                requires
                    significand < 0x20_0000_0000_0000,
                    p <= 0x1_0000_0000_0000_0000,
            ;
        }
        (arith::shift_left(significand, exponent as u32), false)
    } else {
        round_shift(rm, sign, significand, (-exponent) as u32)
    };
    let x: i128 = if sign {
        -(whole as i128)
    } else {
        whole as i128
    };
    if x < low {
        Whole { value: low, raised: FLAG_INVALID }
    } else if x > high {
        Whole { value: high, raised: FLAG_INVALID }
    } else {
        Whole {
            value: x,
            raised: if inexact {
                FLAG_INEXACT
            } else {
                0
            },
        }
    }
}

/// An integer rounded to a format.
pub open spec fn float_of(rm: RoundingMode, x: int, f: Format) -> Outcome {
    rounded(rm, x < 0, absolute(x), 0, f)
}

pub fn int_to_float(x: i128, f: Format, rm: RoundingMode) -> (r: Outcome)
    requires
        -0x1_0000_0000_0000_0000 < x < 0x1_0000_0000_0000_0000,
    ensures
        r == float_of(rm, x as int, f),
        f.holds(r.bits),
{
    let sign: bool = x < 0;
    let m: u128 = if sign {
        (-x) as u128
    } else {
        x as u128
    };
    pack(sign, m, 0, rm, false, f)
}

/// An encoding with its sign flipped.
pub open spec fn negated(a: u64, f: Format) -> u64 {
    (if negative(a, f) {
        a - f.sign_weight()
    } else {
        a + f.sign_weight()
    }) as u64
}

pub fn negate(a: u64, f: Format) -> (r: u64)
    requires
        f.holds(a),
    ensures
        r == negated(a, f),
        f.holds(r),
{
    if is_negative(a, f) {
        a - f.sign_value()
    } else {
        a + f.sign_value()
    }
}

/// An encoding with the given sign.
pub fn set_sign(a: u64, sign: bool, f: Format) -> (r: u64)
    requires
        f.holds(a),
    ensures
        r == signed_bits(sign, magnitude(a, f), f),
        f.holds(r),
{
    let bits: u64 = if is_negative(a, f) {
        a - f.sign_value()
    } else {
        a
    };
    if sign {
        f.sign_value() + bits
    } else {
        bits
    }
}

/// Hands out the low bits of a binary32 outcome and collects its flags.
fn settle32(outcome: Outcome, flags: &mut u32) -> (r: u32)
    requires
        Format::Single.holds(outcome.bits),
    ensures
        r == outcome.bits,
        *final(flags) == *old(flags) | outcome.raised,
{
    *flags = *flags | outcome.raised;
    outcome.bits as u32
}

fn settle64(outcome: Outcome, flags: &mut u32) -> (r: u64)
    ensures
        r == outcome.bits,
        *final(flags) == *old(flags) | outcome.raised,
{
    *flags = *flags | outcome.raised;
    outcome.bits
}

fn settle_integer(whole: Whole, flags: &mut u32) -> (r: i128)
    ensures
        r == whole.value,
        *final(flags) == *old(flags) | whole.raised,
{
    *flags = *flags | whole.raised;
    whole.value
}

fn settle_flags(raised: u32, flags: &mut u32)
    ensures
        *final(flags) == *old(flags) | raised,
{
    *flags = *flags | raised;
}

/// The bounds of the integer types of the conversions.
pub proof fn lemma_integer_bounds()
    ensures
        least_integer(true, 32) == -0x8000_0000,
        greatest_integer(true, 32) == 0x7fff_ffff,
        least_integer(true, 64) == -0x8000_0000_0000_0000,
        greatest_integer(true, 64) == 0x7fff_ffff_ffff_ffff,
        greatest_integer(false, 32) == 0xffff_ffff,
        greatest_integer(false, 64) == 0xffff_ffff_ffff_ffff,
{
    arith::lemma_pow2_127();
    lemma2_to64();
}

pub fn add_f32(a: u32, b: u32, rm: RoundingMode, flags: &mut u32) -> (r: u32)
    ensures
        r == sum(rm, a as u64, b as u64, Format::Single).bits,
        *final(flags) == *old(flags) | sum(rm, a as u64, b as u64, Format::Single).raised,
{
    settle32(self::add(a as u64, b as u64, rm, Format::Single), flags)
}

pub fn sub_f32(a: u32, b: u32, rm: RoundingMode, flags: &mut u32) -> (r: u32)
    ensures
        r == sum(rm, a as u64, negated(b as u64, Format::Single), Format::Single).bits,
        *final(flags) == *old(flags) | sum(rm, a as u64, negated(b as u64, Format::Single), Format::Single).raised,
{
    settle32(self::add(a as u64, negate(b as u64, Format::Single), rm, Format::Single), flags)
}

pub fn mul_f32(a: u32, b: u32, rm: RoundingMode, flags: &mut u32) -> (r: u32)
    ensures
        r == product(rm, a as u64, b as u64, Format::Single).bits,
        *final(flags) == *old(flags) | product(rm, a as u64, b as u64, Format::Single).raised,
{
    settle32(self::mul(a as u64, b as u64, rm, Format::Single), flags)
}

pub fn div_f32(a: u32, b: u32, rm: RoundingMode, flags: &mut u32) -> (r: u32)
    ensures
        r == quotient(rm, a as u64, b as u64, Format::Single).bits,
        *final(flags) == *old(flags) | quotient(rm, a as u64, b as u64, Format::Single).raised,
{
    settle32(div(a as u64, b as u64, rm, Format::Single), flags)
}

pub fn sqrt_f32(a: u32, rm: RoundingMode, flags: &mut u32) -> (r: u32)
    ensures
        r == square_root(rm, a as u64, Format::Single).bits,
        *final(flags) == *old(flags) | square_root(rm, a as u64, Format::Single).raised,
{
    settle32(sqrt(a as u64, rm, Format::Single), flags)
}

pub fn fma_f32(a: u32, b: u32, c: u32, rm: RoundingMode, flags: &mut u32) -> (r: u32)
    ensures
        r == fused(rm, a as u64, b as u64, c as u64, Format::Single).bits,
        *final(flags) == *old(flags) | fused(rm, a as u64, b as u64, c as u64, Format::Single).raised,
{
    settle32(fma(a as u64, b as u64, c as u64, rm, Format::Single), flags)
}

pub fn min_f32(a: u32, b: u32, flags: &mut u32) -> (r: u32)
    ensures
        r == extreme(a as u64, b as u64, false, Format::Single).bits,
        *final(flags) == *old(flags) | extreme(a as u64, b as u64, false, Format::Single).raised,
{
    settle32(minmax(a as u64, b as u64, Format::Single, false), flags)
}

pub fn max_f32(a: u32, b: u32, flags: &mut u32) -> (r: u32)
    ensures
        r == extreme(a as u64, b as u64, true, Format::Single).bits,
        *final(flags) == *old(flags) | extreme(a as u64, b as u64, true, Format::Single).raised,
{
    settle32(minmax(a as u64, b as u64, Format::Single, true), flags)
}

pub fn eq_f32(a: u32, b: u32, flags: &mut u32) -> (r: bool)
    ensures
        r == (relation(a as u64, b as u64, Format::Single) is Equal),
        *final(flags) == *old(flags) | relation_raises(a as u64, b as u64, true, Format::Single),
{
    let (order, raised): (Relation, u32) = compare(a as u64, b as u64, Format::Single, true);
    settle_flags(raised, flags);
    order == Relation::Equal
}

pub fn lt_f32(a: u32, b: u32, flags: &mut u32) -> (r: bool)
    ensures
        r == (relation(a as u64, b as u64, Format::Single) is Less),
        *final(flags) == *old(flags) | relation_raises(a as u64, b as u64, false, Format::Single),
{
    let (order, raised): (Relation, u32) = compare(a as u64, b as u64, Format::Single, false);
    settle_flags(raised, flags);
    order == Relation::Less
}

pub fn le_f32(a: u32, b: u32, flags: &mut u32) -> (r: bool)
    ensures
        r == (relation(a as u64, b as u64, Format::Single) is Less || relation(a as u64, b as u64, Format::Single) is Equal),
        *final(flags) == *old(flags) | relation_raises(a as u64, b as u64, false, Format::Single),
{
    let (order, raised): (Relation, u32) = compare(a as u64, b as u64, Format::Single, false);
    settle_flags(raised, flags);
    order == Relation::Less || order == Relation::Equal
}

#[must_use]
pub fn class_f32(a: u32) -> (r: u32)
    ensures
        r == class_bit(a as u64, Format::Single),
{
    class(a as u64, Format::Single)
}

pub fn f32_to_i32(a: u32, rm: RoundingMode, flags: &mut u32) -> (r: i32)
    ensures
        r == integer_of(rm, a as u64, Format::Single, true, 32).value,
        *final(flags) == *old(flags) | integer_of(rm, a as u64, Format::Single, true, 32).raised,
{
    proof {
        lemma_integer_bounds();
    }
    settle_integer(float_to_int(a as u64, Format::Single, rm, true, 32), flags) as i32
}

pub fn i32_to_f32(a: i32, rm: RoundingMode, flags: &mut u32) -> (r: u32)
    ensures
        r == float_of(rm, a as int, Format::Single).bits,
        *final(flags) == *old(flags) | float_of(rm, a as int, Format::Single).raised,
{
    settle32(int_to_float(a as i128, Format::Single, rm), flags)
}

pub fn f32_to_u32(a: u32, rm: RoundingMode, flags: &mut u32) -> (r: u32)
    ensures
        r == integer_of(rm, a as u64, Format::Single, false, 32).value,
        *final(flags) == *old(flags) | integer_of(rm, a as u64, Format::Single, false, 32).raised,
{
    proof {
        lemma_integer_bounds();
    }
    settle_integer(float_to_int(a as u64, Format::Single, rm, false, 32), flags) as u32
}

pub fn u32_to_f32(a: u32, rm: RoundingMode, flags: &mut u32) -> (r: u32)
    ensures
        r == float_of(rm, a as int, Format::Single).bits,
        *final(flags) == *old(flags) | float_of(rm, a as int, Format::Single).raised,
{
    settle32(int_to_float(a as i128, Format::Single, rm), flags)
}

pub fn f32_to_i64(a: u32, rm: RoundingMode, flags: &mut u32) -> (r: i64)
    ensures
        r == integer_of(rm, a as u64, Format::Single, true, 64).value,
        *final(flags) == *old(flags) | integer_of(rm, a as u64, Format::Single, true, 64).raised,
{
    proof {
        lemma_integer_bounds();
    }
    settle_integer(float_to_int(a as u64, Format::Single, rm, true, 64), flags) as i64
}

pub fn i64_to_f32(a: i64, rm: RoundingMode, flags: &mut u32) -> (r: u32)
    ensures
        r == float_of(rm, a as int, Format::Single).bits,
        *final(flags) == *old(flags) | float_of(rm, a as int, Format::Single).raised,
{
    settle32(int_to_float(a as i128, Format::Single, rm), flags)
}

pub fn f32_to_u64(a: u32, rm: RoundingMode, flags: &mut u32) -> (r: u64)
    ensures
        r == integer_of(rm, a as u64, Format::Single, false, 64).value,
        *final(flags) == *old(flags) | integer_of(rm, a as u64, Format::Single, false, 64).raised,
{
    proof {
        lemma_integer_bounds();
    }
    settle_integer(float_to_int(a as u64, Format::Single, rm, false, 64), flags) as u64
}

pub fn u64_to_f32(a: u64, rm: RoundingMode, flags: &mut u32) -> (r: u32)
    ensures
        r == float_of(rm, a as int, Format::Single).bits,
        *final(flags) == *old(flags) | float_of(rm, a as int, Format::Single).raised,
{
    settle32(int_to_float(a as i128, Format::Single, rm), flags)
}

pub fn add_f64(a: u64, b: u64, rm: RoundingMode, flags: &mut u32) -> (r: u64)
    ensures
        r == sum(rm, a, b, Format::Double).bits,
        *final(flags) == *old(flags) | sum(rm, a, b, Format::Double).raised,
{
    settle64(self::add(a, b, rm, Format::Double), flags)
}

pub fn sub_f64(a: u64, b: u64, rm: RoundingMode, flags: &mut u32) -> (r: u64)
    ensures
        r == sum(rm, a, negated(b, Format::Double), Format::Double).bits,
        *final(flags) == *old(flags) | sum(rm, a, negated(b, Format::Double), Format::Double).raised,
{
    settle64(self::add(a, negate(b, Format::Double), rm, Format::Double), flags)
}

pub fn mul_f64(a: u64, b: u64, rm: RoundingMode, flags: &mut u32) -> (r: u64)
    ensures
        r == product(rm, a, b, Format::Double).bits,
        *final(flags) == *old(flags) | product(rm, a, b, Format::Double).raised,
{
    settle64(self::mul(a, b, rm, Format::Double), flags)
}

pub fn div_f64(a: u64, b: u64, rm: RoundingMode, flags: &mut u32) -> (r: u64)
    ensures
        r == quotient(rm, a, b, Format::Double).bits,
        *final(flags) == *old(flags) | quotient(rm, a, b, Format::Double).raised,
{
    settle64(div(a, b, rm, Format::Double), flags)
}

pub fn sqrt_f64(a: u64, rm: RoundingMode, flags: &mut u32) -> (r: u64)
    ensures
        r == square_root(rm, a, Format::Double).bits,
        *final(flags) == *old(flags) | square_root(rm, a, Format::Double).raised,
{
    settle64(sqrt(a, rm, Format::Double), flags)
}

pub fn fma_f64(a: u64, b: u64, c: u64, rm: RoundingMode, flags: &mut u32) -> (r: u64)
    ensures
        r == fused(rm, a, b, c, Format::Double).bits,
        *final(flags) == *old(flags) | fused(rm, a, b, c, Format::Double).raised,
{
    settle64(fma(a, b, c, rm, Format::Double), flags)
}

pub fn min_f64(a: u64, b: u64, flags: &mut u32) -> (r: u64)
    ensures
        r == extreme(a, b, false, Format::Double).bits,
        *final(flags) == *old(flags) | extreme(a, b, false, Format::Double).raised,
{
    settle64(minmax(a, b, Format::Double, false), flags)
}

pub fn max_f64(a: u64, b: u64, flags: &mut u32) -> (r: u64)
    ensures
        r == extreme(a, b, true, Format::Double).bits,
        *final(flags) == *old(flags) | extreme(a, b, true, Format::Double).raised,
{
    settle64(minmax(a, b, Format::Double, true), flags)
}

pub fn eq_f64(a: u64, b: u64, flags: &mut u32) -> (r: bool)
    ensures
        r == (relation(a, b, Format::Double) is Equal),
        *final(flags) == *old(flags) | relation_raises(a, b, true, Format::Double),
{
    let (order, raised): (Relation, u32) = compare(a, b, Format::Double, true);
    settle_flags(raised, flags);
    order == Relation::Equal
}

pub fn lt_f64(a: u64, b: u64, flags: &mut u32) -> (r: bool)
    ensures
        r == (relation(a, b, Format::Double) is Less),
        *final(flags) == *old(flags) | relation_raises(a, b, false, Format::Double),
{
    let (order, raised): (Relation, u32) = compare(a, b, Format::Double, false);
    settle_flags(raised, flags);
    order == Relation::Less
}

pub fn le_f64(a: u64, b: u64, flags: &mut u32) -> (r: bool)
    ensures
        r == (relation(a, b, Format::Double) is Less || relation(a, b, Format::Double) is Equal),
        *final(flags) == *old(flags) | relation_raises(a, b, false, Format::Double),
{
    let (order, raised): (Relation, u32) = compare(a, b, Format::Double, false);
    settle_flags(raised, flags);
    order == Relation::Less || order == Relation::Equal
}

#[must_use]
pub fn class_f64(a: u64) -> (r: u32)
    ensures
        r == class_bit(a, Format::Double),
{
    class(a, Format::Double)
}

pub fn f64_to_i32(a: u64, rm: RoundingMode, flags: &mut u32) -> (r: i32)
    ensures
        r == integer_of(rm, a, Format::Double, true, 32).value,
        *final(flags) == *old(flags) | integer_of(rm, a, Format::Double, true, 32).raised,
{
    proof {
        lemma_integer_bounds();
    }
    settle_integer(float_to_int(a, Format::Double, rm, true, 32), flags) as i32
}

pub fn i32_to_f64(a: i32, rm: RoundingMode, flags: &mut u32) -> (r: u64)
    ensures
        r == float_of(rm, a as int, Format::Double).bits,
        *final(flags) == *old(flags) | float_of(rm, a as int, Format::Double).raised,
{
    settle64(int_to_float(a as i128, Format::Double, rm), flags)
}

pub fn f64_to_u32(a: u64, rm: RoundingMode, flags: &mut u32) -> (r: u32)
    ensures
        r == integer_of(rm, a, Format::Double, false, 32).value,
        *final(flags) == *old(flags) | integer_of(rm, a, Format::Double, false, 32).raised,
{
    proof {
        lemma_integer_bounds();
    }
    settle_integer(float_to_int(a, Format::Double, rm, false, 32), flags) as u32
}

pub fn u32_to_f64(a: u32, rm: RoundingMode, flags: &mut u32) -> (r: u64)
    ensures
        r == float_of(rm, a as int, Format::Double).bits,
        *final(flags) == *old(flags) | float_of(rm, a as int, Format::Double).raised,
{
    settle64(int_to_float(a as i128, Format::Double, rm), flags)
}

pub fn f64_to_i64(a: u64, rm: RoundingMode, flags: &mut u32) -> (r: i64)
    ensures
        r == integer_of(rm, a, Format::Double, true, 64).value,
        *final(flags) == *old(flags) | integer_of(rm, a, Format::Double, true, 64).raised,
{
    proof {
        lemma_integer_bounds();
    }
    settle_integer(float_to_int(a, Format::Double, rm, true, 64), flags) as i64
}

pub fn i64_to_f64(a: i64, rm: RoundingMode, flags: &mut u32) -> (r: u64)
    ensures
        r == float_of(rm, a as int, Format::Double).bits,
        *final(flags) == *old(flags) | float_of(rm, a as int, Format::Double).raised,
{
    settle64(int_to_float(a as i128, Format::Double, rm), flags)
}

pub fn f64_to_u64(a: u64, rm: RoundingMode, flags: &mut u32) -> (r: u64)
    ensures
        r == integer_of(rm, a, Format::Double, false, 64).value,
        *final(flags) == *old(flags) | integer_of(rm, a, Format::Double, false, 64).raised,
{
    proof {
        lemma_integer_bounds();
    }
    settle_integer(float_to_int(a, Format::Double, rm, false, 64), flags) as u64
}

pub fn u64_to_f64(a: u64, rm: RoundingMode, flags: &mut u32) -> (r: u64)
    ensures
        r == float_of(rm, a as int, Format::Double).bits,
        *final(flags) == *old(flags) | float_of(rm, a as int, Format::Double).raised,
{
    settle64(int_to_float(a as i128, Format::Double, rm), flags)
}

pub fn f32_to_f64(a: u32, flags: &mut u32) -> (r: u64)
    ensures
        r == converted(RoundingMode::NearEven, a as u64, Format::Single, Format::Double).bits,
        *final(flags) == *old(flags) | converted(RoundingMode::NearEven, a as u64, Format::Single, Format::Double).raised,
{
    settle64(convert_format(a as u64, Format::Single, Format::Double, RoundingMode::NearEven), flags)
}

pub fn f64_to_f32(a: u64, rm: RoundingMode, flags: &mut u32) -> (r: u32)
    ensures
        r == converted(rm, a, Format::Double, Format::Single).bits,
        *final(flags) == *old(flags) | converted(rm, a, Format::Double, Format::Single).raised,
{
    settle32(convert_format(a, Format::Double, Format::Single, rm), flags)
}

// ---------------------------------------------------------------------------
// Laws
// ---------------------------------------------------------------------------

/// Addition and multiplication do not depend on the order of their operands.
#[verifier::rlimit(40)]
pub proof fn law_commutative(rm: RoundingMode, a: u64, b: u64, f: Format)
    requires
        f.holds(a),
        f.holds(b),
    ensures
        sum(rm, a, b, f) == sum(rm, b, a, f),
        product(rm, a, b, f) == product(rm, b, a, f),
{
    lemma_encoding(a, f);
    lemma_encoding(b, f);
    match (decoded(a, f), decoded(b, f)) {
        (Value::Finite(_, ma, _), Value::Finite(_, mb, _)) => {
            assert(ma * mb == mb * ma) by (nonlinear_arith);
        },
        _ => {},
    }
}

/// An encoding is its sign, its exponent field and its fraction.
proof fn lemma_encoding(a: u64, f: Format)
    requires
        f.holds(a),
    ensures
        match decoded(a, f) {
            Value::Zero(s) => s == negative(a, f) && magnitude(a, f) == 0,
            Value::Inf(s) => s == negative(a, f) && magnitude(a, f) == f.infinity(),
            Value::Nan(_) => f.infinity() < magnitude(a, f) < f.sign_weight(),
            Value::Finite(s, m, e) => s == negative(a, f) && magnitude(a, f) == (e - f.min_exp())
                * f.unit() + m && magnitude(a, f) < f.infinity(),
        },
        a == signed_bits(negative(a, f), magnitude(a, f), f),
{
    lemma_decoded_in_range(a, f);
    let m = magnitude(a, f);
    if f is Single {
        assert(m == 0x80_0000 * (m / 0x80_0000) + m % 0x80_0000);
    } else {
        assert(m == 0x10_0000_0000_0000 * (m / 0x10_0000_0000_0000) + m % 0x10_0000_0000_0000);
    }
}

/// A number that the format represents is returned unchanged, without flags.
pub proof fn law_representable_is_exact(rm: RoundingMode, a: u64, f: Format)
    requires
        f.holds(a),
        decoded(a, f) is Finite,
    ensures
        match decoded(a, f) {
            Value::Finite(s, m, e) => rounded(rm, s, m as nat, e as int, f) == exact(a),
            _ => false,
        },
{
    reveal(rounded);
    lemma_encoding(a, f);
    lemma_decoded_in_range(a, f);
    lemma_unit_pow2(f);
    arith::lemma_pow2_127();
    match decoded(a, f) {
        Value::Finite(s, m, e) => {
            if m >= f.unit() {
                arith::lemma_bit_length_unique(m as nat, f.frac());
            } else {
                arith::lemma_bit_length_le(m as nat, f.frac());
            }
            assert(last_place(m as nat, e as int, f) == e);
            assert(m * pow2(0) == m);
        },
        _ => {},
    }
}

/// Widening binary32 to binary64 raises no flag unless the operand is a
/// signaling NaN, and narrowing gives the operand back unless it is a NaN.
pub proof fn law_widening_is_exact(rm: RoundingMode, narrow: RoundingMode, a: u64)
    requires
        Format::Single.holds(a),
    ensures
        converted(rm, a, Format::Single, Format::Double).raised == (if is_signaling(
            decoded(a, Format::Single),
        ) {
            FLAG_INVALID
        } else {
            0
        }),
        !is_nan(decoded(a, Format::Single)) ==> converted(
            narrow,
            converted(rm, a, Format::Single, Format::Double).bits,
            Format::Double,
            Format::Single,
        ) == exact(a),
{
    let src = Format::Single;
    let dst = Format::Double;
    lemma_encoding(a, src);
    lemma_decoded_in_range(a, src);
    arith::lemma_pow2_127();
    match decoded(a, src) {
        Value::Finite(s, m, e) => {
            let l = arith::bit_length(m as nat);
            arith::lemma_bit_length(m as nat);
            arith::lemma_bit_length_le(m as nat, 24);
            let k = (53 - l) as nat;
            let v = m * pow2(k);
            lemma_pow2_adds((l - 1) as nat, k);
            lemma_pow2_adds(l, k);
            lemma_pow2_pos(k);
            let (lo, hi, p) = (pow2((l - 1) as nat), pow2(l), pow2(k));
            assert(lo * p <= m * p < hi * p) by (nonlinear_arith)
                requires
                    lo <= m < hi,
                    p > 0,
            ;
            assert(dst.unit() <= v < 2 * dst.unit());
            let q = e - k;
            assert(last_place(m as nat, e as int, dst) == q);
            let wide = converted(rm, a, src, dst);
            let total = ((q - dst.min_exp()) * dst.unit() + v) as nat;
            assert(wide == exact(signed_bits(s, total, dst))) by {
                reveal(rounded);
            }
            lemma_decode_encoded(s, v as nat, q, dst);
            lemma_rounded_scale(narrow, s, m as nat, e as int, k, src);
            law_representable_is_exact(narrow, a, src);
        },
        _ => {
            lemma_special(dst);
        },
    }
}

/// Decoding undoes the encoding of a normal number.
proof fn lemma_decode_encoded(s: bool, v: nat, q: int, f: Format)
    requires
        f.unit() <= v < 2 * f.unit(),
        f.min_exp() <= q < f.min_exp() + f.exp_max() - 1,
    ensures
        decoded(signed_bits(s, ((q - f.min_exp()) * f.unit() + v) as nat, f), f) == Value::Finite(
            s,
            v as u128,
            q as i32,
        ),
{
    let t = ((q - f.min_exp()) * f.unit() + v) as nat;
    if f is Single {
        assert(t / 0x80_0000 == q - f.min_exp() + 1 && t % 0x80_0000 == v - 0x80_0000);
    } else {
        assert(t / 0x10_0000_0000_0000 == q - f.min_exp() + 1 && t % 0x10_0000_0000_0000 == v
            - 0x10_0000_0000_0000);
    }
}

/// Zeros and infinities decode to themselves.
proof fn lemma_special(f: Format)
    ensures
        forall|s: bool| #[trigger] decoded(signed_bits(s, 0, f), f) == Value::Zero(s),
        forall|s: bool| #[trigger] decoded(infinite(s, f), f) == Value::Inf(s),
{
}

/// Rounding takes a number `m * 2^-n` to one of the two integers around it, and
/// leaves it alone if it is one. Directed modes never pass it on their side; the
/// nearest modes take the nearer integer, and of two the even one or the one
/// further from zero.
pub proof fn law_rounding_picks_a_neighbour(rm: RoundingMode, sign: bool, m: nat, n: nat)
    requires
        n > 0,
    ensures
        ({
            let w = pow2(n) as int;
            let v = round_integer(rm, sign, m, n as int) as int;
            let error = v * w - m;
            &&& -w < error < w
            &&& drops_bits(m, n as int) <==> error != 0
            &&& match rm {
                RoundingMode::Zero => error <= 0,
                RoundingMode::Down => if sign {
                    error >= 0
                } else {
                    error <= 0
                },
                RoundingMode::Up => if sign {
                    error <= 0
                } else {
                    error >= 0
                },
                RoundingMode::NearEven => -w <= 2 * error <= w && (2 * error == w || 2 * error
                    == -w ==> v % 2 == 0),
                RoundingMode::NearMaxMag => -w < 2 * error <= w,
            }
        }),
{
    let w = pow2(n) as int;
    lemma_pow2_pos(n);
    vstd::arithmetic::div_mod::lemma_fundamental_div_mod(m as int, w);
    vstd::arithmetic::div_mod::lemma_mod_bound(m as int, w);
    let (k, x) = (m as int / w, m as int % w);
    assert(k * w == w * k && (k + 1) * w == w * k + w) by (nonlinear_arith);
}

/// A result below infinity stands for the rounded number: the rounded multiple
/// of the last place, with the same sign. It is inexact exactly if bits below
/// the last place were dropped.
pub proof fn law_rounded_encodes_the_rounded_number(
    rm: RoundingMode,
    sign: bool,
    m: nat,
    e: int,
    f: Format,
)
    requires
        m > 0,
        rounded_magnitude(rm, sign, m, e, f) < f.infinity(),
    ensures
        ({
            let q = last_place(m, e, f);
            let v = round_integer(rm, sign, m, q - e);
            let r = rounded(rm, sign, m, e, f);
            &&& decoded(r.bits, f) == if v == 0 {
                Value::Zero(sign)
            } else if v < 2 * f.unit() {
                Value::Finite(sign, v as u128, q as i32)
            } else {
                Value::Finite(sign, f.unit() as u128, (q + 1) as i32)
            }
            &&& v <= 2 * f.unit()
            &&& r.raised == 0 <==> !drops_bits(m, q - e)
        }),
{
    reveal(rounded);
    let q = last_place(m, e, f);
    let v = round_integer(rm, sign, m, q - e);
    let length = arith::bit_length(m);
    let frac = f.frac();
    lemma_unit_pow2(f);
    arith::lemma_bit_length(m);
    arith::lemma_pow2_step(frac);
    lemma_round_bound(rm, sign, m, q - e, length, frac);
    if q > f.min_exp() {
        lemma_full_significand(rm, sign, m, length, frac);
    }
    let t = rounded_magnitude(rm, sign, m, e, f);
    if v < f.unit() {
        assert(q == f.min_exp());
        assert(t == v);
        if v > 0 {
            let a = signed_bits(sign, v, f);
            assert(magnitude(a, f) == v && negative(a, f) == sign);
        } else {
            lemma_special(f);
        }
    } else {
        assert(q < f.min_exp() + f.exp_max() - 1) by {
            if f is Single {
                assert((q - f.min_exp()) * 0x80_0000 + 0x80_0000 <= t);
            } else {
                assert((q - f.min_exp()) * 0x10_0000_0000_0000 + 0x10_0000_0000_0000 <= t);
            }
        }
        if v < 2 * f.unit() {
            lemma_decode_encoded(sign, v, q, f);
        } else {
            assert(t == (q + 1 - f.min_exp()) * f.unit() + f.unit()) by (nonlinear_arith)
                requires
                    t == (q - f.min_exp()) * f.unit() + v,
                    v == 2 * f.unit(),
            ;
            assert(q + 1 < f.min_exp() + f.exp_max() - 1) by {
                if f is Single {
                    assert((q + 1 - f.min_exp()) * 0x80_0000 + 0x80_0000 == t);
                } else {
                    assert((q + 1 - f.min_exp()) * 0x10_0000_0000_0000 + 0x10_0000_0000_0000
                        == t);
                }
            }
            lemma_decode_encoded(sign, f.unit(), q + 1, f);
        }
    }
}

/// A number rounded to the precision of the format has all its bits.
proof fn lemma_full_significand(rm: RoundingMode, sign: bool, m: nat, length: nat, frac: nat)
    requires
        length >= 1,
        pow2((length - 1) as nat) <= m,
    ensures
        round_integer(rm, sign, m, length - 1 - frac) >= pow2(frac),
{
    let shift = length - 1 - frac;
    let p = pow2((length - 1) as nat);
    if shift <= 0 {
        let u = pow2((-shift) as nat);
        lemma_pow2_adds((length - 1) as nat, (-shift) as nat);
        assert(m * u >= p * u) by (nonlinear_arith)
            requires
                m >= p,
                u >= 0,
        ;
    } else {
        let w = pow2(shift as nat);
        lemma_pow2_pos(shift as nat);
        lemma_pow2_adds(frac, shift as nat);
        let t = pow2(frac);
        vstd::arithmetic::div_mod::lemma_div_is_ordered((t * w) as int, m as int, w as int);
        vstd::arithmetic::div_mod::lemma_div_multiples_vanish(t as int, w as int);
        assert(w * t == t * w) by (nonlinear_arith);
    }
}

/// The square root is correctly rounded: developing it further changes
/// nothing.
pub proof fn law_root_correct(rm: RoundingMode, a: u64, k: nat, f: Format)
    requires
        f.holds(a),
        decoded(a, f) is Finite,
        !negative(a, f),
        k >= root_bits(
            even_parts(decoded(a, f)->Finite_1 as nat, decoded(a, f)->Finite_2 as int).0,
            f,
        ) / 2,
    ensures
        square_root(rm, a, f) == developed_root(
            rm,
            even_parts(decoded(a, f)->Finite_1 as nat, decoded(a, f)->Finite_2 as int).0,
            even_parts(decoded(a, f)->Finite_1 as nat, decoded(a, f)->Finite_2 as int).1,
            k,
            f,
        ),
{
    lemma_decoded_in_range(a, f);
    let parts = even_parts(decoded(a, f)->Finite_1 as nat, decoded(a, f)->Finite_2 as int);
    let (m, e) = parts;
    let bits = root_bits(m, f);
    let k0 = bits / 2;
    assert(bits == 2 * k0);
    lemma_unit_pow2(f);
    arith::lemma_pow2_step(f.frac() + 1);
    arith::lemma_bit_length_le(m, f.frac() + 2);
    arith::lemma_bit_length(m);
    let n = m * pow2(2 * k0);
    let l = arith::bit_length(m);
    // The extended significand has at least `2 * frac + 9` bits.
    lemma_pow2_adds((l - 1) as nat, 2 * k0);
    lemma_pow2_pos(2 * k0);
    let half = f.frac() + 4;
    lemma_pow2_adds(half, half);
    arith::lemma_pow2_monotonic(2 * half, (l - 1 + 2 * k0) as nat);
    let (lo, p, h) = (pow2((l - 1) as nat), pow2(2 * k0), pow2(half));
    assert(n >= lo * p) by (nonlinear_arith)
        requires
            n == m * p,
            m >= lo,
            p >= 0,
    ;
    assert(n >= h * h);
    lemma_root_exists(n);
    let root = floor_root(n);
    assert(is_root(n, root));
    assert(root >= h) by (nonlinear_arith)
        requires
            h * h < (root + 1) * (root + 1),
    ;
    arith::lemma_bit_length_ge(root, half);
    lemma_developed_root(rm, m, e, k0, (k - k0) as nat, f);
}

/// Every number has a square root, rounded down.
proof fn lemma_root_exists(n: nat)
    ensures
        is_root(n, floor_root(n)),
    decreases n,
{
    if n == 0 {
        assert(is_root(0, 0)) by (nonlinear_arith);
        lemma_root_unique(0, 0);
    } else {
        lemma_root_exists((n - 1) as nat);
        let a = floor_root((n - 1) as nat);
        if n < (a + 1) * (a + 1) {
            assert(is_root(n, a));
        } else {
            assert((a + 2) * (a + 2) == (a + 1) * (a + 1) + 2 * a + 3) by (nonlinear_arith);
            assert(is_root(n, a + 1));
        }
    }
}

/// A root with two spare bits does not change when it is developed by `j`
/// more.
proof fn lemma_developed_root(rm: RoundingMode, m: nat, e: int, k: nat, j: nat, f: Format)
    requires
        floor_root(m * pow2(2 * k)) > 0,
        arith::bit_length(floor_root(m * pow2(2 * k))) >= f.frac() + 3,
    ensures
        developed_root(rm, m, e, k, f) == developed_root(rm, m, e, k + j, f),
{
    let n = m * pow2(2 * k);
    let root = floor_root(n);
    lemma_root_exists(n);
    arith::lemma_pow2_127();
    let x = e / 2 - k;
    let s0: nat = if root * root != n {
        1
    } else {
        0
    };
    assert(root * pow2(1) + s0 == arith::stick(2 * root, root * root != n));
    lemma_rounded_sticky(rm, false, root, 1, s0, x, f);
    let p = pow2(j);
    lemma_pow2_pos(j);
    lemma_pow2_adds(2 * k, 2 * j);
    lemma_pow2_adds(j, j);
    let long = m * pow2(2 * (k + j));
    assert(2 * (k + j) == 2 * k + 2 * j);
    assert(2 * j == j + j);
    assert(long == n * (p * p)) by (nonlinear_arith)
        requires
            long == m * (pow2(2 * k) * (p * p)),
            n == m * pow2(2 * k),
    ;
    let full = floor_root(long);
    lemma_root_exists(long);
    // `full` lies in `[root * p, (root + 1) * p)`.
    assert((root * p) * (root * p) <= long) by (nonlinear_arith)
        requires
            root * root <= n,
            long == n * (p * p),
            p > 0,
    ;
    assert(long < ((root + 1) * p) * ((root + 1) * p)) by (nonlinear_arith)
        requires
            n < (root + 1) * (root + 1),
            long == n * (p * p),
            p > 0,
    ;
    if full < root * p {
        assert((full + 1) * (full + 1) <= (root * p) * (root * p)) by (nonlinear_arith)
            requires
                full + 1 <= root * p,
        ;
    }
    if full >= (root + 1) * p {
        assert(full * full >= ((root + 1) * p) * ((root + 1) * p)) by (nonlinear_arith)
            requires
                full >= (root + 1) * p,
                (root + 1) * p >= 0,
        ;
    }
    assert((root + 1) * p == root * p + p) by (nonlinear_arith);
    let t = (full - root * p) as nat;
    let sj: nat = if full * full != long {
        1
    } else {
        0
    };
    arith::lemma_pow2_step(j);
    let low = 2 * t + sj;
    assert(root * pow2(j + 1) + low == arith::stick(2 * full, full * full != long)) by {
        assert(root * (2 * p) == 2 * (root * p)) by (nonlinear_arith);
    }
    lemma_rounded_sticky(rm, false, root, j + 1, low, x, f);
    assert((root * p) * (root * p) == (root * root) * (p * p)) by (nonlinear_arith);
    assert(p * p > 0) by (nonlinear_arith)
        requires
            p > 0,
    ;
    if root * root == n {
        assert(full == root * p) by {
            assert(is_root(long, root * p)) by {
                assert((root * p + 1) * (root * p + 1) > (root * p) * (root * p))
                    by (nonlinear_arith);
            }
            lemma_root_unique(long, root * p);
        }
        assert(low == 0);
    } else {
        if low == 0 {
            assert(n == root * root) by (nonlinear_arith)
                requires
                    (root * root) * (p * p) == n * (p * p),
                    p * p > 0,
            ;
        }
    }
}

/// The significand and the exponent of an addend; a zero has exponent zero.
pub open spec fn addend(c: u64, f: Format) -> (nat, int) {
    match decoded(c, f) {
        Value::Finite(_, m, e) => (m as nat, e as int),
        _ => (0, 0),
    }
}

/// A fused product and sum of numbers is rounded once: it is the exact
/// `a * b + c` in units of the smaller exponent, rounded.
pub proof fn law_fused_rounds_once(rm: RoundingMode, a: u64, b: u64, c: u64, f: Format)
    requires
        f.holds(a),
        f.holds(b),
        f.holds(c),
        decoded(a, f) is Finite,
        decoded(b, f) is Finite,
        decoded(c, f) is Finite || decoded(c, f) is Zero,
    ensures
        ({
            let product = (decoded(a, f)->Finite_1 * decoded(b, f)->Finite_1) as nat;
            let ep = decoded(a, f)->Finite_2 + decoded(b, f)->Finite_2;
            let (mc, ec) = addend(c, f);
            let e = if ep < ec {
                ep
            } else {
                ec
            };
            fused(rm, a, b, c, f) == rounded_total(
                rm,
                apply_sign(negative(a, f) != negative(b, f), product * pow2((ep - e) as nat))
                    + apply_sign(negative(c, f), mc * pow2((ec - e) as nat)),
                e,
                f,
            )
        }),
{
    lemma_decoded_in_range(a, f);
    lemma_decoded_in_range(b, f);
    if decoded(c, f) is Zero {
        let (ma, mb) = (decoded(a, f)->Finite_1, decoded(b, f)->Finite_1);
        let product = (ma * mb) as nat;
        let ep = decoded(a, f)->Finite_2 + decoded(b, f)->Finite_2;
        let sign = negative(a, f) != negative(b, f);
        let e = if ep < 0 {
            ep
        } else {
            0
        };
        let k = (ep - e) as nat;
        lemma_pow2_pos(k);
        let p = pow2(k);
        assert(ma * mb > 0 && product * p > 0) by (nonlinear_arith)
            requires
                ma > 0,
                mb > 0,
                product == ma * mb,
                p > 0,
        ;
        assert(0 * pow2((0 - e) as nat) == 0);
        lemma_rounded_scale(rm, sign, product, ep, k, f);
    }
}

/// An integer of 32 bits survives the way to binary64 and back, whatever the
/// rounding modes, and neither conversion raises a flag. A NaN becomes the
/// greatest integer and is invalid.
pub proof fn law_integer_round_trip(n: i32, to: RoundingMode, back: RoundingMode, q: u64)
    ensures
        ({
            let w = float_of(to, n as int, Format::Double);
            &&& w.raised == 0
            &&& integer_of(back, w.bits, Format::Double, true, 32) == (Whole {
                value: n as i128,
                raised: 0,
            })
        }),
        decoded(q, Format::Double) is Nan ==> integer_of(back, q, Format::Double, true, 32)
            == (Whole { value: 0x7fff_ffff, raised: FLAG_INVALID }),
{
    let f = Format::Double;
    reveal(rounded);
    lemma_integer_bounds();
    arith::lemma_pow2_127();
    lemma2_to64();
    let m = absolute(n as int);
    let sign = n < 0;
    let w = float_of(to, n as int, f);
    if m > 0 {
        let length = arith::bit_length(m);
        arith::lemma_bit_length(m);
        arith::lemma_bit_length_le(m, 32);
        let k = (53 - length) as nat;
        lemma_extended(m, length, k, 53);
        let v = m * pow2(k);
        let place = length - 53;
        assert(last_place(m, 0, f) == place);
        let unit = f.unit() as int;
        let exp = place + 1075;
        let magnitude = rounded_magnitude(to, sign, m, 0, f);
        assert(magnitude == exp * unit + (v - unit)) by (nonlinear_arith)
            requires
                magnitude == (place + 1074) * unit + v,
                exp == place + 1075,
        ;
        vstd::arithmetic::div_mod::lemma_fundamental_div_mod_converse(
            magnitude as int,
            unit,
            exp,
            v - unit,
        );
        assert(magnitude < f.infinity()) by (nonlinear_arith)
            requires
                magnitude == exp * unit + (v - unit),
                exp <= 1054,
                v < 2 * unit,
                unit == 0x10_0000_0000_0000,
                f.infinity() == 0x7ff0_0000_0000_0000,
        ;
        assert(decoded(w.bits, f) == Value::Finite(sign, v as u128, place as i32));
        lemma_round_integer_scale(back, sign, m, 0, k);
        assert(m * pow2(0) == m);
    }
}

} // verus!
