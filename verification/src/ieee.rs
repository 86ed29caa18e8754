//! What encoded floating-point numbers stand for, and how they compare, said of
//! their fields.

use vstd::prelude::*;
use vstd::arithmetic::power2::{lemma_pow2_adds, lemma_pow2_pos, pow2};
use crate::softfp::{
    class_bit,
    decoded,
    extreme,
    is_nan,
    magnitude,
    negated,
    negative,
    order_key,
    product,
    quotient,
    relation,
    sum,
    Format,
    Relation,
    RoundingMode,
    Value,
};

verus! {

/// The highest bit: the sign.
pub open spec fn sign_of(a: u64, f: Format) -> bool {
    match f {
        Format::Single => a as int / 0x8000_0000 == 1,
        Format::Double => a as int / 0x8000_0000_0000_0000 == 1,
    }
}

/// The next eight or eleven bits: the exponent.
pub open spec fn exponent_of(a: u64, f: Format) -> int {
    match f {
        Format::Single => (a as int / 0x80_0000) % 256,
        Format::Double => (a as int / 0x10_0000_0000_0000) % 2048,
    }
}

/// The rest: the fraction.
pub open spec fn fraction_of(a: u64, f: Format) -> int {
    match f {
        Format::Single => a as int % 0x80_0000,
        Format::Double => a as int % 0x10_0000_0000_0000,
    }
}

/// What a whole fraction is worth.
pub open spec fn whole(f: Format) -> int {
    match f {
        Format::Single => 0x80_0000,
        Format::Double => 0x10_0000_0000_0000,
    }
}

/// The exponent of infinities and of what is no number.
pub open spec fn top(f: Format) -> int {
    match f {
        Format::Single => 255,
        Format::Double => 2047,
    }
}

/// How often the smallest positive number goes into a number. Without an exponent
/// that is the fraction; with exponent `e` it is the fraction behind a leading one,
/// doubled `e - 1` times.
pub open spec fn count(a: u64, f: Format) -> int {
    if exponent_of(a, f) == 0 {
        fraction_of(a, f)
    } else {
        (whole(f) + fraction_of(a, f)) * pow2((exponent_of(a, f) - 1) as nat)
    }
}

/// A number, counted in the smallest positive one.
pub open spec fn units(a: u64, f: Format) -> int {
    if sign_of(a, f) {
        -count(a, f)
    } else {
        count(a, f)
    }
}

/// Whether an encoding is no number.
pub open spec fn no_number(a: u64, f: Format) -> bool {
    exponent_of(a, f) == top(f) && fraction_of(a, f) != 0
}

proof fn lemma_fields(a: u64, f: Format)
    requires
        f.holds(a),
    ensures
        negative(a, f) == sign_of(a, f),
        magnitude(a, f) / f.unit() == exponent_of(a, f),
        magnitude(a, f) % f.unit() == fraction_of(a, f),
        magnitude(a, f) == exponent_of(a, f) * whole(f) + fraction_of(a, f),
        f.unit() == whole(f),
        f.exp_max() == top(f),
        0 <= exponent_of(a, f) <= top(f),
        0 <= fraction_of(a, f) < whole(f),
        is_nan(decoded(a, f)) == no_number(a, f),
{
    let e = exponent_of(a, f);
    match f {
        Format::Single => {
            assert(e * whole(f) == e * 0x80_0000);
        },
        Format::Double => {
            assert(e * whole(f) == e * 0x10_0000_0000_0000);
        },
    }
}

/// Half of what is no number signals: that with the highest bit of the fraction
/// clear.
pub proof fn law_decoded(a: u64, f: Format)
    requires
        f.holds(a),
    ensures
        match decoded(a, f) {
            Value::Nan(signals) => no_number(a, f) && signals == (2 * fraction_of(a, f) < whole(f)),
            Value::Inf(sign) => exponent_of(a, f) == top(f) && fraction_of(a, f) == 0 && sign
                == sign_of(a, f),
            Value::Zero(sign) => units(a, f) == 0 && sign == sign_of(a, f),
            Value::Finite(sign, m, e) => {
                &&& exponent_of(a, f) < top(f)
                &&& units(a, f) != 0
                &&& sign == sign_of(a, f)
                &&& e >= f.min_exp()
                &&& count(a, f) == m * pow2((e - f.min_exp()) as nat)
            },
        },
{
    lemma_fields(a, f);
    let e = exponent_of(a, f);
    if e > 0 {
        lemma_pow2_pos((e - 1) as nat);
        let p = pow2((e - 1) as nat) as int;
        let m = whole(f) + fraction_of(a, f);
        assert(m * p > 0) by (nonlinear_arith)
            requires
                m > 0,
                p > 0,
        ;
    } else {
        vstd::arithmetic::power2::lemma2_to64();
        let m = fraction_of(a, f);
        assert(m * 1 == m) by (nonlinear_arith);
    }
}

proof fn lemma_count_grows(a: u64, b: u64, f: Format)
    requires
        f.holds(a),
        f.holds(b),
    ensures
        magnitude(a, f) < magnitude(b, f) ==> count(a, f) < count(b, f),
        magnitude(a, f) == magnitude(b, f) ==> count(a, f) == count(b, f),
        count(a, f) >= 0,
        count(a, f) == 0 <==> magnitude(a, f) == 0,
{
    lemma_fields(a, f);
    lemma_fields(b, f);
    let w = whole(f);
    let (x, s) = (exponent_of(a, f), fraction_of(a, f));
    let (y, t) = (exponent_of(b, f), fraction_of(b, f));
    if x > 0 {
        lemma_pow2_pos((x - 1) as nat);
        let p = pow2((x - 1) as nat) as int;
        assert((w + s) * p > 0 && x * w + s > 0) by (nonlinear_arith)
            requires
                w + s > 0,
                p > 0,
                x > 0,
                w > 0,
                s >= 0,
        ;
    }
    if magnitude(a, f) == magnitude(b, f) {
        assert(x == y && s == t);
    }
    if magnitude(a, f) < magnitude(b, f) {
        if x > y {
            assert(x * w + s >= (y + 1) * w && (y + 1) * w == y * w + w) by (nonlinear_arith)
                requires
                    x >= y + 1,
                    w > 0,
                    s >= 0,
            ;
        }
        assert(x <= y);
        if x == y {
            assert(s < t);
            if x > 0 {
                let p = pow2((x - 1) as nat) as int;
                lemma_pow2_pos((x - 1) as nat);
                assert((w + s) * p < (w + t) * p) by (nonlinear_arith)
                    requires
                        s < t,
                        p > 0,
                ;
            }
        } else {
            let q = pow2((y - 1) as nat) as int;
            lemma_pow2_pos((y - 1) as nat);
            assert((w + t) * q >= w * q) by (nonlinear_arith)
                requires
                    t >= 0,
                    q > 0,
            ;
            if x == 0 {
                assert(w * q >= w) by (nonlinear_arith)
                    requires
                        w > 0,
                        q >= 1,
                ;
            } else {
                let p = pow2((x - 1) as nat) as int;
                let r = pow2((y - x) as nat) as int;
                lemma_pow2_adds((x - 1) as nat, (y - x) as nat);
                vstd::arithmetic::power2::lemma_pow2_unfold((y - x) as nat);
                lemma_pow2_pos((y - x - 1) as nat);
                lemma_pow2_pos((x - 1) as nat);
                assert(r >= 2);
                assert((w + s) * p < w * q) by (nonlinear_arith)
                    requires
                        s < w,
                        p > 0,
                        r >= 2,
                        q == p * r,
                        w > 0,
                ;
            }
        }
    }
}

/// Numbers compare as what they stand for: less, equal or greater, both zeros being
/// equal; what is no number stands in no order.
pub proof fn law_order(a: u64, b: u64, f: Format)
    requires
        f.holds(a),
        f.holds(b),
    ensures
        relation(a, b, f) == if no_number(a, f) || no_number(b, f) {
            Relation::Unordered
        } else if units(a, f) < units(b, f) {
            Relation::Less
        } else if units(a, f) > units(b, f) {
            Relation::Greater
        } else {
            Relation::Equal
        },
        order_key(a, f) < order_key(b, f) <==> units(a, f) < units(b, f),
        order_key(a, f) == order_key(b, f) <==> units(a, f) == units(b, f),
{
    lemma_fields(a, f);
    lemma_fields(b, f);
    lemma_count_grows(a, b, f);
    lemma_count_grows(b, a, f);
}

/// The class of an encoding, by its sign, its exponent and its fraction.
pub proof fn law_class(a: u64, f: Format)
    requires
        f.holds(a),
    ensures
        ({
            let minus = sign_of(a, f);
            let e = exponent_of(a, f);
            let s = fraction_of(a, f);
            class_bit(a, f) == if e == top(f) && s != 0 {
                if 2 * s < whole(f) {
                    0x100int
                } else {
                    0x200
                }
            } else if e == top(f) {
                if minus {
                    0x1
                } else {
                    0x80
                }
            } else if e > 0 {
                if minus {
                    0x2
                } else {
                    0x40
                }
            } else if s != 0 {
                if minus {
                    0x4
                } else {
                    0x20
                }
            } else {
                if minus {
                    0x8
                } else {
                    0x10
                }
            }
        }),
{
    lemma_fields(a, f);
}

/// The lesser of two numbers is one of them and no greater than either, the greater
/// no less than either, with a negative zero below a positive one. What is no
/// number gives way to a number, and two of them give the standard one. Only what
/// signals raises the invalid flag (16).
pub proof fn law_least_and_greatest(a: u64, b: u64, max: bool, f: Format)
    requires
        f.holds(a),
        f.holds(b),
    ensures
        ({
            let r = extreme(a, b, max, f);
            let signals = |x: u64| no_number(x, f) && 2 * fraction_of(x, f) < whole(f);
            &&& r.raised == if signals(a) || signals(b) {
                16int
            } else {
                0
            }
            &&& no_number(a, f) && no_number(b, f) ==> r.bits == match f {
                Format::Single => 0x7fc0_0000int,
                Format::Double => 0x7ff8_0000_0000_0000,
            }
            &&& no_number(a, f) && !no_number(b, f) ==> r.bits == b
            &&& !no_number(a, f) && no_number(b, f) ==> r.bits == a
            &&& !no_number(a, f) && !no_number(b, f) ==> {
                &&& r.bits == a || r.bits == b
                &&& max ==> units(r.bits, f) >= units(a, f) && units(r.bits, f) >= units(b, f)
                &&& !max ==> units(r.bits, f) <= units(a, f) && units(r.bits, f) <= units(b, f)
                &&& units(a, f) == 0 && units(b, f) == 0 ==> sign_of(r.bits, f) == if max {
                    sign_of(a, f) && sign_of(b, f)
                } else {
                    sign_of(a, f) || sign_of(b, f)
                }
            }
        }),
{
    lemma_fields(a, f);
    lemma_fields(b, f);
    law_order(a, b, f);
    law_decoded(a, f);
    law_decoded(b, f);
}

/// Negating changes the sign and nothing else.
pub proof fn law_negated(a: u64, f: Format)
    requires
        f.holds(a),
    ensures
        f.holds(negated(a, f)),
        sign_of(negated(a, f), f) == !sign_of(a, f),
        units(negated(a, f), f) == -units(a, f),
        exponent_of(negated(a, f), f) == exponent_of(a, f),
        fraction_of(negated(a, f), f) == fraction_of(a, f),
{
    lemma_fields(a, f);
    lemma_fields(negated(a, f), f);
}

/// The numbers that are not finite, with a sign.
pub open spec fn is_infinite(a: u64, f: Format) -> bool {
    exponent_of(a, f) == top(f) && fraction_of(a, f) == 0
}

pub open spec fn is_zero(a: u64, f: Format) -> bool {
    exponent_of(a, f) == 0 && fraction_of(a, f) == 0
}

/// The standard encoding of what is no number.
pub open spec fn standard(f: Format) -> int {
    match f {
        Format::Single => 0x7fc0_0000,
        Format::Double => 0x7ff8_0000_0000_0000,
    }
}

/// Sums at the edges: infinities of opposite signs have none (invalid, 16), an
/// infinity swallows what is finite, and zeros of opposite signs make a positive
/// zero, or a negative one where rounding goes down.
pub proof fn law_sum_at_the_edges(rm: RoundingMode, a: u64, b: u64, f: Format)
    requires
        f.holds(a),
        f.holds(b),
        !no_number(a, f),
        !no_number(b, f),
    ensures
        ({
            let r = sum(rm, a, b, f);
            let opposite = sign_of(a, f) != sign_of(b, f);
            &&& is_infinite(a, f) && is_infinite(b, f) && opposite ==> r.bits == standard(f)
                && r.raised == 16
            &&& is_infinite(a, f) && !(is_infinite(b, f) && opposite) ==> r.bits == a && r.raised
                == 0
            &&& !is_infinite(a, f) && is_infinite(b, f) ==> r.bits == b && r.raised == 0
            &&& is_zero(a, f) && is_zero(b, f) ==> {
                &&& is_zero(r.bits, f)
                &&& r.raised == 0
                &&& sign_of(r.bits, f) == if opposite {
                    rm == RoundingMode::Down
                } else {
                    sign_of(a, f)
                }
            }
            &&& is_zero(a, f) && !is_zero(b, f) ==> r.bits == b && r.raised == 0
            &&& is_zero(b, f) && !is_zero(a, f) ==> r.bits == a && r.raised == 0
        }),
{
    lemma_fields(a, f);
    lemma_fields(b, f);
}

/// Products and quotients at the edges: the sign is negative exactly when one
/// operand is; zero times infinity, zero by zero and infinity by infinity have no
/// result (invalid, 16); a finite number by zero is infinite (divide by zero, 8).
pub proof fn law_product_and_quotient_at_the_edges(rm: RoundingMode, a: u64, b: u64, f: Format)
    requires
        f.holds(a),
        f.holds(b),
        !no_number(a, f),
        !no_number(b, f),
    ensures
        ({
            let p = product(rm, a, b, f);
            let q = quotient(rm, a, b, f);
            let minus = sign_of(a, f) != sign_of(b, f);
            &&& is_infinite(a, f) && is_zero(b, f) || is_zero(a, f) && is_infinite(b, f)
                ==> p.bits == standard(f) && p.raised == 16
            &&& is_infinite(a, f) && !is_zero(b, f) || is_infinite(b, f) && !is_zero(a, f)
                ==> is_infinite(p.bits, f) && sign_of(p.bits, f) == minus && p.raised == 0
            &&& is_zero(a, f) && !is_infinite(b, f) || is_zero(b, f) && !is_infinite(a, f)
                ==> is_zero(p.bits, f) && sign_of(p.bits, f) == minus && p.raised == 0
            &&& is_infinite(a, f) && is_infinite(b, f) || is_zero(a, f) && is_zero(b, f) ==> q.bits
                == standard(f) && q.raised == 16
            &&& is_infinite(a, f) && !is_infinite(b, f) ==> is_infinite(q.bits, f) && sign_of(
                q.bits,
                f,
            ) == minus && q.raised == 0
            &&& is_infinite(b, f) && !is_infinite(a, f) || is_zero(a, f) && !is_zero(b, f)
                ==> is_zero(q.bits, f) && sign_of(q.bits, f) == minus && q.raised == 0
            &&& is_zero(b, f) && !is_zero(a, f) && !is_infinite(a, f) ==> is_infinite(q.bits, f)
                && sign_of(q.bits, f) == minus && q.raised == 8
        }),
{
    lemma_fields(a, f);
    lemma_fields(b, f);
}

} // verus!
