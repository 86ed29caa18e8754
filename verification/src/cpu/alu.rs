//! Integer operations and instruction fields.

use vstd::prelude::*;
use crate::bytes;
use crate::cpu::{Exception, Trap};

verus! {

/// The number that a register holds in two's complement.
pub open spec fn signed_value(x: u64) -> int {
    if x >= 0x8000_0000_0000_0000 {
        x - 0x1_0000_0000_0000_0000
    } else {
        x as int
    }
}

/// The two's complement of a number.
pub open spec fn encoded(x: int) -> u64 {
    (if x < 0 {
        x + 0x1_0000_0000_0000_0000
    } else {
        x
    }) as u64
}

/// The number that a word holds in two's complement.
pub open spec fn signed_value32(x: u32) -> int {
    if x >= 0x8000_0000 {
        x - 0x1_0000_0000
    } else {
        x as int
    }
}

/// The two's complement of a number in a word.
pub open spec fn encoded32(x: int) -> u32 {
    (if x < 0 {
        x + 0x1_0000_0000
    } else {
        x
    }) as u32
}

pub fn signed(value: u64) -> (r: i64)
    ensures
        r == signed_value(value),
{
    assert(value as i64 == (if value >= 0x8000_0000_0000_0000 {
        value - 0x1_0000_0000_0000_0000
    } else {
        value as int
    })) by (bit_vector);
    value as i64
}

pub fn unsigned(value: i64) -> (r: u64)
    ensures
        r == encoded(value as int),
        signed_value(r) == value,
{
    if value < 0 {
        (value as i128 + 0x1_0000_0000_0000_0000) as u64
    } else {
        value as u64
    }
}

pub fn signed32(value: u32) -> (r: i32)
    ensures
        r == signed_value32(value),
{
    if value >= 0x8000_0000 {
        (value as i64 - 0x1_0000_0000) as i32
    } else {
        value as i32
    }
}

pub fn unsigned32(value: i32) -> (r: u32)
    ensures
        r == encoded32(value as int),
        signed_value32(r) == value,
{
    if value < 0 {
        (value as i64 + 0x1_0000_0000) as u32
    } else {
        value as u32
    }
}

/// The `bits` low bits of a value, its highest kept bit copied upward.
pub open spec fn sign_extended(value: u64, bits: u32) -> u64 {
    (((value << ((64 - bits) as u32)) as i64) >> ((64 - bits) as u32)) as u64
}

pub fn sign_extend(value: u64, bits: u32) -> (r: u64)
    requires
        0 < bits <= 64,
    ensures
        r == sign_extended(value, bits),
{
    let shift: u32 = 64 - bits;
    (((value << shift) as i64) >> shift) as u64
}

/// Sign extension keeps the low bits, and makes every bit above them a copy
/// of the highest of them.
pub proof fn law_sign_extension(value: u64, bits: u32)
    requires
        0 < bits <= 64,
    ensures
        sign_extended(value, bits) << ((64 - bits) as u32) == value << ((64 - bits) as u32),
        (sign_extended(value, bits) as i64) >> ((bits - 1) as u32) == 0i64 || (sign_extended(
            value,
            bits,
        ) as i64) >> ((bits - 1) as u32) == -1i64,
{
    let s: u32 = (64 - bits) as u32;
    let t: u32 = (bits - 1) as u32;
    let r: u64 = sign_extended(value, bits);
    assert(r << s == value << s && ((r as i64) >> t == 0i64 || (r as i64) >> t == -1i64))
        by (bit_vector)
        requires
            s < 64,
            t == 63 - s,
            r == (((value << s) as i64) >> s) as u64,
    ;
}

/// The trap of an instruction that does not exist.
pub open spec fn illegal_trap(instruction: u32) -> Trap {
    Trap { exception: Exception::IllegalInstruction, value: instruction as u64 }
}

pub fn illegal(instruction: u32) -> (r: Trap)
    ensures
        r == illegal_trap(instruction),
{
    Trap { exception: Exception::IllegalInstruction, value: instruction as u64 }
}

/// A jump target, which must be even.
pub open spec fn even_target(target: u64) -> Result<u64, Trap> {
    if target % 2 == 0 {
        Ok(target)
    } else {
        Err(Trap { exception: Exception::InstructionAddressMisaligned, value: target })
    }
}

pub fn checked_target(target: u64) -> (r: Result<u64, Trap>)
    ensures
        r == even_target(target),
{
    if target % 2 == 0 {
        Ok(target)
    } else {
        Err(Trap { exception: Exception::InstructionAddressMisaligned, value: target })
    }
}

/// A five-bit register number.
pub open spec fn register_field(instruction: u32, shift: u32) -> usize {
    ((instruction >> shift) % 32) as usize
}

pub fn register_index(instruction: u32, shift: u32) -> (r: usize)
    requires
        shift < 32,
    ensures
        r == register_field(instruction, shift),
{
    ((instruction >> shift) % 32) as usize
}

/// The offset of a jump.
pub open spec fn j_immediate(instruction: u32) -> u64 {
    sign_extended(
        (((instruction >> 31) % 2) as u64) << 20 | (((instruction >> 21) % 1024) as u64) << 1 | (((
        instruction >> 20) % 2) as u64) << 11 | (((instruction >> 12) % 256) as u64) << 12,
        21,
    )
}

pub fn decode_j_immediate(instruction: u32) -> (r: u64)
    ensures
        r == j_immediate(instruction),
{
    sign_extend(
        (((instruction >> 31) % 2) as u64) << 20 | (((instruction >> 21) % 1024) as u64) << 1 | (((
        instruction >> 20) % 2) as u64) << 11 | (((instruction >> 12) % 256) as u64) << 12,
        21,
    )
}

/// The offset of a branch.
pub open spec fn b_immediate(instruction: u32) -> u64 {
    sign_extended(
        (((instruction >> 31) % 2) as u64) << 12 | (((instruction >> 25) % 64) as u64) << 5 | (((
        instruction >> 8) % 16) as u64) << 1 | (((instruction >> 7) % 2) as u64) << 11,
        13,
    )
}

pub fn decode_b_immediate(instruction: u32) -> (r: u64)
    ensures
        r == b_immediate(instruction),
{
    sign_extend(
        (((instruction >> 31) % 2) as u64) << 12 | (((instruction >> 25) % 64) as u64) << 5 | (((
        instruction >> 8) % 16) as u64) << 1 | (((instruction >> 7) % 2) as u64) << 11,
        13,
    )
}

/// The offset of a store.
pub open spec fn s_immediate(instruction: u32) -> u64 {
    sign_extended(
        ((instruction >> 7) % 32) as u64 | (((instruction >> 25) % 128) as u64) << 5,
        12,
    )
}

pub fn decode_s_immediate(instruction: u32) -> (r: u64)
    ensures
        r == s_immediate(instruction),
{
    sign_extend(
        ((instruction >> 7) % 32) as u64 | (((instruction >> 25) % 128) as u64) << 5,
        12,
    )
}

/// The twelve-bit immediate of most instructions.
pub open spec fn i_immediate(instruction: u32) -> u64 {
    sign_extended((instruction >> 20) as u64, 12)
}

pub fn decode_i_immediate(instruction: u32) -> (r: u64)
    ensures
        r == i_immediate(instruction),
{
    sign_extend((instruction >> 20) as u64, 12)
}

/// The immediate of the upper twenty bits of a word.
pub open spec fn u_immediate(instruction: u32) -> u64 {
    sign_extended((instruction & 0xffff_f000) as u64, 32)
}

pub fn decode_u_immediate(instruction: u32) -> (r: u64)
    ensures
        r == u_immediate(instruction),
{
    sign_extend((instruction & 0xffff_f000) as u64, 32)
}

/// Number of ones in the binary representation of `m`.
pub open spec fn ones(m: nat) -> nat
    decreases m,
{
    if m == 0 {
        0
    } else {
        m % 2 + ones(m / 2)
    }
}

pub open spec fn ones_of(value: u64) -> u64 {
    ones(value as nat) as u64
}

pub proof fn lemma_ones_bound(m: nat)
    ensures
        ones(m) <= m,
    decreases m,
{
    if m > 0 {
        lemma_ones_bound(m / 2);
    }
}

pub fn count_ones(value: u64) -> (r: u64)
    ensures
        r == ones_of(value),
{
    proof {
        lemma_ones_bound(value as nat);
    }
    let mut rest: u64 = value;
    let mut count: u64 = 0;
    while rest > 0
        invariant
            count + ones(rest as nat) == ones(value as nat),
            ones(value as nat) <= value,
        decreases rest,
    {
        proof {
            lemma_ones_bound(rest as nat);
            lemma_ones_bound(rest as nat / 2);
        }
        count = count + rest % 2;
        rest = rest / 2;
    }
    count
}

/// Number of zero bits above the highest one of a `width`-bit number.
pub open spec fn high_zeros(value: u64, width: u32) -> u64 {
    (width - crate::arith::bit_length(value as nat)) as u64
}

pub fn leading_zeros(value: u64, width: u32) -> (r: u64)
    requires
        crate::arith::bit_length(value as nat) <= width,
    ensures
        r == high_zeros(value, width),
{
    (width - crate::arith::bit_len(value as u128)) as u64
}

/// Number of zero bits below the lowest one of a `width`-bit number.
pub open spec fn low_zeros(m: nat, width: nat) -> nat
    decreases width,
{
    if width == 0 || m % 2 == 1 {
        0
    } else {
        1 + low_zeros(m / 2, (width - 1) as nat)
    }
}

pub open spec fn low_zeros_of(value: u64, width: u32) -> u64 {
    low_zeros(value as nat, width as nat) as u64
}

proof fn lemma_low_zeros_bound(m: nat, width: nat)
    ensures
        low_zeros(m, width) <= width,
    decreases width,
{
    if width > 0 {
        lemma_low_zeros_bound(m / 2, (width - 1) as nat);
    }
}

pub fn trailing_zeros(value: u64, width: u32) -> (r: u64)
    ensures
        r == low_zeros_of(value, width),
        r <= width,
{
    let mut rest: u64 = value;
    let mut count: u32 = 0;
    proof {
        lemma_low_zeros_bound(value as nat, width as nat);
    }
    while count < width && rest % 2 == 0
        invariant
            count <= width,
            count + low_zeros(rest as nat, (width - count) as nat) == low_zeros(
                value as nat,
                width as nat,
            ),
        decreases width - count,
    {
        rest = rest / 2;
        count = count + 1;
    }
    count as u64
}

/// A number whose `count` low bits are set.
pub open spec fn low_ones(count: u64) -> u64 {
    if count >= 64 {
        u64::MAX
    } else {
        (1u64 << count).wrapping_sub(1)
    }
}

pub fn low_mask(count: u64) -> (r: u64)
    ensures
        r == low_ones(count),
{
    if count >= 64 {
        u64::MAX
    } else {
        (1u64 << count).wrapping_sub(1)
    }
}

pub open spec fn rotated_right64(value: u64, n: u32) -> u64 {
    if n == 0 {
        value
    } else {
        (value >> n) | (value << ((64 - n) as u32))
    }
}

pub fn rotate_right64(value: u64, n: u32) -> (r: u64)
    requires
        n < 64,
    ensures
        r == rotated_right64(value, n),
{
    if n == 0 {
        value
    } else {
        (value >> n) | (value << ((64 - n) as u32))
    }
}

pub open spec fn rotated_left64(value: u64, n: u32) -> u64 {
    if n == 0 {
        value
    } else {
        (value << n) | (value >> ((64 - n) as u32))
    }
}

pub fn rotate_left64(value: u64, n: u32) -> (r: u64)
    requires
        n < 64,
    ensures
        r == rotated_left64(value, n),
{
    if n == 0 {
        value
    } else {
        (value << n) | (value >> ((64 - n) as u32))
    }
}

pub open spec fn rotated_right32(value: u32, n: u32) -> u32 {
    if n == 0 {
        value
    } else {
        (value >> n) | (value << ((32 - n) as u32))
    }
}

pub fn rotate_right32(value: u32, n: u32) -> (r: u32)
    requires
        n < 32,
    ensures
        r == rotated_right32(value, n),
{
    if n == 0 {
        value
    } else {
        (value >> n) | (value << ((32 - n) as u32))
    }
}

pub open spec fn rotated_left32(value: u32, n: u32) -> u32 {
    if n == 0 {
        value
    } else {
        (value << n) | (value >> ((32 - n) as u32))
    }
}

pub fn rotate_left32(value: u32, n: u32) -> (r: u32)
    requires
        n < 32,
    ensures
        r == rotated_left32(value, n),
{
    if n == 0 {
        value
    } else {
        (value << n) | (value >> ((32 - n) as u32))
    }
}

/// A value with its bytes in the opposite order.
pub open spec fn bytes_swapped(value: u64) -> u64 {
    bytes::le_value(bytes::le_bytes(value as nat, 8).reverse()) as u64
}

pub fn swap_bytes(value: u64) -> (r: u64)
    ensures
        r == bytes_swapped(value),
{
    let data: Vec<u8> = bytes::to_le(value, 8);
    let mut reversed: Vec<u8> = Vec::new();
    let mut i: usize = 8;
    while i > 0
        invariant
            i <= 8,
            data@.len() == 8,
            reversed@ == data@.reverse().take(8 - i),
        decreases i,
    {
        i = i - 1;
        reversed.push(data[i]);
        assert(reversed@ =~= data@.reverse().take(8 - i));
    }
    assert(reversed@.subrange(0, 8) =~= data@.reverse());
    bytes::load_le(reversed.as_slice(), 0, 8)
}

/// A value with every byte that is not zero replaced by all ones.
pub open spec fn bytes_filled(value: u64) -> u64 {
    bytes::le_value(
        bytes::le_bytes(value as nat, 8).map_values(
            |b: u8|
                if b == 0 {
                    0u8
                } else {
                    0xffu8
                },
        ),
    ) as u64
}

pub fn fill_bytes(value: u64) -> (r: u64)
    ensures
        r == bytes_filled(value),
{
    let mut data: Vec<u8> = bytes::to_le(value, 8);
    let ghost fill = |b: u8|
        if b == 0 {
            0u8
        } else {
            0xffu8
        };
    let ghost before = data@;
    let mut i: usize = 0;
    while i < 8
        invariant
            i <= 8,
            data@.len() == 8,
            before.len() == 8,
            fill == |b: u8|
                if b == 0 {
                    0u8
                } else {
                    0xffu8
                },
            forall|j: int| 0 <= j < i ==> data@[j] == fill(before[j]),
            forall|j: int| i <= j < 8 ==> data@[j] == before[j],
        decreases 8 - i,
    {
        if data[i] != 0 {
            data[i] = 0xff;
        }
        i = i + 1;
    }
    assert(data@.subrange(0, 8) =~= before.map_values(fill));
    bytes::load_le(data.as_slice(), 0, 8)
}

/// `l / r` rounded toward zero.
pub open spec fn truncated_quotient(l: int, r: int) -> int {
    let q = crate::softfp::absolute(l) / crate::softfp::absolute(r);
    if (l < 0) != (r < 0) {
        -(q as int)
    } else {
        q as int
    }
}

/// The remainder of division that rounds toward zero; it has the sign of the
/// dividend.
pub open spec fn truncated_remainder(l: int, r: int) -> int {
    let m = crate::softfp::absolute(l) % crate::softfp::absolute(r);
    if l < 0 {
        -(m as int)
    } else {
        m as int
    }
}

/// Dividend and remainder make up the divisor.
pub proof fn law_truncated_division(l: int, r: int)
    requires
        r != 0,
    ensures
        l == r * truncated_quotient(l, r) + truncated_remainder(l, r),
        crate::softfp::absolute(truncated_remainder(l, r)) < crate::softfp::absolute(r),
{
    let a = crate::softfp::absolute(l) as int;
    let b = crate::softfp::absolute(r) as int;
    vstd::arithmetic::div_mod::lemma_fundamental_div_mod(a, b);
    vstd::arithmetic::div_mod::lemma_mod_bound(a, b);
    let q = a / b;
    assert((-b) * (-q) == b * q && (-b) * q == -(b * q) && b * (-q) == -(b * q))
        by (nonlinear_arith);
}

fn magnitude64(value: u64) -> (r: u64)
    ensures
        r == crate::softfp::absolute(signed_value(value)),
{
    if value >= 0x8000_0000_0000_0000 {
        (0x1_0000_0000_0000_0000u128 - value as u128) as u64
    } else {
        value
    }
}

fn negate_if(negative: bool, magnitude: u64) -> (r: u64)
    ensures
        r == encoded(
            if negative {
                -(magnitude as int)
            } else {
                magnitude as int
            },
        ),
{
    if negative && magnitude != 0 {
        (0x1_0000_0000_0000_0000u128 - magnitude as u128) as u64
    } else {
        magnitude
    }
}

/// The quotient of two registers; division by zero gives all ones.
pub open spec fn quotient64(left: u64, right: u64) -> u64 {
    if right == 0 {
        u64::MAX
    } else {
        encoded(truncated_quotient(signed_value(left), signed_value(right)))
    }
}

pub fn divide64(left: u64, right: u64) -> (r: u64)
    ensures
        r == quotient64(left, right),
{
    if right == 0 {
        u64::MAX
    } else {
        let a: u64 = magnitude64(left);
        let b: u64 = magnitude64(right);
        negate_if((left >= 0x8000_0000_0000_0000) != (right >= 0x8000_0000_0000_0000), a / b)
    }
}

/// The remainder of two registers; division by zero leaves the dividend.
pub open spec fn remainder64(left: u64, right: u64) -> u64 {
    if right == 0 {
        left
    } else {
        encoded(truncated_remainder(signed_value(left), signed_value(right)))
    }
}

pub fn modulo64(left: u64, right: u64) -> (r: u64)
    ensures
        r == remainder64(left, right),
{
    if right == 0 {
        left
    } else {
        let a: u64 = magnitude64(left);
        let b: u64 = magnitude64(right);
        negate_if(left >= 0x8000_0000_0000_0000, a % b)
    }
}

fn magnitude32(value: u32) -> (r: u32)
    ensures
        r == crate::softfp::absolute(signed_value32(value)),
{
    if value >= 0x8000_0000 {
        (0x1_0000_0000u64 - value as u64) as u32
    } else {
        value
    }
}

fn negate_if32(negative: bool, magnitude: u32) -> (r: u32)
    ensures
        r == encoded32(
            if negative {
                -(magnitude as int)
            } else {
                magnitude as int
            },
        ),
{
    if negative && magnitude != 0 {
        (0x1_0000_0000u64 - magnitude as u64) as u32
    } else {
        magnitude
    }
}

pub open spec fn quotient32(left: u32, right: u32) -> u32 {
    if right == 0 {
        u32::MAX
    } else {
        encoded32(truncated_quotient(signed_value32(left), signed_value32(right)))
    }
}

pub fn divide32(left: u32, right: u32) -> (r: u32)
    ensures
        r == quotient32(left, right),
{
    if right == 0 {
        u32::MAX
    } else {
        let a: u32 = magnitude32(left);
        let b: u32 = magnitude32(right);
        negate_if32((left >= 0x8000_0000) != (right >= 0x8000_0000), a / b)
    }
}

pub open spec fn remainder32(left: u32, right: u32) -> u32 {
    if right == 0 {
        left
    } else {
        encoded32(truncated_remainder(signed_value32(left), signed_value32(right)))
    }
}

pub fn modulo32(left: u32, right: u32) -> (r: u32)
    ensures
        r == remainder32(left, right),
{
    if right == 0 {
        left
    } else {
        let a: u32 = magnitude32(left);
        let b: u32 = magnitude32(right);
        negate_if32(left >= 0x8000_0000, a % b)
    }
}

/// The upper half of a product.
pub open spec fn high_half(product: int) -> u64 {
    encoded(product / 0x1_0000_0000_0000_0000)
}

pub fn high_i128(value: i128) -> (r: u64)
    requires
        value > -0x8000_0000_0000_0000_0000_0000_0000_0000,
    ensures
        r == high_half(value as int),
{
    if value >= 0 {
        (value as u128 / 0x1_0000_0000_0000_0000) as u64
    } else {
        let up: u128 = ((-value) as u128 + 0xffff_ffff_ffff_ffff) / 0x1_0000_0000_0000_0000;
        assert(value as int / 0x1_0000_0000_0000_0000 == -(up as int));
        (0x1_0000_0000_0000_0000u128 - up) as u64
    }
}

pub fn high_u128(value: u128) -> (r: u64)
    ensures
        r == high_half(value as int),
{
    (value / 0x1_0000_0000_0000_0000) as u64
}

pub proof fn lemma_product_range(a: int, b: int)
    requires
        -0x8000_0000_0000_0000 <= a <= 0xffff_ffff_ffff_ffff,
        -0x8000_0000_0000_0000 <= b <= 0xffff_ffff_ffff_ffff,
    ensures
        -0x8000_0000_0000_0000 * 0xffff_ffff_ffff_ffff <= a * b <= 0xffff_ffff_ffff_ffff
            * 0xffff_ffff_ffff_ffff,
        a <= 0x7fff_ffff_ffff_ffff ==> a * b <= 0x7fff_ffff_ffff_ffff * 0xffff_ffff_ffff_ffff,
{
    let m = 0xffff_ffff_ffff_ffffint;
    let h = 0x8000_0000_0000_0000int;
    assert(-h * m <= a * b <= m * m) by (nonlinear_arith)
        requires
            -h <= a <= m,
            -h <= b <= m,
            h == 0x8000_0000_0000_0000,
            m == 0xffff_ffff_ffff_ffff,
    ;
    if a <= h - 1 {
        assert(a * b <= (h - 1) * m) by (nonlinear_arith)
            requires
                -h <= a <= h - 1,
                -h <= b <= m,
                h == 0x8000_0000_0000_0000,
                m == 0xffff_ffff_ffff_ffff,
        ;
    }
}

/// The result of a multiplication or division.
pub open spec fn product_or_quotient(funct3: u32, left: u64, right: u64) -> u64 {
    match funct3 {
        0 => left.wrapping_mul(right),
        1 => high_half(signed_value(left) * signed_value(right)),
        2 => high_half(signed_value(left) * right),
        3 => high_half(left * right),
        4 => quotient64(left, right),
        5 => if right == 0 {
            u64::MAX
        } else {
            left / right
        },
        6 => remainder64(left, right),
        _ => if right == 0 {
            left
        } else {
            left % right
        },
    }
}

pub fn execute_multiply_divide(funct3: u32, left: u64, right: u64) -> (r: u64)
    requires
        funct3 < 8,
    ensures
        r == product_or_quotient(funct3, left, right),
{
    proof {
        lemma_product_range(signed_value(left), signed_value(right));
        lemma_product_range(signed_value(left), right as int);
        lemma_product_range(left as int, right as int);
    }
    match funct3 {
        0 => left.wrapping_mul(right),
        1 => high_i128(signed(left) as i128 * signed(right) as i128),
        2 => high_i128(signed(left) as i128 * right as i128),
        3 => high_u128(left as u128 * right as u128),
        4 => divide64(left, right),
        5 => if right == 0 {
            u64::MAX
        } else {
            left / right
        },
        6 => modulo64(left, right),
        _ => if right == 0 {
            left
        } else {
            left % right
        },
    }
}

/// The result of a multiplication or division of words.
pub open spec fn word_product_or_quotient(funct3: u32, left: u32, right: u32) -> Result<u32, Trap> {
    match funct3 {
        0 => Ok(left.wrapping_mul(right)),
        4 => Ok(quotient32(left, right)),
        5 => Ok(
            if right == 0 {
                u32::MAX
            } else {
                left / right
            },
        ),
        6 => Ok(remainder32(left, right)),
        7 => Ok(
            if right == 0 {
                left
            } else {
                left % right
            },
        ),
        _ => Err(illegal_trap(0)),
    }
}

pub fn execute_word_multiply_divide(funct3: u32, left: u32, right: u32) -> (r: Result<u32, Trap>)
    ensures
        r == word_product_or_quotient(funct3, left, right),
{
    match funct3 {
        0 => Ok(left.wrapping_mul(right)),
        4 => Ok(divide32(left, right)),
        5 => Ok(
            if right == 0 {
                u32::MAX
            } else {
                left / right
            },
        ),
        6 => Ok(modulo32(left, right)),
        7 => Ok(
            if right == 0 {
                left
            } else {
                left % right
            },
        ),
        _ => Err(illegal(0)),
    }
}

pub open spec fn truth(b: bool) -> u64 {
    if b {
        1
    } else {
        0
    }
}

pub fn flag(b: bool) -> (r: u64)
    ensures
        r == truth(b),
{
    if b {
        1
    } else {
        0
    }
}

/// The result of an operation on a register and an immediate.
pub open spec fn immediate_result(instruction: u32, funct3: u32, left: u64) -> Result<u64, Trap> {
    let immediate = i_immediate(instruction);
    let code = instruction >> 20;
    let shift = code % 64;
    match funct3 {
        0 => Ok(left.wrapping_add(immediate)),
        2 => Ok(truth(signed_value(left) < signed_value(immediate))),
        3 => Ok(truth(left < immediate)),
        4 => Ok(left ^ immediate),
        6 => Ok(left | immediate),
        7 => Ok(left & immediate),
        1 => if code / 64 == 0 {
            Ok(left << shift)
        } else if code / 64 == 0xa {
            Ok(left | (1u64 << shift))
        } else if code / 64 == 0x12 {
            Ok(left & !(1u64 << shift))
        } else if code / 64 == 0x1a {
            Ok(left ^ (1u64 << shift))
        } else if code == 0x600 {
            Ok(high_zeros(left, 64))
        } else if code == 0x601 {
            Ok(low_zeros_of(left, 64))
        } else if code == 0x602 {
            Ok(ones_of(left))
        } else if code == 0x604 {
            Ok(sign_extended(left, 8))
        } else if code == 0x605 {
            Ok(sign_extended(left, 16))
        } else {
            Err(illegal_trap(instruction))
        },
        5 => if code / 64 == 0 {
            Ok(left >> shift)
        } else if code / 64 == 0x10 {
            Ok(((left as i64) >> shift) as u64)
        } else if code / 64 == 0x18 {
            Ok(rotated_right64(left, shift))
        } else if code / 64 == 0x12 {
            Ok((left >> shift) % 2)
        } else if code == 0x287 {
            Ok(bytes_filled(left))
        } else if code == 0x6b8 {
            Ok(bytes_swapped(left))
        } else {
            Err(illegal_trap(instruction))
        },
        _ => Err(illegal_trap(instruction)),
    }
}

pub fn execute_immediate(instruction: u32, funct3: u32, left: u64) -> (r: Result<u64, Trap>)
    ensures
        r == immediate_result(instruction, funct3, left),
{
    proof {
        crate::arith::lemma_pow2_127();
        crate::arith::lemma_bit_length_le(left as nat, 64);
    }
    let immediate: u64 = decode_i_immediate(instruction);
    let code: u32 = instruction >> 20;
    let shift: u32 = code % 64;
    match funct3 {
        0 => Ok(left.wrapping_add(immediate)),
        2 => Ok(flag(signed(left) < signed(immediate))),
        3 => Ok(flag(left < immediate)),
        4 => Ok(left ^ immediate),
        6 => Ok(left | immediate),
        7 => Ok(left & immediate),
        1 => if code / 64 == 0 {
            Ok(left << shift)
        } else if code / 64 == 0xa {
            Ok(left | (1u64 << shift))
        } else if code / 64 == 0x12 {
            Ok(left & !(1u64 << shift))
        } else if code / 64 == 0x1a {
            Ok(left ^ (1u64 << shift))
        } else if code == 0x600 {
            Ok(leading_zeros(left, 64))
        } else if code == 0x601 {
            Ok(trailing_zeros(left, 64))
        } else if code == 0x602 {
            Ok(count_ones(left))
        } else if code == 0x604 {
            Ok(sign_extend(left, 8))
        } else if code == 0x605 {
            Ok(sign_extend(left, 16))
        } else {
            Err(illegal(instruction))
        },
        5 => if code / 64 == 0 {
            Ok(left >> shift)
        } else if code / 64 == 0x10 {
            Ok(((left as i64) >> shift) as u64)
        } else if code / 64 == 0x18 {
            Ok(rotate_right64(left, shift))
        } else if code / 64 == 0x12 {
            Ok((left >> shift) % 2)
        } else if code == 0x287 {
            Ok(fill_bytes(left))
        } else if code == 0x6b8 {
            Ok(swap_bytes(left))
        } else {
            Err(illegal(instruction))
        },
        _ => Err(illegal(instruction)),
    }
}

/// The result of an operation on a word and an immediate.
pub open spec fn word_immediate_result(instruction: u32, funct3: u32, left: u32) -> Result<u32, Trap> {
    let code = instruction >> 20;
    let shift = code % 32;
    match funct3 {
        0 => Ok(left.wrapping_add(i_immediate(instruction) as u32)),
        1 => if code / 32 == 0 {
            Ok(left << shift)
        } else if code == 0x600 {
            Ok(high_zeros(left as u64, 32) as u32)
        } else if code == 0x601 {
            Ok(low_zeros_of(left as u64, 32) as u32)
        } else if code == 0x602 {
            Ok(ones_of(left as u64) as u32)
        } else {
            Err(illegal_trap(instruction))
        },
        5 => if code / 32 == 0 {
            Ok(left >> shift)
        } else if code / 32 == 0x20 {
            Ok(((left as i32) >> shift) as u32)
        } else if code / 32 == 0x30 {
            Ok(rotated_right32(left, shift))
        } else {
            Err(illegal_trap(instruction))
        },
        _ => Err(illegal_trap(instruction)),
    }
}

pub fn execute_word_immediate(instruction: u32, funct3: u32, left: u32) -> (r: Result<u32, Trap>)
    ensures
        r == word_immediate_result(instruction, funct3, left),
{
    proof {
        crate::arith::lemma_pow2_127();
        crate::arith::lemma_bit_length_le(left as nat, 32);
    }
    let code: u32 = instruction >> 20;
    let shift: u32 = code % 32;
    match funct3 {
        0 => Ok(left.wrapping_add(decode_i_immediate(instruction) as u32)),
        1 => if code / 32 == 0 {
            Ok(left << shift)
        } else if code == 0x600 {
            Ok(leading_zeros(left as u64, 32) as u32)
        } else if code == 0x601 {
            Ok(trailing_zeros(left as u64, 32) as u32)
        } else if code == 0x602 {
            Ok(count_ones(left as u64) as u32)
        } else {
            Err(illegal(instruction))
        },
        5 => if code / 32 == 0 {
            Ok(left >> shift)
        } else if code / 32 == 0x20 {
            Ok(((left as i32) >> shift) as u32)
        } else if code / 32 == 0x30 {
            Ok(rotate_right32(left, shift))
        } else {
            Err(illegal(instruction))
        },
        _ => Err(illegal(instruction)),
    }
}

/// The result of an operation on two registers.
pub open spec fn register_result(instruction: u32, funct3: u32, left: u64, right: u64) -> Result<u64, Trap> {
    let shift = (right % 64) as u32;
    match (instruction >> 25, funct3) {
        (1, _) => Ok(product_or_quotient(funct3, left, right)),
        (0, 0) => Ok(left.wrapping_add(right)),
        (0x20, 0) => Ok(left.wrapping_sub(right)),
        (0, 1) => Ok(left << shift),
        (0, 2) => Ok(truth(signed_value(left) < signed_value(right))),
        (0, 3) => Ok(truth(left < right)),
        (0, 4) => Ok(left ^ right),
        (0, 5) => Ok(left >> shift),
        (0x20, 5) => Ok(((left as i64) >> shift) as u64),
        (0, 6) => Ok(left | right),
        (0, 7) => Ok(left & right),
        (0x20, 4) => Ok(!(left ^ right)),
        (0x20, 6) => Ok(left | !right),
        (0x20, 7) => Ok(left & !right),
        (0x05, 4) => if signed_value(left) < signed_value(right) {
            Ok(left)
        } else {
            Ok(right)
        },
        (0x05, 5) => if left < right {
            Ok(left)
        } else {
            Ok(right)
        },
        (0x05, 6) => if signed_value(left) > signed_value(right) {
            Ok(left)
        } else {
            Ok(right)
        },
        (0x05, 7) => if left > right {
            Ok(left)
        } else {
            Ok(right)
        },
        (0x14, 1) => Ok(left | (1u64 << shift)),
        (0x24, 1) => Ok(left & !(1u64 << shift)),
        (0x24, 5) => Ok((left >> shift) % 2),
        (0x34, 1) => Ok(left ^ (1u64 << shift)),
        (0x10, 2) => Ok(right.wrapping_add(left << 1)),
        (0x10, 4) => Ok(right.wrapping_add(left << 2)),
        (0x10, 6) => Ok(right.wrapping_add(left << 3)),
        (0x30, 1) => Ok(rotated_left64(left, shift)),
        (0x30, 5) => Ok(rotated_right64(left, shift)),
        (0x07, 5) => if right == 0 {
            Ok(0)
        } else {
            Ok(left)
        },
        (0x07, 7) => if right != 0 {
            Ok(0)
        } else {
            Ok(left)
        },
        _ => Err(illegal_trap(instruction)),
    }
}

pub fn execute_register(instruction: u32, funct3: u32, left: u64, right: u64) -> (r: Result<u64, Trap>)
    requires
        funct3 < 8,
    ensures
        r == register_result(instruction, funct3, left, right),
{
    let shift: u32 = (right % 64) as u32;
    match (instruction >> 25, funct3) {
        (1, _) => Ok(execute_multiply_divide(funct3, left, right)),
        (0, 0) => Ok(left.wrapping_add(right)),
        (0x20, 0) => Ok(left.wrapping_sub(right)),
        (0, 1) => Ok(left << shift),
        (0, 2) => Ok(flag(signed(left) < signed(right))),
        (0, 3) => Ok(flag(left < right)),
        (0, 4) => Ok(left ^ right),
        (0, 5) => Ok(left >> shift),
        (0x20, 5) => Ok(((left as i64) >> shift) as u64),
        (0, 6) => Ok(left | right),
        (0, 7) => Ok(left & right),
        (0x20, 4) => Ok(!(left ^ right)),
        (0x20, 6) => Ok(left | !right),
        (0x20, 7) => Ok(left & !right),
        (0x05, 4) => if signed(left) < signed(right) {
            Ok(left)
        } else {
            Ok(right)
        },
        (0x05, 5) => if left < right {
            Ok(left)
        } else {
            Ok(right)
        },
        (0x05, 6) => if signed(left) > signed(right) {
            Ok(left)
        } else {
            Ok(right)
        },
        (0x05, 7) => if left > right {
            Ok(left)
        } else {
            Ok(right)
        },
        (0x14, 1) => Ok(left | (1u64 << shift)),
        (0x24, 1) => Ok(left & !(1u64 << shift)),
        (0x24, 5) => Ok((left >> shift) % 2),
        (0x34, 1) => Ok(left ^ (1u64 << shift)),
        (0x10, 2) => Ok(right.wrapping_add(left << 1)),
        (0x10, 4) => Ok(right.wrapping_add(left << 2)),
        (0x10, 6) => Ok(right.wrapping_add(left << 3)),
        (0x30, 1) => Ok(rotate_left64(left, shift)),
        (0x30, 5) => Ok(rotate_right64(left, shift)),
        (0x07, 5) => if right == 0 {
            Ok(0)
        } else {
            Ok(left)
        },
        (0x07, 7) => if right != 0 {
            Ok(0)
        } else {
            Ok(left)
        },
        _ => Err(illegal(instruction)),
    }
}

/// The result of an operation on two words.
pub open spec fn word_register_result(instruction: u32, funct3: u32, left: u32, right: u32) -> Result<u32, Trap> {
    let shift = right % 32;
    match (instruction >> 25, funct3) {
        (1, _) => word_product_or_quotient(funct3, left, right),
        (0, 0) => Ok(left.wrapping_add(right)),
        (0x20, 0) => Ok(left.wrapping_sub(right)),
        (0, 1) => Ok(left << shift),
        (0, 5) => Ok(left >> shift),
        (0x20, 5) => Ok(((left as i32) >> shift) as u32),
        (0x30, 1) => Ok(rotated_left32(left, shift)),
        (0x30, 5) => Ok(rotated_right32(left, shift)),
        _ => Err(illegal_trap(instruction)),
    }
}

pub fn execute_word_register(instruction: u32, funct3: u32, left: u32, right: u32) -> (r: Result<u32, Trap>)
    ensures
        r == word_register_result(instruction, funct3, left, right),
{
    let shift: u32 = right % 32;
    match (instruction >> 25, funct3) {
        (1, _) => execute_word_multiply_divide(funct3, left, right),
        (0, 0) => Ok(left.wrapping_add(right)),
        (0x20, 0) => Ok(left.wrapping_sub(right)),
        (0, 1) => Ok(left << shift),
        (0, 5) => Ok(left >> shift),
        (0x20, 5) => Ok(((left as i32) >> shift) as u32),
        (0x30, 1) => Ok(rotate_left32(left, shift)),
        (0x30, 5) => Ok(rotate_right32(left, shift)),
        _ => Err(illegal(instruction)),
    }
}

/// A word result, sign extended to a register.
pub open spec fn extended_word(result: Result<u32, Trap>) -> Result<u64, Trap> {
    match result {
        Ok(value) => Ok(sign_extended(value as u64, 32)),
        Err(trap) => Err(trap),
    }
}

pub fn word_outcome(result: Result<u32, Trap>) -> (r: Result<u64, Trap>)
    ensures
        r == extended_word(result),
{
    match result {
        Ok(value) => Ok(sign_extend(value as u64, 32)),
        Err(trap) => Err(trap),
    }
}

/// The result of an integer computation.
pub open spec fn arithmetic_result(instruction: u32, opcode: u32, rs2: usize, funct3: u32, left: u64, right: u64) -> Result<u64, Trap> {
    let funct7 = instruction >> 25;
    if opcode == 0x13 {
        immediate_result(instruction, funct3, left)
    } else if opcode == 0x1b {
        if funct3 == 1 && instruction >> 26 == 2 {
            Ok((left % 0x1_0000_0000) << ((instruction >> 20) % 64))
        } else {
            extended_word(word_immediate_result(instruction, funct3, left as u32))
        }
    } else if opcode == 0x33 {
        register_result(instruction, funct3, left, right)
    } else if funct7 == 0x04 && funct3 == 0 {
        Ok((left % 0x1_0000_0000).wrapping_add(right))
    } else if funct7 == 0x04 && funct3 == 4 && rs2 == 0 {
        Ok(left % 0x1_0000)
    } else if funct7 == 0x10 && funct3 == 2 {
        Ok(right.wrapping_add((left % 0x1_0000_0000) << 1))
    } else if funct7 == 0x10 && funct3 == 4 {
        Ok(right.wrapping_add((left % 0x1_0000_0000) << 2))
    } else if funct7 == 0x10 && funct3 == 6 {
        Ok(right.wrapping_add((left % 0x1_0000_0000) << 3))
    } else {
        extended_word(word_register_result(instruction, funct3, left as u32, right as u32))
    }
}

pub fn arithmetic(instruction: u32, opcode: u32, rs2: usize, funct3: u32, left: u64, right: u64) -> (r: Result<u64, Trap>)
    requires
        funct3 < 8,
    ensures
        r == arithmetic_result(instruction, opcode, rs2, funct3, left, right),
{
    let funct7: u32 = instruction >> 25;
    if opcode == 0x13 {
        execute_immediate(instruction, funct3, left)
    } else if opcode == 0x1b {
        if funct3 == 1 && instruction >> 26 == 2 {
            Ok((left % 0x1_0000_0000) << ((instruction >> 20) % 64))
        } else {
            word_outcome(execute_word_immediate(instruction, funct3, left as u32))
        }
    } else if opcode == 0x33 {
        execute_register(instruction, funct3, left, right)
    } else if funct7 == 0x04 && funct3 == 0 {
        Ok((left % 0x1_0000_0000).wrapping_add(right))
    } else if funct7 == 0x04 && funct3 == 4 && rs2 == 0 {
        Ok(left % 0x1_0000)
    } else if funct7 == 0x10 && funct3 == 2 {
        Ok(right.wrapping_add((left % 0x1_0000_0000) << 1))
    } else if funct7 == 0x10 && funct3 == 4 {
        Ok(right.wrapping_add((left % 0x1_0000_0000) << 2))
    } else if funct7 == 0x10 && funct3 == 6 {
        Ok(right.wrapping_add((left % 0x1_0000_0000) << 3))
    } else {
        word_outcome(execute_word_register(instruction, funct3, left as u32, right as u32))
    }
}

} // verus!
