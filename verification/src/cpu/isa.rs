//! What instructions do, said of the numbers in an instruction word and in the
//! registers.

use vstd::prelude::*;
use vstd::arithmetic::power2::pow2;
use crate::cpu::alu;
use crate::cpu::execute::branch_taken;
use crate::cpu::{CpuBus, CpuModel, Exception, InstructionOutcome, Trap};

verus! {

/// The number that a register stands for where numbers may be negative.
pub open spec fn number(x: u64) -> int {
    if x < 0x8000_0000_0000_0000 {
        x as int
    } else {
        x - 0x1_0000_0000_0000_0000
    }
}

/// A number in a register: what does not fit is lost.
pub open spec fn wrap(x: int) -> u64 {
    (x % 0x1_0000_0000_0000_0000) as u64
}

/// The number of the low 32 bits where numbers may be negative.
pub open spec fn word_number(x: int) -> int {
    let low = x % 0x1_0000_0000;
    if low < 0x8000_0000 {
        low
    } else {
        low - 0x1_0000_0000
    }
}

/// A field of an instruction word.
#[verifier::opaque]
pub open spec fn part(w: u32, start: int, count: int) -> int {
    (w as int / start) % count
}

pub open spec fn funct3(w: u32) -> int {
    part(w, 0x1000, 8)
}

#[verifier::opaque]
pub open spec fn funct7(w: u32) -> int {
    w as int / 0x200_0000
}

pub open spec fn rd(w: u32) -> int {
    part(w, 0x80, 32)
}

pub open spec fn rs1(w: u32) -> int {
    part(w, 0x8000, 32)
}

pub open spec fn rs2(w: u32) -> int {
    part(w, 0x10_0000, 32)
}

/// The twelve bits at the top of a word, as a number from -2048 to 2047.
#[verifier::opaque]
pub open spec fn i_offset(w: u32) -> int {
    let bits = w as int / 0x10_0000;
    if bits < 2048 {
        bits
    } else {
        bits - 4096
    }
}

/// The twelve bits of a store's offset, which lie in two places.
#[verifier::opaque]
pub open spec fn s_offset(w: u32) -> int {
    let bits = 32 * (w as int / 0x200_0000) + part(w, 0x80, 32);
    if bits < 2048 {
        bits
    } else {
        bits - 4096
    }
}

/// The offset of a branch: even, from -4096 to 4094.
#[verifier::opaque]
pub open spec fn b_offset(w: u32) -> int {
    2 * part(w, 0x100, 16) + 32 * part(w, 0x200_0000, 64) + 2048 * part(w, 0x80, 2) - 4096 * (
    w as int / 0x8000_0000)
}

/// The offset of a jump: even, within a mebibyte.
#[verifier::opaque]
pub open spec fn j_offset(w: u32) -> int {
    2 * part(w, 0x20_0000, 1024) + 2048 * part(w, 0x10_0000, 2) + 4096 * part(w, 0x1000, 256)
        - 0x10_0000 * (w as int / 0x8000_0000)
}

/// The upper twenty bits of a word, as a number.
#[verifier::opaque]
pub open spec fn u_offset(w: u32) -> int {
    word_number(w - w as int % 4096)
}

proof fn lemma_part(w: u32, start: int, count: int)
    requires
        count > 0,
    ensures
        0 <= part(w, start, count) < count,
{
    reveal(part);
}

/// The immediates, as unsigned numbers.
proof fn lemma_immediates(w: u32)
    ensures
        ({
            let high = |from: u64|
                if w < 0x8000_0000 {
                    0int
                } else {
                    from as int
                };
            &&& alu::i_immediate(w) == w / 0x10_0000 + high(0xffff_ffff_ffff_f000)
            &&& alu::s_immediate(w) == 32 * (w / 0x200_0000) + part(w, 0x80, 32) + high(
                0xffff_ffff_ffff_f000,
            )
            &&& alu::b_immediate(w) == 2 * part(w, 0x100, 16) + 32 * part(w, 0x200_0000, 64) + 2048
                * part(w, 0x80, 2) + high(0xffff_ffff_ffff_f000)
            &&& alu::j_immediate(w) == 2 * part(w, 0x20_0000, 1024) + 2048 * part(w, 0x10_0000, 2)
                + 4096 * part(w, 0x1000, 256) + high(0xffff_ffff_fff0_0000)
            &&& alu::u_immediate(w) == (w - w % 4096) + high(0xffff_ffff_0000_0000)
        }),
{
    reveal(part);
    let i = alu::i_immediate(w);
    let s = alu::s_immediate(w);
    let b = alu::b_immediate(w);
    let j = alu::j_immediate(w);
    let u = alu::u_immediate(w);
    let h = if w < 0x8000_0000 {
        0
    } else {
        0xffff_ffff_ffff_f000u64
    };
    let k = if w < 0x8000_0000 {
        0
    } else {
        0xffff_ffff_fff0_0000u64
    };
    let l = if w < 0x8000_0000 {
        0
    } else {
        0xffff_ffff_0000_0000u64
    };
    assert(i == (w / 0x10_0000) + h && s == 32 * (w / 0x200_0000) + (w / 0x80) % 32 + h && b == 2
        * ((w / 0x100) % 16) + 32 * ((w / 0x200_0000) % 64) + 2048 * ((w / 0x80) % 2) + h && j == 2
        * ((w / 0x20_0000) % 1024) + 2048 * ((w / 0x10_0000) % 2) + 4096 * ((w / 0x1000) % 256) + k
        && u == (w - w % 4096) + l) by (bit_vector)
        requires
            i == alu::i_immediate(w),
            s == alu::s_immediate(w),
            b == alu::b_immediate(w),
            j == alu::j_immediate(w),
            u == alu::u_immediate(w),
            h == (if w < 0x8000_0000 {
                0
            } else {
                0xffff_ffff_ffff_f000u64
            }),
            k == (if w < 0x8000_0000 {
                0
            } else {
                0xffff_ffff_fff0_0000u64
            }),
            l == (if w < 0x8000_0000 {
                0
            } else {
                0xffff_ffff_0000_0000u64
            }),
    ;
}

pub proof fn lemma_i_offset(w: u32)
    ensures
        alu::i_immediate(w) == wrap(i_offset(w)),
        -2048 <= i_offset(w) < 2048,
{
    reveal(i_offset);
    lemma_immediates(w);
    let bits = w / 0x10_0000;
    assert((w < 0x8000_0000) == (bits < 2048));
}

proof fn lemma_u_offset(w: u32)
    ensures
        alu::u_immediate(w) == wrap(u_offset(w)),
        -0x8000_0000 <= u_offset(w) < 0x8000_0000,
{
    reveal(u_offset);
    lemma_immediates(w);
    let high = w - w as int % 4096;
    assert((w < 0x8000_0000) == (high < 0x8000_0000));
}

pub proof fn lemma_s_offset(w: u32)
    ensures
        alu::s_immediate(w) == wrap(s_offset(w)),
        -2048 <= s_offset(w) < 2048,
{
    reveal(s_offset);
    lemma_immediates(w);
    lemma_part(w, 0x80, 32);
    let high = w / 0x200_0000;
    assert((w < 0x8000_0000) == (high < 64));
}

proof fn lemma_b_offset(w: u32)
    ensures
        alu::b_immediate(w) == wrap(b_offset(w)),
        -4096 <= b_offset(w) < 4096,
        b_offset(w) % 2 == 0,
{
    reveal(b_offset);
    lemma_immediates(w);
    lemma_part(w, 0x100, 16);
    lemma_part(w, 0x200_0000, 64);
    lemma_part(w, 0x80, 2);
    let half = part(w, 0x100, 16) + 16 * part(w, 0x200_0000, 64) + 1024 * part(w, 0x80, 2);
    if w < 0x8000_0000 {
        assert(b_offset(w) == 2 * half);
    } else {
        assert(b_offset(w) == 2 * (half - 2048));
    }
}

proof fn lemma_j_offset(w: u32)
    ensures
        alu::j_immediate(w) == wrap(j_offset(w)),
        -0x10_0000 <= j_offset(w) < 0x10_0000,
        j_offset(w) % 2 == 0,
{
    reveal(j_offset);
    lemma_immediates(w);
    lemma_part(w, 0x20_0000, 1024);
    lemma_part(w, 0x10_0000, 2);
    lemma_part(w, 0x1000, 256);
    let half = part(w, 0x20_0000, 1024) + 1024 * part(w, 0x10_0000, 2) + 2048 * part(
        w,
        0x1000,
        256,
    );
    if w < 0x8000_0000 {
        assert(j_offset(w) == 2 * half);
    } else {
        assert(j_offset(w) == 2 * (half - 0x8_0000));
    }
}

/// Where the fields of a word are found.
pub proof fn lemma_fields(w: u32)
    ensures
        (w >> 12) % 8 == funct3(w),
        w >> 25 == funct7(w),
        w >> 20 == w as int / 0x10_0000,
        w >> 26 == w as int / 0x400_0000,
        w >> 27 == w as int / 0x800_0000,
        alu::register_field(w, 7) == rd(w),
        alu::register_field(w, 15) == rs1(w),
        alu::register_field(w, 20) == rs2(w),
        0 <= funct3(w) < 8,
        0 <= funct7(w) < 128,
        0 <= rd(w) < 32,
        0 <= rs1(w) < 32,
        0 <= rs2(w) < 32,
{
    reveal(part);
    reveal(funct7);
    assert((w >> 12) == w / 0x1000 && (w >> 25) == w / 0x200_0000 && w >> 20 == w / 0x10_0000 && w
        >> 26 == w / 0x400_0000 && w >> 27 == w / 0x800_0000 && w >> 7 == w / 0x80 && w >> 15 == w / 0x8000) by (bit_vector);
}

pub proof fn lemma_add(x: u64, d: int)
    requires
        -0x8000_0000_0000_0000 <= d < 0x8000_0000_0000_0000,
    ensures
        x.wrapping_add(wrap(d)) == wrap(x + d),
        x.wrapping_add(4) == wrap(x + 4),
        x % 2 == 0 && d % 2 == 0 ==> wrap(x + d) % 2 == 0,
{
}

/// Whether a branch of a kind goes to its target.
pub open spec fn goes(kind: int, l: u64, r: u64) -> bool {
    if kind == 0 {
        l == r
    } else if kind == 1 {
        l != r
    } else if kind == 4 {
        number(l) < number(r)
    } else if kind == 5 {
        !(number(l) < number(r))
    } else if kind == 6 {
        (l as int) < (r as int)
    } else {
        !((l as int) < (r as int))
    }
}

/// Whether an instruction did nothing but lead to another.
pub open spec fn led_to<M>(
    done: (Result<InstructionOutcome, Trap>, CpuModel, M),
    place: int,
    c: CpuModel,
    m: M,
) -> bool {
    &&& done.0 matches Ok(outcome)
    &&& outcome.next_pc == wrap(place)
    &&& outcome.retired
    &&& done.1 == c
    &&& done.2 == m
}

/// A branch (`BEQ`, `BNE`, `BLT`, `BGE`, `BLTU`, `BGEU`) goes to the place that its
/// offset names exactly when its two registers stand to each other as its name
/// says, else to the next instruction; it changes nothing else. `BLT` and `BGE`
/// order registers as numbers that may be negative, `BLTU` and `BGEU` as numbers
/// that may not.
pub proof fn law_branch<B: CpuBus>(c: CpuModel, m: B::Model, pc: u64, w: u32)
    requires
        w % 128 == 0x63,
        pc % 2 == 0,
    ensures
        ({
            let done = c.execute::<B>(m, pc, w, 4);
            if funct3(w) == 2 || funct3(w) == 3 {
                done == (
                    Err::<InstructionOutcome, _>(
                        Trap { exception: Exception::IllegalInstruction, value: w as u64 },
                    ),
                    c,
                    m,
                )
            } else {
                led_to(
                    done,
                    pc + if goes(funct3(w), c.registers[rs1(w)], c.registers[rs2(w)]) {
                        b_offset(w)
                    } else {
                        4
                    },
                    c,
                    m,
                )
            }
        }),
{
    lemma_fields(w);
    lemma_b_offset(w);
    lemma_add(pc, b_offset(w));
    let kind = (w >> 12) % 8;
    let left = c.registers[rs1(w)];
    let right = c.registers[rs2(w)];
    let done = c.execute::<B>(m, pc, w, 4);
    assert(done == (match branch_taken(kind, left, right) {
        None => (Err(alu::illegal_trap(w)), c, m),
        Some(false) => (Ok(InstructionOutcome::following(pc.wrapping_add(4))), c, m),
        Some(true) => (
            Ok(InstructionOutcome::leaving(pc.wrapping_add(alu::b_immediate(w)), true)),
            c,
            m,
        ),
    }));
    assert(kind == 2 || kind == 3 || branch_taken(kind, left, right) == Some(
        goes(funct3(w), left, right),
    ));
}

/// Whether an instruction wrote one register and led to a place. Register zero
/// stays as it is.
pub open spec fn gave<M>(
    done: (Result<InstructionOutcome, Trap>, CpuModel, M),
    place: int,
    register: int,
    value: u64,
    c: CpuModel,
    m: M,
) -> bool {
    &&& done.0 matches Ok(outcome)
    &&& outcome.next_pc == wrap(place)
    &&& outcome.retired
    &&& done.1 == (CpuModel {
        registers: if register == 0 {
            c.registers
        } else {
            c.registers.update(register, value)
        },
        ..c
    })
    &&& done.2 == m
}

/// Whether an instruction was refused as one that does not exist.
pub open spec fn refused<M>(
    done: (Result<InstructionOutcome, Trap>, CpuModel, M),
    w: u32,
    c: CpuModel,
    m: M,
) -> bool {
    done == (
        Err::<InstructionOutcome, _>(
            Trap { exception: Exception::IllegalInstruction, value: w as u64 },
        ),
        c,
        m,
    )
}

/// `JAL` and `JALR` leave the address of the next instruction in a register, and
/// go to a place that is told from where the instruction is, or from a register.
pub proof fn law_jump<B: CpuBus>(c: CpuModel, m: B::Model, pc: u64, w: u32)
    requires
        pc % 2 == 0,
    ensures
        w % 128 == 0x6f ==> gave(
            c.execute::<B>(m, pc, w, 4),
            pc + j_offset(w),
            rd(w),
            wrap(pc + 4),
            c,
            m,
        ),
        w % 128 == 0x67 && funct3(w) == 0 ==> ({
            let sum = c.registers[rs1(w)] + i_offset(w);
            gave(c.execute::<B>(m, pc, w, 4), sum - sum % 2, rd(w), wrap(pc + 4), c, m)
        }),
        w % 128 == 0x67 && funct3(w) != 0 ==> refused(c.execute::<B>(m, pc, w, 4), w, c, m),
{
    lemma_fields(w);
    lemma_i_offset(w);
    lemma_j_offset(w);
    lemma_add(pc, j_offset(w));
    let base = c.registers[rs1(w)];
    lemma_add(base, i_offset(w));
    let sum = wrap(base + i_offset(w));
    lemma_simple(sum, 0);
    assert((sum - sum % 2) == wrap(base + i_offset(w) - (base + i_offset(w)) % 2));
}

/// `LUI` and `AUIPC` give a number of which the low twelve bits are zero, alone or
/// added to where the instruction is.
pub proof fn law_upper_immediate<B: CpuBus>(c: CpuModel, m: B::Model, pc: u64, w: u32)
    ensures
        w % 128 == 0x37 ==> gave(
            c.execute::<B>(m, pc, w, 4),
            pc + 4,
            rd(w),
            wrap(u_offset(w)),
            c,
            m,
        ),
        w % 128 == 0x17 ==> gave(
            c.execute::<B>(m, pc, w, 4),
            pc + 4,
            rd(w),
            wrap(pc + u_offset(w)),
            c,
            m,
        ),
{
    lemma_fields(w);
    lemma_u_offset(w);
    lemma_add(pc, u_offset(w));
}

/// A quotient without its fraction.
pub open spec fn toward_zero(a: int, b: int) -> int {
    if a >= 0 {
        if b > 0 {
            a / b
        } else {
            -(a / (-b))
        }
    } else {
        if b > 0 {
            -((-a) / b)
        } else {
            (-a) / (-b)
        }
    }
}

/// `DIV`: with nothing to divide by, all ones.
pub open spec fn divided(a: int, b: int) -> int {
    if b == 0 {
        -1
    } else {
        toward_zero(a, b)
    }
}

/// What is left of a division.
pub open spec fn left_over(a: int, b: int) -> int {
    if b == 0 {
        a
    } else {
        a - b * toward_zero(a, b)
    }
}

pub open spec fn yes_or_no(b: bool) -> int {
    if b {
        1
    } else {
        0
    }
}

/// Bit `k` of a register.
pub open spec fn bit(x: u64, k: int) -> int {
    (x as int / pow2(k as nat) as int) % 2
}

/// The result of an operation on two registers, by the two fields that name it.
#[verifier::opaque]
pub open spec fn operation(f7: u32, f3: u32, l: u64, r: u64) -> Option<int> {
    let k = r as int % 64;
    let p = pow2(k as nat) as int;
    let rest = pow2((64 - k) as nat) as int;
    let ones = 0xffff_ffff_ffff_ffffint;
    match (f7, f3) {
        (0, 0) => Some(l + r),
        (0x20, 0) => Some(l - r),
        (0, 1) => Some(l * p),
        (0, 2) => Some(yes_or_no(number(l) < number(r))),
        (0, 3) => Some(yes_or_no(l < r)),
        (0, 4) => Some((l ^ r) as int),
        (0, 5) => Some(l as int / p),
        (0x20, 5) => Some(number(l) / p),
        (0, 6) => Some((l | r) as int),
        (0, 7) => Some((l & r) as int),
        (0x20, 4) => Some(ones - (l ^ r)),
        (0x20, 6) => Some((l | ((ones - r) as u64)) as int),
        (0x20, 7) => Some((l & ((ones - r) as u64)) as int),
        (1, 0) => Some(l * r),
        (1, 1) => Some(number(l) * number(r) / 0x1_0000_0000_0000_0000),
        (1, 2) => Some(number(l) * r / 0x1_0000_0000_0000_0000),
        (1, 3) => Some(l * r / 0x1_0000_0000_0000_0000),
        (1, 4) => Some(divided(number(l), number(r))),
        (1, 5) => Some(divided(l as int, r as int)),
        (1, 6) => Some(left_over(number(l), number(r))),
        (1, 7) => Some(left_over(l as int, r as int)),
        (5, 4) => Some(
            (if number(r) < number(l) {
                r
            } else {
                l
            }) as int,
        ),
        (5, 5) => Some(
            (if r < l {
                r
            } else {
                l
            }) as int,
        ),
        (5, 6) => Some(
            (if number(r) < number(l) {
                l
            } else {
                r
            }) as int,
        ),
        (5, 7) => Some(
            (if r < l {
                l
            } else {
                r
            }) as int,
        ),
        (0x14, 1) => Some(l + p * (1 - bit(l, k))),
        (0x24, 1) => Some(l - p * bit(l, k)),
        (0x34, 1) => Some(l + p * (1 - 2 * bit(l, k))),
        (0x24, 5) => Some(bit(l, k)),
        (0x10, 2) => Some(2 * l + r),
        (0x10, 4) => Some(4 * l + r),
        (0x10, 6) => Some(8 * l + r),
        (0x30, 1) => Some((l * p) % 0x1_0000_0000_0000_0000 + l as int / rest),
        (0x30, 5) => Some(l as int / p + (l * rest) % 0x1_0000_0000_0000_0000),
        (7, 5) => Some(
            if r == 0 {
                0
            } else {
                l as int
            },
        ),
        (7, 7) => Some(
            if r != 0 {
                0
            } else {
                l as int
            },
        ),
        _ => None,
    }
}

/// Shifts to the left multiply, and lose what does not fit.
pub proof fn lemma_shl(x: u64, k: u32)
    requires
        k < 64,
    ensures
        x << k == wrap(x * pow2(k as nat)),
    decreases k,
{
    vstd::arithmetic::power2::lemma_pow2_pos(k as nat);
    let j: u32 = if k == 0 {
        0
    } else {
        (k - 1) as u32
    };
    let y = x << j;
    assert((k == 0 ==> x << k == x) && (k > 0 ==> x << k == y << 1u32 && y << 1u32 == if y
        < 0x8000_0000_0000_0000 {
        2 * y
    } else {
        2 * y - 0x1_0000_0000_0000_0000
    })) by (bit_vector)
        requires
            k < 64,
            k > 0 ==> j == k - 1,
            y == x << j,
    ;
    if k == 0 {
        vstd::arithmetic::power2::lemma2_to64();
        assert(x * 1 == x) by (nonlinear_arith);
        assert(pow2(k as nat) == 1);
    } else {
        lemma_shl(x, j);
        vstd::arithmetic::power2::lemma_pow2_unfold(k as nat);
        let a = x * pow2(j as nat);
        assert(x * pow2(k as nat) == 2 * a) by (nonlinear_arith)
            requires
                pow2(k as nat) == 2 * pow2(j as nat),
                a == x * pow2(j as nat),
        ;
        assert(wrap(2 * a) == wrap(2 * wrap(a)));
    }
}

/// Shifts to the right divide, and arithmetic ones round down.
pub proof fn lemma_shr(x: u64, k: u32)
    requires
        k < 64,
    ensures
        x >> k == x as int / pow2(k as nat) as int,
        ((x as i64) >> k) as u64 == wrap(number(x) / pow2(k as nat) as int),
{
    let j: u64 = k as u64;
    let p = pow2(k as nat) as int;
    let top = 0xffff_ffff_ffff_ffffint;
    let other: u64 = (top - x) as u64;
    vstd::arithmetic::power2::lemma_pow2_pos(k as nat);
    vstd::bits::lemma_u64_shr_is_div(x, j);
    vstd::bits::lemma_u64_shr_is_div(other, j);
    assert(x >> k == x >> j && (x < 0x8000_0000_0000_0000 ==> ((x as i64) >> k) as u64 == x >> j)
        && (x >= 0x8000_0000_0000_0000 ==> ((x as i64) >> k) as u64 == 0xffff_ffff_ffff_ffff - (
    other >> j))) by (bit_vector)
        requires
            k < 64,
            j == k,
            other == 0xffff_ffff_ffff_ffff - x,
    ;
    if x < 0x8000_0000_0000_0000 {
        assert(0 <= x as int / p <= x) by (nonlinear_arith)
            requires
                p > 0,
        ;
    } else {
        let q = other as int / p;
        assert(number(x) / p == -1 - q && 0 <= q <= other) by (nonlinear_arith)
            requires
                p > 0,
                q == other as int / p,
                number(x) == -1 - other,
                other >= 0,
        ;
    }
}

/// Setting, clearing and flipping a bit.
proof fn lemma_bits(x: u64, k: u32)
    requires
        k < 64,
    ensures
        ({
            let p = pow2(k as nat) as int;
            let b = bit(x, k as int);
            &&& 0 <= b <= 1
            &&& (x | (1u64 << k)) == x + p * (1 - b)
            &&& (x & !(1u64 << k)) == x - p * b
            &&& (x ^ (1u64 << k)) == x + p * (1 - 2 * b)
            &&& (x >> k) % 2 == b
        }),
{
    lemma_shr(x, k);
    lemma_shl(1, k);
    let one = 1u64 << k;
    let y = (x >> k) % 2;
    let p = pow2(k as nat) as int;
    vstd::arithmetic::power2::lemma2_to64_rest();
    vstd::arithmetic::power2::lemma_pow2_strictly_increases(k as nat, 64);
    vstd::arithmetic::power2::lemma_pow2_pos(k as nat);
    assert(one == p);
    let zero = x & one;
    assert((k < 64 && one == 1u64 << k && y == (x >> k) % 2 ==> (y == 0 ==> zero == 0) && (y == 1
        ==> zero == one) && y < 2) && (zero == 0 ==> (x | one) == x + one && (x & !one) == x && (x
        ^ one) == x + one) && (zero == one ==> (x | one) == x && (x & !one) == x - one && (x ^ one)
        == x - one)) by (bit_vector)
        requires
            zero == x & one,
    ;
    assert(p * 1 == p && p * 0 == 0 && p * (-1) == -p) by (nonlinear_arith);
}

/// Turning the bits of a register round.
proof fn lemma_turns(x: u64, k: u32)
    requires
        k < 64,
    ensures
        alu::rotated_left64(x, k) == wrap(
            (x * pow2(k as nat)) % 0x1_0000_0000_0000_0000 + x as int / pow2(
                (64 - k) as nat,
            ) as int,
        ),
        alu::rotated_right64(x, k) == wrap(
            x as int / pow2(k as nat) as int + (x * pow2((64 - k) as nat))
                % 0x1_0000_0000_0000_0000,
        ),
{
    vstd::arithmetic::power2::lemma2_to64();
    vstd::arithmetic::power2::lemma2_to64_rest();
    if k == 0 {
        assert(x * 1 == x) by (nonlinear_arith);
        assert(pow2(k as nat) == 1);
        let whole = pow2((64 - k) as nat) as int;
        assert(whole == 0x1_0000_0000_0000_0000);
        vstd::arithmetic::div_mod::lemma_mod_multiples_basic(x as int, whole);
        assert((x * pow2((64 - k) as nat)) % 0x1_0000_0000_0000_0000 == 0);
        vstd::arithmetic::div_mod::lemma_div_by_self(1);
        vstd::arithmetic::div_mod::lemma_div_basics(x as int);
        let one = pow2(k as nat) as int;
        assert(x as int / one == x) by {
            assert(one == 1);
        }
        assert(x as int / whole == 0);
        assert((x * pow2(k as nat)) % 0x1_0000_0000_0000_0000 == x);
        assert(wrap(x as int) == x);
    } else {
        let j: u32 = (64 - k) as u32;
        lemma_shl(x, k);
        lemma_shr(x, k);
        lemma_shl(x, j);
        lemma_shr(x, j);
        assert(((x << k) | (x >> j)) == (x << k) + (x >> j) && ((x >> k) | (x << j)) == (x >> k) + (
        x << j)) by (bit_vector)
            requires
                0 < k < 64,
                j == 64 - k,
        ;
    }
}

proof fn lemma_products(l: u64, r: u64)
    ensures
        l.wrapping_mul(r) == wrap(l * r),
        alu::high_half(alu::signed_value(l) * alu::signed_value(r)) == wrap(
            number(l) * number(r) / 0x1_0000_0000_0000_0000,
        ),
        alu::high_half(alu::signed_value(l) * r) == wrap(
            number(l) * r / 0x1_0000_0000_0000_0000,
        ),
        alu::high_half(l * r) == wrap(l * r / 0x1_0000_0000_0000_0000),
{
    alu::lemma_product_range(number(l), number(r));
    alu::lemma_product_range(number(l), r as int);
    alu::lemma_product_range(l as int, r as int);
}

proof fn lemma_quotient(a: int, b: int)
    requires
        b != 0,
    ensures
        alu::truncated_quotient(a, b) == toward_zero(a, b),
        alu::truncated_remainder(a, b) == left_over(a, b),
        a >= 0 ==> -a <= toward_zero(a, b) <= a,
        a < 0 ==> a <= toward_zero(a, b) <= -a,
        a >= 0 ==> 0 <= left_over(a, b) <= a,
        a < 0 ==> a <= left_over(a, b) <= 0,
{
    alu::law_truncated_division(a, b);
    let x = if a < 0 {
        -a
    } else {
        a
    };
    let y = if b < 0 {
        -b
    } else {
        b
    };
    assert(0 <= x / y <= x && 0 <= x % y <= x) by (nonlinear_arith)
        requires
            x >= 0,
            y > 0,
    ;
}

proof fn lemma_quotients(l: u64, r: u64)
    ensures
        alu::quotient64(l, r) == wrap(divided(number(l), number(r))),
        alu::remainder64(l, r) == wrap(left_over(number(l), number(r))),
        r != 0 ==> l / r == wrap(divided(l as int, r as int)),
        r != 0 ==> l % r == wrap(left_over(l as int, r as int)),
{
    if r != 0 {
        lemma_quotient(number(l), number(r));
        lemma_quotient(l as int, r as int);
        let q = l as int / r as int;
        assert(l == r * q + l as int % r as int) by (nonlinear_arith)
            requires
                r > 0,
                q == l as int / r as int,
        ;
    }
}

proof fn lemma_add_wrapped(a: int, r: u64)
    ensures
        r.wrapping_add(wrap(a)) == wrap(a + r),
{
    vstd::arithmetic::div_mod::lemma_add_mod_noop(a, r as int, 0x1_0000_0000_0000_0000);
    vstd::arithmetic::div_mod::lemma_small_mod(r as nat, 0x1_0000_0000_0000_0000);
    assert(wrap(wrap(a) + r) == wrap(a + r));
}

/// Complements, and shifts by a few bits.
pub proof fn lemma_simple(l: u64, r: u64)
    ensures
        !r == 0xffff_ffff_ffff_ffff - r,
        !(l ^ r) == 0xffff_ffff_ffff_ffff - (l ^ r),
        l << 1 == (2 * l) % 0x1_0000_0000_0000_0000,
        l << 2 == (4 * l) % 0x1_0000_0000_0000_0000,
        l << 3 == (8 * l) % 0x1_0000_0000_0000_0000,
        l & !1 == l - l % 2,
{
    assert(!r == 0xffff_ffff_ffff_ffff - r && !(l ^ r) == 0xffff_ffff_ffff_ffff - (l ^ r) && l << 1
        == (2 * l) % 0x1_0000_0000_0000_0000 && l << 2 == (4 * l) % 0x1_0000_0000_0000_0000 && l
        << 3 == (8 * l) % 0x1_0000_0000_0000_0000 && l & !1 == l - l % 2) by (bit_vector);
}

/// Whether a table of results and the operations agree.
spec fn agrees(w: u32, f7: u32, f3: u32, l: u64, r: u64) -> bool {
    alu::register_result(w, f3, l, r) == (match operation(f7, f3, l, r) {
        Some(value) => Ok::<u64, Trap>(wrap(value)),
        None => Err(Trap { exception: Exception::IllegalInstruction, value: w as u64 }),
    })
}

proof fn lemma_operation_plain(w: u32, f7: u32, f3: u32, l: u64, r: u64)
    requires
        w >> 25 == f7,
        f3 < 8,
        f7 == 0 || f7 == 0x20 || f7 == 5 || f7 == 7,
    ensures
        agrees(w, f7, f3, l, r),
{
    reveal(operation);
    let k: u32 = (r % 64) as u32;
    lemma_shl(l, k);
    lemma_shr(l, k);
    lemma_simple(l, r);
}

proof fn lemma_operation_products(w: u32, f7: u32, f3: u32, l: u64, r: u64)
    requires
        w >> 25 == f7,
        f3 < 8,
        f7 == 1,
    ensures
        agrees(w, f7, f3, l, r),
{
    reveal(operation);
    let k: u32 = (r % 64) as u32;
    lemma_products(l, r);
    lemma_quotients(l, r);
}

proof fn lemma_operation_bits(w: u32, f7: u32, f3: u32, l: u64, r: u64)
    requires
        w >> 25 == f7,
        f3 < 8,
        f7 == 0x14 || f7 == 0x24 || f7 == 0x34,
    ensures
        agrees(w, f7, f3, l, r),
{
    reveal(operation);
    let k: u32 = (r % 64) as u32;
    lemma_bits(l, k);
}

proof fn lemma_operation_sums(w: u32, f7: u32, f3: u32, l: u64, r: u64)
    requires
        w >> 25 == f7,
        f3 < 8,
        f7 == 0x10,
    ensures
        agrees(w, f7, f3, l, r),
{
    reveal(operation);
    let k: u32 = (r % 64) as u32;
    lemma_simple(l, r);
    lemma_add_wrapped(2 * l, r);
    lemma_add_wrapped(4 * l, r);
    lemma_add_wrapped(8 * l, r);
}

proof fn lemma_operation_turns(w: u32, f7: u32, f3: u32, l: u64, r: u64)
    requires
        w >> 25 == f7,
        f3 < 8,
        f7 == 0x30,
    ensures
        agrees(w, f7, f3, l, r),
{
    reveal(operation);
    let k: u32 = (r % 64) as u32;
    lemma_turns(l, k);
}

proof fn lemma_operation(w: u32, l: u64, r: u64)
    ensures
        agrees(w, funct7(w) as u32, funct3(w) as u32, l, r),
{
    lemma_fields(w);
    let f7 = w >> 25;
    let f3 = (w >> 12) % 8;
    if f7 == 0 || f7 == 0x20 || f7 == 5 || f7 == 7 {
        lemma_operation_plain(w, f7, f3, l, r);
    } else if f7 == 1 {
        lemma_operation_products(w, f7, f3, l, r);
    } else if f7 == 0x14 || f7 == 0x24 || f7 == 0x34 {
        lemma_operation_bits(w, f7, f3, l, r);
    } else if f7 == 0x10 {
        lemma_operation_sums(w, f7, f3, l, r);
    } else if f7 == 0x30 {
        lemma_operation_turns(w, f7, f3, l, r);
    } else {
        reveal(operation);
    }
}

/// An operation on two registers: sums and differences, shifts, comparisons,
/// what both or either have, products, quotients, the lesser and the greater,
/// single bits, scaled sums, turns, and values under a condition. An operation
/// that is not named is refused.
pub proof fn law_register_operation<B: CpuBus>(c: CpuModel, m: B::Model, pc: u64, w: u32)
    requires
        w % 128 == 0x33,
    ensures
        ({
            let done = c.execute::<B>(m, pc, w, 4);
            match operation(
                funct7(w) as u32,
                funct3(w) as u32,
                c.registers[rs1(w)],
                c.registers[rs2(w)],
            ) {
                Some(value) => gave(done, pc + 4, rd(w), wrap(value), c, m),
                None => refused(done, w, c, m),
            }
        }),
{
    lemma_fields(w);
    lemma_add(pc, 4);
    lemma_operation(w, c.registers[rs1(w)], c.registers[rs2(w)]);
}

/// What the forms with a number in the instruction word do: what the forms with
/// two registers do, with that number in the place of the second register. A
/// shift's number is the low six bits.
pub open spec fn immediate_operation(w: u32, l: u64) -> Option<int> {
    let f3 = funct3(w) as u32;
    let code = w as int / 0x10_0000;
    let number = wrap(i_offset(w));
    let amount = (code % 64) as u64;
    let kind = code / 64;
    if f3 == 0 || f3 == 2 || f3 == 3 || f3 == 4 || f3 == 6 || f3 == 7 {
        operation(0, f3, l, number)
    } else if kind == 0 {
        operation(0, f3, l, amount)
    } else if kind == 0x10 && f3 == 5 {
        operation(0x20, f3, l, amount)
    } else if kind == 0xa && f3 == 1 {
        operation(0x14, f3, l, amount)
    } else if kind == 0x12 {
        operation(0x24, f3, l, amount)
    } else if kind == 0x1a && f3 == 1 {
        operation(0x34, f3, l, amount)
    } else if kind == 0x18 && f3 == 5 {
        operation(0x30, f3, l, amount)
    } else {
        None
    }
}

/// Whether the word names one of the operations on a single register.
pub open spec fn is_single(w: u32) -> bool {
    let code = w as int / 0x10_0000;
    ||| funct3(w) == 1 && (0x600 <= code <= 0x602 || code == 0x604 || code == 0x605)
    ||| funct3(w) == 5 && (code == 0x287 || code == 0x6b8)
}

/// Whether the table of results with a number in the word and the operations
/// agree.
spec fn agrees_immediate(w: u32, l: u64) -> bool {
    alu::immediate_result(w, (w >> 12) % 8, l) == (match immediate_operation(w, l) {
        Some(value) => Ok::<u64, Trap>(wrap(value)),
        None => Err(Trap { exception: Exception::IllegalInstruction, value: w as u64 }),
    })
}

proof fn lemma_immediate_plain(w: u32, l: u64)
    requires
        funct3(w) != 1,
        funct3(w) != 5,
    ensures
        agrees_immediate(w, l),
{
    reveal(operation);
    lemma_fields(w);
    lemma_i_offset(w);
}

proof fn lemma_immediate_shift(w: u32, f3: u32, l: u64)
    requires
        f3 == 1 || f3 == 5,
        f3 == (w >> 12) % 8,
        !is_single(w),
    ensures
        agrees_immediate(w, l),
{
    lemma_fields(w);
    let code = w >> 20;
    let k: u32 = code % 64;
    let kind = code / 64;
    assert(k as u64 % 64 == k);
    assert(kind < 64);
    if kind == 0 {
        reveal(operation);
        lemma_shl(l, k);
        lemma_shr(l, k);
    } else if kind == 0x10 {
        reveal(operation);
        lemma_shr(l, k);
    } else if kind == 0xa || kind == 0x12 || kind == 0x1a {
        reveal(operation);
        lemma_bits(l, k);
    } else if kind == 0x18 {
        reveal(operation);
        lemma_turns(l, k);
    }
}

/// An operation on a register and a number in the instruction word.
pub proof fn law_immediate_operation<B: CpuBus>(c: CpuModel, m: B::Model, pc: u64, w: u32)
    requires
        w % 128 == 0x13,
        !is_single(w),
    ensures
        ({
            let done = c.execute::<B>(m, pc, w, 4);
            match immediate_operation(w, c.registers[rs1(w)]) {
                Some(value) => gave(done, pc + 4, rd(w), wrap(value), c, m),
                None => refused(done, w, c, m),
            }
        }),
{
    lemma_fields(w);
    lemma_add(pc, 4);
    let l = c.registers[rs1(w)];
    if funct3(w) == 1 || funct3(w) == 5 {
        lemma_immediate_shift(w, (w >> 12) % 8, l);
    } else {
        lemma_immediate_plain(w, l);
    }
}

/// The result of an operation on the low halves of two registers: a number of 32
/// bits, which may be negative. Shifts go by the low five bits.
#[verifier::opaque]
pub open spec fn word_operation(f7: u32, f3: u32, l: u64, r: u64) -> Option<int> {
    let k = r as int % 32;
    let p = pow2(k as nat) as int;
    let rest = pow2((32 - k) as nat) as int;
    let low = l as int % 0x1_0000_0000;
    let other = r as int % 0x1_0000_0000;
    match (f7, f3) {
        (0, 0) => Some(word_number(l + r)),
        (0x20, 0) => Some(word_number(l - r)),
        (0, 1) => Some(word_number(low * p)),
        (0, 5) => Some(word_number(low / p)),
        (0x20, 5) => Some(word_number(l as int) / p),
        (1, 0) => Some(word_number(low * other)),
        (1, 4) => Some(word_number(divided(word_number(l as int), word_number(r as int)))),
        (1, 5) => Some(word_number(divided(low, other))),
        (1, 6) => Some(word_number(left_over(word_number(l as int), word_number(r as int)))),
        (1, 7) => Some(word_number(left_over(low, other))),
        (0x30, 1) => Some(word_number((low * p) % 0x1_0000_0000 + low / rest)),
        (0x30, 5) => Some(word_number(low / p + (low * rest) % 0x1_0000_0000)),
        _ => None,
    }
}

/// A word in a register: its highest bit fills the upper half.
pub proof fn lemma_word(x: u32)
    ensures
        alu::sign_extended(x as u64, 32) == wrap(word_number(x as int)),
        alu::signed_value32(x) == word_number(x as int),
{
    lemma_low(x as u64);
}

pub proof fn lemma_low(x: u64)
    ensures
        x as u32 == x as int % 0x1_0000_0000,
        word_number(x as int) == word_number((x as u32) as int),
        alu::sign_extended(x, 32) == wrap(word_number(x as int)),
{
    let y = alu::sign_extended(x, 32);
    let low = x % 0x1_0000_0000;
    assert(x as u32 == low && y == if low < 0x8000_0000 {
        low as u64
    } else {
        (low + 0xffff_ffff_0000_0000) as u64
    }) by (bit_vector)
        requires
            y == alu::sign_extended(x, 32),
            low == x % 0x1_0000_0000,
    ;
}

/// Shifts of words.
proof fn lemma_word_shifts(x: u32, k: u32)
    requires
        k < 32,
    ensures
        (x << k) == (x * pow2(k as nat)) % 0x1_0000_0000,
        (x >> k) == x as int / pow2(k as nat) as int,
        alu::signed_value32(((x as i32) >> k) as u32) == word_number(x as int) / pow2(
            k as nat,
        ) as int,
{
    let wide = x as u64;
    let y = wrap(word_number(x as int));
    let p = pow2(k as nat) as int;
    lemma_word(x);
    lemma_shl(wide, k);
    lemma_shr(wide, k);
    lemma_shr(y, k);
    let shifted = ((x as i32) >> k) as u32;
    assert((x << k) as u64 == (wide << k) % 0x1_0000_0000 && (x >> k) as u64 == wide >> k
        && alu::sign_extended(shifted as u64, 32) == ((y as i64) >> k) as u64) by (bit_vector)
        requires
            k < 32,
            wide == x as u64,
            y == alu::sign_extended(x as u64, 32),
            shifted == ((x as i32) >> k) as u32,
    ;
    lemma_word(shifted);
    let a = x * pow2(k as nat);
    assert(wrap(a) as int % 0x1_0000_0000 == a % 0x1_0000_0000);
    let q = word_number(x as int) / p;
    assert(number(y) == word_number(x as int));
    vstd::arithmetic::power2::lemma_pow2_pos(k as nat);
    assert(-0x8000_0000 <= q < 0x8000_0000) by (nonlinear_arith)
        requires
            p > 0,
            q == word_number(x as int) / p,
            -0x8000_0000 <= word_number(x as int) < 0x8000_0000,
    ;
    assert(wrap(q) == wrap(word_number(shifted as int)));
}

proof fn lemma_word_turns(x: u32, k: u32)
    requires
        k < 32,
    ensures
        alu::rotated_left32(x, k) == (x * pow2(k as nat)) % 0x1_0000_0000 + x as int / pow2(
            (32 - k) as nat,
        ) as int,
        alu::rotated_right32(x, k) == x as int / pow2(k as nat) as int + (x * pow2(
            (32 - k) as nat,
        )) % 0x1_0000_0000,
{
    vstd::arithmetic::power2::lemma2_to64();
    if k == 0 {
        assert(x * 1 == x) by (nonlinear_arith);
        assert(pow2(k as nat) == 1);
        let whole = pow2((32 - k) as nat) as int;
        assert(whole == 0x1_0000_0000);
        vstd::arithmetic::div_mod::lemma_mod_multiples_basic(x as int, whole);
        vstd::arithmetic::div_mod::lemma_div_basics(x as int);
        let one = pow2(k as nat) as int;
        assert(x as int / one == x) by {
            assert(one == 1);
        }
        assert(x as int / whole == 0);
    } else {
        let j: u32 = (32 - k) as u32;
        lemma_word_shifts(x, k);
        lemma_word_shifts(x, j);
        assert(((x << k) | (x >> j)) == (x << k) + (x >> j) && ((x >> k) | (x << j)) == (x >> k) + (
        x << j)) by (bit_vector)
            requires
                0 < k < 32,
                j == 32 - k,
        ;
    }
}

proof fn lemma_word_quotients(l: u32, r: u32)
    ensures
        word_number(alu::quotient32(l, r) as int) == word_number(
            divided(word_number(l as int), word_number(r as int)),
        ),
        word_number(alu::remainder32(l, r) as int) == word_number(
            left_over(word_number(l as int), word_number(r as int)),
        ),
        r != 0 ==> l / r == divided(l as int, r as int),
        r != 0 ==> l % r == left_over(l as int, r as int),
{
    lemma_word(l);
    lemma_word(r);
    if r != 0 {
        lemma_quotient(word_number(l as int), word_number(r as int));
        lemma_quotient(l as int, r as int);
        let q = l as int / r as int;
        assert(l == r * q + l as int % r as int) by (nonlinear_arith)
            requires
                r > 0,
                q == l as int / r as int,
        ;
    }
}

spec fn agrees_word(w: u32, f7: u32, f3: u32, l: u64, r: u64) -> bool {
    alu::extended_word(alu::word_register_result(w, f3, l as u32, r as u32)) == (
    match word_operation(f7, f3, l, r) {
        Some(value) => Ok::<u64, Trap>(wrap(value)),
        None => Err(
            Trap {
                exception: Exception::IllegalInstruction,
                value: if f7 == 1 {
                    0
                } else {
                    w as u64
                },
            },
        ),
    })
}

proof fn lemma_word_sums(l: u64, r: u64)
    ensures
        word_number((l as u32).wrapping_add(r as u32) as int) == word_number(l + r),
        word_number((l as u32).wrapping_sub(r as u32) as int) == word_number(l - r),
{
    lemma_low(l);
    lemma_low(r);
    vstd::arithmetic::div_mod::lemma_add_mod_noop(l as int, r as int, 0x1_0000_0000);
    vstd::arithmetic::div_mod::lemma_sub_mod_noop(l as int, r as int, 0x1_0000_0000);
    let a = l as u32;
    let b = r as u32;
    assert(a.wrapping_add(b) == (a + b) % 0x1_0000_0000);
    assert(a.wrapping_sub(b) == (a - b) % 0x1_0000_0000);
}

proof fn lemma_word_plain(w: u32, f3: u32, l: u64, r: u64)
    requires
        w >> 25 == 0 || w >> 25 == 0x20,
        f3 < 8,
    ensures
        agrees_word(w, w >> 25, f3, l, r),
{
    lemma_low(l);
    let a = l as u32;
    let b = r as u32;
    if f3 == 0 {
        lemma_word_sums(l, r);
        lemma_word(a.wrapping_add(b));
        lemma_word(a.wrapping_sub(b));
        reveal(word_operation);
    } else if f3 == 1 || f3 == 5 {
        lemma_low(r);
        let k = b % 32;
        assert(k == r % 32);
        lemma_word_shifts(a, k);
        lemma_word(a << k);
        lemma_word(a >> k);
        let shifted = ((a as i32) >> k) as u32;
        lemma_word(shifted);
        let product = a * pow2(k as nat);
        assert(word_number(product % 0x1_0000_0000) == word_number(product));
        reveal(word_operation);
    } else {
        reveal(word_operation);
    }
}

proof fn lemma_word_products(w: u32, f3: u32, l: u64, r: u64)
    requires
        w >> 25 == 1,
        f3 < 8,
    ensures
        agrees_word(w, 1, f3, l, r),
{
    reveal(word_operation);
    lemma_low(l);
    lemma_low(r);
    let a = l as u32;
    let b = r as u32;
    lemma_word_quotients(a, b);
    lemma_word(a.wrapping_mul(b));
    lemma_word(alu::quotient32(a, b));
    lemma_word(alu::remainder32(a, b));
    lemma_word(u32::MAX);
    lemma_word(a);
    if b != 0 {
        lemma_word(a / b);
        lemma_word(a % b);
    }
    assert(word_number(a.wrapping_mul(b) as int) == word_number(a * b));
}

proof fn lemma_word_turned(w: u32, f3: u32, l: u64, r: u64)
    requires
        w >> 25 == 0x30,
        f3 < 8,
    ensures
        agrees_word(w, 0x30, f3, l, r),
{
    reveal(word_operation);
    lemma_low(l);
    lemma_low(r);
    let a = l as u32;
    let k = (r as u32) % 32;
    assert(k == r % 32);
    lemma_word_turns(a, k);
    lemma_word(alu::rotated_left32(a, k));
    lemma_word(alu::rotated_right32(a, k));
}

/// An operation on two words: the low halves of two registers are used, and the
/// result is a number of 32 bits. `ADD.UW`, `SH1ADD.UW`, `SH2ADD.UW`, `SH3ADD.UW`
/// and `ZEXT.H` take a part of one register without a sign.
pub proof fn law_word_operation<B: CpuBus>(c: CpuModel, m: B::Model, pc: u64, w: u32)
    requires
        w % 128 == 0x3b,
    ensures
        ({
            let done = c.execute::<B>(m, pc, w, 4);
            let f7 = funct7(w);
            let f3 = funct3(w);
            let l = c.registers[rs1(w)];
            let r = c.registers[rs2(w)];
            let low = l as int % 0x1_0000_0000;
            if f7 == 4 && f3 == 0 {
                gave(done, pc + 4, rd(w), wrap(low + r), c, m)
            } else if f7 == 4 && f3 == 4 && rs2(w) == 0 {
                gave(done, pc + 4, rd(w), wrap(l as int % 0x1_0000), c, m)
            } else if f7 == 0x10 && f3 == 2 {
                gave(done, pc + 4, rd(w), wrap(2 * low + r), c, m)
            } else if f7 == 0x10 && f3 == 4 {
                gave(done, pc + 4, rd(w), wrap(4 * low + r), c, m)
            } else if f7 == 0x10 && f3 == 6 {
                gave(done, pc + 4, rd(w), wrap(8 * low + r), c, m)
            } else {
                match word_operation(f7 as u32, f3 as u32, l, r) {
                    Some(value) => gave(done, pc + 4, rd(w), wrap(value), c, m),
                    None => done.0 matches Err(trap) && trap.exception
                        == Exception::IllegalInstruction && done.1 == c && done.2 == m,
                }
            }
        }),
{
    lemma_fields(w);
    lemma_add(pc, 4);
    let l = c.registers[rs1(w)];
    let r = c.registers[rs2(w)];
    let f7 = w >> 25;
    let f3 = (w >> 12) % 8;
    let low = l % 0x1_0000_0000;
    lemma_simple(low, r);
    lemma_add_wrapped(low as int, r);
    lemma_add_wrapped(2 * low, r);
    lemma_add_wrapped(4 * low, r);
    lemma_add_wrapped(8 * low, r);
    if f7 == 0 || f7 == 0x20 {
        lemma_word_plain(w, f3, l, r);
    } else if f7 == 1 {
        lemma_word_products(w, f3, l, r);
    } else if f7 == 0x30 {
        lemma_word_turned(w, f3, l, r);
    } else {
        assert(agrees_word(w, f7, f3, l, r)) by {
            reveal(word_operation);
        }
    }
    assert(agrees_word(w, f7, f3, l, r));
}

/// What the forms of word operations with a number in the instruction word do:
/// what the forms with two registers do, with that number in the place of the
/// second register. A shift's number is the low five bits.
pub open spec fn word_immediate_operation(w: u32, l: u64) -> Option<int> {
    let f3 = funct3(w) as u32;
    let code = w as int / 0x10_0000;
    let amount = (code % 32) as u64;
    if f3 == 0 {
        Some(word_number(l + i_offset(w)))
    } else if f3 == 1 && code / 64 == 2 {
        Some((l as int % 0x1_0000_0000) * pow2((code % 64) as nat))
    } else if (f3 == 1 || f3 == 5) && code / 32 == 0 {
        word_operation(0, f3, l, amount)
    } else if f3 == 5 && code / 32 == 0x20 {
        word_operation(0x20, f3, l, amount)
    } else if f3 == 5 && code / 32 == 0x30 {
        word_operation(0x30, f3, l, amount)
    } else {
        None
    }
}

spec fn agrees_word_immediate(w: u32, l: u64) -> bool {
    alu::arithmetic_result(w, 0x1b, 0, (w >> 12) % 8, l, 0) == (match word_immediate_operation(
        w,
        l,
    ) {
        Some(value) => Ok::<u64, Trap>(wrap(value)),
        None => Err(Trap { exception: Exception::IllegalInstruction, value: w as u64 }),
    })
}

proof fn lemma_word_immediate_sum(w: u32, l: u64)
    requires
        funct3(w) == 0,
    ensures
        agrees_word_immediate(w, l),
{
    lemma_fields(w);
    lemma_i_offset(w);
    let a = l as u32;
    let i = alu::i_immediate(w);
    let d = i_offset(w);
    lemma_word_sums(l, i);
    lemma_word(a.wrapping_add(i as u32));
    assert(i as int % 0x1_0000_0000 == d % 0x1_0000_0000);
    vstd::arithmetic::div_mod::lemma_add_mod_noop(l as int, i as int, 0x1_0000_0000);
    vstd::arithmetic::div_mod::lemma_add_mod_noop(l as int, d, 0x1_0000_0000);
    assert(word_number(l + i) == word_number(l + d));
}

proof fn lemma_word_immediate_shift(w: u32, f3: u32, l: u64)
    requires
        f3 == (w >> 12) % 8,
        f3 == 1 || f3 == 5,
        !is_single(w),
    ensures
        agrees_word_immediate(w, l),
{
    lemma_fields(w);
    lemma_low(l);
    let a = l as u32;
    let code = w >> 20;
    let k = code % 32;
    let kind = code / 32;
    assert(k as u64 % 32 == k);
    if f3 == 1 && code / 64 == 2 {
        lemma_shl(l % 0x1_0000_0000, code % 64);
    } else if kind == 0 || kind == 0x20 {
        lemma_word_shifts(a, k);
        lemma_word(a << k);
        lemma_word(a >> k);
        let shifted = ((a as i32) >> k) as u32;
        lemma_word(shifted);
        let product = a * pow2(k as nat);
        assert(word_number(product % 0x1_0000_0000) == word_number(product));
        reveal(word_operation);
    } else if kind == 0x30 {
        lemma_word_turns(a, k);
        lemma_word(alu::rotated_right32(a, k));
        reveal(word_operation);
    }
}

/// An operation on a word and a number in the instruction word.
pub proof fn law_word_immediate_operation<B: CpuBus>(c: CpuModel, m: B::Model, pc: u64, w: u32)
    requires
        w % 128 == 0x1b,
        !is_single(w),
    ensures
        ({
            let done = c.execute::<B>(m, pc, w, 4);
            match word_immediate_operation(w, c.registers[rs1(w)]) {
                Some(value) => gave(done, pc + 4, rd(w), wrap(value), c, m),
                None => refused(done, w, c, m),
            }
        }),
{
    lemma_fields(w);
    lemma_add(pc, 4);
    let l = c.registers[rs1(w)];
    let f3 = (w >> 12) % 8;
    if f3 == 0 {
        lemma_word_immediate_sum(w, l);
    } else if f3 == 1 || f3 == 5 {
        lemma_word_immediate_shift(w, f3, l);
    }
    assert(agrees_word_immediate(w, l));
}

} // verus!
