//! Numbers as byte sequences.

use vstd::prelude::*;

verus! {

/// The number that `bytes` writes in base 256, least significant byte first.
pub open spec fn le_value(bytes: Seq<u8>) -> nat
    decreases bytes.len(),
{
    if bytes.len() == 0 {
        0
    } else {
        bytes[0] as nat + 256 * le_value(bytes.skip(1))
    }
}

/// The `len` least significant bytes of `value`, least significant first.
pub open spec fn le_bytes(value: nat, len: nat) -> Seq<u8>
    decreases len,
{
    if len == 0 {
        Seq::empty()
    } else {
        seq![(value % 256) as u8] + le_bytes(value / 256, (len - 1) as nat)
    }
}

/// `256^n`.
pub open spec fn pow256(n: nat) -> nat
    decreases n,
{
    if n == 0 {
        1
    } else {
        256 * pow256((n - 1) as nat)
    }
}

pub proof fn lemma_pow256()
    ensures
        pow256(0) == 1,
        pow256(1) == 0x100,
        pow256(2) == 0x1_0000,
        pow256(3) == 0x100_0000,
        pow256(4) == 0x1_0000_0000,
        pow256(5) == 0x100_0000_0000,
        pow256(6) == 0x1_0000_0000_0000,
        pow256(7) == 0x100_0000_0000_0000,
        pow256(8) == 0x1_0000_0000_0000_0000,
{
    reveal_with_fuel(pow256, 9);
}

pub proof fn lemma_pow256_monotonic(a: nat, b: nat)
    requires
        a <= b,
    ensures
        0 < pow256(a) <= pow256(b),
    decreases b,
{
    if a < b {
        lemma_pow256_monotonic(a, (b - 1) as nat);
    } else if a > 0 {
        lemma_pow256_monotonic((a - 1) as nat, (a - 1) as nat);
    }
}

/// A number of `n` bytes lies below `256^n`.
pub proof fn lemma_le_value_bound(bytes: Seq<u8>)
    ensures
        le_value(bytes) < pow256(bytes.len()),
    decreases bytes.len(),
{
    if bytes.len() > 0 {
        lemma_le_value_bound(bytes.skip(1));
    }
}

/// Writing a number that fits and reading it gives the number back.
pub proof fn law_le_value_of_bytes(value: nat, len: nat)
    requires
        value < pow256(len),
    ensures
        le_bytes(value, len).len() == len,
        le_value(le_bytes(value, len)) == value,
    decreases len,
{
    if len > 0 {
        law_le_value_of_bytes(value / 256, (len - 1) as nat);
        assert(le_bytes(value, len).skip(1) =~= le_bytes(value / 256, (len - 1) as nat));
    }
}

/// Reading bytes and writing the number gives the bytes back.
pub proof fn law_le_bytes_of_value(bytes: Seq<u8>)
    ensures
        le_bytes(le_value(bytes), bytes.len()) == bytes,
    decreases bytes.len(),
{
    if bytes.len() > 0 {
        law_le_bytes_of_value(bytes.skip(1));
        let v = le_value(bytes);
        assert(v % 256 == bytes[0] && v / 256 == le_value(bytes.skip(1)));
        assert(seq![bytes[0]] + bytes.skip(1) =~= bytes);
    } else {
        assert(bytes =~= Seq::empty());
    }
}

pub proof fn lemma_le_bytes_len(value: nat, len: nat)
    ensures
        le_bytes(value, len).len() == len,
    decreases len,
{
    if len > 0 {
        lemma_le_bytes_len(value / 256, (len - 1) as nat);
    }
}

/// Appending a more significant byte.
pub proof fn lemma_le_value_push(bytes: Seq<u8>, last: u8)
    ensures
        le_value(bytes.push(last)) == le_value(bytes) + last * pow256(bytes.len()),
    decreases bytes.len(),
{
    if bytes.len() == 0 {
        assert(bytes.push(last).skip(1) =~= Seq::empty());
        assert(bytes.push(last)[0] == last);
        assert(le_value(Seq::<u8>::empty()) == 0);
        assert(last * pow256(0) == last) by (nonlinear_arith)
            requires
                pow256(0) == 1,
        ;
    } else {
        lemma_le_value_push(bytes.skip(1), last);
        assert(bytes.push(last).skip(1) =~= bytes.skip(1).push(last));
        let p = pow256((bytes.len() - 1) as nat) as int;
        let l = last as int;
        assert(256 * (l * p) == l * (256 * p)) by (nonlinear_arith);
    }
}

/// The number stored in `len` bytes from `offset`.
pub fn load_le(data: &[u8], offset: usize, len: usize) -> (r: u64)
    requires
        len <= 8,
        offset + len <= data.len(),
    ensures
        r == le_value(data@.subrange(offset as int, offset + len)),
        r < pow256(len as nat),
{
    let mut value: u64 = 0;
    let mut i: usize = len;
    proof {
        assert(data@.subrange(offset + len, offset + len) =~= Seq::empty());
        lemma_pow256();
    }
    while i > 0
        invariant
            i <= len <= 8,
            offset + len <= data.len(),
            value == le_value(data@.subrange(offset + i, offset + len)),
        decreases i,
    {
        i = i - 1;
        let ghost rest = data@.subrange(offset + i + 1, offset + len);
        proof {
            lemma_le_value_bound(rest);
            lemma_pow256_monotonic((len - i - 1) as nat, 7);
            lemma_pow256();
            let whole = data@.subrange(offset + i, offset + len);
            assert(whole.skip(1) =~= rest);
            assert(whole[0] == data@[offset + i]);
        }
        value = value * 256 + data[offset + i] as u64;
    }
    proof {
        lemma_le_value_bound(data@.subrange(offset as int, offset + len));
    }
    value
}

/// The `len` least significant bytes of `value`.
pub fn to_le(value: u64, len: usize) -> (r: Vec<u8>)
    requires
        len <= 8,
    ensures
        r@ == le_bytes(value as nat, len as nat),
        r@.len() == len,
{
    let mut out: Vec<u8> = Vec::new();
    let mut rest: u64 = value;
    let mut i: usize = 0;
    proof {
        lemma_le_bytes_len(value as nat, len as nat);
        assert(out@ + le_bytes(value as nat, len as nat) =~= le_bytes(value as nat, len as nat));
    }
    while i < len
        invariant
            i <= len,
            out@.len() == i,
            out@ + le_bytes(rest as nat, (len - i) as nat) == le_bytes(value as nat, len as nat),
        decreases len - i,
    {
        let ghost before = out@;
        out.push((rest % 256) as u8);
        proof {
            assert(out@ + le_bytes(rest as nat / 256, (len - i - 1) as nat) =~= before + (
            seq![(rest as nat % 256) as u8] + le_bytes(rest as nat / 256, (len - i - 1) as nat)));
        }
        rest = rest / 256;
        i = i + 1;
    }
    assert(out@ + le_bytes(rest as nat, 0) =~= out@);
    out
}

/// `base` with `bytes` in place of what stood at `offset`.
pub open spec fn spliced(base: Seq<u8>, offset: int, bytes: Seq<u8>) -> Seq<u8> {
    Seq::new(
        base.len(),
        |i: int|
            if offset <= i < offset + bytes.len() {
                bytes[i - offset]
            } else {
                base[i]
            },
    )
}

/// Copies `bytes` to `offset`.
pub fn splice(base: &mut Vec<u8>, offset: usize, bytes: &[u8])
    requires
        offset + bytes.len() <= old(base).len(),
    ensures
        final(base)@ == spliced(old(base)@, offset as int, bytes@),
{
    let ghost start = base@;
    let mut i: usize = 0;
    assert(base@ =~= spliced(start, offset as int, bytes@.take(0)));
    while i < bytes.len()
        invariant
            i <= bytes.len(),
            offset + bytes.len() <= base.len(),
            base@.len() == start.len(),
            base@ == spliced(start, offset as int, bytes@.take(i as int)),
        decreases bytes.len() - i,
    {
        base[offset + i] = bytes[i];
        i = i + 1;
        assert(base@ =~= spliced(start, offset as int, bytes@.take(i as int)));
    }
    assert(bytes@.take(i as int) =~= bytes@);
}

/// Copies `bytes` to `offset` of a slice.
pub fn splice_slice(base: &mut [u8], offset: usize, bytes: &[u8])
    requires
        offset + bytes.len() <= old(base).len(),
    ensures
        final(base)@ == spliced(old(base)@, offset as int, bytes@),
{
    let ghost start = base@;
    let mut i: usize = 0;
    assert(base@ =~= spliced(start, offset as int, bytes@.take(0)));
    while i < bytes.len()
        invariant
            i <= bytes.len(),
            offset + bytes.len() <= base.len(),
            base@.len() == start.len(),
            base@ == spliced(start, offset as int, bytes@.take(i as int)),
        decreases bytes.len() - i,
    {
        base[offset + i] = bytes[i];
        i = i + 1;
        assert(base@ =~= spliced(start, offset as int, bytes@.take(i as int)));
    }
    assert(bytes@.take(i as int) =~= bytes@);
}

/// A copy of `len` bytes from `offset`.
pub fn copy_range(data: &[u8], offset: usize, len: usize) -> (r: Vec<u8>)
    requires
        offset + len <= data.len(),
    ensures
        r@ == data@.subrange(offset as int, offset + len),
{
    let mut out: Vec<u8> = Vec::new();
    let mut i: usize = 0;
    while i < len
        invariant
            i <= len,
            offset + len <= data.len(),
            out@ == data@.subrange(offset as int, offset + i),
        decreases len - i,
    {
        out.push(data[offset + i]);
        i = i + 1;
        assert(out@ =~= data@.subrange(offset as int, offset + i));
    }
    out
}

/// A vector of `len` zero bytes.
pub fn zeros(len: usize) -> (r: Vec<u8>)
    ensures
        r@ == Seq::new(len as nat, |i: int| 0u8),
{
    let mut out: Vec<u8> = Vec::new();
    out.resize(len, 0);
    assert(out@ =~= Seq::new(len as nat, |i: int| 0u8));
    out
}

/// Whether two byte slices hold the same bytes.
pub fn same(a: &[u8], b: &[u8]) -> (r: bool)
    ensures
        r == (a@ == b@),
{
    if a.len() != b.len() {
        return false;
    }
    let mut i: usize = 0;
    while i < a.len()
        invariant
            a.len() == b.len(),
            i <= a.len(),
            a@.take(i as int) == b@.take(i as int),
        decreases a.len() - i,
    {
        if a[i] != b[i] {
            return false;
        }
        i = i + 1;
        assert(a@.take(i as int) =~= b@.take(i as int));
    }
    assert(a@.take(i as int) =~= a@ && b@.take(i as int) =~= b@);
    true
}

/// The lower half of a value.
pub open spec fn low_half(value: u64) -> u32 {
    (value % 0x1_0000_0000) as u32
}

/// The upper half of a value.
pub open spec fn high_half(value: u64) -> u32 {
    (value / 0x1_0000_0000) as u32
}

/// A value with its lower half replaced.
pub open spec fn with_low_half(value: u64, low: u32) -> u64 {
    (value - value % 0x1_0000_0000 + low) as u64
}

/// A value with its upper half replaced.
pub open spec fn with_high_half(value: u64, high: u32) -> u64 {
    (value % 0x1_0000_0000 + high * 0x1_0000_0000) as u64
}

pub fn low_u32(value: u64) -> (r: u32)
    ensures
        r == low_half(value),
{
    (value % 0x1_0000_0000) as u32
}

pub fn high_u32(value: u64) -> (r: u32)
    ensures
        r == high_half(value),
{
    (value / 0x1_0000_0000) as u32
}

pub fn set_low(value: u64, low: u32) -> (r: u64)
    ensures
        r == with_low_half(value, low),
{
    value - value % 0x1_0000_0000 + low as u64
}

pub fn set_high(value: u64, high: u32) -> (r: u64)
    ensures
        r == with_high_half(value, high),
{
    value % 0x1_0000_0000 + high as u64 * 0x1_0000_0000
}

/// A half that was replaced reads back, and the other half stays.
pub proof fn law_halves(value: u64, half: u32)
    ensures
        low_half(with_low_half(value, half)) == half,
        high_half(with_low_half(value, half)) == high_half(value),
        high_half(with_high_half(value, half)) == half,
        low_half(with_high_half(value, half)) == low_half(value),
{
}

/// Numbers of two, four and eight bytes have their least significant byte first.
pub proof fn law_least_significant_byte_first(b: Seq<u8>)
    ensures
        b.len() == 1 ==> le_value(b) == b[0],
        b.len() == 2 ==> le_value(b) == b[0] + 0x100 * b[1],
        b.len() == 4 ==> le_value(b) == b[0] + 0x100 * b[1] + 0x1_0000 * b[2] + 0x100_0000 * b[3],
        b.len() == 8 ==> le_value(b) == b[0] + 0x100 * b[1] + 0x1_0000 * b[2] + 0x100_0000 * b[3]
            + 0x1_0000_0000 * b[4] + 0x100_0000_0000 * b[5] + 0x1_0000_0000_0000 * b[6]
            + 0x100_0000_0000_0000 * b[7],
{
    assert forall|k: int| 0 <= k < b.len() implies le_value(#[trigger] b.skip(k)) == b[k] + 256
        * le_value(b.skip(k + 1)) by {
        assert(b.skip(k).skip(1) =~= b.skip(k + 1));
    }
    assert(b.skip(0) =~= b);
    assert(b.skip(b.len() as int) =~= Seq::empty());
    if b.len() == 2 {
        assert(le_value(b.skip(1)) == b[1] + 256 * le_value(b.skip(2)));
    } else if b.len() == 4 {
        assert(le_value(b.skip(3)) == b[3] + 256 * le_value(b.skip(4)));
        assert(le_value(b.skip(2)) == b[2] + 256 * le_value(b.skip(3)));
        assert(le_value(b.skip(1)) == b[1] + 256 * le_value(b.skip(2)));
    } else if b.len() == 8 {
        assert(le_value(b.skip(7)) == b[7] + 256 * le_value(b.skip(8)));
        assert(le_value(b.skip(6)) == b[6] + 256 * le_value(b.skip(7)));
        assert(le_value(b.skip(5)) == b[5] + 256 * le_value(b.skip(6)));
        assert(le_value(b.skip(4)) == b[4] + 256 * le_value(b.skip(5)));
        assert(le_value(b.skip(3)) == b[3] + 256 * le_value(b.skip(4)));
        assert(le_value(b.skip(2)) == b[2] + 256 * le_value(b.skip(3)));
        assert(le_value(b.skip(1)) == b[1] + 256 * le_value(b.skip(2)));
    }
}

/// The number of two bytes at a place.
pub open spec fn u16_at(d: Seq<u8>, p: int) -> int {
    d[p] + 0x100 * d[p + 1]
}

/// The number of four bytes at a place.
pub open spec fn u32_at(d: Seq<u8>, p: int) -> int {
    u16_at(d, p) + 0x1_0000 * u16_at(d, p + 2)
}

/// The number of eight bytes at a place.
pub open spec fn u64_at(d: Seq<u8>, p: int) -> int {
    u32_at(d, p) + 0x1_0000_0000 * u32_at(d, p + 4)
}

/// Numbers in the middle of other bytes, which follow one another.
pub proof fn lemma_numbers_at(d: Seq<u8>, p: int)
    ensures
        0 <= p && p + 2 <= d.len() ==> le_value(d.subrange(p, p + 2)) == u16_at(d, p),
        0 <= p && p + 4 <= d.len() ==> le_value(d.subrange(p, p + 4)) == u32_at(d, p),
        0 <= p && p + 8 <= d.len() ==> le_value(d.subrange(p, p + 8)) == u64_at(d, p),
{
    if 0 <= p && p + 2 <= d.len() {
        law_least_significant_byte_first(d.subrange(p, p + 2));
    }
    if 0 <= p && p + 4 <= d.len() {
        law_least_significant_byte_first(d.subrange(p, p + 4));
    }
    if 0 <= p && p + 8 <= d.len() {
        law_least_significant_byte_first(d.subrange(p, p + 8));
    }
}

/// A number written at a place is read there.
pub proof fn lemma_written_number(d: Seq<u8>, p: int, value: nat, len: nat)
    requires
        0 <= p,
        p + len <= d.len(),
        d.subrange(p, p + len) == le_bytes(value, len),
        value < pow256(len),
    ensures
        len == 1 ==> d[p] == value,
        len == 2 ==> u16_at(d, p) == value,
        len == 4 ==> u32_at(d, p) == value,
        len == 8 ==> u64_at(d, p) == value,
{
    law_le_value_of_bytes(value, len);
    lemma_numbers_at(d, p);
    if len == 1 {
        law_least_significant_byte_first(d.subrange(p, p + 1));
    }
}

} // verus!
