//! What a guest finds in the registers of the platform's devices, said of bits and
//! numbers.

use vstd::prelude::*;
use crate::bytes;
use crate::platform::{Clint, Finisher, FinishStatus, GoldfishRtc, PlicModel, UartModel};

verus! {

/// Bit `k` of a register of 32 bits.
pub open spec fn line(x: u32, k: u32) -> bool {
    (x as int / vstd::arithmetic::power2::pow2(k as nat) as int) % 2 == 1
}

/// A bit of a byte, by its value.
pub open spec fn flag(x: u8, value: int) -> bool {
    (x as int / value) % 2 == 1
}

pub proof fn lemma_bits(x: u32, k: u32, v: u8, f: u16)
    requires
        k < 32,
    ensures
        (x & (1u32 << k) != 0) == line(x, k),
        (x | 1) % 2 == 1,
        x & !1 == x - x % 2,
        (v & 1 != 0) == flag(v, 1),
        (v & 2 != 0) == flag(v, 2),
        (v & 4 != 0) == flag(v, 4),
        (v & 0x10 != 0) == flag(v, 0x10),
        (v & 0x80 != 0) == flag(v, 0x80),
        v & 0x0f == v % 16,
        v & 0x1f == v % 32,
        v & 0xc9 == 64 * (v / 64) + 8 * (v / 8 % 2) + v % 2,
        (f & 1 == 0) == (f % 2 == 0),
        (f & 2 != 0) == (f as int / 2 % 2 == 1),
        (f & 4 != 0) == (f as int / 4 % 2 == 1),
{
    vstd::bits::lemma_u32_shr_is_div(x, k);
    assert((x & (1u32 << k) != 0) == ((x >> k) % 2 == 1) && (x | 1) % 2 == 1 && x & !1 == x - x % 2
        && (v & 1 != 0) == (v % 2 == 1) && (v & 2 != 0) == (v / 2 % 2 == 1) && (v & 4 != 0) == (v / 4
        % 2 == 1) && (v & 0x10 != 0) == (v / 0x10 % 2 == 1) && (v & 0x80 != 0) == (v / 0x80 % 2
        == 1) && v & 0x0f == v % 16 && v & 0x1f == v % 32 && v & 0xc9 == 64 * (v / 64) + 8 * (v / 8
        % 2) + v % 2 && (f & 1 == 0) == (f % 2 == 0) && (f & 2 != 0) == (f / 2 % 2 == 1) && (f & 4
        != 0) == (f / 4 % 2 == 1)) by (bit_vector)
        requires
            k < 32,
    ;
}

/// The timer's deadline is written in two halves, at 0x4000 and 0x4004, and is the
/// number that they make up; the time is read in two halves, at 0xbff8 and 0xbffc;
/// the software interrupt is the lowest bit at 0.
pub proof fn law_clint(c: Clint, low: u32, high: u32, now: u64)
    ensures
        ({
            let set = c.written(0x4000, low).written(0x4004, high);
            &&& set.deadline == low + 0x1_0000_0000 * high
            &&& set.msip == c.msip
            &&& set.register(0x4000, now) == low
            &&& set.register(0x4004, now) == high
            &&& c.register(0xbff8, now) == now as int % 0x1_0000_0000
            &&& c.register(0xbffc, now) == now as int / 0x1_0000_0000
            &&& c.written(0, low).register(0, now) == low % 2
            &&& c.written(0, low).deadline == c.deadline
        }),
{
    let first = c.written(0x4000, low);
    bytes::law_halves(c.deadline, low);
    bytes::law_halves(first.deadline, high);
}

/// A word whose low half is 0x5555 ends the run well, one whose low half is 0x3333
/// ends it with the code in its high half, and any other does nothing.
pub proof fn law_finisher(f: Finisher, value: u32)
    ensures
        ({
            let low = value as int % 0x1_0000;
            let high = value as int / 0x1_0000;
            &&& low == 0x5555 ==> f.written(0, value).status == FinishStatus::Passed
            &&& low == 0x3333 ==> f.written(0, value).status == FinishStatus::Failed(high as u16)
            &&& low != 0x5555 && low != 0x3333 ==> f.written(0, value) == f
            &&& forall|offset: u32| offset != 0 ==> #[trigger] f.written(offset, value) == f
        }),
{
}

/// Whether a source asks a target for attention: it is pending and enabled there,
/// and its priority is above the target's threshold.
pub open spec fn asks(p: PlicModel, machine: bool, source: u32) -> bool {
    let target = if machine {
        p.machine
    } else {
        p.supervisor
    };
    &&& 1 <= source < 32
    &&& line(p.pending, source)
    &&& line(target.enable, source)
    &&& p.priority[source as int] > target.threshold
}

proof fn lemma_asks(p: PlicModel, machine: bool, source: u32)
    requires
        p.priority.len() == 32,
    ensures
        p.eligible(machine, source) == asks(p, machine, source),
{
    if 1 <= source < 32 {
        let e = p.context(machine).enable;
        lemma_bits(p.pending, source, 0, 0);
        lemma_bits(e, source, 0, 0);
        crate::platform::lemma_common_bit(p.pending, e, source);
    }
}

/// Reading a target's claim register (0x20_0004 of the machine, 0x20_1004 of the
/// supervisor) gives the source that asks with the highest priority, the lowest
/// number among equals, and 0 exactly when none asks.
pub proof fn law_claim(p: PlicModel, machine: bool, other: u32)
    requires
        p.priority.len() == 32,
    ensures
        ({
            let given = p.reads(
                if machine {
                    0x20_0004
                } else {
                    0x20_1004
                },
            ).0;
            &&& given != 0 ==> asks(p, machine, given)
            &&& asks(p, machine, other) ==> given != 0 && (p.priority[other as int]
                < p.priority[given as int] || p.priority[other as int] == p.priority[given as int]
                && given <= other)
        }),
{
    crate::platform::law_best_interrupt(p, machine);
    lemma_asks(p, machine, other);
    lemma_asks(p, machine, p.best(machine));
    if p.eligible(machine, other) {
        assert(p.best(machine) != 0);
    }
}

/// Priorities (three bits each, one word for each source), enabled sources (without
/// source 0) and thresholds (three bits) are read back as written.
pub proof fn law_plic_registers(p: PlicModel, offset: u32, value: u32)
    requires
        p.priority.len() == 32,
    ensures
        4 <= offset < 128 && offset % 4 == 0 ==> p.written(offset, value).reads(offset).0 == value
            % 8 && p.written(offset, value).priority[offset as int / 4] == value % 8,
        p.written(0x2000, value).reads(0x2000).0 == value - value % 2,
        p.written(0x2000, value).machine.enable == value - value % 2,
        p.written(0x2080, value).reads(0x2080).0 == value - value % 2,
        p.written(0x2080, value).supervisor.enable == value - value % 2,
        p.written(0x20_0000, value).machine.threshold == value % 8,
        p.written(0x20_0000, value).reads(0x20_0000).0 == value % 8,
        p.written(0x20_1000, value).supervisor.threshold == value % 8,
        p.written(0x20_1000, value).reads(0x20_1000).0 == value % 8,
        p.reads(0x1000).0 == p.pending,
{
    lemma_bits(value, 0, 0, 0);
}

/// A byte written to a serial port goes out, or comes back in while the port loops
/// back (bit 4 of the modem control); while the divisor is shown (bit 7 of the line
/// control) it sets the divisor instead.
pub proof fn law_serial_output(u: UartModel, value: u8)
    ensures
        ({
            let after = u.written(0, value);
            &&& flag(u.lcr, 0x80) ==> after == (UartModel { dll: value, ..u }) && after.reads(0).0
                == value
            &&& !flag(u.lcr, 0x80) && !flag(u.mcr, 0x10) ==> after.transmitted
                == u.transmitted.push(value) && after.rx == u.rx
            &&& !flag(u.lcr, 0x80) && flag(u.mcr, 0x10) ==> after.transmitted == u.transmitted && (
            u.rx.len() < u.capacity() ==> after.rx == u.rx.push(value))
            &&& flag(u.lcr, 0x80) ==> u.written(1, value).reads(1) == (
                value,
                UartModel { dlm: value, ..u },
            )
        }),
{
    lemma_bits(0, 0, u.lcr, 0);
    lemma_bits(0, 0, u.mcr, 0);
}

/// A serial port that has received bytes hands over the first, and says in its line
/// status that there is one (bit 0), that one was lost (bit 1), and that it can
/// send (bits 5 and 6).
pub proof fn law_serial_input(u: UartModel)
    ensures
        !flag(u.lcr, 0x80) && u.rx.len() > 0 ==> u.reads(0) == (
            u.rx[0],
            UartModel { rx: u.rx.skip(1), ..u },
        ),
        !flag(u.lcr, 0x80) && u.rx.len() == 0 ==> u.reads(0) == (0u8, u),
        u.reads(5).0 == 0x60 + (if u.rx.len() > 0 {
            1int
        } else {
            0
        }) + (if u.overrun {
            2int
        } else {
            0
        }),
        u.capacity() == if flag(u.fcr, 1) {
            16nat
        } else {
            1
        },
{
    lemma_bits(0, 0, u.lcr, 0);
    lemma_bits(0, 0, u.fcr, 0);
    lemma_status(u.rx.len() > 0, u.overrun);
}

proof fn lemma_status(some: bool, lost: bool)
    ensures
        (0x60u8 | (if some {
            1
        } else {
            0
        })) | (if lost {
            2
        } else {
            0
        }) == 0x60 + (if some {
            1int
        } else {
            0
        }) + (if lost {
            2int
        } else {
            0
        }),
{
    crate::platform::lemma_line_status();
}

/// The interrupt of a serial port, in the order of their weight: a lost byte (6),
/// enough received bytes (4), some received bytes (12), room to send (2), none (1);
/// each only where its bit of the enable register is set (bits 2, 0, 0 and 1).
pub proof fn law_serial_interrupt(u: UartModel)
    ensures
        u.pending_id() == if flag(u.ier, 4) && u.overrun {
            6int
        } else if flag(u.ier, 1) && u.rx.len() >= (if !flag(u.fcr, 1) {
            1int
        } else if u.fcr as int / 64 == 0 {
            1
        } else if u.fcr as int / 64 == 1 {
            4
        } else if u.fcr as int / 64 == 2 {
            8
        } else {
            14
        }) {
            4
        } else if flag(u.ier, 1) && u.rx.len() > 0 {
            12
        } else if flag(u.ier, 2) && u.transmitter_pending {
            2
        } else {
            1
        },
{
    lemma_bits(0, 0, u.ier, 0);
    lemma_bits(0, 0, u.fcr, 0);
}

/// The other registers of a serial port are read back as written, as far as their
/// bits exist.
pub proof fn law_serial_registers(u: UartModel, value: u8)
    ensures
        u.written(3, value).reads(3).0 == value,
        u.written(4, value).reads(4).0 == value % 32,
        u.written(7, value).reads(7).0 == value,
        !flag(u.lcr, 0x80) ==> u.written(1, value).reads(1).0 == value % 16,
        u.written(2, value).fcr == 64 * (value / 64) + 8 * (value / 8 % 2) + value % 2,
{
    lemma_bits(0, 0, value, 0);
    lemma_bits(0, 0, u.lcr, 0);
}

/// The clock's time is read low half first, which holds the high half still; it is
/// set in halves; and an alarm that is due, or becomes due, goes off once.
pub proof fn law_clock(r: GoldfishRtc, low: u32, high: u32, now: u64)
    ensures
        ({
            let time = (now + r.time_offset) % 0x1_0000_0000_0000_0000;
            let (first, held) = r.reads(0, now);
            let set = r.written(4, high, now).written(0, low, now);
            let armed = r.written(0x0c, high, now).written(8, low, now);
            let alarm = low + 0x1_0000_0000 * high;
            &&& first == time % 0x1_0000_0000
            &&& forall|later: u64| (#[trigger] held.reads(4, later)).0 == time / 0x1_0000_0000
            &&& (now + set.time_offset) % 0x1_0000_0000_0000_0000 == low + 0x1_0000_0000 * high
            &&& armed.alarm == alarm
            &&& alarm <= time ==> armed.irq_pending && !armed.alarm_running
            &&& alarm > time ==> armed.irq_pending == r.irq_pending && armed.alarm_running
            &&& !r.written(0x14, low, now).alarm_running
            &&& !r.written(0x1c, low, now).irq_pending
            &&& r.written(0x10, low, now).irq_enabled == (low % 2 == 1)
        }),
{
    let first = r.written(0x0c, high, now);
    bytes::law_halves(r.alarm, high);
    bytes::law_halves(first.alarm, low);
    let current = r.time(now);
    assert(current == (now + r.time_offset) % 0x1_0000_0000_0000_0000);
    let step = r.written(4, high, now);
    let wanted = bytes::with_high_half(current, high);
    assert(step.time(now) == wanted);
    bytes::law_halves(current, high);
    let last = r.written(4, high, now).written(0, low, now);
    let end = bytes::with_low_half(wanted, low);
    assert(last.time(now) == end);
    bytes::law_halves(wanted, low);
}

} // verus!
