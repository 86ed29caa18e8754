//! Core devices of the virtual platform: test finisher, CLINT, PLIC, UART and
//! real-time clock.

use vstd::prelude::*;
use crate::bytes;
use crate::cpu::{MIP_MEIP, MIP_SEIP};

verus! {

pub const TEST_FINISHER_FAIL: u32 = 0x3333;
pub const TEST_FINISHER_PASS: u32 = 0x5555;

#[derive(Clone, Copy, Debug, PartialEq, Eq, Structural)]
pub enum FinishStatus {
    Running,
    Passed,
    Failed(u16),
}

impl Default for FinishStatus {
    fn default() -> (r: Self)
        ensures
            r is Running,
    {
        FinishStatus::Running
    }
}

/// A register that ends the machine.
#[derive(Clone, Copy, Debug, PartialEq, Eq, Structural)]
pub struct Finisher {
    pub status: FinishStatus,
}

impl Default for Finisher {
    fn default() -> (r: Self)
        ensures
            r.status is Running,
    {
        Finisher { status: FinishStatus::Running }
    }
}

impl Finisher {
    /// The status after a write: the lower half of the value says how the
    /// machine ended, and the upper half is the code of a failure.
    pub open spec fn written(self, offset: u32, value: u32) -> Finisher {
        if offset != 0 {
            self
        } else if value % 0x1_0000 == TEST_FINISHER_PASS {
            Finisher { status: FinishStatus::Passed }
        } else if value % 0x1_0000 == TEST_FINISHER_FAIL {
            Finisher { status: FinishStatus::Failed((value / 0x1_0000) as u16) }
        } else {
            self
        }
    }

    pub fn write(&mut self, offset: u32, value: u32)
        ensures
            *final(self) == old(self).written(offset, value),
    {
        if offset != 0 {
            return;
        }
        if value % 0x1_0000 == TEST_FINISHER_PASS {
            self.status = FinishStatus::Passed;
        } else if value % 0x1_0000 == TEST_FINISHER_FAIL {
            self.status = FinishStatus::Failed((value / 0x1_0000) as u16);
        }
    }

    #[must_use]
    pub fn status(self) -> (r: FinishStatus)
        ensures
            r == self.status,
    {
        self.status
    }
}

/// The core-local interruptor: one software interrupt and one timer.
#[derive(Clone, Copy, Debug, PartialEq, Eq, Structural)]
pub struct Clint {
    pub msip: bool,
    pub deadline: u64,
}

impl Default for Clint {
    fn default() -> (r: Self)
        ensures
            r == (Clint { msip: false, deadline: u64::MAX }),
    {
        Clint { msip: false, deadline: u64::MAX }
    }
}

impl Clint {
    pub open spec fn register(self, offset: u32, now: u64) -> u32 {
        match offset {
            0 => if self.msip {
                1
            } else {
                0
            },
            0x4000 => bytes::low_half(self.deadline),
            0x4004 => bytes::high_half(self.deadline),
            0xbff8 => bytes::low_half(now),
            0xbffc => bytes::high_half(now),
            _ => 0,
        }
    }

    pub open spec fn written(self, offset: u32, value: u32) -> Clint {
        match offset {
            0 => Clint { msip: value % 2 == 1, ..self },
            0x4000 => Clint { deadline: bytes::with_low_half(self.deadline, value), ..self },
            0x4004 => Clint { deadline: bytes::with_high_half(self.deadline, value), ..self },
            _ => self,
        }
    }

    #[must_use]
    pub fn read(&self, offset: u32, now: u64) -> (r: u32)
        ensures
            r == self.register(offset, now),
    {
        match offset {
            0 => if self.msip {
                1
            } else {
                0
            },
            0x4000 => bytes::low_u32(self.deadline),
            0x4004 => bytes::high_u32(self.deadline),
            0xbff8 => bytes::low_u32(now),
            0xbffc => bytes::high_u32(now),
            _ => 0,
        }
    }

    pub fn write(&mut self, offset: u32, value: u32)
        ensures
            *final(self) == old(self).written(offset, value),
    {
        match offset {
            0 => {
                self.msip = value % 2 == 1;
            },
            0x4000 => {
                self.deadline = bytes::set_low(self.deadline, value);
            },
            0x4004 => {
                self.deadline = bytes::set_high(self.deadline, value);
            },
            _ => {},
        }
    }

    #[must_use]
    pub fn software_interrupt(self) -> (r: bool)
        ensures
            r == self.msip,
    {
        self.msip
    }

    #[must_use]
    pub fn timer_interrupt(self, now: u64) -> (r: bool)
        ensures
            r == (now >= self.deadline),
    {
        now >= self.deadline
    }

    #[must_use]
    pub fn timecmp(self) -> (r: u64)
        ensures
            r == self.deadline,
    {
        self.deadline
    }
}

/// What the PLIC keeps for one interrupt target.
#[derive(Clone, Copy, Debug, PartialEq, Eq, Structural)]
pub struct PlicContext {
    pub claimed: u32,
    pub enable: u32,
    pub threshold: u8,
}

/// The platform-level interrupt controller: 31 sources and two targets, machine
/// and supervisor mode.
#[derive(Clone, Debug)]
pub struct Plic {
    pub level: u32,
    pub pending: u32,
    pub machine: PlicContext,
    pub supervisor: PlicContext,
    pub priority: [u8; 32],
}

/// The model of a PLIC.
#[verifier::ext_equal]
pub struct PlicModel {
    pub level: u32,
    pub pending: u32,
    pub machine: PlicContext,
    pub supervisor: PlicContext,
    pub priority: Seq<u8>,
}

impl View for Plic {
    type V = PlicModel;

    open spec fn view(&self) -> PlicModel {
        PlicModel {
            level: self.level,
            pending: self.pending,
            machine: self.machine,
            supervisor: self.supervisor,
            priority: self.priority@,
        }
    }
}

pub open spec fn irq_mask(irq: u32) -> u32 {
    1u32 << irq
}

impl PlicModel {
    /// The state in which a PLIC starts.
    pub open spec fn initial() -> PlicModel {
        PlicModel {
            level: 0,
            pending: 0,
            machine: PlicContext { claimed: 0, enable: 0, threshold: 0 },
            supervisor: PlicContext { claimed: 0, enable: 0, threshold: 0 },
            priority: Seq::new(32, |i: int| 0u8),
        }
    }

    pub open spec fn context(self, machine: bool) -> PlicContext {
        if machine {
            self.machine
        } else {
            self.supervisor
        }
    }

    pub open spec fn with_context(self, machine: bool, context: PlicContext) -> PlicModel {
        if machine {
            PlicModel { machine: context, ..self }
        } else {
            PlicModel { supervisor: context, ..self }
        }
    }

    /// Whether a target would take an interrupt.
    pub open spec fn eligible(self, machine: bool, irq: u32) -> bool {
        let context = self.context(machine);
        &&& 1 <= irq < 32
        &&& (self.pending & context.enable) & irq_mask(irq) != 0
        &&& self.priority[irq as int] > context.threshold
        &&& self.priority[irq as int] > 0
    }

    /// The first interrupt below `bound` of the highest priority; zero for
    /// none.
    pub open spec fn best_below(self, machine: bool, bound: u32) -> u32
        decreases bound,
    {
        if bound == 0 {
            0
        } else {
            let irq = (bound - 1) as u32;
            let best = self.best_below(machine, irq);
            if self.eligible(machine, irq) && (best == 0 || self.priority[irq as int]
                > self.priority[best as int]) {
                irq
            } else {
                best
            }
        }
    }

    pub open spec fn best(self, machine: bool) -> u32 {
        self.best_below(machine, 32)
    }

    /// A source raises or drops its line. A raised source is pending unless it
    /// is being served.
    pub open spec fn with_irq(self, irq: u8, asserted: bool) -> PlicModel {
        let mask = irq_mask(irq as u32);
        if irq < 1 || irq >= 32 {
            self
        } else if !asserted {
            PlicModel { level: self.level & !mask, ..self }
        } else {
            PlicModel {
                level: self.level | mask,
                pending: if self.machine.claimed & mask == 0 && self.supervisor.claimed & mask
                    == 0 {
                    self.pending | mask
                } else {
                    self.pending
                },
                ..self
            }
        }
    }

    /// The state after a target claims its best interrupt.
    pub open spec fn claimed(self, machine: bool) -> PlicModel {
        let irq = self.best(machine);
        if irq == 0 {
            self
        } else {
            let context = self.context(machine);
            PlicModel { pending: self.pending & !irq_mask(irq), ..self }.with_context(
                machine,
                PlicContext { claimed: context.claimed | irq_mask(irq), ..context },
            )
        }
    }

    /// The state after a target has served an interrupt. A line that is still
    /// raised makes it pending again.
    pub open spec fn completed(self, machine: bool, irq: u32) -> PlicModel {
        let context = self.context(machine);
        let mask = irq_mask(irq);
        if irq < 1 || irq >= 32 || context.claimed & mask == 0 {
            self
        } else {
            PlicModel {
                pending: if self.level & mask != 0 {
                    self.pending | mask
                } else {
                    self.pending
                },
                ..self
            }.with_context(machine, PlicContext { claimed: context.claimed & !mask, ..context })
        }
    }

    /// What a read gives and leaves behind. Reading a claim register claims.
    pub open spec fn reads(self, offset: u32) -> (u32, PlicModel) {
        if offset < 128 && offset % 4 == 0 {
            (self.priority[(offset / 4) as int] as u32, self)
        } else {
            match offset {
                0x1000 => (self.pending, self),
                0x2000 => (self.machine.enable, self),
                0x2080 => (self.supervisor.enable, self),
                0x20_0000 => (self.machine.threshold as u32, self),
                0x20_0004 => (self.best(true), self.claimed(true)),
                0x20_1000 => (self.supervisor.threshold as u32, self),
                0x20_1004 => (self.best(false), self.claimed(false)),
                _ => (0, self),
            }
        }
    }

    pub open spec fn written(self, offset: u32, value: u32) -> PlicModel {
        if 4 <= offset < 128 && offset % 4 == 0 {
            PlicModel {
                priority: self.priority.update((offset / 4) as int, (value % 8) as u8),
                ..self
            }
        } else {
            match offset {
                0x2000 => PlicModel {
                    machine: PlicContext { enable: value & !1, ..self.machine },
                    ..self
                },
                0x2080 => PlicModel {
                    supervisor: PlicContext { enable: value & !1, ..self.supervisor },
                    ..self
                },
                0x20_0000 => PlicModel {
                    machine: PlicContext { threshold: (value % 8) as u8, ..self.machine },
                    ..self
                },
                0x20_0004 => self.completed(true, value),
                0x20_1000 => PlicModel {
                    supervisor: PlicContext { threshold: (value % 8) as u8, ..self.supervisor },
                    ..self
                },
                0x20_1004 => self.completed(false, value),
                _ => self,
            }
        }
    }

    /// The external interrupts that the PLIC raises at the CPU.
    pub open spec fn lines(self) -> u32 {
        let machine = if self.best(true) != 0 {
            MIP_MEIP
        } else {
            0
        };
        if self.best(false) != 0 {
            machine | MIP_SEIP
        } else {
            machine
        }
    }
}

impl Default for Plic {
    fn default() -> (r: Self)
        ensures
            r@ == PlicModel::initial(),
    {
        let empty = PlicContext { claimed: 0, enable: 0, threshold: 0 };
        let r = Plic {
            level: 0,
            pending: 0,
            machine: empty,
            supervisor: empty,
            priority: [0; 32],
        };
        assert(r@ =~= PlicModel::initial());
        r
    }
}

impl Plic {
    fn context(&self, machine: bool) -> (r: PlicContext)
        ensures
            r == self@.context(machine),
    {
        if machine {
            self.machine
        } else {
            self.supervisor
        }
    }

    fn set_context(&mut self, machine: bool, context: PlicContext)
        ensures
            final(self)@ == old(self)@.with_context(machine, context),
    {
        if machine {
            self.machine = context;
        } else {
            self.supervisor = context;
        }
    }

    fn best_irq(&self, machine: bool) -> (r: u32)
        ensures
            r == self@.best(machine),
            r < 32,
    {
        let context: PlicContext = self.context(machine);
        let candidates: u32 = self.pending & context.enable;
        let mut best: u32 = 0;
        let mut irq: u32 = 1;
        assert(self@.best_below(machine, 0) == 0);
        while irq < 32
            invariant
                1 <= irq <= 32,
                best < irq,
                best == self@.best_below(machine, irq),
                context == self@.context(machine),
                candidates == self@.pending & context.enable,
            decreases 32 - irq,
        {
            let priority: u8 = self.priority[irq as usize];
            if candidates & (1u32 << irq) != 0 && priority > 0 && priority > context.threshold && (
            best == 0 || priority > self.priority[best as usize]) {
                best = irq;
            }
            irq = irq + 1;
        }
        best
    }

    pub fn set_irq(&mut self, irq: u8, asserted: bool)
        ensures
            final(self)@ == old(self)@.with_irq(irq, asserted),
    {
        if irq < 1 || irq >= 32 {
            return;
        }
        let mask: u32 = 1u32 << (irq as u32);
        if asserted {
            self.level = self.level | mask;
            if self.machine.claimed & mask == 0 && self.supervisor.claimed & mask == 0 {
                self.pending = self.pending | mask;
            }
        } else {
            self.level = self.level & !mask;
        }
    }

    fn claim(&mut self, machine: bool) -> (r: u32)
        ensures
            r == old(self)@.best(machine),
            final(self)@ == old(self)@.claimed(machine),
    {
        let irq: u32 = self.best_irq(machine);
        if irq != 0 {
            let mask: u32 = 1u32 << irq;
            self.pending = self.pending & !mask;
            let context: PlicContext = self.context(machine);
            self.set_context(machine, PlicContext { claimed: context.claimed | mask, ..context });
        }
        irq
    }

    fn complete(&mut self, machine: bool, irq: u32)
        ensures
            final(self)@ == old(self)@.completed(machine, irq),
    {
        if irq < 1 || irq >= 32 {
            return;
        }
        let mask: u32 = 1u32 << irq;
        let context: PlicContext = self.context(machine);
        if context.claimed & mask == 0 {
            return;
        }
        if self.level & mask != 0 {
            self.pending = self.pending | mask;
        }
        self.set_context(machine, PlicContext { claimed: context.claimed & !mask, ..context });
    }

    pub fn read(&mut self, offset: u32) -> (r: u32)
        ensures
            (r, final(self)@) == old(self)@.reads(offset),
    {
        if offset < 128 && offset % 4 == 0 {
            return self.priority[(offset / 4) as usize] as u32;
        }
        match offset {
            0x1000 => self.pending,
            0x2000 => self.machine.enable,
            0x2080 => self.supervisor.enable,
            0x20_0000 => self.machine.threshold as u32,
            0x20_0004 => self.claim(true),
            0x20_1000 => self.supervisor.threshold as u32,
            0x20_1004 => self.claim(false),
            _ => 0,
        }
    }

    pub fn write(&mut self, offset: u32, value: u32)
        ensures
            final(self)@ == old(self)@.written(offset, value),
    {
        if 4 <= offset && offset < 128 && offset % 4 == 0 {
            self.priority[(offset / 4) as usize] = (value % 8) as u8;
            return;
        }
        match offset {
            0x2000 => {
                self.machine.enable = value & !1;
            },
            0x2080 => {
                self.supervisor.enable = value & !1;
            },
            0x20_0000 => {
                self.machine.threshold = (value % 8) as u8;
            },
            0x20_0004 => self.complete(true, value),
            0x20_1000 => {
                self.supervisor.threshold = (value % 8) as u8;
            },
            0x20_1004 => self.complete(false, value),
            _ => {},
        }
    }

    #[must_use]
    pub fn cpu_interrupts(&self) -> (r: u32)
        ensures
            r == self@.lines(),
    {
        let machine: u32 = if self.best_irq(true) != 0 {
            MIP_MEIP
        } else {
            0
        };
        if self.best_irq(false) != 0 {
            machine | MIP_SEIP
        } else {
            machine
        }
    }
}

proof fn lemma_best_below(p: PlicModel, machine: bool, bound: u32)
    requires
        bound <= 32,
    ensures
        ({
            let best = p.best_below(machine, bound);
            &&& best == 0 ==> forall|irq: u32| irq < bound ==> !p.eligible(machine, irq)
            &&& best != 0 ==> p.eligible(machine, best) && best < bound
            &&& best != 0 ==> forall|irq: u32|
                irq < bound && #[trigger] p.eligible(machine, irq) ==> p.priority[irq as int]
                    < p.priority[best as int] || (p.priority[irq as int] == p.priority[best as int]
                    && best <= irq)
        }),
    decreases bound,
{
    if bound > 0 {
        lemma_best_below(p, machine, (bound - 1) as u32);
    }
}

/// The PLIC offers the interrupt of the highest priority above the threshold,
/// the lowest-numbered one among equals, and offers none only when none is
/// eligible.
pub proof fn law_best_interrupt(p: PlicModel, machine: bool)
    ensures
        p.best(machine) == 0 <==> forall|irq: u32| !p.eligible(machine, irq),
        p.best(machine) != 0 ==> p.eligible(machine, p.best(machine)),
        forall|irq: u32| #[trigger]
            p.eligible(machine, irq) ==> p.priority[irq as int] < p.priority[p.best(machine) as int]
                || (p.priority[irq as int] == p.priority[p.best(machine) as int] && p.best(machine)
                <= irq),
{
    lemma_best_below(p, machine, 32);
}

proof fn lemma_mask_cleared(x: u32, y: u32, irq: u32)
    requires
        irq < 32,
    ensures
        ((x & !irq_mask(irq)) & y) & irq_mask(irq) == 0,
        (x | irq_mask(irq)) & irq_mask(irq) != 0,
{
    lemma_masks(x, y, irq);
}

/// What two words have in common at a bit, and the bits of a line status.
proof fn lemma_masks(x: u32, y: u32, irq: u32)
    requires
        irq < 32,
    ensures
        ((x & !irq_mask(irq)) & y) & irq_mask(irq) == 0,
        (x | irq_mask(irq)) & irq_mask(irq) != 0,
        ((x & y) & irq_mask(irq) != 0) == (x & irq_mask(irq) != 0 && y & irq_mask(irq) != 0),
        (0x60u8 | 1) | 2 == 0x63,
        (0x60u8 | 1) | 0 == 0x61,
        (0x60u8 | 0) | 2 == 0x62,
        (0x60u8 | 0) | 0 == 0x60,
{
    assert(((x & !(1u32 << irq)) & y) & (1u32 << irq) == 0 && (x | (1u32 << irq)) & (1u32 << irq)
        != 0 && ((x & y) & (1u32 << irq) != 0) == (x & (1u32 << irq) != 0 && y & (1u32 << irq) != 0)
        && (0x60u8 | 1) | 2 == 0x63 && (0x60u8 | 1) | 0 == 0x61 && (0x60u8 | 0) | 2 == 0x62 && (
    0x60u8 | 0) | 0 == 0x60) by (bit_vector)
        requires
            irq < 32,
    ;
}

/// A bit that two words have in common is set in both.
pub proof fn lemma_common_bit(x: u32, y: u32, irq: u32)
    requires
        irq < 32,
    ensures
        ((x & y) & irq_mask(irq) != 0) == (x & irq_mask(irq) != 0 && y & irq_mask(irq) != 0),
{
    lemma_masks(x, y, irq);
}

/// The values of a line status.
pub proof fn lemma_line_status()
    ensures
        (0x60u8 | 1) | 2 == 0x63,
        (0x60u8 | 1) | 0 == 0x61,
        (0x60u8 | 0) | 2 == 0x62,
        (0x60u8 | 0) | 0 == 0x60,
{
    lemma_masks(0, 0, 0);
}

/// A claimed interrupt is not offered again, to either target, while it is
/// being served, even when its line is raised once more.
pub proof fn law_claimed_interrupt_waits(p: PlicModel, machine: bool, target: bool)
    requires
        p.best(machine) != 0,
    ensures
        !p.claimed(machine).eligible(target, p.best(machine)),
        !p.claimed(machine).with_irq(p.best(machine) as u8, true).eligible(
            target,
            p.best(machine),
        ),
{
    lemma_best_below(p, machine, 32);
    let irq = p.best(machine);
    let q = p.claimed(machine);
    lemma_mask_cleared(p.pending, q.context(target).enable, irq);
    lemma_mask_cleared(p.context(machine).claimed, 0, irq);
}

/// A 16550 serial port.
#[derive(Clone, Debug)]
pub struct Uart16550 {
    pub dll: u8,
    pub dlm: u8,
    pub ier: u8,
    pub fcr: u8,
    pub lcr: u8,
    pub mcr: u8,
    pub scratch: u8,
    pub rx: [u8; 16],
    pub rx_head: u8,
    pub rx_count: u8,
    pub overrun: bool,
    pub transmitter_pending: bool,
    pub transmitted: Vec<u8>,
}

/// The model of a serial port; `rx` holds the received bytes in order.
#[verifier::ext_equal]
pub struct UartModel {
    pub dll: u8,
    pub dlm: u8,
    pub ier: u8,
    pub fcr: u8,
    pub lcr: u8,
    pub mcr: u8,
    pub scratch: u8,
    pub rx: Seq<u8>,
    pub overrun: bool,
    pub transmitter_pending: bool,
    pub transmitted: Seq<u8>,
}

impl View for Uart16550 {
    type V = UartModel;

    open spec fn view(&self) -> UartModel {
        UartModel {
            dll: self.dll,
            dlm: self.dlm,
            ier: self.ier,
            fcr: self.fcr,
            lcr: self.lcr,
            mcr: self.mcr,
            scratch: self.scratch,
            rx: Seq::new(
                self.rx_count as nat,
                |i: int| self.rx@[(self.rx_head + i) % 16],
            ),
            overrun: self.overrun,
            transmitter_pending: self.transmitter_pending,
            transmitted: self.transmitted@,
        }
    }
}

impl UartModel {
    pub open spec fn initial() -> UartModel {
        UartModel {
            dll: 0,
            dlm: 0,
            ier: 0,
            fcr: 0,
            lcr: 0,
            mcr: 0,
            scratch: 0,
            rx: Seq::empty(),
            overrun: false,
            transmitter_pending: false,
            transmitted: Seq::empty(),
        }
    }

    /// The number of received bytes that the port can hold.
    pub open spec fn capacity(self) -> nat {
        if self.fcr & 1 != 0 {
            16
        } else {
            1
        }
    }

    /// The number of received bytes that raises an interrupt.
    pub open spec fn trigger(self) -> nat {
        if self.fcr & 1 == 0 {
            1
        } else if self.fcr / 64 == 0 {
            1
        } else if self.fcr / 64 == 1 {
            4
        } else if self.fcr / 64 == 2 {
            8
        } else {
            14
        }
    }

    /// The identification of the pending interrupt; 1 for none.
    pub open spec fn pending_id(self) -> u8 {
        if self.ier & 4 != 0 && self.overrun {
            6
        } else if self.ier & 1 != 0 && self.rx.len() >= self.trigger() {
            4
        } else if self.ier & 1 != 0 && self.rx.len() != 0 {
            0x0c
        } else if self.ier & 2 != 0 && self.transmitter_pending {
            2
        } else {
            1
        }
    }

    /// The port after a byte arrives; a full port drops it.
    pub open spec fn pushed(self, value: u8) -> UartModel {
        if self.rx.len() >= self.capacity() {
            UartModel { overrun: true, ..self }
        } else {
            UartModel { rx: self.rx.push(value), ..self }
        }
    }

    pub open spec fn reads(self, offset: u32) -> (u8, UartModel) {
        if offset >= 8 {
            (0, self)
        } else if self.lcr & 0x80 != 0 && offset <= 1 {
            (
                if offset == 0 {
                    self.dll
                } else {
                    self.dlm
                },
                self,
            )
        } else if offset == 0 {
            if self.rx.len() == 0 {
                (0, self)
            } else {
                (self.rx[0], UartModel { rx: self.rx.skip(1), ..self })
            }
        } else if offset == 1 {
            (self.ier, self)
        } else if offset == 2 {
            let id = self.pending_id();
            (
                id | (if self.fcr & 1 != 0 {
                    0xc0
                } else {
                    0
                }),
                if id == 2 {
                    UartModel { transmitter_pending: false, ..self }
                } else {
                    self
                },
            )
        } else if offset == 3 {
            (self.lcr, self)
        } else if offset == 4 {
            (self.mcr, self)
        } else if offset == 5 {
            (
                (0x60u8 | (if self.rx.len() != 0 {
                    1
                } else {
                    0
                })) | (if self.overrun {
                    2
                } else {
                    0
                }),
                UartModel { overrun: false, ..self },
            )
        } else if offset == 6 {
            (
                if self.mcr & 0x10 == 0 {
                    0xb0
                } else {
                    ((self.mcr & 2) << 3) | ((self.mcr & 1) << 5) | ((self.mcr & 4) << 4) | ((
                    self.mcr & 8) << 4)
                },
                self,
            )
        } else {
            (self.scratch, self)
        }
    }

    pub open spec fn written(self, offset: u32, value: u8) -> UartModel {
        if offset >= 8 {
            self
        } else if self.lcr & 0x80 != 0 && offset == 0 {
            UartModel { dll: value, ..self }
        } else if self.lcr & 0x80 != 0 && offset == 1 {
            UartModel { dlm: value, ..self }
        } else if offset == 0 {
            // In loopback the byte comes back.
            let sent = if self.mcr & 0x10 != 0 {
                self.pushed(value)
            } else {
                UartModel { transmitted: self.transmitted.push(value), ..self }
            };
            UartModel { transmitter_pending: true, ..sent }
        } else if offset == 1 {
            let ier = value & 0x0f;
            UartModel {
                ier,
                transmitter_pending: if self.ier & 2 == 0 && ier & 2 != 0 {
                    true
                } else if ier & 2 == 0 {
                    false
                } else {
                    self.transmitter_pending
                },
                ..self
            }
        } else if offset == 2 {
            let fcr = value & 0xc9;
            let clear = if (self.fcr ^ fcr) & 1 != 0 {
                value | 6
            } else {
                value
            };
            UartModel {
                fcr,
                rx: if clear & 2 != 0 {
                    Seq::empty()
                } else {
                    self.rx
                },
                overrun: self.overrun && clear & 2 == 0,
                transmitter_pending: self.transmitter_pending || clear & 4 != 0,
                ..self
            }
        } else if offset == 3 {
            UartModel { lcr: value, ..self }
        } else if offset == 4 {
            UartModel { mcr: value & 0x1f, ..self }
        } else if offset == 7 {
            UartModel { scratch: value, ..self }
        } else {
            self
        }
    }

    /// The number of bytes that the host may hand over.
    pub open spec fn space(self) -> nat {
        if self.mcr & 0x10 != 0 {
            0
        } else {
            (self.capacity() - self.rx.len()) as nat
        }
    }
}

impl UartModel {
    /// The receive buffer holds no more than its capacity.
    pub open spec fn valid(self) -> bool {
        self.rx.len() <= self.capacity()
    }
}

impl Uart16550 {
    fn capacity(&self) -> (r: u8)
        ensures
            r == self@.capacity(),
    {
        if self.fcr & 1 != 0 {
            16
        } else {
            1
        }
    }

    fn trigger(&self) -> (r: u8)
        ensures
            r == self@.trigger(),
    {
        if self.fcr & 1 == 0 {
            1
        } else {
            match self.fcr / 64 {
                0 => 1,
                1 => 4,
                2 => 8,
                _ => 14,
            }
        }
    }

    fn pending_id(&self) -> (r: u8)
        ensures
            r == self@.pending_id(),
    {
        if self.ier & 4 != 0 && self.overrun {
            6
        } else if self.ier & 1 != 0 && self.rx_count >= self.trigger() {
            4
        } else if self.ier & 1 != 0 && self.rx_count != 0 {
            0x0c
        } else if self.ier & 2 != 0 && self.transmitter_pending {
            2
        } else {
            1
        }
    }

    #[must_use]
    pub fn irq(&self) -> (r: bool)
        ensures
            r == (self@.pending_id() != 1),
    {
        self.pending_id() != 1
    }

    pub fn read(&mut self, offset: u32) -> (r: u8)
        requires
            old(self)@.valid(),
        ensures
            (r, final(self)@) == old(self)@.reads(offset),
            final(self)@.valid(),
    {
        if offset >= 8 {
            return 0;
        }
        if self.lcr & 0x80 != 0 && offset <= 1 {
            return if offset == 0 {
                self.dll
            } else {
                self.dlm
            };
        }
        match offset {
            0 => {
                if self.rx_count == 0 {
                    0
                } else {
                    let value: u8 = self.rx[(self.rx_head % 16) as usize];
                    self.rx_head = (self.rx_head % 16 + 1) % 16;
                    self.rx_count = self.rx_count - 1;
                    assert(self@.rx =~= old(self)@.rx.skip(1));
                    value
                }
            },
            1 => self.ier,
            2 => {
                let id: u8 = self.pending_id();
                if id == 2 {
                    self.transmitter_pending = false;
                    assert(self@.rx =~= old(self)@.rx);
                }
                id | if self.fcr & 1 != 0 {
                    0xc0
                } else {
                    0
                }
            },
            3 => self.lcr,
            4 => self.mcr,
            5 => {
                let value: u8 = (0x60u8 | if self.rx_count != 0 {
                    1
                } else {
                    0
                }) | if self.overrun {
                    2
                } else {
                    0
                };
                self.overrun = false;
                assert(self@.rx =~= old(self)@.rx);
                value
            },
            6 => {
                if self.mcr & 0x10 == 0 {
                    0xb0
                } else {
                    ((self.mcr & 2) << 3) | ((self.mcr & 1) << 5) | ((self.mcr & 4) << 4) | ((
                    self.mcr & 8) << 4)
                }
            },
            _ => self.scratch,
        }
    }

    pub fn write(&mut self, offset: u32, value: u8)
        requires
            old(self)@.valid(),
        ensures
            final(self)@ == old(self)@.written(offset, value),
            final(self)@.valid(),
    {
        if offset >= 8 {
            return;
        }
        let ghost before = self@;
        if self.lcr & 0x80 != 0 && offset <= 1 {
            if offset == 0 {
                self.dll = value;
            } else {
                self.dlm = value;
            }
            assert(self@.rx =~= before.rx);
            return;
        }
        match offset {
            0 => {
                if self.mcr & 0x10 != 0 {
                    self.push(value);
                } else {
                    self.transmitted.push(value);
                    assert(self@.rx =~= before.rx);
                }
                let ghost sent = self@;
                self.transmitter_pending = true;
                assert(self@.rx =~= sent.rx);
            },
            1 => {
                let enabled: u8 = value & 0x0f;
                if self.ier & 2 == 0 && enabled & 2 != 0 {
                    self.transmitter_pending = true;
                } else if enabled & 2 == 0 {
                    self.transmitter_pending = false;
                }
                self.ier = enabled;
                assert(self@.rx =~= before.rx);
            },
            2 => {
                let fcr: u8 = value & 0xc9;
                let clear: u8 = if (self.fcr ^ fcr) & 1 != 0 {
                    value | 6
                } else {
                    value
                };
                proof {
                    lemma_fifo_toggle(self.fcr, value);
                }
                self.fcr = fcr;
                if clear & 2 != 0 {
                    self.rx_head = 0;
                    self.rx_count = 0;
                    self.overrun = false;
                    assert(self@.rx =~= Seq::empty());
                }
                if clear & 4 != 0 {
                    self.transmitter_pending = true;
                }
                assert(clear & 2 == 0 ==> self@.rx =~= before.rx);
            },
            3 => {
                self.lcr = value;
                assert(self@.rx =~= before.rx);
            },
            4 => {
                self.mcr = value & 0x1f;
                assert(self@.rx =~= before.rx);
            },
            7 => {
                self.scratch = value;
                assert(self@.rx =~= before.rx);
            },
            _ => {},
        }
    }

    fn push(&mut self, value: u8)
        requires
            old(self)@.valid(),
        ensures
            final(self)@ == old(self)@.pushed(value),
            final(self)@.valid(),
    {
        let ghost before = self@;
        if self.rx_count >= self.capacity() {
            self.overrun = true;
            assert(self@.rx =~= before.rx);
        } else {
            let index: u8 = (self.rx_head % 16 + self.rx_count) % 16;
            self.rx[index as usize] = value;
            self.rx_count = self.rx_count + 1;
            assert(self@.rx =~= before.rx.push(value));
        }
    }

    #[must_use]
    pub fn receive_space(&self) -> (r: usize)
        requires
            self@.valid(),
        ensures
            r == self@.space(),
    {
        if self.mcr & 0x10 != 0 {
            0
        } else {
            (self.capacity() - self.rx_count) as usize
        }
    }

    /// Takes as many bytes as there is space for.
    pub fn receive(&mut self, data: &[u8]) -> (r: usize)
        requires
            old(self)@.valid(),
        ensures
            r == (if data@.len() < old(self)@.space() {
                data@.len()
            } else {
                old(self)@.space()
            }),
            final(self)@ == (UartModel {
                rx: old(self)@.rx + data@.take(r as int),
                ..old(self)@
            }),
            final(self)@.valid(),
    {
        let space: usize = self.receive_space();
        let count: usize = if data.len() < space {
            data.len()
        } else {
            space
        };
        let mut i: usize = 0;
        assert(self@.rx =~= old(self)@.rx + data@.take(0));
        while i < count
            invariant
                i <= count,
                count <= data@.len(),
                count <= old(self)@.space(),
                old(self)@.valid(),
                self@.valid(),
                self@ == (UartModel { rx: old(self)@.rx + data@.take(i as int), ..old(self)@ }),
            decreases count - i,
        {
            self.push(data[i]);
            i = i + 1;
            assert(self@.rx =~= old(self)@.rx + data@.take(i as int));
        }
        count
    }

    pub fn take_transmitted(&mut self) -> (r: Vec<u8>)
        ensures
            r@ == old(self)@.transmitted,
            final(self)@ == (UartModel { transmitted: Seq::empty(), ..old(self)@ }),
            old(self)@.valid() ==> final(self)@.valid(),
    {
        let mut taken: Vec<u8> = Vec::new();
        std::mem::swap(&mut taken, &mut self.transmitted);
        assert(self@.rx =~= old(self)@.rx);
        taken
    }
}

/// Switching the FIFO on or off always clears it.
proof fn lemma_fifo_toggle(before: u8, value: u8)
    ensures
        (before ^ (value & 0xc9)) & 1 != 0 ==> (value | 6) & 2 != 0,
        (before ^ (value & 0xc9)) & 1 == 0 ==> before & 1 == (value & 0xc9) & 1,
{
    assert(((before ^ (value & 0xc9)) & 1 != 0 ==> (value | 6) & 2 != 0) && ((before ^ (value
        & 0xc9)) & 1 == 0 ==> before & 1 == (value & 0xc9) & 1)) by (bit_vector);
}

impl Default for Uart16550 {
    fn default() -> (r: Self)
        ensures
            r@ == UartModel::initial(),
            r@.valid(),
    {
        let r = Uart16550 {
            dll: 0,
            dlm: 0,
            ier: 0,
            fcr: 0,
            lcr: 0,
            mcr: 0,
            scratch: 0,
            rx: [0; 16],
            rx_head: 0,
            rx_count: 0,
            overrun: false,
            transmitter_pending: false,
            transmitted: Vec::new(),
        };
        assert(r@.rx =~= Seq::empty());
        r
    }
}

/// Bytes that the host hands over are read back by the guest in order.
pub proof fn law_serial_input_in_order(u: UartModel, first: u8, rest: Seq<u8>)
    requires
        u.rx =~= seq![first] + rest,
        u.lcr & 0x80 == 0,
    ensures
        u.reads(0).0 == first,
        u.reads(0).1.rx == rest,
{
    assert(u.rx.skip(1) =~= rest);
}

/// The Goldfish real-time clock.
#[derive(Clone, Copy, Debug, PartialEq, Eq, Structural)]
pub struct GoldfishRtc {
    pub time_offset: u64,
    pub latched_time_high: u32,
    pub alarm: u64,
    pub alarm_running: bool,
    pub irq_pending: bool,
    pub irq_enabled: bool,
}

impl Default for GoldfishRtc {
    fn default() -> (r: Self)
        ensures
            r == GoldfishRtc::initial(),
    {
        GoldfishRtc {
            time_offset: 0,
            latched_time_high: 0,
            alarm: 0,
            alarm_running: false,
            irq_pending: false,
            irq_enabled: false,
        }
    }
}

impl GoldfishRtc {
    pub open spec fn initial() -> GoldfishRtc {
        GoldfishRtc {
            time_offset: 0,
            latched_time_high: 0,
            alarm: 0,
            alarm_running: false,
            irq_pending: false,
            irq_enabled: false,
        }
    }

    /// The guest's time, in nanoseconds.
    pub open spec fn time(self, host_nanoseconds: u64) -> u64 {
        host_nanoseconds.wrapping_add(self.time_offset)
    }

    /// The clock after an alarm that is due has gone off.
    pub open spec fn checked(self, host_nanoseconds: u64) -> GoldfishRtc {
        if self.alarm_running && self.alarm <= self.time(host_nanoseconds) {
            GoldfishRtc { alarm_running: false, irq_pending: true, ..self }
        } else {
            self
        }
    }

    pub open spec fn reads(self, offset: u32, host_nanoseconds: u64) -> (u32, GoldfishRtc) {
        let time = self.time(host_nanoseconds);
        match offset {
            0 => (
                bytes::low_half(time),
                GoldfishRtc { latched_time_high: bytes::high_half(time), ..self },
            ),
            4 => (self.latched_time_high, self),
            8 => (bytes::low_half(self.alarm), self),
            0x0c => (bytes::high_half(self.alarm), self),
            0x10 => (
                if self.irq_enabled {
                    1
                } else {
                    0
                },
                self,
            ),
            0x18 => (
                if self.checked(host_nanoseconds).alarm_running {
                    1
                } else {
                    0
                },
                self.checked(host_nanoseconds),
            ),
            _ => (0, self),
        }
    }

    pub open spec fn written(self, offset: u32, value: u32, host_nanoseconds: u64) -> GoldfishRtc {
        let current = self.time(host_nanoseconds);
        match offset {
            0 => GoldfishRtc {
                time_offset: self.time_offset.wrapping_add(
                    bytes::with_low_half(current, value).wrapping_sub(current),
                ),
                ..self
            },
            4 => GoldfishRtc {
                time_offset: self.time_offset.wrapping_add(
                    bytes::with_high_half(current, value).wrapping_sub(current),
                ),
                ..self
            },
            8 => GoldfishRtc {
                alarm: bytes::with_low_half(self.alarm, value),
                alarm_running: true,
                ..self
            }.checked(host_nanoseconds),
            0x0c => GoldfishRtc { alarm: bytes::with_high_half(self.alarm, value), ..self },
            0x10 => GoldfishRtc { irq_enabled: value % 2 == 1, ..self },
            0x14 => GoldfishRtc { alarm_running: false, ..self },
            0x1c => GoldfishRtc { irq_pending: false, ..self },
            _ => self,
        }
    }

    fn count(&self, host_nanoseconds: u64) -> (r: u64)
        ensures
            r == self.time(host_nanoseconds),
    {
        host_nanoseconds.wrapping_add(self.time_offset)
    }

    fn check_alarm(&mut self, host_nanoseconds: u64)
        ensures
            *final(self) == old(self).checked(host_nanoseconds),
    {
        if self.alarm_running && self.alarm <= self.count(host_nanoseconds) {
            self.alarm_running = false;
            self.irq_pending = true;
        }
    }

    #[must_use]
    pub fn irq(&self) -> (r: bool)
        ensures
            r == (self.irq_pending && self.irq_enabled),
    {
        self.irq_pending && self.irq_enabled
    }

    pub fn read(&mut self, offset: u32, host_nanoseconds: u64) -> (r: u32)
        ensures
            (r, *final(self)) == old(self).reads(offset, host_nanoseconds),
    {
        match offset {
            0 => {
                let time: u64 = self.count(host_nanoseconds);
                self.latched_time_high = bytes::high_u32(time);
                bytes::low_u32(time)
            },
            4 => self.latched_time_high,
            8 => bytes::low_u32(self.alarm),
            0x0c => bytes::high_u32(self.alarm),
            0x10 => if self.irq_enabled {
                1
            } else {
                0
            },
            0x18 => {
                self.check_alarm(host_nanoseconds);
                if self.alarm_running {
                    1
                } else {
                    0
                }
            },
            _ => 0,
        }
    }

    pub fn write(&mut self, offset: u32, value: u32, host_nanoseconds: u64)
        ensures
            *final(self) == old(self).written(offset, value, host_nanoseconds),
    {
        match offset {
            0 | 4 => {
                let current: u64 = self.count(host_nanoseconds);
                let changed: u64 = if offset == 0 {
                    bytes::set_low(current, value)
                } else {
                    bytes::set_high(current, value)
                };
                self.time_offset = self.time_offset.wrapping_add(changed.wrapping_sub(current));
            },
            8 => {
                self.alarm = bytes::set_low(self.alarm, value);
                self.alarm_running = true;
                self.check_alarm(host_nanoseconds);
            },
            0x0c => {
                self.alarm = bytes::set_high(self.alarm, value);
            },
            0x10 => {
                self.irq_enabled = value % 2 == 1;
            },
            0x14 => {
                self.alarm_running = false;
            },
            0x1c => {
                self.irq_pending = false;
            },
            _ => {},
        }
    }

    /// The delay until the alarm, if that comes sooner.
    #[must_use]
    pub fn limit_delay_ms(&mut self, delay_ms: u32, host_nanoseconds: u64) -> (r: u32)
        ensures
            *final(self) == old(self).checked(host_nanoseconds),
            r == (if final(self).alarm_running {
                let until = (final(self).alarm - final(self).time(host_nanoseconds)) / 1_000_000;
                if until < delay_ms {
                    until
                } else {
                    delay_ms as int
                }
            } else {
                delay_ms as int
            }),
    {
        self.check_alarm(host_nanoseconds);
        if !self.alarm_running {
            return delay_ms;
        }
        let until: u64 = (self.alarm - self.count(host_nanoseconds)) / 1_000_000;
        if until < delay_ms as u64 {
            until as u32
        } else {
            delay_ms
        }
    }
}

/// Setting a half of the clock makes the clock show that half at that moment,
/// and leaves the other half as it was.
pub proof fn law_clock_setting(rtc: GoldfishRtc, value: u32, host_nanoseconds: u64)
    ensures
        rtc.written(0, value, host_nanoseconds).time(host_nanoseconds) == bytes::with_low_half(
            rtc.time(host_nanoseconds),
            value,
        ),
        rtc.written(4, value, host_nanoseconds).time(host_nanoseconds) == bytes::with_high_half(
            rtc.time(host_nanoseconds),
            value,
        ),
{
}

/// An alarm that is due raises the interrupt once and stops.
pub proof fn law_alarm_goes_off(rtc: GoldfishRtc, host_nanoseconds: u64)
    requires
        rtc.alarm_running,
        rtc.alarm <= rtc.time(host_nanoseconds),
    ensures
        rtc.checked(host_nanoseconds).irq_pending,
        !rtc.checked(host_nanoseconds).alarm_running,
        rtc.checked(host_nanoseconds).checked(host_nanoseconds) == rtc.checked(host_nanoseconds),
{
}

} // verus!
