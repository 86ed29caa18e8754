//! Fetching instructions and running the CPU for a number of cycles.

use vstd::prelude::*;
use crate::cpu::mmu::{read_arena, Access};
use crate::cpu::{
    Control, Cpu, CpuBus, CpuModel, Exception, ExecuteChunk, InstructionOutcome, RunOutcome,
    RunState, Trap,
};
use crate::memory::AccessWidth;

verus! {

/// An instruction and its length.
pub open spec fn decoded_length(word: u64) -> (u32, u64) {
    if word % 4 == 3 {
        (word as u32, 4)
    } else {
        ((word % 0x1_0000) as u32, 2)
    }
}

impl CpuModel {
    /// Where in the arena the instruction at an address lies, if its page is
    /// RAM.
    pub open spec fn execute_chunk<B: CpuBus>(self, m: B::Model, pc: u64) -> (
        Result<Option<ExecuteChunk>, Trap>,
        CpuModel,
        B::Model,
    ) {
        if pc % 2 != 0 {
            (
                Err(Trap { exception: Exception::InstructionAddressMisaligned, value: pc }),
                self,
                m,
            )
        } else {
            let (loaded, cpu, n) = if self.cached(Access::Execute, pc) {
                (Ok(0), self, m)
            } else {
                self.load::<B>(m, pc, AccessWidth::HalfWord, Access::Execute)
            };
            match loaded {
                Err(trap) => (Err(trap), cpu, n),
                Ok(_) => {
                    let entry = cpu.tlb_execute[crate::cpu::mmu::tlb_index(pc)];
                    (
                        Ok(
                            if cpu.cached(Access::Execute, pc) {
                                Some(
                                    ExecuteChunk {
                                        virtual_page: crate::cpu::mmu::page_of(pc),
                                        arena_page: entry.arena_page,
                                        next_offset: (pc % 4096) as u16,
                                    },
                                )
                            } else {
                                None
                            },
                        ),
                        cpu,
                        n,
                    )
                },
            }
        }
    }

    /// The second half of an instruction whose first half is `low`.
    pub open spec fn fetch_rest<B: CpuBus>(self, m: B::Model, pc: u64, low: u64) -> (
        Result<(u32, u64), Trap>,
        CpuModel,
        B::Model,
    ) {
        if low % 4 != 3 {
            (Ok((low as u32, 2)), self, m)
        } else {
            match self.load::<B>(
                m,
                pc.wrapping_add(2),
                AccessWidth::HalfWord,
                Access::Execute,
            ) {
                (Ok(high), cpu, n) => (Ok(((low + high * 0x1_0000) as u32, 4)), cpu, n),
                (Err(trap), cpu, n) => (Err(trap), cpu, n),
            }
        }
    }

    /// Fetches an instruction out of a page of RAM. The last halfword of a page
    /// may be the first half of an instruction that goes on in the next.
    pub open spec fn fetch_chunk<B: CpuBus>(self, m: B::Model, chunk: ExecuteChunk) -> (
        Result<(u32, u64), Trap>,
        CpuModel,
        B::Model,
    ) {
        let pc = (chunk.virtual_page + chunk.next_offset) as u64;
        let offset = chunk.arena_page.0 + chunk.next_offset;
        let refused = crate::cpu::mmu::fault_trap(
            Access::Execute,
            pc,
            crate::cpu::mmu::TranslationFault::Access,
        );
        if chunk.next_offset <= 4092 {
            match crate::cpu::mmu::arena_value(B::arena_of(m), offset, AccessWidth::Word) {
                Some(word) => (Ok(decoded_length(word)), self, m),
                None => (Err(refused), self, m),
            }
        } else {
            match crate::cpu::mmu::arena_value(B::arena_of(m), offset, AccessWidth::HalfWord) {
                Some(low) => self.fetch_rest::<B>(m, pc, low),
                None => (Err(refused), self, m),
            }
        }
    }

    /// Fetches an instruction halfword by halfword.
    pub open spec fn fetch<B: CpuBus>(self, m: B::Model, pc: u64) -> (
        Result<(u32, u64), Trap>,
        CpuModel,
        B::Model,
    ) {
        if pc % 2 != 0 {
            (
                Err(Trap { exception: Exception::InstructionAddressMisaligned, value: pc }),
                self,
                m,
            )
        } else {
            match self.load::<B>(m, pc, AccessWidth::HalfWord, Access::Execute) {
                (Ok(low), cpu, n) => cpu.fetch_rest::<B>(n, pc, low),
                (Err(trap), cpu, n) => (Err(trap), cpu, n),
            }
        }
    }

    /// Fetches the instruction at an address.
    pub open spec fn fetch_next<B: CpuBus>(self, m: B::Model, pc: u64) -> (
        Result<(u32, u64), Trap>,
        CpuModel,
        B::Model,
    ) {
        match self.execute_chunk::<B>(m, pc) {
            (Err(trap), cpu, n) => (Err(trap), cpu, n),
            (Ok(Some(chunk)), cpu, n) => cpu.fetch_chunk::<B>(n, chunk),
            (Ok(None), cpu, n) => cpu.fetch::<B>(n, pc),
        }
    }

    /// Counts cycles and retired instructions, and moves on.
    pub open spec fn committed(self, pc: u64, cycles: u32, retired: u32) -> CpuModel {
        let c = self.control;
        self.with_control(
            Control {
                pc,
                elapsed_cycles: c.elapsed_cycles.wrapping_add(cycles as u64),
                cycle: c.cycle.wrapping_add(cycles as u64),
                instret: c.instret.wrapping_add(retired as u64),
                ..c
            },
        )
    }

    /// One cycle: a pending interrupt is taken, then one instruction is
    /// fetched and executed, or its trap taken.
    pub open spec fn step<B: CpuBus>(self, m: B::Model) -> (CpuModel, B::Model) {
        let start = match self.control.pending_interrupt() {
            Some(interrupt) => self.trapped(interrupt, true, 0),
            None => self,
        };
        let pc = start.control.pc;
        let (fetched, cpu, n) = start.fetch_next::<B>(m, pc);
        let (done, after, o) = match fetched {
            Ok((instruction, length)) => cpu.execute::<B>(n, pc, instruction, length),
            Err(trap) => (Err(trap), cpu, n),
        };
        match done {
            Ok(outcome) => (
                after.committed(
                    outcome.next_pc,
                    1,
                    if outcome.retired {
                        1
                    } else {
                        0
                    },
                ),
                o,
            ),
            Err(trap) => (
                after.committed(pc, 1, 0).trapped(trap.exception.number(), false, trap.value),
                o,
            ),
        }
    }

    pub open spec fn run_state(self) -> RunState {
        if self.control.power_down {
            RunState::Waiting
        } else {
            RunState::Running
        }
    }

    /// Runs for at most `fuel` more cycles. The CPU stops when it waits for an
    /// interrupt, and when the bus reports that an interrupt line changed.
    pub open spec fn run_from<B: CpuBus>(self, m: B::Model, fuel: nat, cycles: nat) -> (
        nat,
        CpuModel,
        B::Model,
    )
        decreases fuel,
    {
        if fuel == 0 || self.control.power_down {
            (cycles, self, m)
        } else {
            let (cpu, n) = self.step::<B>(m);
            let (changed, o) = B::notices(n);
            if changed {
                (cycles + 1, cpu, o)
            } else {
                cpu.run_from::<B>(o, (fuel - 1) as nat, cycles + 1)
            }
        }
    }
}

impl Cpu {
    pub fn execute_chunk<B: CpuBus>(&mut self, bus: &mut B, pc: u64) -> (r: Result<
        Option<ExecuteChunk>,
        Trap,
    >)
        requires
            B::valid(old(bus).model()),
        ensures
            (r, final(self)@, final(bus).model()) == old(self)@.execute_chunk::<B>(
                old(bus).model(),
                pc,
            ),
            B::valid(final(bus).model()),
            r matches Ok(Some(chunk)) ==> chunk.next_offset < 4096 && chunk.virtual_page
                + chunk.next_offset == pc && pc % 2 == 0,
    {
        if pc % 2 != 0 {
            return Err(Trap { exception: Exception::InstructionAddressMisaligned, value: pc });
        }
        let virtual_page: u64 = pc - pc % 4096;
        let index: usize = (pc / 4096 % 256) as usize;
        if self.tlb_execute[index].virtual_page != virtual_page {
            match self.load(bus, pc, AccessWidth::HalfWord, Access::Execute) {
                Ok(_) => {},
                Err(trap) => {
                    return Err(trap);
                },
            }
        }
        let entry = self.tlb_execute[index];
        if entry.virtual_page != virtual_page {
            return Ok(None);
        }
        Ok(
            Some(
                ExecuteChunk {
                    virtual_page,
                    arena_page: entry.arena_page,
                    next_offset: (pc % 4096) as u16,
                },
            ),
        )
    }

    fn fetch_rest<B: CpuBus>(&mut self, bus: &mut B, pc: u64, low: u64) -> (r: Result<
        (u32, u64),
        Trap,
    >)
        requires
            B::valid(old(bus).model()),
            low < 0x1_0000,
            pc % 2 == 0,
        ensures
            (r, final(self)@, final(bus).model()) == old(self)@.fetch_rest::<B>(
                old(bus).model(),
                pc,
                low,
            ),
            B::valid(final(bus).model()),
    {
        if low % 4 != 3 {
            return Ok((low as u32, 2));
        }
        match self.load(bus, pc.wrapping_add(2), AccessWidth::HalfWord, Access::Execute) {
            Ok(high) => Ok(((low as u128 + high as u128 * 0x1_0000) as u32, 4)),
            Err(trap) => Err(trap),
        }
    }

    pub fn fetch_chunk<B: CpuBus>(&mut self, bus: &mut B, chunk: ExecuteChunk) -> (r: Result<
        (u32, u64),
        Trap,
    >)
        requires
            B::valid(old(bus).model()),
            chunk.next_offset < 4096,
            chunk.virtual_page + chunk.next_offset <= u64::MAX,
            (chunk.virtual_page + chunk.next_offset) % 2 == 0,
        ensures
            (r, final(self)@, final(bus).model()) == old(self)@.fetch_chunk::<B>(
                old(bus).model(),
                chunk,
            ),
            B::valid(final(bus).model()),
    {
        let pc: u64 = chunk.virtual_page + chunk.next_offset as u64;
        let offset: u64 = chunk.arena_page.0 as u64 + chunk.next_offset as u64;
        let refused = Trap { exception: Exception::InstructionAccessFault, value: pc };
        if chunk.next_offset <= 4092 {
            return match read_arena(bus.arena(), offset, AccessWidth::Word) {
                Some(word) => {
                    if word % 4 == 3 {
                        Ok((word as u32, 4))
                    } else {
                        Ok(((word % 0x1_0000) as u32, 2))
                    }
                },
                None => Err(refused),
            };
        }
        match read_arena(bus.arena(), offset, AccessWidth::HalfWord) {
            Some(low) => {
                proof {
                    let data = B::arena_of(bus.model()).subrange(offset as int, offset + 2);
                    crate::bytes::lemma_le_value_bound(data);
                    crate::bytes::lemma_pow256();
                }
                self.fetch_rest(bus, pc, low)
            },
            None => Err(refused),
        }
    }

    pub fn fetch<B: CpuBus>(&mut self, bus: &mut B, pc: u64) -> (r: Result<(u32, u64), Trap>)
        requires
            B::valid(old(bus).model()),
        ensures
            (r, final(self)@, final(bus).model()) == old(self)@.fetch::<B>(old(bus).model(), pc),
            B::valid(final(bus).model()),
    {
        if pc % 2 != 0 {
            return Err(Trap { exception: Exception::InstructionAddressMisaligned, value: pc });
        }
        match self.load(bus, pc, AccessWidth::HalfWord, Access::Execute) {
            Ok(low) => {
                if low % 4 != 3 {
                    return Ok((low as u32, 2));
                }
                match self.load(bus, pc.wrapping_add(2), AccessWidth::HalfWord, Access::Execute) {
                    Ok(high) => Ok(((low as u128 + high as u128 * 0x1_0000) as u32, 4)),
                    Err(trap) => Err(trap),
                }
            },
            Err(trap) => Err(trap),
        }
    }

    fn fetch_next<B: CpuBus>(&mut self, bus: &mut B, pc: u64) -> (r: Result<(u32, u64), Trap>)
        requires
            B::valid(old(bus).model()),
        ensures
            (r, final(self)@, final(bus).model()) == old(self)@.fetch_next::<B>(
                old(bus).model(),
                pc,
            ),
            B::valid(final(bus).model()),
    {
        match self.execute_chunk(bus, pc) {
            Ok(Some(chunk)) => self.fetch_chunk(bus, chunk),
            Ok(None) => self.fetch(bus, pc),
            Err(trap) => Err(trap),
        }
    }

    fn commit_run_state(&mut self, pc: u64, cycles: u32, retired: u32)
        ensures
            final(self)@ == old(self)@.committed(pc, cycles, retired),
    {
        self.control.pc = pc;
        self.control.elapsed_cycles = self.control.elapsed_cycles.wrapping_add(cycles as u64);
        self.control.cycle = self.control.cycle.wrapping_add(cycles as u64);
        self.control.instret = self.control.instret.wrapping_add(retired as u64);
    }

    /// Executes one instruction, or takes its trap.
    pub fn step<B: CpuBus>(&mut self, bus: &mut B)
        requires
            B::valid(old(bus).model()),
        ensures
            (final(self)@, final(bus).model()) == old(self)@.step::<B>(old(bus).model()),
            B::valid(final(bus).model()),
    {
        match self.pending_interrupt() {
            Some(interrupt) => self.take_interrupt(interrupt),
            None => {},
        }
        let pc: u64 = self.control.pc;
        let done: Result<InstructionOutcome, Trap> = match self.fetch_next(bus, pc) {
            Ok((instruction, length)) => self.execute(bus, pc, instruction, length),
            Err(trap) => Err(trap),
        };
        match done {
            Ok(outcome) => {
                let retired: u32 = if outcome.retired {
                    1
                } else {
                    0
                };
                self.commit_run_state(outcome.next_pc, 1, retired);
            },
            Err(trap) => {
                self.commit_run_state(pc, 1, 0);
                self.take_exception(trap);
            },
        }
    }

    /// Runs for at most `max_cycles` cycles.
    pub fn run<B: CpuBus>(&mut self, bus: &mut B, max_cycles: u32) -> (r: RunOutcome)
        requires
            B::valid(old(bus).model()),
        ensures
            (r.cycles as nat, final(self)@, final(bus).model()) == old(self)@.run_from::<B>(
                old(bus).model(),
                max_cycles as nat,
                0,
            ),
            r.state == final(self)@.run_state(),
            r.cycles <= max_cycles,
            B::valid(final(bus).model()),
    {
        let mut cycles: u32 = 0;
        let ghost whole = self@.run_from::<B>(bus.model(), max_cycles as nat, 0);
        let mut stopped: bool = false;
        while cycles < max_cycles && !self.control.power_down && !stopped
            invariant
                cycles <= max_cycles,
                B::valid(bus.model()),
                !stopped ==> whole == self@.run_from::<B>(
                    bus.model(),
                    (max_cycles - cycles) as nat,
                    cycles as nat,
                ),
                stopped ==> whole == (cycles as nat, self@, bus.model()),
            decreases
                    max_cycles - cycles,
                    if stopped {
                        0int
                    } else {
                        1
                    },
        {
            self.step(bus);
            cycles = cycles + 1;
            if bus.take_interrupt_state_changed() {
                stopped = true;
            }
        }
        let state: RunState = if self.control.power_down {
            RunState::Waiting
        } else {
            RunState::Running
        };
        RunOutcome { cycles, state }
    }
}

} // verus!
