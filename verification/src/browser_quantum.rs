//! Quanta: runs of the machine between two visits of the page.

use vstd::prelude::*;
use crate::browser::{BrowserController, ControllerModel};
use crate::browser_runtime::{
    BrowserRuntime, PlatformRunResult, QuantumStatistics, RuntimeModel, State, StateModel,
};
use crate::entropy::EntropySource;
use crate::machine::CpuRunExitReason;
use crate::quantum::{
    self, ActiveQuantum, QuantumModel, QuantumOutcome, QuantumStart, GUEST_TICKS_PER_MILLISECOND,
    MAX_TIMER_INTERVALS, MAX_WFI_WAKE_DELAY_GUEST_TICKS, NANOSECONDS_PER_GUEST_TICK,
};
use crate::running::{self, ErrorModel, RuntimeError};

verus! {

/// A host time in guest ticks.
pub open spec fn host_ticks(host_epoch_ms: u64) -> u64 {
    quantum::saturating_product(host_epoch_ms, GUEST_TICKS_PER_MILLISECOND)
}

fn ticks_of(host_epoch_ms: u64) -> (r: u64)
    ensures
        r == host_ticks(host_epoch_ms),
{
    match host_epoch_ms.checked_mul(GUEST_TICKS_PER_MILLISECOND) {
        Some(ticks) => ticks,
        None => u64::MAX,
    }
}

/// The milliseconds from a time to a later one, in ticks, rounded up.
pub open spec fn delay_between(now: u64, due: u64) -> u32 {
    if due <= now {
        0
    } else {
        quantum::capped((due - now + 9_999) / 10_000, u32::MAX as int) as u32
    }
}

fn delay(now: u64, due: u64) -> (r: u32)
    ensures
        r == delay_between(now, due),
{
    if due <= now {
        return 0;
    }
    let ticks: u64 = due - now;
    let milliseconds: u64 = if ticks % 10_000 == 0 {
        ticks / 10_000
    } else {
        ticks / 10_000 + 1
    };
    if milliseconds > 0xffff_ffff {
        0xffff_ffff
    } else {
        milliseconds as u32
    }
}

/// How much work a quantum may still do: cycles count twice, and a run without
/// progress is allowed once.
pub open spec fn work_left(q: QuantumModel) -> nat {
    if q.consumed_cycles < q.budget_cycles {
        (2 * (q.budget_cycles - q.consumed_cycles) + if q.stalled_cpu_runs == 0 {
            1int
        } else {
            0int
        }) as nat
    } else {
        0
    }
}

impl QuantumModel {
    /// The quantum after the time until the next timer has been noted.
    pub open spec fn noted(self, remaining: Option<u64>, diagnostics: bool) -> QuantumModel {
        QuantumModel {
            record_timer_interval: false,
            timer_intervals_guest_ticks: match remaining {
                Some(ticks) if self.record_timer_interval && diagnostics
                    && self.timer_intervals_guest_ticks.len() < MAX_TIMER_INTERVALS =>
                    self.timer_intervals_guest_ticks.push(ticks),
                _ => self.timer_intervals_guest_ticks,
            },
            ..self
        }
    }

    /// The cycles that the next run may take.
    pub open spec fn run_limit(self, remaining: Option<u64>) -> u32 {
        let left = (self.budget_cycles - self.consumed_cycles) as u32;
        match remaining {
            Some(ticks) => if self.deadline_cycles(ticks) < left {
                self.deadline_cycles(ticks)
            } else {
                left
            },
            None => left,
        }
    }

    /// The quantum after a run.
    pub open spec fn counted(self, run: PlatformRunResult, diagnostics: bool) -> QuantumModel {
        QuantumModel {
            consumed_cycles: (self.consumed_cycles + run.consumed_cycles) as u64,
            cpu_runs: if diagnostics {
                quantum::capped(self.cpu_runs + 1, u32::MAX as int) as u32
            } else {
                self.cpu_runs
            },
            stalled_cpu_runs: if run.consumed_cycles == 0 {
                quantum::capped(self.stalled_cpu_runs + 1, u32::MAX as int) as u32
            } else {
                0
            },
            ..self
        }
    }

    /// Whether a run that has been counted shows that the CPU is stuck.
    pub open spec fn stuck(self, run: PlatformRunResult) -> bool {
        self.stalled_cpu_runs > 1 || (run.state == CpuRunExitReason::CycleLimitReached
            && run.consumed_cycles == 0)
    }

    /// The quantum after a run that set a timer.
    pub open spec fn retimed(self, run: PlatformRunResult, diagnostics: bool) -> QuantumModel {
        if run.state == CpuRunExitReason::TimerReprogrammed {
            QuantumModel {
                record_timer_interval: true,
                timer_reprogramming_exits: if diagnostics {
                    quantum::capped(self.timer_reprogramming_exits + 1, u32::MAX as int) as u32
                } else {
                    self.timer_reprogramming_exits
                },
                ..self
            }
        } else {
            self
        }
    }

    /// The quantum of a machine that sleeps until its next timer.
    pub open spec fn asleep(self, remaining: Option<u64>) -> QuantumModel {
        let wait = match remaining {
            Some(ticks) => ticks,
            None => u64::MAX,
        };
        QuantumModel {
            wfi_wake_delay_guest_ticks: if wait < MAX_WFI_WAKE_DELAY_GUEST_TICKS {
                wait
            } else {
                MAX_WFI_WAKE_DELAY_GUEST_TICKS
            },
            terminal: Some(QuantumOutcome::WfiSleep),
            ..self
        }
    }

    /// The quantum whose budget may be used up.
    pub open spec fn budgeted(self) -> QuantumModel {
        if self.consumed_cycles >= self.budget_cycles && self.terminal is None {
            QuantumModel { terminal: Some(QuantumOutcome::BudgetReached), ..self }
        } else {
            self
        }
    }
}

impl<E: EntropySource> RuntimeModel<E> {
    /// Whether the machine waits for an interrupt.
    pub open spec fn sleeps(self) -> bool {
        self.state matches StateModel::Running(running) && running.machine.cpu.control.power_down
    }

    /// What is asked of a machine that has stopped to wait.
    pub open spec fn waited(self, q: QuantumModel, run: PlatformRunResult) -> (
        RuntimeModel<E>,
        QuantumModel,
    ) {
        if run.state == CpuRunExitReason::WfiSleep {
            let (remaining, asked) = self.timer_asked(q.guest_ticks());
            if asked.sleeps() {
                (asked, q.asleep(remaining))
            } else {
                (asked, q)
            }
        } else {
            (self, q)
        }
    }

    /// One turn of a quantum: a run up to the next timer or the budget. Without
    /// a result the quantum goes on.
    pub open spec fn turned(self, input: ControllerModel, q: QuantumModel) -> (
        Option<Result<QuantumOutcome, ErrorModel>>,
        RuntimeModel<E>,
        ControllerModel,
        QuantumModel,
    ) {
        let ticks = q.guest_ticks();
        let (remaining, asked) = self.timer_asked(ticks);
        let noted = q.noted(remaining, self.diagnostics);
        let (r, after, rest) = asked.ran_once(
            input,
            ticks,
            quantum::saturating_product(ticks, NANOSECONDS_PER_GUEST_TICK),
            q.run_limit(remaining),
        );
        match r {
            Err(error) => (Some(Err(error)), after, rest, noted),
            Ok(None) => (
                Some(Ok(QuantumOutcome::VmInactive)),
                after,
                rest,
                QuantumModel { terminal: Some(QuantumOutcome::VmInactive), ..noted },
            ),
            Ok(Some(run)) => {
                let counted = noted.counted(run, self.diagnostics);
                if counted.stuck(run) {
                    (
                        Some(Err(ErrorModel::Machine("CPU made no progress"@))),
                        after,
                        rest,
                        counted,
                    )
                } else {
                    let (end, waited) = after.waited(
                        counted.retimed(run, self.diagnostics),
                        run,
                    );
                    let last = waited.budgeted();
                    if end.out.actions.len() > 0 || run.state
                        == CpuRunExitReason::HostServiceRequested {
                        (Some(Ok(QuantumOutcome::HostServiceRequired)), end, rest, last)
                    } else {
                        match last.terminal {
                            Some(terminal) => (Some(Ok(terminal)), end, rest, last),
                            None => (None, end, rest, last),
                        }
                    }
                }
            },
        }
    }

    /// A quantum run until it needs the page or is over.
    pub open spec fn driven(self, input: ControllerModel, q: QuantumModel) -> (
        Result<QuantumOutcome, ErrorModel>,
        RuntimeModel<E>,
        ControllerModel,
        QuantumModel,
    )
        decreases work_left(q),
    {
        if q.consumed_cycles >= q.budget_cycles {
            (
                Ok(QuantumOutcome::BudgetReached),
                self,
                input,
                QuantumModel { terminal: Some(QuantumOutcome::BudgetReached), ..q },
            )
        } else {
            proof {
                lemma_turn_makes_progress(self, input, q);
            }
            let (r, next, rest, last) = self.turned(input, q);
            match r {
                Some(result) => (result, next, rest, last),
                None => next.driven(rest, last),
            }
        }
    }

    /// A quantum taken up again.
    pub open spec fn resumed(self, input: ControllerModel) -> (
        Result<QuantumOutcome, ErrorModel>,
        RuntimeModel<E>,
        ControllerModel,
    ) {
        match self.active_quantum {
            None => (
                Err(ErrorModel::Machine("advance without an active quantum"@)),
                self,
                input,
            ),
            Some(q) => match q.terminal {
                Some(terminal) => (Ok(terminal), self, input),
                None => {
                    let (r, next, rest, last) = RuntimeModel {
                        active_quantum: None,
                        ..self
                    }.driven(input, q);
                    (r, RuntimeModel { active_quantum: Some(last), ..next }, rest)
                },
            },
        }
    }
}

/// A turn that gives no result leaves less work.
pub proof fn lemma_turn_makes_progress<E: EntropySource>(
    runtime: RuntimeModel<E>,
    input: ControllerModel,
    q: QuantumModel,
)
    requires
        q.consumed_cycles < q.budget_cycles,
    ensures
        runtime.turned(input, q).0 is None ==> work_left(runtime.turned(input, q).3) < work_left(q),
{
}

impl ActiveQuantum {
    fn limit(&self, remaining: Option<u64>) -> (r: u32)
        requires
            self@.valid(),
            self@.consumed_cycles < self@.budget_cycles,
        ensures
            r == self@.run_limit(remaining),
    {
        let left: u32 = (self.budget_cycles as u64 - self.consumed_cycles) as u32;
        match remaining {
            Some(ticks) => {
                let until: u32 = self.cycles_until_deadline(ticks);
                if until < left {
                    until
                } else {
                    left
                }
            },
            None => left,
        }
    }

    fn note(&mut self, remaining: Option<u64>, diagnostics: bool)
        ensures
            final(self)@ == old(self)@.noted(remaining, diagnostics),
    {
        match remaining {
            Some(ticks) => {
                if self.record_timer_interval && diagnostics
                    && self.timer_intervals_guest_ticks.len() < MAX_TIMER_INTERVALS {
                    self.timer_intervals_guest_ticks.push(ticks);
                }
            },
            None => {},
        }
        self.record_timer_interval = false;
    }

    fn count(&mut self, run: PlatformRunResult, diagnostics: bool)
        requires
            old(self)@.consumed_cycles < old(self)@.budget_cycles,
        ensures
            final(self)@ == old(self)@.counted(run, diagnostics),
    {
        self.consumed_cycles = self.consumed_cycles + run.consumed_cycles as u64;
        if diagnostics {
            self.cpu_runs = self.cpu_runs.saturating_add(1);
        }
        self.stalled_cpu_runs = if run.consumed_cycles == 0 {
            self.stalled_cpu_runs.saturating_add(1)
        } else {
            0
        };
    }

    fn retime(&mut self, run: PlatformRunResult, diagnostics: bool)
        ensures
            final(self)@ == old(self)@.retimed(run, diagnostics),
    {
        if run.state == CpuRunExitReason::TimerReprogrammed {
            self.record_timer_interval = true;
            if diagnostics {
                self.timer_reprogramming_exits = self.timer_reprogramming_exits.saturating_add(1);
            }
        }
    }

    fn close(&mut self)
        ensures
            final(self)@ == old(self)@.budgeted(),
    {
        if self.consumed_cycles >= self.budget_cycles as u64 && self.terminal.is_none() {
            self.terminal = Some(QuantumOutcome::BudgetReached);
        }
    }
}

impl<E: EntropySource> BrowserRuntime<E> {
    /// The delay until the guest's clock may go on, or a longer one that is
    /// asked for.
    #[must_use]
    pub fn wake_delay_ms(&self, host_epoch_ms: u64, requested_wakeup_delay_ms: u32) -> (r: u32)
        ensures
            r == self@.wake_delay(host_epoch_ms, requested_wakeup_delay_ms),
    {
        let catch_up: u32 = delay(ticks_of(host_epoch_ms), self.guest_clock_floor_ticks);
        if catch_up > requested_wakeup_delay_ms {
            catch_up
        } else {
            requested_wakeup_delay_ms
        }
    }

    /// Begins a quantum at a host time, with a rate of cycles, a budget of
    /// cycles and a rate of guest ticks.
    #[must_use]
    pub fn begin_quantum(
        &mut self,
        host_epoch_ms: u64,
        cycles_per_host_second: u64,
        budget_cycles: u32,
        guest_ticks_per_host_second: u64,
    ) -> (r: QuantumStart)
        requires
            old(self)@.valid(),
            cycles_per_host_second > 0,
            guest_ticks_per_host_second > 0,
        ensures
            r == old(self)@.quantum_start(host_epoch_ms),
            final(self)@ == (if r == QuantumStart::Ready {
                RuntimeModel {
                    active_quantum: Some(
                        QuantumModel {
                            start_guest_ticks: host_ticks(host_epoch_ms),
                            cycles_per_host_second,
                            guest_ticks_per_host_second,
                            budget_cycles,
                            consumed_cycles: 0,
                            stalled_cpu_runs: 0,
                            cpu_runs: 0,
                            timer_reprogramming_exits: 0,
                            timer_intervals_guest_ticks: Seq::empty(),
                            record_timer_interval: false,
                            wfi_wake_delay_guest_ticks: 0,
                            terminal: None,
                        },
                    ),
                    ..old(self)@
                }
            } else {
                old(self)@
            }),
            final(self)@.valid(),
    {
        if self.active_quantum.is_some() {
            return QuantumStart::AlreadyActive;
        }
        if !self.is_running() {
            return QuantumStart::VmInactive;
        }
        let delay: u32 = self.wake_delay_ms(host_epoch_ms, 0);
        if delay != 0 {
            return QuantumStart::CatchUpDelayMs(delay);
        }
        let intervals: Vec<u64> = Vec::new();
        assert(intervals@ =~= Seq::empty());
        self.active_quantum = Some(
            ActiveQuantum {
                start_guest_ticks: ticks_of(host_epoch_ms),
                cycles_per_host_second,
                guest_ticks_per_host_second,
                budget_cycles,
                consumed_cycles: 0,
                stalled_cpu_runs: 0,
                cpu_runs: 0,
                timer_reprogramming_exits: 0,
                timer_intervals_guest_ticks: intervals,
                record_timer_interval: false,
                wfi_wake_delay_guest_ticks: 0,
                terminal: None,
            },
        );
        QuantumStart::Ready
    }

    fn turn(&mut self, input_queue: &mut BrowserController, quantum: &mut ActiveQuantum) -> (r:
        Option<Result<QuantumOutcome, RuntimeError>>)
        requires
            old(self)@.valid(),
            old(quantum)@.valid(),
            old(quantum)@.consumed_cycles < old(quantum)@.budget_cycles,
        ensures
            ({
                let (result, next, rest, last) = old(self)@.turned(
                    old(input_queue)@,
                    old(quantum)@,
                );
                &&& match r {
                    Some(r) => result == Some(running::outcome(r)),
                    None => result is None,
                }
                &&& final(self)@ == next
                &&& final(input_queue)@ == rest
                &&& final(quantum)@ == last
            }),
            final(self)@.valid(),
            final(quantum)@.valid(),
    {
        let diagnostics: bool = self.diagnostics;
        let ticks: u64 = quantum.guest_ticks();
        let remaining: Option<u64> = self.next_timer_remaining_guest_ticks(ticks);
        let limit: u32 = quantum.limit(remaining);
        quantum.note(remaining, diagnostics);
        let nanoseconds: u64 = match ticks.checked_mul(NANOSECONDS_PER_GUEST_TICK) {
            Some(nanoseconds) => nanoseconds,
            None => u64::MAX,
        };
        let run: PlatformRunResult = match self.run_cpu_once(
            input_queue,
            ticks,
            nanoseconds,
            limit,
        ) {
            Ok(Some(run)) => run,
            Ok(None) => {
                quantum.terminal = Some(QuantumOutcome::VmInactive);
                return Some(Ok(QuantumOutcome::VmInactive));
            },
            Err(error) => {
                return Some(Err(error));
            },
        };
        quantum.count(run, diagnostics);
        if quantum.stalled_cpu_runs > 1 || (run.state == CpuRunExitReason::CycleLimitReached
            && run.consumed_cycles == 0) {
            return Some(Err(RuntimeError::Machine("CPU made no progress".to_owned())));
        }
        quantum.retime(run, diagnostics);
        self.wait(quantum, run);
        quantum.close();
        if self.out.actions.len() > 0 || run.state == CpuRunExitReason::HostServiceRequested {
            return Some(Ok(QuantumOutcome::HostServiceRequired));
        }
        match quantum.terminal {
            Some(terminal) => Some(Ok(terminal)),
            None => None,
        }
    }

    /// Ends the quantum of a machine that sleeps.
    fn wait(&mut self, quantum: &mut ActiveQuantum, run: PlatformRunResult)
        requires
            old(self)@.valid(),
            old(quantum)@.valid(),
        ensures
            (final(self)@, final(quantum)@) == old(self)@.waited(old(quantum)@, run),
            final(self)@.valid(),
            final(quantum)@.valid(),
    {
        if run.state != CpuRunExitReason::WfiSleep {
            return;
        }
        let remaining: Option<u64> = self.next_timer_remaining_guest_ticks(quantum.guest_ticks());
        let asleep: bool = match &self.state {
            State::Running(running) => running.machine.is_wfi_sleeping(),
            _ => false,
        };
        if asleep {
            quantum.wfi_wake_delay_guest_ticks = match remaining {
                Some(left) if left < MAX_WFI_WAKE_DELAY_GUEST_TICKS => left,
                _ => MAX_WFI_WAKE_DELAY_GUEST_TICKS,
            };
            quantum.terminal = Some(QuantumOutcome::WfiSleep);
        }
    }

    fn run_active_quantum(
        &mut self,
        input_queue: &mut BrowserController,
        quantum: &mut ActiveQuantum,
    ) -> (r: Result<QuantumOutcome, RuntimeError>)
        requires
            old(self)@.valid(),
            old(quantum)@.valid(),
            old(quantum)@.terminal is None,
        ensures
            (running::outcome(r), final(self)@, final(input_queue)@, final(quantum)@)
                == old(self)@.driven(old(input_queue)@, old(quantum)@),
            final(self)@.valid(),
            final(quantum)@.valid(),
    {
        let ghost whole = self@.driven(input_queue@, quantum@);
        while quantum.consumed_cycles < quantum.budget_cycles as u64
            invariant
                self@.valid(),
                quantum@.valid(),
                whole == self@.driven(input_queue@, quantum@),
                whole == old(self)@.driven(old(input_queue)@, old(quantum)@),
            decreases work_left(quantum@),
        {
            proof {
                lemma_turn_makes_progress(self@, input_queue@, quantum@);
            }
            match self.turn(input_queue, quantum) {
                Some(result) => {
                    return result;
                },
                None => {},
            }
        }
        quantum.terminal = Some(QuantumOutcome::BudgetReached);
        Ok(QuantumOutcome::BudgetReached)
    }

    /// Runs until browser work or the quantum boundary needs JavaScript.
    ///
    /// # Errors
    /// Returns an error for invalid guest I/O or an execution loop without progress.
    pub fn run_quantum(&mut self, input_queue: &mut BrowserController) -> (r: Result<
        QuantumOutcome,
        RuntimeError,
    >)
        requires
            old(self)@.valid(),
        ensures
            (running::outcome(r), final(self)@, final(input_queue)@) == old(self)@.resumed(
                old(input_queue)@,
            ),
            final(self)@.valid(),
    {
        let mut taken: Option<ActiveQuantum> = None;
        std::mem::swap(&mut taken, &mut self.active_quantum);
        let mut quantum: ActiveQuantum = match taken {
            Some(quantum) => quantum,
            None => {
                return Err(RuntimeError::Machine("advance without an active quantum".to_owned()));
            },
        };
        match quantum.terminal {
            Some(terminal) => {
                self.active_quantum = Some(quantum);
                return Ok(terminal);
            },
            None => {},
        }
        let result: Result<QuantumOutcome, RuntimeError> = self.run_active_quantum(
            input_queue,
            &mut quantum,
        );
        self.active_quantum = Some(quantum);
        result
    }

    /// Ends a completed quantum and returns the delay that its machine asks for.
    ///
    /// # Errors
    /// Returns an error when a quantum is unfinished.
    pub fn finish_quantum(&mut self, host_epoch_ms: u64) -> (r: Result<u32, RuntimeError>)
        requires
            old(self)@.valid(),
        ensures
            final(self)@.valid(),
            match old(self)@.active_quantum {
                None => running::outcome(r) == Err::<u32, ErrorModel>(
                    ErrorModel::Machine("finish without an active quantum"@),
                ) && final(self)@ == old(self)@,
                Some(q) => if q.terminal is None {
                    running::outcome(r) == Err::<u32, ErrorModel>(
                        ErrorModel::Machine("unfinished browser quantum"@),
                    ) && final(self)@ == old(self)@
                } else {
                    &&& r == Ok::<u32, RuntimeError>(finish_delay(q, host_epoch_ms))
                    &&& final(self)@ == (RuntimeModel {
                        active_quantum: None,
                        guest_clock_floor_ticks: q.guest_ticks(),
                        last_quantum: final(self)@.last_quantum,
                        ..old(self)@
                    })
                    &&& if old(self)@.diagnostics {
                        statistics_of(q, final(self)@.last_quantum)
                    } else {
                        final(self)@.last_quantum == old(self)@.last_quantum
                    }
                },
            },
    {
        let mut taken: Option<ActiveQuantum> = None;
        std::mem::swap(&mut taken, &mut self.active_quantum);
        let quantum: ActiveQuantum = match taken {
            Some(quantum) => quantum,
            None => {
                return Err(RuntimeError::Machine("finish without an active quantum".to_owned()));
            },
        };
        if quantum.terminal.is_none() {
            self.active_quantum = Some(quantum);
            return Err(RuntimeError::Machine("unfinished browser quantum".to_owned()));
        }
        let end: u64 = quantum.guest_ticks();
        self.guest_clock_floor_ticks = end;
        if self.diagnostics {
            self.last_quantum = QuantumStatistics {
                cpu_runs: quantum.cpu_runs,
                timer_reprogramming_exits: quantum.timer_reprogramming_exits,
                median_timer_interval_guest_ticks: quantum::median(
                    &quantum.timer_intervals_guest_ticks,
                ),
                consumed_cycles: quantum.consumed_cycles,
            };
        }
        match quantum.terminal {
            Some(QuantumOutcome::WfiSleep) => {
                let due: u64 = end.saturating_add(quantum.wfi_wake_delay_guest_ticks);
                Ok(delay(ticks_of(host_epoch_ms), due))
            },
            _ => Ok(0),
        }
    }

    /// Gives a quantum up; the guest's clock keeps what it has reached.
    pub fn abort_quantum(&mut self)
        requires
            old(self)@.valid(),
        ensures
            final(self)@ == old(self)@.aborted(),
            final(self)@.valid(),
    {
        let mut taken: Option<ActiveQuantum> = None;
        std::mem::swap(&mut taken, &mut self.active_quantum);
        match taken {
            Some(quantum) => {
                let reached: u64 = quantum.guest_ticks();
                if reached > self.guest_clock_floor_ticks {
                    self.guest_clock_floor_ticks = reached;
                }
            },
            None => {},
        }
    }

    /// Switches the counters of quanta on or off.
    ///
    /// # Errors
    /// Returns an error while a quantum is active.
    pub fn configure_quantum(&mut self, diagnostics: bool) -> (r: Result<(), RuntimeError>)
        requires
            old(self)@.valid(),
        ensures
            final(self)@.valid(),
            old(self)@.active_quantum is Some ==> running::outcome(r) == Err::<(), ErrorModel>(
                ErrorModel::InvalidConfig("invalid quantum duration"@),
            ) && final(self)@ == old(self)@,
            old(self)@.active_quantum is None ==> r is Ok && final(self)@ == (RuntimeModel {
                diagnostics,
                ..old(self)@
            }),
    {
        if self.active_quantum.is_some() {
            return Err(RuntimeError::InvalidConfig("invalid quantum duration".to_owned()));
        }
        self.diagnostics = diagnostics;
        Ok(())
    }
}

/// The delay that a finished quantum asks for: until its timer is due, if the
/// machine sleeps.
pub open spec fn finish_delay(q: QuantumModel, host_epoch_ms: u64) -> u32 {
    if q.terminal == Some(QuantumOutcome::WfiSleep) {
        delay_between(
            host_ticks(host_epoch_ms),
            quantum::saturating_sum(q.guest_ticks(), q.wfi_wake_delay_guest_ticks),
        )
    } else {
        0
    }
}

/// Whether statistics are those of a quantum.
pub open spec fn statistics_of(q: QuantumModel, statistics: QuantumStatistics) -> bool {
    &&& statistics.cpu_runs == q.cpu_runs
    &&& statistics.timer_reprogramming_exits == q.timer_reprogramming_exits
    &&& statistics.consumed_cycles == q.consumed_cycles
    &&& quantum::is_median(
        q.timer_intervals_guest_ticks,
        statistics.median_timer_interval_guest_ticks,
    )
}

impl<E: EntropySource> RuntimeModel<E> {
    /// The delay until the guest's clock may go on, or a longer one that is
    /// asked for.
    pub open spec fn wake_delay(self, host_epoch_ms: u64, requested: u32) -> u32 {
        let catch_up = delay_between(host_ticks(host_epoch_ms), self.guest_clock_floor_ticks);
        if catch_up > requested {
            catch_up
        } else {
            requested
        }
    }

    /// Whether a quantum can begin.
    pub open spec fn quantum_start(self, host_epoch_ms: u64) -> QuantumStart {
        if self.active_quantum is Some {
            QuantumStart::AlreadyActive
        } else if self.state !is Running {
            QuantumStart::VmInactive
        } else if self.wake_delay(host_epoch_ms, 0) != 0 {
            QuantumStart::CatchUpDelayMs(self.wake_delay(host_epoch_ms, 0))
        } else {
            QuantumStart::Ready
        }
    }

    /// The runtime without its quantum.
    pub open spec fn aborted(self) -> RuntimeModel<E> {
        match self.active_quantum {
            None => self,
            Some(q) => RuntimeModel {
                active_quantum: None,
                guest_clock_floor_ticks: if q.guest_ticks() > self.guest_clock_floor_ticks {
                    q.guest_ticks()
                } else {
                    self.guest_clock_floor_ticks
                },
                ..self
            },
        }
    }
}

/// A quantum never begins before the time that the guest has already seen, and
/// guest time never falls while it runs.
pub proof fn law_guest_time_never_falls<E: EntropySource>(
    runtime: RuntimeModel<E>,
    host_epoch_ms: u64,
    q: QuantumModel,
    more: u32,
)
    requires
        runtime.quantum_start(host_epoch_ms) == QuantumStart::Ready,
        q.valid(),
        q.start_guest_ticks == host_ticks(host_epoch_ms),
        q.consumed_cycles + more <= u64::MAX,
    ensures
        runtime.guest_clock_floor_ticks <= q.start_guest_ticks,
        q.start_guest_ticks <= q.guest_ticks(),
        q.guest_ticks() <= (QuantumModel {
            consumed_cycles: (q.consumed_cycles + more) as u64,
            ..q
        }).guest_ticks(),
{
    let later = QuantumModel { consumed_cycles: (q.consumed_cycles + more) as u64, ..q };
    let g = q.guest_ticks_per_host_second as int;
    let r = q.cycles_per_host_second as int;
    let a = q.consumed_cycles * g;
    let b = later.consumed_cycles * g;
    assert(0 <= a <= b) by (nonlinear_arith)
        requires
            a == q.consumed_cycles * g,
            b == later.consumed_cycles * g,
            q.consumed_cycles <= later.consumed_cycles,
            g > 0,
    ;
    vstd::arithmetic::div_mod::lemma_div_is_ordered(a, b, r);
    vstd::arithmetic::div_mod::lemma_div_pos_is_pos(a, r);
}

/// A machine that can run goes on at once. One that waits is woken at most a
/// tenth of a second after the host has caught up with the guest's clock.
pub proof fn law_delay_is_bounded(q: QuantumModel, remaining: Option<u64>, host_epoch_ms: u64)
    ensures
        q.terminal != Some(QuantumOutcome::WfiSleep) ==> finish_delay(q, host_epoch_ms) == 0,
        finish_delay(q.asleep(remaining), host_epoch_ms) <= delay_between(
            host_ticks(host_epoch_ms),
            q.guest_ticks(),
        ) + 100,
{
    assert(q.asleep(remaining).guest_ticks() == q.guest_ticks());
}

} // verus!
