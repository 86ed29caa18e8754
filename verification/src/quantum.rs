//! Guest time over one bounded run of the CPU.

use vstd::prelude::*;
use vstd::arithmetic::power2::pow2;

verus! {

pub const GUEST_TICKS_PER_MILLISECOND: u64 = 10_000;
pub const NANOSECONDS_PER_GUEST_TICK: u64 = 100;
pub const MAX_WFI_WAKE_DELAY_GUEST_TICKS: u64 = 1_000_000;
pub const MAX_TIMER_INTERVALS: usize = 10_000;

#[derive(Clone, Copy, Debug, PartialEq, Eq, Structural)]
pub enum QuantumStart {
    Ready,
    CatchUpDelayMs(u32),
    VmInactive,
    AlreadyActive,
}

#[derive(Clone, Copy, Debug, PartialEq, Eq, Structural)]
pub enum QuantumOutcome {
    HostServiceRequired,
    BudgetReached,
    WfiSleep,
    VmInactive,
}

/// A run of the CPU up to a budget of cycles, in which guest time follows the
/// cycles at a fixed rate.
#[derive(Debug)]
pub struct ActiveQuantum {
    pub start_guest_ticks: u64,
    pub cycles_per_host_second: u64,
    pub guest_ticks_per_host_second: u64,
    pub budget_cycles: u32,
    pub consumed_cycles: u64,
    pub stalled_cpu_runs: u32,
    pub cpu_runs: u32,
    pub timer_reprogramming_exits: u32,
    pub timer_intervals_guest_ticks: Vec<u64>,
    pub record_timer_interval: bool,
    pub wfi_wake_delay_guest_ticks: u64,
    pub terminal: Option<QuantumOutcome>,
}

/// The model of a quantum.
#[verifier::ext_equal]
pub struct QuantumModel {
    pub start_guest_ticks: u64,
    pub cycles_per_host_second: u64,
    pub guest_ticks_per_host_second: u64,
    pub budget_cycles: u32,
    pub consumed_cycles: u64,
    pub stalled_cpu_runs: u32,
    pub cpu_runs: u32,
    pub timer_reprogramming_exits: u32,
    pub timer_intervals_guest_ticks: Seq<u64>,
    pub record_timer_interval: bool,
    pub wfi_wake_delay_guest_ticks: u64,
    pub terminal: Option<QuantumOutcome>,
}

impl View for ActiveQuantum {
    type V = QuantumModel;

    open spec fn view(&self) -> QuantumModel {
        QuantumModel {
            start_guest_ticks: self.start_guest_ticks,
            cycles_per_host_second: self.cycles_per_host_second,
            guest_ticks_per_host_second: self.guest_ticks_per_host_second,
            budget_cycles: self.budget_cycles,
            consumed_cycles: self.consumed_cycles,
            stalled_cpu_runs: self.stalled_cpu_runs,
            cpu_runs: self.cpu_runs,
            timer_reprogramming_exits: self.timer_reprogramming_exits,
            timer_intervals_guest_ticks: self.timer_intervals_guest_ticks@,
            record_timer_interval: self.record_timer_interval,
            wfi_wake_delay_guest_ticks: self.wfi_wake_delay_guest_ticks,
            terminal: self.terminal,
        }
    }
}

/// The smaller of a number and a limit.
pub open spec fn capped(value: int, limit: int) -> int {
    if value < limit {
        value
    } else {
        limit
    }
}

/// A sum that stays in range.
pub open spec fn saturating_sum(a: u64, b: u64) -> u64 {
    capped(a + b, u64::MAX as int) as u64
}

/// A product that stays in range.
pub open spec fn saturating_product(a: u64, b: u64) -> u64 {
    capped(a * b, u64::MAX as int) as u64
}

impl QuantumModel {
    pub open spec fn valid(self) -> bool {
        self.cycles_per_host_second > 0 && self.guest_ticks_per_host_second > 0
    }

    /// The guest ticks since the start after some cycles.
    pub open spec fn ticks_after(self, cycles: int) -> int {
        cycles * self.guest_ticks_per_host_second / self.cycles_per_host_second as int
    }

    /// The guest time.
    pub open spec fn guest_ticks(self) -> u64 {
        saturating_sum(
            self.start_guest_ticks,
            capped(self.ticks_after(self.consumed_cycles as int), u64::MAX as int) as u64,
        )
    }

    /// The first cycle at which a deadline in so many ticks is due.
    pub open spec fn due_cycle(self, remaining_guest_ticks: u64) -> int {
        let offset = self.guest_ticks() - self.start_guest_ticks + remaining_guest_ticks;
        let rate = self.guest_ticks_per_host_second as int;
        let scaled = capped(offset * self.cycles_per_host_second, u128::MAX as int);
        capped(scaled + (rate - 1), u128::MAX as int) / rate
    }

    /// The cycles until a deadline in so many ticks; at least one.
    pub open spec fn deadline_cycles(self, remaining_guest_ticks: u64) -> u32 {
        let more = self.due_cycle(remaining_guest_ticks) - self.consumed_cycles;
        if more < 1 {
            1
        } else {
            capped(more, u32::MAX as int) as u32
        }
    }
}

proof fn lemma_product_fits(a: u64, b: u64)
    ensures
        0 <= a * b <= u128::MAX,
{
    assert(0 <= a * b <= 0xffff_ffff_ffff_ffff * 0xffff_ffff_ffff_ffff) by (nonlinear_arith)
        requires
            0 <= a <= 0xffff_ffff_ffff_ffff,
            0 <= b <= 0xffff_ffff_ffff_ffff,
    ;
}

impl ActiveQuantum {
    pub fn guest_ticks(&self) -> (r: u64)
        requires
            self@.valid(),
        ensures
            r == self@.guest_ticks(),
            r >= self.start_guest_ticks,
    {
        proof {
            lemma_product_fits(self.consumed_cycles, self.guest_ticks_per_host_second);
        }
        let offset: u128 = self.consumed_cycles as u128 * self.guest_ticks_per_host_second as u128
            / self.cycles_per_host_second as u128;
        let ticks: u64 = if offset > u64::MAX as u128 {
            u64::MAX
        } else {
            offset as u64
        };
        self.start_guest_ticks.saturating_add(ticks)
    }

    pub fn cycles_until_deadline(&self, remaining_guest_ticks: u64) -> (r: u32)
        requires
            self@.valid(),
        ensures
            r == self@.deadline_cycles(remaining_guest_ticks),
            r >= 1,
    {
        let passed: u64 = self.guest_ticks() - self.start_guest_ticks;
        let offset: u128 = passed as u128 + remaining_guest_ticks as u128;
        let rate: u128 = self.guest_ticks_per_host_second as u128;
        let scaled: u128 = match offset.checked_mul(self.cycles_per_host_second as u128) {
            Some(scaled) => scaled,
            None => u128::MAX,
        };
        let numerator: u128 = match scaled.checked_add(rate - 1) {
            Some(numerator) => numerator,
            None => u128::MAX,
        };
        proof {
            assert(offset * self.cycles_per_host_second >= 0) by (nonlinear_arith);
        }
        let target: u128 = numerator / rate;
        if target <= self.consumed_cycles as u128 {
            return 1;
        }
        let more: u128 = target - self.consumed_cycles as u128;
        if more > 0xffff_ffff {
            0xffff_ffff
        } else {
            more as u32
        }
    }
}

/// A run of the cycles until a deadline ends at the first cycle at which the
/// deadline is due.
pub proof fn law_deadline_is_met_exactly(q: QuantumModel, remaining_guest_ticks: u64)
    requires
        q.valid(),
        remaining_guest_ticks > 0,
        q.start_guest_ticks + q.ticks_after(q.consumed_cycles as int) <= u64::MAX,
        (q.ticks_after(q.consumed_cycles as int) + remaining_guest_ticks)
            * q.cycles_per_host_second + (q.guest_ticks_per_host_second - 1) <= u128::MAX,
        q.due_cycle(remaining_guest_ticks) - q.consumed_cycles <= u32::MAX,
    ensures
        ({
            let target = q.consumed_cycles + q.deadline_cycles(remaining_guest_ticks);
            let due = q.ticks_after(q.consumed_cycles as int) + remaining_guest_ticks;
            &&& q.ticks_after(target) >= due
            &&& q.ticks_after(target - 1) < due
        }),
{
    let c = q.consumed_cycles as int;
    let g = q.guest_ticks_per_host_second as int;
    let r = q.cycles_per_host_second as int;
    let now = q.ticks_after(c);
    let due = now + remaining_guest_ticks;
    assert(c * g >= 0) by (nonlinear_arith)
        requires
            c >= 0,
            g > 0,
    ;
    vstd::arithmetic::div_mod::lemma_div_pos_is_pos(c * g, r);
    assert(q.guest_ticks() == q.start_guest_ticks + now);
    let n = due * r + (g - 1);
    assert(due * r >= 0) by (nonlinear_arith)
        requires
            due >= 0,
            r > 0,
    ;
    let t = n / g;
    assert(q.due_cycle(remaining_guest_ticks) == t);
    vstd::arithmetic::div_mod::lemma_fundamental_div_mod(n, g);
    vstd::arithmetic::div_mod::lemma_mod_bound(n, g);
    vstd::arithmetic::div_mod::lemma_fundamental_div_mod(c * g, r);
    vstd::arithmetic::div_mod::lemma_mod_bound(c * g, r);
    // The target is the least number of cycles with enough ticks.
    assert(t * g >= due * r && (t - 1) * g < due * r) by (nonlinear_arith)
        requires
            n == g * t + n % g,
            0 <= n % g < g,
            n == due * r + (g - 1),
    ;
    assert(c * g < due * r) by (nonlinear_arith)
        requires
            c * g == r * now + (c * g) % r,
            0 <= (c * g) % r < r,
            due >= now + 1,
    ;
    assert(t > c) by (nonlinear_arith)
        requires
            t * g >= due * r,
            c * g < due * r,
            g > 0,
    ;
    assert(q.deadline_cycles(remaining_guest_ticks) == t - c);
    assert(t * g / r >= due) by {
        vstd::arithmetic::div_mod::lemma_div_is_ordered(due * r, t * g, r);
        vstd::arithmetic::div_mod::lemma_div_by_multiple(due, r);
    }
    assert((t - 1) * g / r < due) by {
        vstd::arithmetic::div_mod::lemma_fundamental_div_mod((t - 1) * g, r);
        vstd::arithmetic::div_mod::lemma_mod_bound((t - 1) * g, r);
        let v = (t - 1) * g / r;
        assert(v < due) by (nonlinear_arith)
            requires
                (t - 1) * g == r * v + ((t - 1) * g) % r,
                0 <= ((t - 1) * g) % r,
                (t - 1) * g < due * r,
                r > 0,
        ;
    }
}

/// The unsigned integer part of a nonnegative binary floating-point number in
/// its bits: 52 bits of fraction below 11 bits of exponent.
pub open spec fn integer_part(bits: u64) -> u64 {
    let exponent = bits / 0x10_0000_0000_0000 % 2048 - 1023;
    let mantissa = bits % 0x10_0000_0000_0000 + 0x10_0000_0000_0000;
    if exponent < 0 {
        0
    } else if exponent >= 64 {
        u64::MAX
    } else if exponent >= 52 {
        (mantissa * pow2((exponent - 52) as nat)) as u64
    } else {
        (mantissa / pow2((52 - exponent) as nat) as int) as u64
    }
}

/// Converts the bits of a rounded nonnegative floating-point number to an
/// integer; numbers that are too large become the largest.
pub fn rounded_positive_integer(bits: u64) -> (r: u64)
    ensures
        r == integer_part(bits),
{
    let exponent: i64 = (bits / 0x10_0000_0000_0000 % 2048) as i64 - 1023;
    if exponent < 0 {
        return 0;
    }
    if exponent >= 64 {
        return u64::MAX;
    }
    let mantissa: u64 = bits % 0x10_0000_0000_0000 + 0x10_0000_0000_0000;
    if exponent >= 52 {
        let shift: u64 = (exponent - 52) as u64;
        let scale: u64 = power(shift);
        proof {
            assert(mantissa * scale <= 0x1f_ffff_ffff_ffff * 2048) by (nonlinear_arith)
                requires
                    0 <= mantissa <= 0x1f_ffff_ffff_ffff,
                    0 <= scale <= 2048,
            ;
        }
        mantissa * scale
    } else {
        let scale: u64 = power((52 - exponent) as u64);
        mantissa / scale
    }
}

fn power(n: u64) -> (r: u64)
    requires
        n <= 52,
    ensures
        r == pow2(n as nat),
        r > 0,
        n <= 11 ==> r <= 2048,
{
    let mut r: u64 = 1;
    let mut i: u64 = 0;
    proof {
        vstd::arithmetic::power2::lemma2_to64();
    }
    while i < n
        invariant
            i <= n <= 52,
            r == pow2(i as nat),
            r > 0,
        decreases n - i,
    {
        proof {
            vstd::arithmetic::power2::lemma_pow2_unfold((i + 1) as nat);
            vstd::arithmetic::power2::lemma2_to64();
            if i < 51 {
                vstd::arithmetic::power2::lemma_pow2_strictly_increases(i as nat, 51);
            }
            vstd::arithmetic::power2::lemma2_to64_rest();
        }
        r = r * 2;
        i = i + 1;
    }
    proof {
        vstd::arithmetic::power2::lemma2_to64();
        if n < 11 {
            vstd::arithmetic::power2::lemma_pow2_strictly_increases(n as nat, 11);
        }
    }
    r
}

/// How many numbers are at most some value.
pub open spec fn count_upto(values: Seq<u64>, limit: u64) -> nat
    decreases values.len(),
{
    if values.len() == 0 {
        0
    } else {
        count_upto(values.drop_last(), limit) + if values.last() <= limit {
            1nat
        } else {
            0
        }
    }
}

/// Whether a number stands in the middle of some others, in order of size: it
/// is the least that more than half of them do not exceed.
pub open spec fn is_median(values: Seq<u64>, value: u64) -> bool {
    if values.len() == 0 {
        value == 0
    } else {
        &&& count_upto(values, value) > values.len() / 2
        &&& value > 0 ==> count_upto(values, (value - 1) as u64) <= values.len() / 2
    }
}

fn upto(values: &Vec<u64>, limit: u64) -> (r: usize)
    ensures
        r == count_upto(values@, limit),
        r <= values@.len(),
{
    let mut count: usize = 0;
    let mut i: usize = 0;
    assert(values@.take(0) =~= Seq::empty());
    while i < values.len()
        invariant
            i <= values@.len(),
            count <= i,
            count == count_upto(values@.take(i as int), limit),
        decreases values@.len() - i,
    {
        assert(values@.take(i + 1).drop_last() =~= values@.take(i as int));
        if values[i] <= limit {
            count = count + 1;
        }
        i = i + 1;
    }
    assert(values@.take(i as int) =~= values@);
    count
}

proof fn lemma_all_upto(values: Seq<u64>)
    ensures
        count_upto(values, u64::MAX) == values.len(),
    decreases values.len(),
{
    if values.len() > 0 {
        lemma_all_upto(values.drop_last());
    }
}

/// The number in the middle of some others in order of size; zero of none.
pub fn median(values: &Vec<u64>) -> (r: u64)
    ensures
        is_median(values@, r),
{
    if values.len() == 0 {
        return 0;
    }
    let half: usize = values.len() / 2;
    let mut low: u64 = 0;
    let mut high: u64 = u64::MAX;
    proof {
        lemma_all_upto(values@);
    }
    while low < high
        invariant
            low <= high,
            half == values@.len() / 2,
            count_upto(values@, high) > half,
            low > 0 ==> count_upto(values@, (low - 1) as u64) <= half,
        decreases high - low,
    {
        let middle: u64 = low + (high - low) / 2;
        if upto(values, middle) > half {
            high = middle;
        } else {
            low = middle + 1;
        }
    }
    low
}

/// Scales a coordinate inside an extent to the range of a tablet.
pub open spec fn scaled_coordinate(value: u32, extent: u32) -> u32 {
    if extent == 0 {
        0
    } else {
        let inside = if value < extent {
            value as int
        } else {
            extent - 1
        };
        (inside * 32_768 / extent as int) as u32
    }
}

pub fn scale_pointer_coordinate(value: u32, extent: u32) -> (r: u32)
    ensures
        r == scaled_coordinate(value, extent),
        r < 32_768,
{
    if extent == 0 {
        return 0;
    }
    let inside: u32 = if value < extent {
        value
    } else {
        extent - 1
    };
    proof {
        let a = inside * 32_768;
        let e = extent as int;
        vstd::arithmetic::div_mod::lemma_fundamental_div_mod(a, e);
        vstd::arithmetic::div_mod::lemma_mod_bound(a, e);
        let q = a / e;
        assert(0 <= q < 32_768) by (nonlinear_arith)
            requires
                a == e * q + a % e,
                0 <= a % e < e,
                0 <= a < e * 32_768,
                e > 0,
        ;
    }
    (inside as u64 * 32_768 / extent as u64) as u32
}

/// A coordinate further right never scales to a smaller one.
pub proof fn law_scaling_keeps_order(a: u32, b: u32, extent: u32)
    requires
        a <= b,
    ensures
        scaled_coordinate(a, extent) <= scaled_coordinate(b, extent),
{
    if extent > 0 {
        let e = extent as int;
        let x = if a < extent {
            a as int
        } else {
            extent - 1
        };
        let y = if b < extent {
            b as int
        } else {
            extent - 1
        };
        vstd::arithmetic::div_mod::lemma_div_is_ordered(x * 32_768, y * 32_768, e);
        vstd::arithmetic::div_mod::lemma_fundamental_div_mod(y * 32_768, e);
        vstd::arithmetic::div_mod::lemma_mod_bound(y * 32_768, e);
        vstd::arithmetic::div_mod::lemma_div_pos_is_pos(x * 32_768, e);
        let q = y * 32_768 / e;
        assert(q < 32_768) by (nonlinear_arith)
            requires
                y * 32_768 == e * q + (y * 32_768) % e,
                0 <= (y * 32_768) % e < e,
                0 <= y < e,
                e > 0,
        ;
    }
}

impl QuantumModel {
    /// The guest ticks that the cycles would take if the guest's clock were not
    /// slowed down.
    pub open spec fn full_speed_ticks(self) -> u64 {
        capped(
            capped(self.consumed_cycles * 10_000_000, u128::MAX as int)
                / self.cycles_per_host_second as int,
            u64::MAX as int,
        ) as u64
    }

    /// By how many of the ticks at full speed a quantum that used up its budget
    /// would have overtaken the host.
    pub open spec fn surplus(self, host_epoch_ms: u64) -> Option<(u64, u64)> {
        let wall = saturating_product(host_epoch_ms, GUEST_TICKS_PER_MILLISECOND);
        let available = if wall > self.start_guest_ticks {
            wall - self.start_guest_ticks
        } else {
            0
        };
        if self.terminal == Some(QuantumOutcome::BudgetReached) && self.full_speed_ticks()
            > available {
            Some(((self.full_speed_ticks() - available) as u64, self.full_speed_ticks()))
        } else {
            None
        }
    }
}

impl ActiveQuantum {
    /// The part of the ticks at full speed by which a quantum that used up its
    /// budget would have overtaken the host: its count, and that of all.
    pub fn required_guest_clock_skew(&self, host_epoch_ms: u64) -> (r: Option<(u64, u64)>)
        requires
            self@.valid(),
        ensures
            r == self@.surplus(host_epoch_ms),
    {
        match self.terminal {
            Some(QuantumOutcome::BudgetReached) => {},
            _ => {
                return None;
            },
        }
        let whole: u128 = self.consumed_cycles as u128 * 10_000_000
            / self.cycles_per_host_second as u128;
        let ticks: u64 = if whole > u64::MAX as u128 {
            u64::MAX
        } else {
            whole as u64
        };
        let wall: u64 = match host_epoch_ms.checked_mul(GUEST_TICKS_PER_MILLISECOND) {
            Some(wall) => wall,
            None => u64::MAX,
        };
        let available: u64 = wall.saturating_sub(self.start_guest_ticks);
        if ticks > available {
            Some((ticks - available, ticks))
        } else {
            None
        }
    }
}

} // verus!
