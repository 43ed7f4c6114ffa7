//! Time keeping: the global millisecond tick incremented from the periodic
//! system-tick interrupt, a microsecond tick provider that folds a 16-bit
//! hardware counter into a 32-bit count across wraparounds, and the busy-wait
//! length computation for microsecond delays. The hardware reads themselves
//! stay on the board; every computation on the values read is here.

use vstd::prelude::*;

verus! {

/// `t + 1` in the tick counter's 32-bit wraparound arithmetic.
pub open spec fn next_tick(t: u32) -> u32 {
    if t == u32::MAX {
        0
    } else {
        (t + 1) as u32
    }
}

/// The global monotonic tick counter, incremented once per system tick.
pub struct TimeProvider {
    tick: u32,
}

impl TimeProvider {
    pub closed spec fn tick(self) -> u32 {
        self.tick
    }

    pub fn new() -> (t: TimeProvider)
        ensures
            t.tick() == 0,
    {
        TimeProvider { tick: 0 }
    }

    /// One system tick has elapsed.
    pub fn increment(&mut self)
        ensures
            final(self).tick() == next_tick(old(self).tick()),
    {
        if self.tick == u32::MAX {
            self.tick = 0;
        } else {
            self.tick = self.tick + 1;
        }
    }

    /// The current tick count.
    pub fn now(&self) -> (t: u32)
        ensures
            t == self.tick(),
    {
        self.tick
    }
}

/// How a raw 16-bit counter reading advances a microsecond count: the
/// distance from the previous reading, assuming at most one wraparound
/// since then. The wrap branch measures against the counter's largest
/// value rather than its modulus, so a reading that crossed the wrap
/// comes out one tick short of the true distance.
pub open spec fn raw_diff(last: u16, raw: u16) -> int {
    if raw < last {
        65535 - last + raw
    } else {
        raw - last
    }
}

/// `t + d` in 32-bit wraparound arithmetic.
pub open spec fn wrapping_add_u32(t: u32, d: int) -> int {
    (t + d) % 0x1_0000_0000
}

/// Folds a free-running 16-bit hardware counter into a 32-bit microsecond
/// count. The board reads the counter register and hands the raw value in.
pub struct MicrosecondTickProvider {
    tick: u32,
    last: u16,
}

impl MicrosecondTickProvider {
    pub closed spec fn tick(self) -> u32 {
        self.tick
    }

    pub closed spec fn last(self) -> u16 {
        self.last
    }

    /// Starts counting from the counter's current raw value.
    pub fn new(raw: u16) -> (t: MicrosecondTickProvider)
        ensures
            t.tick() == raw as u32,
            t.last() == raw,
    {
        MicrosecondTickProvider { tick: raw as u32, last: raw }
    }

    /// Advances by the distance the raw counter moved since the previous
    /// call and returns the accumulated count.
    pub fn get_tick(&mut self, raw: u16) -> (t: u32)
        ensures
            final(self).last() == raw,
            final(self).tick() as int == wrapping_add_u32(
                old(self).tick(),
                raw_diff(old(self).last(), raw),
            ),
            t == final(self).tick(),
    {
        let diff: u16 = if raw < self.last {
            65535 - self.last + raw
        } else {
            raw - self.last
        };
        let wide: u64 = self.tick as u64 + diff as u64;
        self.tick = (wide % 0x1_0000_0000) as u32;
        self.last = raw;
        self.tick
    }
}

/// How many busy-wait loop iterations cover `us` microseconds on a core
/// running at `cpu_hz`, when one iteration takes `cycles_per_loop` cycles,
/// rounded up to whole iterations.
pub open spec fn delay_loops(us: int, cpu_hz: int, cycles_per_loop: int) -> int {
    let cycles = us * cpu_hz / 1_000_000;
    (cycles + cycles_per_loop - 1) / cycles_per_loop
}

/// Computes the iteration count for a microsecond busy wait; the board
/// spins that many iterations of its calibrated delay loop. Counts beyond
/// 32 bits are truncated exactly as the loop register would be.
pub fn delay_us(us: u32, cpu_hz: u32, cycles_per_loop: u32) -> (loops: u32)
    requires
        cycles_per_loop > 0,
    ensures
        loops as int == delay_loops(us as int, cpu_hz as int, cycles_per_loop as int)
            % 0x1_0000_0000,
{
    let u: u64 = us as u64;
    let h: u64 = cpu_hz as u64;
    proof {
        assert(u * h <= 0xFFFF_FFFFu64 * 0xFFFF_FFFFu64) by (nonlinear_arith)
            requires
                u <= 0xFFFF_FFFFu64,
                h <= 0xFFFF_FFFFu64,
        ;
    }
    let cycles_needed: u64 = (u * h) / 1_000_000u64;
    let loops_wide: u64 = (cycles_needed + (cycles_per_loop as u64 - 1)) / cycles_per_loop as u64;
    (loops_wide % 0x1_0000_0000) as u32
}

} // verus!
