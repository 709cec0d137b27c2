//! Derives a CPU-utilization percentage from the device's idle-loop counter.
//!
//! The firmware reports a counter that falls as the device gets busier;
//! `IDLE_CEILING` is the calibrated reading of a fully idle device. The
//! percentage is how far the counter fell below the ceiling. To keep the
//! value exact, the metric is stored as a numerator over `IDLE_CEILING`
//! rather than as a floating-point number; displaying code divides once.

use vstd::prelude::*;

verus! {

/// Calibration ceiling: the idle-counter reading of a fully idle device.
pub const IDLE_CEILING: u32 = 64_000_000;

/// A CPU-utilization percentage held exactly: the percentage equals
/// `scaled / IDLE_CEILING`, so `scaled` ranges over `[0, 100 * IDLE_CEILING]`.
#[derive(Clone, Copy, PartialEq, Eq, Structural, Debug)]
pub struct CpuMetric {
    pub scaled: u64,
}

/// The metric's exact value, scaled by `IDLE_CEILING`: counters above the
/// ceiling saturate at 100 percent, counters at or below it give the
/// proportional shortfall below the ceiling.
pub open spec fn metric_scaled(idle_counter: u32) -> int {
    if idle_counter > IDLE_CEILING {
        100 * (IDLE_CEILING as int)
    } else {
        100 * (IDLE_CEILING - idle_counter)
    }
}

impl CpuMetric {
    /// A metric is a percentage: its numerator never exceeds 100 times the
    /// denominator.
    pub open spec fn valid(self) -> bool {
        self.scaled <= 100 * (IDLE_CEILING as int)
    }

    /// The metric rounded down to whole percent, for a coarse gauge.
    pub fn whole_percent(&self) -> (p: u64)
        requires
            self.valid(),
        ensures
            p == self.scaled / (IDLE_CEILING as u64),
            p <= 100,
    {
        proof {
            assert(self.scaled / (IDLE_CEILING as u64) <= 100) by (nonlinear_arith)
                requires
                    self.scaled <= 100 * (IDLE_CEILING as int),
            ;
        }
        self.scaled / (IDLE_CEILING as u64)
    }
}

/// Maps an idle counter to its CPU metric.
pub fn derive_metric(idle_counter: u32) -> (m: CpuMetric)
    ensures
        m.scaled == metric_scaled(idle_counter),
        m.valid(),
{
    if idle_counter > IDLE_CEILING {
        CpuMetric { scaled: 100u64 * (IDLE_CEILING as u64) }
    } else {
        CpuMetric { scaled: 100u64 * ((IDLE_CEILING - idle_counter) as u64) }
    }
}

/// The metric never leaves [0, 100]: its numerator stays within 100 times
/// the ceiling whatever the counter reads.
pub proof fn lemma_metric_range(idle_counter: u32)
    ensures
        0 <= metric_scaled(idle_counter) <= 100 * (IDLE_CEILING as int),
{
}

/// A counter strictly below the ceiling gives a metric in (0, 100]: some
/// load was measured, and no more than all of it.
pub proof fn lemma_metric_positive_below_ceiling(idle_counter: u32)
    requires
        idle_counter < IDLE_CEILING,
    ensures
        0 < metric_scaled(idle_counter) <= 100 * (IDLE_CEILING as int),
{
}

/// A counter exactly at the ceiling reads as exactly 0 percent: the
/// device was fully idle, and the gauge does not saturate high there.
pub proof fn lemma_metric_zero_at_ceiling()
    ensures
        metric_scaled(IDLE_CEILING) == 0,
{
}

/// A counter of zero — the idle loop never ran at all — reads as exactly
/// 100 percent load.
pub proof fn lemma_metric_full_at_zero()
    ensures
        metric_scaled(0) == 100 * (IDLE_CEILING as int),
{
}

/// Counters beyond the ceiling saturate at exactly 100 percent rather than
/// going negative.
pub proof fn lemma_metric_saturates(idle_counter: u32)
    requires
        idle_counter > IDLE_CEILING,
    ensures
        metric_scaled(idle_counter) == 100 * (IDLE_CEILING as int),
{
}

/// Up to the ceiling, a higher idle counter never raises the metric.
pub proof fn lemma_metric_monotone(lower: u32, higher: u32)
    requires
        lower <= higher <= IDLE_CEILING,
    ensures
        metric_scaled(lower) >= metric_scaled(higher),
{
}

} // verus!
