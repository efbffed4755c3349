//! In-process instrumentation: named, categorized operations are timed,
//! the measurements are aggregated per operation key, and summary
//! statistics (count, mean, min/max, percentiles) can be queried later.

use vstd::prelude::*;

pub mod category;
pub mod collector;
pub mod decimal;
pub mod hist;
pub mod metrics;
pub mod operation;
pub mod reporter;
pub mod timer;

pub use category::{Category, CategoryInfo, DefaultCategory, NoCategory};
pub use collector::{Accumulator, OperationStats, ProfileCollector, SummaryStats};
pub use metrics::{MetricDefinition, MetricRegistry, MetricRegistryError, MetricSetBuilder};
pub use operation::{CategorizedOperation, Operation, SimpleOperation};
pub use reporter::{
    Percentile, ProfileReport, ReportBuilder, ReportConfig, SortMetric, TimeFormat,
};
pub use timer::{
    is_timer_paused, pause_stack, unpause_stack, PausableTimer, ProfileTimer, ProfileTimerAsync,
    ScopedTimer, TimerRegistry,
};

verus! {

/// Mean duration in microseconds: zero when no samples were recorded.
pub open spec fn mean_spec(count: u64, total_micros: u64) -> u64 {
    if count == 0 {
        0
    } else {
        (total_micros as int / count as int) as u64
    }
}

/// Integer mean of a running total, used by every summary view.
pub fn mean_of(count: u64, total_micros: u64) -> (r: u64)
    ensures
        r == mean_spec(count, total_micros),
{
    if count == 0 {
        0
    } else {
        total_micros / count
    }
}

} // verus!

