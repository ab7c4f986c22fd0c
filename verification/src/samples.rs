//! Raw timing sample sets and their validation.
//!
//! One measurement of a (benchmark, backend) pair yields an ordered list of
//! wall-clock durations plus summary statistics, all in integer nanoseconds.
//! The timing tool's report is only accepted when the sample count matches
//! the requested iteration count and the statistics are consistent
//! (`min <= median <= max` and `min <= mean <= max`); anything else is a
//! [`TimingToolError`], never silently coerced.

use vstd::prelude::*;

verus! {

/// Why a timing tool report was rejected.
#[derive(Debug, Clone, Copy, PartialEq, Eq, Structural)]
pub enum TimingToolError {
    /// The report holds no sample times at all.
    NoSamples,
    /// The report's sample count differs from the requested iterations.
    WrongSampleCount,
    /// The summary statistics contradict each other.
    StatsOutOfOrder,
}

/// The summary statistics are consistent: the minimum is no larger than the
/// median, the mean, and the maximum, and neither median nor mean exceeds
/// the maximum.
pub open spec fn stats_ordered(mean: u64, median: u64, min: u64, max: u64) -> bool {
    min <= median && median <= max && min <= mean && mean <= max
}

/// One validated measurement of a (benchmark, backend) pair. All durations
/// are wall-clock nanoseconds.
#[derive(Debug, Clone, PartialEq)]
pub struct BenchmarkResult {
    /// The measured benchmark's name.
    pub name: String,
    /// The backend that ran it.
    pub evm: String,
    /// Mean run time.
    pub mean: u64,
    /// Standard deviation of the run times.
    pub stddev: u64,
    /// Median run time.
    pub median: u64,
    /// Fastest run time.
    pub min: u64,
    /// Slowest run time.
    pub max: u64,
    /// Every timed run, in measurement order; one entry per iteration.
    pub times: Vec<u64>,
}

/// Mathematical image of a sample set.
#[verifier::ext_equal]
pub ghost struct SampleView {
    pub name: Seq<char>,
    pub evm: Seq<char>,
    pub mean: u64,
    pub stddev: u64,
    pub median: u64,
    pub min: u64,
    pub max: u64,
    pub times: Seq<u64>,
}

impl View for BenchmarkResult {
    type V = SampleView;

    open spec fn view(&self) -> SampleView {
        SampleView {
            name: self.name@,
            evm: self.evm@,
            mean: self.mean,
            stddev: self.stddev,
            median: self.median,
            min: self.min,
            max: self.max,
            times: self.times@,
        }
    }
}

impl BenchmarkResult {
    /// A sample set is well formed when it holds at least one sample and its
    /// statistics are consistent.
    pub open spec fn well_formed(self) -> bool {
        self.times@.len() > 0 && stats_ordered(self.mean, self.median, self.min, self.max)
    }
}

/// Accept or reject one timing tool report.
///
/// Accepts exactly when the report carries `iterations` samples, at least
/// one, and its statistics are consistent; the accepted sample set carries
/// the report's values unchanged. Rejections tell the three failure shapes
/// apart and never coerce a malformed report into zeros.
pub fn validate_sample(
    name: String,
    evm: String,
    mean: u64,
    stddev: u64,
    median: u64,
    min: u64,
    max: u64,
    times: Vec<u64>,
    iterations: usize,
) -> (r: Result<BenchmarkResult, TimingToolError>)
    ensures
        r is Ok <==> (times@.len() == iterations && times@.len() > 0 && stats_ordered(
            mean,
            median,
            min,
            max,
        )),
        r is Ok ==> r->Ok_0@ == (SampleView {
            name: name@,
            evm: evm@,
            mean,
            stddev,
            median,
            min,
            max,
            times: times@,
        }),
        r is Ok ==> r->Ok_0.well_formed(),
        r is Err ==> (match r->Err_0 {
            TimingToolError::NoSamples => times@.len() == 0,
            TimingToolError::WrongSampleCount => times@.len() > 0 && times@.len() != iterations,
            TimingToolError::StatsOutOfOrder => times@.len() == iterations && times@.len() > 0
                && !stats_ordered(mean, median, min, max),
        }),
{
    if times.len() == 0 {
        return Err(TimingToolError::NoSamples);
    }
    if times.len() != iterations {
        return Err(TimingToolError::WrongSampleCount);
    }
    if !(min <= median && median <= max && min <= mean && mean <= max) {
        return Err(TimingToolError::StatsOutOfOrder);
    }
    Ok(BenchmarkResult { name, evm, mean, stddev, median, min, max, times })
}

} // verus!
