use evm_bench::aggregate::{aggregate, fastest_backends, Report};
use evm_bench::benchmarks::{Benchmark, Catalog};
use evm_bench::runner::{plan_pairs, select_benchmarks, FailureKind, PairOutcome, Sweep};
use evm_bench::samples::{validate_sample, BenchmarkResult, TimingToolError};
use evm_bench::selection::{determine_evms, BackendRegistry};

fn bench(name: &str, bytecode: &str, calldata: &str, gas: u64) -> Benchmark {
    Benchmark {
        name: name.to_string(),
        description: format!("workload {}", name),
        category: "compute".to_string(),
        bench_type: "evm".to_string(),
        bytecode: bytecode.to_string(),
        calldata: calldata.to_string(),
        gas,
    }
}

fn sample(name: &str, evm: &str, mean: u64) -> BenchmarkResult {
    validate_sample(
        name.to_string(),
        evm.to_string(),
        mean,
        0,
        mean,
        mean,
        mean,
        vec![mean; 3],
        3,
    )
    .unwrap()
}

#[test]
fn sample_validation_accepts_consistent_stats() {
    let r = validate_sample(
        "b".to_string(),
        "x".to_string(),
        20,
        1,
        19,
        10,
        30,
        vec![10, 20, 30],
        3,
    )
    .unwrap();
    assert_eq!(r.mean, 20);
    assert_eq!(r.times, vec![10, 20, 30]);
}

#[test]
fn sample_validation_rejects_inconsistent_stats() {
    // min above max contradicts the ordering invariant.
    let err = validate_sample(
        "b".to_string(),
        "x".to_string(),
        20,
        0,
        20,
        40,
        30,
        vec![20, 20, 20],
        3,
    )
    .unwrap_err();
    assert_eq!(err, TimingToolError::StatsOutOfOrder);
    // mean outside [min, max] is rejected too.
    let err = validate_sample(
        "b".to_string(),
        "x".to_string(),
        50,
        0,
        20,
        10,
        30,
        vec![20, 20, 20],
        3,
    )
    .unwrap_err();
    assert_eq!(err, TimingToolError::StatsOutOfOrder);
}

#[test]
fn sample_validation_rejects_wrong_count_and_empty() {
    let err = validate_sample(
        "b".to_string(),
        "x".to_string(),
        20,
        0,
        20,
        10,
        30,
        vec![20, 20],
        3,
    )
    .unwrap_err();
    assert_eq!(err, TimingToolError::WrongSampleCount);
    let err = validate_sample(
        "b".to_string(),
        "x".to_string(),
        20,
        0,
        20,
        10,
        30,
        vec![],
        0,
    )
    .unwrap_err();
    assert_eq!(err, TimingToolError::NoSamples);
}

fn two_backend_sweep(mean_a: u64, mean_b: u64) -> Sweep {
    let benchmarks = vec![bench("b", "6000", "", 21000)];
    let backends = vec!["A".to_string(), "B".to_string()];
    let mut sweep = Sweep::new(plan_pairs(&benchmarks, &backends));
    sweep.record(PairOutcome::Measured(sample("b", "A", mean_a)));
    sweep.record(PairOutcome::Measured(sample("b", "B", mean_b)));
    sweep
}

#[test]
fn ratios_are_relative_to_the_fastest_mean() {
    // A at 1.0 time units, B at 2.0 (in nanoseconds).
    let report = aggregate(&two_backend_sweep(1_000_000_000, 2_000_000_000));
    assert_eq!(report.comparisons.len(), 1);
    let cmp = &report.comparisons[0];
    assert_eq!(cmp.benchmark, "b");
    assert_eq!(cmp.fastest_mean, 1_000_000_000);
    assert_eq!(cmp.entries[0].backend, "A");
    assert_eq!(cmp.entries[0].ratio_hundredths, 100);
    assert!(cmp.entries[0].fastest);
    assert_eq!(cmp.entries[1].backend, "B");
    assert_eq!(cmp.entries[1].ratio_hundredths, 200);
    assert!(!cmp.entries[1].fastest);
    assert!(!cmp.tied);
    assert_eq!(fastest_backends(cmp), vec!["A"]);
}

#[test]
fn means_within_epsilon_tie() {
    // 50 nanoseconds apart: far below the tie epsilon.
    let report = aggregate(&two_backend_sweep(1_000, 1_050));
    let cmp = &report.comparisons[0];
    assert!(cmp.entries[0].fastest);
    assert!(cmp.entries[1].fastest);
    assert!(cmp.tied);
    assert_eq!(fastest_backends(cmp), vec!["A", "B"]);
}

#[test]
fn end_to_end_echo_scenario() {
    // One workload, two available backends, canned sample sets.
    let catalog = Catalog::from_entries(vec![bench("echo", "6000", "", 21000)]);
    let registry = BackendRegistry::new(vec!["fast".to_string(), "slow".to_string()]);
    let backends = determine_evms(None, Some("fast,slow".to_string()), false, &registry).unwrap();
    let benchmarks = select_benchmarks(&catalog, None).unwrap();
    let mut sweep = Sweep::new(plan_pairs(&benchmarks, &backends));
    // fast: mean 0.010 time units; slow: mean 0.050 (in nanoseconds).
    sweep.record(PairOutcome::Measured(sample("echo", "fast", 10_000_000)));
    sweep.record(PairOutcome::Measured(sample("echo", "slow", 50_000_000)));
    assert!(sweep.is_done());

    let report = aggregate(&sweep);
    assert_eq!(report.requested, 2);
    assert_eq!(report.measured, 2);
    assert!(report.failed.is_empty());
    let cmp = &report.comparisons[0];
    assert_eq!(cmp.benchmark, "echo");
    assert_eq!(fastest_backends(cmp), vec!["fast"]);
    assert_eq!(cmp.entries[0].backend, "fast");
    assert_eq!(cmp.entries[0].ratio_hundredths, 100);
    assert_eq!(cmp.entries[1].backend, "slow");
    assert_eq!(cmp.entries[1].ratio_hundredths, 500);
}

#[test]
fn failed_pair_is_recorded_and_sweep_continues() {
    // b1 x x fails; b1 x y and both b2 pairs are still measured, and the
    // final counts reconcile: requested = measured + failed.
    let benchmarks = vec![bench("b1", "60", "", 1), bench("b2", "61", "", 1)];
    let backends = vec!["x".to_string(), "y".to_string()];
    let mut sweep = Sweep::new(plan_pairs(&benchmarks, &backends));

    sweep.record(PairOutcome::Failed(FailureKind::Execution(
        "subprocess exited with code 1".to_string(),
    )));
    sweep.record(PairOutcome::Measured(sample("b1", "y", 2_000)));
    sweep.record(PairOutcome::Measured(sample("b2", "x", 3_000)));
    sweep.record(PairOutcome::Measured(sample("b2", "y", 4_000)));
    assert!(sweep.is_done());

    let report = aggregate(&sweep);
    assert_eq!(report.requested, 4);
    assert_eq!(report.measured, 3);
    assert_eq!(report.failed.len(), 1);
    assert_eq!(report.requested, report.measured + report.failed.len());
    assert_eq!(report.failed[0].benchmark, "b1");
    assert_eq!(report.failed[0].backend, "x");
    assert_eq!(
        report.failed[0].kind,
        FailureKind::Execution("subprocess exited with code 1".to_string())
    );

    // b1 still compares on its remaining backend; b2 compares on both.
    assert_eq!(report.comparisons.len(), 2);
    assert_eq!(report.comparisons[0].benchmark, "b1");
    assert_eq!(report.comparisons[0].entries.len(), 1);
    assert_eq!(report.comparisons[0].entries[0].backend, "y");
    assert_eq!(report.comparisons[1].benchmark, "b2");
    assert_eq!(report.comparisons[1].entries.len(), 2);
}

#[test]
fn aggregation_is_idempotent() {
    let sweep = two_backend_sweep(1_000_000, 3_000_000);
    let first: Report = aggregate(&sweep);
    let second: Report = aggregate(&sweep);
    assert_eq!(first, second);
}

#[test]
fn timing_tool_failures_are_their_own_kind() {
    let benchmarks = vec![bench("b1", "60", "", 1)];
    let backends = vec!["x".to_string()];
    let mut sweep = Sweep::new(plan_pairs(&benchmarks, &backends));
    sweep.record(PairOutcome::Failed(FailureKind::TimingTool(
        "missing sample times".to_string(),
    )));
    let report = aggregate(&sweep);
    assert_eq!(report.measured, 0);
    assert_eq!(report.failed.len(), 1);
    assert!(report.comparisons.is_empty());
    assert_eq!(
        report.failed[0].kind,
        FailureKind::TimingTool("missing sample times".to_string())
    );
}
