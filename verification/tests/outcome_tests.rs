use evm_bench::aggregate::{aggregate, TIE_EPSILON_NANOS};
use evm_bench::benchmarks::Benchmark;
use evm_bench::evm::ExecutionResult;
use evm_bench::runner::{plan_pairs, PairOutcome, Sweep};
use evm_bench::samples::validate_sample;

fn bench(name: &str) -> Benchmark {
    Benchmark {
        name: name.to_string(),
        description: "w".to_string(),
        category: "compute".to_string(),
        bench_type: "evm".to_string(),
        bytecode: "6000".to_string(),
        calldata: "".to_string(),
        gas: 21000,
    }
}

fn measured(name: &str, evm: &str, mean: u64) -> PairOutcome {
    PairOutcome::Measured(
        validate_sample(
            name.to_string(),
            evm.to_string(),
            mean,
            0,
            mean,
            mean,
            mean,
            vec![mean],
            1,
        )
        .unwrap(),
    )
}

#[test]
fn gas_used_is_derived_from_gas_left() {
    let raw = ExecutionResult { success: true, gas_used: 0, gas_left: 9_000, output: vec![1] };
    let result = raw.to_evm_result(30_000);
    assert!(result.success);
    assert_eq!(result.gas_used, 21_000);
    assert_eq!(result.output, vec![1]);
}

#[test]
fn gas_used_never_wraps_below_zero() {
    let raw = ExecutionResult { success: false, gas_used: 0, gas_left: 50_000, output: vec![] };
    let result = raw.to_evm_result(30_000);
    assert!(!result.success);
    assert_eq!(result.gas_used, 0);
}

#[test]
fn ratio_rounds_toward_zero() {
    let benchmarks = vec![bench("b")];
    let backends = vec!["f".to_string(), "s".to_string()];
    let mut sweep = Sweep::new(plan_pairs(&benchmarks, &backends));
    sweep.record(measured("b", "f", 200_000_000));
    sweep.record(measured("b", "s", 333_333_333));
    let cmp = &aggregate(&sweep).comparisons[0];
    // 333333333 * 100 / 200000000 truncates to 166, i.e. 1.66x.
    assert_eq!(cmp.entries[1].ratio_hundredths, 166);
}

#[test]
fn difference_exactly_at_epsilon_is_not_a_tie() {
    let benchmarks = vec![bench("b")];
    let backends = vec!["f".to_string(), "s".to_string()];
    let base = 1_000_000_000u64;
    let mut sweep = Sweep::new(plan_pairs(&benchmarks, &backends));
    sweep.record(measured("b", "f", base));
    sweep.record(measured("b", "s", base + TIE_EPSILON_NANOS));
    let cmp = &aggregate(&sweep).comparisons[0];
    assert!(cmp.entries[0].fastest);
    assert!(!cmp.entries[1].fastest);
    assert!(!cmp.tied);
}

#[test]
fn difference_just_below_epsilon_ties() {
    let benchmarks = vec![bench("b")];
    let backends = vec!["f".to_string(), "s".to_string()];
    let base = 1_000_000_000u64;
    let mut sweep = Sweep::new(plan_pairs(&benchmarks, &backends));
    sweep.record(measured("b", "f", base));
    sweep.record(measured("b", "s", base + TIE_EPSILON_NANOS - 1));
    let cmp = &aggregate(&sweep).comparisons[0];
    assert!(cmp.entries[0].fastest);
    assert!(cmp.entries[1].fastest);
    assert!(cmp.tied);
}
