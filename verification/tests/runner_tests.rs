use evm_bench::benchmarks::{Benchmark, Catalog};
use evm_bench::command::{build_executor_command, build_hyperfine_args, u64_to_string};
use evm_bench::runner::{
    compare_evms, join_backends, plan_pairs, select_benchmarks, FailureKind, PairOutcome, Sweep,
};
use evm_bench::samples::{validate_sample, BenchmarkResult};
use evm_bench::selection::ConfigurationError;

fn bench(name: &str, bytecode: &str, calldata: &str, gas: u64) -> Benchmark {
    Benchmark {
        name: name.to_string(),
        description: format!("workload {}", name),
        category: "compute".to_string(),
        bench_type: "evm".to_string(),
        bytecode: bytecode.to_string(),
        calldata: calldata.to_string(),
        gas,
    }
}

fn sample(name: &str, evm: &str, mean: u64) -> BenchmarkResult {
    validate_sample(
        name.to_string(),
        evm.to_string(),
        mean,
        0,
        mean,
        mean,
        mean,
        vec![mean; 3],
        3,
    )
    .unwrap()
}

#[test]
fn plan_is_benchmarks_outer_backends_inner() {
    let benchmarks = vec![bench("b1", "60", "", 1), bench("b2", "61", "", 1)];
    let backends = vec!["x".to_string(), "y".to_string()];
    let pairs = plan_pairs(&benchmarks, &backends);
    let got: Vec<(&str, &str)> = pairs
        .iter()
        .map(|p| (p.benchmark.as_str(), p.backend.as_str()))
        .collect();
    assert_eq!(
        got,
        vec![("b1", "x"), ("b1", "y"), ("b2", "x"), ("b2", "y")]
    );
}

#[test]
fn plan_is_deterministic_across_calls() {
    let benchmarks = vec![bench("b1", "60", "", 1), bench("b2", "61", "", 1)];
    let backends = vec!["x".to_string(), "y".to_string()];
    assert_eq!(
        plan_pairs(&benchmarks, &backends),
        plan_pairs(&benchmarks, &backends)
    );
}

#[test]
fn sweep_walks_pairs_in_order() {
    let benchmarks = vec![bench("b1", "60", "", 1)];
    let backends = vec!["x".to_string(), "y".to_string()];
    let mut sweep = Sweep::new(plan_pairs(&benchmarks, &backends));
    assert_eq!(sweep.requested(), 2);
    assert!(!sweep.is_done());

    let next = sweep.next_pair().unwrap();
    assert_eq!((next.benchmark.as_str(), next.backend.as_str()), ("b1", "x"));
    sweep.record(PairOutcome::Measured(sample("b1", "x", 1000)));

    let next = sweep.next_pair().unwrap();
    assert_eq!((next.benchmark.as_str(), next.backend.as_str()), ("b1", "y"));
    sweep.record(PairOutcome::Failed(FailureKind::Execution(
        "exit code 1".to_string(),
    )));

    assert!(sweep.is_done());
    assert!(sweep.next_pair().is_none());
    assert_eq!(sweep.recorded(), 2);
}

#[test]
fn select_one_benchmark_by_name() {
    let catalog = Catalog::from_entries(vec![bench("b1", "60", "", 1), bench("b2", "61", "", 1)]);
    let picked = select_benchmarks(&catalog, Some("b2".to_string())).unwrap();
    assert_eq!(picked.len(), 1);
    assert_eq!(picked[0].name, "b2");
}

#[test]
fn select_all_benchmarks_by_default() {
    let catalog = Catalog::from_entries(vec![bench("b1", "60", "", 1), bench("b2", "61", "", 1)]);
    let picked = select_benchmarks(&catalog, None).unwrap();
    assert_eq!(picked.len(), 2);
    assert_eq!(picked[0].name, "b1");
    assert_eq!(picked[1].name, "b2");
}

#[test]
fn unknown_benchmark_is_named() {
    let catalog = Catalog::from_entries(vec![bench("b1", "60", "", 1)]);
    let err = select_benchmarks(&catalog, Some("nope".to_string())).unwrap_err();
    assert_eq!(err, ConfigurationError::UnknownBenchmark("nope".to_string()));
    assert_eq!(err.message(), "benchmark not found: nope");
}

#[test]
fn empty_catalog_is_a_configuration_error() {
    let catalog = Catalog::from_entries(Vec::new());
    assert_eq!(
        select_benchmarks(&catalog, None).unwrap_err(),
        ConfigurationError::NoBenchmarks
    );
}

#[test]
fn compare_request_becomes_run_config() {
    let cfg = compare_evms(
        vec!["revm".to_string(), "ethrex".to_string()],
        Some("snailtracer".to_string()),
        Some("out.json".to_string()),
    );
    assert_eq!(cfg.iterations, 10);
    assert_eq!(cfg.warmup, 3);
    assert_eq!(cfg.evm, None);
    assert_eq!(cfg.evms.as_deref(), Some("revm,ethrex"));
    assert!(!cfg.all);
    assert_eq!(cfg.benchmark.as_deref(), Some("snailtracer"));
    assert_eq!(cfg.output.as_deref(), Some("out.json"));
    assert!(!cfg.verbose);
}

#[test]
fn join_handles_edge_counts() {
    assert_eq!(join_backends(&vec![]), "");
    assert_eq!(join_backends(&vec!["revm".to_string()]), "revm");
    assert_eq!(
        join_backends(&vec!["a".to_string(), "b".to_string(), "c".to_string()]),
        "a,b,c"
    );
}

#[test]
fn numbers_render_in_decimal() {
    assert_eq!(u64_to_string(0), "0");
    assert_eq!(u64_to_string(7), "7");
    assert_eq!(u64_to_string(30_000_000), "30000000");
    assert_eq!(u64_to_string(u64::MAX), "18446744073709551615");
}

#[test]
fn executor_command_lists_the_pair_exactly() {
    let b = bench("ten_thousand_hashes", "6001", "0x30627b7c", 30_000_000);
    let cmd = build_executor_command("/usr/bin/evm-bench", "revm", &b);
    assert_eq!(
        cmd,
        "/usr/bin/evm-bench execute --evm revm --bytecode 6001 --calldata 0x30627b7c --gas 30000000"
    );
}

#[test]
fn timing_tool_args_are_shell_free_and_exact() {
    let args = build_hyperfine_args(10, 3, "/tmp/out.json", "cmd execute", false);
    assert_eq!(
        args,
        vec![
            "--runs",
            "10",
            "--warmup",
            "3",
            "--export-json",
            "/tmp/out.json",
            "--shell",
            "none",
            "cmd execute",
            "--style",
            "basic",
        ]
    );
    let verbose_args = build_hyperfine_args(5, 1, "/tmp/o.json", "c", true);
    assert_eq!(
        verbose_args,
        vec!["--runs", "5", "--warmup", "1", "--export-json", "/tmp/o.json", "--shell", "none", "c"]
    );
}
