use evm_bench::benchmarks::{
    get_evm_benchmarks, get_function_selector, Benchmark, Catalog, CompiledContract,
    ContractCompiler,
};

fn contract(name: &str, bytecode: &str) -> CompiledContract {
    CompiledContract {
        name: name.to_string(),
        bytecode: bytecode.to_string(),
        path: format!("benchmarks/{}.sol", name),
    }
}

#[test]
fn selector_of_benchmark_signature() {
    // Known keccak256("Benchmark()") prefix; fails if the digest wrapper
    // handed its input back unchanged.
    assert_eq!(get_function_selector("Benchmark()"), "0x30627b7c");
}

#[test]
fn selector_of_transfer_signature() {
    assert_eq!(
        get_function_selector("transfer(address,uint256)"),
        "0xa9059cbb"
    );
}

#[test]
fn catalog_entry_exists_iff_contract_present() {
    let compiler = ContractCompiler::new(vec![
        contract("TenThousandHashes", "6001"),
        contract("SnailTracer", "6002"),
    ]);
    let catalog = get_evm_benchmarks(&compiler);
    assert!(catalog.get("ten_thousand_hashes").is_some());
    assert!(catalog.get("snailtracer").is_some());
    assert!(catalog.get("erc20_transfer_bench").is_none());
    assert_eq!(catalog.len(), 2);
}

#[test]
fn catalog_order_is_lexicographic_by_name() {
    let compiler = ContractCompiler::new(vec![
        contract("TenThousandHashes", "01"),
        contract("SnailTracer", "02"),
        contract("ERC20Transfer", "03"),
        contract("ERC20Mint", "04"),
        contract("ERC20ApprovalTransfer", "05"),
    ]);
    let catalog = get_evm_benchmarks(&compiler);
    let names: Vec<&str> = catalog.all().iter().map(|b| b.name.as_str()).collect();
    assert_eq!(
        names,
        vec![
            "erc20_approval_bench",
            "erc20_mint_bench",
            "erc20_transfer_bench",
            "snailtracer",
            "ten_thousand_hashes"
        ]
    );
}

#[test]
fn catalog_builds_are_deterministic() {
    let input = vec![
        contract("TenThousandHashes", "6001"),
        contract("ERC20Mint", "6002"),
        contract("SnailTracer", "6003"),
    ];
    let a = get_evm_benchmarks(&ContractCompiler::new(input.clone()));
    let b = get_evm_benchmarks(&ContractCompiler::new(input));
    assert_eq!(a.all(), b.all());
}

#[test]
fn catalog_entries_carry_fixed_rules() {
    let compiler = ContractCompiler::new(vec![contract("TenThousandHashes", "6001")]);
    let catalog = get_evm_benchmarks(&compiler);
    let bench = catalog.get("ten_thousand_hashes").unwrap();
    assert_eq!(bench.bytecode, "6001");
    assert_eq!(bench.calldata, "0x30627b7c");
    assert_eq!(bench.gas, 30_000_000);
    assert_eq!(bench.category, "compute");
    assert_eq!(bench.bench_type, "evm");
}

#[test]
fn snailtracer_entry_uses_precompiled_selector_and_big_gas() {
    let compiler = ContractCompiler::new(vec![contract("SnailTracer", "ff")]);
    let catalog = get_evm_benchmarks(&compiler);
    let bench = catalog.get("snailtracer").unwrap();
    assert_eq!(bench.calldata, "0x30627b7c");
    assert_eq!(bench.gas, 1_000_000_000);
}

#[test]
fn get_contract_finds_first_match() {
    let compiler = ContractCompiler::new(vec![
        contract("A", "01"),
        contract("B", "02"),
    ]);
    assert_eq!(compiler.get_contract("B").unwrap().bytecode, "02");
    assert!(compiler.get_contract("C").is_none());
}

#[test]
fn catalog_from_entries_keeps_order() {
    let entries = vec![Benchmark {
        name: "echo".to_string(),
        description: "echoes".to_string(),
        category: "compute".to_string(),
        bench_type: "evm".to_string(),
        bytecode: "6000".to_string(),
        calldata: "".to_string(),
        gas: 21000,
    }];
    let catalog = Catalog::from_entries(entries);
    assert_eq!(catalog.len(), 1);
    assert_eq!(catalog.get("echo").unwrap().gas, 21000);
}
