//! The benchmark catalog: named workloads derived from compiled contracts.
//!
//! A workload exists exactly when the compiled contract it is derived from
//! is present in the compiled-workload input, and the catalog lists its
//! entries in a fixed order (lexicographic by benchmark name), so that two
//! builds from the same input agree entry for entry.

use vstd::prelude::*;
use vstd::string::StringSliceAdditionalSpecFns;
use sha3::Digest;
use crate::hex::{encode, encode_hex_seq, is_valid_hex, strip_hex_prefix};

verus! {

/// What the keccak256 digest of a byte sequence is. Only the wrapper below
/// says anything about this name; the same input always stands for the same
/// digest.
pub uninterp spec fn keccak256_of(data: Seq<u8>) -> Seq<u8>;

/// Relies on sha3's `Keccak256` through `Digest::digest`: the digest is a
/// function of the input bytes alone and is always 32 bytes long.
#[verifier::external_body]
fn keccak256(data: &[u8]) -> (r: Vec<u8>)
    ensures
        r@ == keccak256_of(data@),
        r@.len() == 32,
{
    sha3::Keccak256::digest(data).to_vec()
}

/// The selector a function signature stands for: `0x` followed by the hex
/// of the first four bytes of the signature's keccak256 digest.
pub open spec fn selector_of(sig_bytes: Seq<u8>) -> Seq<char> {
    ("0x")@ + encode_hex_seq(keccak256_of(sig_bytes).take(4))
}

/// Compute the four-byte call selector of a function signature.
pub fn get_function_selector(signature: &str) -> (r: String)
    ensures
        r@ == selector_of(signature.spec_bytes()),
{
    let sig_bytes = signature.as_bytes_vec();
    let digest = keccak256(sig_bytes.as_slice());
    let mut first4: Vec<u8> = Vec::new();
    let mut i: usize = 0;
    while i < 4
        invariant
            i <= 4,
            digest@.len() == 32,
            first4@ =~= digest@.subrange(0, i as int),
        decreases 4 - i,
    {
        first4.push(digest[i]);
        i = i + 1;
    }
    proof {
        assert(first4@ =~= keccak256_of(signature.spec_bytes()).take(4));
    }
    let hex_digits = encode(first4.as_slice());
    let mut out = "0x".to_owned();
    out.append(hex_digits.as_str());
    out
}

/// One compiled contract: the compiled-workload input maps a contract name
/// to its runtime bytecode (hex) and its source path.
#[derive(Debug, Clone, PartialEq)]
pub struct CompiledContract {
    /// Contract name, the key the catalog derives workloads from.
    pub name: String,
    /// Runtime bytecode as a hex string.
    pub bytecode: String,
    /// Where the contract's source lives, for diagnostics.
    pub path: String,
}

/// Mathematical image of a compiled contract.
#[verifier::ext_equal]
pub ghost struct CompiledContractView {
    pub name: Seq<char>,
    pub bytecode: Seq<char>,
    pub path: Seq<char>,
}

impl View for CompiledContract {
    type V = CompiledContractView;

    open spec fn view(&self) -> CompiledContractView {
        CompiledContractView { name: self.name@, bytecode: self.bytecode@, path: self.path@ }
    }
}

/// The first contract of the given name, if any.
pub open spec fn spec_lookup(cs: Seq<CompiledContractView>, name: Seq<char>) -> Option<
    CompiledContractView,
>
    decreases cs.len(),
{
    if cs.len() == 0 {
        None
    } else if cs[0].name == name {
        Some(cs[0])
    } else {
        spec_lookup(cs.skip(1), name)
    }
}

/// The store of compiled workloads the catalog is built from. Construction
/// is explicit: whoever compiled the contracts hands the results in as plain
/// values.
#[derive(Debug, Clone)]
pub struct ContractCompiler {
    contracts: Vec<CompiledContract>,
}

impl View for ContractCompiler {
    type V = Seq<CompiledContractView>;

    closed spec fn view(&self) -> Seq<CompiledContractView> {
        self.contracts@.map_values(|c: CompiledContract| c@)
    }
}

impl ContractCompiler {
    /// Wrap a compiled-workload input.
    pub fn new(contracts: Vec<CompiledContract>) -> (r: Self)
        ensures
            r@ == contracts@.map_values(|c: CompiledContract| c@),
    {
        ContractCompiler { contracts }
    }

    /// The first compiled contract of the given name, if any.
    pub fn get_contract(&self, name: &str) -> (r: Option<&CompiledContract>)
        ensures
            r is Some <==> spec_lookup(self@, name@) is Some,
            r is Some ==> r->0@ == spec_lookup(self@, name@)->0,
    {
        let key = name.to_owned();
        let n = self.contracts.len();
        let mut i: usize = 0;
        proof {
            assert(self@.skip(0) =~= self@);
        }
        while i < n
            invariant
                n == self.contracts@.len(),
                i <= n,
                self@.len() == n,
                key@ == name@,
                spec_lookup(self@, name@) == spec_lookup(self@.skip(i as int), name@),
            decreases n - i,
        {
            proof {
                assert(self@[i as int] == self.contracts@[i as int]@);
                assert(self@.skip(i as int)[0] == self@[i as int]);
            }
            if self.contracts[i].name == key {
                proof {
                    assert(self@.skip(i as int)[0].name == name@);
                    assert(spec_lookup(self@.skip(i as int), name@) == Some(
                        self@.skip(i as int)[0],
                    ));
                }
                return Some(&self.contracts[i]);
            }
            proof {
                assert(self@.skip(i as int).skip(1) =~= self@.skip(i as int + 1));
            }
            i = i + 1;
        }
        proof {
            assert(self@.skip(n as int) =~= Seq::<CompiledContractView>::empty());
        }
        None
    }
}

/// One workload: a named, fixed (bytecode, calldata, gas limit) triple.
#[derive(Debug, Clone, PartialEq)]
pub struct Benchmark {
    /// Unique benchmark name, the catalog key.
    pub name: String,
    /// What the workload exercises.
    pub description: String,
    /// Grouping label, e.g. compute or token.
    pub category: String,
    /// Kind of workload; every catalog entry is an EVM call.
    pub bench_type: String,
    /// Deployed bytecode as a hex string of even length.
    pub bytecode: String,
    /// Calldata as a hex string, usually a four-byte selector.
    pub calldata: String,
    /// Gas limit for each run; always positive.
    pub gas: u64,
}

/// Mathematical image of a workload.
#[verifier::ext_equal]
pub ghost struct BenchmarkView {
    pub name: Seq<char>,
    pub description: Seq<char>,
    pub category: Seq<char>,
    pub bench_type: Seq<char>,
    pub bytecode: Seq<char>,
    pub calldata: Seq<char>,
    pub gas: u64,
}

impl View for Benchmark {
    type V = BenchmarkView;

    open spec fn view(&self) -> BenchmarkView {
        BenchmarkView {
            name: self.name@,
            description: self.description@,
            category: self.category@,
            bench_type: self.bench_type@,
            bytecode: self.bytecode@,
            calldata: self.calldata@,
            gas: self.gas,
        }
    }
}

impl Benchmark {
    /// A field-for-field copy whose image equals this workload's.
    pub fn duplicate(&self) -> (r: Benchmark)
        ensures
            r@ == self@,
    {
        Benchmark {
            name: self.name.clone(),
            description: self.description.clone(),
            category: self.category.clone(),
            bench_type: self.bench_type.clone(),
            bytecode: self.bytecode.clone(),
            calldata: self.calldata.clone(),
            gas: self.gas,
        }
    }
}

pub open spec fn catalog_view(entries: Seq<Benchmark>) -> Seq<BenchmarkView> {
    entries.map_values(|b: Benchmark| b@)
}

/// The catalog entry a contract gives rise to: one entry when the contract
/// is present, none otherwise.
pub open spec fn catalog_entry(
    cs: Seq<CompiledContractView>,
    contract: Seq<char>,
    name: Seq<char>,
    description: Seq<char>,
    category: Seq<char>,
    calldata: Seq<char>,
    gas: u64,
) -> Seq<BenchmarkView> {
    match spec_lookup(cs, contract) {
        None => seq![],
        Some(c) => seq![
            BenchmarkView {
                name,
                description,
                category,
                bench_type: ("evm")@,
                bytecode: c.bytecode,
                calldata,
                gas,
            },
        ],
    }
}

/// The calldata shared by the workloads that call `Benchmark()`.
pub open spec fn benchmark_selector_calldata() -> Seq<char> {
    selector_of(("Benchmark()").spec_bytes())
}

/// The whole catalog a compiled-workload input gives rise to, in its fixed
/// order: lexicographic by benchmark name.
pub open spec fn spec_catalog(cs: Seq<CompiledContractView>) -> Seq<BenchmarkView> {
    catalog_entry(
        cs,
        ("ERC20ApprovalTransfer")@,
        ("erc20_approval_bench")@,
        ("Benchmark ERC20 approval and transfer operations")@,
        ("token")@,
        benchmark_selector_calldata(),
        30000000,
    ) + catalog_entry(
        cs,
        ("ERC20Mint")@,
        ("erc20_mint_bench")@,
        ("Benchmark ERC20 minting operations")@,
        ("token")@,
        benchmark_selector_calldata(),
        30000000,
    ) + catalog_entry(
        cs,
        ("ERC20Transfer")@,
        ("erc20_transfer_bench")@,
        ("Benchmark ERC20 transfer operations")@,
        ("token")@,
        benchmark_selector_calldata(),
        30000000,
    ) + catalog_entry(
        cs,
        ("SnailTracer")@,
        ("snailtracer")@,
        ("Ray tracing benchmark (compute intensive)")@,
        ("compute")@,
        ("0x30627b7c")@,
        1000000000,
    ) + catalog_entry(
        cs,
        ("TenThousandHashes")@,
        ("ten_thousand_hashes")@,
        ("Execute 10,000 keccak256 hash operations")@,
        ("compute")@,
        benchmark_selector_calldata(),
        30000000,
    )
}

/// The first catalog entry of the given benchmark name, if any.
pub open spec fn spec_find_benchmark(entries: Seq<BenchmarkView>, name: Seq<char>) -> Option<
    BenchmarkView,
>
    decreases entries.len(),
{
    if entries.len() == 0 {
        None
    } else if entries[0].name == name {
        Some(entries[0])
    } else {
        spec_find_benchmark(entries.skip(1), name)
    }
}

/// The immutable table of workloads, in its fixed build order.
#[derive(Debug, Clone)]
pub struct Catalog {
    entries: Vec<Benchmark>,
}

impl View for Catalog {
    type V = Seq<BenchmarkView>;

    closed spec fn view(&self) -> Seq<BenchmarkView> {
        catalog_view(self.entries@)
    }
}

impl Catalog {
    /// All workloads, in the catalog's fixed order.
    pub fn all(&self) -> (r: &Vec<Benchmark>)
        ensures
            catalog_view(r@) == self@,
    {
        &self.entries
    }

    /// How many workloads the catalog holds.
    pub fn len(&self) -> (r: usize)
        ensures
            r == self@.len(),
    {
        self.entries.len()
    }

    /// The workload of the given name, if the catalog holds one.
    pub fn get(&self, name: &str) -> (r: Option<&Benchmark>)
        ensures
            r is Some <==> spec_find_benchmark(self@, name@) is Some,
            r is Some ==> r->0@ == spec_find_benchmark(self@, name@)->0,
    {
        let key = name.to_owned();
        let n = self.entries.len();
        let mut i: usize = 0;
        proof {
            assert(self@.skip(0) =~= self@);
        }
        while i < n
            invariant
                n == self.entries@.len(),
                i <= n,
                self@.len() == n,
                key@ == name@,
                spec_find_benchmark(self@, name@) == spec_find_benchmark(
                    self@.skip(i as int),
                    name@,
                ),
            decreases n - i,
        {
            proof {
                assert(self@[i as int] == self.entries@[i as int]@);
                assert(self@.skip(i as int)[0] == self@[i as int]);
            }
            if self.entries[i].name == key {
                proof {
                    assert(self@.skip(i as int)[0].name == name@);
                    assert(spec_find_benchmark(self@.skip(i as int), name@) == Some(
                        self@.skip(i as int)[0],
                    ));
                }
                return Some(&self.entries[i]);
            }
            proof {
                assert(self@.skip(i as int).skip(1) =~= self@.skip(i as int + 1));
            }
            i = i + 1;
        }
        proof {
            assert(self@.skip(n as int) =~= Seq::<BenchmarkView>::empty());
        }
        None
    }

    /// Build a catalog directly from workload entries, keeping their order.
    /// Lets a caller measure workloads outside the fixed derivation rules.
    pub fn from_entries(entries: Vec<Benchmark>) -> (r: Self)
        ensures
            r@ == catalog_view(entries@),
    {
        Catalog { entries }
    }
}

/// Build the catalog a compiled-workload input gives rise to.
///
/// Pure and idempotent: the result is a function of the input alone, so two
/// builds from the same input yield identical entries in identical order.
pub fn get_evm_benchmarks(compiled: &ContractCompiler) -> (r: Catalog)
    ensures
        r@ == spec_catalog(compiled@),
        sorted_by_name(r@),
{
    proof {
        lemma_catalog_sorted_by_name(compiled@);
    }
    let mut entries: Vec<Benchmark> = Vec::new();

    if let Some(c) = compiled.get_contract("ERC20ApprovalTransfer") {
        entries.push(
            Benchmark {
                name: "erc20_approval_bench".to_owned(),
                description: "Benchmark ERC20 approval and transfer operations".to_owned(),
                category: "token".to_owned(),
                bench_type: "evm".to_owned(),
                bytecode: c.bytecode.clone(),
                calldata: get_function_selector("Benchmark()"),
                gas: 30000000,
            },
        );
    }
    let ghost part1 = catalog_entry(
        compiled@,
        ("ERC20ApprovalTransfer")@,
        ("erc20_approval_bench")@,
        ("Benchmark ERC20 approval and transfer operations")@,
        ("token")@,
        benchmark_selector_calldata(),
        30000000,
    );
    proof {
        assert(catalog_view(entries@) =~= part1);
    }

    if let Some(c) = compiled.get_contract("ERC20Mint") {
        entries.push(
            Benchmark {
                name: "erc20_mint_bench".to_owned(),
                description: "Benchmark ERC20 minting operations".to_owned(),
                category: "token".to_owned(),
                bench_type: "evm".to_owned(),
                bytecode: c.bytecode.clone(),
                calldata: get_function_selector("Benchmark()"),
                gas: 30000000,
            },
        );
    }
    let ghost part2 = part1 + catalog_entry(
        compiled@,
        ("ERC20Mint")@,
        ("erc20_mint_bench")@,
        ("Benchmark ERC20 minting operations")@,
        ("token")@,
        benchmark_selector_calldata(),
        30000000,
    );
    proof {
        assert(catalog_view(entries@) =~= part2);
    }

    if let Some(c) = compiled.get_contract("ERC20Transfer") {
        entries.push(
            Benchmark {
                name: "erc20_transfer_bench".to_owned(),
                description: "Benchmark ERC20 transfer operations".to_owned(),
                category: "token".to_owned(),
                bench_type: "evm".to_owned(),
                bytecode: c.bytecode.clone(),
                calldata: get_function_selector("Benchmark()"),
                gas: 30000000,
            },
        );
    }
    let ghost part3 = part2 + catalog_entry(
        compiled@,
        ("ERC20Transfer")@,
        ("erc20_transfer_bench")@,
        ("Benchmark ERC20 transfer operations")@,
        ("token")@,
        benchmark_selector_calldata(),
        30000000,
    );
    proof {
        assert(catalog_view(entries@) =~= part3);
    }

    if let Some(c) = compiled.get_contract("SnailTracer") {
        entries.push(
            Benchmark {
                name: "snailtracer".to_owned(),
                description: "Ray tracing benchmark (compute intensive)".to_owned(),
                category: "compute".to_owned(),
                bench_type: "evm".to_owned(),
                bytecode: c.bytecode.clone(),
                calldata: "0x30627b7c".to_owned(),
                gas: 1000000000,
            },
        );
    }
    let ghost part4 = part3 + catalog_entry(
        compiled@,
        ("SnailTracer")@,
        ("snailtracer")@,
        ("Ray tracing benchmark (compute intensive)")@,
        ("compute")@,
        ("0x30627b7c")@,
        1000000000,
    );
    proof {
        assert(catalog_view(entries@) =~= part4);
    }

    if let Some(c) = compiled.get_contract("TenThousandHashes") {
        entries.push(
            Benchmark {
                name: "ten_thousand_hashes".to_owned(),
                description: "Execute 10,000 keccak256 hash operations".to_owned(),
                category: "compute".to_owned(),
                bench_type: "evm".to_owned(),
                bytecode: c.bytecode.clone(),
                calldata: get_function_selector("Benchmark()"),
                gas: 30000000,
            },
        );
    }
    proof {
        assert(catalog_view(entries@) =~= spec_catalog(compiled@));
    }

    Catalog { entries }
}

/// Law: building the catalog is deterministic. Two catalogs built from the
/// same compiled-workload input hold identical entries in identical order,
/// so repeated builds list workloads the same way.
pub proof fn lemma_catalog_build_deterministic(
    a: Catalog,
    b: Catalog,
    cs: Seq<CompiledContractView>,
)
    requires
        a@ == spec_catalog(cs),
        b@ == spec_catalog(cs),
    ensures
        a@ == b@,
{
}


/// Strict lexicographic order on character sequences, by code point.
pub open spec fn lex_lt(a: Seq<char>, b: Seq<char>) -> bool
    decreases a.len(),
{
    if b.len() == 0 {
        false
    } else if a.len() == 0 {
        true
    } else if a[0] < b[0] {
        true
    } else if a[0] == b[0] {
        lex_lt(a.skip(1), b.skip(1))
    } else {
        false
    }
}

proof fn lemma_lex_lt_trans(a: Seq<char>, b: Seq<char>, c: Seq<char>)
    requires
        lex_lt(a, b),
        lex_lt(b, c),
    ensures
        lex_lt(a, c),
    decreases a.len(),
{
    if a.len() > 0 && b.len() > 0 && c.len() > 0 {
        if a[0] == b[0] && b[0] == c[0] {
            lemma_lex_lt_trans(a.skip(1), b.skip(1), c.skip(1));
        }
    }
}

/// The names of the five derivation rules, in catalog order.
proof fn lemma_rule_names_ordered()
    ensures
        lex_lt(("erc20_approval_bench")@, ("erc20_mint_bench")@),
        lex_lt(("erc20_mint_bench")@, ("erc20_transfer_bench")@),
        lex_lt(("erc20_transfer_bench")@, ("snailtracer")@),
        lex_lt(("snailtracer")@, ("ten_thousand_hashes")@),
{
    reveal_strlit("erc20_approval_bench");
    reveal_strlit("erc20_mint_bench");
    reveal_strlit("erc20_transfer_bench");
    reveal_strlit("snailtracer");
    reveal_strlit("ten_thousand_hashes");
    reveal_with_fuel(lex_lt, 10);
    assert(lex_lt(("erc20_approval_bench")@, ("erc20_mint_bench")@));
    assert(lex_lt(("erc20_mint_bench")@, ("erc20_transfer_bench")@));
    assert(lex_lt(("erc20_transfer_bench")@, ("snailtracer")@));
    assert(lex_lt(("snailtracer")@, ("ten_thousand_hashes")@));
}

/// Entries stand in strictly increasing name order.
pub open spec fn sorted_by_name(entries: Seq<BenchmarkView>) -> bool {
    forall|i: int, j: int|
        0 <= i < j < entries.len() ==> lex_lt(
            #[trigger] entries[i].name,
            #[trigger] entries[j].name,
        )
}

proof fn lemma_sorted_concat(xs: Seq<BenchmarkView>, ys: Seq<BenchmarkView>)
    requires
        sorted_by_name(xs),
        sorted_by_name(ys),
        forall|i: int, j: int|
            0 <= i < xs.len() && 0 <= j < ys.len() ==> lex_lt(
                #[trigger] xs[i].name,
                #[trigger] ys[j].name,
            ),
    ensures
        sorted_by_name(xs + ys),
{
    let s = xs + ys;
    assert forall|i: int, j: int| 0 <= i < j < s.len() implies lex_lt(
        #[trigger] s[i].name,
        #[trigger] s[j].name,
    ) by {
        if i < xs.len() && j < xs.len() {
            assert(s[i] == xs[i] && s[j] == xs[j]);
        } else if i < xs.len() {
            assert(s[i] == xs[i] && s[j] == ys[j - xs.len()]);
        } else {
            assert(s[i] == ys[i - xs.len()] && s[j] == ys[j - xs.len()]);
        }
    }
}

/// Law: the catalog imposes a stable order. Whatever the compiled-workload
/// input holds, the catalog's entries stand in strictly increasing
/// lexicographic name order, so report output is deterministic across runs.
pub proof fn lemma_catalog_sorted_by_name(cs: Seq<CompiledContractView>)
    ensures
        sorted_by_name(spec_catalog(cs)),
{
    lemma_rule_names_ordered();
    let n1 = ("erc20_approval_bench")@;
    let n2 = ("erc20_mint_bench")@;
    let n3 = ("erc20_transfer_bench")@;
    let n4 = ("snailtracer")@;
    let n5 = ("ten_thousand_hashes")@;
    lemma_lex_lt_trans(n1, n2, n3);
    lemma_lex_lt_trans(n1, n3, n4);
    lemma_lex_lt_trans(n1, n4, n5);
    lemma_lex_lt_trans(n2, n3, n4);
    lemma_lex_lt_trans(n2, n4, n5);
    lemma_lex_lt_trans(n3, n4, n5);

    let e1 = catalog_entry(
        cs,
        ("ERC20ApprovalTransfer")@,
        n1,
        ("Benchmark ERC20 approval and transfer operations")@,
        ("token")@,
        benchmark_selector_calldata(),
        30000000,
    );
    let e2 = catalog_entry(
        cs,
        ("ERC20Mint")@,
        n2,
        ("Benchmark ERC20 minting operations")@,
        ("token")@,
        benchmark_selector_calldata(),
        30000000,
    );
    let e3 = catalog_entry(
        cs,
        ("ERC20Transfer")@,
        n3,
        ("Benchmark ERC20 transfer operations")@,
        ("token")@,
        benchmark_selector_calldata(),
        30000000,
    );
    let e4 = catalog_entry(
        cs,
        ("SnailTracer")@,
        n4,
        ("Ray tracing benchmark (compute intensive)")@,
        ("compute")@,
        ("0x30627b7c")@,
        1000000000,
    );
    let e5 = catalog_entry(
        cs,
        ("TenThousandHashes")@,
        n5,
        ("Execute 10,000 keccak256 hash operations")@,
        ("compute")@,
        benchmark_selector_calldata(),
        30000000,
    );
    assert(forall|i: int| 0 <= i < e1.len() ==> #[trigger] e1[i].name == n1);
    assert(forall|i: int| 0 <= i < e2.len() ==> #[trigger] e2[i].name == n2);
    assert(forall|i: int| 0 <= i < e3.len() ==> #[trigger] e3[i].name == n3);
    assert(forall|i: int| 0 <= i < e4.len() ==> #[trigger] e4[i].name == n4);
    assert(forall|i: int| 0 <= i < e5.len() ==> #[trigger] e5[i].name == n5);

    lemma_sorted_concat(e1, e2);
    let s12 = e1 + e2;
    assert(forall|i: int|
        0 <= i < s12.len() ==> #[trigger] s12[i].name == n1 || s12[i].name == n2);
    lemma_sorted_concat(s12, e3);
    let s13 = s12 + e3;
    assert(forall|i: int|
        0 <= i < s13.len() ==> #[trigger] s13[i].name == n1 || s13[i].name == n2
            || s13[i].name == n3);
    lemma_sorted_concat(s13, e4);
    let s14 = s13 + e4;
    assert(forall|i: int|
        0 <= i < s14.len() ==> #[trigger] s14[i].name == n1 || s14[i].name == n2
            || s14[i].name == n3 || s14[i].name == n4);
    lemma_sorted_concat(s14, e5);
    assert(spec_catalog(cs) == s14 + e5);
}


/// A workload can be dispatched: its payloads decode as hex (an optional
/// `0x` prefix allowed) and it has gas to run.
pub open spec fn workload_well_formed(b: BenchmarkView) -> bool {
    is_valid_hex(strip_hex_prefix(b.bytecode)) && is_valid_hex(strip_hex_prefix(b.calldata))
        && b.gas > 0
}

proof fn lemma_selector_calldata_valid(sig_bytes: Seq<u8>)
    ensures
        is_valid_hex(strip_hex_prefix(selector_of(sig_bytes))),
{
    reveal_strlit("0x");
    let s = selector_of(sig_bytes);
    let body = encode_hex_seq(keccak256_of(sig_bytes).take(4));
    assert(s[0] == '0' && s[1] == 'x');
    crate::hex::lemma_hex_encode_decode_roundtrip(keccak256_of(sig_bytes).take(4));
    assert(strip_hex_prefix(s) =~= body);
}

/// Law: every catalog entry can be dispatched. Each derived workload carries
/// a positive gas limit and calldata that decodes as hex; its bytecode
/// decodes exactly when the compiled artifact it was derived from does.
pub proof fn lemma_catalog_calldata_runnable(cs: Seq<CompiledContractView>)
    ensures
        forall|i: int|
            0 <= i < spec_catalog(cs).len() ==> (#[trigger] spec_catalog(cs)[i]).gas > 0
                && is_valid_hex(strip_hex_prefix(spec_catalog(cs)[i].calldata)),
        forall|i: int|
            0 <= i < spec_catalog(cs).len() && is_valid_hex(
                strip_hex_prefix((#[trigger] spec_catalog(cs)[i]).bytecode),
            ) ==> workload_well_formed(spec_catalog(cs)[i]),
{
    lemma_selector_calldata_valid(("Benchmark()").spec_bytes());
    reveal_strlit("0x30627b7c");
    let fixed = ("0x30627b7c")@;
    assert(is_valid_hex(strip_hex_prefix(fixed))) by {
        let body = strip_hex_prefix(fixed);
        assert(body =~= fixed.subrange(2, 10));
        assert forall|j: int| 0 <= j < body.len() implies crate::hex::is_hex_digit(
            #[trigger] body[j],
        ) by {
            assert(body[j] == fixed[j + 2]);
        }
    }
    assert forall|i: int| 0 <= i < spec_catalog(cs).len() implies (#[trigger] spec_catalog(
        cs,
    )[i]).gas > 0 && is_valid_hex(strip_hex_prefix(spec_catalog(cs)[i].calldata)) by {
        let e = spec_catalog(cs)[i];
        assert(e.calldata == benchmark_selector_calldata() || e.calldata == fixed);
    }
}

} // verus!
