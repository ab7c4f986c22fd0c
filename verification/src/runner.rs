//! The orchestration sweep over (benchmark, backend) pairs.
//!
//! A run plans a deterministic pair list — benchmarks outer, backends inner,
//! both in their fixed selection order — and records one outcome per pair,
//! continuing past per-pair failures. When the sweep is done, every planned
//! pair holds exactly one outcome, measured or failed: the counts reconcile,
//! and no requested pair is silently omitted.

use vstd::prelude::*;
use crate::benchmarks::{Benchmark, BenchmarkView, Catalog, catalog_view, spec_find_benchmark};
use crate::samples::{BenchmarkResult, SampleView};
use crate::selection::{ConfigurationError, string_views};

verus! {

/// One (benchmark, backend) combination: the unit of measurement and of
/// failure reporting.
#[derive(Debug, Clone, PartialEq)]
pub struct Pair {
    /// The benchmark's name.
    pub benchmark: String,
    /// The backend identifier.
    pub backend: String,
}

/// Mathematical image of a pair.
#[verifier::ext_equal]
pub ghost struct PairView {
    pub benchmark: Seq<char>,
    pub backend: Seq<char>,
}

impl View for Pair {
    type V = PairView;

    open spec fn view(&self) -> PairView {
        PairView { benchmark: self.benchmark@, backend: self.backend@ }
    }
}

pub open spec fn pair_views(pairs: Seq<Pair>) -> Seq<PairView> {
    pairs.map_values(|p: Pair| p@)
}

/// The pairs one benchmark row gives rise to: that benchmark against every
/// backend, in backend-selection order.
pub open spec fn pair_row(benchmark: Seq<char>, backends: Seq<Seq<char>>) -> Seq<PairView> {
    Seq::new(backends.len(), |j: int| PairView { benchmark, backend: backends[j] })
}

/// The deterministic pair plan: benchmarks outer, backends inner.
pub open spec fn spec_pairs(benchmarks: Seq<Seq<char>>, backends: Seq<Seq<char>>) -> Seq<PairView>
    decreases benchmarks.len(),
{
    if benchmarks.len() == 0 {
        Seq::empty()
    } else {
        pair_row(benchmarks[0], backends) + spec_pairs(benchmarks.skip(1), backends)
    }
}

proof fn lemma_spec_pairs_snoc(benchmarks: Seq<Seq<char>>, x: Seq<char>, backends: Seq<Seq<char>>)
    ensures
        spec_pairs(benchmarks.push(x), backends) == spec_pairs(benchmarks, backends) + pair_row(
            x,
            backends,
        ),
    decreases benchmarks.len(),
{
    if benchmarks.len() == 0 {
        assert(benchmarks.push(x)[0] == x);
        let e = benchmarks.push(x).skip(1);
        assert(e.len() == 0);
        assert(spec_pairs(e, backends) =~= Seq::<PairView>::empty());
        assert(spec_pairs(benchmarks.push(x), backends) =~= spec_pairs(benchmarks, backends)
            + pair_row(x, backends));
    } else {
        assert(benchmarks.push(x).skip(1) =~= benchmarks.skip(1).push(x));
        assert(benchmarks.push(x)[0] == benchmarks[0]);
        lemma_spec_pairs_snoc(benchmarks.skip(1), x, backends);
        assert(spec_pairs(benchmarks.push(x), backends) =~= spec_pairs(benchmarks, backends)
            + pair_row(x, backends));
    }
}

/// The names of the given benchmarks, in order.
pub open spec fn benchmark_names(benchmarks: Seq<BenchmarkView>) -> Seq<Seq<char>> {
    benchmarks.map_values(|b: BenchmarkView| b.name)
}

/// Plan the sweep's pair list: every selected benchmark against every
/// selected backend, benchmarks outer, backends inner, both in their given
/// order. Repeated runs with the same selections visit pairs identically.
pub fn plan_pairs(benchmarks: &Vec<Benchmark>, backends: &Vec<String>) -> (r: Vec<Pair>)
    ensures
        pair_views(r@) == spec_pairs(
            benchmark_names(catalog_view(benchmarks@)),
            string_views(backends@),
        ),
{
    let ghost names = benchmark_names(catalog_view(benchmarks@));
    let ghost bks = string_views(backends@);
    let nb = benchmarks.len();
    let nk = backends.len();
    let mut pairs: Vec<Pair> = Vec::new();
    let mut b: usize = 0;
    proof {
        assert(names.take(0) =~= Seq::<Seq<char>>::empty());
        assert(pair_views(pairs@) =~= spec_pairs(names.take(0), bks));
    }
    while b < nb
        invariant
            nb == benchmarks@.len(),
            nk == backends@.len(),
            names == benchmark_names(catalog_view(benchmarks@)),
            bks == string_views(backends@),
            names.len() == nb,
            bks.len() == nk,
            b <= nb,
            pair_views(pairs@) =~= spec_pairs(names.take(b as int), bks),
        decreases nb - b,
    {
        let mut k: usize = 0;
        while k < nk
            invariant
                nb == benchmarks@.len(),
                nk == backends@.len(),
                names == benchmark_names(catalog_view(benchmarks@)),
                bks == string_views(backends@),
                names.len() == nb,
                bks.len() == nk,
                b < nb,
                k <= nk,
                pair_views(pairs@) =~= spec_pairs(names.take(b as int), bks) + pair_row(
                    names[b as int],
                    bks,
                ).take(k as int),
            decreases nk - k,
        {
            let p = Pair {
                benchmark: benchmarks[b].name.clone(),
                backend: backends[k].clone(),
            };
            proof {
                assert(p@ == pair_row(names[b as int], bks)[k as int]);
                assert(pair_views(pairs@.push(p)) =~= pair_views(pairs@) + seq![p@]);
                assert(pair_row(names[b as int], bks).take(k as int + 1) =~= pair_row(
                    names[b as int],
                    bks,
                ).take(k as int) + seq![pair_row(names[b as int], bks)[k as int]]);
            }
            pairs.push(p);
            k = k + 1;
        }
        proof {
            assert(pair_row(names[b as int], bks).take(nk as int) =~= pair_row(
                names[b as int],
                bks,
            ));
            lemma_spec_pairs_snoc(names.take(b as int), names[b as int], bks);
            assert(names.take(b as int).push(names[b as int]) =~= names.take(b as int + 1));
        }
        b = b + 1;
    }
    proof {
        assert(names.take(nb as int) =~= names);
    }
    pairs
}

/// A per-pair failure: recorded against its pair, never aborting the sweep.
#[derive(Debug, Clone, PartialEq)]
pub enum FailureKind {
    /// The measured subprocess failed for infrastructure reasons.
    Execution(String),
    /// The timing tool's report was missing or malformed for this pair.
    TimingTool(String),
}

/// Mathematical image of a per-pair failure.
#[verifier::ext_equal]
pub ghost enum FailureKindView {
    Execution(Seq<char>),
    TimingTool(Seq<char>),
}

impl View for FailureKind {
    type V = FailureKindView;

    open spec fn view(&self) -> FailureKindView {
        match self {
            FailureKind::Execution(m) => FailureKindView::Execution(m@),
            FailureKind::TimingTool(m) => FailureKindView::TimingTool(m@),
        }
    }
}

impl FailureKind {
    /// A field-for-field copy whose image equals this failure's.
    pub fn duplicate(&self) -> (r: FailureKind)
        ensures
            r@ == self@,
    {
        match self {
            FailureKind::Execution(m) => FailureKind::Execution(m.clone()),
            FailureKind::TimingTool(m) => FailureKind::TimingTool(m.clone()),
        }
    }
}

/// What one pair's measurement came to: a sample set, or a recorded failure.
#[derive(Debug, Clone, PartialEq)]
pub enum PairOutcome {
    /// The pair was measured; its sample set is valid.
    Measured(BenchmarkResult),
    /// The pair failed; the report shows it as failed, not omitted.
    Failed(FailureKind),
}

/// Mathematical image of a pair outcome.
#[verifier::ext_equal]
pub ghost enum PairOutcomeView {
    Measured(SampleView),
    Failed(FailureKindView),
}

impl View for PairOutcome {
    type V = PairOutcomeView;

    open spec fn view(&self) -> PairOutcomeView {
        match self {
            PairOutcome::Measured(s) => PairOutcomeView::Measured(s@),
            PairOutcome::Failed(f) => PairOutcomeView::Failed(f@),
        }
    }
}

pub open spec fn outcome_views(outcomes: Seq<PairOutcome>) -> Seq<PairOutcomeView> {
    outcomes.map_values(|o: PairOutcome| o@)
}

/// How many outcomes were measured.
pub open spec fn measured_count(outcomes: Seq<PairOutcomeView>) -> int
    decreases outcomes.len(),
{
    if outcomes.len() == 0 {
        0
    } else {
        measured_count(outcomes.drop_last()) + (if outcomes.last() is Measured {
            1int
        } else {
            0int
        })
    }
}

/// How many outcomes failed.
pub open spec fn failed_count(outcomes: Seq<PairOutcomeView>) -> int
    decreases outcomes.len(),
{
    if outcomes.len() == 0 {
        0
    } else {
        failed_count(outcomes.drop_last()) + (if outcomes.last() is Failed {
            1int
        } else {
            0int
        })
    }
}

/// Law: outcome counts reconcile. Every recorded outcome is measured or
/// failed, so over any outcome list the two counts sum to its length; over a
/// finished sweep they sum to the number of requested pairs.
pub proof fn lemma_counts_reconcile(outcomes: Seq<PairOutcomeView>)
    ensures
        measured_count(outcomes) + failed_count(outcomes) == outcomes.len(),
        measured_count(outcomes) >= 0,
        failed_count(outcomes) >= 0,
    decreases outcomes.len(),
{
    if outcomes.len() > 0 {
        lemma_counts_reconcile(outcomes.drop_last());
    }
}

/// Mathematical image of a sweep.
#[verifier::ext_equal]
pub ghost struct SweepView {
    pub pairs: Seq<PairView>,
    pub outcomes: Seq<PairOutcomeView>,
}

/// The sweep state machine: a planned pair list and the outcomes recorded so
/// far, one per pair, in plan order. The sweep never reorders, interleaves,
/// or drops pairs.
#[derive(Debug)]
pub struct Sweep {
    pairs: Vec<Pair>,
    outcomes: Vec<PairOutcome>,
}

impl View for Sweep {
    type V = SweepView;

    closed spec fn view(&self) -> SweepView {
        SweepView { pairs: pair_views(self.pairs@), outcomes: outcome_views(self.outcomes@) }
    }
}

impl Sweep {
    /// The sweep holds at most one outcome per planned pair.
    pub open spec fn well_formed(self) -> bool {
        self@.outcomes.len() <= self@.pairs.len()
    }

    /// Start a sweep over a planned pair list, with nothing recorded yet.
    pub fn new(pairs: Vec<Pair>) -> (r: Self)
        ensures
            r@.pairs == pair_views(pairs@),
            r@.outcomes.len() == 0,
            r.well_formed(),
    {
        let r = Sweep { pairs, outcomes: Vec::new() };
        proof {
            assert(outcome_views(r.outcomes@) =~= Seq::<PairOutcomeView>::empty());
        }
        r
    }

    /// How many pairs the sweep plans to measure.
    pub fn requested(&self) -> (r: usize)
        ensures
            r == self@.pairs.len(),
    {
        self.pairs.len()
    }

    /// How many pairs hold an outcome so far.
    pub fn recorded(&self) -> (r: usize)
        ensures
            r == self@.outcomes.len(),
    {
        self.outcomes.len()
    }

    /// Whether every planned pair holds an outcome.
    pub fn is_done(&self) -> (r: bool)
        ensures
            r == (self@.outcomes.len() == self@.pairs.len()),
    {
        self.outcomes.len() == self.pairs.len()
    }

    /// The next pair to measure: the first without an outcome.
    pub fn next_pair(&self) -> (r: Option<&Pair>)
        requires
            self.well_formed(),
        ensures
            self@.outcomes.len() == self@.pairs.len() ==> r is None,
            self@.outcomes.len() < self@.pairs.len() ==> r is Some && r->0@
                == self@.pairs[self@.outcomes.len() as int],
    {
        let done = self.outcomes.len();
        if done < self.pairs.len() {
            proof {
                assert(pair_views(self.pairs@)[done as int] == self.pairs@[done as int]@);
            }
            Some(&self.pairs[done])
        } else {
            None
        }
    }

    /// Record the outcome of the next pair. The plan is unchanged; the
    /// outcome lands at the position of the pair it answers.
    pub fn record(&mut self, outcome: PairOutcome)
        requires
            old(self).well_formed(),
            old(self)@.outcomes.len() < old(self)@.pairs.len(),
        ensures
            final(self).well_formed(),
            final(self)@.pairs == old(self)@.pairs,
            final(self)@.outcomes == old(self)@.outcomes.push(outcome@),
    {
        proof {
            assert(outcome_views(self.outcomes@.push(outcome)) =~= outcome_views(
                self.outcomes@,
            ).push(outcome@));
        }
        self.outcomes.push(outcome);
    }

    /// The planned pairs, in plan order.
    pub fn pairs(&self) -> (r: &Vec<Pair>)
        ensures
            pair_views(r@) == self@.pairs,
    {
        &self.pairs
    }

    /// The recorded outcomes, in plan order: the i-th outcome answers the
    /// i-th pair.
    pub fn outcomes(&self) -> (r: &Vec<PairOutcome>)
        ensures
            outcome_views(r@) == self@.outcomes,
    {
        &self.outcomes
    }
}

/// Select the benchmarks a run measures: one named workload, or the whole
/// catalog. An unknown name is reported as a configuration error naming it;
/// an empty catalog is one too.
pub fn select_benchmarks(catalog: &Catalog, name: Option<String>) -> (r: Result<
    Vec<Benchmark>,
    ConfigurationError,
>)
    ensures
        catalog@.len() == 0 ==> r is Err && r->Err_0 matches ConfigurationError::NoBenchmarks,
        catalog@.len() > 0 && name is Some ==> (match r {
            Ok(bs) => spec_find_benchmark(catalog@, name->0@) is Some && catalog_view(bs@)
                == seq![spec_find_benchmark(catalog@, name->0@)->0],
            Err(e) => spec_find_benchmark(catalog@, name->0@) is None && (e matches
                ConfigurationError::UnknownBenchmark(n) && n@ == name->0@),
        }),
        catalog@.len() > 0 && name is None ==> r is Ok && catalog_view(r->Ok_0@) == catalog@,
{
    if catalog.len() == 0 {
        return Err(ConfigurationError::NoBenchmarks);
    }
    match name {
        Some(n) => {
            match catalog.get(n.as_str()) {
                Some(b) => {
                    let one = b.duplicate();
                    let mut out: Vec<Benchmark> = Vec::new();
                    proof {
                        let ghost bv = one@;
                        assert(catalog_view(out@.push(one)) =~= seq![bv]);
                    }
                    out.push(one);
                    Ok(out)
                },
                None => Err(ConfigurationError::UnknownBenchmark(n)),
            }
        },
        None => {
            let entries = catalog.all();
            let n = entries.len();
            let mut out: Vec<Benchmark> = Vec::new();
            let mut i: usize = 0;
            while i < n
                invariant
                    n == entries@.len(),
                    i <= n,
                    catalog_view(entries@) == catalog@,
                    catalog_view(out@) =~= catalog@.take(i as int),
                decreases n - i,
            {
                let b = entries[i].duplicate();
                proof {
                    assert(catalog_view(out@.push(b)) =~= catalog_view(out@) + seq![b@]);
                    assert(catalog@.take(i as int + 1) =~= catalog@.take(i as int) + seq![
                        catalog_view(entries@)[i as int],
                    ]);
                }
                out.push(b);
                i = i + 1;
            }
            proof {
                assert(catalog@.take(n as int) =~= catalog@);
            }
            Ok(out)
        },
    }
}


/// The rest of a comma-joined list: a leading comma before each piece.
pub open spec fn join_tail(ids: Seq<Seq<char>>) -> Seq<char>
    decreases ids.len(),
{
    if ids.len() == 0 {
        Seq::empty()
    } else {
        seq![','] + ids[0] + join_tail(ids.skip(1))
    }
}

/// The pieces joined with commas; empty for no pieces.
pub open spec fn join_commas(ids: Seq<Seq<char>>) -> Seq<char> {
    if ids.len() == 0 {
        Seq::empty()
    } else {
        ids[0] + join_tail(ids.skip(1))
    }
}

/// Join identifiers into one comma-separated selector string.
pub fn join_backends(ids: &Vec<String>) -> (r: String)
    ensures
        r@ == join_commas(string_views(ids@)),
{
    let ghost views = string_views(ids@);
    let n = ids.len();
    let mut out = String::new();
    if n == 0 {
        return out;
    }
    out.append(ids[0].as_str());
    let mut i: usize = 1;
    proof {
        reveal_strlit(",");
        assert(out@ =~= views[0]);
    }
    while i < n
        invariant
            n == ids@.len(),
            views == string_views(ids@),
            views.len() == n,
            1 <= i <= n,
            (",")@ =~= seq![','],
            out@ + join_tail(views.skip(i as int)) =~= join_commas(views),
        decreases n - i,
    {
        out.append(",");
        out.append(ids[i].as_str());
        proof {
            let rest = views.skip(i as int);
            assert(rest[0] == views[i as int]);
            assert(rest.skip(1) =~= views.skip(i as int + 1));
            assert(out@ + join_tail(views.skip(i as int + 1)) =~= join_commas(views));
        }
        i = i + 1;
    }
    proof {
        assert(join_tail(views.skip(n as int)) =~= Seq::<char>::empty());
        assert(out@ =~= join_commas(views));
    }
    out
}

/// Everything one run of the sweep is configured by. The runner turns a
/// comparison request into one of these; whoever drives the sweep reads it.
#[derive(Debug, Clone)]
pub struct RunConfig {
    /// One named benchmark, or the whole catalog.
    pub benchmark: Option<String>,
    /// Timed runs per pair.
    pub iterations: usize,
    /// Discarded warmup runs per pair.
    pub warmup: usize,
    /// Single-backend selector.
    pub evm: Option<String>,
    /// Comma-separated multi-backend selector.
    pub evms: Option<String>,
    /// All-available selector.
    pub all: bool,
    /// Where to persist the report, if anywhere.
    pub output: Option<String>,
    /// Where to persist the timing tool's raw reports, if anywhere.
    pub export_json: Option<String>,
    /// Whether to narrate subprocess invocations.
    pub verbose: bool,
}

/// Turn a comparison request into a run configuration: the named backends
/// joined as a multi-backend selector, ten timed runs and three warmup runs
/// per pair, and no verbosity.
pub fn compare_evms(evms: Vec<String>, benchmark: Option<String>, output: Option<String>) -> (r:
    RunConfig)
    ensures
        r.benchmark == benchmark,
        r.iterations == 10,
        r.warmup == 3,
        r.evm is None,
        r.evms is Some && r.evms->0@ == join_commas(string_views(evms@)),
        !r.all,
        r.output == output,
        r.export_json is None,
        !r.verbose,
{
    let joined = join_backends(&evms);
    RunConfig {
        benchmark,
        iterations: 10,
        warmup: 3,
        evm: None,
        evms: Some(joined),
        all: false,
        output,
        export_json: None,
        verbose: false,
    }
}

} // verus!
