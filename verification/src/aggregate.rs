//! The result aggregator: fastest backend and relative ratios per benchmark.
//!
//! Aggregation is a pure function of the finished sweep: it groups measured
//! sample sets by benchmark in first-seen order, finds the minimum mean per
//! group, flags every backend within a small fixed epsilon of that minimum
//! as fastest (more than one flagged backend is a tie, never an arbitrary
//! winner), and reports each backend's mean relative to the minimum in
//! hundredths. Failed pairs are listed, never silently omitted, and the
//! counts reconcile: requested = measured + failed.

use vstd::prelude::*;
use crate::runner::{
    FailureKind, FailureKindView, PairOutcome, PairOutcomeView, PairView, Sweep, measured_count,
    outcome_views, pair_views,
};
use crate::selection::{dedup_first, dedup_first_seen, string_views};

verus! {

/// Two means closer than this many nanoseconds count as tied.
pub const TIE_EPSILON_NANOS: u64 = 100000;

/// The benchmark names of the planned pairs, in plan order.
pub open spec fn pair_benchmarks(pairs: Seq<PairView>) -> Seq<Seq<char>> {
    pairs.map_values(|p: PairView| p.benchmark)
}

/// The distinct benchmark names of the sweep, in first-seen plan order.
pub open spec fn bench_list(pairs: Seq<PairView>) -> Seq<Seq<char>> {
    dedup_first(pair_benchmarks(pairs))
}

/// The (backend, mean) entries measured for one benchmark, in plan order.
pub open spec fn means_for(
    pairs: Seq<PairView>,
    outcomes: Seq<PairOutcomeView>,
    bench: Seq<char>,
) -> Seq<(Seq<char>, u64)>
    decreases pairs.len(),
{
    if pairs.len() == 0 || outcomes.len() == 0 {
        Seq::empty()
    } else {
        (if pairs[0].benchmark == bench && outcomes[0] is Measured {
            seq![(pairs[0].backend, outcomes[0]->Measured_0.mean)]
        } else {
            Seq::empty()
        }) + means_for(pairs.skip(1), outcomes.skip(1), bench)
    }
}

/// The minimum mean among the entries; the largest value when there is none.
pub open spec fn min_mean(ms: Seq<(Seq<char>, u64)>) -> u64
    decreases ms.len(),
{
    if ms.len() == 0 {
        u64::MAX
    } else if ms[0].1 <= min_mean(ms.skip(1)) {
        ms[0].1
    } else {
        min_mean(ms.skip(1))
    }
}

proof fn lemma_min_mean_le(ms: Seq<(Seq<char>, u64)>, k: int)
    requires
        0 <= k < ms.len(),
    ensures
        min_mean(ms) <= ms[k].1,
    decreases ms.len(),
{
    if k > 0 {
        assert(ms.skip(1)[k - 1] == ms[k]);
        lemma_min_mean_le(ms.skip(1), k - 1);
    }
}

proof fn lemma_min_mean_attained(ms: Seq<(Seq<char>, u64)>)
    requires
        ms.len() > 0,
    ensures
        exists|i: int| 0 <= i < ms.len() && #[trigger] ms[i].1 == min_mean(ms),
    decreases ms.len(),
{
    if ms.len() == 1 {
        assert(ms.skip(1).len() == 0);
        assert(min_mean(ms.skip(1)) == u64::MAX);
        assert(ms[0].1 == min_mean(ms));
    } else if ms[0].1 <= min_mean(ms.skip(1)) {
        assert(ms[0].1 == min_mean(ms));
    } else {
        lemma_min_mean_attained(ms.skip(1));
        let i = choose|i: int|
            0 <= i < ms.skip(1).len() && #[trigger] ms.skip(1)[i].1 == min_mean(ms.skip(1));
        assert(ms[i + 1] == ms.skip(1)[i]);
        assert(ms[i + 1].1 == min_mean(ms));
    }
}

/// The mean relative to the fastest mean, in hundredths, rounded toward
/// zero and saturating. A fastest mean of zero compares as equal for a zero
/// mean and as the largest ratio otherwise.
pub open spec fn spec_ratio(mean: u64, fastest: u64) -> u64 {
    if fastest == 0 {
        if mean == 0 {
            100
        } else {
            u64::MAX
        }
    } else {
        let q = (mean as int * 100) / (fastest as int);
        if q > u64::MAX {
            u64::MAX
        } else {
            q as u64
        }
    }
}

/// Whether a mean counts as fastest: within the tie epsilon of the minimum.
pub open spec fn counts_as_fastest(mean: u64, fastest: u64) -> bool {
    (mean as int) < fastest as int + TIE_EPSILON_NANOS
}

/// One backend's aggregated line for one benchmark.
#[derive(Debug, Clone, PartialEq)]
pub struct BackendStats {
    /// The backend identifier.
    pub backend: String,
    /// Its mean run time in nanoseconds.
    pub mean: u64,
    /// Its mean relative to the benchmark's fastest mean, in hundredths:
    /// the fastest backend reports 100.
    pub ratio_hundredths: u64,
    /// Whether this backend counts as fastest for the benchmark.
    pub fastest: bool,
}

/// Mathematical image of one backend's line.
#[verifier::ext_equal]
pub ghost struct BackendStatsView {
    pub backend: Seq<char>,
    pub mean: u64,
    pub ratio_hundredths: u64,
    pub fastest: bool,
}

impl View for BackendStats {
    type V = BackendStatsView;

    open spec fn view(&self) -> BackendStatsView {
        BackendStatsView {
            backend: self.backend@,
            mean: self.mean,
            ratio_hundredths: self.ratio_hundredths,
            fastest: self.fastest,
        }
    }
}

pub open spec fn stats_views(entries: Seq<BackendStats>) -> Seq<BackendStatsView> {
    entries.map_values(|e: BackendStats| e@)
}

/// The aggregated lines for one benchmark's measured entries.
pub open spec fn stats_for(ms: Seq<(Seq<char>, u64)>, fastest: u64) -> Seq<BackendStatsView> {
    ms.map_values(
        |e: (Seq<char>, u64)|
            BackendStatsView {
                backend: e.0,
                mean: e.1,
                ratio_hundredths: spec_ratio(e.1, fastest),
                fastest: counts_as_fastest(e.1, fastest),
            },
    )
}

/// How many lines count as fastest.
pub open spec fn fastest_count(entries: Seq<BackendStatsView>) -> int
    decreases entries.len(),
{
    if entries.len() == 0 {
        0
    } else {
        fastest_count(entries.drop_last()) + (if entries.last().fastest {
            1int
        } else {
            0int
        })
    }
}

/// One benchmark's comparison across its measured backends.
#[derive(Debug, Clone, PartialEq)]
pub struct BenchmarkComparison {
    /// The benchmark's name.
    pub benchmark: String,
    /// The minimum mean among its measured backends, in nanoseconds.
    pub fastest_mean: u64,
    /// One line per measured backend, in plan order.
    pub entries: Vec<BackendStats>,
    /// Whether more than one backend counts as fastest.
    pub tied: bool,
}

/// Mathematical image of one benchmark's comparison.
#[verifier::ext_equal]
pub ghost struct ComparisonView {
    pub benchmark: Seq<char>,
    pub fastest_mean: u64,
    pub entries: Seq<BackendStatsView>,
    pub tied: bool,
}

impl View for BenchmarkComparison {
    type V = ComparisonView;

    open spec fn view(&self) -> ComparisonView {
        ComparisonView {
            benchmark: self.benchmark@,
            fastest_mean: self.fastest_mean,
            entries: stats_views(self.entries@),
            tied: self.tied,
        }
    }
}

pub open spec fn comparison_views(cs: Seq<BenchmarkComparison>) -> Seq<ComparisonView> {
    cs.map_values(|c: BenchmarkComparison| c@)
}

/// The comparison one benchmark's measured entries give rise to.
pub open spec fn comparison_for(
    pairs: Seq<PairView>,
    outcomes: Seq<PairOutcomeView>,
    bench: Seq<char>,
) -> ComparisonView {
    let ms = means_for(pairs, outcomes, bench);
    ComparisonView {
        benchmark: bench,
        fastest_mean: min_mean(ms),
        entries: stats_for(ms, min_mean(ms)),
        tied: fastest_count(stats_for(ms, min_mean(ms))) >= 2,
    }
}

/// The comparisons of the given benchmarks, skipping benchmarks with no
/// measured entry.
pub open spec fn spec_comparisons(
    benches: Seq<Seq<char>>,
    pairs: Seq<PairView>,
    outcomes: Seq<PairOutcomeView>,
) -> Seq<ComparisonView>
    decreases benches.len(),
{
    if benches.len() == 0 {
        Seq::empty()
    } else {
        (if means_for(pairs, outcomes, benches[0]).len() > 0 {
            seq![comparison_for(pairs, outcomes, benches[0])]
        } else {
            Seq::empty()
        }) + spec_comparisons(benches.skip(1), pairs, outcomes)
    }
}

/// One failed pair, kept in the report rather than omitted.
#[derive(Debug, Clone, PartialEq)]
pub struct FailedPair {
    /// The benchmark of the failed pair.
    pub benchmark: String,
    /// The backend of the failed pair.
    pub backend: String,
    /// Which way the pair failed.
    pub kind: FailureKind,
}

/// Mathematical image of a failed pair.
#[verifier::ext_equal]
pub ghost struct FailedPairView {
    pub benchmark: Seq<char>,
    pub backend: Seq<char>,
    pub kind: FailureKindView,
}

impl View for FailedPair {
    type V = FailedPairView;

    open spec fn view(&self) -> FailedPairView {
        FailedPairView { benchmark: self.benchmark@, backend: self.backend@, kind: self.kind@ }
    }
}

pub open spec fn failed_views(fs: Seq<FailedPair>) -> Seq<FailedPairView> {
    fs.map_values(|f: FailedPair| f@)
}

/// The failed pairs of the sweep, in plan order.
pub open spec fn failed_entries(pairs: Seq<PairView>, outcomes: Seq<PairOutcomeView>) -> Seq<
    FailedPairView,
>
    decreases pairs.len(),
{
    if pairs.len() == 0 || outcomes.len() == 0 {
        Seq::empty()
    } else {
        (if outcomes[0] is Failed {
            seq![
                FailedPairView {
                    benchmark: pairs[0].benchmark,
                    backend: pairs[0].backend,
                    kind: outcomes[0]->Failed_0,
                },
            ]
        } else {
            Seq::empty()
        }) + failed_entries(pairs.skip(1), outcomes.skip(1))
    }
}

/// The comparison report of a finished sweep.
#[derive(Debug, Clone, PartialEq)]
pub struct Report {
    /// One comparison per benchmark with at least one measured backend, in
    /// first-seen benchmark order.
    pub comparisons: Vec<BenchmarkComparison>,
    /// Every failed pair, in plan order.
    pub failed: Vec<FailedPair>,
    /// How many pairs the sweep requested.
    pub requested: usize,
    /// How many pairs were measured; with the failed pairs this accounts
    /// for every requested pair.
    pub measured: usize,
}

/// Mathematical image of a report.
#[verifier::ext_equal]
pub ghost struct ReportView {
    pub comparisons: Seq<ComparisonView>,
    pub failed: Seq<FailedPairView>,
    pub requested: int,
    pub measured: int,
}

impl View for Report {
    type V = ReportView;

    open spec fn view(&self) -> ReportView {
        ReportView {
            comparisons: comparison_views(self.comparisons@),
            failed: failed_views(self.failed@),
            requested: self.requested as int,
            measured: self.measured as int,
        }
    }
}

/// The report a finished sweep gives rise to.
pub open spec fn spec_report(pairs: Seq<PairView>, outcomes: Seq<PairOutcomeView>) -> ReportView {
    ReportView {
        comparisons: spec_comparisons(bench_list(pairs), pairs, outcomes),
        failed: failed_entries(pairs, outcomes),
        requested: pairs.len() as int,
        measured: measured_count(outcomes),
    }
}

/// Law: aggregation is deterministic. Two reports aggregated from the same
/// finished sweep are identical, comparison for comparison and failure for
/// failure, so aggregating twice gives identical output.
pub proof fn lemma_aggregate_deterministic(
    a: Report,
    b: Report,
    pairs: Seq<PairView>,
    outcomes: Seq<PairOutcomeView>,
)
    requires
        a@ == spec_report(pairs, outcomes),
        b@ == spec_report(pairs, outcomes),
    ensures
        a@ == b@,
{
}

/// Law: the fastest backend reports ratio one. Some measured entry attains
/// the minimum mean; every entry attaining it has ratio 100 (that is, 1.00)
/// and counts as fastest, and no entry's mean is below the minimum.
pub proof fn lemma_fastest_ratio_unity(ms: Seq<(Seq<char>, u64)>)
    requires
        ms.len() > 0,
    ensures
        exists|i: int| 0 <= i < ms.len() && #[trigger] ms[i].1 == min_mean(ms),
        forall|i: int| 0 <= i < ms.len() ==> min_mean(ms) <= #[trigger] ms[i].1,
        forall|i: int|
            0 <= i < ms.len() && #[trigger] ms[i].1 == min_mean(ms) ==> stats_for(
                ms,
                min_mean(ms),
            )[i].ratio_hundredths == 100 && stats_for(ms, min_mean(ms))[i].fastest,
{
    lemma_min_mean_attained(ms);
    assert forall|i: int| 0 <= i < ms.len() implies min_mean(ms) <= #[trigger] ms[i].1 by {
        lemma_min_mean_le(ms, i);
    }
    assert forall|i: int|
        0 <= i < ms.len() && #[trigger] ms[i].1 == min_mean(ms) implies stats_for(
        ms,
        min_mean(ms),
    )[i].ratio_hundredths == 100 && stats_for(ms, min_mean(ms))[i].fastest by {
        let f = min_mean(ms);
        if f != 0 {
            assert((f as int * 100) / (f as int) == 100) by (nonlinear_arith)
                requires
                    f > 0,
            ;
        }
        assert(spec_ratio(f, f) == 100);
    }
}

/// The backends a set of lines flags as fastest, in order.
pub open spec fn fastest_of(entries: Seq<BackendStatsView>) -> Seq<Seq<char>>
    decreases entries.len(),
{
    if entries.len() == 0 {
        Seq::empty()
    } else {
        (if entries[0].fastest {
            seq![entries[0].backend]
        } else {
            Seq::empty()
        }) + fastest_of(entries.skip(1))
    }
}

/// The backend identifiers the comparison flags as fastest, in plan order.
pub fn fastest_backends(comparison: &BenchmarkComparison) -> (r: Vec<String>)
    ensures
        string_views(r@) == fastest_of(comparison@.entries),
{
    let ghost entries = comparison@.entries;
    let n = comparison.entries.len();
    let mut out: Vec<String> = Vec::new();
    let mut i: usize = 0;
    proof {
        assert(entries.skip(0) =~= entries);
        assert(string_views(out@) =~= Seq::<Seq<char>>::empty());
        assert(fastest_of(entries) =~= string_views(out@) + fastest_of(entries.skip(0)));
    }
    while i < n
        invariant
            n == comparison.entries@.len(),
            entries == comparison@.entries,
            entries.len() == n,
            i <= n,
            fastest_of(entries) =~= string_views(out@) + fastest_of(entries.skip(i as int)),
        decreases n - i,
    {
        proof {
            assert(entries.skip(i as int)[0] == entries[i as int]);
            assert(entries.skip(i as int).skip(1) =~= entries.skip(i as int + 1));
            assert(entries[i as int] == comparison.entries@[i as int]@);
        }
        if comparison.entries[i].fastest {
            let b = comparison.entries[i].backend.clone();
            proof {
                assert(string_views(out@.push(b)) =~= string_views(out@) + seq![b@]);
            }
            out.push(b);
        }
        i = i + 1;
    }
    proof {
        assert(fastest_of(entries.skip(n as int)) =~= Seq::<Seq<char>>::empty());
        assert(string_views(out@) =~= fastest_of(entries));
    }
    out
}


/// The views of collected (backend, mean) entries.
pub open spec fn mean_views(ms: Seq<(String, u64)>) -> Seq<(Seq<char>, u64)> {
    ms.map_values(|e: (String, u64)| (e.0@, e.1))
}

/// The minimum mean among the entries from position `from` on.
fn min_of(ms: &Vec<(String, u64)>, from: usize) -> (r: u64)
    requires
        from <= ms@.len(),
    ensures
        r == min_mean(mean_views(ms@).skip(from as int)),
    decreases ms@.len() - from,
{
    let ghost mv = mean_views(ms@);
    if from == ms.len() {
        proof {
            assert(mv.skip(from as int).len() == 0);
        }
        u64::MAX
    } else {
        let rest = min_of(ms, from + 1);
        proof {
            assert(mv.skip(from as int)[0] == mv[from as int]);
            assert(mv.skip(from as int).skip(1) =~= mv.skip(from as int + 1));
            assert(mv[from as int].1 == ms@[from as int].1);
        }
        if ms[from].1 <= rest {
            ms[from].1
        } else {
            rest
        }
    }
}

/// The mean relative to the fastest mean, in hundredths, rounded toward
/// zero and saturating.
fn ratio_hundredths(mean: u64, fastest: u64) -> (r: u64)
    ensures
        r == spec_ratio(mean, fastest),
{
    if fastest == 0 {
        if mean == 0 {
            100
        } else {
            u64::MAX
        }
    } else {
        let q = (mean as u128) * 100 / (fastest as u128);
        if q > u64::MAX as u128 {
            u64::MAX
        } else {
            q as u64
        }
    }
}

/// Aggregate a finished sweep into its comparison report.
///
/// Pure: the report is a function of the sweep's pairs and outcomes alone,
/// so aggregating the same sweep twice gives identical reports. Every
/// requested pair is accounted for: measured pairs feed their benchmark's
/// comparison, failed pairs are listed, and requested = measured + failed.
pub fn aggregate(sweep: &Sweep) -> (r: Report)
    requires
        sweep@.outcomes.len() == sweep@.pairs.len(),
    ensures
        r@ == spec_report(sweep@.pairs, sweep@.outcomes),
        r.requested == r.measured + r@.failed.len(),
{
    let ghost gpairs = sweep@.pairs;
    let ghost gout = sweep@.outcomes;
    let pairs = sweep.pairs();
    let outcomes = sweep.outcomes();
    let n = pairs.len();

    // Distinct benchmark names, first-seen plan order.
    let mut names: Vec<String> = Vec::new();
    let mut i: usize = 0;
    proof {
        assert(string_views(names@) =~= pair_benchmarks(gpairs).take(0));
    }
    while i < n
        invariant
            n == pairs@.len(),
            pair_views(pairs@) == gpairs,
            gpairs.len() == n,
            i <= n,
            string_views(names@) =~= pair_benchmarks(gpairs).take(i as int),
        decreases n - i,
    {
        let b = pairs[i].benchmark.clone();
        proof {
            assert(gpairs[i as int] == pairs@[i as int]@);
            assert(pair_benchmarks(gpairs)[i as int] == gpairs[i as int].benchmark);
            assert(string_views(names@.push(b)) =~= string_views(names@) + seq![b@]);
            assert(pair_benchmarks(gpairs).take(i as int + 1) =~= pair_benchmarks(gpairs).take(
                i as int,
            ) + seq![pair_benchmarks(gpairs)[i as int]]);
        }
        names.push(b);
        i = i + 1;
    }
    proof {
        assert(pair_benchmarks(gpairs).take(n as int) =~= pair_benchmarks(gpairs));
    }
    let benches = dedup_first_seen(names);
    let ghost bl = bench_list(gpairs);

    // One comparison per benchmark with at least one measured entry.
    let nb = benches.len();
    let mut comparisons: Vec<BenchmarkComparison> = Vec::new();
    let mut bi: usize = 0;
    proof {
        assert(bl.skip(0) =~= bl);
        assert(comparison_views(comparisons@) =~= Seq::<ComparisonView>::empty());
        assert(spec_comparisons(bl, gpairs, gout) =~= comparison_views(comparisons@)
            + spec_comparisons(bl.skip(0), gpairs, gout));
    }
    while bi < nb
        invariant
            n == pairs@.len(),
            n == outcomes@.len(),
            pair_views(pairs@) == gpairs,
            outcome_views(outcomes@) == gout,
            gpairs.len() == n,
            gout.len() == n,
            nb == benches@.len(),
            string_views(benches@) == bl,
            bl.len() == nb,
            bi <= nb,
            spec_comparisons(bl, gpairs, gout) =~= comparison_views(comparisons@)
                + spec_comparisons(bl.skip(bi as int), gpairs, gout),
        decreases nb - bi,
    {
        let ghost bname = bl[bi as int];
        proof {
            assert(bl.skip(bi as int)[0] == bname);
            assert(bl.skip(bi as int).skip(1) =~= bl.skip(bi as int + 1));
            assert(string_views(benches@)[bi as int] == benches@[bi as int]@);
        }

        // Collect this benchmark's measured (backend, mean) entries.
        let mut ms: Vec<(String, u64)> = Vec::new();
        let mut j: usize = 0;
        proof {
            assert(gpairs.skip(0) =~= gpairs);
            assert(gout.skip(0) =~= gout);
            assert(mean_views(ms@) =~= Seq::<(Seq<char>, u64)>::empty());
            assert(means_for(gpairs, gout, bname) =~= mean_views(ms@) + means_for(
                gpairs.skip(0),
                gout.skip(0),
                bname,
            ));
        }
        while j < n
            invariant
                n == pairs@.len(),
                n == outcomes@.len(),
                pair_views(pairs@) == gpairs,
                outcome_views(outcomes@) == gout,
                gpairs.len() == n,
                gout.len() == n,
                nb == benches@.len(),
                string_views(benches@) == bl,
                bl.len() == nb,
                bi < nb,
                bname == bl[bi as int],
                benches@[bi as int]@ == bname,
                j <= n,
                means_for(gpairs, gout, bname) =~= mean_views(ms@) + means_for(
                    gpairs.skip(j as int),
                    gout.skip(j as int),
                    bname,
                ),
            decreases n - j,
        {
            proof {
                assert(gpairs.skip(j as int)[0] == gpairs[j as int]);
                assert(gout.skip(j as int)[0] == gout[j as int]);
                assert(gpairs.skip(j as int).skip(1) =~= gpairs.skip(j as int + 1));
                assert(gout.skip(j as int).skip(1) =~= gout.skip(j as int + 1));
                assert(gpairs[j as int] == pairs@[j as int]@);
                assert(gout[j as int] == outcomes@[j as int]@);
            }
            if pairs[j].benchmark == benches[bi] {
                match &outcomes[j] {
                    PairOutcome::Measured(sample) => {
                        let entry = (pairs[j].backend.clone(), sample.mean);
                        proof {
                            assert(mean_views(ms@.push(entry)) =~= mean_views(ms@) + seq![
                                (entry.0@, entry.1),
                            ]);
                        }
                        ms.push(entry);
                    },
                    PairOutcome::Failed(_) => {},
                }
            }
            j = j + 1;
        }
        proof {
            assert(means_for(gpairs.skip(n as int), gout.skip(n as int), bname)
                =~= Seq::<(Seq<char>, u64)>::empty());
            assert(mean_views(ms@) =~= means_for(gpairs, gout, bname));
        }

        if ms.len() > 0 {
            let ghost mv = mean_views(ms@);
            let fmin = min_of(&ms, 0);
            proof {
                assert(mv.skip(0) =~= mv);
            }
            let mut entries: Vec<BackendStats> = Vec::new();
            let mut fc: usize = 0;
            let mut k: usize = 0;
            proof {
                assert(stats_views(entries@) =~= stats_for(mv, fmin).take(0));
                assert(fastest_count(stats_views(entries@)) == 0);
            }
            while k < ms.len()
                invariant
                    mv == mean_views(ms@),
                    fmin == min_mean(mv),
                    k <= ms@.len(),
                    mv.len() == ms@.len(),
                    fc <= k,
                    stats_views(entries@) =~= stats_for(mv, fmin).take(k as int),
                    fc == fastest_count(stats_views(entries@)),
                decreases ms@.len() - k,
            {
                proof {
                    lemma_min_mean_le(mv, k as int);
                    assert(mv[k as int] == (ms@[k as int].0@, ms@[k as int].1));
                }
                let mean = ms[k].1;
                let flag = mean - fmin < TIE_EPSILON_NANOS;
                let ratio = ratio_hundredths(mean, fmin);
                let line = BackendStats {
                    backend: ms[k].0.clone(),
                    mean,
                    ratio_hundredths: ratio,
                    fastest: flag,
                };
                proof {
                    assert(line@ == stats_for(mv, fmin)[k as int]);
                    assert(stats_views(entries@.push(line)) =~= stats_views(entries@).push(
                        line@,
                    ));
                    assert(stats_for(mv, fmin).take(k as int + 1) =~= stats_for(mv, fmin).take(
                        k as int,
                    ).push(stats_for(mv, fmin)[k as int]));
                    assert(stats_views(entries@.push(line)).drop_last() =~= stats_views(
                        entries@,
                    ));
                }
                if flag {
                    fc = fc + 1;
                }
                entries.push(line);
                k = k + 1;
            }
            proof {
                assert(stats_for(mv, fmin).take(ms@.len() as int) =~= stats_for(mv, fmin));
            }
            let tied = fc >= 2;
            let comp = BenchmarkComparison {
                benchmark: benches[bi].clone(),
                fastest_mean: fmin,
                entries,
                tied,
            };
            proof {
                assert(comp@ =~= comparison_for(gpairs, gout, bname));
                assert(comparison_views(comparisons@.push(comp)) =~= comparison_views(
                    comparisons@,
                ).push(comp@));
                assert(spec_comparisons(bl.skip(bi as int), gpairs, gout) =~= seq![
                    comparison_for(gpairs, gout, bname),
                ] + spec_comparisons(bl.skip(bi as int + 1), gpairs, gout));
            }
            comparisons.push(comp);
        } else {
            proof {
                assert(means_for(gpairs, gout, bname).len() == 0);
                assert(spec_comparisons(bl.skip(bi as int), gpairs, gout) =~= spec_comparisons(
                    bl.skip(bi as int + 1),
                    gpairs,
                    gout,
                ));
            }
        }
        bi = bi + 1;
    }
    proof {
        assert(spec_comparisons(bl.skip(nb as int), gpairs, gout)
            =~= Seq::<ComparisonView>::empty());
        assert(comparison_views(comparisons@) =~= spec_comparisons(bl, gpairs, gout));
    }

    // Failed pairs and the measured count.
    let mut failed: Vec<FailedPair> = Vec::new();
    let mut measured: usize = 0;
    let mut i2: usize = 0;
    proof {
        assert(gpairs.skip(0) =~= gpairs);
        assert(gout.skip(0) =~= gout);
        assert(failed_views(failed@) =~= Seq::<FailedPairView>::empty());
        assert(failed_entries(gpairs, gout) =~= failed_views(failed@) + failed_entries(
            gpairs.skip(0),
            gout.skip(0),
        ));
        assert(measured_count(gout.take(0)) == 0);
    }
    while i2 < n
        invariant
            n == pairs@.len(),
            n == outcomes@.len(),
            pair_views(pairs@) == gpairs,
            outcome_views(outcomes@) == gout,
            gpairs.len() == n,
            gout.len() == n,
            i2 <= n,
            measured <= i2,
            failed_entries(gpairs, gout) =~= failed_views(failed@) + failed_entries(
                gpairs.skip(i2 as int),
                gout.skip(i2 as int),
            ),
            measured == measured_count(gout.take(i2 as int)),
        decreases n - i2,
    {
        proof {
            assert(gpairs.skip(i2 as int)[0] == gpairs[i2 as int]);
            assert(gout.skip(i2 as int)[0] == gout[i2 as int]);
            assert(gpairs.skip(i2 as int).skip(1) =~= gpairs.skip(i2 as int + 1));
            assert(gout.skip(i2 as int).skip(1) =~= gout.skip(i2 as int + 1));
            assert(gpairs[i2 as int] == pairs@[i2 as int]@);
            assert(gout[i2 as int] == outcomes@[i2 as int]@);
            assert(gout.take(i2 as int + 1).drop_last() =~= gout.take(i2 as int));
            assert(gout.take(i2 as int + 1).last() == gout[i2 as int]);
        }
        match &outcomes[i2] {
            PairOutcome::Measured(_) => {
                measured = measured + 1;
            },
            PairOutcome::Failed(kind) => {
                let f = FailedPair {
                    benchmark: pairs[i2].benchmark.clone(),
                    backend: pairs[i2].backend.clone(),
                    kind: kind.duplicate(),
                };
                proof {
                    assert(failed_views(failed@.push(f)) =~= failed_views(failed@) + seq![f@]);
                }
                failed.push(f);
            },
        }
        i2 = i2 + 1;
    }
    proof {
        assert(failed_entries(gpairs.skip(n as int), gout.skip(n as int))
            =~= Seq::<FailedPairView>::empty());
        assert(failed_views(failed@) =~= failed_entries(gpairs, gout));
        assert(gout.take(n as int) =~= gout);
        lemma_failed_len(gpairs, gout);
        crate::runner::lemma_counts_reconcile(gout);
    }

    let report = Report { comparisons, failed, requested: n, measured };
    proof {
        assert(report@ =~= spec_report(gpairs, gout));
    }
    report
}

/// The failed list is exactly as long as the failed count.
proof fn lemma_failed_len(pairs: Seq<PairView>, outcomes: Seq<PairOutcomeView>)
    requires
        pairs.len() == outcomes.len(),
    ensures
        failed_entries(pairs, outcomes).len() == crate::runner::failed_count(outcomes),
    decreases pairs.len(),
{
    if pairs.len() > 0 {
        lemma_failed_len(pairs.skip(1), outcomes.skip(1));
        lemma_failed_count_skip(outcomes);
    }
}

/// The failed count splits around the first outcome.
proof fn lemma_failed_count_skip(outcomes: Seq<PairOutcomeView>)
    requires
        outcomes.len() > 0,
    ensures
        crate::runner::failed_count(outcomes) == (if outcomes[0] is Failed {
            1int
        } else {
            0int
        }) + crate::runner::failed_count(outcomes.skip(1)),
    decreases outcomes.len(),
{
    if outcomes.len() == 1 {
        assert(outcomes.drop_last().len() == 0);
        assert(crate::runner::failed_count(outcomes.drop_last()) == 0);
        assert(outcomes.skip(1).len() == 0);
        assert(crate::runner::failed_count(outcomes.skip(1)) == 0);
        assert(outcomes.last() == outcomes[0]);
    } else {
        lemma_failed_count_skip(outcomes.drop_last());
        assert(outcomes.drop_last()[0] == outcomes[0]);
        assert(outcomes.drop_last().skip(1) =~= outcomes.skip(1).drop_last());
        assert(outcomes.skip(1).last() == outcomes.last());
    }
}

} // verus!
