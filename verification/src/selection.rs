//! Backend target selection.
//!
//! A run measures an ordered, deduplicated list of backend identifiers,
//! resolved from one of three selectors: a single explicit backend, an
//! explicit comma-separated list, or every available backend. Every
//! identifier must resolve against the registry's availability snapshot;
//! an unknown identifier is a configuration error naming it, never a silent
//! fallback.

use vstd::prelude::*;

verus! {

/// The views of a list of strings.
pub open spec fn string_views(s: Seq<String>) -> Seq<Seq<char>> {
    s.map_values(|x: String| x@)
}

/// Whitespace for the purpose of trimming selector pieces.
pub open spec fn is_space(c: char) -> bool {
    c == ' ' || c == '\t' || c == '\n' || c == '\r'
}

/// Index of the first non-space character; the length when all are spaces.
pub open spec fn first_nonspace(s: Seq<char>) -> int
    decreases s.len(),
{
    if s.len() == 0 {
        0
    } else if !is_space(s[0]) {
        0
    } else {
        1 + first_nonspace(s.skip(1))
    }
}

/// One past the index of the last non-space character; zero when all are
/// spaces.
pub open spec fn last_nonspace_end(s: Seq<char>) -> int
    decreases s.len(),
{
    if s.len() == 0 {
        0
    } else if !is_space(s.last()) {
        s.len() as int
    } else {
        last_nonspace_end(s.drop_last())
    }
}

/// The string with leading and trailing whitespace removed.
pub open spec fn trim_spec(s: Seq<char>) -> Seq<char> {
    if first_nonspace(s) == s.len() {
        Seq::empty()
    } else {
        s.subrange(first_nonspace(s), last_nonspace_end(s))
    }
}

proof fn lemma_first_nonspace_at(s: Seq<char>, k: int)
    requires
        0 <= k <= s.len(),
        forall|j: int| 0 <= j < k ==> is_space(#[trigger] s[j]),
        k < s.len() ==> !is_space(s[k]),
    ensures
        first_nonspace(s) == k,
    decreases k,
{
    if k == 0 {
    } else {
        assert(is_space(s[0]));
        assert forall|j: int| 0 <= j < k - 1 implies is_space(#[trigger] s.skip(1)[j]) by {
            assert(s.skip(1)[j] == s[j + 1]);
        }
        if k < s.len() {
            assert(s.skip(1)[k - 1] == s[k]);
        }
        lemma_first_nonspace_at(s.skip(1), k - 1);
    }
}

proof fn lemma_last_nonspace_at(s: Seq<char>, k: int)
    requires
        0 <= k <= s.len(),
        forall|j: int| k <= j < s.len() ==> is_space(#[trigger] s[j]),
        k > 0 ==> !is_space(s[k - 1]),
    ensures
        last_nonspace_end(s) == k,
    decreases s.len(),
{
    if k == s.len() {
        if s.len() > 0 {
        }
    } else {
        assert(is_space(s.last()));
        assert forall|j: int| k <= j < s.len() - 1 implies is_space(#[trigger] s.drop_last()[j]) by {
            assert(s.drop_last()[j] == s[j]);
        }
        if k > 0 {
            assert(s.drop_last()[k - 1] == s[k - 1]);
        }
        lemma_last_nonspace_at(s.drop_last(), k);
    }
}

/// Whether this character is trimmed away.
fn is_space_char(c: char) -> (r: bool)
    ensures
        r == is_space(c),
{
    c == ' ' || c == '\t' || c == '\n' || c == '\r'
}

/// Remove leading and trailing whitespace.
pub fn trim(s: &str) -> (r: String)
    ensures
        r@ == trim_spec(s@),
{
    let n = s.unicode_len();
    let mut a: usize = 0;
    while a < n && is_space_char(s.get_char(a))
        invariant
            n == s@.len(),
            a <= n,
            forall|j: int| 0 <= j < a ==> is_space(#[trigger] s@[j]),
        decreases n - a,
    {
        a = a + 1;
    }
    if a == n {
        proof {
            lemma_first_nonspace_at(s@, n as int);
        }
        return String::new();
    }
    proof {
        lemma_first_nonspace_at(s@, a as int);
    }
    let mut b: usize = n;
    while b > a && is_space_char(s.get_char(b - 1))
        invariant
            n == s@.len(),
            a < n,
            a <= b <= n,
            !is_space(s@[a as int]),
            forall|j: int| b <= j < n ==> is_space(#[trigger] s@[j]),
        decreases b,
    {
        b = b - 1;
    }
    proof {
        if b == a {
            assert(!is_space(s@[a as int]));
            assert(false);
        }
        lemma_last_nonspace_at(s@, b as int);
    }
    s.substring_char(a, b).to_owned()
}

/// Index of the first comma; the length when there is none.
pub open spec fn first_comma_index(s: Seq<char>) -> int
    decreases s.len(),
{
    if s.len() == 0 {
        0
    } else if s[0] == ',' {
        0
    } else {
        1 + first_comma_index(s.skip(1))
    }
}

proof fn lemma_first_comma_at(s: Seq<char>, k: int)
    requires
        0 <= k <= s.len(),
        forall|j: int| 0 <= j < k ==> #[trigger] s[j] != ',',
        k < s.len() ==> s[k] == ',',
    ensures
        first_comma_index(s) == k,
    decreases k,
{
    if k == 0 {
    } else {
        assert(s[0] != ',');
        assert forall|j: int| 0 <= j < k - 1 implies #[trigger] s.skip(1)[j] != ',' by {
            assert(s.skip(1)[j] == s[j + 1]);
        }
        if k < s.len() {
            assert(s.skip(1)[k - 1] == s[k]);
        }
        lemma_first_comma_at(s.skip(1), k - 1);
    }
}

/// The comma-separated pieces of a selector string, commas removed, empty
/// pieces kept. A string with no comma is one piece.
pub open spec fn split_commas(s: Seq<char>) -> Seq<Seq<char>>
    decreases s.len(),
{
    let k = first_comma_index(s);
    if !(0 <= k < s.len()) {
        seq![s]
    } else {
        seq![s.take(k)] + split_commas(s.skip(k + 1))
    }
}

/// Split a selector string on commas; a string with no comma is one piece.
pub fn split_selector(s: &str) -> (r: Vec<String>)
    ensures
        string_views(r@) == split_commas(s@),
{
    let n = s.unicode_len();
    let mut pieces: Vec<String> = Vec::new();
    let mut start: usize = 0;
    let mut i: usize = 0;
    proof {
        assert(s@.skip(0) =~= s@);
        assert(string_views(pieces@) =~= Seq::<Seq<char>>::empty());
        assert(string_views(pieces@) + split_commas(s@) =~= split_commas(s@));
    }
    while i < n
        invariant
            n == s@.len(),
            start <= i <= n,
            split_commas(s@) =~= string_views(pieces@) + split_commas(s@.skip(start as int)),
            forall|j: int| start <= j < i ==> #[trigger] s@[j] != ',',
        decreases n - i,
    {
        if s.get_char(i) == ',' {
            let piece = s.substring_char(start, i).to_owned();
            proof {
                let rest = s@.skip(start as int);
                assert forall|j: int| 0 <= j < i - start implies #[trigger] rest[j] != ',' by {
                    assert(rest[j] == s@[start + j]);
                }
                assert(rest[i - start] == s@[i as int]);
                lemma_first_comma_at(rest, i - start);
                assert(rest.take(i - start) =~= s@.subrange(start as int, i as int));
                assert(rest.skip(i - start + 1) =~= s@.skip(i as int + 1));
                assert(string_views(pieces@.push(piece)) =~= string_views(pieces@) + seq![
                    piece@,
                ]);
            }
            pieces.push(piece);
            start = i + 1;
        }
        i = i + 1;
    }
    let piece = s.substring_char(start, n).to_owned();
    proof {
        let rest = s@.skip(start as int);
        assert forall|j: int| 0 <= j < rest.len() implies #[trigger] rest[j] != ',' by {
            assert(rest[j] == s@[start + j]);
        }
        lemma_first_comma_at(rest, rest.len() as int);
        assert(rest =~= s@.subrange(start as int, n as int));
        assert(string_views(pieces@.push(piece)) =~= string_views(pieces@) + seq![piece@]);
    }
    pieces.push(piece);
    proof {
        assert(string_views(pieces@) =~= split_commas(s@));
    }
    pieces
}

/// First-seen deduplication of the pieces not yet in `seen`.
pub open spec fn dedup_acc(s: Seq<Seq<char>>, seen: Seq<Seq<char>>) -> Seq<Seq<char>>
    decreases s.len(),
{
    if s.len() == 0 {
        Seq::empty()
    } else if seen.contains(s[0]) {
        dedup_acc(s.skip(1), seen)
    } else {
        seq![s[0]] + dedup_acc(s.skip(1), seen.push(s[0]))
    }
}

/// First-seen deduplication: every value keeps its first occurrence only.
pub open spec fn dedup_first(s: Seq<Seq<char>>) -> Seq<Seq<char>> {
    dedup_acc(s, Seq::empty())
}

/// Index of the first occurrence of `v`; the length when `v` is absent.
pub open spec fn first_index_of(s: Seq<Seq<char>>, v: Seq<char>) -> int
    decreases s.len(),
{
    if s.len() == 0 {
        0
    } else if s[0] == v {
        0
    } else {
        1 + first_index_of(s.skip(1), v)
    }
}

proof fn lemma_first_index_nonneg(s: Seq<Seq<char>>, v: Seq<char>)
    ensures
        0 <= first_index_of(s, v) <= s.len(),
    decreases s.len(),
{
    if s.len() > 0 && s[0] != v {
        lemma_first_index_nonneg(s.skip(1), v);
    }
}

proof fn lemma_dedup_acc_props(s: Seq<Seq<char>>, seen: Seq<Seq<char>>)
    ensures
        forall|v: Seq<char>|
            #[trigger] dedup_acc(s, seen).contains(v) <==> (s.contains(v) && !seen.contains(v)),
        forall|i: int, j: int|
            0 <= i < j < dedup_acc(s, seen).len() ==> #[trigger] dedup_acc(s, seen)[i]
                != #[trigger] dedup_acc(s, seen)[j],
        forall|i: int, j: int|
            0 <= i < j < dedup_acc(s, seen).len() ==> first_index_of(
                s,
                #[trigger] dedup_acc(s, seen)[i],
            ) < first_index_of(s, #[trigger] dedup_acc(s, seen)[j]),
    decreases s.len(),
{
    let r = dedup_acc(s, seen);
    if s.len() == 0 {
        assert forall|v: Seq<char>| #[trigger] r.contains(v) implies false by {
            let i = choose|i: int| 0 <= i < r.len() && r[i] == v;
        }
        assert forall|v: Seq<char>| s.contains(v) implies false by {
            let i = choose|i: int| 0 <= i < s.len() && s[i] == v;
        }
    } else {
        let t = s.skip(1);
        assert forall|v: Seq<char>| #[trigger] s.contains(v) <==> (v == s[0] || t.contains(
            v,
        )) by {
            if s.contains(v) {
                let i = choose|i: int| 0 <= i < s.len() && s[i] == v;
                if i > 0 {
                    assert(t[i - 1] == s[i]);
                    assert(t.contains(v));
                }
            }
            if t.contains(v) {
                let i = choose|i: int| 0 <= i < t.len() && t[i] == v;
                assert(s[i + 1] == t[i]);
                assert(s.contains(v));
            }
            if v == s[0] {
                assert(s.contains(v));
            }
        }
        if seen.contains(s[0]) {
            lemma_dedup_acc_props(t, seen);
            assert(r == dedup_acc(t, seen));
            assert forall|i: int, j: int| 0 <= i < j < r.len() implies first_index_of(
                s,
                #[trigger] r[i],
            ) < first_index_of(s, #[trigger] r[j]) by {
                assert(r[i] != s[0] && r[j] != s[0]) by {
                    assert(dedup_acc(t, seen).contains(r[i]));
                    assert(dedup_acc(t, seen).contains(r[j]));
                }
                assert(first_index_of(s, r[i]) == 1 + first_index_of(t, r[i]));
                assert(first_index_of(s, r[j]) == 1 + first_index_of(t, r[j]));
            }
        } else {
            let seen2 = seen.push(s[0]);
            lemma_dedup_acc_props(t, seen2);
            let r2 = dedup_acc(t, seen2);
            assert(r =~= seq![s[0]] + r2);
            assert forall|v: Seq<char>| #[trigger] seen2.contains(v) <==> (seen.contains(v) || v
                == s[0]) by {
                if seen2.contains(v) {
                    let i = choose|i: int| 0 <= i < seen2.len() && seen2[i] == v;
                    if i < seen.len() {
                        assert(seen[i] == v);
                        assert(seen.contains(v));
                    }
                }
                if seen.contains(v) {
                    let i = choose|i: int| 0 <= i < seen.len() && seen[i] == v;
                    assert(seen2[i] == v);
                    assert(seen2.contains(v));
                }
                if v == s[0] {
                    assert(seen2[seen.len() as int] == v);
                    assert(seen2.contains(v));
                }
            }
            assert forall|v: Seq<char>| #[trigger] r.contains(v) <==> (v == s[0] || r2.contains(
                v,
            )) by {
                if r.contains(v) {
                    let i = choose|i: int| 0 <= i < r.len() && r[i] == v;
                    if i > 0 {
                        assert(r2[i - 1] == r[i]);
                        assert(r2.contains(v));
                    }
                }
                if r2.contains(v) {
                    let i = choose|i: int| 0 <= i < r2.len() && r2[i] == v;
                    assert(r[i + 1] == r2[i]);
                    assert(r.contains(v));
                }
                if v == s[0] {
                    assert(r[0] == v);
                    assert(r.contains(v));
                }
            }
            assert forall|i: int, j: int| 0 <= i < j < r.len() implies #[trigger] r[i]
                != #[trigger] r[j] by {
                if i == 0 {
                    assert(r2.contains(r[j])) by {
                        assert(r[j] == r2[j - 1]);
                    }
                    assert(!seen2.contains(r[j]));
                } else {
                    assert(r[i] == r2[i - 1] && r[j] == r2[j - 1]);
                }
            }
            assert forall|i: int, j: int| 0 <= i < j < r.len() implies first_index_of(
                s,
                #[trigger] r[i],
            ) < first_index_of(s, #[trigger] r[j]) by {
                if i == 0 {
                    assert(first_index_of(s, r[0]) == 0);
                    assert(r[j] == r2[j - 1]);
                    assert(r2.contains(r[j]));
                    assert(!seen2.contains(r[j]));
                    assert(r[j] != s[0]);
                    assert(first_index_of(s, r[j]) == 1 + first_index_of(t, r[j]));
                    lemma_first_index_nonneg(t, r[j]);
                } else {
                    assert(r[i] == r2[i - 1] && r[j] == r2[j - 1]);
                    assert(r2.contains(r[i]) && r2.contains(r[j]));
                    assert(!seen2.contains(r[i]) && !seen2.contains(r[j]));
                    assert(r[i] != s[0] && r[j] != s[0]);
                    assert(first_index_of(s, r[i]) == 1 + first_index_of(t, r[i]));
                    assert(first_index_of(s, r[j]) == 1 + first_index_of(t, r[j]));
                }
            }
        }
    }
}

/// Law: first-seen deduplication keeps exactly the values of its input, holds
/// no value twice, and lists values in the order of their first occurrence.
pub proof fn lemma_dedup_first_properties(s: Seq<Seq<char>>)
    ensures
        forall|v: Seq<char>| #[trigger] dedup_first(s).contains(v) <==> s.contains(v),
        forall|i: int, j: int|
            0 <= i < j < dedup_first(s).len() ==> #[trigger] dedup_first(s)[i]
                != #[trigger] dedup_first(s)[j],
        forall|i: int, j: int|
            0 <= i < j < dedup_first(s).len() ==> first_index_of(
                s,
                #[trigger] dedup_first(s)[i],
            ) < first_index_of(s, #[trigger] dedup_first(s)[j]),
{
    lemma_dedup_acc_props(s, Seq::empty());
    assert forall|v: Seq<char>| !(Seq::<Seq<char>>::empty().contains(v)) by {
        if Seq::<Seq<char>>::empty().contains(v) {
            let i = choose|i: int|
                0 <= i < Seq::<Seq<char>>::empty().len() && Seq::<Seq<char>>::empty()[i] == v;
        }
    }
}

/// Whether some string in the list reads the same as `x`.
fn contains_string(v: &Vec<String>, x: &String) -> (r: bool)
    ensures
        r == string_views(v@).contains(x@),
{
    let n = v.len();
    let mut i: usize = 0;
    while i < n
        invariant
            n == v@.len(),
            i <= n,
            forall|j: int| 0 <= j < i ==> #[trigger] string_views(v@)[j] != x@,
        decreases n - i,
    {
        proof {
            assert(string_views(v@)[i as int] == v@[i as int]@);
        }
        if v[i] == *x {
            proof {
                assert(string_views(v@).contains(x@)) by {
                    assert(string_views(v@)[i as int] == x@);
                }
            }
            return true;
        }
        i = i + 1;
    }
    proof {
        if string_views(v@).contains(x@) {
            let j = choose|j: int|
                0 <= j < string_views(v@).len() && string_views(v@)[j] == x@;
            assert(string_views(v@)[j] != x@);
        }
    }
    false
}

/// Keep the first occurrence of every string, dropping later repeats.
pub fn dedup_first_seen(ids: Vec<String>) -> (r: Vec<String>)
    ensures
        string_views(r@) == dedup_first(string_views(ids@)),
{
    let n = ids.len();
    let mut out: Vec<String> = Vec::new();
    let mut i: usize = 0;
    proof {
        assert(string_views(ids@).skip(0) =~= string_views(ids@));
        assert(string_views(out@) =~= Seq::<Seq<char>>::empty());
    }
    while i < n
        invariant
            n == ids@.len(),
            i <= n,
            dedup_first(string_views(ids@)) =~= string_views(out@) + dedup_acc(
                string_views(ids@).skip(i as int),
                string_views(out@),
            ),
        decreases n - i,
    {
        let ghost rest = string_views(ids@).skip(i as int);
        let ghost seen = string_views(out@);
        proof {
            assert(rest[0] == string_views(ids@)[i as int]);
            assert(rest.skip(1) =~= string_views(ids@).skip(i as int + 1));
        }
        if contains_string(&out, &ids[i]) {
            proof {
                assert(dedup_acc(rest, seen) == dedup_acc(rest.skip(1), seen));
            }
        } else {
            let id = ids[i].clone();
            proof {
                assert(id@ == rest[0]);
                assert(dedup_acc(rest, seen) == seq![rest[0]] + dedup_acc(
                    rest.skip(1),
                    seen.push(rest[0]),
                ));
                assert(string_views(out@.push(id)) =~= seen.push(rest[0]));
            }
            out.push(id);
        }
        i = i + 1;
    }
    proof {
        assert(string_views(ids@).skip(n as int) =~= Seq::<Seq<char>>::empty());
        assert(string_views(out@) =~= dedup_first(string_views(ids@)));
    }
    out
}


/// An invalid or contradictory selection, reported before any measurement.
#[derive(Debug, Clone, PartialEq)]
pub enum ConfigurationError {
    /// A requested backend identifier resolves to no registered backend.
    UnknownBackend(String),
    /// The all-available selector found no backend at all.
    NoBackends,
    /// A requested benchmark name is not in the catalog.
    UnknownBenchmark(String),
    /// The catalog holds no benchmarks at all.
    NoBenchmarks,
}

impl ConfigurationError {
    /// A diagnostic line naming what was invalid.
    pub fn message(&self) -> (r: String)
        ensures
            r@ == (match self {
                ConfigurationError::UnknownBackend(b) => ("unknown backend: ")@ + b@,
                ConfigurationError::NoBackends => ("no backends available")@,
                ConfigurationError::UnknownBenchmark(n) => ("benchmark not found: ")@ + n@,
                ConfigurationError::NoBenchmarks => ("no benchmarks available")@,
            }),
    {
        match self {
            ConfigurationError::UnknownBackend(b) => {
                let mut m = "unknown backend: ".to_owned();
                m.append(b.as_str());
                m
            },
            ConfigurationError::NoBackends => "no backends available".to_owned(),
            ConfigurationError::UnknownBenchmark(n) => {
                let mut m = "benchmark not found: ".to_owned();
                m.append(n.as_str());
                m
            },
            ConfigurationError::NoBenchmarks => "no benchmarks available".to_owned(),
        }
    }
}

/// The availability snapshot: every backend identifier that resolves in the
/// current environment, in a fixed priority order. Construction is explicit,
/// so availability checks stay deterministic.
#[derive(Debug, Clone)]
pub struct BackendRegistry {
    available: Vec<String>,
}

impl View for BackendRegistry {
    type V = Seq<Seq<char>>;

    closed spec fn view(&self) -> Seq<Seq<char>> {
        string_views(self.available@)
    }
}

impl BackendRegistry {
    /// Wrap an availability snapshot, keeping its priority order.
    pub fn new(available: Vec<String>) -> (r: Self)
        ensures
            r@ == string_views(available@),
    {
        BackendRegistry { available }
    }

    /// Whether the identifier resolves to a registered backend.
    pub fn is_available(&self, id: &str) -> (r: bool)
        ensures
            r == self@.contains(id@),
    {
        let key = id.to_owned();
        contains_string(&self.available, &key)
    }

    /// Every registered identifier, in the registry's priority order.
    pub fn list_all(&self) -> (r: Vec<String>)
        ensures
            string_views(r@) == self@,
    {
        let n = self.available.len();
        let mut out: Vec<String> = Vec::new();
        let mut i: usize = 0;
        while i < n
            invariant
                n == self.available@.len(),
                i <= n,
                string_views(out@) =~= string_views(self.available@).take(i as int),
            decreases n - i,
        {
            let id = self.available[i].clone();
            proof {
                assert(string_views(out@.push(id)) =~= string_views(out@) + seq![id@]);
                assert(string_views(self.available@).take(i as int + 1)
                    =~= string_views(self.available@).take(i as int) + seq![
                    string_views(self.available@)[i as int],
                ]);
            }
            out.push(id);
            i = i + 1;
        }
        proof {
            assert(string_views(self.available@).take(n as int) =~= string_views(
                self.available@,
            ));
        }
        out
    }
}

/// The targets an explicit comma-separated selector resolves to: its pieces,
/// trimmed, first-seen deduplicated.
pub open spec fn selection_pieces(input: Seq<char>) -> Seq<Seq<char>> {
    dedup_first(split_commas(input).map_values(|p: Seq<char>| trim_spec(p)))
}

/// Every identifier resolves against the snapshot.
pub open spec fn all_resolvable(ids: Seq<Seq<char>>, avail: Seq<Seq<char>>) -> bool {
    forall|k: int| 0 <= k < ids.len() ==> avail.contains(#[trigger] ids[k])
}

/// The first identifier that does not resolve; empty when all resolve.
pub open spec fn first_unresolvable(ids: Seq<Seq<char>>, avail: Seq<Seq<char>>) -> Seq<char>
    decreases ids.len(),
{
    if ids.len() == 0 {
        Seq::empty()
    } else if !avail.contains(ids[0]) {
        ids[0]
    } else {
        first_unresolvable(ids.skip(1), avail)
    }
}

proof fn lemma_first_unresolvable_at(ids: Seq<Seq<char>>, avail: Seq<Seq<char>>, k: int)
    requires
        0 <= k < ids.len(),
        forall|j: int| 0 <= j < k ==> avail.contains(#[trigger] ids[j]),
        !avail.contains(ids[k]),
    ensures
        first_unresolvable(ids, avail) == ids[k],
    decreases k,
{
    if k == 0 {
    } else {
        assert(avail.contains(ids[0]));
        assert forall|j: int| 0 <= j < k - 1 implies avail.contains(#[trigger] ids.skip(1)[j]) by {
            assert(ids.skip(1)[j] == ids[j + 1]);
        }
        assert(ids.skip(1)[k - 1] == ids[k]);
        lemma_first_unresolvable_at(ids.skip(1), avail, k - 1);
    }
}

/// Trim each piece.
fn trim_all(pieces: Vec<String>) -> (r: Vec<String>)
    ensures
        string_views(r@) == string_views(pieces@).map_values(|p: Seq<char>| trim_spec(p)),
{
    let n = pieces.len();
    let mut out: Vec<String> = Vec::new();
    let mut i: usize = 0;
    while i < n
        invariant
            n == pieces@.len(),
            i <= n,
            string_views(out@) =~= string_views(pieces@).take(i as int).map_values(
                |p: Seq<char>| trim_spec(p),
            ),
        decreases n - i,
    {
        let t = trim(pieces[i].as_str());
        proof {
            assert(string_views(out@.push(t)) =~= string_views(out@) + seq![t@]);
            assert(string_views(pieces@).take(i as int + 1).map_values(
                |p: Seq<char>| trim_spec(p),
            ) =~= string_views(pieces@).take(i as int).map_values(|p: Seq<char>| trim_spec(p))
                + seq![trim_spec(string_views(pieces@)[i as int])]);
        }
        out.push(t);
        i = i + 1;
    }
    proof {
        assert(string_views(pieces@).take(n as int) =~= string_views(pieces@));
    }
    out
}

/// Check every identifier against the registry; hand the list back when all
/// resolve, or name the first that does not.
fn resolve_all(ids: Vec<String>, registry: &BackendRegistry) -> (r: Result<
    Vec<String>,
    ConfigurationError,
>)
    ensures
        r is Ok ==> r->Ok_0 == ids && all_resolvable(string_views(ids@), registry@),
        r is Err ==> !all_resolvable(string_views(ids@), registry@) && (r->Err_0 matches
            ConfigurationError::UnknownBackend(b) && b@ == first_unresolvable(
            string_views(ids@),
            registry@,
        )),
{
    let n = ids.len();
    let mut k: usize = 0;
    while k < n
        invariant
            n == ids@.len(),
            k <= n,
            forall|j: int| 0 <= j < k ==> registry@.contains(#[trigger] string_views(ids@)[j]),
        decreases n - k,
    {
        proof {
            assert(string_views(ids@)[k as int] == ids@[k as int]@);
        }
        if !registry.is_available(ids[k].as_str()) {
            proof {
                lemma_first_unresolvable_at(string_views(ids@), registry@, k as int);
            }
            return Err(ConfigurationError::UnknownBackend(ids[k].clone()));
        }
        k = k + 1;
    }
    Ok(ids)
}

/// Resolve the three mutually exclusive backend selectors to an ordered,
/// deduplicated target list.
///
/// The all-available selector takes every registered backend in priority
/// order and fails when there is none; an explicit list is split on commas,
/// trimmed, deduplicated first-seen, and each identifier must resolve; a
/// single selector must resolve; with no selector the default backend is the
/// compiled-in one, which must itself resolve. An unknown identifier is
/// reported by name and never silently replaced.
pub fn determine_evms(
    evm: Option<String>,
    evms: Option<String>,
    all: bool,
    registry: &BackendRegistry,
) -> (r: Result<Vec<String>, ConfigurationError>)
    ensures
        all ==> (match r {
            Ok(ids) => string_views(ids@) == registry@ && registry@.len() > 0,
            Err(e) => e matches ConfigurationError::NoBackends && registry@.len() == 0,
        }),
        !all && evms is Some ==> (match r {
            Ok(ids) => string_views(ids@) == selection_pieces(evms->0@) && all_resolvable(
                selection_pieces(evms->0@),
                registry@,
            ),
            Err(e) => !all_resolvable(selection_pieces(evms->0@), registry@) && (e matches
                ConfigurationError::UnknownBackend(b) && b@ == first_unresolvable(
                selection_pieces(evms->0@),
                registry@,
            )),
        }),
        !all && evms is None && evm is Some ==> (match r {
            Ok(ids) => string_views(ids@) == seq![evm->0@] && registry@.contains(evm->0@),
            Err(e) => !registry@.contains(evm->0@) && (e matches
                ConfigurationError::UnknownBackend(b) && b@ == evm->0@),
        }),
        !all && evms is None && evm is None ==> (match r {
            Ok(ids) => string_views(ids@) == seq![("revm")@] && registry@.contains(("revm")@),
            Err(e) => !registry@.contains(("revm")@) && (e matches
                ConfigurationError::UnknownBackend(b) && b@ == ("revm")@),
        }),
{
    if all {
        let ids = registry.list_all();
        if ids.len() == 0 {
            return Err(ConfigurationError::NoBackends);
        }
        Ok(ids)
    } else if let Some(list) = evms {
        let pieces = split_selector(list.as_str());
        let trimmed = trim_all(pieces);
        let ids = dedup_first_seen(trimmed);
        resolve_all(ids, registry)
    } else if let Some(single) = evm {
        if !registry.is_available(single.as_str()) {
            return Err(ConfigurationError::UnknownBackend(single));
        }
        let mut ids: Vec<String> = Vec::new();
        proof {
            let ghost v = single@;
            assert(string_views(ids@.push(single)) =~= seq![v]);
        }
        ids.push(single);
        Ok(ids)
    } else {
        let fallback = "revm".to_owned();
        if !registry.is_available(fallback.as_str()) {
            return Err(ConfigurationError::UnknownBackend(fallback));
        }
        let mut ids: Vec<String> = Vec::new();
        proof {
            let ghost v = fallback@;
            assert(string_views(ids@.push(fallback)) =~= seq![v]);
        }
        ids.push(fallback);
        Ok(ids)
    }
}

} // verus!
