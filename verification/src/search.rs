//! The search engine: fuzzy name lookup over the frozen symbol sets with
//! predictable ranking, under two strategies that share one contract.  An
//! exact case-insensitive name match scores the strategy's exact-match
//! constant (1000, or the dominating override 10000); any other name
//! scores what the external fuzzy scorer gives it, capped just below that
//! constant, and is kept only when positive — so an exact match always
//! sorts first.  Results are deduplicated by the coarse (name, line, file
//! index) identity and sorted by score.

use crate::registry::PathRegistry;
use crate::symbols::{coarse_key, Symbol, SymbolSet, SymbolView};
use vstd::multiset::Multiset;
use vstd::prelude::*;
use vstd::seq_lib::group_to_multiset_ensures;

verus! {

broadcast use vstd::seq::group_seq_axioms, vstd::std_specs::vec::group_vec_axioms;

/// Timing and size figures of one search run.  The times come from the
/// process clock, so nothing is promised of them; the result count is the
/// length of the returned list.
#[derive(Debug, Clone)]
pub struct SearchMetrics {
    pub matcher_init_time_ms: u128,
    pub search_time_ms: u128,
    pub sort_time_ms: u128,
    pub total_time_ms: u128,
    pub results_count: usize,
}

impl Default for SearchMetrics {
    fn default() -> (r: Self)
        ensures
            r.matcher_init_time_ms == 0 && r.search_time_ms == 0 && r.sort_time_ms == 0
                && r.total_time_ms == 0 && r.results_count == 0,
    {
        SearchMetrics {
            matcher_init_time_ms: 0,
            search_time_ms: 0,
            sort_time_ms: 0,
            total_time_ms: 0,
            results_count: 0,
        }
    }
}

#[verifier::external_type_specification]
#[verifier::external_body]
pub struct ExInstant(std::time::Instant);

/// Relies on `Instant::now` from std; the clock decides the value, so
/// nothing is promised of it.
#[verifier::external_body]
fn instant_now() -> std::time::Instant {
    std::time::Instant::now()
}

/// Relies on `Instant::elapsed` from std; the clock decides the value.
#[verifier::external_body]
fn instant_elapsed(start: &std::time::Instant) -> std::time::Duration {
    start.elapsed()
}

/// Relies on `Duration::as_millis` from std; nothing is promised of the
/// value because nothing is known of the duration.
#[verifier::external_body]
fn duration_as_millis(d: &std::time::Duration) -> u128 {
    d.as_millis()
}

/// The milliseconds elapsed since `start`, from the process clock.
fn elapsed_ms(start: &std::time::Instant) -> u128 {
    let d = instant_elapsed(start);
    duration_as_millis(&d)
}

/// What `str::to_lowercase` returns: a function of the characters alone.
pub uninterp spec fn lower_of(s: Seq<char>) -> Seq<char>;

/// Relies on `str::to_lowercase` from std: the result depends on the
/// characters of `s` alone; an empty string stays empty, and every
/// character lowercases to at least one character, so a nonempty string
/// stays nonempty.
#[verifier::external_body]
fn lowercase(s: &str) -> (r: String)
    ensures
        r@ == lower_of(s@),
        r@.len() == 0 <==> s@.len() == 0,
{
    s.to_lowercase()
}

#[verifier::external_type_specification]
#[verifier::external_body]
pub struct ExSkimMatcherV2(fuzzy_matcher::skim::SkimMatcherV2);

/// What `SkimMatcherV2::fuzzy_match` returns for a choice and pattern
/// under the matcher's default configuration: `None` when the pattern does
/// not fuzzy-match the choice, otherwise the match's score.
pub uninterp spec fn skim_score(choice: Seq<char>, pattern: Seq<char>) -> Option<i64>;

/// The general fuzzy scorer, with its default (smart-case) configuration.
/// The one constructor builds it with `SkimMatcherV2::default()`, so every
/// value of this type scores with the same configuration.
pub struct SkimMatcher {
    inner: fuzzy_matcher::skim::SkimMatcherV2,
}

impl SkimMatcher {
    /// Relies on `SkimMatcherV2::default`: the default configuration.
    #[verifier::external_body]
    pub fn new() -> SkimMatcher {
        SkimMatcher { inner: fuzzy_matcher::skim::SkimMatcherV2::default() }
    }

    /// Relies on `SkimMatcherV2::fuzzy_match`: under the default
    /// configuration (the only one this type's constructor builds) the
    /// score is a deterministic function of the choice and pattern
    /// characters alone, and an empty pattern matches with score zero.
    #[verifier::external_body]
    fn fuzzy_match(&self, choice: &str, pattern: &str) -> (r: Option<i64>)
        ensures
            r == skim_score(choice@, pattern@),
            pattern@.len() == 0 ==> r == Some(0i64),
    {
        fuzzy_matcher::FuzzyMatcher::fuzzy_match(&self.inner, choice, pattern)
    }
}

/// Exact case-insensitive equality of a symbol name and a query.
pub open spec fn is_exact_match(name: Seq<char>, query: Seq<char>) -> bool {
    lower_of(name) == lower_of(query)
}

/// The fuzzy score of a non-exact name: the scorer's value, or 0 when the
/// name does not match the query at all.
pub open spec fn fuzzy_score_of(name: Seq<char>, query: Seq<char>) -> int {
    match skim_score(name, query) {
        Some(s) => s as int,
        None => 0,
    }
}

/// The score a name gets under a strategy: `exact_score` for an exact
/// case-insensitive match, else its fuzzy score capped at `cap`.  The cap
/// sits below the exact score, so an exact match always outranks every
/// non-exact match; only positive scores produce a result entry.
pub open spec fn spec_score_with(
    name: Seq<char>,
    query: Seq<char>,
    exact_score: int,
    cap: int,
) -> int {
    if is_exact_match(name, query) {
        exact_score
    } else if fuzzy_score_of(name, query) > cap {
        cap
    } else {
        fuzzy_score_of(name, query)
    }
}

/// The ordered fuzzy strategy's score: 1000 for an exact match, fuzzy
/// scores capped just below it.
pub open spec fn spec_score(name: Seq<char>, query: Seq<char>) -> int {
    spec_score_with(name, query, 1000, 999)
}

/// The dominant-override strategy's score: 10000 for an exact match,
/// fuzzy scores capped just below it.
pub open spec fn spec_score_dominant(name: Seq<char>, query: Seq<char>) -> int {
    spec_score_with(name, query, 10000, 9999)
}

/// Scores one symbol name against the query under a strategy.
fn score_symbol(
    matcher: &SkimMatcher,
    lower_query: &String,
    query: &str,
    sym: &Symbol,
    exact_score: i64,
    cap: i64,
) -> (score: i64)
    requires
        lower_query@ == lower_of(query@),
        query@.len() == 0 ==> lower_query@.len() == 0,
        0 < cap < exact_score,
    ensures
        score as int == spec_score_with(sym.name@, query@, exact_score as int, cap as int),
        query@.len() == 0 && sym.name@.len() > 0 ==> score <= 0,
{
    proof {
        if query@.len() == 0 {
            assert(lower_query@.len() == 0);
        }
    }
    let lower_name = lowercase(sym.name.as_str());
    if lower_name == *lower_query {
        proof {
            if query@.len() == 0 && sym.name@.len() > 0 {
                assert(lower_of(sym.name@).len() > 0);
                assert(lower_of(query@).len() == 0);
            }
        }
        exact_score
    } else {
        match matcher.fuzzy_match(sym.name.as_str(), query) {
            Some(s) => {
                if s > cap {
                    cap
                } else {
                    s
                }
            },
            None => 0,
        }
    }
}

/// Scans one symbol set, appending every symbol with a positive score.
fn scan_set(
    matcher: &SkimMatcher,
    lower_query: &String,
    query: &str,
    set: &SymbolSet,
    results: &mut Vec<(Symbol, i64)>,
    exact_score: i64,
    cap: i64,
)
    requires
        lower_query@ == lower_of(query@),
        query@.len() == 0 ==> lower_query@.len() == 0,
        0 < cap < exact_score,
    ensures
        final(results)@.len() >= old(results)@.len(),
        forall|k: int| 0 <= k < old(results)@.len() ==> final(results)@[k] == old(results)@[k],
        forall|k: int|
            old(results)@.len() <= k < final(results)@.len() ==> set@.contains(
                #[trigger] final(results)@[k].0@,
            ) && final(results)@[k].1 as int == spec_score_with(
                final(results)@[k].0@.name,
                query@,
                exact_score as int,
                cap as int,
            ) && final(results)@[k].1 > 0,
        forall|s: SymbolView|
            set@.contains(s) && spec_score_with(s.name, query@, exact_score as int, cap as int)
                > 0 ==> exists|k: int|
                0 <= k < final(results)@.len() && (#[trigger] final(results)@[k].0)@ == s,
        query@.len() == 0 && (forall|s: SymbolView| set@.contains(s) ==> s.name.len() > 0)
            ==> final(results)@ == old(results)@,
{
    let n = set.len();
    for i in 0..n
        invariant
            n == set@.len(),
            lower_query@ == lower_of(query@),
            query@.len() == 0 ==> lower_query@.len() == 0,
            0 < cap < exact_score,
            results@.len() >= old(results)@.len(),
            forall|k: int| 0 <= k < old(results)@.len() ==> results@[k] == old(results)@[k],
            forall|k: int|
                old(results)@.len() <= k < results@.len() ==> set@.contains(
                    #[trigger] results@[k].0@,
                ) && results@[k].1 as int == spec_score_with(
                    results@[k].0@.name,
                    query@,
                    exact_score as int,
                    cap as int,
                ) && results@[k].1 > 0,
            forall|j: int|
                0 <= j < i && spec_score_with(set@[j].name, query@, exact_score as int, cap as int)
                    > 0 ==> exists|k: int|
                    0 <= k < results@.len() && (#[trigger] results@[k].0)@ == set@[j],
            query@.len() == 0 && (forall|s: SymbolView| set@.contains(s) ==> s.name.len() > 0)
                ==> results@ == old(results)@,
    {
        let sym = set.get(i);
        let score = score_symbol(matcher, lower_query, query, sym, exact_score, cap);
        let ghost pre = results@;
        if score > 0 {
            proof {
                if query@.len() == 0 && (forall|s: SymbolView|
                    set@.contains(s) ==> s.name.len() > 0) {
                    assert(set@.contains(set@[i as int]));
                    assert(sym.name@.len() > 0);
                }
            }
            let entry = (sym.duplicate(), score);
            proof {
                assert(entry.0@ == set@[i as int]);
                assert(set@.contains(entry.0@));
            }
            results.push(entry);
            proof {
                assert(forall|k: int| 0 <= k < pre.len() ==> results@[k] == pre[k]);
                assert((results@[results@.len() - 1].0)@ == set@[i as int]);
                assert forall|j: int|
                    0 <= j < i + 1 && spec_score_with(
                        set@[j].name,
                        query@,
                        exact_score as int,
                        cap as int,
                    ) > 0 implies exists|k: int|
                    0 <= k < results@.len() && (#[trigger] results@[k].0)@ == set@[j] by {
                    if j < i {
                        let k0 = choose|k0: int|
                            0 <= k0 < pre.len() && (#[trigger] pre[k0].0)@ == set@[j];
                        assert((results@[k0].0)@ == set@[j]);
                    } else {
                        assert((results@[results@.len() - 1].0)@ == set@[j]);
                    }
                }
            }
        }
    }
    proof {
        assert forall|s: SymbolView|
            set@.contains(s) && spec_score_with(s.name, query@, exact_score as int, cap as int)
                > 0 implies exists|k: int|
                0 <= k < results@.len() && (#[trigger] results@[k].0)@ == s by {
            let j = choose|j: int| 0 <= j < set@.len() && set@[j] == s;
            assert(spec_score_with(set@[j].name, query@, exact_score as int, cap as int) > 0);
        }
    }
}

/// `+` distributes over `to_multiset`.
proof fn lemma_to_multiset_add<A>(s1: Seq<A>, s2: Seq<A>)
    ensures
        (s1 + s2).to_multiset() == s1.to_multiset().add(s2.to_multiset()),
    decreases s2.len(),
{
    broadcast use group_to_multiset_ensures;

    if s2.len() == 0 {
        assert(s1 + s2 =~= s1);
        assert(s2.to_multiset().len() == 0);
        assert(s2.to_multiset() =~= Multiset::<A>::empty());
        assert((s1 + s2).to_multiset() =~= s1.to_multiset().add(s2.to_multiset()));
    } else {
        lemma_to_multiset_add(s1, s2.drop_last());
        assert(s1 + s2 =~= (s1 + s2.drop_last()).push(s2.last()));
        assert(s2 =~= s2.drop_last().push(s2.last()));
        assert((s1 + s2).to_multiset() =~= s1.to_multiset().add(s2.to_multiset()));
    }
}

/// Inserting anywhere adds exactly one occurrence to the multiset.
proof fn lemma_to_multiset_insert<A>(s: Seq<A>, i: int, x: A)
    requires
        0 <= i <= s.len(),
    ensures
        s.insert(i, x).to_multiset() == s.to_multiset().insert(x),
{
    broadcast use group_to_multiset_ensures;

    let single = Seq::<A>::empty().push(x);
    assert(s.insert(i, x) =~= s.take(i) + (single + s.skip(i)));
    lemma_to_multiset_add(s.take(i), single + s.skip(i));
    lemma_to_multiset_add(single, s.skip(i));
    lemma_to_multiset_add(s.take(i), s.skip(i));
    assert(s.take(i) + s.skip(i) =~= s);
    assert(Seq::<A>::empty().to_multiset().len() == 0);
    assert(Seq::<A>::empty().to_multiset() =~= Multiset::<A>::empty());
    assert(single.to_multiset() =~= Multiset::<A>::empty().insert(x));
    assert(s.insert(i, x).to_multiset() =~= s.to_multiset().insert(x));
}

/// The multiset of the empty sequence is empty.
proof fn lemma_empty_multiset<A>()
    ensures
        Seq::<A>::empty().to_multiset() == Multiset::<A>::empty(),
{
    broadcast use group_to_multiset_ensures;

    assert(Seq::<A>::empty().to_multiset().len() == 0);
    assert(Seq::<A>::empty().to_multiset() =~= Multiset::<A>::empty());
}

/// The multiset of a one-element sequence holds that element once.
proof fn lemma_singleton_multiset<A>(x: A)
    ensures
        Seq::<A>::empty().push(x).to_multiset() == Multiset::<A>::empty().insert(x),
{
    broadcast use group_to_multiset_ensures;

    lemma_empty_multiset::<A>();
}

/// Sorts scored entries by score, highest first, as one whole-list sort
/// after the scan.
fn sort_by_score(entries: Vec<(Symbol, i64)>) -> (r: Vec<(Symbol, i64)>)
    ensures
        r@.to_multiset() == entries@.to_multiset(),
        forall|a: int, b: int| 0 <= a < b < r@.len() ==> r@[a].1 >= r@[b].1,
{
    broadcast use group_to_multiset_ensures;

    let mut rest = entries;
    let mut r: Vec<(Symbol, i64)> = Vec::new();
    proof {
        lemma_empty_multiset::<(Symbol, i64)>();
        assert(r@.to_multiset().add(rest@.to_multiset()) =~= rest@.to_multiset());
    }
    while rest.len() > 0
        invariant
            r@.to_multiset().add(rest@.to_multiset()) == entries@.to_multiset(),
            forall|a: int, b: int| 0 <= a < b < r@.len() ==> r@[a].1 >= r@[b].1,
        decreases rest@.len(),
    {
        let ghost rest_before = rest@;
        let x = rest.remove(0);
        let score = x.1;
        proof {
            assert(x == rest_before[0]);
            assert(rest_before =~= Seq::<(Symbol, i64)>::empty().push(x) + rest@);
            lemma_to_multiset_add(Seq::<(Symbol, i64)>::empty().push(x), rest@);
            lemma_singleton_multiset(x);
            assert(rest_before.to_multiset() =~= rest@.to_multiset().insert(x));
        }
        let mut pos: usize = 0;
        while pos < r.len() && r[pos].1 >= score
            invariant
                pos <= r@.len(),
                forall|k: int| 0 <= k < pos ==> r@[k].1 >= score,
            decreases r@.len() - pos,
        {
            pos = pos + 1;
        }
        let ghost before = r@;
        let ghost at_end = (pos as int == before.len());
        proof {
            if !at_end {
                assert(before[pos as int].1 < score);
            }
        }
        r.insert(pos, x);
        proof {
            lemma_to_multiset_insert(before, pos as int, x);
            assert forall|a: int, b: int| 0 <= a < b < r@.len() implies r@[a].1 >= r@[b].1 by {
                if a < pos as int && b == pos as int {
                    assert(before[a].1 >= score);
                } else if a == pos as int && b > pos as int {
                    assert(before[b - 1].1 < score);
                }
            }
            assert(r@.to_multiset().add(rest@.to_multiset()) =~= entries@.to_multiset());
        }
    }
    proof {
        broadcast use group_to_multiset_ensures;

        assert(rest@.to_multiset().len() == 0);
        assert(rest@.to_multiset() =~= Multiset::<(Symbol, i64)>::empty());
        assert(r@.to_multiset() =~= entries@.to_multiset());
    }
    r
}

/// Whether the accumulated results already hold an entry with this
/// symbol's coarse (name, line, file index) identity.
fn contains_coarse(results: &Vec<(Symbol, i64)>, sym: &Symbol) -> (r: bool)
    ensures
        r == exists|k: int|
            0 <= k < results@.len() && coarse_key((#[trigger] results@[k].0)@) == coarse_key(sym@),
{
    let n = results.len();
    for i in 0..n
        invariant
            n == results@.len(),
            forall|k: int|
                0 <= k < i ==> coarse_key((#[trigger] results@[k].0)@) != coarse_key(sym@),
    {
        let e = &results[i].0;
        if e.name == sym.name && e.context.line_number == sym.context.line_number
            && e.context.file_path_index == sym.context.file_path_index {
            proof {
                assert(coarse_key((results@[i as int].0)@) == coarse_key(sym@));
            }
            return true;
        }
        proof {
            assert(coarse_key((results@[i as int].0)@) != coarse_key(sym@));
        }
    }
    false
}

/// Whether some entry of `r` shares `entry`'s coarse identity.
pub open spec fn key_covered(r: Seq<(Symbol, i64)>, entry: (Symbol, i64)) -> bool {
    exists|k: int|
        0 <= k < r.len() && coarse_key((#[trigger] r[k].0)@) == coarse_key(entry.0@)
}

/// Whether `e` is the first entry of `sorted` carrying its coarse
/// identity: it occurs there, and no earlier entry shares its key.
pub open spec fn first_entry_with_key(sorted: Seq<(Symbol, i64)>, e: (Symbol, i64)) -> bool {
    exists|j: int|
        0 <= j < sorted.len() && #[trigger] sorted[j] == e && (forall|j2: int|
            0 <= j2 < j ==> coarse_key(sorted[j2].0@) != coarse_key(sorted[j].0@))
}

/// Keeps the first entry under each coarse identity, preserving order:
/// the deduplicated list stays sorted, covers every identity, and every
/// kept entry is the first of `sorted` carrying its identity (under one
/// identity all scores are equal, so this is the first-scanned one of its
/// score class).
fn dedup_by_coarse(sorted: Vec<(Symbol, i64)>) -> (r: Vec<(Symbol, i64)>)
    requires
        forall|a: int, b: int| 0 <= a < b < sorted@.len() ==> sorted@[a].1 >= sorted@[b].1,
    ensures
        forall|k: int| 0 <= k < r@.len() ==> sorted@.contains(#[trigger] r@[k]),
        forall|a: int, b: int|
            0 <= a < b < r@.len() ==> coarse_key(r@[a].0@) != coarse_key(r@[b].0@),
        forall|a: int, b: int| 0 <= a < b < r@.len() ==> r@[a].1 >= r@[b].1,
        forall|j: int| 0 <= j < sorted@.len() ==> key_covered(r@, #[trigger] sorted@[j]),
        forall|k: int| 0 <= k < r@.len() ==> first_entry_with_key(sorted@, #[trigger] r@[k]),
{
    let mut rest = sorted;
    let mut r: Vec<(Symbol, i64)> = Vec::new();
    let mut i: usize = 0;
    let total = rest.len();
    proof {
        assert(sorted@.len() == total as int);
        assert(rest@ =~= sorted@.skip(0));
    }
    while rest.len() > 0
        invariant
            i <= sorted@.len(),
            sorted@.len() <= usize::MAX,
            rest@ == sorted@.skip(i as int),
            rest@.len() == sorted@.len() - i,
            forall|a: int, b: int| 0 <= a < b < sorted@.len() ==> sorted@[a].1 >= sorted@[b].1,
            forall|k: int| 0 <= k < r@.len() ==> sorted@.contains(#[trigger] r@[k]),
            forall|a: int, b: int|
                0 <= a < b < r@.len() ==> coarse_key(r@[a].0@) != coarse_key(r@[b].0@),
            forall|a: int, b: int| 0 <= a < b < r@.len() ==> r@[a].1 >= r@[b].1,
            forall|k: int, j: int|
                0 <= k < r@.len() && i <= j < sorted@.len() ==> (#[trigger] r@[k]).1
                    >= (#[trigger] sorted@[j]).1,
            forall|j: int| 0 <= j < i ==> key_covered(r@, #[trigger] sorted@[j]),
            forall|k: int| 0 <= k < r@.len() ==> first_entry_with_key(sorted@, #[trigger] r@[k]),
        decreases rest@.len(),
    {
        let x = rest.remove(0);
        proof {
            assert(x == sorted@[i as int]);
            assert(rest@ =~= sorted@.skip(i + 1));
        }
        let ghost r_before = r@;
        if !contains_coarse(&r, &x.0) {
            r.push(x);
            proof {
                assert(forall|k: int| 0 <= k < r_before.len() ==> r@[k] == r_before[k]);
                assert(r@[r@.len() - 1] == sorted@[i as int]);
                assert(sorted@.contains(sorted@[i as int]));
                // nothing before position i carries this identity, else it
                // would already be covered and the entry skipped
                assert forall|j2: int|
                    0 <= j2 < i implies coarse_key(sorted@[j2].0@) != coarse_key(
                    sorted@[i as int].0@,
                ) by {
                    if coarse_key(sorted@[j2].0@) == coarse_key(sorted@[i as int].0@) {
                        assert(key_covered(r_before, sorted@[j2]));
                        let w = choose|w: int|
                            0 <= w < r_before.len() && coarse_key((#[trigger] r_before[w].0)@)
                                == coarse_key(sorted@[j2].0@);
                        assert(coarse_key((r_before[w].0)@) == coarse_key(x.0@));
                    }
                }
                assert(first_entry_with_key(sorted@, sorted@[i as int]));
                assert forall|j: int| 0 <= j < i + 1 implies key_covered(
                    r@,
                    #[trigger] sorted@[j],
                ) by {
                    if j < i {
                        assert(key_covered(r_before, sorted@[j]));
                        let k0 = choose|k0: int|
                            0 <= k0 < r_before.len() && coarse_key(
                                (#[trigger] r_before[k0].0)@,
                            ) == coarse_key(sorted@[j].0@);
                        assert(coarse_key((r@[k0].0)@) == coarse_key(sorted@[j].0@));
                    } else {
                        assert(coarse_key((r@[r@.len() - 1].0)@) == coarse_key(sorted@[j].0@));
                    }
                }
            }
        } else {
            proof {
                assert(key_covered(r_before, sorted@[i as int]));
                let w = choose|w: int|
                    0 <= w < r_before.len() && coarse_key((#[trigger] r_before[w].0)@)
                        == coarse_key(sorted@[i as int].0@);
                assert(coarse_key((r@[w].0)@) == coarse_key(sorted@[i as int].0@));
                assert(key_covered(r@, sorted@[i as int]));
            }
        }
        i = i + 1;
    }
    proof {
        assert(i == sorted@.len());
    }
    r
}

/// Whether some entry of `results` shares the coarse identity of the
/// symbol value `s`.
pub open spec fn view_key_covered(results: Seq<(Symbol, i64)>, s: SymbolView) -> bool {
    exists|k: int|
        0 <= k < results.len() && coarse_key((#[trigger] results[k].0)@) == coarse_key(s)
}

/// What a search over the symbol pool promises of its result list.
/// `pool` is the function set followed by the class set; both strategies
/// scan it in that order.
pub open spec fn search_post(
    results: Seq<(Symbol, i64)>,
    pool: Seq<SymbolView>,
    query: Seq<char>,
    exact_score: int,
    cap: int,
) -> bool {
    // every entry is a pool symbol carrying its score, and only positive
    // scores appear
    &&& forall|k: int|
        0 <= k < results.len() ==> pool.contains((#[trigger] results[k].0)@) && results[k].1 as int
            == spec_score_with(results[k].0@.name, query, exact_score, cap) && results[k].1 > 0
    // no two entries share the coarse (name, line, file index) identity
    &&& forall|a: int, b: int|
        0 <= a < b < results.len() ==> coarse_key(results[a].0@) != coarse_key(results[b].0@)
    // scores never increase down the list
    &&& forall|a: int, b: int| 0 <= a < b < results.len() ==> results[a].1 >= results[b].1
    // every matching pool symbol is represented under its coarse identity
    &&& forall|s: SymbolView|
        #[trigger] pool.contains(s) && spec_score_with(s.name, query, exact_score, cap) > 0
            ==> view_key_covered(results, s)
    // exactness precedence: whenever some pool symbol matches the query
    // exactly (case-insensitively), the first result is an exact match at
    // the exact-match score, which no non-exact entry can reach
    &&& ({
        (exists|s: SymbolView| #[trigger] pool.contains(s) && is_exact_match(s.name, query)) ==> (
        results.len() > 0 && results[0].1 as int == exact_score && is_exact_match(
            results[0].0@.name,
            query,
        ))
    })
    // an empty query yields no entry when no symbol has an empty name
    &&& ({
        (query.len() == 0 && (forall|s: SymbolView| #[trigger] pool.contains(s) ==> s.name.len()
            > 0)) ==> results.len() == 0
    })
}

/// Runs one search under the given strategy constants.
#[verifier::rlimit(100)]
fn search_with(
    query: &str,
    functions: &SymbolSet,
    classes: &SymbolSet,
    exact_score: i64,
    cap: i64,
) -> (r: (Vec<(Symbol, i64)>, SearchMetrics))
    requires
        0 < cap < exact_score,
    ensures
        search_post(r.0@, functions@ + classes@, query@, exact_score as int, cap as int),
        r.1.results_count == r.0@.len(),
{
    broadcast use group_to_multiset_ensures;

    let start_total = instant_now();
    let matcher_start = instant_now();
    let matcher = SkimMatcher::new();
    let matcher_init_time_ms = elapsed_ms(&matcher_start);
    let lower_query = lowercase(query);

    let search_start = instant_now();
    let mut scanned: Vec<(Symbol, i64)> = Vec::new();
    scan_set(&matcher, &lower_query, query, functions, &mut scanned, exact_score, cap);
    let ghost after_f = scanned@;
    scan_set(&matcher, &lower_query, query, classes, &mut scanned, exact_score, cap);
    let search_time_ms = elapsed_ms(&search_start);

    let ghost pool = functions@ + classes@;
    let ghost scanned_snap = scanned@;
    proof {
        // every scanned entry is a pool symbol with its positive score
        assert forall|k: int| 0 <= k < scanned_snap.len() implies pool.contains(
            (#[trigger] scanned_snap[k].0)@,
        ) && scanned_snap[k].1 as int == spec_score_with(
            scanned_snap[k].0@.name,
            query@,
            exact_score as int,
            cap as int,
        ) && scanned_snap[k].1 > 0 by {
            if k < after_f.len() {
                assert(scanned_snap[k] == after_f[k]);
                assert(functions@.contains(after_f[k].0@));
                let w = choose|w: int|
                    0 <= w < functions@.len() && functions@[w] == after_f[k].0@;
                assert(pool[w] == scanned_snap[k].0@);
            } else {
                assert(classes@.contains(scanned_snap[k].0@));
                let w = choose|w: int| 0 <= w < classes@.len() && classes@[w] == scanned_snap[k].0@;
                assert(pool[functions@.len() + w] == scanned_snap[k].0@);
            }
        }
        // every matching pool symbol appears among the scanned entries
        assert forall|s: SymbolView|
            pool.contains(s) && spec_score_with(s.name, query@, exact_score as int, cap as int)
                > 0 implies exists|k: int|
            0 <= k < scanned_snap.len() && (#[trigger] scanned_snap[k].0)@ == s by {
            let j = choose|j: int| 0 <= j < pool.len() && pool[j] == s;
            if j < functions@.len() {
                assert(functions@[j] == s);
                assert(functions@.contains(s));
                let k0 = choose|k0: int|
                    0 <= k0 < after_f.len() && (#[trigger] after_f[k0].0)@ == s;
                assert(scanned_snap[k0] == after_f[k0]);
                assert((scanned_snap[k0].0)@ == s);
            } else {
                assert(classes@[j - functions@.len()] == s);
                assert(classes@.contains(s));
            }
        }
        // an empty query scans nothing when no pool symbol has an empty name
        if query@.len() == 0 && (forall|s: SymbolView|
            #[trigger] pool.contains(s) ==> s.name.len() > 0) {
            assert forall|s: SymbolView| functions@.contains(s) implies s.name.len() > 0 by {
                let w = choose|w: int| 0 <= w < functions@.len() && functions@[w] == s;
                assert(pool[w] == s);
                assert(pool.contains(s));
            }
            assert forall|s: SymbolView| classes@.contains(s) implies s.name.len() > 0 by {
                let w = choose|w: int| 0 <= w < classes@.len() && classes@[w] == s;
                assert(pool[functions@.len() + w] == s);
                assert(pool.contains(s));
            }
            assert(scanned_snap.len() == 0);
        }
    }

    let sort_start = instant_now();
    let sorted = sort_by_score(scanned);
    let ghost sorted_snap = sorted@;
    let results = dedup_by_coarse(sorted);
    let sort_time_ms = elapsed_ms(&sort_start);
    let total_time_ms = elapsed_ms(&start_total);
    let results_count = results.len();

    proof {
        // entries survive sorting as a multiset: membership both ways
        assert forall|k: int| 0 <= k < sorted_snap.len() implies scanned_snap.contains(
            #[trigger] sorted_snap[k],
        ) by {
            assert(sorted_snap.to_multiset().contains(sorted_snap[k]));
        }
        assert forall|k: int| 0 <= k < scanned_snap.len() implies sorted_snap.contains(
            #[trigger] scanned_snap[k],
        ) by {
            assert(scanned_snap.to_multiset().contains(scanned_snap[k]));
            assert(sorted_snap.to_multiset().contains(scanned_snap[k]));
        }
        // scores, membership and positivity carry from the scan
        assert forall|k: int| 0 <= k < results@.len() implies pool.contains(
            (#[trigger] results@[k].0)@,
        ) && results@[k].1 as int == spec_score_with(
            results@[k].0@.name,
            query@,
            exact_score as int,
            cap as int,
        ) && results@[k].1 > 0 by {
            assert(sorted_snap.contains(results@[k]));
            let m = choose|m: int| 0 <= m < sorted_snap.len() && sorted_snap[m] == results@[k];
            assert(scanned_snap.contains(sorted_snap[m]));
            let j = choose|j: int| 0 <= j < scanned_snap.len() && scanned_snap[j] == results@[k];
        }
        // every matching pool symbol keeps a representative
        assert forall|s: SymbolView|
            #[trigger] pool.contains(s) && spec_score_with(
                s.name,
                query@,
                exact_score as int,
                cap as int,
            ) > 0 implies view_key_covered(results@, s) by {
            let j = choose|j: int|
                0 <= j < scanned_snap.len() && (#[trigger] scanned_snap[j].0)@ == s;
            assert(sorted_snap.contains(scanned_snap[j]));
            let m = choose|m: int| 0 <= m < sorted_snap.len() && sorted_snap[m] == scanned_snap[j];
            assert(key_covered(results@, sorted_snap[m]));
            let k0 = choose|k0: int|
                0 <= k0 < results@.len() && coarse_key((#[trigger] results@[k0].0)@) == coarse_key(
                    sorted_snap[m].0@,
                );
            assert(coarse_key((results@[k0].0)@) == coarse_key(s));
        }
        // exactness precedence, unconditional: no capped fuzzy score can
        // reach the exact-match score
        if exists|s: SymbolView| #[trigger] pool.contains(s) && is_exact_match(s.name, query@) {
            let s0 = choose|s0: SymbolView|
                #[trigger] pool.contains(s0) && is_exact_match(s0.name, query@);
            assert(spec_score_with(s0.name, query@, exact_score as int, cap as int)
                == exact_score as int);
            assert(view_key_covered(results@, s0));
            let k0 = choose|k0: int|
                0 <= k0 < results@.len() && coarse_key((#[trigger] results@[k0].0)@) == coarse_key(
                    s0,
                );
            assert(results@[k0].0@.name == s0.name);
            assert(is_exact_match(results@[k0].0@.name, query@));
            assert(results@[k0].1 == exact_score);
            assert(results@.len() > 0);
            if k0 > 0 {
                assert(results@[0].1 >= results@[k0].1);
            }
            assert(results@[0].1 >= exact_score);
            if !is_exact_match(results@[0].0@.name, query@) {
                assert(pool.contains(results@[0].0@));
                assert(results@[0].1 as int == spec_score_with(
                    results@[0].0@.name,
                    query@,
                    exact_score as int,
                    cap as int,
                ));
                assert(results@[0].1 <= cap);
            }
            assert(results@[0].1 == exact_score);
        }
        // emptiness carries through sorting and deduplication
        if query@.len() == 0 && (forall|s: SymbolView|
            #[trigger] pool.contains(s) ==> s.name.len() > 0) {
            assert(scanned_snap.len() == 0);
            assert(sorted_snap.to_multiset().len() == 0);
            assert(sorted_snap.len() == 0);
            if results@.len() > 0 {
                assert(sorted_snap.contains(results@[0]));
            }
            assert(results@.len() == 0);
        }
    }

    let metrics = SearchMetrics {
        matcher_init_time_ms,
        search_time_ms,
        sort_time_ms,
        total_time_ms,
        results_count,
    };
    (results, metrics)
}

/// Searches both symbol sets with the ordered fuzzy strategy: an exact
/// case-insensitive name match scores 1000, every other name its fuzzy
/// score capped just below that, positives only; results are deduplicated
/// by coarse identity and sorted by score, highest first.  The registry
/// and the debug flag serve diagnostic printing only, which is left to
/// callers.
#[allow(unused_variables)]
pub fn search_symbols(
    query: &str,
    functions: &SymbolSet,
    classes: &SymbolSet,
    path_registry: &PathRegistry,
    debug: bool,
) -> (r: (Vec<(Symbol, i64)>, SearchMetrics))
    ensures
        search_post(r.0@, functions@ + classes@, query@, 1000, 999),
        r.1.results_count == r.0@.len(),
{
    search_with(query, functions, classes, 1000, 999)
}

/// The second strategy the library offers: the same scan, deduplication
/// and ordering, but an exact match scores the dominating override
/// constant 10000, which no capped fuzzy score can reach.
#[allow(unused_variables)]
pub fn search_symbols_skim(
    query: &str,
    functions: &SymbolSet,
    classes: &SymbolSet,
    path_registry: &PathRegistry,
    debug: bool,
) -> (r: (Vec<(Symbol, i64)>, SearchMetrics))
    ensures
        search_post(r.0@, functions@ + classes@, query@, 10000, 9999),
        r.1.results_count == r.0@.len(),
{
    search_with(query, functions, classes, 10000, 9999)
}

} // verus!
