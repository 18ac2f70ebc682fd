//! The query server's pure logic: converting a scored symbol into a
//! protocol symbol record, and answering one workspace-symbol request
//! against the frozen aggregate.  The byte-level protocol plumbing stays
//! outside; an empty query is answered without touching the scan path.

use crate::registry::PathRegistry;
use crate::search::{search_symbols, spec_score, SearchMetrics};
use crate::symbols::{
    parent_views, ParentContext, ParentContextView, Symbol, SymbolContextView, SymbolSet,
    SymbolType, SymbolView,
};
use crate::text::string_push_char;
use vstd::prelude::*;
use vstd::string::{StrSliceExecFns, StringExecFns};

verus! {

broadcast use vstd::seq::group_seq_axioms, vstd::std_specs::vec::group_vec_axioms;

/// The protocol symbol kinds the server reports.
#[derive(Debug, Clone, Copy, PartialEq, Eq, Structural)]
pub enum RecordKind {
    Function,
    Class,
    Variable,
}

/// One workspace-symbol response record: the protocol-facing shape of a
/// symbol, with a file URI and a zero-based line.
#[derive(Debug)]
pub struct SymbolRecord {
    pub name: String,
    pub kind: RecordKind,
    pub uri: String,
    pub line: u32,
    pub container_name: String,
}

/// The record kind of a symbol type: the class family maps to `Class`,
/// functions and methods to `Function`, anything else to the generic
/// fallback.
pub open spec fn spec_record_kind(t: SymbolType) -> RecordKind {
    match t {
        SymbolType::Class => RecordKind::Class,
        SymbolType::NestedClass => RecordKind::Class,
        SymbolType::Function => RecordKind::Function,
        SymbolType::Method => RecordKind::Function,
        SymbolType::NestedFunction => RecordKind::Variable,
    }
}

/// The zero-based protocol line of a 1-based line number, floored at zero.
pub open spec fn spec_zero_based_line(line: usize) -> u32 {
    if line as u32 >= 1 {
        ((line as u32) - 1) as u32
    } else {
        0u32
    }
}

/// The parent names joined with dots, outermost first.
pub open spec fn spec_joined_names(parents: Seq<ParentContextView>) -> Seq<char>
    decreases parents.len(),
{
    if parents.len() == 0 {
        Seq::<char>::empty()
    } else if parents.len() == 1 {
        parents[0].name
    } else {
        spec_joined_names(parents.drop_last()) + seq!['.'] + parents.last().name
    }
}

/// The container name of a symbol: its joined parent chain when it has
/// one, else its fully qualified module.
pub open spec fn spec_container_name(c: SymbolContextView) -> Seq<char> {
    if c.parent_context.len() > 0 {
        spec_joined_names(c.parent_context)
    } else {
        c.fully_qualified_module
    }
}

/// Whether a record reports the symbol value `s`.
pub open spec fn record_matches(rec: SymbolRecord, s: SymbolView) -> bool {
    &&& rec.name@ == s.name
    &&& rec.kind == spec_record_kind(s.context.symbol_type)
    &&& rec.line as nat == spec_zero_based_line_nat(s.context.line_number)
    &&& rec.container_name@ == spec_container_name(s.context)
}

/// `spec_zero_based_line` on the view's natural-number line.
pub open spec fn spec_zero_based_line_nat(line: nat) -> nat {
    if line as u32 >= 1 {
        (line as u32 - 1) as nat
    } else {
        0
    }
}

/// Joins the parent names with dots.
fn join_parent_names(parents: &Vec<ParentContext>) -> (r: String)
    ensures
        r@ == spec_joined_names(parent_views(parents@)),
{
    let mut out = String::new();
    let n = parents.len();
    for i in 0..n
        invariant
            n == parents@.len(),
            out@ == spec_joined_names(parent_views(parents@).subrange(0, i as int)),
    {
        if i > 0 {
            string_push_char(&mut out, '.');
        }
        out.append(parents[i].name.as_str());
        proof {
            let pv = parent_views(parents@);
            let here = pv.subrange(0, i + 1);
            assert(here.drop_last() =~= pv.subrange(0, i as int));
            assert(here.last() == pv[i as int]);
            assert(pv[i as int].name == parents@[i as int].name@);
            if i == 0 {
                assert(here[0] == pv[0]);
                assert(out@ =~= spec_joined_names(here));
            } else {
                assert(out@ =~= spec_joined_names(here));
            }
        }
    }
    proof {
        assert(parent_views(parents@).subrange(0, parents@.len() as int) =~= parent_views(
            parents@,
        ));
    }
    out
}

/// What `Url::from_file_path` (rendered with `Url::as_str`) returns for a
/// path: a file URI, or nothing where the crate refuses the path (one
/// that is not absolute).  The result depends on the path alone.
pub uninterp spec fn file_uri_of(path: Seq<char>) -> Option<Seq<char>>;

/// Relies on `Url::from_file_path` and `Url::as_str` from the url crate:
/// turns an absolute file path into a file URI, refusing a relative path;
/// the rendered text is a function of the path alone.
#[verifier::external_body]
fn path_to_file_uri(path: &str) -> (r: Option<String>)
    ensures
        r is Some <==> file_uri_of(path@) is Some,
        r matches Some(u) ==> file_uri_of(path@) == Some(u@),
{
    match url::Url::from_file_path(path) {
        Ok(u) => Some(u.as_str().to_string()),
        Err(_) => None,
    }
}

/// Builds the protocol record for a symbol whose location URI is already
/// known.  Every field except the URI is a function of the symbol alone;
/// the match score is threaded through for callers that log it and does
/// not enter the record.
#[allow(unused_variables)]
pub fn to_symbol_record(symbol: &Symbol, uri: String, score: i64) -> (r: SymbolRecord)
    ensures
        record_matches(r, symbol@),
        r.uri == uri,
{
    let kind = match symbol.context.symbol_type {
        SymbolType::Class => RecordKind::Class,
        SymbolType::NestedClass => RecordKind::Class,
        SymbolType::Function => RecordKind::Function,
        SymbolType::Method => RecordKind::Function,
        SymbolType::NestedFunction => RecordKind::Variable,
    };
    let line32 = #[verifier::truncate] (symbol.context.line_number as u32);
    let line = if line32 >= 1 {
        line32 - 1
    } else {
        0
    };
    let container_name = if parents_len(&symbol.context.parent_context) > 0 {
        join_parent_names(&symbol.context.parent_context)
    } else {
        symbol.context.fully_qualified_module.clone()
    };
    SymbolRecord { name: symbol.name.clone(), kind, uri, line, container_name }
}

/// The length of a parent chain.
fn parents_len(parents: &Vec<ParentContext>) -> (n: usize)
    ensures
        n == parents@.len(),
{
    parents.len()
}

/// Converts one scored symbol to a protocol record: the symbol's path is
/// resolved through the registry and turned into a file URI.  A record is
/// returned exactly when the resolved path has a file URI; a path the
/// protocol cannot express yields `None` and the symbol is dropped.
pub fn to_lsp_symbol_information(
    symbol: &Symbol,
    path_registry: &PathRegistry,
    score: i64,
) -> (r: Option<SymbolRecord>)
    requires
        symbol.context.file_path_index < path_registry@.len(),
    ensures
        r is Some <==> file_uri_of(path_registry@[symbol.context.file_path_index as int]) is Some,
        r matches Some(rec) ==> record_matches(rec, symbol@) && Some(rec.uri@) == file_uri_of(
            path_registry@[symbol.context.file_path_index as int],
        ),
{
    let path = path_registry.get_path(symbol.context.file_path_index);
    match path_to_file_uri(path.as_str()) {
        Some(uri) => Some(to_symbol_record(symbol, uri, score)),
        None => None,
    }
}

/// Whether a record reports some pool symbol that matched the query.
pub open spec fn reported_from(rec: SymbolRecord, pool: Seq<SymbolView>, query: Seq<char>) -> bool {
    exists|s: SymbolView|
        #[trigger] pool.contains(s) && spec_score(s.name, query) > 0 && record_matches(rec, s)
}

/// Whether a scored symbol can be reported: its path index resolves and
/// the resolved path has a file URI.
pub open spec fn entry_convertible(s: SymbolView, paths: Seq<Seq<char>>) -> bool {
    s.context.file_path_index < paths.len() && file_uri_of(
        paths[s.context.file_path_index as int],
    ) is Some
}

/// Whether `rec` reports the scored symbol `s`, URI included.
pub open spec fn record_of_entry(rec: SymbolRecord, s: SymbolView, paths: Seq<Seq<char>>) -> bool {
    &&& record_matches(rec, s)
    &&& s.context.file_path_index < paths.len()
    &&& Some(rec.uri@) == file_uri_of(paths[s.context.file_path_index as int])
}

/// Whether `records` is exactly the in-order conversion of the
/// convertible entries of `results`: each entry whose path resolves to a
/// file URI contributes its record, every other entry is dropped.
pub open spec fn records_converted(
    results: Seq<(Symbol, i64)>,
    paths: Seq<Seq<char>>,
    records: Seq<SymbolRecord>,
) -> bool
    decreases results.len(),
{
    if results.len() == 0 {
        records.len() == 0
    } else {
        let s = results.last().0@;
        if entry_convertible(s, paths) {
            records.len() > 0 && record_of_entry(records.last(), s, paths) && records_converted(
                results.drop_last(),
                paths,
                records.drop_last(),
            )
        } else {
            records_converted(results.drop_last(), paths, records)
        }
    }
}

/// Answers one workspace-symbol request against the frozen aggregate.
/// An empty query yields an empty list without running the scan path (no
/// metrics are produced).  Otherwise the records are exactly the first at
/// most 100 of the in-order conversion of a search result list: each
/// surviving entry becomes its protocol record, and a symbol whose path
/// has no protocol form is dropped, never the whole request.
#[verifier::rlimit(100)]
pub fn handle_workspace_symbol_request(
    query: &str,
    functions: &SymbolSet,
    classes: &SymbolSet,
    path_registry: &PathRegistry,
) -> (r: (Vec<SymbolRecord>, Option<SearchMetrics>))
    ensures
        query@.len() == 0 ==> r.0@.len() == 0 && r.1 is None,
        query@.len() > 0 ==> r.1 is Some,
        r.0@.len() <= 100,
        forall|k: int|
            0 <= k < r.0@.len() ==> reported_from(#[trigger] r.0@[k], functions@ + classes@, query@),
        query@.len() > 0 ==> (exists|results: Seq<(Symbol, i64)>, full: Seq<SymbolRecord>|
            {
                &&& #[trigger] crate::search::search_post(
                    results,
                    functions@ + classes@,
                    query@,
                    1000,
                    999,
                )
                &&& #[trigger] records_converted(results, path_registry@, full)
                &&& r.0@ == if full.len() <= 100 {
                    full
                } else {
                    full.take(100)
                }
            }),
{
    if query.is_empty() {
        return (Vec::new(), None);
    }
    let (results, metrics) = search_symbols(query, functions, classes, path_registry, false);
    let ghost pool = functions@ + classes@;
    let mut records: Vec<SymbolRecord> = Vec::new();
    let n = results.len();
    proof {
        assert(results@.subrange(0, 0) =~= Seq::<(Symbol, i64)>::empty());
    }
    for i in 0..n
        invariant
            n == results@.len(),
            crate::search::search_post(results@, pool, query@, 1000, 999),
            pool == functions@ + classes@,
            records_converted(results@.subrange(0, i as int), path_registry@, records@),
            forall|k: int|
                0 <= k < records@.len() ==> reported_from(#[trigger] records@[k], pool, query@),
    {
        let ghost here = results@.subrange(0, i + 1);
        proof {
            assert(here.drop_last() =~= results@.subrange(0, i as int));
            assert(here.last() == results@[i as int]);
        }
        let sym = &results[i].0;
        if sym.context.file_path_index < path_registry.path_count() {
            match to_lsp_symbol_information(sym, path_registry, results[i].1) {
                Some(rec) => {
                    proof {
                        assert(pool.contains(results@[i as int].0@));
                        assert(results@[i as int].1 as int == crate::search::spec_score_with(
                            results@[i as int].0@.name,
                            query@,
                            1000,
                            999,
                        ));
                        assert(crate::search::spec_score(results@[i as int].0@.name, query@) > 0);
                        assert(entry_convertible(results@[i as int].0@, path_registry@));
                        assert(record_of_entry(rec, results@[i as int].0@, path_registry@));
                    }
                    let ghost pre = records@;
                    records.push(rec);
                    proof {
                        assert(forall|k: int| 0 <= k < pre.len() ==> records@[k] == pre[k]);
                        assert(records@.drop_last() =~= pre);
                        assert(record_matches(records@[records@.len() - 1], results@[i as int].0@));
                        assert(reported_from(records@[records@.len() - 1], pool, query@));
                        assert(records_converted(here, path_registry@, records@));
                    }
                },
                None => {
                    proof {
                        assert(!entry_convertible(results@[i as int].0@, path_registry@));
                        assert(records_converted(here, path_registry@, records@));
                    }
                },
            }
        } else {
            proof {
                assert(!entry_convertible(results@[i as int].0@, path_registry@));
                assert(records_converted(here, path_registry@, records@));
            }
        }
    }
    proof {
        assert(results@.subrange(0, n as int) =~= results@);
    }
    let ghost full = records@;
    if records.len() > 100 {
        records.truncate(100);
        proof {
            assert(records@ == full.take(100));
        }
    }
    proof {
        assert(pool == functions@ + classes@);
        assert(crate::search::search_post(results@, functions@ + classes@, query@, 1000, 999));
        assert(records_converted(results@, path_registry@, full));
        if full.len() > 100 {
            assert forall|k: int| 0 <= k < records@.len() implies reported_from(
                #[trigger] records@[k],
                pool,
                query@,
            ) by {
                assert(records@[k] == full[k]);
                assert(reported_from(full[k], pool, query@));
            }
        }
    }
    (records, Some(metrics))
}

} // verus!
