//! The indexing pipeline's decisions: duplicate diagnostics, the
//! pre-assignment of path indices before any parsing starts, chunk sizing,
//! per-file outcome classification, the once-per-chunk merge into the
//! shared aggregate, and the persistence round trip.
//!
//! Reading, parsing and the worker pool itself are outside work; each
//! worker hands the results of that work to the functions here as plain
//! values, so every decision they contain is verified.

use crate::extract::{extract_symbols, spec_collect};
use crate::registry::{spec_first_index_of, PathRegistry};
use crate::symbols::{
    get_fully_qualified_module, get_module_name, parent_views, set_extend, spec_fq_module,
    spec_module_name, symbol_views, Symbol, SymbolData, SymbolStats, SymbolView,
};
use crate::tree::ParseNode;
use vstd::prelude::*;

verus! {

/// The views of a list of path strings.
pub open spec fn path_views(s: Seq<String>) -> Seq<Seq<char>> {
    s.map_values(|p: String| p@)
}

/// How many entries of `files` repeat an earlier entry.
pub open spec fn spec_dup_count(files: Seq<Seq<char>>) -> nat
    decreases files.len(),
{
    if files.len() == 0 {
        0
    } else {
        spec_dup_count(files.drop_last()) + if files.drop_last().contains(files.last()) {
            1nat
        } else {
            0nat
        }
    }
}

/// Counts the duplicate entries of a file list (a diagnostic only; the
/// registry and the symbol sets absorb duplicates by themselves).
pub fn count_duplicate_paths(files: &Vec<String>) -> (n: usize)
    ensures
        n == spec_dup_count(path_views(files@)),
{
    let mut count: usize = 0;
    let total = files.len();
    for i in 0..total
        invariant
            total == files@.len(),
            count == spec_dup_count(path_views(files@).subrange(0, i as int)),
            count <= i,
    {
        let mut seen = false;
        for j in 0..i
            invariant
                i < total == files@.len(),
                seen <==> exists|k: int| 0 <= k < j && files@[k]@ == files@[i as int]@,
        {
            if files[j] == files[i] {
                proof {
                    assert(files@[j as int]@ == files@[i as int]@);
                }
                seen = true;
            }
        }
        proof {
            let pv = path_views(files@);
            let pre = pv.subrange(0, i as int);
            assert(pv.subrange(0, i + 1).drop_last() =~= pre);
            assert(pv.subrange(0, i + 1).last() == pv[i as int]);
            if seen {
                let k = choose|k: int| 0 <= k < i && files@[k]@ == files@[i as int]@;
                assert(pre[k] == pv[i as int]);
                assert(pre.contains(pv[i as int]));
            } else {
                assert forall|k: int| 0 <= k < pre.len() implies pre[k] != pv[i as int] by {
                    assert(pre[k] == files@[k]@);
                }
                assert(!pre.contains(pv[i as int]));
            }
        }
        if seen {
            count = count + 1;
        }
    }
    proof {
        assert(path_views(files@).subrange(0, files@.len() as int) =~= path_views(files@));
    }
    count
}

/// The registry contents that pre-assignment produces: the input paths in
/// first-occurrence order, each once.
pub open spec fn dedup_first(files: Seq<Seq<char>>) -> Seq<Seq<char>>
    decreases files.len(),
{
    if files.len() == 0 {
        Seq::<Seq<char>>::empty()
    } else {
        let prefix = dedup_first(files.drop_last());
        if prefix.contains(files.last()) {
            prefix
        } else {
            prefix.push(files.last())
        }
    }
}

/// `dedup_first` holds exactly the members of its input, each once.
pub proof fn lemma_dedup_first_elements(files: Seq<Seq<char>>)
    ensures
        forall|x: Seq<char>| dedup_first(files).contains(x) <==> files.contains(x),
        forall|i: int, j: int|
            0 <= i < j < dedup_first(files).len() ==> dedup_first(files)[i] != dedup_first(
                files,
            )[j],
    decreases files.len(),
{
    if files.len() > 0 {
        lemma_dedup_first_elements(files.drop_last());
        let prefix = dedup_first(files.drop_last());
        let d = dedup_first(files);
        assert forall|x: Seq<char>| d.contains(x) implies files.contains(x) by {
            if prefix.contains(x) {
                assert(files.drop_last().contains(x));
                let k = choose|k: int| 0 <= k < files.len() - 1 && files.drop_last()[k] == x;
                assert(files[k] == x);
            } else {
                assert(x == files.last());
                assert(files[files.len() - 1] == x);
            }
        }
        assert forall|x: Seq<char>| files.contains(x) implies d.contains(x) by {
            let k = choose|k: int| 0 <= k < files.len() && files[k] == x;
            if k < files.len() - 1 {
                assert(files.drop_last()[k] == x);
                assert(files.drop_last().contains(x));
                assert(prefix.contains(x));
                if !prefix.contains(files.last()) {
                    assert(d == prefix.push(files.last()));
                    let w = choose|w: int| 0 <= w < prefix.len() && prefix[w] == x;
                    assert(d[w] == x);
                }
            } else {
                assert(x == files.last());
                if prefix.contains(x) {
                    let w = choose|w: int| 0 <= w < prefix.len() && prefix[w] == x;
                    if d == prefix.push(files.last()) {
                        assert(d[w] == x);
                    }
                } else {
                    assert(d == prefix.push(files.last()));
                    assert(d[d.len() - 1] == x);
                }
            }
        }
        if !prefix.contains(files.last()) {
            assert forall|i: int, j: int| 0 <= i < j < d.len() implies d[i] != d[j] by {
                if j < d.len() - 1 {
                    assert(d[i] == prefix[i] && d[j] == prefix[j]);
                } else {
                    assert(d[j] == files.last());
                    assert(d[i] == prefix[i]);
                    assert(prefix.contains(prefix[i]));
                }
            }
        }
    }
}

/// Pre-assignment: clears the registry and registers every path of the
/// input list in order, before any parsing starts.  The resulting mapping
/// is a pure function of the input list.
pub fn preassign_paths(registry: &mut PathRegistry, files: &Vec<String>)
    ensures
        final(registry).wf(),
        final(registry)@ == dedup_first(path_views(files@)),
{
    registry.clear();
    let total = files.len();
    for i in 0..total
        invariant
            total == files@.len(),
            registry.wf(),
            registry@ == dedup_first(path_views(files@).subrange(0, i as int)),
    {
        let ghost pre = registry@;
        let _idx = registry.register_path(files[i].clone());
        proof {
            let pv = path_views(files@);
            assert(pv.subrange(0, i + 1).drop_last() =~= pv.subrange(0, i as int));
            assert(pv.subrange(0, i + 1).last() == files@[i as int]@);
        }
    }
    proof {
        assert(path_views(files@).subrange(0, files@.len() as int) =~= path_views(files@));
    }
}

/// Index determinism: the mapping pre-assignment builds depends on the
/// input list alone, so two runs over the same list agree on every path's
/// index, however the later per-file work is partitioned or interleaved.
pub proof fn lemma_index_determinism(
    files: Seq<Seq<char>>,
    first_run: Seq<Seq<char>>,
    second_run: Seq<Seq<char>>,
)
    requires
        first_run == dedup_first(files),
        second_run == dedup_first(files),
    ensures
        first_run == second_run,
        forall|p: Seq<char>|
            spec_first_index_of(first_run, p) == spec_first_index_of(second_run, p),
{
}

/// Registering a path that the list already holds adds nothing: the
/// registry contents are those of the list without its duplicates.
pub proof fn lemma_dedup_absorbs_duplicate(files: Seq<Seq<char>>, p: Seq<char>)
    requires
        files.contains(p),
    ensures
        dedup_first(files.push(p)) == dedup_first(files),
{
    lemma_dedup_first_elements(files);
    assert(files.push(p).drop_last() =~= files);
    assert(files.push(p).last() == p);
}

/// `set_extend` holds exactly the members of both inputs.
pub proof fn lemma_set_extend_contains(base: Seq<SymbolView>, add: Seq<SymbolView>)
    ensures
        forall|x: SymbolView|
            set_extend(base, add).contains(x) <==> base.contains(x) || add.contains(x),
    decreases add.len(),
{
    if add.len() > 0 {
        let grown = if base.contains(add.first()) {
            base
        } else {
            base.push(add.first())
        };
        lemma_set_extend_contains(grown, add.drop_first());
        assert forall|x: SymbolView|
            grown.contains(x) <==> (base.contains(x) || x == add.first()) by {
            if base.contains(add.first()) {
            } else {
                if grown.contains(x) {
                    let k = choose|k: int| 0 <= k < grown.len() && grown[k] == x;
                    if k < base.len() {
                        assert(base[k] == x);
                    }
                }
                if base.contains(x) {
                    let k = choose|k: int| 0 <= k < base.len() && base[k] == x;
                    assert(grown[k] == x);
                }
                assert(grown[base.len() as int] == add.first());
            }
        }
        assert forall|x: SymbolView|
            add.contains(x) <==> (x == add.first() || add.drop_first().contains(x)) by {
            if add.contains(x) {
                let k = choose|k: int| 0 <= k < add.len() && add[k] == x;
                if k > 0 {
                    assert(add.drop_first()[k - 1] == x);
                }
            }
            if add.drop_first().contains(x) {
                let k = choose|k: int| 0 <= k < add.len() - 1 && add.drop_first()[k] == x;
                assert(add[k + 1] == x);
            }
            assert(add[0] == add.first());
        }
    }
}

/// Extending by symbols that are all present already changes nothing.
pub proof fn lemma_set_extend_all_present(base: Seq<SymbolView>, add: Seq<SymbolView>)
    requires
        forall|x: SymbolView| add.contains(x) ==> base.contains(x),
    ensures
        set_extend(base, add) == base,
    decreases add.len(),
{
    if add.len() > 0 {
        assert(add[0] == add.first());
        assert(add.contains(add.first()));
        assert(forall|k: int|
            0 <= k < add.len() - 1 ==> add.drop_first()[k] == add[k + 1]);
        assert forall|x: SymbolView| add.drop_first().contains(x) implies base.contains(x) by {
            let k = choose|k: int| 0 <= k < add.len() - 1 && add.drop_first()[k] == x;
            assert(add[k + 1] == x);
            assert(add.contains(x));
        }
        lemma_set_extend_all_present(base, add.drop_first());
    }
}

/// Dedup under duplicate inputs: feeding the same symbols to the
/// aggregate a second time yields exactly the same set, so indexing a
/// file list that repeats a file leaves the symbol sets as if the file
/// occurred once.
pub proof fn lemma_merge_idempotent(base: Seq<SymbolView>, add: Seq<SymbolView>)
    ensures
        set_extend(set_extend(base, add), add) == set_extend(base, add),
{
    lemma_set_extend_contains(base, add);
    lemma_set_extend_all_present(set_extend(base, add), add);
}

/// Extending by pairwise-distinct symbols none of which is present
/// appends them all in order.
pub proof fn lemma_set_extend_fresh(base: Seq<SymbolView>, add: Seq<SymbolView>)
    requires
        forall|i: int, j: int| 0 <= i < j < add.len() ==> add[i] != add[j],
        forall|x: SymbolView| add.contains(x) ==> !base.contains(x),
    ensures
        set_extend(base, add) == base + add,
    decreases add.len(),
{
    if add.len() == 0 {
        assert(set_extend(base, add) =~= base + add);
    } else {
        assert(add[0] == add.first());
        assert(add.contains(add.first()));
        let grown = base.push(add.first());
        assert(forall|k: int|
            0 <= k < add.len() - 1 ==> add.drop_first()[k] == add[k + 1]);
        assert forall|i: int, j: int|
            0 <= i < j < add.drop_first().len() implies add.drop_first()[i]
            != add.drop_first()[j] by {
            assert(add.drop_first()[i] == add[i + 1]);
            assert(add.drop_first()[j] == add[j + 1]);
        }
        assert forall|x: SymbolView| add.drop_first().contains(x) implies !grown.contains(x) by {
            let k = choose|k: int| 0 <= k < add.len() - 1 && add.drop_first()[k] == x;
            assert(add[k + 1] == x);
            assert(add.contains(x));
            assert(!base.contains(x));
            if grown.contains(x) {
                let w = choose|w: int| 0 <= w < grown.len() && grown[w] == x;
                if w < base.len() {
                    assert(base[w] == x);
                    assert(base.contains(x));
                } else {
                    assert(x == add.first());
                    assert(add[k + 1] == add[0]);
                }
            }
        }
        lemma_set_extend_fresh(grown, add.drop_first());
        assert(grown + add.drop_first() =~= base + add);
    }
}

/// The per-file error classes of the indexing run.
#[derive(Debug, Clone, Copy, PartialEq, Eq, Structural)]
pub enum FileErrorKind {
    /// The file could not be read.
    Io,
    /// Parsing failed, or the parsed tree reports a syntax error.
    Syntax,
    /// Anything else, notably a missing pre-assigned path index.
    Other,
}

/// What the outside work on one file produced, handed in as plain values.
#[derive(Debug)]
pub enum FileEvent {
    /// The file could not be read.
    ReadFailed,
    /// The parser returned no tree.
    ParseFailed,
    /// The parser returned a tree, reduced to the nodes extraction reads,
    /// with the tree's whole-file error flag.
    Parsed(ParsedFile),
}

/// A parsed file: its top-level nodes and the parser's error flag.
#[derive(Debug)]
pub struct ParsedFile {
    pub nodes: Vec<ParseNode>,
    pub has_error: bool,
}

/// Classifies one file's outcome and, on success, extracts its symbols
/// under its pre-assigned path index.  A missing index is a broken
/// pre-assignment invariant and is reported, never defaulted to index 0.
pub fn process_parsed_file(
    path_index: Option<usize>,
    event: FileEvent,
    file_path: &String,
    base_dir: &String,
) -> (r: Result<(Vec<Symbol>, Vec<Symbol>), FileErrorKind>)
    ensures
        ({
            match event {
                FileEvent::ReadFailed => r == Err::<(Vec<Symbol>, Vec<Symbol>), FileErrorKind>(
                    FileErrorKind::Io,
                ),
                FileEvent::ParseFailed => r == Err::<(Vec<Symbol>, Vec<Symbol>), FileErrorKind>(
                    FileErrorKind::Syntax,
                ),
                FileEvent::Parsed(pf) => {
                    if pf.has_error {
                        r == Err::<(Vec<Symbol>, Vec<Symbol>), FileErrorKind>(
                            FileErrorKind::Syntax,
                        )
                    } else {
                        match path_index {
                            None => r == Err::<(Vec<Symbol>, Vec<Symbol>), FileErrorKind>(
                                FileErrorKind::Other,
                            ),
                            Some(idx) => r matches Ok(pair) && ({
                                let emitted = spec_collect(
                                    pf.nodes@,
                                    0,
                                    idx as nat,
                                    spec_module_name(file_path@),
                                    spec_fq_module(file_path@, base_dir@),
                                    Seq::<crate::symbols::ParentContextView>::empty(),
                                );
                                symbol_views(pair.0@) == emitted.0 && symbol_views(pair.1@)
                                    == emitted.1
                            }),
                        }
                    }
                },
            }
        }),
{
    match event {
        FileEvent::ReadFailed => Err(FileErrorKind::Io),
        FileEvent::ParseFailed => Err(FileErrorKind::Syntax),
        FileEvent::Parsed(pf) => {
            if pf.has_error {
                Err(FileErrorKind::Syntax)
            } else {
                match path_index {
                    None => Err(FileErrorKind::Other),
                    Some(idx) => {
                        let module = get_module_name(file_path.as_str());
                        let fq = get_fully_qualified_module(file_path.as_str(), base_dir.as_str());
                        let no_parents: Vec<crate::symbols::ParentContext> = Vec::new();
                        let pair = extract_symbols(&pf.nodes, idx, &module, &fq, &no_parents);
                        proof {
                            assert(parent_views(no_parents@) =~= Seq::<
                                crate::symbols::ParentContextView,
                            >::empty());
                        }
                        Ok(pair)
                    },
                }
            }
        },
    }
}

/// One worker's chunk-local accumulation: symbols found and errors
/// counted, merged into the shared aggregate once per chunk.
#[derive(Debug)]
pub struct ChunkResult {
    pub functions: Vec<Symbol>,
    pub classes: Vec<Symbol>,
    pub syntax_errors: usize,
    pub io_errors: usize,
    pub other_errors: usize,
}

impl ChunkResult {
    /// An empty accumulator.
    pub fn new() -> (r: Self)
        ensures
            r.functions@ == Seq::<Symbol>::empty(),
            r.classes@ == Seq::<Symbol>::empty(),
            r.syntax_errors == 0 && r.io_errors == 0 && r.other_errors == 0,
    {
        ChunkResult {
            functions: Vec::new(),
            classes: Vec::new(),
            syntax_errors: 0,
            io_errors: 0,
            other_errors: 0,
        }
    }

    /// Folds one file's outcome in: symbols are appended, an error bumps
    /// exactly its own counter (saturating).
    pub fn record(&mut self, outcome: Result<(Vec<Symbol>, Vec<Symbol>), FileErrorKind>)
        ensures
            ({
                match outcome {
                    Ok(pair) => {
                        &&& final(self).functions@ == old(self).functions@ + pair.0@
                        &&& final(self).classes@ == old(self).classes@ + pair.1@
                        &&& final(self).syntax_errors == old(self).syntax_errors
                        &&& final(self).io_errors == old(self).io_errors
                        &&& final(self).other_errors == old(self).other_errors
                    },
                    Err(k) => {
                        &&& final(self).functions@ == old(self).functions@
                        &&& final(self).classes@ == old(self).classes@
                        &&& final(self).syntax_errors as nat == crate::registry::sat_add_usize(
                            old(self).syntax_errors as nat,
                            if k == FileErrorKind::Syntax {
                                1nat
                            } else {
                                0nat
                            },
                        )
                        &&& final(self).io_errors as nat == crate::registry::sat_add_usize(
                            old(self).io_errors as nat,
                            if k == FileErrorKind::Io {
                                1nat
                            } else {
                                0nat
                            },
                        )
                        &&& final(self).other_errors as nat == crate::registry::sat_add_usize(
                            old(self).other_errors as nat,
                            if k == FileErrorKind::Other {
                                1nat
                            } else {
                                0nat
                            },
                        )
                    },
                }
            }),
    {
        match outcome {
            Ok(pair) => {
                let (mut f, mut c) = pair;
                self.functions.append(&mut f);
                self.classes.append(&mut c);
            },
            Err(FileErrorKind::Io) => {
                self.io_errors = self.io_errors.saturating_add(1);
            },
            Err(FileErrorKind::Syntax) => {
                self.syntax_errors = self.syntax_errors.saturating_add(1);
            },
            Err(FileErrorKind::Other) => {
                self.other_errors = self.other_errors.saturating_add(1);
            },
        }
    }
}

impl SymbolStats {
    /// Merges one chunk's results into the shared aggregate: a single
    /// deduplicating union per symbol set and saturating counter adds.
    /// The registry is untouched, as every index was pre-assigned.
    pub fn merge_chunk(&mut self, chunk: ChunkResult)
        requires
            old(self).wf(),
        ensures
            final(self).wf(),
            final(self).functions@ == set_extend(
                old(self).functions@,
                symbol_views(chunk.functions@),
            ),
            final(self).classes@ == set_extend(old(self).classes@, symbol_views(chunk.classes@)),
            final(self).syntax_errors as nat == crate::registry::sat_add_usize(
                old(self).syntax_errors as nat,
                chunk.syntax_errors as nat,
            ),
            final(self).io_errors as nat == crate::registry::sat_add_usize(
                old(self).io_errors as nat,
                chunk.io_errors as nat,
            ),
            final(self).other_errors as nat == crate::registry::sat_add_usize(
                old(self).other_errors as nat,
                chunk.other_errors as nat,
            ),
            final(self).path_registry == old(self).path_registry,
    {
        self.functions.insert_all(chunk.functions);
        self.classes.insert_all(chunk.classes);
        self.syntax_errors = self.syntax_errors.saturating_add(chunk.syntax_errors);
        self.io_errors = self.io_errors.saturating_add(chunk.io_errors);
        self.other_errors = self.other_errors.saturating_add(chunk.other_errors);
    }
}

/// The chunk size the pipeline partitions with: an even share per worker,
/// but at least ten files per chunk.
pub fn chunk_size(file_count: usize, worker_count: usize) -> (r: usize)
    requires
        worker_count > 0,
    ensures
        r == if file_count / worker_count > 10 {
            file_count / worker_count
        } else {
            10usize
        },
{
    let share = file_count / worker_count;
    if share > 10 {
        share
    } else {
        10
    }
}

/// Wraps a frozen aggregate in the persistence envelope: the two symbol
/// lists and the registry's paths in index order.
pub fn to_symbol_data(stats: &SymbolStats) -> (d: SymbolData)
    ensures
        d matches SymbolData::V1(v) && v.version == 1 && symbol_views(v.functions@)
            == stats.functions@ && symbol_views(v.classes@) == stats.classes@ && path_views(
            v.paths@,
        ) == stats.path_registry@,
{
    SymbolData::new(
        stats.functions.export_symbols(),
        stats.classes.export_symbols(),
        stats.path_registry.export_paths(),
    )
}

/// Pairwise distinctness of a path list.
pub open spec fn paths_distinct(s: Seq<Seq<char>>) -> bool {
    forall|i: int, j: int| 0 <= i < j < s.len() ==> s[i] != s[j]
}

/// A persisted envelope that cannot be loaded.
#[derive(Debug, Clone, Copy, PartialEq, Eq, Structural)]
pub enum LoadError {
    /// The stored path list repeats a path, so the original indices
    /// cannot be reproduced.
    DuplicatePath,
}

/// Rebuilds an aggregate from a loaded envelope.  The stored paths are
/// re-registered in their stored order and each index is checked against
/// its stored position, so the reproduced indices match the original ones
/// exactly; a duplicate path is rejected rather than silently renumbered.
pub fn load_symbol_data(data: SymbolData) -> (r: Result<SymbolStats, LoadError>)
    ensures
        ({
            let d = (match data {
                SymbolData::V1(d) => d,
            });
            if paths_distinct(path_views(d.paths@)) {
                r matches Ok(stats) && stats.wf() && stats.path_registry@ == path_views(d.paths@)
                    && stats.functions@ == set_extend(
                    Seq::<SymbolView>::empty(),
                    symbol_views(d.functions@),
                ) && stats.classes@ == set_extend(
                    Seq::<SymbolView>::empty(),
                    symbol_views(d.classes@),
                ) && stats.syntax_errors == 0 && stats.io_errors == 0 && stats.other_errors == 0
            } else {
                r == Err::<SymbolStats, LoadError>(LoadError::DuplicatePath)
            }
        }),
{
    let ghost envelope = data;
    let (functions, classes, paths) = data.into_symbols();
    let mut stats = SymbolStats::new();
    let total = paths.len();
    for i in 0..total
        invariant
            total == paths@.len(),
            envelope == data,
            (match envelope {
                SymbolData::V1(d) => paths == d.paths && functions == d.functions && classes
                    == d.classes,
            }),
            stats.wf(),
            stats.path_registry@ == path_views(paths@).subrange(0, i as int),
            stats.functions@ == Seq::<SymbolView>::empty(),
            stats.classes@ == Seq::<SymbolView>::empty(),
            stats.syntax_errors == 0 && stats.io_errors == 0 && stats.other_errors == 0,
            forall|a: int, b: int| 0 <= a < b < i ==> paths@[a]@ != paths@[b]@,
    {
        let ghost pv = path_views(paths@);
        let ghost pre = pv.subrange(0, i as int);
        let idx = stats.path_registry.register_path(paths[i].clone());
        if idx != i {
            proof {
                assert(pre.len() == i);
                if !pre.contains(pv[i as int]) {
                    assert(idx == i);
                }
                assert(pre.contains(pv[i as int]));
                let k = choose|k: int| 0 <= k < pre.len() && pre[k] == pv[i as int];
                assert(pv[k] == pv[i as int]);
                assert(!paths_distinct(pv));
                let d = (match envelope {
                    SymbolData::V1(d) => d,
                });
                assert(paths@ == d.paths@);
                assert(path_views(d.paths@) == pv);
            }
            return Err(LoadError::DuplicatePath);
        }
        proof {
            if pre.contains(pv[i as int]) {
                let k = choose|k: int| 0 <= k < pre.len() && pre[k] == pv[i as int];
                assert(stats.path_registry@ == pre);
                assert(stats.path_registry@[idx as int] == pv[i as int]);
            }
            assert(!pre.contains(pv[i as int]));
            assert(stats.path_registry@ =~= pv.subrange(0, i + 1));
            assert forall|a: int, b: int|
                0 <= a < b < i + 1 implies paths@[a]@ != paths@[b]@ by {
                if b == i as int {
                    assert(pre[a] == paths@[a]@);
                    if paths@[a]@ == paths@[i as int]@ {
                        assert(pre.contains(pv[i as int]));
                    }
                }
            }
        }
    }
    proof {
        assert(path_views(paths@).subrange(0, paths@.len() as int) =~= path_views(paths@));
        assert(paths_distinct(path_views(paths@)));
    }
    stats.functions.insert_all(functions);
    stats.classes.insert_all(classes);
    Ok(stats)
}

/// Round trip: persisting a well-formed aggregate and loading the
/// envelope back reproduces a registry that matches the original bit for
/// bit — every symbol's path index resolves to the same path — and the
/// same two symbol sets.  The hypotheses are exactly what
/// `to_symbol_data` ensures of the envelope and what `load_symbol_data`
/// ensures of the rebuilt aggregate (its path list is distinct because
/// the original registry is well formed, so loading succeeds).
pub proof fn lemma_round_trip(stats: SymbolStats, d: crate::symbols::SymbolDataV1, rebuilt: SymbolStats)
    requires
        stats.wf(),
        symbol_views(d.functions@) == stats.functions@,
        symbol_views(d.classes@) == stats.classes@,
        path_views(d.paths@) == stats.path_registry@,
        rebuilt.path_registry@ == path_views(d.paths@),
        rebuilt.functions@ == set_extend(Seq::<SymbolView>::empty(), symbol_views(d.functions@)),
        rebuilt.classes@ == set_extend(Seq::<SymbolView>::empty(), symbol_views(d.classes@)),
    ensures
        rebuilt.path_registry@ == stats.path_registry@,
        rebuilt.functions@ == stats.functions@,
        rebuilt.classes@ == stats.classes@,
        forall|i: int|
            0 <= i < rebuilt.path_registry@.len() ==> rebuilt.path_registry@[i]
                == stats.path_registry@[i],
{
    lemma_set_extend_fresh(Seq::<SymbolView>::empty(), stats.functions@);
    lemma_set_extend_fresh(Seq::<SymbolView>::empty(), stats.classes@);
    assert(Seq::<SymbolView>::empty() + stats.functions@ =~= stats.functions@);
    assert(Seq::<SymbolView>::empty() + stats.classes@ =~= stats.classes@);
}

} // verus!
