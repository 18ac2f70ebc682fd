//! The symbol model: value types for extracted symbols with their lexical
//! context, deduplicating symbol sets, the shared aggregate of an indexing
//! run, the versioned persistence envelope, and module-name derivation.

use crate::registry::PathRegistry;
use crate::text::{last_index_of_char, spec_dotted, spec_last_index_of, dotted_of};
use vstd::prelude::*;
use vstd::string::{StrSliceExecFns, StringExecFns};

verus! {

/// How a definition sits in its lexical scope chain.
#[derive(Debug, Clone, Copy, Hash, Eq, PartialEq, Structural)]
pub enum SymbolType {
    Function,
    Class,
    Method,
    NestedFunction,
    NestedClass,
}

/// One link in the scope chain enclosing a symbol, outermost first.
#[derive(Debug, Clone, Hash, Eq, PartialEq)]
pub struct ParentContext {
    pub name: String,
    pub symbol_type: SymbolType,
    pub line_number: usize,
}

/// Mathematical value of a `ParentContext`.
#[verifier::ext_equal]
pub ghost struct ParentContextView {
    pub name: Seq<char>,
    pub symbol_type: SymbolType,
    pub line_number: nat,
}

impl View for ParentContext {
    type V = ParentContextView;

    open spec fn view(&self) -> ParentContextView {
        ParentContextView {
            name: self.name@,
            symbol_type: self.symbol_type,
            line_number: self.line_number as nat,
        }
    }
}

/// The views of a parent chain, outermost first.
pub open spec fn parent_views(s: Seq<ParentContext>) -> Seq<ParentContextView> {
    s.map_values(|p: ParentContext| p@)
}

/// Where and how a symbol was found.
#[derive(Debug, Clone, Hash, Eq, PartialEq)]
pub struct SymbolContext {
    pub file_path_index: usize,
    pub line_number: usize,
    pub module: String,
    pub fully_qualified_module: String,
    pub symbol_type: SymbolType,
    pub parent_context: Vec<ParentContext>,
}

/// Mathematical value of a `SymbolContext`.
#[verifier::ext_equal]
pub ghost struct SymbolContextView {
    pub file_path_index: nat,
    pub line_number: nat,
    pub module: Seq<char>,
    pub fully_qualified_module: Seq<char>,
    pub symbol_type: SymbolType,
    pub parent_context: Seq<ParentContextView>,
}

impl View for SymbolContext {
    type V = SymbolContextView;

    open spec fn view(&self) -> SymbolContextView {
        SymbolContextView {
            file_path_index: self.file_path_index as nat,
            line_number: self.line_number as nat,
            module: self.module@,
            fully_qualified_module: self.fully_qualified_module@,
            symbol_type: self.symbol_type,
            parent_context: parent_views(self.parent_context@),
        }
    }
}

/// A named definition site with its full lexical context.  Identity is
/// structural over every field; the coarser search-time identity is
/// `coarse_key`.
#[derive(Debug, Clone, Hash, Eq, PartialEq)]
pub struct Symbol {
    pub name: String,
    pub context: SymbolContext,
}

/// Mathematical value of a `Symbol`.
#[verifier::ext_equal]
pub ghost struct SymbolView {
    pub name: Seq<char>,
    pub context: SymbolContextView,
}

impl View for Symbol {
    type V = SymbolView;

    open spec fn view(&self) -> SymbolView {
        SymbolView { name: self.name@, context: self.context@ }
    }
}

/// The views of a list of symbols.
pub open spec fn symbol_views(s: Seq<Symbol>) -> Seq<SymbolView> {
    s.map_values(|x: Symbol| x@)
}

/// The identity used only for search-time duplicate suppression.
#[verifier::ext_equal]
pub ghost struct CoarseKey {
    pub name: Seq<char>,
    pub line_number: nat,
    pub file_path_index: nat,
}

/// The coarse (name, line, file index) identity of a symbol.
pub open spec fn coarse_key(s: SymbolView) -> CoarseKey {
    CoarseKey {
        name: s.name,
        line_number: s.context.line_number,
        file_path_index: s.context.file_path_index,
    }
}

impl ParentContext {
    /// A copy with the same view.
    pub fn duplicate(&self) -> (r: ParentContext)
        ensures
            r@ == self@,
    {
        ParentContext {
            name: self.name.clone(),
            symbol_type: self.symbol_type,
            line_number: self.line_number,
        }
    }

    /// Structural equality of two parent links.
    pub fn same_as(&self, other: &ParentContext) -> (r: bool)
        ensures
            r == (self@ == other@),
    {
        self.name == other.name && self.symbol_type == other.symbol_type && self.line_number
            == other.line_number
    }
}

/// A copy of a parent chain with the same views.
pub fn duplicate_parents(v: &Vec<ParentContext>) -> (r: Vec<ParentContext>)
    ensures
        parent_views(r@) == parent_views(v@),
{
    let mut r: Vec<ParentContext> = Vec::new();
    let n = v.len();
    for i in 0..n
        invariant
            n == v@.len(),
            r@.len() == i,
            forall|k: int| 0 <= k < i ==> r@[k]@ == v@[k]@,
    {
        r.push(v[i].duplicate());
    }
    proof {
        assert(parent_views(r@) =~= parent_views(v@));
    }
    r
}

/// Structural equality of two parent chains.
pub fn parents_same(a: &Vec<ParentContext>, b: &Vec<ParentContext>) -> (r: bool)
    ensures
        r == (parent_views(a@) == parent_views(b@)),
{
    if a.len() != b.len() {
        proof {
            assert(parent_views(a@).len() != parent_views(b@).len());
        }
        return false;
    }
    let n = a.len();
    for i in 0..n
        invariant
            n == a@.len() && n == b@.len(),
            forall|k: int| 0 <= k < i ==> a@[k]@ == b@[k]@,
    {
        if !a[i].same_as(&b[i]) {
            proof {
                assert(parent_views(a@)[i as int] != parent_views(b@)[i as int]);
            }
            return false;
        }
    }
    proof {
        assert(parent_views(a@) =~= parent_views(b@));
    }
    true
}

impl SymbolContext {
    /// A copy with the same view.
    pub fn duplicate(&self) -> (r: SymbolContext)
        ensures
            r@ == self@,
    {
        let r = SymbolContext {
            file_path_index: self.file_path_index,
            line_number: self.line_number,
            module: self.module.clone(),
            fully_qualified_module: self.fully_qualified_module.clone(),
            symbol_type: self.symbol_type,
            parent_context: duplicate_parents(&self.parent_context),
        };
        proof {
            assert(r@ =~= self@);
        }
        r
    }

    /// Structural equality of two symbol contexts.
    pub fn same_as(&self, other: &SymbolContext) -> (r: bool)
        ensures
            r == (self@ == other@),
    {
        let r = self.file_path_index == other.file_path_index && self.line_number
            == other.line_number && self.module == other.module && self.fully_qualified_module
            == other.fully_qualified_module && self.symbol_type == other.symbol_type
            && parents_same(&self.parent_context, &other.parent_context);
        proof {
            if r {
                assert(self@ =~= other@);
            }
        }
        r
    }
}

impl Symbol {
    /// A copy with the same view.
    pub fn duplicate(&self) -> (r: Symbol)
        ensures
            r@ == self@,
    {
        let r = Symbol { name: self.name.clone(), context: self.context.duplicate() };
        proof {
            assert(r@ =~= self@);
        }
        r
    }

    /// Structural equality over every field: the identity under which
    /// symbols are deduplicated in symbol sets.
    pub fn same_as(&self, other: &Symbol) -> (r: bool)
        ensures
            r == (self@ == other@),
    {
        let r = self.name == other.name && self.context.same_as(&other.context);
        proof {
            if r {
                assert(self@ =~= other@);
            }
        }
        r
    }
}

/// Appends to `base` each element of `add` in order, skipping those already
/// present: the first-seen element under each value is kept.
pub open spec fn set_extend(base: Seq<SymbolView>, add: Seq<SymbolView>) -> Seq<SymbolView>
    decreases add.len(),
{
    if add.len() == 0 {
        base
    } else {
        let grown = if base.contains(add.first()) {
            base
        } else {
            base.push(add.first())
        };
        set_extend(grown, add.drop_first())
    }
}

/// A deduplicating set of symbols.  Iteration order is insertion order, so
/// a filled set is a deterministic function of its insertion sequence.
#[derive(Debug)]
pub struct SymbolSet {
    items: Vec<Symbol>,
}

impl View for SymbolSet {
    type V = Seq<SymbolView>;

    closed spec fn view(&self) -> Seq<SymbolView> {
        symbol_views(self.items@)
    }
}

impl SymbolSet {
    /// No symbol occurs twice.
    pub open spec fn wf(self) -> bool {
        forall|i: int, j: int| 0 <= i < j < self@.len() ==> self@[i] != self@[j]
    }

    /// The members, as a mathematical set.
    pub open spec fn as_set(self) -> Set<SymbolView> {
        self@.to_set()
    }

    /// An empty set.
    pub fn new() -> (r: Self)
        ensures
            r@ == Seq::<SymbolView>::empty(),
            r.wf(),
    {
        let r = Self { items: Vec::new() };
        proof {
            assert(r@ =~= Seq::<SymbolView>::empty());
        }
        r
    }

    /// Number of distinct symbols held.
    pub fn len(&self) -> (n: usize)
        ensures
            n == self@.len(),
    {
        self.items.len()
    }

    /// The symbol at iteration position `i`.
    pub fn get(&self, i: usize) -> (r: &Symbol)
        requires
            i < self@.len(),
        ensures
            r@ == self@[i as int],
    {
        &self.items[i]
    }

    /// Whether a structurally equal symbol is already held.
    pub fn contains_symbol(&self, s: &Symbol) -> (r: bool)
        ensures
            r == self@.contains(s@),
    {
        let n = self.items.len();
        for i in 0..n
            invariant
                n == self.items@.len(),
                forall|k: int| 0 <= k < i ==> self.items@[k]@ != s@,
        {
            if self.items[i].same_as(s) {
                assert(self@[i as int] == s@);
                return true;
            }
        }
        proof {
            assert(forall|k: int| 0 <= k < self@.len() ==> self@[k] != s@);
        }
        false
    }

    /// Inserts a symbol; a structural duplicate leaves the set unchanged.
    pub fn insert(&mut self, s: Symbol)
        requires
            old(self).wf(),
        ensures
            final(self).wf(),
            final(self)@ == if old(self)@.contains(s@) {
                old(self)@
            } else {
                old(self)@.push(s@)
            },
    {
        if !self.contains_symbol(&s) {
            self.items.push(s);
            proof {
                assert(self@ =~= old(self)@.push(s@));
            }
        }
    }

    /// Inserts every symbol of `items` in order, deduplicating.
    pub fn insert_all(&mut self, items: Vec<Symbol>)
        requires
            old(self).wf(),
        ensures
            final(self).wf(),
            final(self)@ == set_extend(old(self)@, symbol_views(items@)),
    {
        let n = items.len();
        let mut items = items;
        let mut i: usize = 0;
        proof {
            assert(symbol_views(items@).skip(0) =~= symbol_views(items@));
        }
        while i < n
            invariant
                n == items@.len(),
                i <= n,
                self.wf(),
                set_extend(self@, symbol_views(items@).skip(i as int)) == set_extend(
                    old(self)@,
                    symbol_views(items@),
                ),
            decreases n - i,
        {
            let ghost pre = self@;
            let ghost rest = symbol_views(items@).skip(i as int);
            let s = items[i].duplicate();
            self.insert(s);
            proof {
                assert(rest.first() == items@[i as int]@);
                assert(rest.drop_first() =~= symbol_views(items@).skip(i + 1));
                assert(set_extend(pre, rest) == set_extend(self@, rest.drop_first()));
            }
            i = i + 1;
        }
        proof {
            assert(symbol_views(items@).skip(n as int) =~= Seq::<SymbolView>::empty());
        }
    }

    /// A copy of the members in iteration order, for persistence.
    pub fn export_symbols(&self) -> (r: Vec<Symbol>)
        ensures
            symbol_views(r@) == self@,
    {
        let mut r: Vec<Symbol> = Vec::new();
        let n = self.items.len();
        for i in 0..n
            invariant
                n == self.items@.len(),
                r@.len() == i,
                forall|k: int| 0 <= k < i ==> r@[k]@ == self.items@[k]@,
        {
            r.push(self.items[i].duplicate());
        }
        proof {
            assert(symbol_views(r@) =~= self@);
        }
        r
    }
}

/// The complete in-memory index of one scan: the two disjoint symbol sets,
/// the per-category error counters, and the shared path registry.  Filled
/// during indexing, frozen afterwards.
#[derive(Debug)]
pub struct SymbolStats {
    pub functions: SymbolSet,
    pub classes: SymbolSet,
    pub syntax_errors: usize,
    pub io_errors: usize,
    pub other_errors: usize,
    pub path_registry: PathRegistry,
}

impl SymbolStats {
    /// Both symbol sets and the registry are well formed.
    pub open spec fn wf(self) -> bool {
        self.functions.wf() && self.classes.wf() && self.path_registry.wf()
    }

    /// A fresh, empty aggregate.
    pub fn new() -> (r: Self)
        ensures
            r.wf(),
            r.functions@ == Seq::<SymbolView>::empty(),
            r.classes@ == Seq::<SymbolView>::empty(),
            r.syntax_errors == 0 && r.io_errors == 0 && r.other_errors == 0,
            r.path_registry@ == Seq::<Seq<char>>::empty(),
    {
        SymbolStats {
            functions: SymbolSet::new(),
            classes: SymbolSet::new(),
            syntax_errors: 0,
            io_errors: 0,
            other_errors: 0,
            path_registry: PathRegistry::new(),
        }
    }

    /// The five counters: functions, classes, syntax, io, other errors.
    pub fn get_counts(&self) -> (r: (usize, usize, usize, usize, usize))
        ensures
            r.0 == self.functions@.len(),
            r.1 == self.classes@.len(),
            r.2 == self.syntax_errors,
            r.3 == self.io_errors,
            r.4 == self.other_errors,
    {
        (
            self.functions.len(),
            self.classes.len(),
            self.syntax_errors,
            self.io_errors,
            self.other_errors,
        )
    }
}

/// The first persisted layout: symbol lists plus the registry's path list
/// in index order.
#[derive(Debug)]
pub struct SymbolDataV1 {
    pub version: u32,
    pub functions: Vec<Symbol>,
    pub classes: Vec<Symbol>,
    pub paths: Vec<String>,
}

/// The versioned persistence envelope.
#[derive(Debug)]
pub enum SymbolData {
    V1(SymbolDataV1),
}

impl SymbolData {
    /// Wraps symbol lists and paths in the current envelope version.
    pub fn new(functions: Vec<Symbol>, classes: Vec<Symbol>, paths: Vec<String>) -> (r: Self)
        ensures
            r matches SymbolData::V1(d) && d.version == 1 && d.functions == functions && d.classes
                == classes && d.paths == paths,
    {
        SymbolData::V1(SymbolDataV1 { version: 1, functions, classes, paths })
    }

    /// Unwraps the envelope into (functions, classes, paths).
    pub fn into_symbols(self) -> (r: (Vec<Symbol>, Vec<Symbol>, Vec<String>))
        ensures
            self matches SymbolData::V1(d) && r.0 == d.functions && r.1 == d.classes && r.2
                == d.paths,
    {
        match self {
            SymbolData::V1(data) => (data.functions, data.classes, data.paths),
        }
    }
}

/// The final path component of `p` (everything after the last `'/'`).
pub open spec fn spec_file_name(p: Seq<char>) -> Seq<char> {
    p.subrange(spec_last_index_of(p, '/') + 1, p.len() as int)
}

/// The file name without its last extension; a leading dot alone does not
/// start an extension.
pub open spec fn spec_stem(f: Seq<char>) -> Seq<char> {
    let d = spec_last_index_of(f, '.');
    if d <= 0 {
        f
    } else {
        f.subrange(0, d)
    }
}

/// The module name of a path: the stem of its final component, or
/// `"unknown"` when the path has no final component.
pub open spec fn spec_module_name(p: Seq<char>) -> Seq<char> {
    if spec_file_name(p).len() == 0 {
        "unknown"@
    } else {
        spec_stem(spec_file_name(p))
    }
}

/// The module name of a file path (its stem).
pub fn get_module_name(path: &str) -> (r: String)
    ensures
        r@ == spec_module_name(path@),
{
    proof {
        crate::text::lemma_last_index_of(path@, '/');
    }
    let n = path.unicode_len();
    let fname_start: usize = match last_index_of_char(path, '/') {
        Some(i) => i + 1,
        None => 0,
    };
    if fname_start == n {
        assert(spec_file_name(path@).len() == 0);
        return "unknown".to_owned();
    }
    let fname = path.substring_char(fname_start, n);
    assert(fname@ == spec_file_name(path@));
    proof {
        crate::text::lemma_last_index_of(fname@, '.');
    }
    match last_index_of_char(fname, '.') {
        Some(d) => {
            if d > 0 {
                fname.substring_char(0, d).to_owned()
            } else {
                fname.to_owned()
            }
        },
        None => fname.to_owned(),
    }
}

/// The dotted module path of `p` relative to `base`: the directories
/// between `base` and the file, `'/'` replaced by `'.'`; `"unknown"` when
/// `p` does not lie under `base`.  `base` is given without a trailing
/// separator.
pub open spec fn spec_fq_module(p: Seq<char>, base: Seq<char>) -> Seq<char> {
    if p.len() > base.len() && p.subrange(0, base.len() as int) == base && p[base.len() as int]
        == '/' {
        let rest = p.subrange(base.len() as int + 1, p.len() as int);
        let d = spec_last_index_of(rest, '/');
        spec_dotted(
            rest.subrange(
                0,
                if d < 0 {
                    0
                } else {
                    d
                },
            ),
        )
    } else {
        "unknown"@
    }
}

/// The dotted module path of `path` relative to `base_dir`.
pub fn get_fully_qualified_module(path: &str, base_dir: &str) -> (r: String)
    ensures
        r@ == spec_fq_module(path@, base_dir@),
{
    let plen = path.unicode_len();
    let blen = base_dir.unicode_len();
    if plen <= blen {
        return "unknown".to_owned();
    }
    for i in 0..blen
        invariant
            plen == path@.len() && blen == base_dir@.len() && plen > blen,
            forall|k: int| 0 <= k < i ==> path@[k] == base_dir@[k],
    {
        if path.get_char(i) != base_dir.get_char(i) {
            proof {
                assert(path@.subrange(0, blen as int)[i as int] != base_dir@[i as int]);
            }
            return "unknown".to_owned();
        }
    }
    if path.get_char(blen) != '/' {
        return "unknown".to_owned();
    }
    proof {
        assert(path@.subrange(0, blen as int) =~= base_dir@);
    }
    let rest = path.substring_char(blen + 1, plen);
    proof {
        crate::text::lemma_last_index_of(rest@, '/');
    }
    let cut: usize = match last_index_of_char(rest, '/') {
        Some(d) => d,
        None => 0,
    };
    let parent = rest.substring_char(0, cut);
    let r = dotted_of(parent);
    r
}

} // verus!
