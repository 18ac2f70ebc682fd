//! The extraction engine: a depth-first walk of one parsed file that
//! produces its function-like and class-like symbols with their lexical
//! scope chains.  A decorated definition contributes exactly what its
//! wrapped definition would contribute undecorated.

use crate::registry::{spec_first_index_of, PathRegistry};
use crate::symbols::{
    duplicate_parents, get_fully_qualified_module, get_module_name, parent_views, spec_fq_module,
    spec_module_name, symbol_views, ParentContext, ParentContextView, Symbol, SymbolContext,
    SymbolContextView, SymbolType, SymbolView,
};
use crate::tree::{is_definition, lemma_first_def, spec_first_def, NodeKind, ParseNode};
use vstd::prelude::*;

verus! {

broadcast use vstd::seq::group_seq_axioms, vstd::std_specs::vec::group_vec_axioms;

/// The type of a function defined under the given scope chain: `Method`
/// directly inside a class body, `NestedFunction` inside any other scope,
/// `Function` at module top level.
pub open spec fn spec_classify_function(parents: Seq<ParentContextView>) -> SymbolType {
    if parents.len() == 0 {
        SymbolType::Function
    } else if parents.last().symbol_type == SymbolType::Class || parents.last().symbol_type
        == SymbolType::NestedClass {
        SymbolType::Method
    } else {
        SymbolType::NestedFunction
    }
}

/// The type of a class defined under the given scope chain: `NestedClass`
/// inside any scope, `Class` at module top level.
pub open spec fn spec_classify_class(parents: Seq<ParentContextView>) -> SymbolType {
    if parents.len() == 0 {
        SymbolType::Class
    } else {
        SymbolType::NestedClass
    }
}

/// Classifies a function definition from its scope chain.
pub fn classify_function_type(parents: &Vec<ParentContext>) -> (r: SymbolType)
    ensures
        r == spec_classify_function(parent_views(parents@)),
{
    proof {
        if parents@.len() > 0 {
            assert(parent_views(parents@).last() == parents@[parents@.len() - 1]@);
        }
    }
    if parents.len() == 0 {
        SymbolType::Function
    } else {
        match parents[parents.len() - 1].symbol_type {
            SymbolType::Class => SymbolType::Method,
            SymbolType::NestedClass => SymbolType::Method,
            _ => SymbolType::NestedFunction,
        }
    }
}

/// Classifies a class definition from its scope chain.
pub fn classify_class_type(parents: &Vec<ParentContext>) -> (r: SymbolType)
    ensures
        r == spec_classify_class(parent_views(parents@)),
{
    if parents.len() == 0 {
        SymbolType::Class
    } else {
        SymbolType::NestedClass
    }
}

/// The symbol a definition contributes: its name, its classification, the
/// node's line, the shared file context and the current scope chain.
pub open spec fn spec_symbol(
    name: Seq<char>,
    symbol_type: SymbolType,
    line: nat,
    file_idx: nat,
    module: Seq<char>,
    fq: Seq<char>,
    parents: Seq<ParentContextView>,
) -> SymbolView {
    SymbolView {
        name: name,
        context: SymbolContextView {
            file_path_index: file_idx,
            line_number: line,
            module: module,
            fully_qualified_module: fq,
            symbol_type: symbol_type,
            parent_context: parents,
        },
    }
}

/// The scope link a definition adds for its body.
pub open spec fn spec_parent_link(
    name: Seq<char>,
    symbol_type: SymbolType,
    line: nat,
) -> ParentContextView {
    ParentContextView { name: name, symbol_type: symbol_type, line_number: line }
}

/// The (functions, classes) one node contributes, in emission order.
pub open spec fn spec_node(
    n: ParseNode,
    file_idx: nat,
    module: Seq<char>,
    fq: Seq<char>,
    parents: Seq<ParentContextView>,
) -> (Seq<SymbolView>, Seq<SymbolView>)
    decreases n, 0int,
    via spec_node_dec
{
    match n.kind {
        NodeKind::FunctionDef => match n.name {
            Some(nm) => {
                let st = spec_classify_function(parents);
                let line = n.line_number as nat;
                let nested = spec_collect(
                    n.children@,
                    0,
                    file_idx,
                    module,
                    fq,
                    parents.push(spec_parent_link(nm@, st, line)),
                );
                (
                    seq![spec_symbol(nm@, st, line, file_idx, module, fq, parents)] + nested.0,
                    nested.1,
                )
            },
            None => (Seq::<SymbolView>::empty(), Seq::<SymbolView>::empty()),
        },
        NodeKind::ClassDef => match n.name {
            Some(nm) => {
                let st = spec_classify_class(parents);
                let line = n.line_number as nat;
                let nested = spec_collect(
                    n.children@,
                    0,
                    file_idx,
                    module,
                    fq,
                    parents.push(spec_parent_link(nm@, st, line)),
                );
                (
                    nested.0,
                    seq![spec_symbol(nm@, st, line, file_idx, module, fq, parents)] + nested.1,
                )
            },
            None => (Seq::<SymbolView>::empty(), Seq::<SymbolView>::empty()),
        },
        NodeKind::DecoratedDef => {
            let j = spec_first_def(n.children@);
            if j < n.children@.len() {
                spec_node(n.children@[j], file_idx, module, fq, parents)
            } else {
                (Seq::<SymbolView>::empty(), Seq::<SymbolView>::empty())
            }
        },
        NodeKind::Other => (Seq::<SymbolView>::empty(), Seq::<SymbolView>::empty()),
    }
}

#[via_fn]
proof fn spec_node_dec(
    n: ParseNode,
    file_idx: nat,
    module: Seq<char>,
    fq: Seq<char>,
    parents: Seq<ParentContextView>,
) {
    if n.kind == NodeKind::DecoratedDef {
        lemma_first_def(n.children@);
        let j = spec_first_def(n.children@);
        if j < n.children@.len() {
            assert(decreases_to!(n => n.children));
            assert(decreases_to!(n.children => n.children@));
            assert(decreases_to!(n.children@ => n.children@[j]));
        }
    }
}

/// The (functions, classes) that `nodes[i..]` contribute, in order.
pub open spec fn spec_collect(
    nodes: Seq<ParseNode>,
    i: int,
    file_idx: nat,
    module: Seq<char>,
    fq: Seq<char>,
    parents: Seq<ParentContextView>,
) -> (Seq<SymbolView>, Seq<SymbolView>)
    decreases nodes, nodes.len() - i + 1,
{
    if i < 0 || i >= nodes.len() {
        (Seq::<SymbolView>::empty(), Seq::<SymbolView>::empty())
    } else {
        let head = spec_node(nodes[i], file_idx, module, fq, parents);
        let rest = spec_collect(nodes, i + 1, file_idx, module, fq, parents);
        (head.0 + rest.0, head.1 + rest.1)
    }
}

/// Walks one node, appending its contribution to the accumulators.
fn collect_node(
    n: &ParseNode,
    file_path_index: usize,
    module: &String,
    fq: &String,
    parents: &Vec<ParentContext>,
    functions: &mut Vec<Symbol>,
    classes: &mut Vec<Symbol>,
)
    ensures
        ({
            let emitted = spec_node(
                *n,
                file_path_index as nat,
                module@,
                fq@,
                parent_views(parents@),
            );
            symbol_views(final(functions)@) == symbol_views(old(functions)@) + emitted.0
                && symbol_views(final(classes)@) == symbol_views(old(classes)@) + emitted.1
        }),
    decreases *n,
{
    let ghost emitted = spec_node(*n, file_path_index as nat, module@, fq@, parent_views(parents@));
    match n.kind {
        NodeKind::FunctionDef => {
            if let Some(name_ref) = &n.name {
                let st = classify_function_type(parents);
                let context = SymbolContext {
                    file_path_index,
                    line_number: n.line_number,
                    module: module.clone(),
                    fully_qualified_module: fq.clone(),
                    symbol_type: st,
                    parent_context: duplicate_parents(parents),
                };
                let sym = Symbol { name: name_ref.clone(), context };
                let ghost sv = sym@;
                proof {
                    assert(sv =~= spec_symbol(
                        name_ref@,
                        st,
                        n.line_number as nat,
                        file_path_index as nat,
                        module@,
                        fq@,
                        parent_views(parents@),
                    ));
                }
                functions.push(sym);
                let ghost mid_f = symbol_views(functions@);
                proof {
                    assert(mid_f =~= symbol_views(old(functions)@).push(sv));
                }
                let mut new_parents = duplicate_parents(parents);
                new_parents.push(
                    ParentContext {
                        name: name_ref.clone(),
                        symbol_type: st,
                        line_number: n.line_number,
                    },
                );
                proof {
                    assert(parent_views(new_parents@) =~= parent_views(parents@).push(
                        spec_parent_link(name_ref@, st, n.line_number as nat),
                    ));
                }
                collect_into(&n.children, file_path_index, module, fq, &new_parents, functions, classes);
                proof {
                    let nested = spec_collect(
                        n.children@,
                        0,
                        file_path_index as nat,
                        module@,
                        fq@,
                        parent_views(parents@).push(
                            spec_parent_link(name_ref@, st, n.line_number as nat),
                        ),
                    );
                    assert(emitted.0 =~= seq![sv] + nested.0);
                    assert(symbol_views(functions@) =~= symbol_views(old(functions)@) + emitted.0);
                    assert(symbol_views(classes@) =~= symbol_views(old(classes)@) + emitted.1);
                }
            } else {
                proof {
                    assert(symbol_views(functions@) =~= symbol_views(old(functions)@) + emitted.0);
                    assert(symbol_views(classes@) =~= symbol_views(old(classes)@) + emitted.1);
                }
            }
        },
        NodeKind::ClassDef => {
            if let Some(name_ref) = &n.name {
                let st = classify_class_type(parents);
                let context = SymbolContext {
                    file_path_index,
                    line_number: n.line_number,
                    module: module.clone(),
                    fully_qualified_module: fq.clone(),
                    symbol_type: st,
                    parent_context: duplicate_parents(parents),
                };
                let sym = Symbol { name: name_ref.clone(), context };
                let ghost sv = sym@;
                proof {
                    assert(sv =~= spec_symbol(
                        name_ref@,
                        st,
                        n.line_number as nat,
                        file_path_index as nat,
                        module@,
                        fq@,
                        parent_views(parents@),
                    ));
                }
                classes.push(sym);
                proof {
                    assert(symbol_views(classes@) =~= symbol_views(old(classes)@).push(sv));
                }
                let mut new_parents = duplicate_parents(parents);
                new_parents.push(
                    ParentContext {
                        name: name_ref.clone(),
                        symbol_type: st,
                        line_number: n.line_number,
                    },
                );
                proof {
                    assert(parent_views(new_parents@) =~= parent_views(parents@).push(
                        spec_parent_link(name_ref@, st, n.line_number as nat),
                    ));
                }
                collect_into(&n.children, file_path_index, module, fq, &new_parents, functions, classes);
                proof {
                    let nested = spec_collect(
                        n.children@,
                        0,
                        file_path_index as nat,
                        module@,
                        fq@,
                        parent_views(parents@).push(
                            spec_parent_link(name_ref@, st, n.line_number as nat),
                        ),
                    );
                    assert(emitted.1 =~= seq![sv] + nested.1);
                    assert(symbol_views(functions@) =~= symbol_views(old(functions)@) + emitted.0);
                    assert(symbol_views(classes@) =~= symbol_views(old(classes)@) + emitted.1);
                }
            } else {
                proof {
                    assert(symbol_views(functions@) =~= symbol_views(old(functions)@) + emitted.0);
                    assert(symbol_views(classes@) =~= symbol_views(old(classes)@) + emitted.1);
                }
            }
        },
        NodeKind::DecoratedDef => {
            proof {
                lemma_first_def(n.children@);
            }
            let count = n.children.len();
            for j in 0..count
                invariant
                    count == n.children@.len(),
                    symbol_views(functions@) == symbol_views(old(functions)@),
                    symbol_views(classes@) == symbol_views(old(classes)@),
                    0 <= spec_first_def(n.children@) <= n.children@.len(),
                    spec_first_def(n.children@) < n.children@.len() ==> is_definition(
                        n.children@[spec_first_def(n.children@)],
                    ),
                    forall|k: int|
                        0 <= k < spec_first_def(n.children@) ==> !is_definition(n.children@[k]),
                    forall|k: int| 0 <= k < j ==> !is_definition(n.children@[k]),
                    emitted == spec_node(
                        *n,
                        file_path_index as nat,
                        module@,
                        fq@,
                        parent_views(parents@),
                    ),
                    n.kind == NodeKind::DecoratedDef,
            {
                let child_kind = n.children[j].kind;
                if matches!(child_kind, NodeKind::FunctionDef) || matches!(
                    child_kind,
                    NodeKind::ClassDef,
                ) {
                    proof {
                        let fd = spec_first_def(n.children@);
                        assert(is_definition(n.children@[j as int]));
                        if fd < j as int {
                            assert(is_definition(n.children@[fd]));
                            assert(!is_definition(n.children@[fd]));
                        }
                        if fd > j as int {
                            assert(!is_definition(n.children@[j as int]));
                        }
                        assert(fd == j as int);
                    }
                    collect_node(
                        &n.children[j],
                        file_path_index,
                        module,
                        fq,
                        parents,
                        functions,
                        classes,
                    );
                    return ;
                }
            }
            proof {
                assert(spec_first_def(n.children@) == n.children@.len());
                assert(symbol_views(functions@) =~= symbol_views(old(functions)@) + emitted.0);
                assert(symbol_views(classes@) =~= symbol_views(old(classes)@) + emitted.1);
            }
        },
        NodeKind::Other => {
            proof {
                assert(symbol_views(functions@) =~= symbol_views(old(functions)@) + emitted.0);
                assert(symbol_views(classes@) =~= symbol_views(old(classes)@) + emitted.1);
            }
        },
    }
}

/// Walks a node list, appending every contribution in order.
fn collect_into(
    nodes: &Vec<ParseNode>,
    file_path_index: usize,
    module: &String,
    fq: &String,
    parents: &Vec<ParentContext>,
    functions: &mut Vec<Symbol>,
    classes: &mut Vec<Symbol>,
)
    ensures
        ({
            let emitted = spec_collect(
                nodes@,
                0,
                file_path_index as nat,
                module@,
                fq@,
                parent_views(parents@),
            );
            symbol_views(final(functions)@) == symbol_views(old(functions)@) + emitted.0
                && symbol_views(final(classes)@) == symbol_views(old(classes)@) + emitted.1
        }),
    decreases nodes@,
{
    let ghost full = spec_collect(
        nodes@,
        0,
        file_path_index as nat,
        module@,
        fq@,
        parent_views(parents@),
    );
    let count = nodes.len();
    for i in 0..count
        invariant
            count == nodes@.len(),
            full == spec_collect(
                nodes@,
                0,
                file_path_index as nat,
                module@,
                fq@,
                parent_views(parents@),
            ),
            symbol_views(functions@) + spec_collect(
                nodes@,
                i as int,
                file_path_index as nat,
                module@,
                fq@,
                parent_views(parents@),
            ).0 == symbol_views(old(functions)@) + full.0,
            symbol_views(classes@) + spec_collect(
                nodes@,
                i as int,
                file_path_index as nat,
                module@,
                fq@,
                parent_views(parents@),
            ).1 == symbol_views(old(classes)@) + full.1,
    {
        let ghost pre_f = symbol_views(functions@);
        let ghost pre_c = symbol_views(classes@);
        collect_node(&nodes[i], file_path_index, module, fq, parents, functions, classes);
        proof {
            let head = spec_node(
                nodes@[i as int],
                file_path_index as nat,
                module@,
                fq@,
                parent_views(parents@),
            );
            let rest = spec_collect(
                nodes@,
                i + 1,
                file_path_index as nat,
                module@,
                fq@,
                parent_views(parents@),
            );
            let here = spec_collect(
                nodes@,
                i as int,
                file_path_index as nat,
                module@,
                fq@,
                parent_views(parents@),
            );
            assert(here.0 == head.0 + rest.0 && here.1 == head.1 + rest.1);
            assert((pre_f + head.0) + rest.0 =~= pre_f + here.0);
            assert((pre_c + head.1) + rest.1 =~= pre_c + here.1);
        }
    }
    proof {
        let done = spec_collect(
            nodes@,
            count as int,
            file_path_index as nat,
            module@,
            fq@,
            parent_views(parents@),
        );
        assert(done.0 =~= Seq::<SymbolView>::empty());
        assert(symbol_views(functions@) + done.0 =~= symbol_views(functions@));
        assert(symbol_views(classes@) + done.1 =~= symbol_views(classes@));
    }
}

/// Extracts every symbol of one parsed file.  `nodes` are the top-level
/// statements of the file; the file's path is registered (or looked up)
/// in the shared registry and the returned symbols carry its index.
pub fn collect_symbols(
    nodes: &Vec<ParseNode>,
    file_path: &String,
    base_dir: &String,
    current_parents: &Vec<ParentContext>,
    path_registry: &mut PathRegistry,
) -> (r: (Vec<Symbol>, Vec<Symbol>))
    requires
        old(path_registry).wf(),
    ensures
        final(path_registry).wf(),
        old(path_registry)@.contains(file_path@) ==> final(path_registry)@ == old(path_registry)@,
        !old(path_registry)@.contains(file_path@) ==> final(path_registry)@ == old(
            path_registry,
        )@.push(file_path@),
        ({
            let idx = spec_first_index_of(final(path_registry)@, file_path@);
            let emitted = spec_collect(
                nodes@,
                0,
                idx as nat,
                spec_module_name(file_path@),
                spec_fq_module(file_path@, base_dir@),
                parent_views(current_parents@),
            );
            idx >= 0 && symbol_views(r.0@) == emitted.0 && symbol_views(r.1@) == emitted.1
        }),
{
    let idx = path_registry.register_path(file_path.clone());
    let module = get_module_name(file_path.as_str());
    let fq = get_fully_qualified_module(file_path.as_str(), base_dir.as_str());
    let mut functions: Vec<Symbol> = Vec::new();
    let mut classes: Vec<Symbol> = Vec::new();
    collect_into(
        nodes,
        idx,
        &module,
        &fq,
        current_parents,
        &mut functions,
        &mut classes,
    );
    proof {
        let emitted = spec_collect(
            nodes@,
            0,
            idx as nat,
            spec_module_name(file_path@),
            spec_fq_module(file_path@, base_dir@),
            parent_views(current_parents@),
        );
        assert(symbol_views(functions@) =~= emitted.0);
        assert(symbol_views(classes@) =~= emitted.1);
    }
    (functions, classes)
}

/// Extracts every symbol of one parsed file whose path index was assigned
/// beforehand (the parallel pipeline pre-assigns all indices before any
/// parsing starts).
pub fn extract_symbols(
    nodes: &Vec<ParseNode>,
    file_path_index: usize,
    module: &String,
    fully_qualified_module: &String,
    current_parents: &Vec<ParentContext>,
) -> (r: (Vec<Symbol>, Vec<Symbol>))
    ensures
        ({
            let emitted = spec_collect(
                nodes@,
                0,
                file_path_index as nat,
                module@,
                fully_qualified_module@,
                parent_views(current_parents@),
            );
            symbol_views(r.0@) == emitted.0 && symbol_views(r.1@) == emitted.1
        }),
{
    let mut functions: Vec<Symbol> = Vec::new();
    let mut classes: Vec<Symbol> = Vec::new();
    collect_into(
        nodes,
        file_path_index,
        module,
        fully_qualified_module,
        current_parents,
        &mut functions,
        &mut classes,
    );
    proof {
        let emitted = spec_collect(
            nodes@,
            0,
            file_path_index as nat,
            module@,
            fully_qualified_module@,
            parent_views(current_parents@),
        );
        assert(symbol_views(functions@) =~= emitted.0);
        assert(symbol_views(classes@) =~= emitted.1);
    }
    (functions, classes)
}

/// Decorator transparency: a decorated definition contributes exactly what
/// its wrapped definition contributes undecorated, and the decorators
/// around it (or anything after the wrapped definition) add nothing.
pub proof fn lemma_decorator_transparency(
    n: ParseNode,
    j: int,
    file_idx: nat,
    module: Seq<char>,
    fq: Seq<char>,
    parents: Seq<ParentContextView>,
)
    requires
        n.kind == NodeKind::DecoratedDef,
        0 <= j < n.children@.len(),
        is_definition(n.children@[j]),
        forall|k: int| 0 <= k < j ==> !is_definition(n.children@[k]),
    ensures
        spec_node(n, file_idx, module, fq, parents) == spec_node(
            n.children@[j],
            file_idx,
            module,
            fq,
            parents,
        ),
{
    lemma_first_def(n.children@);
    let fd = spec_first_def(n.children@);
    if fd < j {
        assert(!is_definition(n.children@[fd]));
        assert(is_definition(n.children@[fd]));
    }
    if fd > j {
        assert(!is_definition(n.children@[j]));
    }
    assert(fd == j);
}

} // verus!
