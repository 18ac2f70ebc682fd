//! The library's model of one parsed source file: the part of a syntax
//! tree that symbol extraction reads.  The external parser produces a tree
//! of typed nodes; a thin adapter reduces each node to its kind, the text
//! of its name field, its 1-based start line, and the children that can
//! hold further definitions.

use vstd::prelude::*;

verus! {

/// The node kinds extraction distinguishes; everything else is `Other`.
#[derive(Debug, Clone, Copy, PartialEq, Eq, Structural)]
pub enum NodeKind {
    /// A function definition.
    FunctionDef,
    /// A class definition.
    ClassDef,
    /// A decorated definition wrapping one function or class definition.
    DecoratedDef,
    /// Any other node; it introduces no scope tracked here.
    Other,
}

/// One node of a parsed file, reduced to what extraction reads.  For a
/// function or class definition `children` holds the statements of its
/// body; for a decorated definition it holds the node's direct children
/// (the decorators and the single wrapped definition).
#[derive(Debug)]
pub struct ParseNode {
    pub kind: NodeKind,
    /// Text of the definition's name field, where the node has one.
    pub name: Option<String>,
    /// 1-based line on which the node starts.
    pub line_number: usize,
    pub children: Vec<ParseNode>,
}

/// Whether a node is a plain (undecorated) definition.
pub open spec fn is_definition(n: ParseNode) -> bool {
    n.kind == NodeKind::FunctionDef || n.kind == NodeKind::ClassDef
}

/// The index of the first definition among `nodes`, or their count when
/// there is none.
pub open spec fn spec_first_def(nodes: Seq<ParseNode>) -> int
    decreases nodes.len(),
{
    if nodes.len() == 0 {
        0
    } else if is_definition(nodes.first()) {
        0
    } else {
        1 + spec_first_def(nodes.drop_first())
    }
}

/// What `spec_first_def` returns: the first definition, or the length.
pub proof fn lemma_first_def(nodes: Seq<ParseNode>)
    ensures
        0 <= spec_first_def(nodes) <= nodes.len(),
        spec_first_def(nodes) < nodes.len() ==> is_definition(nodes[spec_first_def(nodes)]),
        forall|k: int| 0 <= k < spec_first_def(nodes) ==> !is_definition(nodes[k]),
    decreases nodes.len(),
{
    if nodes.len() > 0 && !is_definition(nodes.first()) {
        lemma_first_def(nodes.drop_first());
        assert(forall|k: int|
            0 <= k < nodes.len() - 1 ==> nodes.drop_first()[k] == nodes[k + 1]);
        assert forall|k: int| 0 <= k < spec_first_def(nodes) implies !is_definition(
            nodes[k],
        ) by {
            if k > 0 {
                assert(nodes.drop_first()[k - 1] == nodes[k]);
                assert(!is_definition(nodes.drop_first()[k - 1]));
            }
        }
    }
}

} // verus!
