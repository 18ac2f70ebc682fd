//! The Python parser adapter: thin trusted wrappers around the external
//! incremental parser, and a verified walk that reduces its opaque syntax
//! tree to the library's node model.  The parser's trees are opaque to
//! the contracts here; everything the extraction engine reads is carried
//! over as plain values, and the extraction itself is specified in full
//! on the reduced model.

use crate::pipeline::ParsedFile;
use crate::tree::{NodeKind, ParseNode};
use vstd::prelude::*;
use vstd::string::{StrSliceExecFns, StringExecFns};

verus! {

#[verifier::external_type_specification]
#[verifier::external_body]
pub struct ExParser(tree_sitter::Parser);

#[verifier::external_type_specification]
#[verifier::external_body]
pub struct ExTree(tree_sitter::Tree);

#[verifier::external_type_specification]
#[verifier::external_body]
pub struct ExNode<'tree>(tree_sitter::Node<'tree>);

/// Relies on `Parser::new`, `Language::new` and `Parser::set_language`
/// from the tree-sitter crates: a parser configured for the Python
/// grammar, or `None` when the grammar's version is incompatible with the
/// parser library.  A parser is mutable state and must not be shared
/// across concurrent workers.
#[verifier::external_body]
pub fn create_python_parser() -> (r: Option<tree_sitter::Parser>) {
    let mut parser = tree_sitter::Parser::new();
    match parser.set_language(&tree_sitter::Language::new(tree_sitter_python::LANGUAGE)) {
        Ok(()) => Some(parser),
        Err(_) => None,
    }
}

/// Relies on `Parser::parse`: the parsed tree of the source text, or
/// `None` when parsing was halted.  No promise is made about the tree,
/// which stays opaque.
#[verifier::external_body]
fn parse_source(parser: &mut tree_sitter::Parser, source: &str) -> (r: Option<tree_sitter::Tree>) {
    parser.parse(source, None)
}

/// Relies on `Tree::root_node`.
#[verifier::external_body]
fn tree_root<'t>(tree: &'t tree_sitter::Tree) -> (r: tree_sitter::Node<'t>) {
    tree.root_node()
}

/// Relies on `Node::has_error`: whether the subtree contains any syntax
/// error.
#[verifier::external_body]
fn node_has_error(node: &tree_sitter::Node<'_>) -> (r: bool) {
    node.has_error()
}

/// Relies on `Node::kind`: the node's grammar type name.
#[verifier::external_body]
fn node_kind_string(node: &tree_sitter::Node<'_>) -> (r: String) {
    node.kind().to_string()
}

/// Relies on `Node::child_count`.
#[verifier::external_body]
fn node_child_count(node: &tree_sitter::Node<'_>) -> (r: usize) {
    node.child_count() as usize
}

/// Relies on `Node::child`: the i-th child, `None` past the last one.
#[verifier::external_body]
fn node_child<'t>(node: &tree_sitter::Node<'t>, i: usize) -> (r: Option<tree_sitter::Node<'t>>) {
    node.child(i as u32)
}

/// Relies on `Node::child_by_field_name`.
#[verifier::external_body]
fn node_field<'t>(node: &tree_sitter::Node<'t>, field: &str) -> (r: Option<tree_sitter::Node<'t>>) {
    node.child_by_field_name(field)
}

/// Relies on `Node::start_position`: the node's zero-based start row.
#[verifier::external_body]
fn node_start_row(node: &tree_sitter::Node<'_>) -> (r: usize) {
    node.start_position().row
}

/// Relies on `Node::byte_range` and `str::get`: the node's text within
/// the source it was parsed from, or empty for a range the given text
/// does not contain.
#[verifier::external_body]
pub fn get_node_text(node: tree_sitter::Node<'_>, source: &str) -> (r: String) {
    source.get(node.byte_range()).map_or(String::new(), |s| s.to_string())
}

/// How deep a syntax tree the reduction follows; anything nested deeper
/// is treated as scope-free.
const REDUCE_DEPTH: u64 = 4096;

/// The node's 1-based start line.
fn node_line_number(node: &tree_sitter::Node<'_>) -> (r: usize) {
    let row = node_start_row(node);
    if row < usize::MAX {
        row + 1
    } else {
        row
    }
}

/// Reduces one parser node to the model the extraction engine reads: its
/// kind, the text of its name field, its start line, and the children
/// that can hold further definitions (the body of a definition, the
/// direct children of a decorated definition).
fn reduce_node(node: &tree_sitter::Node<'_>, source: &str, depth: u64) -> (r: ParseNode)
    decreases depth, 0int,
{
    let line_number = node_line_number(node);
    if depth == 0 {
        return ParseNode { kind: NodeKind::Other, name: None, line_number, children: Vec::new() };
    }
    let kind_name = node_kind_string(node);
    if kind_name == "function_definition".to_owned() || kind_name == "class_definition".to_owned() {
        let kind = if kind_name == "function_definition".to_owned() {
            NodeKind::FunctionDef
        } else {
            NodeKind::ClassDef
        };
        let name = match node_field(node, "name") {
            Some(name_node) => Some(get_node_text(name_node, source)),
            None => None,
        };
        let children = match node_field(node, "body") {
            Some(body) => reduce_children(&body, source, depth - 1),
            None => Vec::new(),
        };
        ParseNode { kind, name, line_number, children }
    } else if kind_name == "decorated_definition".to_owned() {
        let children = reduce_children(node, source, depth - 1);
        ParseNode { kind: NodeKind::DecoratedDef, name: None, line_number, children }
    } else {
        ParseNode { kind: NodeKind::Other, name: None, line_number, children: Vec::new() }
    }
}

/// Reduces every child of a parser node.
fn reduce_children(node: &tree_sitter::Node<'_>, source: &str, depth: u64) -> (r: Vec<ParseNode>)
    decreases depth, 1int,
{
    let mut children: Vec<ParseNode> = Vec::new();
    let count = node_child_count(node);
    for i in 0..count {
        match node_child(node, i) {
            Some(child) => {
                let reduced = reduce_node(&child, source, depth);
                children.push(reduced);
            },
            None => {},
        }
    }
    children
}

/// Parses Python source text and reduces the tree to the node model:
/// the file's top-level nodes plus the tree's whole-file error flag,
/// or `None` when the parser returned no tree.  The reduction follows
/// definitions at most `REDUCE_DEPTH` scopes deep; a definition nested
/// deeper than that bound is treated as scope-free and contributes no
/// symbols.
pub fn parse_python_source(parser: &mut tree_sitter::Parser, source: &str) -> (r: Option<
    ParsedFile,
>) {
    match parse_source(parser, source) {
        None => None,
        Some(tree) => {
            let root = tree_root(&tree);
            let has_error = node_has_error(&root);
            let nodes = reduce_children(&root, source, REDUCE_DEPTH);
            Some(ParsedFile { nodes, has_error })
        },
    }
}

} // verus!
