//! A symbol index for Python source trees: extraction of function and class
//! symbols with lexical context, a deterministic path registry, fuzzy
//! name search with ranking, and the pure logic of an editor-protocol
//! symbol server.

pub mod extract;
pub mod pipeline;
pub mod python;
pub mod registry;
pub mod search;
pub mod server;
pub mod symbols;
pub mod text;
pub mod tree;
pub mod trie;
