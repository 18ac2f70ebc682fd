use symbol_experiments::trie::{path_components, PathTrie};

#[test]
fn test_trie_insert_and_len() {
    let mut trie = PathTrie::new();
    assert!(trie.is_empty());
    assert_eq!(trie.len(), 0);

    trie.insert("/a/b.py");
    trie.insert("/a/c.py");
    trie.insert("/a/b.py");
    assert!(!trie.is_empty());
    assert_eq!(trie.len(), 2, "re-inserting a stored path adds nothing");

    trie.insert("/a");
    assert_eq!(trie.len(), 3, "a directory prefix can be stored as a path of its own");
}

#[test]
fn test_trie_get_all_paths_round_trip() {
    let mut trie = PathTrie::new();
    trie.insert("/a/b.py");
    trie.insert("/a/c/d.py");
    trie.insert("rel/e.py");

    let mut paths = trie.get_all_paths();
    paths.sort();
    assert_eq!(paths, vec![
        String::from("/a/b.py"),
        String::from("/a/c/d.py"),
        String::from("rel/e.py"),
    ]);
}

#[test]
fn test_trie_normalizes_components() {
    // empty segments and the current-directory marker vanish
    let comps = path_components("./a//b.py");
    assert_eq!(comps, vec![String::from("a"), String::from("b.py")]);
    let abs = path_components("/x/y.py");
    assert_eq!(abs, vec![String::from("/"), String::from("x"), String::from("y.py")]);

    let mut trie = PathTrie::new();
    trie.insert("./a//b.py");
    trie.insert("a/b.py");
    assert_eq!(trie.len(), 1, "both spellings name the same component path");
    assert_eq!(trie.get_all_paths(), vec![String::from("a/b.py")]);
}

#[test]
fn test_trie_memory_stats() {
    let mut trie = PathTrie::new();
    trie.insert("/a/b.py");
    let stats = trie.memory_stats();
    assert_eq!(stats.node_count, 4);
    assert_eq!(stats.leaf_count, 1);
    assert_eq!(stats.max_depth, 3);
    assert_eq!(stats.component_count, 3);

    let empty = PathTrie::new().memory_stats();
    assert_eq!(empty.node_count, 1);
    assert_eq!(empty.leaf_count, 0);
    assert_eq!(empty.max_depth, 0);
    assert_eq!(empty.component_count, 0);
}

#[test]
fn test_trie_iter() {
    let mut trie = PathTrie::new();
    trie.insert("/m/a.py");
    trie.insert("/m/b.py");
    let mut iter = trie.iter();
    let mut seen = Vec::new();
    while let Some(p) = iter.next() {
        seen.push(p);
    }
    seen.sort();
    assert_eq!(seen, vec![String::from("/m/a.py"), String::from("/m/b.py")]);
    assert!(iter.next().is_none());
}
