use symbol_experiments::registry::PathRegistry;
use symbol_experiments::search::{search_symbols, search_symbols_skim};
use symbol_experiments::symbols::{ParentContext, Symbol, SymbolContext, SymbolSet, SymbolType};

fn make_symbol(
    name: &str,
    symbol_type: SymbolType,
    line: usize,
    file_index: usize,
    module: &str,
    fq: &str,
    parents: Vec<ParentContext>,
) -> Symbol {
    Symbol {
        name: name.to_string(),
        context: SymbolContext {
            file_path_index: file_index,
            line_number: line,
            module: module.to_string(),
            fully_qualified_module: fq.to_string(),
            symbol_type,
            parent_context: parents,
        },
    }
}

fn create_test_data() -> (SymbolSet, SymbolSet, PathRegistry) {
    let mut path_registry = PathRegistry::new();
    let mut functions = SymbolSet::new();
    let mut classes = SymbolSet::new();

    // Add some paths to the registry
    let file_path_index1 = path_registry.register_path(String::from("/test/module1/file1.py"));
    let file_path_index2 = path_registry.register_path(String::from("/test/module2/file2.py"));

    // Add some functions
    functions.insert(make_symbol(
        "test_function",
        SymbolType::Function,
        10,
        file_path_index1,
        "file1",
        "module1.file1",
        vec![],
    ));
    functions.insert(make_symbol(
        "another_function",
        SymbolType::Function,
        20,
        file_path_index2,
        "file2",
        "module2.file2",
        vec![],
    ));

    // Add some classes
    classes.insert(make_symbol(
        "TestClass",
        SymbolType::Class,
        5,
        file_path_index1,
        "file1",
        "module1.file1",
        vec![],
    ));
    classes.insert(make_symbol(
        "AnotherClass",
        SymbolType::Class,
        15,
        file_path_index2,
        "file2",
        "module2.file2",
        vec![],
    ));

    (functions, classes, path_registry)
}

#[test]
fn test_search_exact_match() {
    let (functions, classes, path_registry) = create_test_data();

    // Test exact match
    let (results, metrics) =
        search_symbols_skim("test_function", &functions, &classes, &path_registry, false);
    assert_eq!(results.len(), 1, "Should find exactly one match");
    assert_eq!(
        results[0].0.name, "test_function",
        "Should match the correct symbol"
    );
    // this strategy scores an exact match with the dominating override
    assert_eq!(results[0].1, 10000, "Exact match should have the exact-match score");
    assert_eq!(metrics.results_count, 1);
}

#[test]
fn test_search_fuzzy_match() {
    let (functions, classes, path_registry) = create_test_data();

    // Test fuzzy match
    let (results, _metrics) =
        search_symbols_skim("testfunc", &functions, &classes, &path_registry, false);
    assert!(!results.is_empty(), "Should find fuzzy matches");
    let has_test_function = results.iter().any(|(s, _)| s.name == "test_function");
    assert!(
        has_test_function,
        "Should find 'test_function' with fuzzy search"
    );
}

#[test]
fn test_search_no_match() {
    let (functions, classes, path_registry) = create_test_data();

    // Test no match
    let (results, _metrics) =
        search_symbols_skim("nonexistent", &functions, &classes, &path_registry, false);
    assert!(results.is_empty(), "Should not find any matches");
}

#[test]
fn test_case_insensitive_search() {
    let (functions, classes, path_registry) = create_test_data();

    // Test case insensitive search
    let (results, _metrics) =
        search_symbols_skim("TEST_FUNCTION", &functions, &classes, &path_registry, false);
    assert!(!results.is_empty(), "Should find case-insensitive matches");
    let has_test_function = results.iter().any(|(s, _)| s.name == "test_function");
    assert!(
        has_test_function,
        "Should find 'test_function' with case-insensitive search"
    );
}

#[test]
fn test_exactness_precedence_both_strategies() {
    // An exact match always outranks fuzzy-adjacent names, under both
    // entry points.
    let mut path_registry = PathRegistry::new();
    let idx = path_registry.register_path(String::from("/p/mod.py"));
    let mut functions = SymbolSet::new();
    let mut classes = SymbolSet::new();
    functions.insert(make_symbol(
        "test_function_extra",
        SymbolType::Function,
        3,
        idx,
        "mod",
        "pkg.mod",
        vec![],
    ));
    functions.insert(make_symbol(
        "test_function",
        SymbolType::Function,
        8,
        idx,
        "mod",
        "pkg.mod",
        vec![],
    ));
    classes.insert(make_symbol(
        "my_test_function_helper",
        SymbolType::Class,
        12,
        idx,
        "mod",
        "pkg.mod",
        vec![],
    ));

    let (r1, _) = search_symbols("test_function", &functions, &classes, &path_registry, false);
    assert!(!r1.is_empty());
    assert_eq!(r1[0].0.name, "test_function");
    assert_eq!(r1[0].1, 1000);

    let (r2, _) = search_symbols_skim("test_function", &functions, &classes, &path_registry, false);
    assert!(!r2.is_empty());
    assert_eq!(r2[0].0.name, "test_function");
    assert_eq!(r2[0].1, 10000);
}

#[test]
fn test_empty_query_yields_nothing() {
    let (functions, classes, path_registry) = create_test_data();
    let (r1, m1) = search_symbols("", &functions, &classes, &path_registry, false);
    assert!(r1.is_empty());
    assert_eq!(m1.results_count, 0);
    let (r2, _) = search_symbols_skim("", &functions, &classes, &path_registry, false);
    assert!(r2.is_empty());
}

#[test]
fn test_search_dedup_by_coarse_identity() {
    // Two symbols that differ only in their parent-chain detail share the
    // coarse (name, line, file index) identity: only one result survives.
    let mut path_registry = PathRegistry::new();
    let idx = path_registry.register_path(String::from("/p/mod.py"));
    let mut functions = SymbolSet::new();
    let classes = SymbolSet::new();
    functions.insert(make_symbol(
        "dup_func",
        SymbolType::Function,
        7,
        idx,
        "mod",
        "pkg.mod",
        vec![],
    ));
    functions.insert(make_symbol(
        "dup_func",
        SymbolType::NestedFunction,
        7,
        idx,
        "mod",
        "pkg.mod",
        vec![ParentContext {
            name: "wrapper".to_string(),
            symbol_type: SymbolType::Function,
            line_number: 6,
        }],
    ));
    assert_eq!(functions.len(), 2);

    let (results, _) = search_symbols("dup_func", &functions, &classes, &path_registry, false);
    assert_eq!(results.len(), 1, "coarse duplicates must be suppressed");
    assert_eq!(results[0].0.name, "dup_func");

    // distinct lines survive as distinct results
    let mut more = SymbolSet::new();
    more.insert(make_symbol(
        "dup_func",
        SymbolType::Function,
        7,
        idx,
        "mod",
        "pkg.mod",
        vec![],
    ));
    more.insert(make_symbol(
        "dup_func",
        SymbolType::Function,
        9,
        idx,
        "mod",
        "pkg.mod",
        vec![],
    ));
    let (results2, _) = search_symbols("dup_func", &more, &classes, &path_registry, false);
    assert_eq!(results2.len(), 2);
    let mut seen = Vec::new();
    for (s, _) in &results2 {
        let key = (s.name.clone(), s.context.line_number, s.context.file_path_index);
        assert!(!seen.contains(&key), "no two results may share the coarse key");
        seen.push(key);
    }
}

#[test]
fn test_search_scores_sorted_descending() {
    let (functions, classes, path_registry) = create_test_data();
    let (results, _) = search_symbols("func", &functions, &classes, &path_registry, false);
    for w in results.windows(2) {
        assert!(w[0].1 >= w[1].1, "scores must not increase down the list");
    }
    for (_, score) in &results {
        assert!(*score > 0, "only positive scores may appear");
    }
}
