use symbol_experiments::registry::PathRegistry;
use symbol_experiments::symbols::{
    get_fully_qualified_module, get_module_name, ParentContext, Symbol, SymbolContext, SymbolSet,
    SymbolStats, SymbolType,
};

#[test]
fn test_path_registry_register_and_get() {
    let mut registry = PathRegistry::new();

    // Register a path
    let path1 = String::from("/test/path/file.py");
    let index1 = registry.register_path(path1.clone());

    // Register another path
    let path2 = String::from("/test/another/file.py");
    let index2 = registry.register_path(path2.clone());

    // Verify paths can be retrieved correctly
    assert_eq!(registry.get_path(index1), &path1);
    assert_eq!(registry.get_path(index2), &path2);

    // Register same path again, should return same index
    let index3 = registry.register_path(path1.clone());
    assert_eq!(index1, index3);
}

#[test]
fn test_symbol_context_creation() {
    let mut path_registry = PathRegistry::new();
    let file_path = String::from("/test/module/file.py");
    let file_path_index = path_registry.register_path(file_path);

    let context = SymbolContext {
        file_path_index,
        line_number: 42,
        module: "file".to_string(),
        fully_qualified_module: "module.file".to_string(),
        symbol_type: SymbolType::Function,
        parent_context: vec![],
    };

    assert_eq!(context.line_number, 42);
    assert_eq!(context.module, "file");
    assert_eq!(context.fully_qualified_module, "module.file");
    assert_eq!(context.symbol_type, SymbolType::Function);
    assert_eq!(
        *path_registry.get_path(context.file_path_index),
        String::from("/test/module/file.py")
    );
}

#[test]
fn test_symbol_creation() {
    let mut path_registry = PathRegistry::new();
    let file_path = String::from("/test/module/file.py");
    let file_path_index = path_registry.register_path(file_path);

    let context = SymbolContext {
        file_path_index,
        line_number: 42,
        module: "file".to_string(),
        fully_qualified_module: "module.file".to_string(),
        symbol_type: SymbolType::Function,
        parent_context: vec![],
    };

    let symbol = Symbol {
        name: "test_function".to_string(),
        context,
    };

    assert_eq!(symbol.name, "test_function");
    assert_eq!(symbol.context.line_number, 42);
    assert_eq!(
        *path_registry.get_path(symbol.context.file_path_index),
        String::from("/test/module/file.py")
    );
}

#[test]
fn test_get_module_name() {
    assert_eq!(get_module_name("/path/to/module.py"), "module");
    assert_eq!(get_module_name("relative/path/to/file.py"), "file");
    assert_eq!(get_module_name("just_filename.py"), "just_filename");
}

#[test]
fn test_get_fully_qualified_module() {
    let base_dir = "/base/dir";

    assert_eq!(
        get_fully_qualified_module("/base/dir/module/file.py", base_dir),
        "module"
    );

    assert_eq!(
        get_fully_qualified_module("/base/dir/deeply/nested/module/file.py", base_dir),
        "deeply.nested.module"
    );

    // Test with non-matching base dir
    assert_eq!(
        get_fully_qualified_module("/different/path/file.py", base_dir),
        "unknown"
    );
}

#[test]
fn test_module_name_edges() {
    assert_eq!(get_module_name("archive.tar.gz"), "archive.tar");
    assert_eq!(get_module_name("/path/.hidden"), ".hidden");
    assert_eq!(get_module_name("/path/ends/with/"), "unknown");
}

#[test]
fn test_fully_qualified_module_edges() {
    // a file directly under the base directory has an empty dotted path
    assert_eq!(get_fully_qualified_module("/base/dir/file.py", "/base/dir"), "");
    // the path equal to the base itself does not lie under it
    assert_eq!(get_fully_qualified_module("/base/dir", "/base/dir"), "unknown");
}

fn sample_symbol(name: &str, line: usize, idx: usize) -> Symbol {
    Symbol {
        name: name.to_string(),
        context: SymbolContext {
            file_path_index: idx,
            line_number: line,
            module: "m".to_string(),
            fully_qualified_module: "pkg.m".to_string(),
            symbol_type: SymbolType::Function,
            parent_context: vec![ParentContext {
                name: "outer".to_string(),
                symbol_type: SymbolType::Function,
                line_number: 1,
            }],
        },
    }
}

#[test]
fn test_symbol_set_deduplicates_structural_equals() {
    let mut set = SymbolSet::new();
    set.insert(sample_symbol("f", 3, 0));
    set.insert(sample_symbol("f", 3, 0));
    assert_eq!(set.len(), 1);
    set.insert(sample_symbol("f", 4, 0));
    assert_eq!(set.len(), 2);
    assert!(set.contains_symbol(&sample_symbol("f", 3, 0)));
    assert!(!set.contains_symbol(&sample_symbol("g", 3, 0)));
}

#[test]
fn test_symbol_stats_counts() {
    let mut stats = SymbolStats::new();
    assert_eq!(stats.get_counts(), (0, 0, 0, 0, 0));
    stats.functions.insert(sample_symbol("f", 3, 0));
    stats.classes.insert(sample_symbol("C", 9, 0));
    stats.syntax_errors = 2;
    let (f, c, syn, io, other) = stats.get_counts();
    assert_eq!((f, c), (1, 1));
    assert_eq!((syn, io, other), (2, 0, 0));
}

#[test]
fn test_registry_stats_rendering() {
    let mut registry = PathRegistry::new();
    registry.register_path(String::from("/a/b.py"));
    registry.register_path(String::from("/a/c.py"));
    assert_eq!(registry.path_count(), 2);
    assert_eq!(registry.total_path_bytes(), 14);
    assert_eq!(
        registry.print_stats(),
        "unique paths: 2, estimated path bytes: 14"
    );
    assert_eq!(registry.debug_path_info(0), "Path[0]: '/a/b.py'");
    assert_eq!(
        registry.debug_path_info(7),
        "ERROR: index 7 out of bounds (path count: 2)"
    );
}

#[test]
fn test_registry_clear_and_lookup() {
    let mut registry = PathRegistry::new();
    registry.register_path(String::from("/a/b.py"));
    assert_eq!(registry.lookup_path(&String::from("/a/b.py")), Some(0));
    assert_eq!(registry.lookup_path(&String::from("/a/z.py")), None);
    registry.clear();
    assert_eq!(registry.path_count(), 0);
    assert_eq!(registry.lookup_path(&String::from("/a/b.py")), None);
}
