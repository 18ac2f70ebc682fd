use symbol_experiments::pipeline::{
    chunk_size, count_duplicate_paths, load_symbol_data, preassign_paths, process_parsed_file,
    to_symbol_data, ChunkResult, FileErrorKind, FileEvent, LoadError, ParsedFile,
};
use symbol_experiments::registry::PathRegistry;
use symbol_experiments::symbols::{
    Symbol, SymbolContext, SymbolData, SymbolStats, SymbolType,
};
use symbol_experiments::tree::{NodeKind, ParseNode};

fn plain_symbol(name: &str, line: usize, idx: usize) -> Symbol {
    Symbol {
        name: name.to_string(),
        context: SymbolContext {
            file_path_index: idx,
            line_number: line,
            module: "m".to_string(),
            fully_qualified_module: "pkg.m".to_string(),
            symbol_type: SymbolType::Function,
            parent_context: vec![],
        },
    }
}

fn function_node(name: &str, line: usize) -> ParseNode {
    ParseNode {
        kind: NodeKind::FunctionDef,
        name: Some(name.to_string()),
        line_number: line,
        children: vec![],
    }
}

#[test]
fn test_count_duplicate_paths() {
    let files = vec![
        String::from("/a.py"),
        String::from("/b.py"),
        String::from("/a.py"),
        String::from("/a.py"),
    ];
    assert_eq!(count_duplicate_paths(&files), 2);
    assert_eq!(count_duplicate_paths(&vec![]), 0);
}

#[test]
fn test_preassign_is_deterministic() {
    // Pre-assigning the same list twice yields the same path -> index
    // mapping, entry for entry.
    let files = vec![
        String::from("/r/a.py"),
        String::from("/r/b.py"),
        String::from("/r/a.py"),
        String::from("/r/c.py"),
    ];
    let mut first = PathRegistry::new();
    let mut second = PathRegistry::new();
    preassign_paths(&mut first, &files);
    preassign_paths(&mut second, &files);
    assert_eq!(first.export_paths(), second.export_paths());
    assert_eq!(first.path_count(), 3);
    for p in &files {
        assert_eq!(first.lookup_path(p), second.lookup_path(p));
    }
    assert_eq!(first.lookup_path(&files[0]), Some(0));
    assert_eq!(first.lookup_path(&files[1]), Some(1));
    assert_eq!(first.lookup_path(&files[3]), Some(2));
}

#[test]
fn test_duplicate_inputs_collapse() {
    // Indexing a list holding the same file several times yields the same
    // aggregate as indexing it once.
    let path = String::from("/r/dup.py");
    let base = String::from("/r");
    let once = vec![path.clone()];
    let thrice = vec![path.clone(), path.clone(), path.clone()];

    let run = |files: &Vec<String>| -> SymbolStats {
        let mut stats = SymbolStats::new();
        preassign_paths(&mut stats.path_registry, files);
        let mut chunk = ChunkResult::new();
        for p in files {
            let idx = stats.path_registry.lookup_path(p);
            let event = FileEvent::Parsed(ParsedFile {
                nodes: vec![function_node("dup_one", 2), function_node("dup_two", 5)],
                has_error: false,
            });
            chunk.record(process_parsed_file(idx, event, p, &base));
        }
        stats.merge_chunk(chunk);
        stats
    };

    let stats_once = run(&once);
    let stats_thrice = run(&thrice);
    assert_eq!(stats_once.get_counts(), stats_thrice.get_counts());
    assert_eq!(stats_thrice.path_registry.path_count(), 1);
    assert_eq!(stats_thrice.functions.len(), 2);
}

#[test]
fn test_round_trip_reproduces_indices() {
    // Persisting an aggregate and loading the envelope back reproduces
    // every path index exactly.
    let mut stats = SymbolStats::new();
    let ia = stats.path_registry.register_path(String::from("/r/a.py"));
    let ib = stats.path_registry.register_path(String::from("/r/b.py"));
    stats.functions.insert(plain_symbol("fa", 3, ia));
    stats.functions.insert(plain_symbol("fb", 4, ib));
    stats.classes.insert(plain_symbol("Ca", 9, ia));

    let data = to_symbol_data(&stats);
    let rebuilt = load_symbol_data(data).expect("loading a persisted aggregate succeeds");

    assert_eq!(rebuilt.path_registry.path_count(), 2);
    assert_eq!(rebuilt.path_registry.get_path(ia), stats.path_registry.get_path(ia));
    assert_eq!(rebuilt.path_registry.get_path(ib), stats.path_registry.get_path(ib));
    assert_eq!(rebuilt.functions.len(), 2);
    assert_eq!(rebuilt.classes.len(), 1);
    assert!(rebuilt.functions.contains_symbol(&plain_symbol("fa", 3, ia)));
    assert!(rebuilt.functions.contains_symbol(&plain_symbol("fb", 4, ib)));
    assert!(rebuilt.classes.contains_symbol(&plain_symbol("Ca", 9, ia)));
}

#[test]
fn test_load_rejects_duplicate_paths() {
    let data = SymbolData::new(
        vec![],
        vec![],
        vec![String::from("/r/a.py"), String::from("/r/a.py")],
    );
    match load_symbol_data(data) {
        Err(LoadError::DuplicatePath) => {},
        Ok(_) => panic!("an envelope with a repeated path must be rejected"),
    }
}

#[test]
fn test_chunk_size_floor() {
    assert_eq!(chunk_size(100, 4), 25);
    assert_eq!(chunk_size(20, 4), 10);
    assert_eq!(chunk_size(0, 8), 10);
    assert_eq!(chunk_size(1000, 1), 1000);
}

#[test]
fn test_error_classification() {
    let path = String::from("/r/x.py");
    let base = String::from("/r");

    let read_failed = process_parsed_file(Some(0), FileEvent::ReadFailed, &path, &base);
    assert_eq!(read_failed.unwrap_err(), FileErrorKind::Io);

    let parse_failed = process_parsed_file(Some(0), FileEvent::ParseFailed, &path, &base);
    assert_eq!(parse_failed.unwrap_err(), FileErrorKind::Syntax);

    let tree_error = process_parsed_file(
        Some(0),
        FileEvent::Parsed(ParsedFile { nodes: vec![], has_error: true }),
        &path,
        &base,
    );
    assert_eq!(tree_error.unwrap_err(), FileErrorKind::Syntax);

    let missing_index = process_parsed_file(
        None,
        FileEvent::Parsed(ParsedFile { nodes: vec![], has_error: false }),
        &path,
        &base,
    );
    assert_eq!(missing_index.unwrap_err(), FileErrorKind::Other);

    let ok = process_parsed_file(
        Some(0),
        FileEvent::Parsed(ParsedFile { nodes: vec![function_node("f", 1)], has_error: false }),
        &path,
        &base,
    );
    let (functions, classes) = ok.unwrap();
    assert_eq!(functions.len(), 1);
    assert_eq!(functions[0].name, "f");
    assert!(classes.is_empty());
}

#[test]
fn test_chunk_record_and_merge() {
    let mut chunk = ChunkResult::new();
    chunk.record(Err(FileErrorKind::Io));
    chunk.record(Err(FileErrorKind::Syntax));
    chunk.record(Err(FileErrorKind::Syntax));
    chunk.record(Ok((vec![plain_symbol("f", 1, 0)], vec![plain_symbol("C", 2, 0)])));
    assert_eq!(chunk.io_errors, 1);
    assert_eq!(chunk.syntax_errors, 2);
    assert_eq!(chunk.other_errors, 0);
    assert_eq!(chunk.functions.len(), 1);

    let mut stats = SymbolStats::new();
    stats.path_registry.register_path(String::from("/r/x.py"));
    stats.merge_chunk(chunk);
    let (f, c, syn, io, other) = stats.get_counts();
    assert_eq!((f, c), (1, 1));
    assert_eq!((syn, io, other), (2, 1, 0));

    // merging an identical chunk again only moves the counters: the
    // symbol sets absorb the duplicates
    let mut again = ChunkResult::new();
    again.record(Ok((vec![plain_symbol("f", 1, 0)], vec![plain_symbol("C", 2, 0)])));
    stats.merge_chunk(again);
    let (f2, c2, _, _, _) = stats.get_counts();
    assert_eq!((f2, c2), (1, 1));
}
