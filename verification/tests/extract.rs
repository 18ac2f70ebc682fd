use symbol_experiments::extract::{
    classify_class_type, classify_function_type, collect_symbols,
};
use symbol_experiments::registry::PathRegistry;
use symbol_experiments::symbols::{ParentContext, Symbol, SymbolType};
use symbol_experiments::tree::{NodeKind, ParseNode};

fn def_node(kind: NodeKind, name: &str, line: usize, children: Vec<ParseNode>) -> ParseNode {
    ParseNode {
        kind,
        name: Some(name.to_string()),
        line_number: line,
        children,
    }
}

fn other_node(line: usize) -> ParseNode {
    ParseNode { kind: NodeKind::Other, name: None, line_number: line, children: vec![] }
}

fn extract(nodes: Vec<ParseNode>) -> (Vec<Symbol>, Vec<Symbol>, PathRegistry) {
    let mut registry = PathRegistry::new();
    let (functions, classes) = collect_symbols(
        &nodes,
        &String::from("/root/pkg/mod.py"),
        &String::from("/root"),
        &vec![],
        &mut registry,
    );
    (functions, classes, registry)
}

fn link(name: &str, symbol_type: SymbolType, line: usize) -> ParentContext {
    ParentContext { name: name.to_string(), symbol_type, line_number: line }
}

#[test]
fn test_classify_from_scope_chain() {
    // at module top level
    assert_eq!(classify_function_type(&vec![]), SymbolType::Function);
    assert_eq!(classify_class_type(&vec![]), SymbolType::Class);
    // directly in a class body
    assert_eq!(
        classify_function_type(&vec![link("C", SymbolType::Class, 1)]),
        SymbolType::Method
    );
    assert_eq!(
        classify_function_type(&vec![
            link("C", SymbolType::Class, 1),
            link("Inner", SymbolType::NestedClass, 2),
        ]),
        SymbolType::Method
    );
    // inside another function
    assert_eq!(
        classify_function_type(&vec![link("f", SymbolType::Function, 1)]),
        SymbolType::NestedFunction
    );
    // a class inside any scope
    assert_eq!(
        classify_class_type(&vec![link("f", SymbolType::Function, 1)]),
        SymbolType::NestedClass
    );
    assert_eq!(
        classify_class_type(&vec![link("C", SymbolType::Class, 1)]),
        SymbolType::NestedClass
    );
}

#[test]
fn test_nesting_classification_through_extraction() {
    // class C: (line 1)
    //     def m(self): (line 2)
    //         def inner(): (line 3)
    //     class D: (line 5)
    let tree = vec![def_node(
        NodeKind::ClassDef,
        "C",
        1,
        vec![
            def_node(
                NodeKind::FunctionDef,
                "m",
                2,
                vec![def_node(NodeKind::FunctionDef, "inner", 3, vec![])],
            ),
            def_node(NodeKind::ClassDef, "D", 5, vec![]),
        ],
    )];
    let (functions, classes, _registry) = extract(tree);

    let m = functions.iter().find(|f| f.name == "m").unwrap();
    assert_eq!(m.context.symbol_type, SymbolType::Method);
    assert_eq!(m.context.parent_context.len(), 1);
    assert_eq!(m.context.parent_context[0].name, "C");

    let inner = functions.iter().find(|f| f.name == "inner").unwrap();
    assert_eq!(inner.context.symbol_type, SymbolType::NestedFunction);
    assert_eq!(inner.context.parent_context.len(), 2);
    assert_eq!(inner.context.parent_context[0].name, "C");
    assert_eq!(inner.context.parent_context[1].name, "m");

    let c = classes.iter().find(|c| c.name == "C").unwrap();
    assert_eq!(c.context.symbol_type, SymbolType::Class);

    let d = classes.iter().find(|c| c.name == "D").unwrap();
    assert_eq!(d.context.symbol_type, SymbolType::NestedClass);
    assert_eq!(d.context.parent_context[0].name, "C");
}

#[test]
fn test_module_context_fields() {
    let tree = vec![def_node(NodeKind::FunctionDef, "top", 4, vec![])];
    let (functions, _classes, registry) = extract(tree);
    assert_eq!(functions.len(), 1);
    let top = &functions[0];
    assert_eq!(top.name, "top");
    assert_eq!(top.context.line_number, 4);
    assert_eq!(top.context.module, "mod");
    assert_eq!(top.context.fully_qualified_module, "pkg");
    assert_eq!(
        registry.get_path(top.context.file_path_index),
        &String::from("/root/pkg/mod.py")
    );
}

#[test]
fn test_decorator_transparency_same_symbol() {
    // A decorated definition yields exactly the same symbol as its
    // undecorated equivalent.
    let plain = vec![def_node(
        NodeKind::FunctionDef,
        "decorated_function",
        3,
        vec![],
    )];
    let wrapped = vec![ParseNode {
        kind: NodeKind::DecoratedDef,
        name: None,
        line_number: 2,
        children: vec![
            other_node(2),
            def_node(NodeKind::FunctionDef, "decorated_function", 3, vec![]),
        ],
    }];
    let (f_plain, c_plain, _) = extract(plain);
    let (f_wrapped, c_wrapped, _) = extract(wrapped);
    assert_eq!(f_plain.len(), 1);
    assert_eq!(f_wrapped.len(), 1);
    assert!(f_plain[0].same_as(&f_wrapped[0]));
    assert!(c_plain.is_empty() && c_wrapped.is_empty());
}

#[test]
fn test_stacked_decorators_no_duplicate() {
    // Several decorators above one definition produce one symbol, and a
    // decorated node without a wrapped definition produces none.
    let tree = vec![
        ParseNode {
            kind: NodeKind::DecoratedDef,
            name: None,
            line_number: 1,
            children: vec![
                other_node(1),
                other_node(2),
                other_node(3),
                def_node(NodeKind::ClassDef, "MultipleDecorated", 4, vec![]),
            ],
        },
        ParseNode {
            kind: NodeKind::DecoratedDef,
            name: None,
            line_number: 6,
            children: vec![other_node(6)],
        },
    ];
    let (functions, classes, _) = extract(tree);
    assert!(functions.is_empty());
    assert_eq!(classes.len(), 1);
    assert_eq!(classes[0].name, "MultipleDecorated");
    assert_eq!(classes[0].context.line_number, 4);
}

#[test]
fn test_unnamed_and_other_nodes_are_skipped() {
    let tree = vec![
        other_node(1),
        ParseNode { kind: NodeKind::FunctionDef, name: None, line_number: 2, children: vec![] },
        def_node(NodeKind::FunctionDef, "named", 3, vec![]),
    ];
    let (functions, classes, _) = extract(tree);
    assert_eq!(functions.len(), 1);
    assert_eq!(functions[0].name, "named");
    assert!(classes.is_empty());
}

#[test]
fn test_emission_order_is_depth_first() {
    let tree = vec![
        def_node(
            NodeKind::FunctionDef,
            "a",
            1,
            vec![def_node(NodeKind::FunctionDef, "a_inner", 2, vec![])],
        ),
        def_node(NodeKind::FunctionDef, "b", 5, vec![]),
    ];
    let (functions, _, _) = extract(tree);
    let names: Vec<&str> = functions.iter().map(|f| f.name.as_str()).collect();
    assert_eq!(names, vec!["a", "a_inner", "b"]);
}
