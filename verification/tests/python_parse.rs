use symbol_experiments::pipeline::{
    preassign_paths, process_parsed_file, ChunkResult, FileEvent,
};
use symbol_experiments::python::{create_python_parser, parse_python_source};
use symbol_experiments::search::search_symbols;
use symbol_experiments::server::handle_workspace_symbol_request;
use symbol_experiments::symbols::{SymbolStats, SymbolType};

/// Indexes a list of (path, source text) pairs the way the pipeline does:
/// pre-assign every path index, parse each occurrence, classify, and merge
/// one chunk into the aggregate.
fn index_sources(sources: &[(&str, &str)], base_dir: &str) -> SymbolStats {
    let mut stats = SymbolStats::new();
    let paths: Vec<String> = sources.iter().map(|(p, _)| p.to_string()).collect();
    preassign_paths(&mut stats.path_registry, &paths);
    let mut parser = create_python_parser().expect("the Python grammar loads");
    let mut chunk = ChunkResult::new();
    for (path, text) in sources {
        let path = path.to_string();
        let idx = stats.path_registry.lookup_path(&path);
        let event = match parse_python_source(&mut parser, text) {
            Some(parsed) => FileEvent::Parsed(parsed),
            None => FileEvent::ParseFailed,
        };
        chunk.record(process_parsed_file(idx, event, &path, &base_dir.to_string()));
    }
    stats.merge_chunk(chunk);
    stats
}

#[test]
fn test_create_python_parser() {
    assert!(create_python_parser().is_some());
}

#[test]
fn test_parse_python_file() {
    let python_content = r#"
def test_function():
    print("Hello World")

class TestClass:
    def __init__(self):
        self.value = 42

    def test_method(self):
        return self.value
"#;
    let stats = index_sources(&[("/base/test_module.py", python_content)], "/base");
    let (func_count, class_count, _, _, _) = stats.get_counts();
    assert!(func_count > 0);
    assert!(class_count > 0);

    let mut function_names = Vec::new();
    for i in 0..stats.functions.len() {
        function_names.push(stats.functions.get(i).name.clone());
    }
    assert!(function_names.contains(&"test_function".to_string()), "Should find test_function");
    assert!(function_names.contains(&"test_method".to_string()), "Should find test_method");
    assert_eq!(stats.classes.get(0).name, "TestClass", "Should find TestClass");

    let method = (0..stats.functions.len())
        .map(|i| stats.functions.get(i))
        .find(|f| f.name == "test_method")
        .unwrap();
    assert_eq!(method.context.symbol_type, SymbolType::Method);
    assert_eq!(method.context.parent_context[0].name, "TestClass");
}

#[test]
fn test_parse_invalid_python() {
    // A file with a syntax error yields a classified syntax failure, not
    // partial symbols.
    let stats = index_sources(
        &[("/base/invalid.py", "def broken_function( print('missing closing paren')")],
        "/base",
    );
    let (func_count, class_count, syntax_errors, io_errors, other_errors) = stats.get_counts();
    assert_eq!(func_count, 0);
    assert_eq!(class_count, 0);
    assert_eq!(syntax_errors, 1);
    assert_eq!(io_errors, 0);
    assert_eq!(other_errors, 0);
}

#[test]
fn test_line_numbers_are_one_based() {
    let content = "\ndef second_line(): pass\n\nclass FourthLine:\n    pass\n";
    let stats = index_sources(&[("/base/lines.py", content)], "/base");
    let f = stats.functions.get(0);
    assert_eq!(f.name, "second_line");
    assert_eq!(f.context.line_number, 2);
    let c = stats.classes.get(0);
    assert_eq!(c.name, "FourthLine");
    assert_eq!(c.context.line_number, 4);
}

#[test]
fn test_duplicate_path_handling() {
    let content = r#"
def function_one():
    print("Function one")

class ClassOne:
    def method_one(self):
        print("Method one")

def function_two():
    print("Function two")
"#;
    let file_path = "/base/test_file.py";
    let stats = index_sources(&[(file_path, content), (file_path, content)], "/base");

    let (func_count, class_count, syntax_errors, io_errors, other_errors) = stats.get_counts();
    assert_eq!(func_count, 3, "Should find 3 functions");
    assert_eq!(class_count, 1, "Should find 1 class");
    assert_eq!(syntax_errors, 0, "Should not have syntax errors");
    assert_eq!(io_errors, 0, "Should not have I/O errors");
    assert_eq!(other_errors, 0, "Should not have other errors");

    assert_eq!(stats.path_registry.path_count(), 1, "Should have only one unique path");
    assert!(stats.path_registry.lookup_path(&file_path.to_string()).is_some());

    let (results, _) = search_symbols(
        "function_one",
        &stats.functions,
        &stats.classes,
        &stats.path_registry,
        false,
    );
    assert_eq!(results.len(), 1, "Should find function_one");
    let (symbol, _) = &results[0];
    let retrieved_path = stats.path_registry.get_path(symbol.context.file_path_index);
    assert_eq!(retrieved_path.as_str(), file_path, "Symbol should have correct path association");
}

#[test]
fn test_multiple_files_with_duplicates() {
    let content1 = r#"
def file1_func():
    print("File 1 function")

class File1Class:
    pass
"#;
    let content2 = r#"
def file2_func():
    print("File 2 function")

class File2Class:
    def method(self):
        pass
"#;
    let content3 = r#"
def file3_func():
    print("File 3 function")
"#;
    let file1 = "/base/dir1/file1.py";
    let file2 = "/base/dir2/file2.py";
    let file3 = "/base/file3.py";
    let stats = index_sources(
        &[
            (file1, content1),
            (file2, content2),
            (file3, content3),
            (file1, content1),
            (file3, content3),
            (file2, content2),
        ],
        "/base",
    );

    let (func_count, class_count, syntax_errors, io_errors, other_errors) = stats.get_counts();
    assert_eq!(func_count, 4, "Should find 4 functions");
    assert_eq!(class_count, 2, "Should find 2 classes");
    assert_eq!(syntax_errors, 0, "Should not have syntax errors");
    assert_eq!(io_errors, 0, "Should not have I/O errors");
    assert_eq!(other_errors, 0, "Should not have other errors");

    assert_eq!(stats.path_registry.path_count(), 3, "Should have 3 unique paths");
    assert!(stats.path_registry.lookup_path(&file1.to_string()).is_some());
    assert!(stats.path_registry.lookup_path(&file2.to_string()).is_some());
    assert!(stats.path_registry.lookup_path(&file3.to_string()).is_some());
}

#[test]
fn test_decorated_python_symbols() {
    let python_content = r#"
import functools

def simple_decorator(func):
    @functools.wraps(func)
    def wrapper(*args, **kwargs):
        print(f"Calling {func.__name__}")
        return func(*args, **kwargs)
    return wrapper

def decorator_with_args(arg1, arg2):
    def actual_decorator(func):
        @functools.wraps(func)
        def wrapper(*args, **kwargs):
            print(f"Args: {arg1}, {arg2}")
            return func(*args, **kwargs)
        return wrapper
    return actual_decorator

# Basic decorated function
@simple_decorator
def decorated_function():
    return "I am decorated"

# Function with decorator that takes args
@decorator_with_args("hello", "world")
def function_with_decorated_args():
    return "I have decorated args"

# Class with decorator
@simple_decorator
class DecoratedClass:
    def __init__(self):
        self.value = 42

    def method(self):
        return self.value

# Multiple decorators on a function
@simple_decorator
@decorator_with_args("foo", "bar")
def multiple_decorated_function():
    return "I have multiple decorators"

# Multiple decorators on a class
@simple_decorator
@decorator_with_args("class", "decorators")
class MultipleDecoratedClass:
    def __init__(self):
        self.name = "decorated"

    @simple_decorator
    def decorated_method(self):
        return self.name
"#;
    let stats = index_sources(&[("/base/decorated.py", python_content)], "/base");

    let functions: Vec<_> = (0..stats.functions.len()).map(|i| stats.functions.get(i).clone()).collect();
    let classes: Vec<_> = (0..stats.classes.len()).map(|i| stats.classes.get(i).clone()).collect();

    functions
        .iter()
        .find(|f| f.name == "decorated_function")
        .expect("Should find decorated_function");
    functions
        .iter()
        .find(|f| f.name == "function_with_decorated_args")
        .expect("Should find function_with_decorated_args");
    functions
        .iter()
        .find(|f| f.name == "multiple_decorated_function")
        .expect("Should find multiple_decorated_function");
    classes
        .iter()
        .find(|c| c.name == "DecoratedClass")
        .expect("Should find DecoratedClass");
    classes
        .iter()
        .find(|c| c.name == "MultipleDecoratedClass")
        .expect("Should find MultipleDecoratedClass");
    functions
        .iter()
        .find(|f| {
            f.name == "decorated_method"
                && !f.context.parent_context.is_empty()
                && f.context.parent_context.iter().any(|p| p.name == "MultipleDecoratedClass")
        })
        .expect("Should find decorated_method inside MultipleDecoratedClass");

    let (func_count, class_count, syntax_errors, io_errors, other_errors) = stats.get_counts();
    assert!(func_count >= 5, "Should find at least 5 functions, found {}", func_count);
    assert_eq!(class_count, 2, "Should find exactly 2 classes");
    assert_eq!(syntax_errors, 0, "Should have no syntax errors");
    assert_eq!(io_errors, 0, "Should have no I/O errors");
    assert_eq!(other_errors, 0, "Should have no other errors");
}

#[test]
fn test_complex_decorated_structures() {
    let python_content = r#"
import functools
from typing import Callable, TypeVar, Any

T = TypeVar('T')

def class_decorator(cls):
    cls.decorated = True
    return cls

def method_decorator(method):
    @functools.wraps(method)
    def wrapper(self, *args, **kwargs):
        print("Method decorated")
        return method(self, *args, **kwargs)
    return wrapper

def parametrized_decorator(param1: str, param2: int):
    def decorator(func_or_class):
        @functools.wraps(func_or_class)
        def wrapper(*args, **kwargs):
            print(f"Params: {param1}, {param2}")
            return func_or_class(*args, **kwargs)
        return wrapper
    return decorator

# Class with multiple nested decorated methods
@class_decorator
@parametrized_decorator("class", 42)
class ComplexClass:
    def __init__(self):
        self.value = 100

    @method_decorator
    def simple_decorated_method(self):
        return self.value

    @method_decorator
    @parametrized_decorator("method", 123)
    def double_decorated_method(self):
        return self.value * 2

    # Nested class with decorators
    @class_decorator
    class NestedClass:
        def __init__(self):
            self.nested_value = 200

        @method_decorator
        def nested_method(self):
            return self.nested_value

# Multiple decorators with nested functions
@parametrized_decorator("outer", 1)
@parametrized_decorator("inner", 2)
@parametrized_decorator("more", 3)
def complex_decorated_function():
    # Define a nested function
    def nested_function():
        return "nested"

    return nested_function()

# Decorator that returns a class
def returns_class_decorator(base_name: str):
    @class_decorator
    class GeneratedClass:
        def __init__(self):
            self.name = base_name

        def get_name(self):
            return self.name

    return GeneratedClass

# Use the decorator that returns a class
DynamicClass = returns_class_decorator("dynamic")
"#;
    let stats = index_sources(&[("/base/complex_decorators.py", python_content)], "/base");

    let functions: Vec<_> = (0..stats.functions.len()).map(|i| stats.functions.get(i).clone()).collect();
    let classes: Vec<_> = (0..stats.classes.len()).map(|i| stats.classes.get(i).clone()).collect();

    classes
        .iter()
        .find(|c| c.name == "ComplexClass")
        .expect("Should find ComplexClass");
    classes
        .iter()
        .find(|c| {
            c.name == "NestedClass"
                && !c.context.parent_context.is_empty()
                && c.context.parent_context.iter().any(|p| p.name == "ComplexClass")
        })
        .expect("Should find NestedClass inside ComplexClass");
    functions
        .iter()
        .find(|f| f.name == "complex_decorated_function")
        .expect("Should find complex_decorated_function");
    functions
        .iter()
        .find(|f| {
            f.name == "simple_decorated_method"
                && f.context.parent_context.iter().any(|p| p.name == "ComplexClass")
        })
        .expect("Should find simple_decorated_method");
    functions
        .iter()
        .find(|f| {
            f.name == "double_decorated_method"
                && f.context.parent_context.iter().any(|p| p.name == "ComplexClass")
        })
        .expect("Should find double_decorated_method");
    classes
        .iter()
        .find(|c| c.name == "GeneratedClass")
        .expect("Should find GeneratedClass");

    let (func_count, class_count, syntax_errors, io_errors, other_errors) = stats.get_counts();
    assert!(func_count >= 6, "Should find at least 6 functions, found {}", func_count);
    assert!(class_count >= 3, "Should find at least 3 classes, found {}", class_count);
    assert_eq!(syntax_errors, 0, "Should have no syntax errors");
    assert_eq!(io_errors, 0, "Should have no I/O errors");
    assert_eq!(other_errors, 0, "Should have no other errors");
}

#[test]
fn test_end_to_end_single_definition() {
    // A file whose single definition sits on line 5: indexing then
    // searching for its exact name yields one result with the original
    // line and a path index that resolves to the file, at the
    // exact-match score.
    let content = "\n\n\n\ndef f_five(): pass\n";
    let file = "/root/project/main.py";
    let stats = index_sources(&[(file, content)], "/root/project");

    let (results, metrics) = search_symbols(
        "f_five",
        &stats.functions,
        &stats.classes,
        &stats.path_registry,
        false,
    );
    assert_eq!(results.len(), 1);
    assert_eq!(metrics.results_count, 1);
    let (symbol, score) = &results[0];
    assert_eq!(symbol.name, "f_five");
    assert_eq!(symbol.context.line_number, 5);
    assert!(*score >= 1000);
    assert_eq!(
        stats.path_registry.get_path(symbol.context.file_path_index).as_str(),
        file
    );

    // the same lookup through the query server yields one record with the
    // protocol's zero-based line
    let (records, metrics) = handle_workspace_symbol_request(
        "f_five",
        &stats.functions,
        &stats.classes,
        &stats.path_registry,
    );
    assert!(metrics.is_some());
    assert_eq!(records.len(), 1);
    assert_eq!(records[0].name, "f_five");
    assert_eq!(records[0].line, 4);
}
