use agent_codemap::markdown::{render, render_all};
use agent_codemap::output::render_single;
use agent_codemap::symbol::{FileMap, Position, Range, Symbol, SymbolKind};

fn make_map(path: &str) -> FileMap {
    FileMap {
        path: path.to_string(),
        language: "rust".to_string(),
        symbols: vec![Symbol {
            name: "test".to_string(),
            kind: SymbolKind::Function,
            detail: None,
            range: Range {
                start: Position { line: 1, column: 0 },
                end: Position { line: 1, column: 10 },
            },
            children: vec![],
        }],
    }
}

#[test]
fn test_render_single() {
    let map = make_map("test.rs");
    let output = render_single(&map);
    assert!(output.contains("# OUTLINE"));
    assert!(output.contains("[function]"));
    assert!(output.contains("`test`"));
}

#[test]
fn test_render_single_exact() {
    let map = make_map("test.rs");
    let output = render_single(&map);
    assert_eq!(output, "# OUTLINE: test.rs\n\n- [function] `test` (line 1)\n");
}

#[test]
fn test_render_exact() {
    let map = make_map("test.rs");
    let output = render(&map);
    assert_eq!(output, "# test.rs\n\n- [function] `test` (line 1)\n");
}

#[test]
fn test_render_nested_children_indent() {
    let child = Symbol {
        name: "inner".to_string(),
        kind: SymbolKind::Method,
        detail: None,
        range: Range {
            start: Position { line: 2, column: 4 },
            end: Position { line: 3, column: 0 },
        },
        children: vec![],
    };
    let parent = Symbol {
        name: "Outer".to_string(),
        kind: SymbolKind::Class,
        detail: None,
        range: Range {
            start: Position { line: 1, column: 0 },
            end: Position { line: 4, column: 0 },
        },
        children: vec![child],
    };
    let map = FileMap {
        path: "a.rs".to_string(),
        language: "rust".to_string(),
        symbols: vec![parent],
    };
    let output = render(&map);
    assert_eq!(
        output,
        "# a.rs\n\n- [class] `Outer` (line 1)\n  - [method] `inner` (line 2)\n"
    );
}

#[test]
fn test_render_all_joins_with_newline() {
    let maps = vec![make_map("a.rs"), make_map("b.rs")];
    let output = render_all(&maps);
    assert_eq!(
        output,
        "# a.rs\n\n- [function] `test` (line 1)\n\n# b.rs\n\n- [function] `test` (line 1)\n"
    );
}

#[test]
fn test_render_large_line_number() {
    let mut map = make_map("n.rs");
    map.symbols[0].range.start.line = 1234;
    let output = render(&map);
    assert_eq!(output, "# n.rs\n\n- [function] `test` (line 1234)\n");
}

#[test]
fn test_render_all_empty() {
    let maps: Vec<FileMap> = Vec::new();
    assert_eq!(render_all(&maps), "");
}
