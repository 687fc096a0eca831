use agent_codemap::detector::Language;
use agent_codemap::extractor::ExtractError;
use agent_codemap::extractor::{
    extract_from_source, extract_symbols, parse_kind, symbols_from_matches, RawCapture, RawMatch,
};
use agent_codemap::symbol::{Symbol, SymbolKind};

fn capture(label: &str, text: &str, start: usize, end: usize, row: usize) -> RawCapture {
    RawCapture {
        label: label.to_string(),
        text: text.to_string(),
        start_byte: start,
        end_byte: end,
        start_row: row,
        start_col: 0,
        end_row: row,
        end_col: 0,
    }
}

fn named_match(name: &str, label: &str, start: usize, end: usize, row: usize) -> RawMatch {
    RawMatch {
        captures: vec![
            capture("name", name, start, start + 1, row),
            capture(label, name, start, end, row),
        ],
    }
}

fn names(symbols: &[Symbol]) -> Vec<String> {
    let mut out = Vec::new();
    for s in symbols {
        out.push(s.name.clone());
        out.extend(names(&s.children));
    }
    out
}

#[test]
fn test_parse_kind_priority() {
    assert_eq!(parse_kind("definition.enum_member"), SymbolKind::EnumMember);
    assert_eq!(parse_kind("enum"), SymbolKind::Enum);
    assert_eq!(parse_kind("class"), SymbolKind::Class);
    assert_eq!(parse_kind("method"), SymbolKind::Method);
    assert_eq!(parse_kind("function"), SymbolKind::Function);
    assert_eq!(parse_kind("interface"), SymbolKind::Interface);
    assert_eq!(parse_kind("field"), SymbolKind::Field);
    assert_eq!(parse_kind("property"), SymbolKind::Property);
    assert_eq!(parse_kind("variable"), SymbolKind::Variable);
    assert_eq!(parse_kind("constant"), SymbolKind::Constant);
    assert_eq!(parse_kind("module"), SymbolKind::Module);
    assert_eq!(parse_kind("namespace"), SymbolKind::Namespace);
    assert_eq!(parse_kind("type"), SymbolKind::Type);
    assert_eq!(parse_kind("something_else"), SymbolKind::Function);
}

#[test]
fn test_parse_kind_marker_inside_longer_label() {
    // an enum-member label also contains "enum": the priority order decides
    assert_eq!(parse_kind("my_enum_member_tag"), SymbolKind::EnumMember);
    assert_eq!(parse_kind("typed_class"), SymbolKind::Class);
}

#[test]
fn test_nesting_contained_span_becomes_child() {
    let ms = vec![
        named_match("outer", "function", 0, 40, 0),
        named_match("inner", "function", 10, 20, 1),
    ];
    let forest = symbols_from_matches(&ms);
    assert_eq!(forest.len(), 1);
    assert_eq!(forest[0].name, "outer");
    assert_eq!(forest[0].children.len(), 1);
    assert_eq!(forest[0].children[0].name, "inner");
}

#[test]
fn test_nesting_disjoint_spans_stay_roots() {
    let ms = vec![
        named_match("a", "function", 0, 10, 0),
        named_match("b", "function", 20, 30, 1),
    ];
    let forest = symbols_from_matches(&ms);
    assert_eq!(forest.len(), 2);
    assert_eq!(forest[0].name, "a");
    assert_eq!(forest[1].name, "b");
    assert!(forest[0].children.is_empty());
    assert!(forest[1].children.is_empty());
}

#[test]
fn test_dedup_same_name_same_line_first_wins() {
    let mut first = named_match("dup", "class", 0, 10, 3);
    first.captures[1].label = "class".to_string();
    let second = named_match("dup", "function", 12, 20, 3);
    let ms = vec![first, second];
    let forest = symbols_from_matches(&ms);
    assert_eq!(forest.len(), 1);
    assert_eq!(forest[0].name, "dup");
    // the first encountered survives, with its kind
    assert_eq!(forest[0].kind, SymbolKind::Class);
}

#[test]
fn test_sort_is_stable_on_equal_starts() {
    let ms = vec![
        named_match("second", "function", 5, 10, 1),
        named_match("first", "function", 0, 4, 0),
        named_match("third", "function", 5, 9, 2),
    ];
    let forest = symbols_from_matches(&ms);
    let got = names(&forest);
    assert_eq!(got, vec!["first", "second", "third"]);
}

#[test]
fn test_auxiliary_captures_are_discarded() {
    let ms = vec![RawMatch {
        captures: vec![
            capture("_skip", "noise", 50, 60, 9),
            capture("name", "real", 0, 1, 0),
            capture("function", "real", 0, 10, 0),
        ],
    }];
    let forest = symbols_from_matches(&ms);
    assert_eq!(forest.len(), 1);
    assert_eq!(forest[0].name, "real");
    assert_eq!(forest[0].range.start.line, 1);
}

#[test]
fn test_match_without_name_is_skipped() {
    let ms = vec![RawMatch { captures: vec![capture("function", "x", 0, 10, 0)] }];
    let forest = symbols_from_matches(&ms);
    assert!(forest.is_empty());
}

#[test]
fn test_extraction_deterministic() {
    let code = "fn a() {}\nfn b() {}\n";
    let one = extract_symbols(code, &Language::Rust).unwrap();
    let two = extract_symbols(code, &Language::Rust).unwrap();
    assert_eq!(names(&one), names(&two));
    assert_eq!(one.len(), two.len());
}

#[test]
fn test_extract_rust() {
    let code = "fn hello() {}\nstruct S { x: u8 }\nenum E { A }\ntrait T {}\nmod m {}\n";
    let forest = extract_symbols(code, &Language::Rust).unwrap();
    let got = names(&forest);
    assert!(got.contains(&"hello".to_string()));
    assert!(got.contains(&"S".to_string()));
    assert!(got.contains(&"E".to_string()));
    assert!(got.contains(&"T".to_string()));
    assert!(got.contains(&"m".to_string()));
}

#[test]
fn test_extract_rust_nested() {
    let code = "mod outer {\n    fn inner() {}\n}\n";
    let forest = extract_symbols(code, &Language::Rust).unwrap();
    assert_eq!(forest.len(), 1);
    assert_eq!(forest[0].name, "outer");
    assert_eq!(forest[0].kind, SymbolKind::Module);
    assert_eq!(forest[0].children.len(), 1);
    assert_eq!(forest[0].children[0].name, "inner");
}

#[test]
fn test_extract_python() {
    let code = "class Greeter:\n    def greet(self):\n        pass\n";
    let forest = extract_symbols(code, &Language::Python).unwrap();
    assert_eq!(forest.len(), 1);
    assert_eq!(forest[0].name, "Greeter");
    assert_eq!(forest[0].kind, SymbolKind::Class);
    let got = names(&forest);
    assert!(got.contains(&"greet".to_string()));
}

#[test]
fn test_extract_javascript() {
    let code = "function foo() {}\nclass Bar {\n  baz() {}\n}\n";
    let forest = extract_symbols(code, &Language::JavaScript).unwrap();
    let got = names(&forest);
    assert!(got.contains(&"foo".to_string()));
    assert!(got.contains(&"Bar".to_string()));
    assert!(got.contains(&"baz".to_string()));
}

#[test]
fn test_extract_typescript() {
    let code = "interface I { }\nfunction foo(): void {}\nenum E { A }\n";
    let forest = extract_symbols(code, &Language::TypeScript).unwrap();
    let got = names(&forest);
    assert!(got.contains(&"I".to_string()));
    assert!(got.contains(&"foo".to_string()));
    assert!(got.contains(&"E".to_string()));
}

#[test]
fn test_extract_go() {
    let code = "package main\n\nfunc foo() {}\n";
    let forest = extract_symbols(code, &Language::Go).unwrap();
    let got = names(&forest);
    assert!(got.contains(&"foo".to_string()));
}

#[test]
fn test_extract_java() {
    let code = "class A {\n    void m() {}\n}\n";
    let forest = extract_symbols(code, &Language::Java).unwrap();
    let got = names(&forest);
    assert!(got.contains(&"A".to_string()));
    assert!(got.contains(&"m".to_string()));
}

#[test]
fn test_extract_c() {
    let code = "int foo(void) { return 0; }\n";
    let forest = extract_symbols(code, &Language::C).unwrap();
    let got = names(&forest);
    assert!(got.contains(&"foo".to_string()));
}

#[test]
fn test_extract_cpp() {
    let code = "class K {};\nint foo() { return 0; }\n";
    let forest = extract_symbols(code, &Language::Cpp).unwrap();
    let got = names(&forest);
    assert!(got.contains(&"K".to_string()));
    assert!(got.contains(&"foo".to_string()));
}

#[test]
fn test_extract_ruby() {
    let code = "class Foo\n  def bar\n  end\nend\n";
    let forest = extract_symbols(code, &Language::Ruby).unwrap();
    let got = names(&forest);
    assert!(got.contains(&"Foo".to_string()));
    assert!(got.contains(&"bar".to_string()));
}

#[test]
fn test_extract_markdown() {
    let code = "# Title\n\nsome text\n\n## Section\n";
    let forest = extract_symbols(code, &Language::Markdown).unwrap();
    let got = names(&forest);
    assert!(got.iter().any(|n| n.contains("Title")));
    assert!(got.iter().any(|n| n.contains("Section")));
}

#[test]
fn test_extract_swift() {
    let code = "func foo() {}\n";
    let forest = extract_symbols(code, &Language::Swift).unwrap();
    let got = names(&forest);
    assert!(got.contains(&"foo".to_string()));
}

#[test]
fn test_extract_kotlin() {
    let code = "fun foo() {}\nclass Bar\n";
    let forest = extract_symbols(code, &Language::Kotlin).unwrap();
    let got = names(&forest);
    assert!(got.contains(&"foo".to_string()));
    assert!(got.contains(&"Bar".to_string()));
}

#[test]
fn test_extract_csharp() {
    let code = "class A {\n    void M() {}\n}\n";
    let forest = extract_symbols(code, &Language::CSharp).unwrap();
    let got = names(&forest);
    assert!(got.contains(&"A".to_string()));
    assert!(got.contains(&"M".to_string()));
}

#[test]
fn test_extract_objc() {
    let code = "int foo(void) { return 0; }\n";
    let forest = extract_symbols(code, &Language::ObjC).unwrap();
    let got = names(&forest);
    assert!(got.contains(&"foo".to_string()));
}

#[test]
fn test_extract_from_source_sets_path_and_language() {
    let m = extract_from_source("src/lib.rs", "fn hello() {}", &Language::Rust).unwrap();
    assert_eq!(m.path, "src/lib.rs");
    assert_eq!(m.language, "rust");
    assert_eq!(m.symbols.len(), 1);
    assert_eq!(m.symbols[0].name, "hello");
}

#[test]
fn test_extract_error_messages() {
    assert_eq!(ExtractError::Language.message(), "parser rejected the grammar");
    assert_eq!(ExtractError::Parse.message(), "parse failed");
    assert_eq!(ExtractError::Query.message(), "structural query failed to compile");
}

#[test]
fn test_zero_width_span_closes_immediately() {
    let ms = vec![
        named_match("zero", "function", 5, 5, 0),
        named_match("next", "function", 5, 10, 1),
    ];
    let forest = symbols_from_matches(&ms);
    // the zero-width symbol closes as soon as the next start reaches it
    assert_eq!(forest.len(), 2);
    assert_eq!(forest[0].name, "zero");
    assert_eq!(forest[1].name, "next");
}

#[test]
fn test_partial_overlap_nests_at_open_level() {
    // a later span that straddles the open symbol's end is adopted by
    // it rather than rejected; containment is not re-checked here
    let ms = vec![
        named_match("a", "function", 0, 10, 0),
        named_match("b", "function", 5, 20, 1),
    ];
    let forest = symbols_from_matches(&ms);
    assert_eq!(forest.len(), 1);
    assert_eq!(forest[0].name, "a");
    assert_eq!(forest[0].children.len(), 1);
    assert_eq!(forest[0].children[0].name, "b");
}
