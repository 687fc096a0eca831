use agent_codemap::detector::{detect, Language};

#[test]
fn test_detect_python() {
    assert_eq!(detect("test.py"), Some(Language::Python));
    assert_eq!(detect("test.pyi"), Some(Language::Python));
}

#[test]
fn test_detect_typescript() {
    assert_eq!(detect("test.ts"), Some(Language::TypeScript));
    assert_eq!(detect("test.tsx"), Some(Language::Tsx));
}

#[test]
fn test_detect_javascript() {
    assert_eq!(detect("test.js"), Some(Language::JavaScript));
    assert_eq!(detect("test.mjs"), Some(Language::JavaScript));
    assert_eq!(detect("test.cjs"), Some(Language::JavaScript));
    assert_eq!(detect("test.jsx"), Some(Language::Jsx));
}

#[test]
fn test_detect_go() {
    assert_eq!(detect("test.go"), Some(Language::Go));
}

#[test]
fn test_detect_rust() {
    assert_eq!(detect("test.rs"), Some(Language::Rust));
}

#[test]
fn test_detect_java() {
    assert_eq!(detect("Test.java"), Some(Language::Java));
}

#[test]
fn test_detect_c() {
    assert_eq!(detect("test.c"), Some(Language::C));
    assert_eq!(detect("test.h"), Some(Language::C));
}

#[test]
fn test_detect_cpp() {
    assert_eq!(detect("test.cpp"), Some(Language::Cpp));
    assert_eq!(detect("test.cc"), Some(Language::Cpp));
    assert_eq!(detect("test.cxx"), Some(Language::Cpp));
    assert_eq!(detect("test.hpp"), Some(Language::Cpp));
    assert_eq!(detect("test.hxx"), Some(Language::Cpp));
}

#[test]
fn test_detect_ruby() {
    assert_eq!(detect("test.rb"), Some(Language::Ruby));
}

#[test]
fn test_detect_markdown() {
    assert_eq!(detect("test.md"), Some(Language::Markdown));
    assert_eq!(detect("test.markdown"), Some(Language::Markdown));
}

#[test]
fn test_detect_swift() {
    assert_eq!(detect("test.swift"), Some(Language::Swift));
}

#[test]
fn test_detect_objc() {
    assert_eq!(detect("test.m"), Some(Language::ObjC));
    assert_eq!(detect("test.mm"), Some(Language::ObjC));
}

#[test]
fn test_detect_kotlin() {
    assert_eq!(detect("test.kt"), Some(Language::Kotlin));
    assert_eq!(detect("build.gradle.kts"), Some(Language::Kotlin));
}

#[test]
fn test_detect_csharp() {
    assert_eq!(detect("Program.cs"), Some(Language::CSharp));
}

#[test]
fn test_detect_unknown() {
    assert_eq!(detect("test.txt"), None);
    assert_eq!(detect("test"), None);
}

#[test]
fn test_detect_hidden_file_has_no_extension() {
    assert_eq!(detect(".gitignore"), None);
    assert_eq!(detect("dir.rs/file"), None);
}

#[test]
fn test_detect_nested_path() {
    assert_eq!(detect("/some/dir/test.py"), Some(Language::Python));
}

#[test]
fn test_language_as_str() {
    assert_eq!(Language::Python.as_str(), "python");
    assert_eq!(Language::TypeScript.as_str(), "typescript");
    assert_eq!(Language::Tsx.as_str(), "tsx");
    assert_eq!(Language::JavaScript.as_str(), "javascript");
    assert_eq!(Language::Jsx.as_str(), "jsx");
    assert_eq!(Language::Go.as_str(), "go");
    assert_eq!(Language::Rust.as_str(), "rust");
    assert_eq!(Language::Java.as_str(), "java");
    assert_eq!(Language::C.as_str(), "c");
    assert_eq!(Language::Cpp.as_str(), "cpp");
    assert_eq!(Language::Ruby.as_str(), "ruby");
    assert_eq!(Language::Markdown.as_str(), "markdown");
    assert_eq!(Language::Swift.as_str(), "swift");
    assert_eq!(Language::ObjC.as_str(), "objc");
    assert_eq!(Language::Kotlin.as_str(), "kotlin");
    assert_eq!(Language::CSharp.as_str(), "csharp");
}
