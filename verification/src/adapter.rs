//! The trusted boundary to the tree-sitter parsing library: the
//! per-language concrete-syntax parser and its structural query are
//! external collaborators, reached only through the wrappers in this
//! module. Parsing is a function of the grammar, the query source and
//! the code alone — no randomness, time or environment — so each
//! wrapper's result is named by the `ts_stream` specification
//! function, and everything downstream is verified against that name.

use vstd::prelude::*;

use crate::detector::Language;
use crate::extractor::{ExtractError, RawCapture, RawMatch, RawMatchView};

verus! {

/// The name of the capture stream that parsing yields: for a language,
/// a structural query source and a source text, either the stream of
/// matches (each match a list of captures), or nothing when the
/// grammar is rejected, parsing yields no tree, or the query does not
/// compile. The stream depends on these three arguments alone.
pub uninterp spec fn ts_stream(lang: Language, query: Seq<char>, code: Seq<char>) -> Option<
    Seq<RawMatchView>,
>;

#[verifier::external_type_specification]
#[verifier::external_body]
pub struct ExTsLanguageFn(tree_sitter_language::LanguageFn);

#[verifier::external_type_specification]
#[verifier::external_body]
pub struct ExTsTree(tree_sitter::Tree);

#[verifier::external_type_specification]
#[verifier::external_body]
pub struct ExTsQuery(tree_sitter::Query);

#[verifier::external_type_specification]
#[verifier::external_body]
pub struct ExTsQueryCapture<'tree>(tree_sitter::QueryCapture<'tree>);

/// Relies on tree_sitter::QueryCursor::matches and on
/// streaming_iterator::StreamingIterator::next: every match the query
/// produces on the tree, in the order found, each capture converted to
/// a plain record by `capture_record`. The text provider hands each
/// node its bytes through a checked slice, so a source shorter than
/// the tree's spans yields empty text rather than a panic.
#[verifier::external_body]
fn collect_matches(
    q: &tree_sitter::Query,
    t: &tree_sitter::Tree,
    code: &str,
) -> Vec<RawMatch> {
    let bytes = code.as_bytes();
    let mut cursor = tree_sitter::QueryCursor::new();
    let mut out: Vec<RawMatch> = Vec::new();
    let mut ms = cursor.matches(q, t.root_node(), |n: tree_sitter::Node<'_>| {
        core::iter::once(bytes.get(n.start_byte()..n.end_byte()).unwrap_or(&[]))
    });
    while let Some(m) = streaming_iterator::StreamingIterator::next(&mut ms) {
        let mut captures: Vec<RawCapture> = Vec::new();
        for c in m.captures() {
            captures.push(capture_record(q.capture_names(), c, code));
        }
        out.push(RawMatch { captures });
    }
    out
}

/// Relies on tree_sitter::Node's accessors (start_byte, end_byte,
/// start_position, end_position) and on the query's capture name
/// table: one capture copied field for field into a plain record. The
/// label and text lookups are checked, defaulting to empty, so an
/// index or span beyond its slice cannot panic.
#[verifier::external_body]
fn capture_record(names: &[&str], c: &tree_sitter::QueryCapture<'_>, code: &str) -> RawCapture {
    let span = code.as_bytes().get(c.node.start_byte()..c.node.end_byte());
    RawCapture {
        label: names.get(c.index as usize).copied().unwrap_or("").to_string(),
        text: span.and_then(|b| core::str::from_utf8(b).ok()).unwrap_or("").to_string(),
        start_byte: c.node.start_byte(),
        end_byte: c.node.end_byte(),
        start_row: c.node.start_position().row,
        start_col: c.node.start_position().column,
        end_row: c.node.end_position().row,
        end_col: c.node.end_position().column,
    }
}

/// Relies on tree_sitter_python::LANGUAGE and on tree_sitter's
/// Parser::new, Parser::set_language, Parser::parse and Query::new:
/// run the structural query over Python code. Deterministic in the
/// query source and the code, so the result is `ts_stream`.
#[verifier::external_body]
pub(crate) fn run_query_python(query: &str, code: &str) -> (r: Result<Vec<RawMatch>, ExtractError>)
    ensures
        match r {
            Result::Ok(ms) => ts_stream(Language::Python, query@, code@) == Option::Some(
                ms.deep_view(),
            ),
            Result::Err(_) => ts_stream(Language::Python, query@, code@) is None,
        },
{
    run_query_with(&tree_sitter_python::LANGUAGE, query, code)
}

/// Relies on tree_sitter_typescript::LANGUAGE_TYPESCRIPT, as
/// `run_query_python` relies on its grammar.
#[verifier::external_body]
pub(crate) fn run_query_typescript(query: &str, code: &str) -> (r: Result<
    Vec<RawMatch>,
    ExtractError,
>)
    ensures
        match r {
            Result::Ok(ms) => ts_stream(Language::TypeScript, query@, code@) == Option::Some(
                ms.deep_view(),
            ),
            Result::Err(_) => ts_stream(Language::TypeScript, query@, code@) is None,
        },
{
    run_query_with(&tree_sitter_typescript::LANGUAGE_TYPESCRIPT, query, code)
}

/// Relies on tree_sitter_typescript::LANGUAGE_TSX, as
/// `run_query_python` relies on its grammar.
#[verifier::external_body]
pub(crate) fn run_query_tsx(query: &str, code: &str) -> (r: Result<Vec<RawMatch>, ExtractError>)
    ensures
        match r {
            Result::Ok(ms) => ts_stream(Language::Tsx, query@, code@) == Option::Some(
                ms.deep_view(),
            ),
            Result::Err(_) => ts_stream(Language::Tsx, query@, code@) is None,
        },
{
    run_query_with(&tree_sitter_typescript::LANGUAGE_TSX, query, code)
}

/// Relies on tree_sitter_javascript::LANGUAGE, as `run_query_python`
/// relies on its grammar.
#[verifier::external_body]
pub(crate) fn run_query_javascript(query: &str, code: &str) -> (r: Result<
    Vec<RawMatch>,
    ExtractError,
>)
    ensures
        match r {
            Result::Ok(ms) => ts_stream(Language::JavaScript, query@, code@) == Option::Some(
                ms.deep_view(),
            ),
            Result::Err(_) => ts_stream(Language::JavaScript, query@, code@) is None,
        },
{
    run_query_with(&tree_sitter_javascript::LANGUAGE, query, code)
}

/// Relies on tree_sitter_javascript::LANGUAGE (the JavaScript grammar
/// also parses JSX), as `run_query_python` relies on its grammar.
#[verifier::external_body]
pub(crate) fn run_query_jsx(query: &str, code: &str) -> (r: Result<Vec<RawMatch>, ExtractError>)
    ensures
        match r {
            Result::Ok(ms) => ts_stream(Language::Jsx, query@, code@) == Option::Some(
                ms.deep_view(),
            ),
            Result::Err(_) => ts_stream(Language::Jsx, query@, code@) is None,
        },
{
    run_query_with(&tree_sitter_javascript::LANGUAGE, query, code)
}

/// Relies on tree_sitter_go::LANGUAGE, as `run_query_python` relies on
/// its grammar.
#[verifier::external_body]
pub(crate) fn run_query_go(query: &str, code: &str) -> (r: Result<Vec<RawMatch>, ExtractError>)
    ensures
        match r {
            Result::Ok(ms) => ts_stream(Language::Go, query@, code@) == Option::Some(
                ms.deep_view(),
            ),
            Result::Err(_) => ts_stream(Language::Go, query@, code@) is None,
        },
{
    run_query_with(&tree_sitter_go::LANGUAGE, query, code)
}

/// Relies on tree_sitter_rust::LANGUAGE, as `run_query_python` relies
/// on its grammar.
#[verifier::external_body]
pub(crate) fn run_query_rust(query: &str, code: &str) -> (r: Result<Vec<RawMatch>, ExtractError>)
    ensures
        match r {
            Result::Ok(ms) => ts_stream(Language::Rust, query@, code@) == Option::Some(
                ms.deep_view(),
            ),
            Result::Err(_) => ts_stream(Language::Rust, query@, code@) is None,
        },
{
    run_query_with(&tree_sitter_rust::LANGUAGE, query, code)
}

/// Relies on tree_sitter_java::LANGUAGE, as `run_query_python` relies
/// on its grammar.
#[verifier::external_body]
pub(crate) fn run_query_java(query: &str, code: &str) -> (r: Result<Vec<RawMatch>, ExtractError>)
    ensures
        match r {
            Result::Ok(ms) => ts_stream(Language::Java, query@, code@) == Option::Some(
                ms.deep_view(),
            ),
            Result::Err(_) => ts_stream(Language::Java, query@, code@) is None,
        },
{
    run_query_with(&tree_sitter_java::LANGUAGE, query, code)
}

/// Relies on tree_sitter_c::LANGUAGE, as `run_query_python` relies on
/// its grammar.
#[verifier::external_body]
pub(crate) fn run_query_c(query: &str, code: &str) -> (r: Result<Vec<RawMatch>, ExtractError>)
    ensures
        match r {
            Result::Ok(ms) => ts_stream(Language::C, query@, code@) == Option::Some(
                ms.deep_view(),
            ),
            Result::Err(_) => ts_stream(Language::C, query@, code@) is None,
        },
{
    run_query_with(&tree_sitter_c::LANGUAGE, query, code)
}

/// Relies on tree_sitter_cpp::LANGUAGE, as `run_query_python` relies
/// on its grammar.
#[verifier::external_body]
pub(crate) fn run_query_cpp(query: &str, code: &str) -> (r: Result<Vec<RawMatch>, ExtractError>)
    ensures
        match r {
            Result::Ok(ms) => ts_stream(Language::Cpp, query@, code@) == Option::Some(
                ms.deep_view(),
            ),
            Result::Err(_) => ts_stream(Language::Cpp, query@, code@) is None,
        },
{
    run_query_with(&tree_sitter_cpp::LANGUAGE, query, code)
}

/// Relies on tree_sitter_ruby::LANGUAGE, as `run_query_python` relies
/// on its grammar.
#[verifier::external_body]
pub(crate) fn run_query_ruby(query: &str, code: &str) -> (r: Result<Vec<RawMatch>, ExtractError>)
    ensures
        match r {
            Result::Ok(ms) => ts_stream(Language::Ruby, query@, code@) == Option::Some(
                ms.deep_view(),
            ),
            Result::Err(_) => ts_stream(Language::Ruby, query@, code@) is None,
        },
{
    run_query_with(&tree_sitter_ruby::LANGUAGE, query, code)
}

/// Relies on tree_sitter_md::LANGUAGE (the Markdown block grammar), as
/// `run_query_python` relies on its grammar.
#[verifier::external_body]
pub(crate) fn run_query_markdown(query: &str, code: &str) -> (r: Result<
    Vec<RawMatch>,
    ExtractError,
>)
    ensures
        match r {
            Result::Ok(ms) => ts_stream(Language::Markdown, query@, code@) == Option::Some(
                ms.deep_view(),
            ),
            Result::Err(_) => ts_stream(Language::Markdown, query@, code@) is None,
        },
{
    run_query_with(&tree_sitter_md::LANGUAGE, query, code)
}

/// Relies on tree_sitter_swift::LANGUAGE, as `run_query_python` relies
/// on its grammar.
#[verifier::external_body]
pub(crate) fn run_query_swift(query: &str, code: &str) -> (r: Result<Vec<RawMatch>, ExtractError>)
    ensures
        match r {
            Result::Ok(ms) => ts_stream(Language::Swift, query@, code@) == Option::Some(
                ms.deep_view(),
            ),
            Result::Err(_) => ts_stream(Language::Swift, query@, code@) is None,
        },
{
    run_query_with(&tree_sitter_swift::LANGUAGE, query, code)
}

/// Relies on tree_sitter_objc::LANGUAGE, as `run_query_python` relies
/// on its grammar.
#[verifier::external_body]
pub(crate) fn run_query_objc(query: &str, code: &str) -> (r: Result<Vec<RawMatch>, ExtractError>)
    ensures
        match r {
            Result::Ok(ms) => ts_stream(Language::ObjC, query@, code@) == Option::Some(
                ms.deep_view(),
            ),
            Result::Err(_) => ts_stream(Language::ObjC, query@, code@) is None,
        },
{
    run_query_with(&tree_sitter_objc::LANGUAGE, query, code)
}

/// Relies on tree_sitter_kotlin_ng::LANGUAGE, as `run_query_python`
/// relies on its grammar.
#[verifier::external_body]
pub(crate) fn run_query_kotlin(query: &str, code: &str) -> (r: Result<Vec<RawMatch>, ExtractError>)
    ensures
        match r {
            Result::Ok(ms) => ts_stream(Language::Kotlin, query@, code@) == Option::Some(
                ms.deep_view(),
            ),
            Result::Err(_) => ts_stream(Language::Kotlin, query@, code@) is None,
        },
{
    run_query_with(&tree_sitter_kotlin_ng::LANGUAGE, query, code)
}

/// Relies on tree_sitter_c_sharp::LANGUAGE, as `run_query_python`
/// relies on its grammar.
#[verifier::external_body]
pub(crate) fn run_query_csharp(query: &str, code: &str) -> (r: Result<Vec<RawMatch>, ExtractError>)
    ensures
        match r {
            Result::Ok(ms) => ts_stream(Language::CSharp, query@, code@) == Option::Some(
                ms.deep_view(),
            ),
            Result::Err(_) => ts_stream(Language::CSharp, query@, code@) is None,
        },
{
    run_query_with(&tree_sitter_c_sharp::LANGUAGE, query, code)
}

/// Relies on tree_sitter's Parser::new, Parser::set_language,
/// Parser::parse and Query::new: the shared tail of every
/// `run_query_*` wrapper — set the grammar, parse, compile the query,
/// collect the matches.
#[verifier::external_body]
fn run_query_with(
    g: &tree_sitter_language::LanguageFn,
    query: &str,
    code: &str,
) -> Result<Vec<RawMatch>, ExtractError> {
    let gl: tree_sitter::Language = (*g).into();
    let mut parser = tree_sitter::Parser::new();
    if parser.set_language(&gl).is_err() {
        return Err(ExtractError::Language);
    }
    let tree = parser.parse(code, None).ok_or(ExtractError::Parse)?;
    let q = tree_sitter::Query::new(&gl, query).map_err(|_| ExtractError::Query)?;
    Ok(collect_matches(&q, &tree, code))
}

} // verus!
