//! Language detection from a file path's extension.

use vstd::prelude::*;

verus! {

/// The languages the indexer can parse.
#[derive(Debug, Clone, Copy, PartialEq, Eq, Structural)]
pub enum Language {
    Python,
    TypeScript,
    Tsx,
    JavaScript,
    Jsx,
    Go,
    Rust,
    Java,
    C,
    Cpp,
    Ruby,
    Markdown,
    Swift,
    ObjC,
    Kotlin,
    CSharp,
}

impl Language {
    /// The identifier this language carries in rendered output.
    pub open spec fn as_str_spec(self) -> Seq<char> {
        match self {
            Language::Python => "python"@,
            Language::TypeScript => "typescript"@,
            Language::Tsx => "tsx"@,
            Language::JavaScript => "javascript"@,
            Language::Jsx => "jsx"@,
            Language::Go => "go"@,
            Language::Rust => "rust"@,
            Language::Java => "java"@,
            Language::C => "c"@,
            Language::Cpp => "cpp"@,
            Language::Ruby => "ruby"@,
            Language::Markdown => "markdown"@,
            Language::Swift => "swift"@,
            Language::ObjC => "objc"@,
            Language::Kotlin => "kotlin"@,
            Language::CSharp => "csharp"@,
        }
    }

    pub fn as_str(&self) -> (r: &'static str)
        ensures
            r@ == self.as_str_spec(),
    {
        match self {
            Language::Python => "python",
            Language::TypeScript => "typescript",
            Language::Tsx => "tsx",
            Language::JavaScript => "javascript",
            Language::Jsx => "jsx",
            Language::Go => "go",
            Language::Rust => "rust",
            Language::Java => "java",
            Language::C => "c",
            Language::Cpp => "cpp",
            Language::Ruby => "ruby",
            Language::Markdown => "markdown",
            Language::Swift => "swift",
            Language::ObjC => "objc",
            Language::Kotlin => "kotlin",
            Language::CSharp => "csharp",
        }
    }
}

/// The position of the last occurrence of `c` strictly before index `i`,
/// or -1 when there is none.
pub open spec fn last_pos_before(p: Seq<char>, c: char, i: int) -> int
    decreases i,
{
    if i <= 0 {
        -1
    } else if p[i - 1] == c {
        i - 1
    } else {
        last_pos_before(p, c, i - 1)
    }
}

/// The position of the last occurrence of `c` in `p`, or -1 when absent.
pub open spec fn last_pos(p: Seq<char>, c: char) -> int {
    last_pos_before(p, c, p.len() as int)
}

/// The extension of a path: the run of characters after the last dot of
/// its file name, provided that dot is not the file name's first
/// character. A file name with no dot, or only a leading dot, has none.
pub open spec fn ext_spec(p: Seq<char>) -> Option<Seq<char>> {
    let name_start = last_pos(p, '/') + 1;
    let dot = last_pos(p, '.');
    if dot > name_start {
        Option::Some(p.subrange(dot + 1, p.len() as int))
    } else {
        Option::None
    }
}

/// The language that an extension resolves to.
pub open spec fn language_of_ext(e: Seq<char>) -> Option<Language> {
    if e == "py"@ || e == "pyi"@ {
        Option::Some(Language::Python)
    } else if e == "ts"@ {
        Option::Some(Language::TypeScript)
    } else if e == "tsx"@ {
        Option::Some(Language::Tsx)
    } else if e == "js"@ || e == "mjs"@ || e == "cjs"@ {
        Option::Some(Language::JavaScript)
    } else if e == "jsx"@ {
        Option::Some(Language::Jsx)
    } else if e == "go"@ {
        Option::Some(Language::Go)
    } else if e == "rs"@ {
        Option::Some(Language::Rust)
    } else if e == "java"@ {
        Option::Some(Language::Java)
    } else if e == "c"@ || e == "h"@ {
        Option::Some(Language::C)
    } else if e == "cpp"@ || e == "cc"@ || e == "cxx"@ || e == "hpp"@ || e == "hxx"@ {
        Option::Some(Language::Cpp)
    } else if e == "rb"@ {
        Option::Some(Language::Ruby)
    } else if e == "md"@ || e == "markdown"@ {
        Option::Some(Language::Markdown)
    } else if e == "swift"@ {
        Option::Some(Language::Swift)
    } else if e == "m"@ || e == "mm"@ {
        Option::Some(Language::ObjC)
    } else if e == "kt"@ || e == "kts"@ {
        Option::Some(Language::Kotlin)
    } else if e == "cs"@ {
        Option::Some(Language::CSharp)
    } else {
        Option::None
    }
}

/// The language a path resolves to, through its extension.
pub open spec fn detect_spec(p: Seq<char>) -> Option<Language> {
    match ext_spec(p) {
        Option::Some(e) => language_of_ext(e),
        Option::None => Option::None,
    }
}

/// The position of the last occurrence of `c` in `path`, as an exec
/// computation; -1 is reported as `None`.
pub fn find_last(path: &str, c: char) -> (r: Option<usize>)
    ensures
        match r {
            Option::Some(i) => last_pos(path@, c) == i as int && (i as int) < path@.len(),
            Option::None => last_pos(path@, c) == -1,
        },
{
    let len = path.unicode_len();
    let mut i: usize = 0;
    let mut found: Option<usize> = Option::None;
    while i < len
        invariant
            0 <= i <= len,
            len == path@.len(),
            match found {
                Option::Some(f) => last_pos_before(path@, c, i as int) == f as int && f < i,
                Option::None => last_pos_before(path@, c, i as int) == -1,
            },
        decreases len - i,
    {
        if path.get_char(i) == c {
            found = Option::Some(i);
        }
        i += 1;
    }
    found
}

/// Detect the language of a source file from its path.
pub fn detect(path: &str) -> (r: Option<Language>)
    ensures
        r == detect_spec(path@),
{
    let len = path.unicode_len();
    let name_start: usize = match find_last(path, '/') {
        Option::Some(i) => i + 1,
        Option::None => 0,
    };
    let dot: usize = match find_last(path, '.') {
        Option::Some(i) => i,
        Option::None => {
            return Option::None;
        },
    };
    if dot <= name_start {
        return Option::None;
    }
    let ext = path.substring_char(dot + 1, len);
    let r = if crate::text::str_eq_str(ext, "py") || crate::text::str_eq_str(ext, "pyi") {
        Option::Some(Language::Python)
    } else if crate::text::str_eq_str(ext, "ts") {
        Option::Some(Language::TypeScript)
    } else if crate::text::str_eq_str(ext, "tsx") {
        Option::Some(Language::Tsx)
    } else if crate::text::str_eq_str(ext, "js") || crate::text::str_eq_str(ext, "mjs")
        || crate::text::str_eq_str(ext, "cjs") {
        Option::Some(Language::JavaScript)
    } else if crate::text::str_eq_str(ext, "jsx") {
        Option::Some(Language::Jsx)
    } else if crate::text::str_eq_str(ext, "go") {
        Option::Some(Language::Go)
    } else if crate::text::str_eq_str(ext, "rs") {
        Option::Some(Language::Rust)
    } else if crate::text::str_eq_str(ext, "java") {
        Option::Some(Language::Java)
    } else if crate::text::str_eq_str(ext, "c") || crate::text::str_eq_str(ext, "h") {
        Option::Some(Language::C)
    } else if crate::text::str_eq_str(ext, "cpp") || crate::text::str_eq_str(ext, "cc")
        || crate::text::str_eq_str(ext, "cxx") || crate::text::str_eq_str(ext, "hpp")
        || crate::text::str_eq_str(ext, "hxx") {
        Option::Some(Language::Cpp)
    } else if crate::text::str_eq_str(ext, "rb") {
        Option::Some(Language::Ruby)
    } else if crate::text::str_eq_str(ext, "md") || crate::text::str_eq_str(ext, "markdown") {
        Option::Some(Language::Markdown)
    } else if crate::text::str_eq_str(ext, "swift") {
        Option::Some(Language::Swift)
    } else if crate::text::str_eq_str(ext, "m") || crate::text::str_eq_str(ext, "mm") {
        Option::Some(Language::ObjC)
    } else if crate::text::str_eq_str(ext, "kt") || crate::text::str_eq_str(ext, "kts") {
        Option::Some(Language::Kotlin)
    } else if crate::text::str_eq_str(ext, "cs") {
        Option::Some(Language::CSharp)
    } else {
        Option::None
    };
    r
}

} // verus!
