//! The symbol data model: kinds, positions, ranges, and the nested
//! symbol forest that one indexed file carries.

use vstd::prelude::*;

verus! {

/// Closed category tag for a symbol.
#[derive(Debug, Clone, Copy, PartialEq, Eq, Structural)]
pub enum SymbolKind {
    Class,
    Function,
    Method,
    Variable,
    Constant,
    Interface,
    Enum,
    Module,
    Property,
    Constructor,
    Field,
    EnumMember,
    Type,
    Namespace,
}

impl SymbolKind {
    /// The lowercase-with-underscore wire name of this kind.
    pub open spec fn as_str_spec(self) -> Seq<char> {
        match self {
            SymbolKind::Class => "class"@,
            SymbolKind::Function => "function"@,
            SymbolKind::Method => "method"@,
            SymbolKind::Variable => "variable"@,
            SymbolKind::Constant => "constant"@,
            SymbolKind::Interface => "interface"@,
            SymbolKind::Enum => "enum"@,
            SymbolKind::Module => "module"@,
            SymbolKind::Property => "property"@,
            SymbolKind::Constructor => "constructor"@,
            SymbolKind::Field => "field"@,
            SymbolKind::EnumMember => "enum_member"@,
            SymbolKind::Type => "type"@,
            SymbolKind::Namespace => "namespace"@,
        }
    }

    pub fn as_str(&self) -> (r: &'static str)
        ensures
            r@ == self.as_str_spec(),
    {
        match self {
            SymbolKind::Class => "class",
            SymbolKind::Function => "function",
            SymbolKind::Method => "method",
            SymbolKind::Variable => "variable",
            SymbolKind::Constant => "constant",
            SymbolKind::Interface => "interface",
            SymbolKind::Enum => "enum",
            SymbolKind::Module => "module",
            SymbolKind::Property => "property",
            SymbolKind::Constructor => "constructor",
            SymbolKind::Field => "field",
            SymbolKind::EnumMember => "enum_member",
            SymbolKind::Type => "type",
            SymbolKind::Namespace => "namespace",
        }
    }
}

/// A point in a source file: 1-based line, 0-based column.
#[derive(Debug, Clone, Copy, PartialEq, Eq, Structural)]
pub struct Position {
    pub line: usize,
    pub column: usize,
}

/// The line/column extent of a symbol.
#[derive(Debug, Clone, Copy, PartialEq, Eq, Structural)]
pub struct Range {
    pub start: Position,
    pub end: Position,
}

/// Mathematical model of one symbol, with its children as a sequence.
pub struct SymbolView {
    pub name: Seq<char>,
    pub kind: SymbolKind,
    pub detail: Option<Seq<char>>,
    pub range: Range,
    pub children: Seq<SymbolView>,
}

/// One named symbol in the containment forest of a file.
#[derive(Debug)]
pub struct Symbol {
    pub name: String,
    pub kind: SymbolKind,
    pub detail: Option<String>,
    pub range: Range,
    pub children: Vec<Symbol>,
}

/// The models of a sequence of symbols, in order.
pub open spec fn symbols_view(v: Seq<Symbol>) -> Seq<SymbolView>
    decreases v,
{
    if v.len() == 0 {
        Seq::empty()
    } else {
        symbols_view(v.subrange(0, v.len() - 1)).push(v[v.len() - 1]@)
    }
}

/// Appending a symbol appends its model.
pub proof fn lemma_symbols_view_push(v: Seq<Symbol>, x: Symbol)
    ensures
        symbols_view(v.push(x)) == symbols_view(v).push(x@),
{
    assert(v.push(x).subrange(0, v.len() as int) =~= v);
}

/// The model of a symbol sequence is element-wise.
pub proof fn lemma_symbols_view_index(v: Seq<Symbol>)
    ensures
        symbols_view(v).len() == v.len(),
        forall|i: int| 0 <= i < v.len() ==> symbols_view(v)[i] == v[i]@,
    decreases v.len(),
{
    if v.len() > 0 {
        let dl = v.subrange(0, v.len() - 1);
        lemma_symbols_view_index(dl);
        assert(symbols_view(v) == symbols_view(dl).push(v[v.len() - 1]@));
        assert forall|i: int| 0 <= i < v.len() implies symbols_view(v)[i] == v[i]@ by {
            if i < v.len() - 1 {
                assert(dl[i] == v[i]);
                assert(symbols_view(v)[i] == symbols_view(dl)[i]);
            }
        }
    }
}

impl View for Symbol {
    type V = SymbolView;

    open spec fn view(&self) -> SymbolView
        decreases self,
    {
        SymbolView {
            name: self.name@,
            kind: self.kind,
            detail: match self.detail {
                Option::Some(d) => Option::Some(d@),
                Option::None => Option::None,
            },
            range: self.range,
            children: symbols_view(self.children@),
        }
    }
}

/// The index of one source file: its project-relative path, language
/// id, and top-level symbols in order.
pub struct FileMapView {
    pub path: Seq<char>,
    pub language: Seq<char>,
    pub symbols: Seq<SymbolView>,
}

/// The index built for one source file.
#[derive(Debug)]
pub struct FileMap {
    pub path: String,
    pub language: String,
    pub symbols: Vec<Symbol>,
}

impl View for FileMap {
    type V = FileMapView;

    open spec fn view(&self) -> FileMapView {
        FileMapView {
            path: self.path@,
            language: self.language@,
            symbols: symbols_view(self.symbols@),
        }
    }
}

impl DeepView for FileMap {
    type V = FileMapView;

    open spec fn deep_view(&self) -> FileMapView {
        self@
    }
}

} // verus!
