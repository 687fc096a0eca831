//! Rendering a file's containment forest as a markdown outline.

use vstd::prelude::*;

use crate::symbol::{FileMap, Symbol, SymbolView};

verus! {

/// The character of one decimal digit.
pub open spec fn digit_char(d: nat) -> char {
    if d == 0 {
        '0'
    } else if d == 1 {
        '1'
    } else if d == 2 {
        '2'
    } else if d == 3 {
        '3'
    } else if d == 4 {
        '4'
    } else if d == 5 {
        '5'
    } else if d == 6 {
        '6'
    } else if d == 7 {
        '7'
    } else if d == 8 {
        '8'
    } else {
        '9'
    }
}

/// The decimal writing of a number, most significant digit first.
pub open spec fn dec_spec(n: nat) -> Seq<char>
    decreases n,
{
    if n < 10 {
        seq![digit_char(n)]
    } else {
        dec_spec(n / 10).push(digit_char(n % 10))
    }
}

/// Append one decimal digit.
fn push_digit(out: &mut String, d: usize)
    requires
        d < 10,
    ensures
        final(out)@ == old(out)@ + seq![digit_char(d as nat)],
{
    proof {
        reveal_strlit("0");
        reveal_strlit("1");
        reveal_strlit("2");
        reveal_strlit("3");
        reveal_strlit("4");
        reveal_strlit("5");
        reveal_strlit("6");
        reveal_strlit("7");
        reveal_strlit("8");
        reveal_strlit("9");
    }
    if d == 0 {
        out.append("0");
    } else if d == 1 {
        out.append("1");
    } else if d == 2 {
        out.append("2");
    } else if d == 3 {
        out.append("3");
    } else if d == 4 {
        out.append("4");
    } else if d == 5 {
        out.append("5");
    } else if d == 6 {
        out.append("6");
    } else if d == 7 {
        out.append("7");
    } else if d == 8 {
        out.append("8");
    } else {
        out.append("9");
    }
    proof {
        assert(out@ =~= old(out)@ + seq![digit_char(d as nat)]);
    }
}

/// Append a number's decimal writing.
fn push_usize(out: &mut String, n: usize)
    ensures
        final(out)@ == old(out)@ + dec_spec(n as nat),
    decreases n,
{
    if n >= 10 {
        push_usize(out, n / 10);
    }
    push_digit(out, n % 10);
    proof {
        assert(out@ =~= old(out)@ + dec_spec(n as nat));
    }
}

/// One outline line and, below it, the symbol's children, each
/// indented two spaces deeper: the line holds the symbol's kind, its
/// name in backticks, and its 1-based start line.
pub open spec fn render_sym_spec(s: SymbolView, indent: Seq<char>) -> Seq<char>
    decreases s, 0int,
{
    indent + "- ["@ + s.kind.as_str_spec() + "] `"@ + s.name + "` (line "@ + dec_spec(
        s.range.start.line as nat,
    ) + ")\n"@ + render_children_at(s.children, indent + "  "@, s.children.len() as int)
}

/// The outline of the first `n` symbols of a sequence, concatenated.
pub open spec fn render_children_at(cs: Seq<SymbolView>, indent: Seq<char>, n: int) -> Seq<char>
    decreases cs, n,
    when n <= cs.len()
{
    if n <= 0 {
        Seq::empty()
    } else {
        render_children_at(cs, indent, n - 1) + render_sym_spec(cs[n - 1], indent)
    }
}

/// The outline of a whole symbol sequence.
pub open spec fn render_forest_spec(cs: Seq<SymbolView>, indent: Seq<char>) -> Seq<char> {
    render_children_at(cs, indent, cs.len() as int)
}

/// A rendered file: its path as a heading, then its outline.
pub open spec fn render_spec(m: crate::symbol::FileMapView) -> Seq<char> {
    "# "@ + m.path + "\n\n"@ + render_forest_spec(m.symbols, Seq::empty())
}

/// Append one symbol's outline, its children indented two spaces
/// deeper than `indent`.
pub fn render_symbol(out: &mut String, sym: &Symbol, indent: &str)
    ensures
        final(out)@ == old(out)@ + render_sym_spec(sym@, indent@),
    decreases *sym,
{
    out.append(indent);
    out.append("- [");
    out.append(sym.kind.as_str());
    out.append("] `");
    out.append(sym.name.as_str());
    out.append("` (line ");
    push_usize(out, sym.range.start.line);
    out.append(")\n");
    let mut child_indent = indent.to_owned();
    child_indent.append("  ");
    let n = sym.children.len();
    let ghost kids = sym@.children;
    proof {
        crate::symbol::lemma_symbols_view_index(sym.children@);
        assert(out@ =~= old(out)@ + indent@ + "- ["@ + sym@.kind.as_str_spec() + "] `"@
            + sym@.name + "` (line "@ + dec_spec(sym@.range.start.line as nat) + ")\n"@
            + render_children_at(kids, child_indent@, 0));
    }
    let mut i: usize = 0;
    while i < n
        invariant
            0 <= i <= n,
            n == sym.children@.len(),
            kids == sym@.children,
            kids.len() == n,
            child_indent@ == indent@ + "  "@,
            out@ == old(out)@ + indent@ + "- ["@ + sym@.kind.as_str_spec() + "] `"@ + sym@.name
                + "` (line "@ + dec_spec(sym@.range.start.line as nat) + ")\n"@
                + render_children_at(kids, child_indent@, i as int),
        decreases n - i,
    {
        proof {
            crate::symbol::lemma_symbols_view_index(sym.children@);
            assert(kids[i as int] == sym.children@[i as int]@);
        }
        render_symbol(out, &sym.children[i], child_indent.as_str());
        proof {
            assert(out@ =~= old(out)@ + indent@ + "- ["@ + sym@.kind.as_str_spec() + "] `"@
                + sym@.name + "` (line "@ + dec_spec(sym@.range.start.line as nat) + ")\n"@
                + render_children_at(kids, child_indent@, i + 1));
        }
        i += 1;
    }
    proof {
        assert(out@ =~= old(out)@ + render_sym_spec(sym@, indent@));
    }
}

/// Render one file's outline under its path as the heading.
pub fn render(map: &FileMap) -> (r: String)
    ensures
        r@ == render_spec(map@),
{
    let mut out = String::new();
    out.append("# ");
    out.append(map.path.as_str());
    out.append("\n\n");
    let n = map.symbols.len();
    let ghost syms = map@.symbols;
    proof {
        crate::symbol::lemma_symbols_view_index(map.symbols@);
        assert(out@ =~= "# "@ + map@.path + "\n\n"@ + render_children_at(
            syms,
            Seq::empty(),
            0,
        ));
    }
    let mut i: usize = 0;
    while i < n
        invariant
            0 <= i <= n,
            n == map.symbols@.len(),
            syms == map@.symbols,
            syms.len() == n,
            out@ == "# "@ + map@.path + "\n\n"@ + render_children_at(
                syms,
                Seq::empty(),
                i as int,
            ),
        decreases n - i,
    {
        proof {
            crate::symbol::lemma_symbols_view_index(map.symbols@);
            assert(syms[i as int] == map.symbols@[i as int]@);
            reveal_strlit("");
        }
        render_symbol(&mut out, &map.symbols[i], "");
        proof {
            assert(""@ =~= Seq::<char>::empty());
            assert(out@ =~= "# "@ + map@.path + "\n\n"@ + render_children_at(
                syms,
                Seq::empty(),
                i + 1,
            ));
        }
        i += 1;
    }
    proof {
        assert(out@ =~= render_spec(map@));
    }
    out
}

/// The rendering of several files, joined by one blank separator line.
pub open spec fn render_all_at(ms: Seq<crate::symbol::FileMapView>, n: int) -> Seq<char>
    decreases n,
{
    if n <= 0 {
        Seq::empty()
    } else if n == 1 {
        render_spec(ms[0])
    } else {
        render_all_at(ms, n - 1) + "\n"@ + render_spec(ms[n - 1])
    }
}

/// Render several files in order, separated by a newline.
pub fn render_all(maps: &Vec<FileMap>) -> (r: String)
    ensures
        r@ == render_all_at(maps.deep_view(), maps.deep_view().len() as int),
{
    let mut out = String::new();
    let n = maps.len();
    let mut i: usize = 0;
    while i < n
        invariant
            0 <= i <= n,
            n == maps@.len(),
            out@ == render_all_at(maps.deep_view(), i as int),
        decreases n - i,
    {
        proof {
            assert(maps.deep_view()[i as int] == maps@[i as int]@);
        }
        if i > 0 {
            out.append("\n");
        }
        let piece = render(&maps[i]);
        out.append(piece.as_str());
        proof {
            assert(out@ =~= render_all_at(maps.deep_view(), i + 1));
        }
        i += 1;
    }
    out
}

} // verus!
