//! The rendered artifact of one indexed file.

use vstd::prelude::*;

use crate::markdown::{render_forest_spec, render_symbol};
use crate::symbol::{FileMap, FileMapView};

verus! {

/// A rendered artifact: an outline heading naming the file, then the
/// file's symbol outline.
pub open spec fn render_single_spec(m: FileMapView) -> Seq<char> {
    "# OUTLINE: "@ + m.path + "\n\n"@ + render_forest_spec(m.symbols, Seq::empty())
}

/// Render one file's artifact.
pub fn render_single(map: &FileMap) -> (r: String)
    ensures
        r@ == render_single_spec(map@),
{
    let mut out = String::new();
    out.append("# OUTLINE: ");
    out.append(map.path.as_str());
    out.append("\n\n");
    let n = map.symbols.len();
    let ghost syms = map@.symbols;
    proof {
        crate::symbol::lemma_symbols_view_index(map.symbols@);
        assert(out@ =~= "# OUTLINE: "@ + map@.path + "\n\n"@
            + crate::markdown::render_children_at(syms, Seq::empty(), 0));
    }
    let mut i: usize = 0;
    while i < n
        invariant
            0 <= i <= n,
            n == map.symbols@.len(),
            syms == map@.symbols,
            syms.len() == n,
            out@ == "# OUTLINE: "@ + map@.path + "\n\n"@ + crate::markdown::render_children_at(
                syms,
                Seq::empty(),
                i as int,
            ),
        decreases n - i,
    {
        proof {
            crate::symbol::lemma_symbols_view_index(map.symbols@);
            assert(syms[i as int] == map.symbols@[i as int]@);
            reveal_strlit("");
        }
        render_symbol(&mut out, &map.symbols[i], "");
        proof {
            assert(""@ =~= Seq::<char>::empty());
            assert(out@ =~= "# OUTLINE: "@ + map@.path + "\n\n"@
                + crate::markdown::render_children_at(syms, Seq::empty(), i + 1));
        }
        i += 1;
    }
    proof {
        assert(out@ =~= render_single_spec(map@));
    }
    out
}

} // verus!
