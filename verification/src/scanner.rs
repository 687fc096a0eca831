//! Path arithmetic for the scan: project-relative paths, the
//! deterministic ordering of candidate files, and the mapping from a
//! source path to its output artifact's path.
//!
//! Directory walking itself is an external collaborator; these
//! functions work on the path strings it hands over, already made
//! absolute by the caller.

use vstd::prelude::*;

use crate::detector::{last_pos, last_pos_before};

verus! {

/// The file name of a path: everything after its last slash.
pub open spec fn file_name_spec(p: Seq<char>) -> Seq<char> {
    p.subrange(last_pos(p, '/') + 1, p.len() as int)
}

/// `p` made relative to `base`: the remainder after `base` and one
/// slash, when `p` lies under `base`; `p` itself otherwise.
pub open spec fn strip_base_spec(base: Seq<char>, p: Seq<char>) -> Seq<char> {
    if base.len() < p.len() && p.subrange(0, base.len() as int) == base && p[base.len() as int]
        == '/' {
        p.subrange(base.len() as int + 1, p.len() as int)
    } else if p == base {
        Seq::empty()
    } else {
        p
    }
}

/// The path a file is reported under: its bare file name when the
/// scan's input was that single file, else the path relative to the
/// input directory.
pub open spec fn relative_path_spec(input: Seq<char>, input_is_file: bool, file: Seq<char>)
    -> Seq<char> {
    if input_is_file {
        file_name_spec(file)
    } else {
        strip_base_spec(input, file)
    }
}

/// The last-slash position is always below the length.
proof fn lemma_last_pos_lt(p: Seq<char>, c: char, i: int)
    requires
        0 <= i,
    ensures
        -1 <= last_pos_before(p, c, i) < i,
    decreases i,
{
    if i > 0 && p[i - 1] != c {
        lemma_last_pos_lt(p, c, i - 1);
    }
}

/// The file name of a path, executable form.
pub fn file_name(path: &str) -> (r: String)
    ensures
        r@ == file_name_spec(path@),
{
    let len = path.unicode_len();
    let start: usize = match crate::detector::find_last(path, '/') {
        Option::Some(i) => i + 1,
        Option::None => 0,
    };
    proof {
        lemma_last_pos_lt(path@, '/', path@.len() as int);
    }
    let r = path.substring_char(start, len);
    r.to_owned()
}

/// Make `p` relative to `base`, executable form.
pub fn strip_base(base: &str, p: &str) -> (r: String)
    ensures
        r@ == strip_base_spec(base@, p@),
{
    let blen = base.unicode_len();
    let plen = p.unicode_len();
    if blen < plen && crate::text::str_starts_with(p, base) && p.get_char(blen) == '/' {
        let r = p.substring_char(blen + 1, plen);
        r.to_owned()
    } else if crate::text::str_eq_str(p, base) {
        String::new()
    } else {
        p.to_owned()
    }
}

/// Compute the path a file is reported under.
pub fn relative_path(input: &str, input_is_file: bool, file: &str) -> (r: String)
    ensures
        r@ == relative_path_spec(input@, input_is_file, file@),
{
    if input_is_file {
        file_name(file)
    } else {
        strip_base(input, file)
    }
}

/// Where a source file's rendered artifact lives: its relative path,
/// placed under the output root, with the rendering extension added.
pub open spec fn output_path_spec(input: Seq<char>, file: Seq<char>, output: Seq<char>)
    -> Seq<char> {
    output + "/"@ + strip_base_spec(input, file) + ".md"@
}

/// Compute a source file's artifact path.
pub fn output_path(input: &str, file: &str, output: &str) -> (r: String)
    ensures
        r@ == output_path_spec(input@, file@, output@),
{
    let mut out = output.to_owned();
    out.append("/");
    let rel = strip_base(input, file);
    out.append(rel.as_str());
    out.append(".md");
    proof {
        assert(out@ =~= output_path_spec(input@, file@, output@));
    }
    out
}

/// The index of the first slash at or after `i`, or the length when
/// none remains.
pub open spec fn next_slash(p: Seq<char>, i: int) -> int
    decreases p.len() - i,
{
    if i >= p.len() {
        p.len() as int
    } else if p[i] == '/' {
        i
    } else {
        next_slash(p, i + 1)
    }
}

/// The components of a path from position `i` on: the runs between
/// slashes, empty runs dropped.
pub open spec fn split_from(p: Seq<char>, i: int) -> Seq<Seq<char>>
    decreases p.len() - i,
{
    if i < 0 || i >= p.len() {
        Seq::empty()
    } else if p[i] == '/' {
        split_from(p, i + 1)
    } else {
        let j = next_slash(p, i);
        if j <= i || j > p.len() {
            Seq::empty()
        } else {
            seq![p.subrange(i, j)] + split_from(p, j)
        }
    }
}

/// The components of a path.
pub open spec fn split_spec(p: Seq<char>) -> Seq<Seq<char>> {
    split_from(p, 0)
}

/// The next slash never lies before `i`.
proof fn lemma_next_slash_ge(p: Seq<char>, i: int)
    requires
        0 <= i <= p.len(),
    ensures
        next_slash(p, i) >= i,
        next_slash(p, i) <= p.len(),
    decreases p.len() - i,
{
    if i < p.len() && p[i] != '/' {
        lemma_next_slash_ge(p, i + 1);
    }
}

/// Split a path into its components.
fn split_path(p: &str) -> (r: Vec<String>)
    ensures
        r.deep_view() == split_spec(p@),
{
    let len = p.unicode_len();
    let mut out: Vec<String> = Vec::new();
    proof {
        assert(out.deep_view() + split_from(p@, 0) =~= split_spec(p@));
    }
    let mut i: usize = 0;
    while i < len
        invariant
            0 <= i <= len,
            len == p@.len(),
            out.deep_view() + split_from(p@, i as int) == split_spec(p@),
        decreases len - i,
    {
        if p.get_char(i) != '/' {
            let mut j: usize = i + 1;
            while j < len && p.get_char(j) != '/'
                invariant
                    i < j <= len,
                    len == p@.len(),
                    p@[i as int] != '/',
                    next_slash(p@, i as int) == next_slash(p@, j as int),
                decreases len - j,
            {
                j += 1;
            }
            proof {
                assert(next_slash(p@, i as int) == j as int);
                lemma_next_slash_ge(p@, i as int);
            }
            let ghost prev = out.deep_view();
            let piece = p.substring_char(i, j);
            out.push(piece.to_owned());
            proof {
                assert(out.deep_view() =~= prev.push(p@.subrange(i as int, j as int)));
                assert(out.deep_view() + split_from(p@, j as int) =~= prev + split_from(
                    p@,
                    i as int,
                ));
            }
            i = j;
        } else {
            i += 1;
        }
    }
    proof {
        assert(out.deep_view() =~= split_spec(p@));
    }
    out
}

/// Character-by-character (code point) order on two strings; a proper
/// prefix comes first.
pub open spec fn lex_cmp(a: Seq<char>, b: Seq<char>) -> core::cmp::Ordering
    decreases a.len(),
{
    if a.len() == 0 && b.len() == 0 {
        core::cmp::Ordering::Equal
    } else if a.len() == 0 {
        core::cmp::Ordering::Less
    } else if b.len() == 0 {
        core::cmp::Ordering::Greater
    } else if (a[0] as u32) < (b[0] as u32) {
        core::cmp::Ordering::Less
    } else if (a[0] as u32) > (b[0] as u32) {
        core::cmp::Ordering::Greater
    } else {
        lex_cmp(a.subrange(1, a.len() as int), b.subrange(1, b.len() as int))
    }
}

/// Compare two component lists: a differing level decides — at that
/// level a path that still descends (a directory) precedes one that
/// ends (a file), and otherwise the component names decide
/// lexicographically; with one list a prefix of the other, the shorter
/// comes first.
pub open spec fn cmp_components(a: Seq<Seq<char>>, b: Seq<Seq<char>>) -> core::cmp::Ordering
    decreases a.len(),
{
    if a.len() == 0 && b.len() == 0 {
        core::cmp::Ordering::Equal
    } else if a.len() == 0 {
        core::cmp::Ordering::Less
    } else if b.len() == 0 {
        core::cmp::Ordering::Greater
    } else if a[0] == b[0] {
        cmp_components(a.subrange(1, a.len() as int), b.subrange(1, b.len() as int))
    } else {
        let a_more = a.len() > 1;
        let b_more = b.len() > 1;
        if a_more && !b_more {
            core::cmp::Ordering::Less
        } else if !a_more && b_more {
            core::cmp::Ordering::Greater
        } else {
            lex_cmp(a[0], b[0])
        }
    }
}

/// The scan order of two paths under a common base.
pub open spec fn compare_paths_spec(a: Seq<char>, b: Seq<char>, base: Seq<char>)
    -> core::cmp::Ordering {
    cmp_components(split_spec(strip_base_spec(base, a)), split_spec(strip_base_spec(base, b)))
}

/// Compare two strings character by character.
fn lex_cmp_exec(a: &str, b: &str) -> (r: core::cmp::Ordering)
    ensures
        r == lex_cmp(a@, b@),
{
    let alen = a.unicode_len();
    let blen = b.unicode_len();
    proof {
        assert(a@.subrange(0, alen as int) =~= a@);
        assert(b@.subrange(0, blen as int) =~= b@);
    }
    let mut i: usize = 0;
    while i < alen && i < blen
        invariant
            0 <= i,
            i <= alen,
            i <= blen,
            alen == a@.len(),
            blen == b@.len(),
            lex_cmp(a@, b@) == lex_cmp(
                a@.subrange(i as int, alen as int),
                b@.subrange(i as int, blen as int),
            ),
        decreases alen - i,
    {
        let ca = a.get_char(i);
        let cb = b.get_char(i);
        let ghost sa = a@.subrange(i as int, alen as int);
        let ghost sb = b@.subrange(i as int, blen as int);
        proof {
            assert(sa[0] == a@[i as int]);
            assert(sb[0] == b@[i as int]);
        }
        if (ca as u32) < (cb as u32) {
            return core::cmp::Ordering::Less;
        }
        if (ca as u32) > (cb as u32) {
            return core::cmp::Ordering::Greater;
        }
        proof {
            assert(sa.subrange(1, sa.len() as int) =~= a@.subrange(i + 1, alen as int));
            assert(sb.subrange(1, sb.len() as int) =~= b@.subrange(i + 1, blen as int));
        }
        i += 1;
    }
    proof {
        assert(a@.subrange(i as int, alen as int).len() == alen - i);
        assert(b@.subrange(i as int, blen as int).len() == blen - i);
    }
    if alen == blen {
        core::cmp::Ordering::Equal
    } else if alen < blen {
        core::cmp::Ordering::Less
    } else {
        core::cmp::Ordering::Greater
    }
}

/// `a` comes no later than `b` in scan order.
pub open spec fn path_le(a: Seq<char>, b: Seq<char>, base: Seq<char>) -> bool {
    compare_paths_spec(a, b, base) != core::cmp::Ordering::Greater
}

/// `x` placed into `s` after every path that comes no later than it:
/// the insertion step of a stable sort in scan order.
pub open spec fn insert_path_sorted(s: Seq<Seq<char>>, x: Seq<char>, base: Seq<char>) -> Seq<
    Seq<char>,
>
    decreases s.len(),
{
    if s.len() == 0 {
        seq![x]
    } else if !path_le(s.last(), x, base) {
        insert_path_sorted(s.drop_last(), x, base).push(s.last())
    } else {
        s.push(x)
    }
}

/// The first `n` paths of `s`, sorted stably in scan order.
pub open spec fn sort_paths_at(s: Seq<Seq<char>>, base: Seq<char>, n: int) -> Seq<Seq<char>>
    decreases n,
{
    if n <= 0 {
        Seq::empty()
    } else {
        insert_path_sorted(sort_paths_at(s, base, n - 1), s[n - 1], base)
    }
}

/// `s` sorted stably in scan order: directories first at each level,
/// names lexicographic, ties keeping their relative order.
pub open spec fn sort_paths_spec(s: Seq<Seq<char>>, base: Seq<char>) -> Seq<Seq<char>> {
    sort_paths_at(s, base, s.len() as int)
}

/// Whether `a` comes strictly after `b` in scan order.
fn path_gt(a: &str, b: &str, base: &str) -> (r: bool)
    ensures
        r == !path_le(a@, b@, base@),
{
    match compare_paths(a, b, base) {
        core::cmp::Ordering::Greater => true,
        _ => false,
    }
}

/// Where the scan from the right stops, the insertion step lands.
proof fn lemma_insert_path_at(s: Seq<Seq<char>>, x: Seq<char>, base: Seq<char>, p: int)
    requires
        0 <= p <= s.len(),
        forall|j: int| p <= j < s.len() ==> !path_le(#[trigger] s[j], x, base),
        p > 0 ==> path_le(s[p - 1], x, base),
    ensures
        insert_path_sorted(s, x, base) == s.insert(p, x),
    decreases s.len(),
{
    if s.len() == 0 {
        assert(insert_path_sorted(s, x, base) =~= s.insert(p, x));
    } else if !path_le(s.last(), x, base) {
        assert(p < s.len());
        lemma_insert_path_at(s.drop_last(), x, base, p);
        assert(insert_path_sorted(s, x, base) =~= s.insert(p, x));
    } else {
        assert(p == s.len());
        assert(insert_path_sorted(s, x, base) =~= s.insert(p, x));
    }
}

/// Place `x` into the already-sorted `v`, after every path that comes
/// no later than it.
fn insert_path(v: &mut Vec<String>, x: String, base: &str)
    ensures
        final(v).deep_view() == insert_path_sorted(old(v).deep_view(), x@, base@),
{
    let mut pos: usize = v.len();
    while pos > 0 && path_gt(v[pos - 1].as_str(), x.as_str(), base)
        invariant
            0 <= pos <= v@.len(),
            forall|j: int|
                pos <= j < v@.len() ==> !path_le(#[trigger] v.deep_view()[j], x@, base@),
        decreases pos,
    {
        proof {
            assert(v.deep_view()[pos - 1] == v@[pos - 1]@);
        }
        pos -= 1;
    }
    proof {
        if pos > 0 {
            assert(v.deep_view()[pos - 1] == v@[pos - 1]@);
        }
        lemma_insert_path_at(v.deep_view(), x@, base@, pos as int);
    }
    let ghost xv = x@;
    v.insert(pos, x);
    proof {
        assert(v.deep_view() =~= old(v).deep_view().insert(pos as int, xv));
    }
}

/// Sort candidate paths into scan order: at each level subdirectories
/// precede files and names are ordered lexicographically; candidates
/// that compare equal keep their relative order.
pub fn sort_paths(files: Vec<String>, base: &str) -> (r: Vec<String>)
    ensures
        r.deep_view() == sort_paths_spec(files.deep_view(), base@),
{
    let mut out: Vec<String> = Vec::new();
    let n = files.len();
    let mut i: usize = 0;
    while i < n
        invariant
            0 <= i <= n,
            n == files@.len(),
            out.deep_view() == sort_paths_at(files.deep_view(), base@, i as int),
        decreases n - i,
    {
        proof {
            assert(files.deep_view()[i as int] == files@[i as int]@);
        }
        let x = files[i].clone();
        insert_path(&mut out, x, base);
        i += 1;
    }
    out
}

/// Compare two candidate paths under a common base: at the first level
/// where they differ, a path that still descends precedes one that
/// ends there; otherwise names decide lexicographically.
pub fn compare_paths(a: &str, b: &str, base: &str) -> (r: core::cmp::Ordering)
    ensures
        r == compare_paths_spec(a@, b@, base@),
{
    let ra = strip_base(base, a);
    let rb = strip_base(base, b);
    let ca = split_path(ra.as_str());
    let cb = split_path(rb.as_str());
    let na = ca.len();
    let nb = cb.len();
    proof {
        assert(ca.deep_view().subrange(0, na as int) =~= ca.deep_view());
        assert(cb.deep_view().subrange(0, nb as int) =~= cb.deep_view());
    }
    let mut i: usize = 0;
    while i < na && i < nb
        invariant
            0 <= i,
            i <= na,
            i <= nb,
            na == ca@.len(),
            nb == cb@.len(),
            ca.deep_view() == split_spec(strip_base_spec(base@, a@)),
            cb.deep_view() == split_spec(strip_base_spec(base@, b@)),
            compare_paths_spec(a@, b@, base@) == cmp_components(
                ca.deep_view().subrange(i as int, na as int),
                cb.deep_view().subrange(i as int, nb as int),
            ),
        decreases na - i,
    {
        let ghost sa = ca.deep_view().subrange(i as int, na as int);
        let ghost sb = cb.deep_view().subrange(i as int, nb as int);
        proof {
            assert(sa[0] == ca.deep_view()[i as int]);
            assert(sb[0] == cb.deep_view()[i as int]);
            assert(ca.deep_view()[i as int] == ca@[i as int]@);
            assert(cb.deep_view()[i as int] == cb@[i as int]@);
        }
        if crate::text::str_eq_str(ca[i].as_str(), cb[i].as_str()) {
            proof {
                assert(sa.subrange(1, sa.len() as int) =~= ca.deep_view().subrange(
                    i + 1,
                    na as int,
                ));
                assert(sb.subrange(1, sb.len() as int) =~= cb.deep_view().subrange(
                    i + 1,
                    nb as int,
                ));
            }
            i += 1;
        } else {
            let a_more = i + 1 < na;
            let b_more = i + 1 < nb;
            if a_more && !b_more {
                return core::cmp::Ordering::Less;
            }
            if !a_more && b_more {
                return core::cmp::Ordering::Greater;
            }
            return lex_cmp_exec(ca[i].as_str(), cb[i].as_str());
        }
    }
    proof {
        assert(ca.deep_view().subrange(i as int, na as int).len() == na - i);
        assert(cb.deep_view().subrange(i as int, nb as int).len() == nb - i);
    }
    if na == nb {
        core::cmp::Ordering::Equal
    } else if na < nb {
        core::cmp::Ordering::Less
    } else {
        core::cmp::Ordering::Greater
    }
}

} // verus!
