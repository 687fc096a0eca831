//! Turning the raw capture stream of one file into a flat, deduplicated,
//! ordered list of symbols, and from there into the containment forest.

use vstd::prelude::*;

use crate::adapter;
use crate::detector::Language;
use crate::forest::build_forest;
use crate::queries::{get_query_source, query_source_spec};
use crate::symbol::{FileMap, Position, Range, Symbol, SymbolKind, SymbolView, symbols_view};
use crate::text::{seq_contains_sub, str_contains, str_eq_str};

verus! {

/// One named sub-match that the structural query produced: the capture's
/// label in the query, the captured node's text, and the node's extent.
/// Rows and columns are 0-based as the parser reports them.
pub struct RawCapture {
    pub label: String,
    pub text: String,
    pub start_byte: usize,
    pub end_byte: usize,
    pub start_row: usize,
    pub start_col: usize,
    pub end_row: usize,
    pub end_col: usize,
}

/// Mathematical model of a raw capture.
pub struct RawCaptureView {
    pub label: Seq<char>,
    pub text: Seq<char>,
    pub start_byte: usize,
    pub end_byte: usize,
    pub start_row: usize,
    pub start_col: usize,
    pub end_row: usize,
    pub end_col: usize,
}

impl View for RawCapture {
    type V = RawCaptureView;

    open spec fn view(&self) -> RawCaptureView {
        RawCaptureView {
            label: self.label@,
            text: self.text@,
            start_byte: self.start_byte,
            end_byte: self.end_byte,
            start_row: self.start_row,
            start_col: self.start_col,
            end_row: self.end_row,
            end_col: self.end_col,
        }
    }
}

impl DeepView for RawCapture {
    type V = RawCaptureView;

    open spec fn deep_view(&self) -> RawCaptureView {
        self@
    }
}

/// One structural match: the captures it carries, in query order.
pub struct RawMatch {
    pub captures: Vec<RawCapture>,
}

/// Mathematical model of a raw match.
pub struct RawMatchView {
    pub captures: Seq<RawCaptureView>,
}

impl View for RawMatch {
    type V = RawMatchView;

    open spec fn view(&self) -> RawMatchView {
        RawMatchView { captures: self.captures.deep_view() }
    }
}

impl DeepView for RawMatch {
    type V = RawMatchView;

    open spec fn deep_view(&self) -> RawMatchView {
        self@
    }
}

/// A flat symbol candidate: what one match contributes before nesting.
pub struct FlatSymbol {
    pub name: String,
    pub kind: SymbolKind,
    pub start_byte: usize,
    pub end_byte: usize,
    pub range: Range,
}

/// Mathematical model of a flat symbol candidate.
pub struct FlatView {
    pub name: Seq<char>,
    pub kind: SymbolKind,
    pub start_byte: usize,
    pub end_byte: usize,
    pub range: Range,
}

impl View for FlatSymbol {
    type V = FlatView;

    open spec fn view(&self) -> FlatView {
        FlatView {
            name: self.name@,
            kind: self.kind,
            start_byte: self.start_byte,
            end_byte: self.end_byte,
            range: self.range,
        }
    }
}

impl DeepView for FlatSymbol {
    type V = FlatView;

    open spec fn deep_view(&self) -> FlatView {
        self@
    }
}

/// The symbol kind a capture label resolves to: the first marker the
/// label contains, in fixed priority order; a label with no marker
/// counts as a function.
pub open spec fn parse_kind_spec(label: Seq<char>) -> SymbolKind {
    if seq_contains_sub(label, "enum_member"@) {
        SymbolKind::EnumMember
    } else if seq_contains_sub(label, "enum"@) {
        SymbolKind::Enum
    } else if seq_contains_sub(label, "class"@) {
        SymbolKind::Class
    } else if seq_contains_sub(label, "method"@) {
        SymbolKind::Method
    } else if seq_contains_sub(label, "function"@) {
        SymbolKind::Function
    } else if seq_contains_sub(label, "interface"@) {
        SymbolKind::Interface
    } else if seq_contains_sub(label, "field"@) {
        SymbolKind::Field
    } else if seq_contains_sub(label, "property"@) {
        SymbolKind::Property
    } else if seq_contains_sub(label, "variable"@) {
        SymbolKind::Variable
    } else if seq_contains_sub(label, "constant"@) {
        SymbolKind::Constant
    } else if seq_contains_sub(label, "module"@) {
        SymbolKind::Module
    } else if seq_contains_sub(label, "namespace"@) {
        SymbolKind::Namespace
    } else if seq_contains_sub(label, "type"@) {
        SymbolKind::Type
    } else {
        SymbolKind::Function
    }
}

/// Resolve a capture label to a symbol kind.
pub fn parse_kind(capture_name: &str) -> (k: SymbolKind)
    ensures
        k == parse_kind_spec(capture_name@),
{
    if str_contains(capture_name, "enum_member") {
        SymbolKind::EnumMember
    } else if str_contains(capture_name, "enum") {
        SymbolKind::Enum
    } else if str_contains(capture_name, "class") {
        SymbolKind::Class
    } else if str_contains(capture_name, "method") {
        SymbolKind::Method
    } else if str_contains(capture_name, "function") {
        SymbolKind::Function
    } else if str_contains(capture_name, "interface") {
        SymbolKind::Interface
    } else if str_contains(capture_name, "field") {
        SymbolKind::Field
    } else if str_contains(capture_name, "property") {
        SymbolKind::Property
    } else if str_contains(capture_name, "variable") {
        SymbolKind::Variable
    } else if str_contains(capture_name, "constant") {
        SymbolKind::Constant
    } else if str_contains(capture_name, "module") {
        SymbolKind::Module
    } else if str_contains(capture_name, "namespace") {
        SymbolKind::Namespace
    } else if str_contains(capture_name, "type") {
        SymbolKind::Type
    } else {
        SymbolKind::Function
    }
}

/// A line number shifted from 0-based to 1-based. The shift saturates
/// at the top of `usize`, a row count no real source file reaches.
pub open spec fn one_based(row: usize) -> usize {
    if row == usize::MAX {
        row
    } else {
        (row + 1) as usize
    }
}

/// The extent a capture contributes, with 1-based lines.
pub open spec fn range_of_capture(c: RawCaptureView) -> Range {
    Range {
        start: Position { line: one_based(c.start_row), column: c.start_col },
        end: Position { line: one_based(c.end_row), column: c.end_col },
    }
}

/// What scanning the captures of one match accumulates.
pub struct MatchAcc {
    pub name: Seq<char>,
    pub kind: SymbolKind,
    pub start_byte: usize,
    pub end_byte: usize,
    pub range: Option<Range>,
}

/// The accumulator before any capture is read.
pub open spec fn match_acc_init() -> MatchAcc {
    MatchAcc {
        name: Seq::empty(),
        kind: SymbolKind::Function,
        start_byte: 0,
        end_byte: 0,
        range: Option::None,
    }
}

/// One capture folded into the accumulator: auxiliary captures (label
/// starting with an underscore) are discarded, the name capture sets
/// the name, and any other capture sets kind and extent.
pub open spec fn match_acc_step(acc: MatchAcc, c: RawCaptureView) -> MatchAcc {
    if c.label.len() > 0 && c.label[0] == '_' {
        acc
    } else if c.label == "name"@ {
        MatchAcc { name: c.text, ..acc }
    } else {
        MatchAcc {
            kind: parse_kind_spec(c.label),
            start_byte: c.start_byte,
            end_byte: c.end_byte,
            range: Option::Some(range_of_capture(c)),
            ..acc
        }
    }
}

/// The accumulator after the first `n` captures of a match.
pub open spec fn match_acc_at(caps: Seq<RawCaptureView>, n: int) -> MatchAcc
    decreases n,
{
    if n <= 0 {
        match_acc_init()
    } else {
        match_acc_step(match_acc_at(caps, n - 1), caps[n - 1])
    }
}

/// What one match contributes: a flat symbol, provided the match has a
/// resolvable name and a resolvable extent.
pub open spec fn flat_of_match(m: RawMatchView) -> Option<FlatView> {
    let acc = match_acc_at(m.captures, m.captures.len() as int);
    match acc.range {
        Option::Some(r) => if acc.name.len() > 0 {
            Option::Some(
                FlatView {
                    name: acc.name,
                    kind: acc.kind,
                    start_byte: acc.start_byte,
                    end_byte: acc.end_byte,
                    range: r,
                },
            )
        } else {
            Option::None
        },
        Option::None => Option::None,
    }
}

/// The flat candidates of the first `n` matches, in match order.
pub open spec fn flatten_at(ms: Seq<RawMatchView>, n: int) -> Seq<FlatView>
    decreases n,
{
    if n <= 0 {
        Seq::empty()
    } else {
        let prefix = flatten_at(ms, n - 1);
        match flat_of_match(ms[n - 1]) {
            Option::Some(f) => prefix.push(f),
            Option::None => prefix,
        }
    }
}

/// The flat candidates of the whole capture stream, in match order.
pub open spec fn flatten_spec(ms: Seq<RawMatchView>) -> Seq<FlatView> {
    flatten_at(ms, ms.len() as int)
}

/// Scan the captures of one match for its name and its kind capture.
fn flatten_match(m: &RawMatch) -> (r: Option<FlatSymbol>)
    ensures
        match r {
            Option::Some(f) => flat_of_match(m@) == Option::Some(f@),
            Option::None => flat_of_match(m@) is None,
        },
{
    let mut name_text = String::new();
    let mut kind = SymbolKind::Function;
    let mut start_byte: usize = 0;
    let mut end_byte: usize = 0;
    let mut range: Option<Range> = Option::None;
    let n = m.captures.len();
    let mut i: usize = 0;
    while i < n
        invariant
            0 <= i <= n,
            n == m.captures@.len(),
            match_acc_at(m@.captures, i as int) == (MatchAcc {
                name: name_text@,
                kind: kind,
                start_byte: start_byte,
                end_byte: end_byte,
                range: range,
            }),
        decreases n - i,
    {
        proof {
            assert(m@.captures[i as int] == m.captures@[i as int]@);
        }
        let cap = &m.captures[i];
        let aux = {
            let l = cap.label.as_str();
            l.unicode_len() > 0 && l.get_char(0) == '_'
        };
        if !aux {
            if str_eq_str(cap.label.as_str(), "name") {
                name_text = cap.text.clone();
            } else {
                kind = parse_kind(cap.label.as_str());
                start_byte = cap.start_byte;
                end_byte = cap.end_byte;
                let start_line = if cap.start_row == usize::MAX {
                    cap.start_row
                } else {
                    cap.start_row + 1
                };
                let end_line = if cap.end_row == usize::MAX {
                    cap.end_row
                } else {
                    cap.end_row + 1
                };
                range = Option::Some(
                    Range {
                        start: Position { line: start_line, column: cap.start_col },
                        end: Position { line: end_line, column: cap.end_col },
                    },
                );
            }
        }
        i += 1;
    }
    if name_text.unicode_len() > 0 {
        match range {
            Option::Some(r) => Option::Some(
                FlatSymbol { name: name_text, kind, start_byte, end_byte, range: r },
            ),
            Option::None => Option::None,
        }
    } else {
        Option::None
    }
}

/// The key deduplication works by: a candidate's name together with
/// the line its extent starts on.
pub open spec fn dedup_key(f: FlatView) -> (Seq<char>, usize) {
    (f.name, f.range.start.line)
}

/// Whether some element of `s` carries the key `k`.
pub open spec fn has_key(s: Seq<FlatView>, k: (Seq<char>, usize)) -> bool {
    exists|i: int| 0 <= i < s.len() && dedup_key(#[trigger] s[i]) == k
}

/// The first `n` elements of `s` with later duplicates of a key dropped.
pub open spec fn dedup_at(s: Seq<FlatView>, n: int) -> Seq<FlatView>
    decreases n,
{
    if n <= 0 {
        Seq::empty()
    } else {
        let prefix = dedup_at(s, n - 1);
        if has_key(prefix, dedup_key(s[n - 1])) {
            prefix
        } else {
            prefix.push(s[n - 1])
        }
    }
}

/// `s` with every later duplicate of a key dropped: the first candidate
/// with a given (name, start line) wins.
pub open spec fn dedup_spec(s: Seq<FlatView>) -> Seq<FlatView> {
    dedup_at(s, s.len() as int)
}

/// Whether the key (name, line) already occurs in `out`.
fn key_present(out: &Vec<FlatSymbol>, name: &str, line: usize) -> (r: bool)
    ensures
        r == has_key(out.deep_view(), (name@, line)),
{
    let n = out.len();
    let mut i: usize = 0;
    while i < n
        invariant
            0 <= i <= n,
            n == out@.len(),
            forall|t: int|
                0 <= t < i ==> dedup_key(#[trigger] out.deep_view()[t]) != (name@, line),
        decreases n - i,
    {
        proof {
            assert(out.deep_view()[i as int] == out@[i as int]@);
        }
        if out[i].range.start.line == line && str_eq_str(out[i].name.as_str(), name) {
            return true;
        }
        i += 1;
    }
    false
}

/// Drop every candidate whose (name, start line) was already seen,
/// keeping the first occurrence of each key.
pub fn dedup_flat(flat: Vec<FlatSymbol>) -> (r: Vec<FlatSymbol>)
    ensures
        r.deep_view() == dedup_spec(flat.deep_view()),
{
    let mut out: Vec<FlatSymbol> = Vec::new();
    let n = flat.len();
    let mut i: usize = 0;
    while i < n
        invariant
            0 <= i <= n,
            n == flat@.len(),
            out.deep_view() == dedup_at(flat.deep_view(), i as int),
        decreases n - i,
    {
        proof {
            assert(flat.deep_view()[i as int] == flat@[i as int]@);
        }
        let present = key_present(&out, flat[i].name.as_str(), flat[i].range.start.line);
        if !present {
            let f = FlatSymbol {
                name: flat[i].name.clone(),
                kind: flat[i].kind,
                start_byte: flat[i].start_byte,
                end_byte: flat[i].end_byte,
                range: flat[i].range,
            };
            out.push(f);
            proof {
                assert(out.deep_view() =~= dedup_at(flat.deep_view(), i + 1));
            }
        }
        i += 1;
    }
    out
}

/// `s[i]` is the first element of `s` that carries its key.
pub open spec fn first_occurrence(s: Seq<FlatView>, i: int) -> bool {
    0 <= i < s.len() && forall|t: int|
        0 <= t < i ==> dedup_key(#[trigger] s[t]) != dedup_key(s[i])
}

/// Every element of the deduplicated prefix comes from the prefix
/// itself.
proof fn lemma_dedup_members(s: Seq<FlatView>, n: int, p: int)
    requires
        n <= s.len(),
        0 <= p < dedup_at(s, n).len(),
    ensures
        exists|i: int| 0 <= i < n && #[trigger] s[i] == dedup_at(s, n)[p],
    decreases n,
{
    if n <= 0 {
    } else {
        let prefix = dedup_at(s, n - 1);
        if p < prefix.len() {
            lemma_dedup_members(s, n - 1, p);
        } else {
            assert(dedup_at(s, n)[p] == s[n - 1]);
        }
    }
}

/// Deduplication never leaves two elements with the same key.
proof fn lemma_dedup_unique_keys(s: Seq<FlatView>, n: int)
    requires
        n <= s.len(),
    ensures
        forall|p: int, q: int|
            0 <= p < q < dedup_at(s, n).len() ==> dedup_key(#[trigger] dedup_at(s, n)[p])
                != dedup_key(#[trigger] dedup_at(s, n)[q]),
    decreases n,
{
    if n <= 0 {
    } else {
        lemma_dedup_unique_keys(s, n - 1);
        let prefix = dedup_at(s, n - 1);
        let d = dedup_at(s, n);
        if !has_key(prefix, dedup_key(s[n - 1])) {
            assert forall|p: int, q: int| 0 <= p < q < d.len() implies dedup_key(#[trigger] d[p])
                != dedup_key(#[trigger] d[q]) by {
                if q == d.len() - 1 {
                    assert(d[p] == prefix[p]);
                }
            }
        }
    }
}

/// The first occurrence of a key always survives deduplication.
proof fn lemma_dedup_contains_first(s: Seq<FlatView>, n: int, f: int)
    requires
        n <= s.len(),
        first_occurrence(s, f),
        f < n,
    ensures
        dedup_at(s, n).contains(s[f]),
    decreases n,
{
    if n <= 0 {
    } else if f < n - 1 {
        lemma_dedup_contains_first(s, n - 1, f);
        let prefix = dedup_at(s, n - 1);
        let w = choose|w: int| 0 <= w < prefix.len() && prefix[w] == s[f];
        assert(dedup_at(s, n)[w] == s[f]);
    } else {
        let prefix = dedup_at(s, n - 1);
        assert(!has_key(prefix, dedup_key(s[n - 1]))) by {
            if has_key(prefix, dedup_key(s[n - 1])) {
                let w = choose|w: int|
                    0 <= w < prefix.len() && dedup_key(#[trigger] prefix[w]) == dedup_key(
                        s[n - 1],
                    );
                lemma_dedup_members(s, n - 1, w);
            }
        }
        assert(dedup_at(s, n)[prefix.len() as int] == s[f]);
    }
}

/// Of two candidates with an equal name and an equal start line,
/// exactly one survives deduplication: the first one encountered. The
/// surviving candidate with that key is the first occurrence of the
/// key, and no two survivors share a key.
pub proof fn lemma_dedup_first_wins(s: Seq<FlatView>, i: int, j: int)
    requires
        0 <= i < j < s.len(),
        dedup_key(s[i]) == dedup_key(s[j]),
    ensures
        exists|f: int|
            #[trigger] first_occurrence(s, f) && f <= i && dedup_key(s[f]) == dedup_key(s[i])
                && dedup_spec(s).contains(s[f]),
        forall|p: int, q: int|
            0 <= p < q < dedup_spec(s).len() ==> dedup_key(#[trigger] dedup_spec(s)[p])
                != dedup_key(#[trigger] dedup_spec(s)[q]),
{
    lemma_dedup_unique_keys(s, s.len() as int);
    let k = dedup_key(s[i]);
    let f = choose|f: int|
        0 <= f <= i && dedup_key(#[trigger] s[f]) == k && forall|t: int|
            0 <= t < f ==> dedup_key(#[trigger] s[t]) != k;
    assert(exists|f: int|
        0 <= f <= i && dedup_key(#[trigger] s[f]) == k && forall|t: int|
            0 <= t < f ==> dedup_key(#[trigger] s[t]) != k) by {
        lemma_exists_first_with_key(s, i);
    }
    assert(first_occurrence(s, f));
    lemma_dedup_contains_first(s, s.len() as int, f);
}

/// Among the indexes up to `i` whose element carries `s[i]`'s key,
/// there is a least one.
proof fn lemma_exists_first_with_key(s: Seq<FlatView>, i: int)
    requires
        0 <= i < s.len(),
    ensures
        exists|f: int|
            0 <= f <= i && dedup_key(#[trigger] s[f]) == dedup_key(s[i]) && forall|t: int|
                0 <= t < f ==> dedup_key(#[trigger] s[t]) != dedup_key(s[i]),
    decreases i,
{
    let k = dedup_key(s[i]);
    if forall|t: int| 0 <= t < i ==> dedup_key(#[trigger] s[t]) != k {
        assert(0 <= i <= i && dedup_key(s[i]) == k);
    } else {
        let e = choose|e: int| 0 <= e < i && dedup_key(#[trigger] s[e]) == k;
        lemma_exists_first_with_key(s, e);
        let f = choose|f: int|
            0 <= f <= e && dedup_key(#[trigger] s[f]) == dedup_key(s[e]) && forall|t: int|
                0 <= t < f ==> dedup_key(#[trigger] s[t]) != dedup_key(s[e]);
        assert(0 <= f <= i && dedup_key(s[f]) == k);
    }
}

/// `x` placed into `s` after every element whose start offset is at
/// most `x`'s: the insertion step of a stable sort by start offset.
pub open spec fn insert_sorted(s: Seq<FlatView>, x: FlatView) -> Seq<FlatView>
    decreases s.len(),
{
    if s.len() == 0 {
        seq![x]
    } else if x.start_byte < s.last().start_byte {
        insert_sorted(s.drop_last(), x).push(s.last())
    } else {
        s.push(x)
    }
}

/// The first `n` elements of `s`, sorted stably by start offset.
pub open spec fn sort_at(s: Seq<FlatView>, n: int) -> Seq<FlatView>
    decreases n,
{
    if n <= 0 {
        Seq::empty()
    } else {
        insert_sorted(sort_at(s, n - 1), s[n - 1])
    }
}

/// `s` sorted stably ascending by start offset: elements keep their
/// relative order when their start offsets tie.
pub open spec fn sort_spec(s: Seq<FlatView>) -> Seq<FlatView> {
    sort_at(s, s.len() as int)
}

/// Nondecreasing start offsets.
pub open spec fn sorted_by_start(s: Seq<FlatView>) -> bool {
    forall|i: int, j: int|
        0 <= i <= j < s.len() ==> (#[trigger] s[i]).start_byte <= (#[trigger] s[j]).start_byte
}

/// Where the scan from the right stops, the insertion step lands.
proof fn lemma_insert_sorted_at(s: Seq<FlatView>, x: FlatView, p: int)
    requires
        0 <= p <= s.len(),
        forall|j: int| p <= j < s.len() ==> (#[trigger] s[j]).start_byte > x.start_byte,
        p > 0 ==> s[p - 1].start_byte <= x.start_byte,
    ensures
        insert_sorted(s, x) == s.insert(p, x),
    decreases s.len(),
{
    if s.len() == 0 {
        assert(insert_sorted(s, x) =~= s.insert(p, x));
    } else if x.start_byte < s.last().start_byte {
        assert(p < s.len());
        let dl = s.drop_last();
        lemma_insert_sorted_at(dl, x, p);
        assert(insert_sorted(s, x) =~= s.insert(p, x));
    } else {
        assert(p == s.len());
        assert(insert_sorted(s, x) =~= s.insert(p, x));
    }
}

/// Inserting keeps the sequence sorted by start offset.
proof fn lemma_insert_sorted_sorted(s: Seq<FlatView>, x: FlatView)
    requires
        sorted_by_start(s),
    ensures
        sorted_by_start(insert_sorted(s, x)),
    decreases s.len(),
{
    if s.len() == 0 {
    } else if x.start_byte < s.last().start_byte {
        assert(sorted_by_start(s.drop_last()));
        lemma_insert_sorted_sorted(s.drop_last(), x);
        let r = insert_sorted(s.drop_last(), x).push(s.last());
        assert forall|i: int, j: int| 0 <= i <= j < r.len() implies (#[trigger] r[i]).start_byte
            <= (#[trigger] r[j]).start_byte by {
            let t = insert_sorted(s.drop_last(), x);
            if j < r.len() - 1 {
            } else {
                if i < r.len() - 1 {
                    lemma_insert_sorted_members(s.drop_last(), x, i);
                }
            }
        }
    } else {
        let r = s.push(x);
        assert forall|i: int, j: int| 0 <= i <= j < r.len() implies (#[trigger] r[i]).start_byte
            <= (#[trigger] r[j]).start_byte by {
            if j == r.len() - 1 && i < j {
                assert(s[i].start_byte <= s.last().start_byte);
            }
        }
    }
}

/// Every element of an insertion's result is the inserted element or
/// one of the sequence's own.
proof fn lemma_insert_sorted_members(s: Seq<FlatView>, x: FlatView, i: int)
    requires
        0 <= i < insert_sorted(s, x).len(),
    ensures
        insert_sorted(s, x)[i] == x || s.contains(insert_sorted(s, x)[i]),
    decreases s.len(),
{
    if s.len() == 0 {
    } else if x.start_byte < s.last().start_byte {
        let t = insert_sorted(s.drop_last(), x);
        if i < t.len() {
            lemma_insert_sorted_members(s.drop_last(), x, i);
            if s.drop_last().contains(t[i]) {
                let w = choose|w: int| 0 <= w < s.drop_last().len() && s.drop_last()[w] == t[i];
                assert(s[w] == t[i]);
            }
        } else {
            assert(insert_sorted(s, x)[i] == s.last());
            assert(s[s.len() - 1] == s.last());
        }
    } else {
        if i < s.len() {
            assert(s[i] == insert_sorted(s, x)[i]);
        }
    }
}

/// Sorting yields nondecreasing start offsets.
pub proof fn lemma_sort_sorted(s: Seq<FlatView>, n: int)
    requires
        n <= s.len(),
    ensures
        sorted_by_start(sort_at(s, n)),
    decreases n,
{
    if n <= 0 {
    } else {
        lemma_sort_sorted(s, n - 1);
        lemma_insert_sorted_sorted(sort_at(s, n - 1), s[n - 1]);
    }
}

/// Place `x` into the already-sorted `v`, after every element whose
/// start offset is at most `x`'s.
fn insert_flat(v: &mut Vec<FlatSymbol>, x: FlatSymbol)
    ensures
        final(v).deep_view() == insert_sorted(old(v).deep_view(), x@),
{
    let mut pos: usize = v.len();
    while pos > 0 && v[pos - 1].start_byte > x.start_byte
        invariant
            0 <= pos <= v@.len(),
            forall|j: int|
                pos <= j < v@.len() ==> (#[trigger] v.deep_view()[j]).start_byte > x@.start_byte,
        decreases pos,
    {
        proof {
            assert(v.deep_view()[pos - 1] == v@[pos - 1]@);
        }
        pos -= 1;
    }
    proof {
        if pos > 0 {
            assert(v.deep_view()[pos - 1] == v@[pos - 1]@);
        }
        lemma_insert_sorted_at(v.deep_view(), x@, pos as int);
    }
    v.insert(pos, x);
    proof {
        assert(v.deep_view() =~= old(v).deep_view().insert(pos as int, x@));
    }
}

/// Sort the candidates stably, ascending by start offset; candidates
/// with equal start offsets keep their discovery order.
pub fn sort_flat(flat: Vec<FlatSymbol>) -> (r: Vec<FlatSymbol>)
    ensures
        r.deep_view() == sort_spec(flat.deep_view()),
        sorted_by_start(r.deep_view()),
{
    let mut out: Vec<FlatSymbol> = Vec::new();
    let n = flat.len();
    let mut i: usize = 0;
    while i < n
        invariant
            0 <= i <= n,
            n == flat@.len(),
            out.deep_view() == sort_at(flat.deep_view(), i as int),
        decreases n - i,
    {
        proof {
            assert(flat.deep_view()[i as int] == flat@[i as int]@);
        }
        let f = FlatSymbol {
            name: flat[i].name.clone(),
            kind: flat[i].kind,
            start_byte: flat[i].start_byte,
            end_byte: flat[i].end_byte,
            range: flat[i].range,
        };
        insert_flat(&mut out, f);
        i += 1;
    }
    proof {
        lemma_sort_sorted(flat.deep_view(), n as int);
    }
    out
}

/// Flatten every match of a file's capture stream into symbol
/// candidates, keeping match order.
pub fn flatten_matches(ms: &Vec<RawMatch>) -> (r: Vec<FlatSymbol>)
    ensures
        r.deep_view() == flatten_spec(ms.deep_view()),
{
    let mut out: Vec<FlatSymbol> = Vec::new();
    let n = ms.len();
    let mut i: usize = 0;
    while i < n
        invariant
            0 <= i <= n,
            n == ms@.len(),
            out.deep_view() == flatten_at(ms.deep_view(), i as int),
        decreases n - i,
    {
        proof {
            assert(ms.deep_view()[i as int] == ms@[i as int]@);
        }
        match flatten_match(&ms[i]) {
            Option::Some(f) => {
                out.push(f);
                proof {
                    assert(out.deep_view() =~= flatten_at(ms.deep_view(), i + 1));
                }
            },
            Option::None => {
                proof {
                    assert(out.deep_view() =~= flatten_at(ms.deep_view(), i + 1));
                }
            },
        }
        i += 1;
    }
    out
}

/// The forest one capture stream extracts to: flattened, deduplicated
/// by (name, start line), stably sorted by start offset, then nested.
pub open spec fn pipeline_spec(ms: Seq<RawMatchView>) -> Seq<SymbolView> {
    build_forest(sort_spec(dedup_spec(flatten_spec(ms))))
}

/// Extraction's pure core: from one file's raw capture stream to its
/// containment forest.
pub fn symbols_from_matches(ms: &Vec<RawMatch>) -> (r: Vec<Symbol>)
    ensures
        symbols_view(r@) == pipeline_spec(ms.deep_view()),
{
    let flat = flatten_matches(ms);
    let deduped = dedup_flat(flat);
    let sorted = sort_flat(deduped);
    crate::forest::build_nested_tree(sorted)
}

/// Determinism: what a file extracts to is a function of its language
/// and its source text alone, so re-running extraction on unchanged
/// source yields an identical forest — same names, kinds, ranges and
/// children order — run after run.
pub proof fn lemma_extraction_deterministic(
    lang_a: Language,
    code_a: Seq<char>,
    lang_b: Language,
    code_b: Seq<char>,
)
    requires
        lang_a == lang_b,
        code_a == code_b,
    ensures
        extraction_spec(lang_a, code_a) == extraction_spec(lang_b, code_b),
{
}

/// The containment invariant at the pipeline level: whenever the
/// sorted, deduplicated candidates of a capture stream are free of
/// partial overlaps, the stream's forest is the erasure of a
/// well-nested span forest — every parent-child pair of the emitted
/// forest arises from a child span lying wholly within its parent's.
/// A stream with partially overlapping spans is left out: the builder
/// nests the overlapper at the open level regardless.
pub proof fn lemma_pipeline_well_nested(ms: Seq<RawMatchView>)
    requires
        crate::forest::nestable(sort_spec(dedup_spec(flatten_spec(ms)))),
    ensures
        ({
            let flat = sort_spec(dedup_spec(flatten_spec(ms)));
            crate::forest::well_nested_forest(crate::forest::span_forest(flat))
                && pipeline_spec(ms) == crate::forest::erase_forest(
                crate::forest::span_forest(flat),
            )
        }),
{
    let deduped = dedup_spec(flatten_spec(ms));
    let flat = sort_spec(deduped);
    lemma_sort_sorted(deduped, deduped.len() as int);
    crate::forest::lemma_forest_well_nested(flat);
    crate::forest::lemma_build_is_erased_span_forest(flat);
}

/// Why extracting a file failed.
#[derive(Debug, Clone, Copy, PartialEq, Eq, Structural)]
pub enum ExtractError {
    /// The parser refused the grammar.
    Language,
    /// The parser produced no syntax tree.
    Parse,
    /// The structural query did not compile against the grammar.
    Query,
}

impl ExtractError {
    /// A short diagnostic for logs.
    pub fn message(&self) -> &'static str {
        match self {
            ExtractError::Language => "parser rejected the grammar",
            ExtractError::Parse => "parse failed",
            ExtractError::Query => "structural query failed to compile",
        }
    }
}

/// Run the structural query of a language over source text: the
/// named capture stream, or an error exactly when the stream does not
/// exist for these arguments.
pub fn run_structural_query(lang: &Language, query: &str, code: &str) -> (r: Result<
    Vec<RawMatch>,
    ExtractError,
>)
    ensures
        match r {
            Result::Ok(ms) => adapter::ts_stream(*lang, query@, code@) == Option::Some(
                ms.deep_view(),
            ),
            Result::Err(_) => adapter::ts_stream(*lang, query@, code@) is None,
        },
{
    match lang {
        Language::Python => adapter::run_query_python(query, code),
        Language::TypeScript => adapter::run_query_typescript(query, code),
        Language::Tsx => adapter::run_query_tsx(query, code),
        Language::JavaScript => adapter::run_query_javascript(query, code),
        Language::Jsx => adapter::run_query_jsx(query, code),
        Language::Go => adapter::run_query_go(query, code),
        Language::Rust => adapter::run_query_rust(query, code),
        Language::Java => adapter::run_query_java(query, code),
        Language::C => adapter::run_query_c(query, code),
        Language::Cpp => adapter::run_query_cpp(query, code),
        Language::Ruby => adapter::run_query_ruby(query, code),
        Language::Markdown => adapter::run_query_markdown(query, code),
        Language::Swift => adapter::run_query_swift(query, code),
        Language::ObjC => adapter::run_query_objc(query, code),
        Language::Kotlin => adapter::run_query_kotlin(query, code),
        Language::CSharp => adapter::run_query_csharp(query, code),
    }
}

/// What extracting source text in a language yields: the verified
/// pipeline applied to the named capture stream of the language's own
/// query, or nothing exactly when that stream does not exist.
pub open spec fn extraction_spec(lang: Language, code: Seq<char>) -> Option<Seq<SymbolView>> {
    match adapter::ts_stream(lang, query_source_spec(lang), code) {
        Option::Some(ms) => Option::Some(pipeline_spec(ms)),
        Option::None => Option::None,
    }
}

/// Extract the containment forest of one file's source text: exactly
/// the extraction the language and the text determine, with an error
/// exactly when the parser boundary yields no stream.
pub fn extract_symbols(code: &str, lang: &Language) -> (r: Result<Vec<Symbol>, ExtractError>)
    ensures
        match r {
            Result::Ok(syms) => extraction_spec(*lang, code@) == Option::Some(
                symbols_view(syms@),
            ),
            Result::Err(_) => extraction_spec(*lang, code@) is None,
        },
{
    let query = get_query_source(lang);
    let ms = match run_structural_query(lang, query, code) {
        Result::Ok(ms) => ms,
        Result::Err(e) => {
            return Result::Err(e);
        },
    };
    Result::Ok(symbols_from_matches(&ms))
}

/// An extraction failure, carrying the path of the file it concerns.
#[derive(Debug)]
pub struct ExtractFailure {
    pub path: String,
    pub error: ExtractError,
}

/// Extract one file's index from its source text: the forest the
/// language and the text determine, under the file's project-relative
/// path and language id. A failure carries the file's path.
pub fn extract_from_source(path: &str, code: &str, lang: &Language) -> (r: Result<
    FileMap,
    ExtractFailure,
>)
    ensures
        match r {
            Result::Ok(m) => m@.path == path@ && m@.language == lang.as_str_spec()
                && extraction_spec(*lang, code@) == Option::Some(m@.symbols),
            Result::Err(f) => f.path@ == path@ && extraction_spec(*lang, code@) is None,
        },
{
    let symbols = match extract_symbols(code, lang) {
        Result::Ok(s) => s,
        Result::Err(e) => {
            return Result::Err(ExtractFailure { path: path.to_owned(), error: e });
        },
    };
    Result::Ok(FileMap { path: path.to_owned(), language: lang.as_str().to_owned(), symbols })
}

} // verus!
