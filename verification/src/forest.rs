//! Nesting a sorted flat symbol list into a containment forest with a
//! single monotonic stack of open scopes.

use vstd::prelude::*;

use crate::extractor::{sorted_by_start, FlatSymbol, FlatView};
use crate::symbol::{Symbol, SymbolView, symbols_view};

verus! {

/// The builder's state: finished roots, and the stack of open symbols,
/// each paired with its end offset. The stack grows toward inner
/// scopes.
pub struct BuildState {
    pub roots: Seq<SymbolView>,
    pub stack: Seq<(SymbolView, usize)>,
}

/// The state before any symbol is processed.
pub open spec fn build_init() -> BuildState {
    BuildState { roots: Seq::empty(), stack: Seq::empty() }
}

/// A symbol candidate as a childless symbol.
pub open spec fn leaf_of(f: FlatView) -> SymbolView {
    SymbolView {
        name: f.name,
        kind: f.kind,
        detail: Option::None,
        range: f.range,
        children: Seq::empty(),
    }
}

/// Close the innermost open symbol: it becomes a child of the symbol
/// below it, or a new root when none is open.
pub open spec fn attach_top(st: BuildState) -> BuildState
    recommends
        st.stack.len() > 0,
{
    let top = st.stack.last();
    let rest = st.stack.drop_last();
    if rest.len() == 0 {
        BuildState { roots: st.roots.push(top.0), stack: rest }
    } else {
        let parent = rest.last();
        let updated = (
            SymbolView { children: parent.0.children.push(top.0), ..parent.0 },
            parent.1,
        );
        BuildState { roots: st.roots, stack: rest.drop_last().push(updated) }
    }
}

/// Close every open symbol whose extent ends at or before offset `s`.
pub open spec fn close_until(st: BuildState, s: usize) -> BuildState
    decreases st.stack.len(),
{
    if st.stack.len() == 0 {
        st
    } else if st.stack.last().1 <= s {
        close_until(attach_top(st), s)
    } else {
        st
    }
}

/// Process one symbol candidate: close the scopes it lies past, then
/// open it.
pub open spec fn push_step(st: BuildState, f: FlatView) -> BuildState {
    let st1 = close_until(st, f.start_byte);
    BuildState { roots: st1.roots, stack: st1.stack.push((leaf_of(f), f.end_byte)) }
}

/// The builder's state after the first `n` candidates.
pub open spec fn build_state_at(flat: Seq<FlatView>, n: int) -> BuildState
    decreases n,
{
    if n <= 0 {
        build_init()
    } else {
        push_step(build_state_at(flat, n - 1), flat[n - 1])
    }
}

/// Close every still-open symbol, innermost first, and return the
/// finished roots.
pub open spec fn drain(st: BuildState) -> Seq<SymbolView>
    decreases st.stack.len(),
{
    if st.stack.len() == 0 {
        st.roots
    } else {
        drain(attach_top(st))
    }
}

/// The containment forest of a flat candidate list: the nesting that
/// one left-to-right pass with a stack of open scopes produces.
pub open spec fn build_forest(flat: Seq<FlatView>) -> Seq<SymbolView> {
    drain(build_state_at(flat, flat.len() as int))
}

/// The model of an open-symbol stack.
pub open spec fn stack_view(st: Seq<(Symbol, usize)>) -> Seq<(SymbolView, usize)> {
    Seq::new(st.len(), |i: int| (st[i].0@, st[i].1))
}

/// A candidate together with the children it has gathered: the node of
/// a containment forest that still remembers its byte span.
pub struct SpanTree {
    pub item: FlatView,
    pub kids: Seq<SpanTree>,
}

/// The builder's state over span-carrying nodes.
pub struct SpanState {
    pub roots: Seq<SpanTree>,
    pub stack: Seq<SpanTree>,
}

/// Close the innermost open node, span-carrying form.
pub open spec fn span_attach(st: SpanState) -> SpanState
    recommends
        st.stack.len() > 0,
{
    let top = st.stack.last();
    let rest = st.stack.drop_last();
    if rest.len() == 0 {
        SpanState { roots: st.roots.push(top), stack: rest }
    } else {
        let parent = rest.last();
        let updated = SpanTree { item: parent.item, kids: parent.kids.push(top) };
        SpanState { roots: st.roots, stack: rest.drop_last().push(updated) }
    }
}

/// Close every open node whose span ends at or before `s`.
pub open spec fn span_close(st: SpanState, s: usize) -> SpanState
    decreases st.stack.len(),
{
    if st.stack.len() == 0 {
        st
    } else if st.stack.last().item.end_byte <= s {
        span_close(span_attach(st), s)
    } else {
        st
    }
}

/// Process one candidate, span-carrying form.
pub open spec fn span_push(st: SpanState, f: FlatView) -> SpanState {
    let st1 = span_close(st, f.start_byte);
    SpanState { roots: st1.roots, stack: st1.stack.push(SpanTree { item: f, kids: Seq::empty() }) }
}

/// The span-carrying state after the first `n` candidates.
pub open spec fn span_state_at(flat: Seq<FlatView>, n: int) -> SpanState
    decreases n,
{
    if n <= 0 {
        SpanState { roots: Seq::empty(), stack: Seq::empty() }
    } else {
        span_push(span_state_at(flat, n - 1), flat[n - 1])
    }
}

/// Close every still-open node and return the finished roots.
pub open spec fn span_drain(st: SpanState) -> Seq<SpanTree>
    decreases st.stack.len(),
{
    if st.stack.len() == 0 {
        st.roots
    } else {
        span_drain(span_attach(st))
    }
}

/// The span-carrying containment forest of a flat candidate list.
pub open spec fn span_forest(flat: Seq<FlatView>) -> Seq<SpanTree> {
    span_drain(span_state_at(flat, flat.len() as int))
}

/// `a`'s byte span lies wholly within `b`'s.
pub open spec fn span_inside(a: FlatView, b: FlatView) -> bool {
    b.start_byte <= a.start_byte && a.end_byte <= b.end_byte
}

/// Every direct child's span lies within the node's span.
pub open spec fn kids_inside(t: SpanTree) -> bool {
    forall|i: int| 0 <= i < t.kids.len() ==> span_inside((#[trigger] t.kids[i]).item, t.item)
}

/// Every node's children lie within it, throughout the tree.
pub open spec fn well_nested_tree(t: SpanTree) -> bool
    decreases t,
{
    kids_inside(t) && well_nested_forest(t.kids)
}

/// Every tree of the forest is well nested.
pub open spec fn well_nested_forest(ts: Seq<SpanTree>) -> bool
    decreases ts,
{
    if ts.len() == 0 {
        true
    } else {
        well_nested_forest(ts.subrange(0, ts.len() - 1)) && well_nested_tree(ts.last())
    }
}

/// Membership form of forest well-nestedness.
proof fn lemma_wn_forest_index(ts: Seq<SpanTree>)
    requires
        well_nested_forest(ts),
    ensures
        forall|i: int| 0 <= i < ts.len() ==> well_nested_tree(#[trigger] ts[i]),
    decreases ts.len(),
{
    if ts.len() > 0 {
        let dl = ts.subrange(0, ts.len() - 1);
        lemma_wn_forest_index(dl);
        assert forall|i: int| 0 <= i < ts.len() implies well_nested_tree(#[trigger] ts[i]) by {
            if i < ts.len() - 1 {
                assert(ts[i] == dl[i]);
            } else {
                assert(ts[i] == ts.last());
            }
        }
    }
}

/// A well-nested tree appended to a well-nested forest.
proof fn lemma_wn_forest_push(ts: Seq<SpanTree>, t: SpanTree)
    requires
        well_nested_forest(ts),
        well_nested_tree(t),
    ensures
        well_nested_forest(ts.push(t)),
{
    assert(ts.push(t).subrange(0, ts.len() as int) =~= ts);
    assert(ts.push(t).last() == t);
}

/// No candidate partially overlaps an earlier one: a later span either
/// begins at or past the earlier span's end, or ends within it.
pub open spec fn nestable(flat: Seq<FlatView>) -> bool {
    forall|i: int, j: int|
        0 <= i < j < flat.len() ==> ((#[trigger] flat[j]).start_byte >= (#[trigger] flat[i]).end_byte
            || flat[j].end_byte <= flat[i].end_byte)
}

/// The builder's running invariant, span-carrying form: finished trees
/// are well nested, open nodes are well nested and nest strictly along
/// the stack, and every open node is one of the first `n` candidates.
pub open spec fn span_inv(st: SpanState, flat: Seq<FlatView>, n: int) -> bool {
    &&& well_nested_forest(st.roots)
    &&& well_nested_forest(st.stack)
    &&& forall|i: int, j: int|
        0 <= i < j < st.stack.len() ==> span_inside(
            (#[trigger] st.stack[j]).item,
            (#[trigger] st.stack[i]).item,
        )
    &&& forall|i: int|
        0 <= i < st.stack.len() ==> exists|k: int|
            0 <= k < n && (#[trigger] st.stack[i]).item == flat[k]
}

/// Closing the innermost node preserves the invariant; the remaining
/// open nodes are the former ones, unchanged in their items.
proof fn lemma_span_attach_inv(st: SpanState, flat: Seq<FlatView>, n: int)
    requires
        span_inv(st, flat, n),
        st.stack.len() > 0,
    ensures
        span_inv(span_attach(st), flat, n),
        span_attach(st).stack.len() == st.stack.len() - 1,
        forall|i: int|
            0 <= i < st.stack.len() - 1 ==> (#[trigger] span_attach(st).stack[i]).item
                == st.stack[i].item,
{
    let top = st.stack.last();
    let rest = st.stack.drop_last();
    lemma_wn_forest_index(st.stack);
    assert(well_nested_forest(rest)) by {
        assert(rest =~= st.stack.subrange(0, st.stack.len() - 1));
    }
    if rest.len() == 0 {
        lemma_wn_forest_push(st.roots, top);
    } else {
        let parent = rest.last();
        let updated = SpanTree { item: parent.item, kids: parent.kids.push(top) };
        assert(span_inside(top.item, parent.item));
        assert(kids_inside(updated)) by {
            assert(forall|i: int|
                0 <= i < parent.kids.len() ==> updated.kids[i] == (#[trigger] parent.kids[i]));
            assert(updated.kids.last() == top);
        }
        assert(well_nested_tree(updated)) by {
            lemma_wn_forest_push(parent.kids, top);
        }
        let rest2 = rest.drop_last();
        assert(well_nested_forest(rest2)) by {
            assert(rest2 =~= rest.subrange(0, rest.len() - 1));
            lemma_wn_forest_index(rest);
            lemma_wn_forest_snoc(rest2);
        }
        lemma_wn_forest_push(rest2, updated);
        let new_stack = rest2.push(updated);
        assert forall|i: int, j: int| 0 <= i < j < new_stack.len() implies span_inside(
            (#[trigger] new_stack[j]).item,
            (#[trigger] new_stack[i]).item,
        ) by {
            assert(new_stack[i].item == st.stack[i].item);
            assert(new_stack[j].item == st.stack[j].item);
        }
    }
}

/// A forest whose members are all well nested is well nested.
proof fn lemma_wn_forest_snoc(ts: Seq<SpanTree>)
    requires
        forall|i: int| 0 <= i < ts.len() ==> well_nested_tree(#[trigger] ts[i]),
    ensures
        well_nested_forest(ts),
    decreases ts.len(),
{
    if ts.len() > 0 {
        let dl = ts.subrange(0, ts.len() - 1);
        lemma_wn_forest_snoc(dl);
    }
}

/// Closing finished nodes preserves the invariant, leaves a prefix of
/// the open nodes, and stops only past `s`.
proof fn lemma_span_close_inv(st: SpanState, s: usize, flat: Seq<FlatView>, n: int)
    requires
        span_inv(st, flat, n),
    ensures
        span_inv(span_close(st, s), flat, n),
        span_close(st, s).stack.len() <= st.stack.len(),
        forall|i: int|
            0 <= i < span_close(st, s).stack.len() ==> (#[trigger] span_close(
                st,
                s,
            ).stack[i]).item == st.stack[i].item,
        span_close(st, s).stack.len() > 0 ==> span_close(st, s).stack.last().item.end_byte > s,
    decreases st.stack.len(),
{
    if st.stack.len() == 0 {
    } else if st.stack.last().item.end_byte <= s {
        lemma_span_attach_inv(st, flat, n);
        lemma_span_close_inv(span_attach(st), s, flat, n);
    } else {
    }
}

/// Processing one candidate preserves the invariant.
proof fn lemma_span_push_inv(st: SpanState, flat: Seq<FlatView>, n: int)
    requires
        span_inv(st, flat, n),
        0 <= n < flat.len(),
        sorted_by_start(flat),
        nestable(flat),
    ensures
        span_inv(span_push(st, flat[n]), flat, n + 1),
{
    let f = flat[n];
    let st1 = span_close(st, f.start_byte);
    lemma_span_close_inv(st, f.start_byte, flat, n);
    let leaf = SpanTree { item: f, kids: Seq::empty() };
    assert(well_nested_tree(leaf));
    lemma_wn_forest_push(st1.stack, leaf);
    let new_stack = st1.stack.push(leaf);
    assert forall|i: int, j: int| 0 <= i < j < new_stack.len() implies span_inside(
        (#[trigger] new_stack[j]).item,
        (#[trigger] new_stack[i]).item,
    ) by {
        if j < new_stack.len() - 1 {
            assert(new_stack[i].item == st1.stack[i].item);
            assert(new_stack[j].item == st1.stack[j].item);
        } else {
            assert(new_stack[j] == leaf);
            let top = st1.stack.last();
            assert(top.item == st.stack[st1.stack.len() - 1].item);
            let k = choose|k: int|
                0 <= k < n && (#[trigger] st.stack[st1.stack.len() - 1]).item == flat[k];
            assert(span_inside(f, top.item)) by {
                assert(flat[k].start_byte <= f.start_byte);
                assert(f.start_byte >= flat[k].end_byte || f.end_byte <= flat[k].end_byte);
                assert(top.item.end_byte > f.start_byte);
            }
            if i < new_stack.len() - 1 {
                let ii = new_stack[i].item;
                assert(ii == st1.stack[i].item);
                if i < st1.stack.len() - 1 {
                    assert(span_inside(top.item, st.stack[i].item));
                }
            }
        }
    }
    assert forall|i: int| 0 <= i < new_stack.len() implies exists|k: int|
        0 <= k < n + 1 && (#[trigger] new_stack[i]).item == flat[k] by {
        if i < new_stack.len() - 1 {
            assert(new_stack[i].item == st1.stack[i].item);
            assert(new_stack[i].item == st.stack[i].item);
            let k = choose|k: int| 0 <= k < n && (#[trigger] st.stack[i]).item == flat[k];
            assert(0 <= k < n + 1 && new_stack[i].item == flat[k]);
        } else {
            assert(new_stack[i].item == flat[n]);
        }
    }
}

/// The invariant holds after any number of candidates.
proof fn lemma_span_state_inv(flat: Seq<FlatView>, n: int)
    requires
        0 <= n <= flat.len(),
        sorted_by_start(flat),
        nestable(flat),
    ensures
        span_inv(span_state_at(flat, n), flat, n),
    decreases n,
{
    if n == 0 {
    } else {
        lemma_span_state_inv(flat, n - 1);
        lemma_span_push_inv(span_state_at(flat, n - 1), flat, n - 1);
    }
}

/// Draining a state that satisfies the invariant yields a well-nested
/// forest.
proof fn lemma_span_drain_wn(st: SpanState, flat: Seq<FlatView>, n: int)
    requires
        span_inv(st, flat, n),
    ensures
        well_nested_forest(span_drain(st)),
    decreases st.stack.len(),
{
    if st.stack.len() > 0 {
        lemma_span_attach_inv(st, flat, n);
        lemma_span_drain_wn(span_attach(st), flat, n);
    }
}

/// The containment forest is well nested: every node's span lies
/// wholly within its parent's span, at every depth. This holds for
/// every candidate list that is sorted by start offset and free of
/// partial overlaps; a later candidate that straddles an earlier one's
/// end is nested by the builder at the open level regardless, which is
/// why the overlap-freedom premise is needed.
pub proof fn lemma_forest_well_nested(flat: Seq<FlatView>)
    requires
        sorted_by_start(flat),
        nestable(flat),
    ensures
        well_nested_forest(span_forest(flat)),
{
    lemma_span_state_inv(flat, flat.len() as int);
    lemma_span_drain_wn(span_state_at(flat, flat.len() as int), flat, flat.len() as int);
}

/// The symbol that a span-carrying node loses its byte span to.
pub open spec fn erase_tree(t: SpanTree) -> SymbolView
    decreases t,
{
    SymbolView {
        name: t.item.name,
        kind: t.item.kind,
        detail: Option::None,
        range: t.item.range,
        children: erase_forest(t.kids),
    }
}

/// The symbols a span-carrying forest erases to, in order.
pub open spec fn erase_forest(ts: Seq<SpanTree>) -> Seq<SymbolView>
    decreases ts,
{
    if ts.len() == 0 {
        Seq::empty()
    } else {
        erase_forest(ts.subrange(0, ts.len() - 1)).push(erase_tree(ts.last()))
    }
}

/// Appending a node appends its erasure.
proof fn lemma_erase_forest_push(ts: Seq<SpanTree>, t: SpanTree)
    ensures
        erase_forest(ts.push(t)) == erase_forest(ts).push(erase_tree(t)),
{
    assert(ts.push(t).subrange(0, ts.len() as int) =~= ts);
}

/// The builder's state with every node's byte span forgotten.
pub open spec fn erased(st: SpanState) -> BuildState {
    BuildState {
        roots: erase_forest(st.roots),
        stack: Seq::new(st.stack.len(), |i: int| (erase_tree(st.stack[i]), st.stack[i].item.end_byte)),
    }
}

/// Closing the innermost node commutes with erasure.
proof fn lemma_attach_erase(st: SpanState)
    requires
        st.stack.len() > 0,
    ensures
        attach_top(erased(st)) == erased(span_attach(st)),
{
    let top = st.stack.last();
    let rest = st.stack.drop_last();
    assert(erased(st).stack.last() == (erase_tree(top), top.item.end_byte));
    assert(erased(st).stack.drop_last() =~= erased(
        SpanState { roots: st.roots, stack: rest },
    ).stack);
    if rest.len() == 0 {
        lemma_erase_forest_push(st.roots, top);
        assert(attach_top(erased(st)).stack =~= erased(span_attach(st)).stack);
    } else {
        let parent = rest.last();
        let updated = SpanTree { item: parent.item, kids: parent.kids.push(top) };
        lemma_erase_forest_push(parent.kids, top);
        assert(erase_tree(updated) == (SymbolView {
            children: erase_tree(parent).children.push(erase_tree(top)),
            ..erase_tree(parent)
        }));
        assert(erased(st).stack.drop_last().last() == (erase_tree(parent), parent.item.end_byte));
        assert(attach_top(erased(st)).stack =~= erased(span_attach(st)).stack);
    }
}

/// Closing finished nodes commutes with erasure.
proof fn lemma_close_erase(st: SpanState, s: usize)
    ensures
        close_until(erased(st), s) == erased(span_close(st, s)),
    decreases st.stack.len(),
{
    if st.stack.len() == 0 {
    } else {
        assert(erased(st).stack.last() == (erase_tree(st.stack.last()), st.stack.last().item.end_byte));
        if st.stack.last().item.end_byte <= s {
            lemma_attach_erase(st);
            lemma_close_erase(span_attach(st), s);
        }
    }
}

/// The two builder models stay in step: the span-free state is the
/// erasure of the span-carrying state.
proof fn lemma_state_erase(flat: Seq<FlatView>, n: int)
    requires
        0 <= n <= flat.len(),
    ensures
        build_state_at(flat, n) == erased(span_state_at(flat, n)),
    decreases n,
{
    if n == 0 {
        assert(build_state_at(flat, 0).stack =~= erased(span_state_at(flat, 0)).stack);
        assert(build_state_at(flat, 0) =~= erased(span_state_at(flat, 0)));
    } else {
        lemma_state_erase(flat, n - 1);
        let st = span_state_at(flat, n - 1);
        let f = flat[n - 1];
        lemma_close_erase(st, f.start_byte);
        let st1 = span_close(st, f.start_byte);
        let leaf = SpanTree { item: f, kids: Seq::empty() };
        assert(erase_tree(leaf) == leaf_of(f));
        assert(push_step(erased(st), f).stack =~= erased(span_push(st, f)).stack);
    }
}

/// Draining commutes with erasure.
proof fn lemma_drain_erase(st: SpanState)
    ensures
        drain(erased(st)) == erase_forest(span_drain(st)),
    decreases st.stack.len(),
{
    if st.stack.len() == 0 {
    } else {
        assert(erased(st).stack.last() == (erase_tree(st.stack.last()), st.stack.last().item.end_byte));
        lemma_attach_erase(st);
        lemma_drain_erase(span_attach(st));
    }
}

/// The emitted forest is exactly the span-carrying forest with each
/// node's byte span forgotten: parent-child pairs of the output arise
/// from nested spans and nothing else.
pub proof fn lemma_build_is_erased_span_forest(flat: Seq<FlatView>)
    ensures
        build_forest(flat) == erase_forest(span_forest(flat)),
{
    lemma_state_erase(flat, flat.len() as int);
    lemma_drain_erase(span_state_at(flat, flat.len() as int));
}

/// Close the innermost open symbol in the executable state.
fn attach_last(result: &mut Vec<Symbol>, stack: &mut Vec<(Symbol, usize)>)
    requires
        old(stack)@.len() > 0,
    ensures
        ({
            let st1 = attach_top(
                BuildState {
                    roots: symbols_view(old(result)@),
                    stack: stack_view(old(stack)@),
                },
            );
            symbols_view(final(result)@) == st1.roots && stack_view(final(stack)@) == st1.stack
        }),
{
    let ghost st0 = BuildState {
        roots: symbols_view(old(result)@),
        stack: stack_view(old(stack)@),
    };
    let top = stack.pop().unwrap();
    let completed = top.0;
    proof {
        assert(stack_view(stack@) =~= st0.stack.drop_last());
        assert(completed@ == st0.stack.last().0);
    }
    if stack.len() == 0 {
        result.push(completed);
        proof {
            crate::symbol::lemma_symbols_view_push(old(result)@, completed);
        }
    } else {
        let parent = stack.pop().unwrap();
        let mut parent_sym = parent.0;
        let ghost old_children = parent_sym.children@;
        parent_sym.children.push(completed);
        proof {
            crate::symbol::lemma_symbols_view_push(old_children, completed);
        }
        stack.push((parent_sym, parent.1));
        proof {
            let rest = st0.stack.drop_last();
            let updated = (
                SymbolView {
                    children: rest.last().0.children.push(st0.stack.last().0),
                    ..rest.last().0
                },
                rest.last().1,
            );
            assert(parent_sym@ == updated.0);
            assert(stack_view(stack@) =~= rest.drop_last().push(updated));
        }
    }
}

/// Nest a flat, sorted symbol list into its containment forest.
///
/// Scanning left to right, each candidate first closes every open
/// symbol whose extent ends at or before the candidate's start — a
/// closed symbol becomes a child of the symbol below it on the stack,
/// or a root — and is then pushed as the innermost open symbol. At the
/// end, the remaining open symbols close innermost-first.
pub fn build_nested_tree(flat: Vec<FlatSymbol>) -> (r: Vec<Symbol>)
    ensures
        symbols_view(r@) == build_forest(flat.deep_view()),
{
    let ghost fv = flat.deep_view();
    let mut result: Vec<Symbol> = Vec::new();
    let mut stack: Vec<(Symbol, usize)> = Vec::new();
    proof {
        assert(symbols_view(result@) =~= Seq::<SymbolView>::empty());
        assert(stack_view(stack@) =~= Seq::<(SymbolView, usize)>::empty());
    }
    let n = flat.len();
    let mut idx: usize = 0;
    while idx < n
        invariant
            0 <= idx <= n,
            n == flat@.len(),
            fv == flat.deep_view(),
            fv.len() == n,
            (BuildState { roots: symbols_view(result@), stack: stack_view(stack@) })
                == build_state_at(fv, idx as int),
        decreases n - idx,
    {
        proof {
            assert(fv[idx as int] == flat@[idx as int]@);
        }
        let start_byte = flat[idx].start_byte;
        let end_byte = flat[idx].end_byte;
        let ghost entry = build_state_at(fv, idx as int);
        while stack.len() > 0 && stack[stack.len() - 1].1 <= start_byte
            invariant
                fv == flat.deep_view(),
                close_until(
                    BuildState { roots: symbols_view(result@), stack: stack_view(stack@) },
                    start_byte,
                ) == close_until(entry, start_byte),
            decreases stack@.len(),
        {
            proof {
                assert(stack_view(stack@).last() == (stack@.last().0@, stack@.last().1));
            }
            let ghost pre_len = stack@.len();
            attach_last(&mut result, &mut stack);
            proof {
                assert(stack@.len() == stack_view(stack@).len());
                assert(stack@.len() == pre_len - 1);
            }
        }
        let sym = Symbol {
            name: flat[idx].name.clone(),
            kind: flat[idx].kind,
            detail: Option::None,
            range: flat[idx].range,
            children: Vec::new(),
        };
        proof {
            let cur = BuildState { roots: symbols_view(result@), stack: stack_view(stack@) };
            if stack@.len() > 0 {
                assert(stack_view(stack@).last() == (stack@.last().0@, stack@.last().1));
            }
            assert(close_until(cur, start_byte) == cur);
            assert(sym@ == leaf_of(fv[idx as int])) by {
                assert(symbols_view(Seq::<Symbol>::empty()) =~= Seq::<SymbolView>::empty());
            }
        }
        stack.push((sym, end_byte));
        proof {
            let prev = close_until(entry, start_byte);
            assert(stack_view(stack@) =~= prev.stack.push((sym@, end_byte)));
            assert((BuildState { roots: symbols_view(result@), stack: stack_view(stack@) })
                == build_state_at(fv, idx + 1));
        }
        idx += 1;
    }
    let ghost closed = build_state_at(fv, n as int);
    while stack.len() > 0
        invariant
            drain(BuildState { roots: symbols_view(result@), stack: stack_view(stack@) })
                == drain(closed),
        decreases stack@.len(),
    {
        proof {
            assert(stack_view(stack@).last() == (stack@.last().0@, stack@.last().1));
        }
        let ghost pre_len = stack@.len();
        attach_last(&mut result, &mut stack);
        proof {
            assert(stack@.len() == stack_view(stack@).len());
            assert(stack@.len() == pre_len - 1);
        }
    }
    proof {
        assert(stack_view(stack@) =~= Seq::<(SymbolView, usize)>::empty());
    }
    result
}

} // verus!
