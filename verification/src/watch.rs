//! The incremental re-indexing engine: the per-file metadata cache,
//! the staleness test, and the batch update procedure.
//!
//! The engine works on observations: for each candidate path the
//! caller reports whether the file exists, its current metadata, and
//! its source text. The engine decides, updates the cache, and emits
//! output commands — writes and removals of artifacts — for the
//! caller to perform. File-system access itself stays outside.

use vstd::prelude::*;

use crate::detector::detect_spec;
use crate::extractor::{extract_from_source, extraction_spec};
use crate::output::{render_single, render_single_spec};
use crate::scanner::{output_path, output_path_spec, strip_base_spec};
use crate::symbol::FileMapView;
use crate::text::seq_is_prefix;

verus! {

/// The cached snapshot of one file: modification time in whole
/// seconds, and byte size.
#[derive(Debug, Clone, Copy, PartialEq, Eq, Structural)]
pub struct CacheEntry {
    pub mtime: u64,
    pub size: u64,
}

/// One tracked file and its snapshot.
pub struct CachePair {
    pub path: String,
    pub entry: CacheEntry,
}

/// The map a cache listing folds to; a later pair with the same path
/// would win, but the engine keeps paths unique.
pub open spec fn cache_map_at(c: Seq<CachePair>, n: int) -> Map<Seq<char>, CacheEntry>
    decreases n,
{
    if n <= 0 {
        Map::empty()
    } else {
        cache_map_at(c, n - 1).insert(c[n - 1].path@, c[n - 1].entry)
    }
}

/// The map a cache listing folds to.
pub open spec fn cache_map(c: Seq<CachePair>) -> Map<Seq<char>, CacheEntry> {
    cache_map_at(c, c.len() as int)
}

/// No path is tracked twice.
pub open spec fn cache_keys_unique(c: Seq<CachePair>) -> bool {
    forall|i: int, j: int|
        0 <= i < j < c.len() ==> (#[trigger] c[i]).path@ != (#[trigger] c[j]).path@
}

/// What the folded map holds: exactly the listed paths, each at its
/// listed snapshot when no later pair shadows it.
proof fn lemma_cache_map_at(c: Seq<CachePair>, n: int)
    requires
        0 <= n <= c.len(),
    ensures
        forall|k: Seq<char>|
            cache_map_at(c, n).contains_key(k) <==> exists|i: int|
                0 <= i < n && (#[trigger] c[i]).path@ == k,
        forall|i: int|
            0 <= i < n && (forall|j: int| i < j < n ==> (#[trigger] c[j]).path@ != c[i].path@)
                ==> cache_map_at(c, n)[(#[trigger] c[i]).path@] == c[i].entry,
    decreases n,
{
    if n > 0 {
        lemma_cache_map_at(c, n - 1);
        assert forall|k: Seq<char>| cache_map_at(c, n).contains_key(k) implies exists|i: int|
            0 <= i < n && (#[trigger] c[i]).path@ == k by {
            if k == c[n - 1].path@ {
                assert(0 <= n - 1 < n && (#[trigger] c[n - 1]).path@ == k);
            } else {
                assert(cache_map_at(c, n - 1).contains_key(k));
                let i = choose|i: int| 0 <= i < n - 1 && (#[trigger] c[i]).path@ == k;
                assert(0 <= i < n && c[i].path@ == k);
            }
        }
        assert forall|k: Seq<char>|
            (exists|i: int| 0 <= i < n && (#[trigger] c[i]).path@ == k) implies cache_map_at(
            c,
            n,
        ).contains_key(k) by {
            let i = choose|i: int| 0 <= i < n && (#[trigger] c[i]).path@ == k;
            if i < n - 1 {
                assert(exists|t: int| 0 <= t < n - 1 && (#[trigger] c[t]).path@ == k);
                assert(cache_map_at(c, n - 1).contains_key(k));
            }
        }
        assert forall|i: int|
            0 <= i < n && (forall|j: int| i < j < n ==> (#[trigger] c[j]).path@ != c[i].path@)
                implies cache_map_at(c, n)[(#[trigger] c[i]).path@] == c[i].entry by {
            if i < n - 1 {
                assert(forall|j: int| i < j < n - 1 ==> (#[trigger] c[j]).path@ != c[i].path@);
                assert(cache_map_at(c, n - 1)[c[i].path@] == c[i].entry);
                assert(c[n - 1].path@ != c[i].path@);
            }
        }
    }
}

/// Dropping one pair from a cache with unique paths drops exactly its
/// key from the folded map.
proof fn lemma_cache_map_remove(c: Seq<CachePair>, i: int)
    requires
        cache_keys_unique(c),
        0 <= i < c.len(),
    ensures
        cache_map(c.remove(i)) == cache_map(c).remove(c[i].path@),
    decreases c.len(),
{
    let n = c.len() as int;
    lemma_cache_map_at(c, n - 1);
    if i == n - 1 {
        assert(c.remove(i) =~= c.subrange(0, n - 1));
        assert(cache_map(c.remove(i)) == cache_map_at(c.subrange(0, n - 1), n - 1)) by {
            lemma_cache_map_at_congruence(c, c.subrange(0, n - 1), n - 1);
        }
        assert(!cache_map_at(c, n - 1).contains_key(c[i].path@));
        assert(cache_map_at(c, n - 1).insert(c[i].path@, c[i].entry).remove(c[i].path@)
            =~= cache_map_at(c, n - 1));
        assert(cache_map_at(c.subrange(0, n - 1), n - 1) == cache_map_at(c, n - 1)) by {
            lemma_cache_map_at_congruence(c, c.subrange(0, n - 1), n - 1);
        }
    } else {
        let d = c.subrange(0, n - 1);
        assert(cache_keys_unique(d));
        lemma_cache_map_remove(d, i);
        assert(c.remove(i).subrange(0, n - 2) =~= d.remove(i));
        assert(c.remove(i)[n - 2] == c[n - 1]);
        assert(cache_map(c.remove(i)) == cache_map_at(c.remove(i), n - 1));
        assert(cache_map_at(c.remove(i), n - 1) == cache_map_at(c.remove(i), n - 2).insert(
            c[n - 1].path@,
            c[n - 1].entry,
        ));
        assert(cache_map_at(c.remove(i), n - 2) == cache_map(d.remove(i))) by {
            lemma_cache_map_at_congruence(c.remove(i), d.remove(i), n - 2);
        }
        assert(cache_map(d) == cache_map_at(c, n - 1)) by {
            lemma_cache_map_at_congruence(c, d, n - 1);
        }
        assert(c[i].path@ != c[n - 1].path@);
        assert(cache_map_at(c, n - 1).remove(c[i].path@).insert(c[n - 1].path@, c[n - 1].entry)
            =~= cache_map_at(c, n - 1).insert(c[n - 1].path@, c[n - 1].entry).remove(
            c[i].path@,
        ));
    }
}

/// Folding agrees on any common prefix.
proof fn lemma_cache_map_at_congruence(a: Seq<CachePair>, b: Seq<CachePair>, n: int)
    requires
        0 <= n <= a.len(),
        n <= b.len(),
        forall|i: int| 0 <= i < n ==> a[i] == b[i],
    ensures
        cache_map_at(a, n) == cache_map_at(b, n),
    decreases n,
{
    if n > 0 {
        lemma_cache_map_at_congruence(a, b, n - 1);
    }
}

/// The engine's state: the tracked-file cache and the scan's input
/// and output roots, both absolute.
pub struct WatchState {
    cache: Vec<CachePair>,
    pub input: String,
    pub output: String,
}

/// Mathematical model of the engine's state.
pub struct WatchStateView {
    pub cache: Map<Seq<char>, CacheEntry>,
    pub input: Seq<char>,
    pub output: Seq<char>,
}

impl View for WatchState {
    type V = WatchStateView;

    closed spec fn view(&self) -> WatchStateView {
        WatchStateView {
            cache: cache_map(self.cache@),
            input: self.input@,
            output: self.output@,
        }
    }
}

/// A path is stale when it is untracked, its current metadata is
/// unreadable, or its observed (mtime, size) differs from the cached
/// snapshot in either field.
pub open spec fn needs_reparse_spec(
    cache: Map<Seq<char>, CacheEntry>,
    path: Seq<char>,
    meta: Option<(u64, u64)>,
) -> bool {
    if cache.contains_key(path) {
        match meta {
            Option::Some(m) => cache[path].mtime != m.0 || cache[path].size != m.1,
            Option::None => true,
        }
    } else {
        true
    }
}

impl WatchState {
    /// The cache never tracks a path twice.
    pub closed spec fn wf(self) -> bool {
        cache_keys_unique(self.cache@)
    }

    /// A fresh engine: an empty cache over the given roots.
    pub fn new(input: String, output: String) -> (s: Self)
        ensures
            s.wf(),
            s@.cache == Map::<Seq<char>, CacheEntry>::empty(),
            s@.input == input@,
            s@.output == output@,
    {
        let s = WatchState { cache: Vec::new(), input, output };
        proof {
            assert(cache_map(s.cache@) =~= Map::<Seq<char>, CacheEntry>::empty());
        }
        s
    }

    /// Whether no file is tracked.
    pub fn cache_is_empty(&self) -> (r: bool)
        requires
            self.wf(),
        ensures
            r == (self@.cache =~= Map::<Seq<char>, CacheEntry>::empty()),
    {
        proof {
            lemma_cache_map_at(self.cache@, self.cache@.len() as int);
            if self.cache@.len() > 0 {
                assert(self@.cache.contains_key(self.cache@[0].path@));
            } else {
                assert(cache_map(self.cache@) =~= Map::<Seq<char>, CacheEntry>::empty());
            }
        }
        self.cache.len() == 0
    }

    /// The cached snapshot of a path, when the path is tracked.
    pub fn cache_lookup(&self, path: &str) -> (r: Option<CacheEntry>)
        requires
            self.wf(),
        ensures
            match r {
                Option::Some(e) => self@.cache.contains_key(path@) && self@.cache[path@] == e,
                Option::None => !self@.cache.contains_key(path@),
            },
    {
        let n = self.cache.len();
        let mut i: usize = 0;
        while i < n
            invariant
                self.wf(),
                0 <= i <= n,
                n == self.cache@.len(),
                forall|t: int| 0 <= t < i ==> (#[trigger] self.cache@[t]).path@ != path@,
            decreases n - i,
        {
            if crate::text::str_eq_str(self.cache[i].path.as_str(), path) {
                proof {
                    lemma_cache_map_at(self.cache@, self.cache@.len() as int);
                    assert forall|j: int|
                        i < j < n implies (#[trigger] self.cache@[j]).path@ != self.cache@[
                        i as int].path@ by {
                        assert(self.cache@[i as int].path@ != self.cache@[j].path@);
                    }
                    assert(self@.cache[self.cache@[i as int].path@] == self.cache@[
                        i as int].entry);
                    assert(self@.cache.contains_key(path@));
                }
                return Option::Some(self.cache[i].entry);
            }
            i += 1;
        }
        proof {
            lemma_cache_map_at(self.cache@, self.cache@.len() as int);
            assert(!self@.cache.contains_key(path@)) by {
                if self@.cache.contains_key(path@) {
                    let t = choose|t: int|
                        0 <= t < self.cache@.len() && (#[trigger] self.cache@[t]).path@ == path@;
                }
            }
        }
        Option::None
    }

    /// Whether a path is tracked.
    pub fn contains_path(&self, path: &str) -> (r: bool)
        requires
            self.wf(),
        ensures
            r == self@.cache.contains_key(path@),
    {
        match self.cache_lookup(path) {
            Option::Some(_) => true,
            Option::None => false,
        }
    }

    /// Forget a path's snapshot.
    fn cache_remove_key(&mut self, path: &str)
        requires
            old(self).wf(),
        ensures
            final(self).wf(),
            final(self)@.cache == old(self)@.cache.remove(path@),
            final(self).input@ == old(self).input@,
            final(self).output@ == old(self).output@,
    {
        let ghost full = self.cache@;
        let n = self.cache.len();
        let mut i: usize = 0;
        while i < n
            invariant
                0 <= i <= n,
                n == self.cache@.len(),
                self.cache@ == full,
                cache_keys_unique(full),
                self.input@ == old(self).input@,
                self.output@ == old(self).output@,
                old(self)@.cache == cache_map(full),
                forall|t: int| 0 <= t < i ==> (#[trigger] self.cache@[t]).path@ != path@,
            decreases n - i,
        {
            if crate::text::str_eq_str(self.cache[i].path.as_str(), path) {
                proof {
                    lemma_cache_map_remove(full, i as int);
                    assert forall|a: int, b: int|
                        0 <= a < b < full.remove(i as int).len() implies (#[trigger] full.remove(
                        i as int,
                    )[a]).path@ != (#[trigger] full.remove(i as int)[b]).path@ by {
                        if a < i && b < i {
                            assert(full[a].path@ != full[b].path@);
                        } else if a < i {
                            assert(full[a].path@ != full[b + 1].path@);
                        } else {
                            assert(full[a + 1].path@ != full[b + 1].path@);
                        }
                    }
                }
                let ghost key = full[i as int].path@;
                self.cache.remove(i);
                proof {
                    assert(self.cache@ == full.remove(i as int));
                    assert(key == path@);
                    assert(cache_map(self.cache@) == cache_map(full).remove(path@));
                }
                return ;
            }
            i += 1;
        }
        proof {
            lemma_cache_map_at(full, full.len() as int);
            assert(!cache_map(full).contains_key(path@));
            assert(cache_map(full).remove(path@) =~= cache_map(full));
        }
    }

    /// Record a path's snapshot, replacing any previous one.
    fn cache_upsert(&mut self, path: &str, entry: CacheEntry)
        requires
            old(self).wf(),
        ensures
            final(self).wf(),
            final(self)@.cache == old(self)@.cache.insert(path@, entry),
            final(self).input@ == old(self).input@,
            final(self).output@ == old(self).output@,
    {
        self.cache_remove_key(path);
        let ghost mid = self.cache@;
        let p = CachePair { path: path.to_owned(), entry };
        self.cache.push(p);
        proof {
            assert(self.cache@ == mid.push(p));
            lemma_cache_map_at_congruence(mid.push(p), mid, mid.len() as int);
            assert(cache_map(self.cache@) == cache_map_at(mid.push(p), mid.len() as int).insert(
                p.path@,
                p.entry,
            ));
            assert(cache_map(self.cache@) =~= cache_map(mid).insert(path@, entry));
            assert(cache_map(mid) == old(self)@.cache.remove(path@));
            assert(cache_map(self.cache@) =~= old(self)@.cache.insert(path@, entry));
            lemma_cache_map_at(mid, mid.len() as int);
            assert forall|a: int, b: int|
                0 <= a < b < self.cache@.len() implies (#[trigger] self.cache@[a]).path@
                != (#[trigger] self.cache@[b]).path@ by {
                if b == self.cache@.len() - 1 {
                    assert(!cache_map(mid).contains_key(path@));
                    assert(cache_map(mid).contains_key(mid[a].path@));
                } else {
                    assert(mid[a].path@ != mid[b].path@);
                }
            }
        }
    }

    /// The staleness test: stale when untracked, or when the observed
    /// metadata differs from the snapshot in either field, or when no
    /// metadata could be observed.
    pub fn needs_reparse(&self, path: &str, meta: Option<(u64, u64)>) -> (r: bool)
        requires
            self.wf(),
        ensures
            r == needs_reparse_spec(self@.cache, path@, meta),
    {
        match self.cache_lookup(path) {
            Option::Some(entry) => match meta {
                Option::Some(m) => entry.mtime != m.0 || entry.size != m.1,
                Option::None => true,
            },
            Option::None => true,
        }
    }
}

/// An output action the engine asks its caller to perform: write an
/// artifact, or remove one.
pub enum OutputCommand {
    Write { path: String, content: String },
    Remove { path: String },
}

/// Mathematical model of an output command.
pub enum OutputCommandView {
    Write { path: Seq<char>, content: Seq<char> },
    Remove { path: Seq<char> },
}

impl View for OutputCommand {
    type V = OutputCommandView;

    open spec fn view(&self) -> OutputCommandView {
        match self {
            OutputCommand::Write { path, content } => OutputCommandView::Write {
                path: path@,
                content: content@,
            },
            OutputCommand::Remove { path } => OutputCommandView::Remove { path: path@ },
        }
    }
}

impl DeepView for OutputCommand {
    type V = OutputCommandView;

    open spec fn deep_view(&self) -> OutputCommandView {
        self@
    }
}

/// What the caller observed about one candidate path: whether the
/// file exists, its (mtime, size) when readable, and its source text
/// when readable.
pub struct FileObservation {
    pub path: String,
    pub exists: bool,
    pub meta: Option<(u64, u64)>,
    pub source: Option<String>,
}

/// Mathematical model of an observation.
pub struct FileObservationView {
    pub path: Seq<char>,
    pub exists: bool,
    pub meta: Option<(u64, u64)>,
    pub source: Option<Seq<char>>,
}

impl View for FileObservation {
    type V = FileObservationView;

    open spec fn view(&self) -> FileObservationView {
        FileObservationView {
            path: self.path@,
            exists: self.exists,
            meta: self.meta,
            source: match self.source {
                Option::Some(s) => Option::Some(s@),
                Option::None => Option::None,
            },
        }
    }
}

impl DeepView for FileObservation {
    type V = FileObservationView;

    open spec fn deep_view(&self) -> FileObservationView {
        self@
    }
}


/// An observation the update ignores: the file is present, and it
/// either lies under the output root, or resolves to no language, or
/// passes the staleness test unchanged.
pub open spec fn obs_ignored(st: WatchStateView, o: FileObservationView) -> bool {
    o.exists && (seq_is_prefix(st.output, o.path) || detect_spec(o.path) is None
        || !needs_reparse_spec(st.cache, o.path, o.meta))
}

/// The command that removes the artifact of path `p`.
pub open spec fn removal_of(st: WatchStateView, p: Seq<char>) -> OutputCommandView {
    OutputCommandView::Remove { path: output_path_spec(st.input, p, st.output) }
}

/// The artifact path a command addresses.
pub open spec fn command_path(c: OutputCommandView) -> Seq<char> {
    match c {
        OutputCommandView::Write { path, content } => path,
        OutputCommandView::Remove { path } => path,
    }
}

/// A command addresses the artifact of some path in the given
/// observation listing.
pub open spec fn command_from(
    st: WatchStateView,
    observed: Seq<FileObservationView>,
    c: OutputCommandView,
) -> bool {
    exists|k: int|
        0 <= k < observed.len() && command_path(c) == output_path_spec(
            st.input,
            (#[trigger] observed[k]).path,
            st.output,
        )
}

/// A command addresses the artifact of some path observed in the
/// batch or in the rescan listing.
pub open spec fn command_from_observed(
    st: WatchStateView,
    changed: Seq<FileObservationView>,
    rescan: Seq<FileObservationView>,
    c: OutputCommandView,
) -> bool {
    command_from(st, changed, c) || command_from(st, rescan, c)
}

/// The index one observation determines under an input root: present
/// exactly when the path resolves to a language, the source text was
/// readable, and extraction succeeds for that language and text; its
/// path is the observation's path made relative to the input root.
pub open spec fn index_map_spec(input: Seq<char>, o: FileObservationView) -> Option<FileMapView> {
    match detect_spec(o.path) {
        Option::Some(lang) => match o.source {
            Option::Some(code) => match extraction_spec(lang, code) {
                Option::Some(syms) => Option::Some(
                    FileMapView {
                        path: strip_base_spec(input, o.path),
                        language: lang.as_str_spec(),
                        symbols: syms,
                    },
                ),
                Option::None => Option::None,
            },
            Option::None => Option::None,
        },
        Option::None => Option::None,
    }
}

/// The engine's running effect: the cache, the output commands
/// emitted so far, and the number of files updated.
pub struct UpdateAcc {
    pub cache: Map<Seq<char>, CacheEntry>,
    pub cmds: Seq<OutputCommandView>,
    pub count: int,
}

/// The effect of attempting to index one observed file: on success,
/// one write command for its artifact with exactly the render of the
/// determined index, a cache upsert to the observed metadata when any
/// was observed, and one counted update; on failure, no change.
pub open spec fn attempt_step(
    input: Seq<char>,
    output: Seq<char>,
    acc: UpdateAcc,
    o: FileObservationView,
) -> UpdateAcc {
    match index_map_spec(input, o) {
        Option::Some(m) => UpdateAcc {
            cache: match o.meta {
                Option::Some(mt) => acc.cache.insert(
                    o.path,
                    CacheEntry { mtime: mt.0, size: mt.1 },
                ),
                Option::None => acc.cache,
            },
            cmds: acc.cmds.push(
                OutputCommandView::Write {
                    path: output_path_spec(input, o.path, output),
                    content: render_single_spec(m),
                },
            ),
            count: acc.count + 1,
        },
        Option::None => acc,
    }
}

/// The effect of one explicit batch path: a path observed gone loses
/// its snapshot and its artifact and counts; a survivor under the
/// output root, without a language, or passing the staleness test
/// unchanged is ignored; any other survivor is re-indexed.
pub open spec fn changed_step(
    input: Seq<char>,
    output: Seq<char>,
    acc: UpdateAcc,
    o: FileObservationView,
) -> UpdateAcc {
    if !o.exists {
        UpdateAcc {
            cache: acc.cache.remove(o.path),
            cmds: acc.cmds.push(
                OutputCommandView::Remove { path: output_path_spec(input, o.path, output) },
            ),
            count: acc.count + 1,
        }
    } else if seq_is_prefix(output, o.path) {
        acc
    } else if detect_spec(o.path) is None {
        acc
    } else if !needs_reparse_spec(acc.cache, o.path, o.meta) {
        acc
    } else {
        attempt_step(input, output, acc, o)
    }
}

/// The effect of one rescan candidate: indexed only when it lies
/// outside the output root and is not yet tracked.
pub open spec fn rescan_step(
    input: Seq<char>,
    output: Seq<char>,
    acc: UpdateAcc,
    o: FileObservationView,
) -> UpdateAcc {
    if seq_is_prefix(output, o.path) {
        acc
    } else if acc.cache.contains_key(o.path) {
        acc
    } else {
        attempt_step(input, output, acc, o)
    }
}

/// The effect of a full scan's first `n` files, each attempted
/// unconditionally.
pub open spec fn scan_fold(
    input: Seq<char>,
    output: Seq<char>,
    acc: UpdateAcc,
    files: Seq<FileObservationView>,
    n: int,
) -> UpdateAcc
    decreases n,
{
    if n <= 0 {
        acc
    } else {
        attempt_step(input, output, scan_fold(input, output, acc, files, n - 1), files[n - 1])
    }
}

/// The effect of the first `n` explicit batch paths.
pub open spec fn changed_fold(
    input: Seq<char>,
    output: Seq<char>,
    acc: UpdateAcc,
    changed: Seq<FileObservationView>,
    n: int,
) -> UpdateAcc
    decreases n,
{
    if n <= 0 {
        acc
    } else {
        changed_step(
            input,
            output,
            changed_fold(input, output, acc, changed, n - 1),
            changed[n - 1],
        )
    }
}

/// The effect of the first `n` rescan candidates.
pub open spec fn rescan_fold(
    input: Seq<char>,
    output: Seq<char>,
    acc: UpdateAcc,
    rescan: Seq<FileObservationView>,
    n: int,
) -> UpdateAcc
    decreases n,
{
    if n <= 0 {
        acc
    } else {
        rescan_step(
            input,
            output,
            rescan_fold(input, output, acc, rescan, n - 1),
            rescan[n - 1],
        )
    }
}

/// The engine's effect before anything is processed.
pub open spec fn init_acc(st: WatchStateView) -> UpdateAcc {
    UpdateAcc { cache: st.cache, cmds: Seq::empty(), count: 0 }
}

/// What a full scan does to the engine.
pub open spec fn full_scan_spec(st: WatchStateView, files: Seq<FileObservationView>) -> UpdateAcc {
    scan_fold(st.input, st.output, init_acc(st), files, files.len() as int)
}

/// What one incremental update does to the engine: the explicit batch
/// first, then the supplementary rescan.
pub open spec fn update_spec(
    st: WatchStateView,
    changed: Seq<FileObservationView>,
    rescan: Seq<FileObservationView>,
) -> UpdateAcc {
    rescan_fold(
        st.input,
        st.output,
        changed_fold(st.input, st.output, init_acc(st), changed, changed.len() as int),
        rescan,
        rescan.len() as int,
    )
}

impl WatchState {
    /// Index one observed file: resolve its language, extract, render,
    /// emit the write of its artifact, and refresh its snapshot —
    /// exactly the attempt effect, so success is owed whenever the
    /// language resolves, the source was readable and the named
    /// extraction exists, and the written content is exactly the
    /// render of the index those determine.
    pub fn parse_and_write(&mut self, obs: &FileObservation, cmds: &mut Vec<OutputCommand>) -> (ok:
        bool)
        requires
            old(self).wf(),
        ensures
            final(self).wf(),
            final(self)@.input == old(self)@.input,
            final(self)@.output == old(self)@.output,
            ({
                let acc0 = UpdateAcc {
                    cache: old(self)@.cache,
                    cmds: Seq::empty(),
                    count: 0,
                };
                let acc1 = attempt_step(old(self)@.input, old(self)@.output, acc0, obs@);
                &&& final(self)@.cache == acc1.cache
                &&& final(cmds).deep_view() == old(cmds).deep_view() + acc1.cmds
                &&& ok == (acc1.count == 1)
            }),
    {
        let ghost acc0 = UpdateAcc { cache: old(self)@.cache, cmds: Seq::empty(), count: 0 };
        let lang = match crate::detector::detect(obs.path.as_str()) {
            Option::Some(l) => l,
            Option::None => {
                proof {
                    assert(final(cmds).deep_view() =~= old(cmds).deep_view() + acc0.cmds);
                }
                return false;
            },
        };
        let code = match &obs.source {
            Option::Some(c) => c,
            Option::None => {
                proof {
                    assert(final(cmds).deep_view() =~= old(cmds).deep_view() + acc0.cmds);
                }
                return false;
            },
        };
        let rel = crate::scanner::strip_base(self.input.as_str(), obs.path.as_str());
        let map = match extract_from_source(rel.as_str(), code.as_str(), &lang) {
            Result::Ok(m) => m,
            Result::Err(_) => {
                proof {
                    assert(final(cmds).deep_view() =~= old(cmds).deep_view() + acc0.cmds);
                }
                return false;
            },
        };
        let content = render_single(&map);
        let out_path = output_path(
            self.input.as_str(),
            obs.path.as_str(),
            self.output.as_str(),
        );
        let ghost mv = map@;
        cmds.push(OutputCommand::Write { path: out_path, content });
        proof {
            assert(index_map_spec(old(self)@.input, obs@) == Option::Some(mv));
            assert(cmds.deep_view() =~= old(cmds).deep_view() + attempt_step(
                old(self)@.input,
                old(self)@.output,
                acc0,
                obs@,
            ).cmds);
        }
        match obs.meta {
            Option::Some(mt) => {
                self.cache_upsert(obs.path.as_str(), CacheEntry { mtime: mt.0, size: mt.1 });
            },
            Option::None => {},
        }
        true
    }

    /// Index every file of a full scan unconditionally — exactly the
    /// scan effect: each file is attempted, each success persists its
    /// artifact, refreshes its snapshot and counts.
    pub fn full_scan(&mut self, files: &Vec<FileObservation>, cmds: &mut Vec<OutputCommand>) -> (parsed: usize)
        requires
            old(self).wf(),
        ensures
            final(self).wf(),
            final(self)@.input == old(self)@.input,
            final(self)@.output == old(self)@.output,
            ({
                let acc = full_scan_spec(old(self)@, files.deep_view());
                &&& final(self)@.cache == acc.cache
                &&& final(cmds).deep_view() == old(cmds).deep_view() + acc.cmds
                &&& parsed == acc.count
            }),
    {
        let ghost st0 = old(self)@;
        let mut parsed: usize = 0;
        let n = files.len();
        proof {
            assert(cmds.deep_view() =~= old(cmds).deep_view() + scan_fold(
                st0.input,
                st0.output,
                init_acc(st0),
                files.deep_view(),
                0,
            ).cmds);
        }
        let mut i: usize = 0;
        while i < n
            invariant
                self.wf(),
                0 <= i <= n,
                n == files@.len(),
                parsed <= i,
                st0 == old(self)@,
                self@.input == st0.input,
                self@.output == st0.output,
                ({
                    let acc = scan_fold(
                        st0.input,
                        st0.output,
                        init_acc(st0),
                        files.deep_view(),
                        i as int,
                    );
                    &&& self@.cache == acc.cache
                    &&& cmds.deep_view() == old(cmds).deep_view() + acc.cmds
                    &&& parsed == acc.count
                }),
            decreases n - i,
        {
            proof {
                assert(files.deep_view()[i as int] == files@[i as int]@);
            }
            let ghost pre = scan_fold(
                st0.input,
                st0.output,
                init_acc(st0),
                files.deep_view(),
                i as int,
            );
            let ghost pre_cmds = cmds.deep_view();
            if self.parse_and_write(&files[i], cmds) {
                parsed += 1;
            }
            proof {
                let post = attempt_step(st0.input, st0.output, pre, files.deep_view()[i as int]);
                assert(cmds.deep_view() =~= old(cmds).deep_view() + post.cmds);
            }
            i += 1;
        }
        parsed
    }

    /// Apply one batch of changed paths, then the supplementary rescan
    /// listing — exactly the update effect: deletions drop snapshot
    /// and artifact and count; stale, supported, existing files
    /// outside the output root are re-indexed, re-cached and counted;
    /// untracked rescan candidates outside the output root are
    /// indexed and counted; everything else is left alone, and the
    /// returned total is the effect's count.
    pub fn incremental_update(
        &mut self,
        changed: &Vec<FileObservation>,
        rescan: &Vec<FileObservation>,
        cmds: &mut Vec<OutputCommand>,
    ) -> (updated: usize)
        requires
            old(self).wf(),
            changed@.len() + rescan@.len() <= usize::MAX,
        ensures
            final(self).wf(),
            final(self)@.input == old(self)@.input,
            final(self)@.output == old(self)@.output,
            ({
                let acc = update_spec(old(self)@, changed.deep_view(), rescan.deep_view());
                &&& final(self)@.cache == acc.cache
                &&& final(cmds).deep_view() == old(cmds).deep_view() + acc.cmds
                &&& updated == acc.count
            }),
    {
        let ghost st0 = old(self)@;
        let ghost cd = changed.deep_view();
        let ghost rd = rescan.deep_view();
        let mut updated: usize = 0;
        let n = changed.len();
        proof {
            assert(cmds.deep_view() =~= old(cmds).deep_view() + changed_fold(
                st0.input,
                st0.output,
                init_acc(st0),
                cd,
                0,
            ).cmds);
        }
        let mut i: usize = 0;
        while i < n
            invariant
                self.wf(),
                0 <= i <= n,
                n == changed@.len(),
                cd == changed.deep_view(),
                updated <= i,
                st0 == old(self)@,
                self@.input == st0.input,
                self@.output == st0.output,
                ({
                    let acc = changed_fold(st0.input, st0.output, init_acc(st0), cd, i as int);
                    &&& self@.cache == acc.cache
                    &&& cmds.deep_view() == old(cmds).deep_view() + acc.cmds
                    &&& updated == acc.count
                }),
            decreases n - i,
        {
            proof {
                assert(cd[i as int] == changed@[i as int]@);
            }
            let ghost pre = changed_fold(st0.input, st0.output, init_acc(st0), cd, i as int);
            let obs = &changed[i];
            if !obs.exists {
                self.cache_remove_key(obs.path.as_str());
                let out_path = output_path(
                    self.input.as_str(),
                    obs.path.as_str(),
                    self.output.as_str(),
                );
                let ghost prior_cmds = cmds.deep_view();
                cmds.push(OutputCommand::Remove { path: out_path });
                updated += 1;
                proof {
                    let post = changed_step(st0.input, st0.output, pre, cd[i as int]);
                    assert(cmds.deep_view() =~= prior_cmds.push(
                        OutputCommandView::Remove {
                            path: output_path_spec(st0.input, cd[i as int].path, st0.output),
                        },
                    ));
                    assert(cmds.deep_view() =~= old(cmds).deep_view() + post.cmds);
                }
            } else if crate::text::str_starts_with(obs.path.as_str(), self.output.as_str()) {
            } else {
                let lang_known = match crate::detector::detect(obs.path.as_str()) {
                    Option::Some(_) => true,
                    Option::None => false,
                };
                if lang_known {
                    if self.needs_reparse(obs.path.as_str(), obs.meta) {
                        if self.parse_and_write(obs, cmds) {
                            updated += 1;
                        }
                        proof {
                            let post = changed_step(st0.input, st0.output, pre, cd[i as int]);
                            assert(cmds.deep_view() =~= old(cmds).deep_view() + post.cmds);
                        }
                    }
                }
            }
            i += 1;
        }
        let ghost after_changed = changed_fold(
            st0.input,
            st0.output,
            init_acc(st0),
            cd,
            n as int,
        );
        let m = rescan.len();
        let mut j: usize = 0;
        while j < m
            invariant
                self.wf(),
                0 <= j <= m,
                m == rescan@.len(),
                rd == rescan.deep_view(),
                n == changed@.len(),
                n + m <= usize::MAX,
                updated <= n + j,
                st0 == old(self)@,
                self@.input == st0.input,
                self@.output == st0.output,
                after_changed == changed_fold(st0.input, st0.output, init_acc(st0), cd, n as int),
                cd == changed.deep_view(),
                ({
                    let acc = rescan_fold(st0.input, st0.output, after_changed, rd, j as int);
                    &&& self@.cache == acc.cache
                    &&& cmds.deep_view() == old(cmds).deep_view() + acc.cmds
                    &&& updated == acc.count
                }),
            decreases m - j,
        {
            proof {
                assert(rd[j as int] == rescan@[j as int]@);
            }
            let ghost pre = rescan_fold(st0.input, st0.output, after_changed, rd, j as int);
            let obs = &rescan[j];
            if crate::text::str_starts_with(obs.path.as_str(), self.output.as_str()) {
            } else if self.contains_path(obs.path.as_str()) {
            } else {
                if self.parse_and_write(obs, cmds) {
                    updated += 1;
                }
                proof {
                    let post = rescan_step(st0.input, st0.output, pre, rd[j as int]);
                    assert(cmds.deep_view() =~= old(cmds).deep_view() + post.cmds);
                }
            }
            j += 1;
        }
        updated
    }
}

/// Between two points of the batch pass, commands only accumulate and
/// the count never falls.
proof fn lemma_changed_fold_grow(
    input: Seq<char>,
    output: Seq<char>,
    acc0: UpdateAcc,
    obs: Seq<FileObservationView>,
    m: int,
    n: int,
)
    requires
        0 <= m <= n,
    ensures
        ({
            let a = changed_fold(input, output, acc0, obs, m);
            let b = changed_fold(input, output, acc0, obs, n);
            &&& a.cmds.len() <= b.cmds.len()
            &&& (forall|c: int| 0 <= c < a.cmds.len() ==> b.cmds[c] == a.cmds[c])
            &&& a.count <= b.count
        }),
    decreases n,
{
    if n > m {
        lemma_changed_fold_grow(input, output, acc0, obs, m, n - 1);
    }
}

/// Between two points of the rescan pass, commands only accumulate and
/// the count never falls.
proof fn lemma_rescan_fold_grow(
    input: Seq<char>,
    output: Seq<char>,
    acc0: UpdateAcc,
    obs: Seq<FileObservationView>,
    m: int,
    n: int,
)
    requires
        0 <= m <= n,
    ensures
        ({
            let a = rescan_fold(input, output, acc0, obs, m);
            let b = rescan_fold(input, output, acc0, obs, n);
            &&& a.cmds.len() <= b.cmds.len()
            &&& (forall|c: int| 0 <= c < a.cmds.len() ==> b.cmds[c] == a.cmds[c])
            &&& a.count <= b.count
        }),
    decreases n,
{
    if n > m {
        lemma_rescan_fold_grow(input, output, acc0, obs, m, n - 1);
    }
}

/// A key whose path no batch entry between two points carries keeps
/// its presence and its snapshot across those steps.
proof fn lemma_changed_fold_frame(
    input: Seq<char>,
    output: Seq<char>,
    acc0: UpdateAcc,
    obs: Seq<FileObservationView>,
    m: int,
    n: int,
    q: Seq<char>,
)
    requires
        0 <= m <= n,
        forall|t: int| m <= t < n ==> (#[trigger] obs[t]).path != q,
    ensures
        ({
            let a = changed_fold(input, output, acc0, obs, m);
            let b = changed_fold(input, output, acc0, obs, n);
            &&& b.cache.contains_key(q) == a.cache.contains_key(q)
            &&& (a.cache.contains_key(q) ==> b.cache[q] == a.cache[q])
        }),
    decreases n,
{
    if n > m {
        lemma_changed_fold_frame(input, output, acc0, obs, m, n - 1, q);
    }
}

/// A key whose path no rescan entry between two points carries keeps
/// its presence and its snapshot across those steps.
proof fn lemma_rescan_fold_frame(
    input: Seq<char>,
    output: Seq<char>,
    acc0: UpdateAcc,
    obs: Seq<FileObservationView>,
    m: int,
    n: int,
    q: Seq<char>,
)
    requires
        0 <= m <= n,
        forall|t: int| m <= t < n ==> (#[trigger] obs[t]).path != q,
    ensures
        ({
            let a = rescan_fold(input, output, acc0, obs, m);
            let b = rescan_fold(input, output, acc0, obs, n);
            &&& b.cache.contains_key(q) == a.cache.contains_key(q)
            &&& (a.cache.contains_key(q) ==> b.cache[q] == a.cache[q])
        }),
    decreases n,
{
    if n > m {
        lemma_rescan_fold_frame(input, output, acc0, obs, m, n - 1, q);
    }
}

/// Idempotence: a batch whose files are all unchanged — every explicit
/// path present and either under the output root, without a language,
/// or passing the staleness test against the current cache, and every
/// rescan candidate already tracked or under the output root — yields
/// an update count of zero and changes neither the cache nor the
/// command list. Applying such a batch a second time is a no-op.
pub proof fn lemma_update_ignored_batch(
    st: WatchStateView,
    changed: Seq<FileObservationView>,
    rescan: Seq<FileObservationView>,
)
    requires
        forall|k: int| 0 <= k < changed.len() ==> obs_ignored(st, #[trigger] changed[k]),
        forall|k: int|
            0 <= k < rescan.len() ==> st.cache.contains_key((#[trigger] rescan[k]).path)
                || seq_is_prefix(st.output, rescan[k].path),
    ensures
        ({
            let acc = update_spec(st, changed, rescan);
            &&& acc.cache == st.cache
            &&& acc.cmds == Seq::<OutputCommandView>::empty()
            &&& acc.count == 0
        }),
{
    lemma_changed_fold_ignored(st, changed, changed.len() as int);
    lemma_rescan_fold_tracked(st, changed, rescan, rescan.len() as int);
}

/// Every prefix of an all-ignored batch pass leaves the effect at its
/// start.
proof fn lemma_changed_fold_ignored(st: WatchStateView, changed: Seq<FileObservationView>, n: int)
    requires
        0 <= n <= changed.len(),
        forall|k: int| 0 <= k < changed.len() ==> obs_ignored(st, #[trigger] changed[k]),
    ensures
        changed_fold(st.input, st.output, init_acc(st), changed, n) == init_acc(st),
    decreases n,
{
    if n > 0 {
        lemma_changed_fold_ignored(st, changed, n - 1);
        assert(obs_ignored(st, changed[n - 1]));
    }
}

/// Every prefix of a rescan pass over tracked or output-root
/// candidates leaves the effect at its start.
proof fn lemma_rescan_fold_tracked(
    st: WatchStateView,
    changed: Seq<FileObservationView>,
    rescan: Seq<FileObservationView>,
    n: int,
)
    requires
        0 <= n <= rescan.len(),
        forall|k: int| 0 <= k < changed.len() ==> obs_ignored(st, #[trigger] changed[k]),
        forall|k: int|
            0 <= k < rescan.len() ==> st.cache.contains_key((#[trigger] rescan[k]).path)
                || seq_is_prefix(st.output, rescan[k].path),
    ensures
        rescan_fold(
            st.input,
            st.output,
            changed_fold(st.input, st.output, init_acc(st), changed, changed.len() as int),
            rescan,
            n,
        ) == init_acc(st),
    decreases n,
{
    lemma_changed_fold_ignored(st, changed, changed.len() as int);
    if n > 0 {
        lemma_rescan_fold_tracked(st, changed, rescan, n - 1);
    }
}

/// Deletion: once a tracked path is observed gone — and no later
/// observation of the batch or the rescan carries that path — the
/// update leaves no cache entry for it, emits the removal of its
/// artifact, and counts the deletion in the returned total.
pub proof fn lemma_update_deletion(
    st: WatchStateView,
    changed: Seq<FileObservationView>,
    rescan: Seq<FileObservationView>,
    k: int,
)
    requires
        0 <= k < changed.len(),
        !changed[k].exists,
        forall|t: int| k < t < changed.len() ==> (#[trigger] changed[t]).path != changed[k].path,
        forall|t: int| 0 <= t < rescan.len() ==> (#[trigger] rescan[t]).path != changed[k].path,
    ensures
        ({
            let acc = update_spec(st, changed, rescan);
            &&& !acc.cache.contains_key(changed[k].path)
            &&& acc.cmds.contains(removal_of(st, changed[k].path))
            &&& acc.count >= 1
        }),
{
    let q = changed[k].path;
    let x = removal_of(st, q);
    let at_k1 = changed_fold(st.input, st.output, init_acc(st), changed, k + 1);
    assert(!at_k1.cache.contains_key(q));
    assert(at_k1.cmds.last() == x);
    assert(at_k1.cmds.contains(x)) by {
        assert(at_k1.cmds[at_k1.cmds.len() - 1] == x);
    }
    lemma_changed_fold_count_nonneg(st.input, st.output, init_acc(st), changed, k);
    assert(at_k1.count >= 1);
    let after_changed = changed_fold(st.input, st.output, init_acc(st), changed, changed.len() as int);
    lemma_changed_fold_frame(st.input, st.output, init_acc(st), changed, k + 1, changed.len() as int, q);
    lemma_changed_fold_grow(st.input, st.output, init_acc(st), changed, k + 1, changed.len() as int);
    assert(after_changed.cmds.contains(x)) by {
        let w = choose|w: int| 0 <= w < at_k1.cmds.len() && at_k1.cmds[w] == x;
        assert(after_changed.cmds[w] == x);
    }
    let acc = update_spec(st, changed, rescan);
    lemma_rescan_fold_frame(st.input, st.output, after_changed, rescan, 0, rescan.len() as int, q);
    lemma_rescan_fold_grow(st.input, st.output, after_changed, rescan, 0, rescan.len() as int);
    assert(acc.cmds.contains(x)) by {
        let w = choose|w: int| 0 <= w < after_changed.cmds.len() && after_changed.cmds[w] == x;
        assert(acc.cmds[w] == x);
    }
}

/// The count never falls below where a pass started.
proof fn lemma_changed_fold_count_nonneg(
    input: Seq<char>,
    output: Seq<char>,
    acc0: UpdateAcc,
    obs: Seq<FileObservationView>,
    n: int,
)
    requires
        0 <= n,
    ensures
        changed_fold(input, output, acc0, obs, n).count >= acc0.count,
    decreases n,
{
    if n > 0 {
        lemma_changed_fold_count_nonneg(input, output, acc0, obs, n - 1);
    }
}

/// Every command of the batch pass addresses the artifact of one of
/// its observed paths.
proof fn lemma_changed_fold_cmds_observed(
    st: WatchStateView,
    acc0: UpdateAcc,
    obs: Seq<FileObservationView>,
    n: int,
)
    requires
        0 <= n <= obs.len(),
    ensures
        ({
            let b = changed_fold(st.input, st.output, acc0, obs, n);
            forall|c: int|
                acc0.cmds.len() <= c < b.cmds.len() ==> command_from(st, obs, #[trigger] b.cmds[c])
        }),
    decreases n,
{
    if n > 0 {
        lemma_changed_fold_cmds_observed(st, acc0, obs, n - 1);
        let a = changed_fold(st.input, st.output, acc0, obs, n - 1);
        let b = changed_fold(st.input, st.output, acc0, obs, n);
        assert forall|c: int|
            acc0.cmds.len() <= c < b.cmds.len() implies command_from(
            st,
            obs,
            #[trigger] b.cmds[c],
        ) by {
            if c < a.cmds.len() {
                assert(b.cmds[c] == a.cmds[c]);
            } else {
                assert(command_path(b.cmds[c]) == output_path_spec(
                    st.input,
                    obs[n - 1].path,
                    st.output,
                ));
            }
        }
    }
}

/// Every command of the rescan pass addresses the artifact of one of
/// its observed paths.
proof fn lemma_rescan_fold_cmds_observed(
    st: WatchStateView,
    acc0: UpdateAcc,
    obs: Seq<FileObservationView>,
    n: int,
)
    requires
        0 <= n <= obs.len(),
    ensures
        ({
            let b = rescan_fold(st.input, st.output, acc0, obs, n);
            forall|c: int|
                acc0.cmds.len() <= c < b.cmds.len() ==> command_from(st, obs, #[trigger] b.cmds[c])
        }),
    decreases n,
{
    if n > 0 {
        lemma_rescan_fold_cmds_observed(st, acc0, obs, n - 1);
        let a = rescan_fold(st.input, st.output, acc0, obs, n - 1);
        let b = rescan_fold(st.input, st.output, acc0, obs, n);
        assert forall|c: int|
            acc0.cmds.len() <= c < b.cmds.len() implies command_from(
            st,
            obs,
            #[trigger] b.cmds[c],
        ) by {
            if c < a.cmds.len() {
                assert(b.cmds[c] == a.cmds[c]);
            } else {
                assert(command_path(b.cmds[c]) == output_path_spec(
                    st.input,
                    obs[n - 1].path,
                    st.output,
                ));
            }
        }
    }
}

/// Provenance: every command an update emits addresses the artifact
/// of a path observed in the batch or in the rescan listing — nothing
/// outside the observations is ever written or removed. Which paths
/// the walker observes, and so the exclusion of ignore-matched files,
/// is the walker's own charge.
pub proof fn lemma_update_provenance(
    st: WatchStateView,
    changed: Seq<FileObservationView>,
    rescan: Seq<FileObservationView>,
    c: int,
)
    requires
        0 <= c < update_spec(st, changed, rescan).cmds.len(),
    ensures
        command_from_observed(st, changed, rescan, update_spec(st, changed, rescan).cmds[c]),
{
    let after_changed = changed_fold(st.input, st.output, init_acc(st), changed, changed.len() as int);
    lemma_changed_fold_cmds_observed(st, init_acc(st), changed, changed.len() as int);
    lemma_rescan_fold_cmds_observed(st, after_changed, rescan, rescan.len() as int);
    let acc = update_spec(st, changed, rescan);
    if c < after_changed.cmds.len() {
        lemma_rescan_fold_grow(st.input, st.output, after_changed, rescan, 0, rescan.len() as int);
        assert(acc.cmds[c] == after_changed.cmds[c]);
        assert(command_from(st, changed, acc.cmds[c]));
    } else {
        assert(command_from(st, rescan, acc.cmds[c]));
    }
}

/// Frame: the snapshot of a path that appears neither in the batch
/// nor in the rescan listing is untouched by an update — neither
/// dropped, nor added, nor changed in value.
pub proof fn lemma_update_unobserved_preserved(
    st: WatchStateView,
    changed: Seq<FileObservationView>,
    rescan: Seq<FileObservationView>,
    q: Seq<char>,
)
    requires
        forall|t: int| 0 <= t < changed.len() ==> (#[trigger] changed[t]).path != q,
        forall|t: int| 0 <= t < rescan.len() ==> (#[trigger] rescan[t]).path != q,
    ensures
        ({
            let acc = update_spec(st, changed, rescan);
            &&& acc.cache.contains_key(q) == st.cache.contains_key(q)
            &&& (st.cache.contains_key(q) ==> acc.cache[q] == st.cache[q])
        }),
{
    let after_changed = changed_fold(st.input, st.output, init_acc(st), changed, changed.len() as int);
    lemma_changed_fold_frame(st.input, st.output, init_acc(st), changed, 0, changed.len() as int, q);
    lemma_rescan_fold_frame(st.input, st.output, after_changed, rescan, 0, rescan.len() as int, q);
}

/// The kind of a file-system change notification, reduced to what the
/// admission filter distinguishes.
#[derive(Debug, Clone, Copy, PartialEq, Eq, Structural)]
pub enum ChangeKind {
    Create,
    Modify,
    Remove,
    Access,
    Other,
}

/// A batch is admitted when none of its paths lies under the output
/// root and its kind is a creation, a content modification, or a
/// removal.
pub open spec fn should_process_spec(
    kind: ChangeKind,
    paths: Seq<Seq<char>>,
    output_dir: Seq<char>,
) -> bool {
    (forall|i: int| 0 <= i < paths.len() ==> !seq_is_prefix(output_dir, #[trigger] paths[i]))
        && (kind == ChangeKind::Create || kind == ChangeKind::Modify || kind == ChangeKind::Remove)
}

/// The event admission filter: decide whether a change batch wakes
/// the engine at all.
pub fn should_process_event(kind: &ChangeKind, paths: &Vec<String>, output_dir: &str) -> (r: bool)
    ensures
        r == should_process_spec(*kind, paths.deep_view(), output_dir@),
{
    let n = paths.len();
    let mut i: usize = 0;
    while i < n
        invariant
            0 <= i <= n,
            n == paths@.len(),
            forall|t: int|
                0 <= t < i ==> !seq_is_prefix(output_dir@, #[trigger] paths.deep_view()[t]),
        decreases n - i,
    {
        proof {
            assert(paths.deep_view()[i as int] == paths@[i as int]@);
        }
        if crate::text::str_starts_with(paths[i].as_str(), output_dir) {
            return false;
        }
        i += 1;
    }
    match kind {
        ChangeKind::Create | ChangeKind::Modify | ChangeKind::Remove => true,
        ChangeKind::Access | ChangeKind::Other => false,
    }
}

} // verus!
