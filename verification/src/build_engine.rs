//! The build coordinator: one lock per root document, plus the cursor table
//! a build's inverse search reads.
//!
//! At most one build runs per root at any instant. A caller that finds the
//! root's build running does not start a second one: it waits and observes
//! the first build's result. Builds of different roots run side by side.

use vstd::prelude::*;
use crate::text::Position;
use crate::uri::Uri;

verus! {

/// The outcome of a build or a forward search.
#[derive(PartialEq, Eq, Structural, Clone, Copy, Debug)]
pub enum BuildStatus {
    Success,
    Error,
    Failure,
    Cancelled,
}

/// The per-root lock: whether a build runs now, and the last result.
pub struct RootLock {
    pub uri: Uri,
    pub running: bool,
    pub last: Option<BuildStatus>,
}

/// The spec-level image of a per-root lock.
pub ghost struct RootLockView {
    pub uri: Seq<char>,
    pub running: bool,
    pub last: Option<BuildStatus>,
}

impl View for RootLock {
    type V = RootLockView;

    open spec fn view(&self) -> RootLockView {
        RootLockView { uri: self.uri@, running: self.running, last: self.last }
    }
}

/// The last cursor position seen for a document.
pub struct CursorEntry {
    pub uri: Uri,
    pub position: Position,
}

/// The spec-level image of a cursor entry.
pub ghost struct CursorEntryView {
    pub uri: Seq<char>,
    pub position: Position,
}

impl View for CursorEntry {
    type V = CursorEntryView;

    open spec fn view(&self) -> CursorEntryView {
        CursorEntryView { uri: self.uri@, position: self.position }
    }
}

/// The spec-level image of the build engine.
pub ghost struct BuildEngineView {
    pub roots: Seq<RootLockView>,
    pub positions: Seq<CursorEntryView>,
}

/// First index at or after `i` whose lock carries URI `u`, or the end.
pub open spec fn find_lock(roots: Seq<RootLockView>, u: Seq<char>, i: int) -> int
    decreases roots.len() - i when 0 <= i <= roots.len()
{
    if i >= roots.len() {
        roots.len() as int
    } else if roots[i].uri == u {
        i
    } else {
        find_lock(roots, u, i + 1)
    }
}

pub proof fn lemma_find_lock_bounds(roots: Seq<RootLockView>, u: Seq<char>, i: int)
    requires
        0 <= i <= roots.len(),
    ensures
        i <= find_lock(roots, u, i) <= roots.len(),
        forall|j: int| i <= j < find_lock(roots, u, i) ==> roots[j].uri != u,
        find_lock(roots, u, i) < roots.len() ==> roots[find_lock(roots, u, i)].uri == u,
    decreases roots.len() - i,
{
    if i < roots.len() && roots[i].uri != u {
        lemma_find_lock_bounds(roots, u, i + 1);
    }
}

pub proof fn lemma_find_lock_unique(roots: Seq<RootLockView>, u: Seq<char>, i: int, k: int)
    requires
        0 <= i <= k <= roots.len(),
        forall|j: int| i <= j < k ==> roots[j].uri != u,
        k < roots.len() ==> roots[k].uri == u,
    ensures
        find_lock(roots, u, i) == k,
    decreases k - i,
{
    if i < k {
        lemma_find_lock_unique(roots, u, i + 1, k);
    }
}

/// True when a build for root `u` is executing.
pub open spec fn spec_running(roots: Seq<RootLockView>, u: Seq<char>) -> bool {
    find_lock(roots, u, 0) < roots.len() && roots[find_lock(roots, u, 0)].running
}

/// The last build result recorded for root `u`.
pub open spec fn spec_last(roots: Seq<RootLockView>, u: Seq<char>) -> Option<BuildStatus> {
    if find_lock(roots, u, 0) < roots.len() {
        roots[find_lock(roots, u, 0)].last
    } else {
        None
    }
}

/// What taking the root's lock does: the lock is created or marked running;
/// the taking succeeded when no build was running for that root.
pub open spec fn try_begin_spec(roots: Seq<RootLockView>, u: Seq<char>) -> (Seq<RootLockView>, bool) {
    let i = find_lock(roots, u, 0);
    if i < roots.len() {
        (
            roots.update(i, RootLockView { uri: u, running: true, last: roots[i].last }),
            !roots[i].running,
        )
    } else {
        (roots.push(RootLockView { uri: u, running: true, last: None }), true)
    }
}

/// What finishing a build does: the lock is released and the result kept.
pub open spec fn finish_spec(
    roots: Seq<RootLockView>,
    u: Seq<char>,
    status: BuildStatus,
) -> Seq<RootLockView> {
    let i = find_lock(roots, u, 0);
    if i < roots.len() {
        roots.update(i, RootLockView { uri: u, running: false, last: Some(status) })
    } else {
        roots.push(RootLockView { uri: u, running: false, last: Some(status) })
    }
}

/// No two locks serve the same root.
pub open spec fn unique_roots(roots: Seq<RootLockView>) -> bool {
    forall|i: int, j: int|
        0 <= i < roots.len() && 0 <= j < roots.len() && i != j ==> roots[i].uri != roots[j].uri
}

/// For every root, at most one build executes at any instant: while one
/// build holds the lock, a second attempt for the same root is refused, and
/// only finishing the build releases it.
pub proof fn lemma_builds_serialized(roots: Seq<RootLockView>, u: Seq<char>)
    requires
        unique_roots(roots),
    ensures
        try_begin_spec(roots, u).1 == !spec_running(roots, u),
        spec_running(try_begin_spec(roots, u).0, u),
        !try_begin_spec(try_begin_spec(roots, u).0, u).1,
        !spec_running(finish_spec(try_begin_spec(roots, u).0, u, BuildStatus::Success), u),
{
    let i = find_lock(roots, u, 0);
    lemma_find_lock_bounds(roots, u, 0);
    let r1 = try_begin_spec(roots, u).0;
    if i < roots.len() {
        lemma_find_lock_unique(r1, u, 0, i);
    } else {
        lemma_find_lock_unique(r1, u, 0, i);
    }
    let r2 = finish_spec(r1, u, BuildStatus::Success);
    lemma_find_lock_unique(r2, u, 0, find_lock(r1, u, 0));
}

/// Builds of different roots do not disturb each other's locks.
pub proof fn lemma_builds_independent(roots: Seq<RootLockView>, u: Seq<char>, v: Seq<char>)
    requires
        u != v,
    ensures
        spec_running(try_begin_spec(roots, u).0, v) == spec_running(roots, v),
        spec_last(try_begin_spec(roots, u).0, v) == spec_last(roots, v),
{
    let i = find_lock(roots, u, 0);
    lemma_find_lock_bounds(roots, u, 0);
    let r1 = try_begin_spec(roots, u).0;
    lemma_find_lock_bounds(r1, v, 0);
    lemma_find_lock_bounds(roots, v, 0);
    let j = find_lock(roots, v, 0);
    if j < roots.len() {
        lemma_find_lock_unique(r1, v, 0, j);
    } else {
        lemma_find_lock_unique(r1, v, 0, r1.len() as int);
    }
}

/// The build coordinator.
pub struct BuildEngine {
    pub roots: Vec<RootLock>,
    pub positions: Vec<CursorEntry>,
}

impl View for BuildEngine {
    type V = BuildEngineView;

    open spec fn view(&self) -> BuildEngineView {
        BuildEngineView {
            roots: self.roots@.map_values(|r: RootLock| r@),
            positions: self.positions@.map_values(|c: CursorEntry| c@),
        }
    }
}

/// A well-formed engine: one lock per root, one cursor entry per document.
pub open spec fn engine_wf(e: BuildEngineView) -> bool {
    &&& unique_roots(e.roots)
    &&& forall|i: int, j: int|
        0 <= i < e.positions.len() && 0 <= j < e.positions.len() && i != j ==> e.positions[i].uri
            != e.positions[j].uri
}

/// First index whose cursor entry carries URI `u`, or the end.
pub open spec fn find_cursor(ps: Seq<CursorEntryView>, u: Seq<char>, i: int) -> int
    decreases ps.len() - i when 0 <= i <= ps.len()
{
    if i >= ps.len() {
        ps.len() as int
    } else if ps[i].uri == u {
        i
    } else {
        find_cursor(ps, u, i + 1)
    }
}

/// The cursor position last seen for `u`.
pub open spec fn spec_position(ps: Seq<CursorEntryView>, u: Seq<char>) -> Option<Position> {
    if find_cursor(ps, u, 0) < ps.len() {
        Some(ps[find_cursor(ps, u, 0)].position)
    } else {
        None
    }
}

pub proof fn lemma_find_cursor_bounds(ps: Seq<CursorEntryView>, u: Seq<char>, i: int)
    requires
        0 <= i <= ps.len(),
    ensures
        i <= find_cursor(ps, u, i) <= ps.len(),
        forall|j: int| i <= j < find_cursor(ps, u, i) ==> ps[j].uri != u,
        find_cursor(ps, u, i) < ps.len() ==> ps[find_cursor(ps, u, i)].uri == u,
    decreases ps.len() - i,
{
    if i < ps.len() && ps[i].uri != u {
        lemma_find_cursor_bounds(ps, u, i + 1);
    }
}

pub proof fn lemma_find_cursor_unique(ps: Seq<CursorEntryView>, u: Seq<char>, i: int, k: int)
    requires
        0 <= i <= k <= ps.len(),
        forall|j: int| i <= j < k ==> ps[j].uri != u,
        k < ps.len() ==> ps[k].uri == u,
    ensures
        find_cursor(ps, u, i) == k,
    decreases k - i,
{
    if i < k {
        lemma_find_cursor_unique(ps, u, i + 1, k);
    }
}

impl BuildEngine {
    /// An engine with no locks and no cursor entries.
    pub fn new() -> (e: BuildEngine)
        ensures
            e@.roots.len() == 0,
            e@.positions.len() == 0,
            engine_wf(e@),
    {
        let e = BuildEngine { roots: Vec::new(), positions: Vec::new() };
        proof {
            assert(e@.roots =~= Seq::<RootLockView>::empty());
            assert(e@.positions =~= Seq::<CursorEntryView>::empty());
        }
        e
    }

    /// Takes the root's lock. True means this caller runs the build; false
    /// means one is already executing, and the caller waits for its result.
    pub fn try_begin(&mut self, root: &Uri) -> (started: bool)
        requires
            engine_wf(old(self)@),
        ensures
            engine_wf(final(self)@),
            final(self)@.roots == try_begin_spec(old(self)@.roots, root@).0,
            started == try_begin_spec(old(self)@.roots, root@).1,
            final(self)@.positions == old(self)@.positions,
    {
        let ghost rv0 = self@.roots;
        proof {
            lemma_find_lock_bounds(rv0, root@, 0);
        }
        let n = self.roots.len();
        let mut i: usize = 0;
        while i < n
            invariant
                i <= n,
                n == rv0.len(),
                rv0 == self@.roots,
                engine_wf(self@),
                self@ == old(self)@,
                forall|j: int| 0 <= j < i ==> rv0[j].uri != root@,
            decreases n - i,
        {
            if crate::uri::chars_eq(&self.roots[i].uri.text, &root.text) {
                proof {
                    lemma_find_lock_unique(rv0, root@, 0, i as int);
                }
                let was_running = self.roots[i].running;
                let last = self.roots[i].last;
                self.roots.set(i, RootLock { uri: root.duplicate(), running: true, last });
                proof {
                    assert(self@.roots =~= rv0.update(
                        i as int,
                        RootLockView { uri: root@, running: true, last: rv0[i as int].last },
                    ));
                    let rv1 = self@.roots;
                    assert forall|a: int, b: int|
                        0 <= a < rv1.len() && 0 <= b < rv1.len() && a != b implies rv1[a].uri
                        != rv1[b].uri by {
                        assert(rv1[a].uri == rv0[a].uri);
                        assert(rv1[b].uri == rv0[b].uri);
                    }
                    assert forall|a: int, b: int|
                        0 <= a < self@.positions.len() && 0 <= b < self@.positions.len() && a
                        != b implies self@.positions[a].uri != self@.positions[b].uri by {
                        assert(self@.positions[a] == old(self)@.positions[a]);
                        assert(self@.positions[b] == old(self)@.positions[b]);
                    }
                }
                return !was_running;
            }
            i = i + 1;
        }
        proof {
            lemma_find_lock_unique(rv0, root@, 0, rv0.len() as int);
        }
        self.roots.push(RootLock { uri: root.duplicate(), running: true, last: None });
        proof {
            assert(self@.roots =~= rv0.push(
                RootLockView { uri: root@, running: true, last: None },
            ));
            let rv1 = self@.roots;
            assert forall|a: int, b: int|
                0 <= a < rv1.len() && 0 <= b < rv1.len() && a != b implies rv1[a].uri
                != rv1[b].uri by {
                if a < rv0.len() && b < rv0.len() {
                    assert(rv1[a].uri == rv0[a].uri);
                    assert(rv1[b].uri == rv0[b].uri);
                } else {
                    lemma_find_lock_bounds(rv0, root@, 0);
                }
            }
            assert forall|a: int, b: int|
                0 <= a < self@.positions.len() && 0 <= b < self@.positions.len() && a
                != b implies self@.positions[a].uri != self@.positions[b].uri by {
                assert(self@.positions[a] == old(self)@.positions[a]);
                assert(self@.positions[b] == old(self)@.positions[b]);
            }
        }
        true
    }

    /// Releases the root's lock and records the build's result.
    pub fn finish(&mut self, root: &Uri, status: BuildStatus)
        requires
            engine_wf(old(self)@),
        ensures
            engine_wf(final(self)@),
            final(self)@.roots == finish_spec(old(self)@.roots, root@, status),
            final(self)@.positions == old(self)@.positions,
    {
        let ghost rv0 = self@.roots;
        proof {
            lemma_find_lock_bounds(rv0, root@, 0);
        }
        let n = self.roots.len();
        let mut i: usize = 0;
        while i < n
            invariant
                i <= n,
                n == rv0.len(),
                rv0 == self@.roots,
                engine_wf(self@),
                self@ == old(self)@,
                forall|j: int| 0 <= j < i ==> rv0[j].uri != root@,
            decreases n - i,
        {
            if crate::uri::chars_eq(&self.roots[i].uri.text, &root.text) {
                proof {
                    lemma_find_lock_unique(rv0, root@, 0, i as int);
                }
                self.roots.set(
                    i,
                    RootLock { uri: root.duplicate(), running: false, last: Some(status) },
                );
                proof {
                    assert(self@.roots =~= rv0.update(
                        i as int,
                        RootLockView { uri: root@, running: false, last: Some(status) },
                    ));
                    let rv1 = self@.roots;
                    assert forall|a: int, b: int|
                        0 <= a < rv1.len() && 0 <= b < rv1.len() && a != b implies rv1[a].uri
                        != rv1[b].uri by {
                        assert(rv1[a].uri == rv0[a].uri);
                        assert(rv1[b].uri == rv0[b].uri);
                    }
                    assert forall|a: int, b: int|
                        0 <= a < self@.positions.len() && 0 <= b < self@.positions.len() && a
                        != b implies self@.positions[a].uri != self@.positions[b].uri by {
                        assert(self@.positions[a] == old(self)@.positions[a]);
                        assert(self@.positions[b] == old(self)@.positions[b]);
                    }
                }
                return ;
            }
            i = i + 1;
        }
        proof {
            lemma_find_lock_unique(rv0, root@, 0, rv0.len() as int);
        }
        self.roots.push(RootLock { uri: root.duplicate(), running: false, last: Some(status) });
        proof {
            assert(self@.roots =~= rv0.push(
                RootLockView { uri: root@, running: false, last: Some(status) },
            ));
            let rv1 = self@.roots;
            assert forall|a: int, b: int|
                0 <= a < rv1.len() && 0 <= b < rv1.len() && a != b implies rv1[a].uri
                != rv1[b].uri by {
                if a < rv0.len() && b < rv0.len() {
                    assert(rv1[a].uri == rv0[a].uri);
                    assert(rv1[b].uri == rv0[b].uri);
                } else {
                    lemma_find_lock_bounds(rv0, root@, 0);
                }
            }
            assert forall|a: int, b: int|
                0 <= a < self@.positions.len() && 0 <= b < self@.positions.len() && a
                != b implies self@.positions[a].uri != self@.positions[b].uri by {
                assert(self@.positions[a] == old(self)@.positions[a]);
                assert(self@.positions[b] == old(self)@.positions[b]);
            }
        }
    }

    /// The last result a build of this root produced.
    pub fn last_result(&self, root: &Uri) -> (r: Option<BuildStatus>)
        ensures
            r == spec_last(self@.roots, root@),
    {
        let ghost rv = self@.roots;
        let n = self.roots.len();
        let mut i: usize = 0;
        while i < n
            invariant
                i <= n,
                n == rv.len(),
                rv == self@.roots,
                forall|j: int| 0 <= j < i ==> rv[j].uri != root@,
            decreases n - i,
        {
            if crate::uri::chars_eq(&self.roots[i].uri.text, &root.text) {
                proof {
                    lemma_find_lock_unique(rv, root@, 0, i as int);
                }
                return self.roots[i].last;
            }
            i = i + 1;
        }
        proof {
            lemma_find_lock_unique(rv, root@, 0, rv.len() as int);
        }
        None
    }

    /// Notes the caret position last seen for a document.
    pub fn set_position(&mut self, uri: &Uri, position: Position)
        requires
            engine_wf(old(self)@),
        ensures
            engine_wf(final(self)@),
            final(self)@.roots == old(self)@.roots,
            spec_position(final(self)@.positions, uri@) == Some(position),
            forall|u: Seq<char>|
                u != uri@ ==> spec_position(final(self)@.positions, u) == spec_position(
                    old(self)@.positions,
                    u,
                ),
    {
        let ghost pv0 = self@.positions;
        proof {
            lemma_find_cursor_bounds(pv0, uri@, 0);
        }
        let n = self.positions.len();
        let mut i: usize = 0;
        while i < n
            invariant
                i <= n,
                n == pv0.len(),
                pv0 == self@.positions,
                engine_wf(self@),
                self@ == old(self)@,
                forall|j: int| 0 <= j < i ==> pv0[j].uri != uri@,
            decreases n - i,
        {
            if crate::uri::chars_eq(&self.positions[i].uri.text, &uri.text) {
                proof {
                    lemma_find_cursor_unique(pv0, uri@, 0, i as int);
                }
                self.positions.set(i, CursorEntry { uri: uri.duplicate(), position });
                proof {
                    assert(self@.positions =~= pv0.update(
                        i as int,
                        CursorEntryView { uri: uri@, position },
                    ));
                    let pv1 = self@.positions;
                    assert forall|a: int, b: int|
                        0 <= a < pv1.len() && 0 <= b < pv1.len() && a != b implies pv1[a].uri
                        != pv1[b].uri by {
                        assert(pv1[a].uri == pv0[a].uri);
                        assert(pv1[b].uri == pv0[b].uri);
                    }
                    lemma_find_cursor_unique(pv1, uri@, 0, i as int);
                    assert forall|u: Seq<char>| u != uri@ implies spec_position(pv1, u)
                        == spec_position(pv0, u) by {
                        lemma_find_cursor_bounds(pv0, u, 0);
                        let k = find_cursor(pv0, u, 0);
                        if k < pv0.len() {
                            lemma_find_cursor_unique(pv1, u, 0, k);
                        } else {
                            lemma_find_cursor_unique(pv1, u, 0, pv1.len() as int);
                        }
                    }
                    assert forall|a: int, b: int|
                        0 <= a < self@.roots.len() && 0 <= b < self@.roots.len() && a != b implies self@.roots[a].uri
                        != self@.roots[b].uri by {
                        assert(self@.roots[a] == old(self)@.roots[a]);
                        assert(self@.roots[b] == old(self)@.roots[b]);
                    }
                }
                return ;
            }
            i = i + 1;
        }
        proof {
            lemma_find_cursor_unique(pv0, uri@, 0, pv0.len() as int);
        }
        self.positions.push(CursorEntry { uri: uri.duplicate(), position });
        proof {
            assert(self@.positions =~= pv0.push(CursorEntryView { uri: uri@, position }));
            let pv1 = self@.positions;
            assert forall|a: int, b: int|
                0 <= a < pv1.len() && 0 <= b < pv1.len() && a != b implies pv1[a].uri
                != pv1[b].uri by {
                if a < pv0.len() && b < pv0.len() {
                    assert(pv1[a].uri == pv0[a].uri);
                    assert(pv1[b].uri == pv0[b].uri);
                } else {
                    lemma_find_cursor_bounds(pv0, uri@, 0);
                }
            }
            lemma_find_cursor_unique(pv1, uri@, 0, pv0.len() as int);
            assert forall|u: Seq<char>| u != uri@ implies spec_position(pv1, u) == spec_position(
                pv0,
                u,
            ) by {
                lemma_find_cursor_bounds(pv0, u, 0);
                let k = find_cursor(pv0, u, 0);
                if k < pv0.len() {
                    lemma_find_cursor_unique(pv1, u, 0, k);
                } else {
                    lemma_find_cursor_unique(pv1, u, 0, pv1.len() as int);
                }
            }
            assert forall|a: int, b: int|
                0 <= a < self@.roots.len() && 0 <= b < self@.roots.len() && a != b implies self@.roots[a].uri
                != self@.roots[b].uri by {
                assert(self@.roots[a] == old(self)@.roots[a]);
                assert(self@.roots[b] == old(self)@.roots[b]);
            }
        }
    }

    /// The caret position last seen for a document.
    pub fn position_of(&self, uri: &Uri) -> (r: Option<Position>)
        ensures
            r == spec_position(self@.positions, uri@),
    {
        let ghost pv = self@.positions;
        let n = self.positions.len();
        let mut i: usize = 0;
        while i < n
            invariant
                i <= n,
                n == pv.len(),
                pv == self@.positions,
                forall|j: int| 0 <= j < i ==> pv[j].uri != uri@,
            decreases n - i,
        {
            if crate::uri::chars_eq(&self.positions[i].uri.text, &uri.text) {
                proof {
                    lemma_find_cursor_unique(pv, uri@, 0, i as int);
                }
                return Some(self.positions[i].position);
            }
            i = i + 1;
        }
        proof {
            lemma_find_cursor_unique(pv, uri@, 0, pv.len() as int);
        }
        None
    }
}

/// The result a finished compiler run maps to: cancellation wins, then a
/// zero exit means success, anything else failure.
pub open spec fn status_of_exit_spec(exit_zero: bool, cancelled: bool) -> BuildStatus {
    if cancelled {
        BuildStatus::Cancelled
    } else if exit_zero {
        BuildStatus::Success
    } else {
        BuildStatus::Failure
    }
}

/// Maps a compiler exit to a build status.
pub fn status_of_exit(exit_zero: bool, cancelled: bool) -> (r: BuildStatus)
    ensures
        r == status_of_exit_spec(exit_zero, cancelled),
{
    if cancelled {
        BuildStatus::Cancelled
    } else if exit_zero {
        BuildStatus::Success
    } else {
        BuildStatus::Failure
    }
}

/// `s` from position `i` on, with every `%` + `marker` replaced by `value`.
pub open spec fn subst_from(s: Seq<char>, i: int, marker: char, value: Seq<char>) -> Seq<char>
    decreases s.len() - i when 0 <= i <= s.len()
{
    if i >= s.len() {
        Seq::empty()
    } else if i + 2 <= s.len() && s[i] == '%' && s[i + 1] == marker {
        value + subst_from(s, i + 2, marker, value)
    } else {
        seq![s[i]] + subst_from(s, i + 1, marker, value)
    }
}

/// An argument template with the `%` + `marker` token replaced by `value`,
/// as build and forward-search command lines are put together.
pub open spec fn subst_spec(s: Seq<char>, marker: char, value: Seq<char>) -> Seq<char> {
    subst_from(s, 0, marker, value)
}

/// Replaces every `%` + `marker` token in `arg` by `value`.
pub fn substitute(arg: &Vec<char>, marker: char, value: &Vec<char>) -> (r: Vec<char>)
    ensures
        r@ == subst_spec(arg@, marker, value@),
{
    let ghost s = arg@;
    let mut out: Vec<char> = Vec::new();
    let mut i: usize = 0;
    while i < arg.len()
        invariant
            i <= s.len(),
            s == arg@,
            subst_spec(s, marker, value@) == out@ + subst_from(s, i as int, marker, value@),
        decreases s.len() - i,
    {
        if i + 1 < arg.len() && arg[i] == '%' && arg[i + 1] == marker {
            let ghost out0 = out@;
            let mut k: usize = 0;
            while k < value.len()
                invariant
                    k <= value@.len(),
                    out@ == out0 + value@.subrange(0, k as int),
                decreases value.len() - k,
            {
                let ghost outk = out@;
                out.push(value[k]);
                proof {
                    assert(out@ =~= out0 + value@.subrange(0, k + 1));
                }
                k = k + 1;
            }
            proof {
                assert(value@.subrange(0, value@.len() as int) =~= value@);
                assert(out@ + subst_from(s, i + 2, marker, value@) =~= out0 + subst_from(
                    s,
                    i as int,
                    marker,
                    value@,
                ));
            }
            i = i + 2;
        } else {
            let ghost out0 = out@;
            out.push(arg[i]);
            proof {
                assert(out@ =~= out0 + seq![s[i as int]]);
                assert(out@ + subst_from(s, i + 1, marker, value@) =~= out0 + subst_from(
                    s,
                    i as int,
                    marker,
                    value@,
                ));
            }
            i = i + 1;
        }
    }
    proof {
        assert(subst_from(s, i as int, marker, value@) =~= Seq::<char>::empty());
        assert(out@ =~= out@ + subst_from(s, i as int, marker, value@));
    }
    out
}

} // verus!
