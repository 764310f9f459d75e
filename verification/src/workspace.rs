//! The workspace: a store of documents keyed by URI, the viewport, and the
//! inclusion graph derived from the documents' references.
//!
//! `slice` returns the project slice of a URI: the target document together
//! with its transitive inclusion closure. The slice contains the target and
//! is closed under the inclusion relation; feature handlers work on such a
//! slice and never see a partial update.

use vstd::prelude::*;
use crate::document::{doc_wf, Document, DocumentView, Language, LinkKind, LinkRef, LinkRefView};
use crate::uri::Uri;

verus! {

/// First index at or after `i` whose document carries URI `u`, or the end.
pub open spec fn find_doc(docs: Seq<DocumentView>, u: Seq<char>, i: int) -> int
    decreases docs.len() - i when 0 <= i <= docs.len()
{
    if i >= docs.len() {
        docs.len() as int
    } else if docs[i].uri == u {
        i
    } else {
        find_doc(docs, u, i + 1)
    }
}

/// Index of the document carrying URI `u`, or the store's size.
pub open spec fn doc_index(docs: Seq<DocumentView>, u: Seq<char>) -> int {
    find_doc(docs, u, 0)
}

/// True when some document carries URI `u`.
pub open spec fn has_doc(docs: Seq<DocumentView>, u: Seq<char>) -> bool {
    doc_index(docs, u) < docs.len()
}

/// The document carrying URI `u`.
pub open spec fn get_doc(docs: Seq<DocumentView>, u: Seq<char>) -> DocumentView {
    docs[doc_index(docs, u)]
}

pub proof fn lemma_find_doc_bounds(docs: Seq<DocumentView>, u: Seq<char>, i: int)
    requires
        0 <= i <= docs.len(),
    ensures
        i <= find_doc(docs, u, i) <= docs.len(),
        forall|j: int| i <= j < find_doc(docs, u, i) ==> docs[j].uri != u,
        find_doc(docs, u, i) < docs.len() ==> docs[find_doc(docs, u, i)].uri == u,
    decreases docs.len() - i,
{
    if i < docs.len() && docs[i].uri != u {
        lemma_find_doc_bounds(docs, u, i + 1);
    }
}

pub proof fn lemma_find_doc_unique(docs: Seq<DocumentView>, u: Seq<char>, i: int, k: int)
    requires
        0 <= i <= k <= docs.len(),
        forall|j: int| i <= j < k ==> docs[j].uri != u,
        k < docs.len() ==> docs[k].uri == u,
    ensures
        find_doc(docs, u, i) == k,
    decreases k - i,
{
    if i < k {
        lemma_find_doc_unique(docs, u, i + 1, k);
    }
}

/// In a store with unique URIs, looking up a document's own URI finds it.
pub proof fn lemma_doc_index_of_member(docs: Seq<DocumentView>, i: int)
    requires
        0 <= i < docs.len(),
        unique_uris(docs),
    ensures
        doc_index(docs, docs[i].uri) == i,
        has_doc(docs, docs[i].uri),
        get_doc(docs, docs[i].uri) == docs[i],
{
    lemma_find_doc_unique(docs, docs[i].uri, 0, i);
}

/// A URI without a document matches no document of the store.
pub proof fn lemma_doc_index_of_member_absent(docs: Seq<DocumentView>, u: Seq<char>, b: int)
    requires
        !has_doc(docs, u),
        0 <= b < docs.len(),
    ensures
        docs[b].uri != u,
{
    lemma_find_doc_bounds(docs, u, 0);
}

/// No two documents of the store share a URI.
pub open spec fn unique_uris(docs: Seq<DocumentView>) -> bool {
    forall|i: int, j: int|
        0 <= i < docs.len() && 0 <= j < docs.len() && i != j ==> docs[i].uri != docs[j].uri
}

/// The spec-level image of a workspace.
pub ghost struct WorkspaceView {
    pub documents: Seq<DocumentView>,
    pub viewport: Seq<Seq<char>>,
}

/// A well-formed workspace: URIs unique, every document's references derived
/// from its text, no URI twice in the viewport.
pub open spec fn ws_wf(w: WorkspaceView) -> bool {
    &&& unique_uris(w.documents)
    &&& forall|i: int| 0 <= i < w.documents.len() ==> doc_wf(#[trigger] w.documents[i])
    &&& forall|i: int, j: int|
        0 <= i < w.viewport.len() && 0 <= j < w.viewport.len() && i != j ==> w.viewport[i]
            != w.viewport[j]
}

/// Index of the last `/` in `s[0..=i]`, or -1.
pub open spec fn last_slash_from(s: Seq<char>, i: int) -> int
    decreases i + 1 when -1 <= i < s.len()
{
    if i < 0 {
        -1
    } else if s[i] == '/' {
        i
    } else {
        last_slash_from(s, i - 1)
    }
}

pub proof fn lemma_last_slash_bounds(s: Seq<char>, i: int)
    requires
        -1 <= i < s.len(),
    ensures
        -1 <= last_slash_from(s, i) <= i,
    decreases i + 1,
{
    if i >= 0 && s[i] != '/' {
        lemma_last_slash_bounds(s, i - 1);
    }
}

/// The directory part of a URI: everything through its last `/`.
pub open spec fn dir_of(s: Seq<char>) -> Seq<char> {
    s.subrange(0, last_slash_from(s, s.len() - 1) + 1)
}

/// The URIs a reference could resolve to, in the order they are consulted:
/// the target as written, then the target with the kind's extension.
pub open spec fn resolve_spec(
    docs: Seq<DocumentView>,
    base: Seq<char>,
    l: LinkRefView,
) -> Option<Seq<char>> {
    match l.kind {
        LinkKind::Input => resolve_cands(docs, dir_of(base) + l.path, dir_of(base) + l.path + ".tex"@),
        LinkKind::Bibliography => resolve_cands(
            docs,
            dir_of(base) + l.path,
            dir_of(base) + l.path + ".bib"@,
        ),
        LinkKind::Package => None,
        LinkKind::Class => None,
    }
}

pub open spec fn resolve_cands(
    docs: Seq<DocumentView>,
    c1: Seq<char>,
    c2: Seq<char>,
) -> Option<Seq<char>> {
    if has_doc(docs, c1) {
        Some(c1)
    } else if has_doc(docs, c2) {
        Some(c2)
    } else {
        None
    }
}

/// The inclusion relation: document `u` resolves one of its references to
/// document `v` of the store.
pub open spec fn edge(docs: Seq<DocumentView>, u: Seq<char>, v: Seq<char>) -> bool {
    has_doc(docs, u) && exists|k: int|
        0 <= k < get_doc(docs, u).links.len() && resolve_spec(docs, u, get_doc(docs, u).links[k])
            == Some(v)
}

/// Resolved targets are always documents of the store.
pub proof fn lemma_edge_target_present(docs: Seq<DocumentView>, u: Seq<char>, v: Seq<char>)
    requires
        edge(docs, u, v),
    ensures
        has_doc(docs, v),
{
}

/// How many entries of `s` are true.
pub open spec fn count_true(s: Seq<bool>) -> int
    decreases s.len(),
{
    if s.len() == 0 {
        0
    } else {
        (if s[0] {
            1int
        } else {
            0int
        }) + count_true(s.drop_first())
    }
}

pub proof fn lemma_count_true_bounds(s: Seq<bool>)
    ensures
        0 <= count_true(s) <= s.len(),
    decreases s.len(),
{
    if s.len() > 0 {
        lemma_count_true_bounds(s.drop_first());
    }
}

pub proof fn lemma_count_true_update(s: Seq<bool>, i: int)
    requires
        0 <= i < s.len(),
        !s[i],
    ensures
        count_true(s.update(i, true)) == count_true(s) + 1,
    decreases s.len(),
{
    if i == 0 {
        assert(s.update(0, true).drop_first() =~= s.drop_first());
    } else {
        assert(s.update(i, true).drop_first() =~= s.drop_first().update(i - 1, true));
        lemma_count_true_update(s.drop_first(), i - 1);
    }
}

/// Joins two character sequences.
pub fn concat_chars(a: &Vec<char>, b: &Vec<char>) -> (r: Vec<char>)
    ensures
        r@ == a@ + b@,
{
    let mut out = a.clone();
    let mut k: usize = 0;
    while k < b.len()
        invariant
            k <= b@.len(),
            out@.len() == a@.len() + k,
            forall|m: int| 0 <= m < a@.len() ==> out@[m] == a@[m],
            forall|m: int| 0 <= m < k ==> out@[a@.len() + m] == b@[m],
        decreases b.len() - k,
    {
        out.push(b[k]);
        k = k + 1;
    }
    assert(out@ =~= a@ + b@);
    out
}

/// Returns the directory part of a URI.
pub fn dir_of_exec(s: &Vec<char>) -> (r: Vec<char>)
    ensures
        r@ == dir_of(s@),
{
    let mut i: usize = s.len();
    while i > 0
        invariant
            i <= s@.len(),
            last_slash_from(s@, s@.len() - 1) == last_slash_from(s@, i - 1),
        decreases i,
    {
        if s[i - 1] == '/' {
            return crate::document::copy_range(s, 0, i);
        }
        i = i - 1;
    }
    let r: Vec<char> = Vec::new();
    assert(r@ =~= dir_of(s@));
    r
}

/// A workspace: the document store and the viewport.
pub struct Workspace {
    pub documents: Vec<Document>,
    pub viewport: Vec<Uri>,
}

impl View for Workspace {
    type V = WorkspaceView;

    open spec fn view(&self) -> WorkspaceView {
        WorkspaceView {
            documents: self.documents@.map_values(|d: Document| d@),
            viewport: self.viewport@.map_values(|u: Uri| u@),
        }
    }
}

/// What `open` leaves in the store: the document with the same URI replaced,
/// or the new document appended.
pub open spec fn open_spec(docs: Seq<DocumentView>, d: DocumentView) -> Seq<DocumentView> {
    if has_doc(docs, d.uri) {
        docs.update(doc_index(docs, d.uri), d)
    } else {
        docs.push(d)
    }
}

/// What `remove` leaves in the store.
pub open spec fn remove_spec(docs: Seq<DocumentView>, u: Seq<char>) -> Seq<DocumentView> {
    if has_doc(docs, u) {
        docs.remove(doc_index(docs, u))
    } else {
        docs
    }
}

/// First index of `u` in the viewport, or its length.
pub open spec fn find_uri(vp: Seq<Seq<char>>, u: Seq<char>, i: int) -> int
    decreases vp.len() - i when 0 <= i <= vp.len()
{
    if i >= vp.len() {
        vp.len() as int
    } else if vp[i] == u {
        i
    } else {
        find_uri(vp, u, i + 1)
    }
}

pub open spec fn in_viewport(vp: Seq<Seq<char>>, u: Seq<char>) -> bool {
    find_uri(vp, u, 0) < vp.len()
}

pub proof fn lemma_find_uri_bounds(vp: Seq<Seq<char>>, u: Seq<char>, i: int)
    requires
        0 <= i <= vp.len(),
    ensures
        i <= find_uri(vp, u, i) <= vp.len(),
        forall|j: int| i <= j < find_uri(vp, u, i) ==> vp[j] != u,
        find_uri(vp, u, i) < vp.len() ==> vp[find_uri(vp, u, i)] == u,
    decreases vp.len() - i,
{
    if i < vp.len() && vp[i] != u {
        lemma_find_uri_bounds(vp, u, i + 1);
    }
}

pub proof fn lemma_find_uri_unique(vp: Seq<Seq<char>>, u: Seq<char>, i: int, k: int)
    requires
        0 <= i <= k <= vp.len(),
        forall|j: int| i <= j < k ==> vp[j] != u,
        k < vp.len() ==> vp[k] == u,
    ensures
        find_uri(vp, u, i) == k,
    decreases k - i,
{
    if i < k {
        lemma_find_uri_unique(vp, u, i + 1, k);
    }
}

/// What `close` leaves in the viewport.
pub open spec fn close_spec(vp: Seq<Seq<char>>, u: Seq<char>) -> Seq<Seq<char>> {
    if in_viewport(vp, u) {
        vp.remove(find_uri(vp, u, 0))
    } else {
        vp
    }
}

/// Finds the store index of the document carrying `u`.
fn find_doc_index(docs: &Vec<Document>, u: &Vec<char>) -> (r: Option<usize>)
    ensures
        match r {
            Some(i) => i < docs@.len() && i == doc_index(
                docs@.map_values(|d: Document| d@),
                u@,
            ),
            None => !has_doc(docs@.map_values(|d: Document| d@), u@),
        },
{
    let ghost dv = docs@.map_values(|d: Document| d@);
    let mut i: usize = 0;
    while i < docs.len()
        invariant
            i <= dv.len(),
            dv == docs@.map_values(|d: Document| d@),
            forall|j: int| 0 <= j < i ==> dv[j].uri != u@,
        decreases docs.len() - i,
    {
        if crate::uri::chars_eq(&docs[i].uri.text, u) {
            proof {
                lemma_find_uri_unique_docs(dv, u@, i as int);
            }
            return Some(i);
        }
        i = i + 1;
    }
    proof {
        lemma_find_doc_unique(dv, u@, 0, dv.len() as int);
    }
    None
}

proof fn lemma_find_uri_unique_docs(dv: Seq<DocumentView>, u: Seq<char>, i: int)
    requires
        0 <= i < dv.len(),
        dv[i].uri == u,
        forall|j: int| 0 <= j < i ==> dv[j].uri != u,
    ensures
        doc_index(dv, u) == i,
        has_doc(dv, u),
{
    lemma_find_doc_unique(dv, u, 0, i);
}

/// The documents among `dv[0..m]` that `inc` marks, in store order.
pub open spec fn collect_spec(dv: Seq<DocumentView>, inc: Seq<bool>, m: int) -> Seq<DocumentView>
    decreases m when 0 <= m <= dv.len() && inc.len() == dv.len()
{
    if m <= 0 {
        Seq::empty()
    } else if inc[m - 1] {
        collect_spec(dv, inc, m - 1).push(dv[m - 1])
    } else {
        collect_spec(dv, inc, m - 1)
    }
}

/// True when `d` is one of the documents that `inc` marks among the first
/// `bound` entries of `dv`.
pub open spec fn from_marked(dv: Seq<DocumentView>, inc: Seq<bool>, bound: int, d: DocumentView) -> bool {
    exists|y: int| 0 <= y < bound && y < dv.len() && inc[y] && d == #[trigger] dv[y]
}

/// The collected documents are exactly the marked ones, each once.
pub proof fn lemma_collect_props(dv: Seq<DocumentView>, inc: Seq<bool>, m: int)
    requires
        0 <= m <= dv.len(),
        inc.len() == dv.len(),
        unique_uris(dv),
    ensures
        forall|x: int|
            0 <= x < collect_spec(dv, inc, m).len() ==> from_marked(
                dv,
                inc,
                m,
                #[trigger] collect_spec(dv, inc, m)[x],
            ),
        forall|y: int| 0 <= y < m && inc[y] ==> collect_spec(dv, inc, m).contains(#[trigger] dv[y]),
        unique_uris(collect_spec(dv, inc, m)),
    decreases m,
{
    if m > 0 {
        lemma_collect_props(dv, inc, m - 1);
        let c0 = collect_spec(dv, inc, m - 1);
        let c = collect_spec(dv, inc, m);
        if inc[m - 1] {
            assert(c == c0.push(dv[m - 1]));
            assert forall|x: int| 0 <= x < c.len() implies from_marked(
                dv,
                inc,
                m,
                #[trigger] c[x],
            ) by {
                if x < c0.len() {
                    assert(c[x] == c0[x]);
                    assert(from_marked(dv, inc, m - 1, c0[x]));
                    let y = choose|y: int|
                        0 <= y < m - 1 && y < dv.len() && inc[y] && c0[x] == dv[y];
                    assert(0 <= y < m && y < dv.len() && inc[y] && c[x] == dv[y]);
                } else {
                    assert(c[x] == dv[m - 1]);
                    assert(0 <= m - 1 < dv.len() && inc[m - 1] && c[x] == dv[m - 1]);
                }
            }
            assert forall|y: int| 0 <= y < m && inc[y] implies c.contains(#[trigger] dv[y]) by {
                if y < m - 1 {
                    assert(c0.contains(dv[y]));
                    let x = choose|x: int| 0 <= x < c0.len() && c0[x] == dv[y];
                    assert(c[x] == dv[y]);
                } else {
                    assert(c[c0.len() as int] == dv[y]);
                }
            }
            assert forall|a: int, b: int|
                0 <= a < c.len() && 0 <= b < c.len() && a != b implies c[a].uri != c[b].uri by {
                if a < c0.len() && b < c0.len() {
                    assert(c[a] == c0[a] && c[b] == c0[b]);
                } else {
                    let o = if a < c0.len() {
                        a
                    } else {
                        b
                    };
                    assert(o < c0.len());
                    assert(c[o] == c0[o]);
                    assert(from_marked(dv, inc, m - 1, c0[o]));
                    let y = choose|y: int|
                        0 <= y < m - 1 && y < dv.len() && inc[y] && c0[o] == dv[y];
                    assert(dv[y].uri != dv[m - 1].uri);
                }
            }
        } else {
            assert(c == c0);
            assert forall|y: int| 0 <= y < m && inc[y] implies c.contains(#[trigger] dv[y]) by {
                assert(y < m - 1);
            }
            assert forall|x: int| 0 <= x < c.len() implies from_marked(
                dv,
                inc,
                m,
                #[trigger] c[x],
            ) by {
                assert(from_marked(dv, inc, m - 1, c0[x]));
                let y = choose|y: int|
                    0 <= y < m - 1 && y < dv.len() && inc[y] && c0[x] == dv[y];
                assert(0 <= y < m && y < dv.len() && inc[y] && c[x] == dv[y]);
            }
        }
    }
}

/// Clones out of `docs` exactly the documents that `included` marks.
fn collect_included(docs: &Vec<Document>, included: &Vec<bool>) -> (out: Vec<Document>)
    requires
        included@.len() == docs@.len(),
    ensures
        out@.map_values(|d: Document| d@) == collect_spec(
            docs@.map_values(|d: Document| d@),
            included@,
            docs@.len() as int,
        ),
{
    let ghost dv = docs@.map_values(|d: Document| d@);
    let n = docs.len();
    let mut out: Vec<Document> = Vec::new();
    let mut m: usize = 0;
    while m < n
        invariant
            dv == docs@.map_values(|d: Document| d@),
            n == dv.len(),
            included@.len() == n,
            m <= n,
            out@.map_values(|d: Document| d@) == collect_spec(dv, included@, m as int),
        decreases n - m,
    {
        if included[m] {
            let ghost out0 = out@;
            out.push(docs[m].duplicate());
            proof {
                assert(out@[out0.len() as int]@ == dv[m as int]);
                assert(out@.map_values(|d: Document| d@) =~= out0.map_values(
                    |d: Document| d@,
                ).push(dv[m as int]));
            }
        }
        m = m + 1;
    }
    out
}

impl Workspace {
    /// An empty workspace.
    pub fn new() -> (w: Workspace)
        ensures
            w@.documents.len() == 0,
            w@.viewport.len() == 0,
            ws_wf(w@),
    {
        let w = Workspace { documents: Vec::new(), viewport: Vec::new() };
        proof {
            assert(w@.documents =~= Seq::<DocumentView>::empty());
            assert(w@.viewport =~= Seq::<Seq<char>>::empty());
        }
        w
    }

    /// Parses `text` and inserts or replaces the document under `uri`
    /// atomically: every other document is untouched.
    pub fn open(&mut self, uri: Uri, text: Vec<char>, language: Language)
        requires
            ws_wf(old(self)@),
        ensures
            ws_wf(final(self)@),
            final(self)@.documents == open_spec(
                old(self)@.documents,
                DocumentView {
                    uri: uri@,
                    text: text@,
                    language,
                    links: crate::document::doc_links_spec(text@, language),
                },
            ),
            final(self)@.viewport == old(self)@.viewport,
            has_doc(final(self)@.documents, uri@),
            get_doc(final(self)@.documents, uri@) == (DocumentView {
                uri: uri@,
                text: text@,
                language,
                links: crate::document::doc_links_spec(text@, language),
            }),
    {
        let ghost dv0 = self@.documents;
        let doc = Document::new(uri, text, language);
        let ghost d = doc@;
        match find_doc_index(&self.documents, &doc.uri.text) {
            Some(i) => {
                self.documents.set(i, doc);
                proof {
                    assert(self@.documents =~= dv0.update(doc_index(dv0, d.uri), d));
                    lemma_find_doc_bounds(dv0, d.uri, 0);
                    let dv1 = self@.documents;
                    assert forall|a: int, b: int|
                        0 <= a < dv1.len() && 0 <= b < dv1.len() && a != b implies dv1[a].uri
                        != dv1[b].uri by {
                        assert(dv1[a].uri == dv0[a].uri || a == i);
                        assert(dv1[b].uri == dv0[b].uri || b == i);
                    }
                    assert forall|a: int| 0 <= a < dv1.len() implies doc_wf(
                        #[trigger] dv1[a],
                    ) by {
                        if a != i {
                            assert(dv1[a] == dv0[a]);
                        }
                    }
                    lemma_doc_index_of_member(dv1, i as int);
                    assert forall|a: int, b: int|
                        0 <= a < self@.viewport.len() && 0 <= b < self@.viewport.len() && a
                        != b implies self@.viewport[a] != self@.viewport[b] by {
                        assert(self@.viewport[a] == old(self)@.viewport[a]);
                        assert(self@.viewport[b] == old(self)@.viewport[b]);
                    }
                }
            },
            None => {
                self.documents.push(doc);
                proof {
                    assert(self@.documents =~= dv0.push(d));
                    let dv1 = self@.documents;
                    assert forall|a: int, b: int|
                        0 <= a < dv1.len() && 0 <= b < dv1.len() && a != b implies dv1[a].uri
                        != dv1[b].uri by {
                        if a < dv0.len() && b < dv0.len() {
                        } else if a == dv0.len() {
                            lemma_doc_index_of_member_absent(dv0, d.uri, b);
                        } else {
                            lemma_doc_index_of_member_absent(dv0, d.uri, a);
                        }
                    }
                    assert forall|a: int| 0 <= a < dv1.len() implies doc_wf(
                        #[trigger] dv1[a],
                    ) by {
                        if a < dv0.len() {
                            assert(dv1[a] == dv0[a]);
                        }
                    }
                    lemma_doc_index_of_member(dv1, dv0.len() as int);
                    assert forall|a: int, b: int|
                        0 <= a < self@.viewport.len() && 0 <= b < self@.viewport.len() && a
                        != b implies self@.viewport[a] != self@.viewport[b] by {
                        assert(self@.viewport[a] == old(self)@.viewport[a]);
                        assert(self@.viewport[b] == old(self)@.viewport[b]);
                    }
                }
            },
        }
    }

    /// Returns the current document under `uri`, if any.
    pub fn get<'a>(&'a self, uri: &Uri) -> (r: Option<&'a Document>)
        ensures
            match r {
                Some(d) => has_doc(self@.documents, uri@) && d@ == get_doc(
                    self@.documents,
                    uri@,
                ),
                None => !has_doc(self@.documents, uri@),
            },
    {
        match find_doc_index(&self.documents, &uri.text) {
            Some(i) => Some(&self.documents[i]),
            None => None,
        }
    }

    /// Erases the document under `uri`; no event is emitted.
    pub fn remove(&mut self, uri: &Uri)
        requires
            ws_wf(old(self)@),
        ensures
            ws_wf(final(self)@),
            final(self)@.documents == remove_spec(old(self)@.documents, uri@),
            final(self)@.viewport == old(self)@.viewport,
    {
        let ghost dv0 = self@.documents;
        match find_doc_index(&self.documents, &uri.text) {
            Some(i) => {
                self.documents.remove(i);
                proof {
                    assert(self@.documents =~= dv0.remove(doc_index(dv0, uri@)));
                    let dv1 = self@.documents;
                    assert forall|a: int, b: int|
                        0 <= a < dv1.len() && 0 <= b < dv1.len() && a != b implies dv1[a].uri
                        != dv1[b].uri by {
                        let a0 = if a < i as int {
                            a
                        } else {
                            a + 1
                        };
                        let b0 = if b < i as int {
                            b
                        } else {
                            b + 1
                        };
                        assert(dv1[a] == dv0[a0]);
                        assert(dv1[b] == dv0[b0]);
                    }
                    assert forall|a: int| 0 <= a < dv1.len() implies doc_wf(#[trigger] dv1[a]) by {
                        let a0 = if a < i as int {
                            a
                        } else {
                            a + 1
                        };
                        assert(dv1[a] == dv0[a0]);
                    }
                    assert forall|a: int, b: int|
                        0 <= a < self@.viewport.len() && 0 <= b < self@.viewport.len() && a
                        != b implies self@.viewport[a] != self@.viewport[b] by {
                        assert(self@.viewport[a] == old(self)@.viewport[a]);
                        assert(self@.viewport[b] == old(self)@.viewport[b]);
                    }
                }
            },
            None => {},
        }
    }

    /// Removes `uri` from the viewport; the document itself stays.
    pub fn close(&mut self, uri: &Uri)
        requires
            ws_wf(old(self)@),
        ensures
            ws_wf(final(self)@),
            final(self)@.viewport == close_spec(old(self)@.viewport, uri@),
            final(self)@.documents == old(self)@.documents,
    {
        let ghost vp0 = self@.viewport;
        let mut i: usize = 0;
        while i < self.viewport.len()
            invariant
                i <= vp0.len(),
                self@.viewport == vp0,
                self@.documents == old(self)@.documents,
                self.viewport@.len() == vp0.len(),
                forall|j: int| 0 <= j < i ==> vp0[j] != uri@,
                ws_wf(self@),
                vp0 == old(self)@.viewport,
            decreases self.viewport.len() - i,
        {
            if crate::uri::chars_eq(&self.viewport[i].text, &uri.text) {
                proof {
                    lemma_find_uri_unique(vp0, uri@, 0, i as int);
                }
                self.viewport.remove(i);
                proof {
                    assert(self@.viewport =~= vp0.remove(i as int));
                    let vp1 = self@.viewport;
                    assert forall|a: int, b: int|
                        0 <= a < vp1.len() && 0 <= b < vp1.len() && a != b implies vp1[a]
                        != vp1[b] by {
                        let a0 = if a < i as int {
                            a
                        } else {
                            a + 1
                        };
                        let b0 = if b < i as int {
                            b
                        } else {
                            b + 1
                        };
                        assert(vp1[a] == vp0[a0]);
                        assert(vp1[b] == vp0[b0]);
                    }
                }
                return ;
            }
            i = i + 1;
        }
        proof {
            lemma_find_uri_unique(vp0, uri@, 0, vp0.len() as int);
        }
    }

    /// Notes that the editor shows `uri`.
    pub fn insert_viewport(&mut self, uri: &Uri)
        requires
            ws_wf(old(self)@),
        ensures
            ws_wf(final(self)@),
            final(self)@.documents == old(self)@.documents,
            final(self)@.viewport == if in_viewport(old(self)@.viewport, uri@) {
                old(self)@.viewport
            } else {
                old(self)@.viewport.push(uri@)
            },
            in_viewport(final(self)@.viewport, uri@),
    {
        let ghost vp0 = self@.viewport;
        let mut i: usize = 0;
        while i < self.viewport.len()
            invariant
                i <= vp0.len(),
                self@.viewport == vp0,
                self@.documents == old(self)@.documents,
                forall|j: int| 0 <= j < i ==> vp0[j] != uri@,
                ws_wf(self@),
                vp0 == old(self)@.viewport,
            decreases self.viewport.len() - i,
        {
            if crate::uri::chars_eq(&self.viewport[i].text, &uri.text) {
                proof {
                    lemma_find_uri_unique(vp0, uri@, 0, i as int);
                }
                return ;
            }
            i = i + 1;
        }
        proof {
            lemma_find_uri_unique(vp0, uri@, 0, vp0.len() as int);
        }
        self.viewport.push(uri.duplicate());
        proof {
            assert(self@.viewport =~= vp0.push(uri@));
            let vp1 = self@.viewport;
            assert forall|a: int, b: int|
                0 <= a < vp1.len() && 0 <= b < vp1.len() && a != b implies vp1[a] != vp1[b] by {
                lemma_find_uri_bounds(vp0, uri@, 0);
            }
            lemma_find_uri_unique(vp1, uri@, 0, vp0.len() as int);
        }
    }

    /// Clones the whole workspace: the snapshot feature workers and the
    /// diagnostic pipeline read.
    pub fn duplicate(&self) -> (r: Workspace)
        ensures
            r@ == self@,
    {
        let mut docs: Vec<Document> = Vec::new();
        let mut i: usize = 0;
        while i < self.documents.len()
            invariant
                i <= self.documents@.len(),
                docs@.len() == i,
                forall|j: int| 0 <= j < i ==> docs@[j]@ == #[trigger] self.documents@[j]@,
            decreases self.documents.len() - i,
        {
            docs.push(self.documents[i].duplicate());
            i = i + 1;
        }
        let mut vp: Vec<Uri> = Vec::new();
        let mut k: usize = 0;
        while k < self.viewport.len()
            invariant
                k <= self.viewport@.len(),
                vp@.len() == k,
                forall|j: int| 0 <= j < k ==> vp@[j]@ == #[trigger] self.viewport@[j]@,
            decreases self.viewport.len() - k,
        {
            vp.push(self.viewport[k].duplicate());
            k = k + 1;
        }
        let r = Workspace { documents: docs, viewport: vp };
        proof {
            assert(r@.documents =~= self@.documents);
            assert(r@.viewport =~= self@.viewport);
        }
        r
    }

    /// Resolves one reference of the document `base` against the store:
    /// first the target as written, then with the kind's extension.
    fn resolve_link(&self, base: &Uri, link: &LinkRef) -> (r: Option<usize>)
        ensures
            match r {
                Some(j) => j < self@.documents.len() && resolve_spec(
                    self@.documents,
                    base@,
                    link@,
                ) == Some(self@.documents[j as int].uri) && j == doc_index(
                    self@.documents,
                    self@.documents[j as int].uri,
                ),
                None => resolve_spec(self@.documents, base@, link@) is None,
            },
    {
        let ext: Option<Vec<char>> = match link.kind {
            LinkKind::Input => Some(vec!['.', 't', 'e', 'x']),
            LinkKind::Bibliography => Some(vec!['.', 'b', 'i', 'b']),
            LinkKind::Package => None,
            LinkKind::Class => None,
        };
        match ext {
            Some(ext) => {
                proof {
                    reveal_strlit(".tex");
                    reveal_strlit(".bib");
                    if link@.kind == LinkKind::Input {
                        assert(ext@ =~= ".tex"@);
                    } else {
                        assert(ext@ =~= ".bib"@);
                    }
                }
                let dir = dir_of_exec(&base.text);
                let c1 = concat_chars(&dir, &link.path);
                let c2 = concat_chars(&c1, &ext);
                match find_doc_index(&self.documents, &c1) {
                    Some(j) => {
                        proof {
                            lemma_find_doc_bounds(self@.documents, c1@, 0);
                        }
                        Some(j)
                    },
                    None => match find_doc_index(&self.documents, &c2) {
                        Some(j) => {
                            proof {
                                lemma_find_doc_bounds(self@.documents, c2@, 0);
                            }
                            Some(j)
                        },
                        None => None,
                    },
                }
            },
            None => None,
        }
    }

    /// Returns the project slice of `uri`: the target document and its
    /// transitive inclusion closure, cloned out of the store. The slice
    /// contains the target and is closed under the inclusion relation; a
    /// URI without a document yields the empty slice.
    pub fn slice(&self, uri: &Uri) -> (r: Workspace)
        requires
            ws_wf(self@),
        ensures
            ws_wf(r@),
            r@.viewport.len() == 0,
            !has_doc(self@.documents, uri@) ==> r@.documents.len() == 0,
            has_doc(self@.documents, uri@) ==> has_doc(r@.documents, uri@),
            forall|i: int|
                0 <= i < r@.documents.len() ==> has_doc(
                    self@.documents,
                    #[trigger] r@.documents[i].uri,
                ) && r@.documents[i] == get_doc(self@.documents, r@.documents[i].uri),
            forall|i: int, v: Seq<char>|
                0 <= i < r@.documents.len() && #[trigger] edge(
                    self@.documents,
                    r@.documents[i].uri,
                    v,
                ) ==> has_doc(r@.documents, v),
            forall|i: int, w: Seq<char>|
                0 <= i < r@.documents.len() && #[trigger] edge(
                    self@.documents,
                    w,
                    r@.documents[i].uri,
                ) ==> has_doc(r@.documents, w),
            slice_ok(r@.documents, self@.documents, uri@),
    {
        let ghost dv = self@.documents;
        let n = self.documents.len();
        let start = match find_doc_index(&self.documents, &uri.text) {
            Some(i) => i,
            None => {
                return Workspace::new();
            },
        };
        proof {
            lemma_find_doc_bounds(dv, uri@, 0);
        }

        let mut included: Vec<bool> = Vec::new();
        let mut k: usize = 0;
        while k < n
            invariant
                k <= n,
                included@.len() == k,
                forall|m: int| 0 <= m < k ==> !included@[m],
            decreases n - k,
        {
            included.push(false);
            k = k + 1;
        }
        included.set(start, true);

        // Grow the included set to a fixpoint: a full pass without change
        // means every included document's resolved targets are included.
        let mut changed: bool = true;
        while changed
            invariant
                ws_wf(self@),
                dv == self@.documents,
                n == dv.len(),
                included@.len() == n,
                start < n,
                included@[start as int],
                dv[start as int].uri == uri@,
                !changed ==> closure_prop(dv, included@),
            decreases n - count_true(included@) + (if changed {
                1int
            } else {
                0int
            }),
        {
            proof {
                lemma_count_true_bounds(included@);
            }
            changed = false;
            let ghost inc0 = included@;
            let mut i: usize = 0;
            while i < n
                invariant
                    ws_wf(self@),
                    dv == self@.documents,
                    n == dv.len(),
                    included@.len() == n,
                    start < n,
                    included@[start as int],
                    dv[start as int].uri == uri@,
                    i <= n,
                    !changed ==> included@ == inc0,
                    changed ==> count_true(included@) >= count_true(inc0) + 1,
                    forall|y: int| 0 <= y < n && inc0[y] ==> included@[y],
                    !changed ==> forall|idx: int, m: int|
                        0 <= idx < i && 0 <= m < dv[idx].links.len() && resolve_spec(
                            dv,
                            dv[idx].uri,
                            dv[idx].links[m],
                        ) is Some ==> (included@[idx] <==> included@[doc_index(
                            dv,
                            resolve_spec(dv, dv[idx].uri, dv[idx].links[m]).unwrap(),
                        )]),
                decreases n - i,
            {
                let nlinks = self.documents[i].links.len();
                let mut kk: usize = 0;
                while kk < nlinks
                    invariant
                        ws_wf(self@),
                        dv == self@.documents,
                        n == dv.len(),
                        included@.len() == n,
                        start < n,
                        included@[start as int],
                        i < n,
                        kk <= nlinks,
                        nlinks == dv[i as int].links.len(),
                        !changed ==> included@ == inc0,
                        changed ==> count_true(included@) >= count_true(inc0) + 1,
                        forall|y: int| 0 <= y < n && inc0[y] ==> included@[y],
                        !changed ==> forall|idx: int, m: int|
                            0 <= idx < i && 0 <= m < dv[idx].links.len() && resolve_spec(
                                dv,
                                dv[idx].uri,
                                dv[idx].links[m],
                            ) is Some ==> (included@[idx] <==> included@[doc_index(
                                dv,
                                resolve_spec(dv, dv[idx].uri, dv[idx].links[m]).unwrap(),
                            )]),
                        !changed ==> forall|m: int|
                            0 <= m < kk && resolve_spec(
                                dv,
                                dv[i as int].uri,
                                dv[i as int].links[m],
                            ) is Some ==> (included@[i as int] <==> included@[doc_index(
                                dv,
                                resolve_spec(dv, dv[i as int].uri, dv[i as int].links[m]).unwrap(),
                            )]),
                    decreases nlinks - kk,
                {
                    let doc = &self.documents[i];
                    proof {
                        assert(dv[i as int] == self.documents@[i as int]@);
                        assert(doc.uri@ == dv[i as int].uri);
                        assert(doc.links@[kk as int]@ == dv[i as int].links[kk as int]);
                    }
                    match self.resolve_link(&doc.uri, &doc.links[kk]) {
                        Some(j) => {
                            proof {
                                assert(resolve_spec(
                                    dv,
                                    dv[i as int].uri,
                                    dv[i as int].links[kk as int],
                                ) == Some(dv[j as int].uri));
                                assert(j as int == doc_index(dv, dv[j as int].uri));
                            }
                            let at_source = included[i];
                            let at_target = included[j];
                            if at_source && !at_target {
                                let ghost incb = included@;
                                included.set(j, true);
                                proof {
                                    lemma_count_true_update(incb, j as int);
                                }
                                changed = true;
                            } else if at_target && !at_source {
                                let ghost incb = included@;
                                included.set(i, true);
                                proof {
                                    lemma_count_true_update(incb, i as int);
                                }
                                changed = true;
                            }
                        },
                        None => {
                            proof {
                                assert(resolve_spec(
                                    dv,
                                    dv[i as int].uri,
                                    dv[i as int].links[kk as int],
                                ) is None);
                            }
                        },
                    }
                    kk = kk + 1;
                }
                i = i + 1;
            }
            proof {
                lemma_count_true_bounds(included@);
            }
        }

        // Assemble the slice out of the included documents.
        let out = collect_included(&self.documents, &included);

        let r = Workspace { documents: out, viewport: Vec::new() };
        proof {
            let rdocs = r@.documents;
            assert(rdocs == collect_spec(dv, included@, n as int));
            lemma_collect_props(dv, included@, n as int);
            lemma_slice_post(dv, included@, rdocs, start as int, uri@);
            assert(r@.viewport =~= Seq::<Seq<char>>::empty());
        }
        r
    }
}

/// What `slice` promises: the slice holds the target (when the store
/// does), every slice member is a document of the store, and the slice is
/// closed under the inclusion relation in both directions.
pub open spec fn slice_ok(sl: Seq<DocumentView>, store: Seq<DocumentView>, u: Seq<char>) -> bool {
    &&& !has_doc(store, u) ==> sl.len() == 0
    &&& has_doc(store, u) ==> has_doc(sl, u)
    &&& forall|i: int|
        0 <= i < sl.len() ==> has_doc(store, #[trigger] sl[i].uri) && sl[i] == get_doc(
            store,
            sl[i].uri,
        )
    &&& forall|i: int, v: Seq<char>|
        0 <= i < sl.len() && #[trigger] edge(store, sl[i].uri, v) ==> has_doc(sl, v)
    &&& forall|i: int, w: Seq<char>|
        0 <= i < sl.len() && #[trigger] edge(store, w, sl[i].uri) ==> has_doc(sl, w)
}

/// Along every resolved reference, both ends are included together: the
/// included set is a whole project, closed under the inclusion relation in
/// both directions.
pub open spec fn closure_prop(dv: Seq<DocumentView>, inc: Seq<bool>) -> bool {
    forall|idx: int, m: int|
        0 <= idx < dv.len() && 0 <= m < dv[idx].links.len() && resolve_spec(
            dv,
            dv[idx].uri,
            dv[idx].links[m],
        ) is Some ==> (inc[idx] <==> inc[doc_index(
            dv,
            resolve_spec(dv, dv[idx].uri, dv[idx].links[m]).unwrap(),
        )])
}

/// Character-sequence order: `a` at or before `b`, comparing from `i`.
pub open spec fn lex_le_from(a: Seq<char>, b: Seq<char>, i: int) -> bool
    decreases a.len() - i when 0 <= i
{
    if i >= a.len() {
        true
    } else if i >= b.len() {
        false
    } else if a[i] != b[i] {
        a[i] < b[i]
    } else {
        lex_le_from(a, b, i + 1)
    }
}

/// Lexicographic order on URIs.
pub open spec fn lex_le(a: Seq<char>, b: Seq<char>) -> bool {
    lex_le_from(a, b, 0)
}

pub proof fn lemma_lex_le_refl(a: Seq<char>, i: int)
    requires
        0 <= i,
    ensures
        lex_le_from(a, a, i),
    decreases a.len() - i,
{
    if i < a.len() {
        lemma_lex_le_refl(a, i + 1);
    }
}

pub proof fn lemma_lex_le_total(a: Seq<char>, b: Seq<char>, i: int)
    requires
        0 <= i,
    ensures
        lex_le_from(a, b, i) || lex_le_from(b, a, i),
    decreases a.len() - i,
{
    if i < a.len() && i < b.len() && a[i] == b[i] {
        lemma_lex_le_total(a, b, i + 1);
    }
}

pub proof fn lemma_lex_le_trans(a: Seq<char>, b: Seq<char>, c: Seq<char>, i: int)
    requires
        0 <= i,
        lex_le_from(a, b, i),
        lex_le_from(b, c, i),
    ensures
        lex_le_from(a, c, i),
    decreases a.len() - i,
{
    if i < a.len() && i < b.len() && i < c.len() && a[i] == b[i] && b[i] == c[i] {
        lemma_lex_le_trans(a, b, c, i + 1);
    }
}

/// Compares two URIs lexicographically.
pub fn lex_le_exec(a: &Vec<char>, b: &Vec<char>) -> (r: bool)
    ensures
        r == lex_le(a@, b@),
{
    let mut i: usize = 0;
    loop
        invariant
            i <= a@.len(),
            i <= b@.len(),
            lex_le(a@, b@) == lex_le_from(a@, b@, i as int),
        decreases a@.len() - i,
    {
        if i >= a.len() {
            return true;
        }
        if i >= b.len() {
            return false;
        }
        if a[i] != b[i] {
            return a[i] < b[i];
        }
        i = i + 1;
    }
}

/// True when some document of the store includes `v`.
pub open spec fn has_incoming(docs: Seq<DocumentView>, v: Seq<char>) -> bool {
    exists|j: int, k: int|
        0 <= j < docs.len() && 0 <= k < docs[j].links.len() && resolve_spec(
            docs,
            docs[j].uri,
            docs[j].links[k],
        ) == Some(v)
}

/// Within `fuel` inclusion steps, document `a` reaches document `u`.
pub open spec fn reaches(docs: Seq<DocumentView>, a: Seq<char>, u: Seq<char>, fuel: nat) -> bool
    decreases fuel,
{
    a == u || (fuel > 0 && exists|v: Seq<char>|
        #[trigger] edge(docs, a, v) && reaches(docs, v, u, (fuel - 1) as nat))
}

/// `a` is `u` itself or an ancestor of `u` under the inclusion relation.
pub open spec fn is_ancestor_of(docs: Seq<DocumentView>, a: Seq<char>, u: Seq<char>) -> bool {
    exists|fuel: nat| reaches(docs, a, u, fuel)
}

pub proof fn lemma_ancestor_refl(docs: Seq<DocumentView>, u: Seq<char>)
    ensures
        is_ancestor_of(docs, u, u),
{
    assert(reaches(docs, u, u, 0));
}

pub proof fn lemma_ancestor_step(docs: Seq<DocumentView>, a: Seq<char>, v: Seq<char>, u: Seq<char>)
    requires
        edge(docs, a, v),
        is_ancestor_of(docs, v, u),
    ensures
        is_ancestor_of(docs, a, u),
{
    let fuel = choose|fuel: nat| reaches(docs, v, u, fuel);
    assert(reaches(docs, a, u, fuel + 1));
}

/// A marking that contains the target and is closed against incoming
/// edges contains every ancestor of the target.
proof fn lemma_marked_complete(
    docs: Seq<DocumentView>,
    marked: Seq<bool>,
    u: Seq<char>,
    a: Seq<char>,
    fuel: nat,
)
    requires
        unique_uris(docs),
        marked.len() == docs.len(),
        has_doc(docs, u),
        marked[doc_index(docs, u)],
        forall|i: int, k: int|
            0 <= i < docs.len() && 0 <= k < docs[i].links.len() && resolve_spec(
                docs,
                docs[i].uri,
                docs[i].links[k],
            ) is Some && marked[doc_index(
                docs,
                resolve_spec(docs, docs[i].uri, docs[i].links[k]).unwrap(),
            )] ==> marked[i],
        reaches(docs, a, u, fuel),
        has_doc(docs, a),
    ensures
        marked[doc_index(docs, a)],
    decreases fuel,
{
    if a != u {
        let v = choose|v: Seq<char>|
            #[trigger] edge(docs, a, v) && reaches(docs, v, u, (fuel - 1) as nat);
        lemma_marked_complete(docs, marked, u, v, (fuel - 1) as nat);
        let k = choose|k: int|
            0 <= k < get_doc(docs, a).links.len() && resolve_spec(
                docs,
                a,
                get_doc(docs, a).links[k],
            ) == Some(v);
        lemma_find_doc_bounds(docs, a, 0);
        let ia = doc_index(docs, a);
        assert(resolve_spec(docs, docs[ia].uri, docs[ia].links[k]) == Some(v));
        assert(marked[ia]);
    }
}

/// A document that can serve as project root for `u`: an ancestor of `u`
/// (or `u` itself) that is not a build log and that no document includes.
pub open spec fn is_root_candidate(docs: Seq<DocumentView>, idx: int, u: Seq<char>) -> bool {
    0 <= idx < docs.len() && docs[idx].language != Language::BuildLog && !has_incoming(
        docs,
        docs[idx].uri,
    ) && is_ancestor_of(docs, docs[idx].uri, u)
}

/// The fallback when every ancestor sits in a cycle: an ancestor of `u`
/// that is not a build log.
pub open spec fn is_root_fallback(docs: Seq<DocumentView>, idx: int, u: Seq<char>) -> bool {
    0 <= idx < docs.len() && docs[idx].language != Language::BuildLog && is_ancestor_of(
        docs,
        docs[idx].uri,
        u,
    )
}

impl Workspace {
    /// True when some document of this store includes `v`.
    fn has_incoming_exec(&self, v: &Uri) -> (r: bool)
        ensures
            r == has_incoming(self@.documents, v@),
    {
        let ghost dv = self@.documents;
        let n = self.documents.len();
        let mut j: usize = 0;
        while j < n
            invariant
                j <= n,
                n == dv.len(),
                dv == self@.documents,
                forall|j2: int, k2: int|
                    0 <= j2 < j && 0 <= k2 < dv[j2].links.len() ==> resolve_spec(
                        dv,
                        dv[j2].uri,
                        dv[j2].links[k2],
                    ) != Some(v@),
            decreases n - j,
        {
            let nlinks = self.documents[j].links.len();
            let mut k: usize = 0;
            while k < nlinks
                invariant
                    j < n,
                    k <= nlinks,
                    n == dv.len(),
                    dv == self@.documents,
                    nlinks == dv[j as int].links.len(),
                    forall|j2: int, k2: int|
                        0 <= j2 < j && 0 <= k2 < dv[j2].links.len() ==> resolve_spec(
                            dv,
                            dv[j2].uri,
                            dv[j2].links[k2],
                        ) != Some(v@),
                    forall|k2: int|
                        0 <= k2 < k ==> resolve_spec(dv, dv[j as int].uri, dv[j as int].links[k2])
                            != Some(v@),
                decreases nlinks - k,
            {
                let doc = &self.documents[j];
                proof {
                    assert(doc.uri@ == dv[j as int].uri);
                    assert(doc.links@[k as int]@ == dv[j as int].links[k as int]);
                }
                match self.resolve_link(&doc.uri, &doc.links[k]) {
                    Some(t) => {
                        if crate::uri::chars_eq(&self.documents[t].uri.text, &v.text) {
                            proof {
                                assert(resolve_spec(dv, dv[j as int].uri, dv[j as int].links[k as int])
                                    == Some(v@));
                            }
                            return true;
                        }
                    },
                    None => {},
                }
                k = k + 1;
            }
            j = j + 1;
        }
        proof {
            if has_incoming(dv, v@) {
                let (j2, k2) = choose|j2: int, k2: int|
                    0 <= j2 < dv.len() && 0 <= k2 < dv[j2].links.len() && resolve_spec(
                        dv,
                        dv[j2].uri,
                        dv[j2].links[k2],
                    ) == Some(v@);
                assert(false);
            }
        }
        false
    }

    /// Marks exactly the ancestors of `uri` (and `uri` itself): a fixpoint
    /// over reversed inclusion edges, sound and complete.
    fn mark_ancestors(&self, uri: &Uri) -> (marked: Vec<bool>)
        requires
            ws_wf(self@),
            has_doc(self@.documents, uri@),
        ensures
            marked@.len() == self@.documents.len(),
            forall|i: int|
                0 <= i < marked@.len() ==> ((#[trigger] marked@[i]) <==> is_ancestor_of(
                    self@.documents,
                    self@.documents[i].uri,
                    uri@,
                )),
    {
        let ghost dv = self@.documents;
        let n = self.documents.len();
        let start = match find_doc_index(&self.documents, &uri.text) {
            Some(i) => i,
            None => {
                proof {
                    assert(false);
                }
                return Vec::new();
            },
        };
        proof {
            lemma_find_doc_bounds(dv, uri@, 0);
            lemma_ancestor_refl(dv, uri@);
        }

        let mut marked: Vec<bool> = Vec::new();
        let mut z: usize = 0;
        while z < n
            invariant
                z <= n,
                marked@.len() == z,
                forall|m: int| 0 <= m < z ==> !marked@[m],
            decreases n - z,
        {
            marked.push(false);
            z = z + 1;
        }
        marked.set(start, true);

        // Grow toward a fixpoint: a full pass without change means the
        // marking is closed against incoming edges.
        let mut changed: bool = true;
        while changed
            invariant
                ws_wf(self@),
                dv == self@.documents,
                n == dv.len(),
                marked@.len() == n,
                start < n,
                marked@[start as int],
                start as int == doc_index(dv, uri@),
                dv[start as int].uri == uri@,
                forall|m: int|
                    0 <= m < n && #[trigger] marked@[m] ==> is_ancestor_of(dv, dv[m].uri, uri@),
                !changed ==> forall|i: int, k: int|
                    0 <= i < n && 0 <= k < dv[i].links.len() && resolve_spec(
                        dv,
                        dv[i].uri,
                        dv[i].links[k],
                    ) is Some && marked@[doc_index(
                        dv,
                        resolve_spec(dv, dv[i].uri, dv[i].links[k]).unwrap(),
                    )] ==> marked@[i],
            decreases n - count_true(marked@) + (if changed {
                1int
            } else {
                0int
            }),
        {
            proof {
                lemma_count_true_bounds(marked@);
            }
            changed = false;
            let ghost inc0 = marked@;
            let mut i: usize = 0;
            while i < n
                invariant
                    ws_wf(self@),
                    dv == self@.documents,
                    n == dv.len(),
                    marked@.len() == n,
                    start < n,
                    marked@[start as int],
                    dv[start as int].uri == uri@,
                    i <= n,
                    !changed ==> marked@ == inc0,
                    changed ==> count_true(marked@) >= count_true(inc0) + 1,
                    forall|y: int| 0 <= y < n && inc0[y] ==> marked@[y],
                    forall|m: int|
                        0 <= m < n && #[trigger] marked@[m] ==> is_ancestor_of(dv, dv[m].uri, uri@),
                    !changed ==> forall|idx: int, m: int|
                        0 <= idx < i && 0 <= m < dv[idx].links.len() && resolve_spec(
                            dv,
                            dv[idx].uri,
                            dv[idx].links[m],
                        ) is Some && marked@[doc_index(
                            dv,
                            resolve_spec(dv, dv[idx].uri, dv[idx].links[m]).unwrap(),
                        )] ==> marked@[idx],
                decreases n - i,
            {
                let nlinks = self.documents[i].links.len();
                let mut kk: usize = 0;
                while kk < nlinks
                    invariant
                        ws_wf(self@),
                        dv == self@.documents,
                        n == dv.len(),
                        marked@.len() == n,
                        start < n,
                        marked@[start as int],
                        dv[start as int].uri == uri@,
                        i < n,
                        kk <= nlinks,
                        nlinks == dv[i as int].links.len(),
                        !changed ==> marked@ == inc0,
                        changed ==> count_true(marked@) >= count_true(inc0) + 1,
                        forall|y: int| 0 <= y < n && inc0[y] ==> marked@[y],
                        forall|m: int|
                            0 <= m < n && #[trigger] marked@[m] ==> is_ancestor_of(
                                dv,
                                dv[m].uri,
                                uri@,
                            ),
                        !changed ==> forall|idx: int, m: int|
                            0 <= idx < i && 0 <= m < dv[idx].links.len() && resolve_spec(
                                dv,
                                dv[idx].uri,
                                dv[idx].links[m],
                            ) is Some && marked@[doc_index(
                                dv,
                                resolve_spec(dv, dv[idx].uri, dv[idx].links[m]).unwrap(),
                            )] ==> marked@[idx],
                        !changed ==> forall|m: int|
                            0 <= m < kk && resolve_spec(
                                dv,
                                dv[i as int].uri,
                                dv[i as int].links[m],
                            ) is Some && marked@[doc_index(
                                dv,
                                resolve_spec(dv, dv[i as int].uri, dv[i as int].links[m]).unwrap(),
                            )] ==> marked@[i as int],
                    decreases nlinks - kk,
                {
                    let doc = &self.documents[i];
                    proof {
                        assert(dv[i as int] == self.documents@[i as int]@);
                        assert(doc.uri@ == dv[i as int].uri);
                        assert(doc.links@[kk as int]@ == dv[i as int].links[kk as int]);
                    }
                    match self.resolve_link(&doc.uri, &doc.links[kk]) {
                        Some(j) => {
                            proof {
                                assert(resolve_spec(
                                    dv,
                                    dv[i as int].uri,
                                    dv[i as int].links[kk as int],
                                ) == Some(dv[j as int].uri));
                                assert(j as int == doc_index(dv, dv[j as int].uri));
                            }
                            if marked[j] && !marked[i] {
                                let ghost incb = marked@;
                                marked.set(i, true);
                                proof {
                                    lemma_count_true_update(incb, i as int);
                                    lemma_doc_index_of_member(dv, i as int);
                                    assert(edge(dv, dv[i as int].uri, dv[j as int].uri));
                                    lemma_ancestor_step(
                                        dv,
                                        dv[i as int].uri,
                                        dv[j as int].uri,
                                        uri@,
                                    );
                                }
                                changed = true;
                            }
                        },
                        None => {
                            proof {
                                assert(resolve_spec(
                                    dv,
                                    dv[i as int].uri,
                                    dv[i as int].links[kk as int],
                                ) is None);
                            }
                        },
                    }
                    kk = kk + 1;
                }
                i = i + 1;
            }
            proof {
                lemma_count_true_bounds(marked@);
            }
        }

        proof {
            assert forall|i: int|
                0 <= i < marked@.len() implies ((#[trigger] marked@[i]) <==> is_ancestor_of(
                dv,
                dv[i].uri,
                uri@,
            )) by {
                if is_ancestor_of(dv, dv[i].uri, uri@) {
                    let fuel = choose|fuel: nat| reaches(dv, dv[i].uri, uri@, fuel);
                    lemma_doc_index_of_member(dv, i);
                    lemma_marked_complete(dv, marked@, uri@, dv[i].uri, fuel);
                }
            }
        }
        marked
    }

    /// Picks the project root of `uri` within this slice: the
    /// lexicographically least ancestor of `uri` that is not a build log
    /// and that no document includes. When every such ancestor sits in a
    /// cycle, the least non-log ancestor serves instead; and when neither
    /// exists, `uri` itself is the root.
    pub fn pick_root(&self, uri: &Uri) -> (r: Uri)
        requires
            ws_wf(self@),
            has_doc(self@.documents, uri@),
        ensures
            is_ancestor_of(self@.documents, r@, uri@),
            (exists|idx: int| is_root_candidate(self@.documents, idx, uri@)) ==> (exists|idx: int|
                is_root_candidate(self@.documents, idx, uri@) && self@.documents[idx].uri == r@)
                && (forall|idx: int|
                is_root_candidate(self@.documents, idx, uri@) ==> lex_le(
                    r@,
                    self@.documents[idx].uri,
                )),
            !(exists|idx: int| is_root_candidate(self@.documents, idx, uri@)) ==> (if (exists|
                idx: int,
            |
                is_root_fallback(self@.documents, idx, uri@)) {
                (exists|idx: int|
                    is_root_fallback(self@.documents, idx, uri@) && self@.documents[idx].uri
                        == r@) && (forall|idx: int|
                    is_root_fallback(self@.documents, idx, uri@) ==> lex_le(
                        r@,
                        self@.documents[idx].uri,
                    ))
            } else {
                r@ == uri@
            }),
            has_doc(self@.documents, r@) || r@ == uri@,
    {
        let ghost dv = self@.documents;
        let n = self.documents.len();
        let marked = self.mark_ancestors(uri);

        let mut best: Option<usize> = None;
        let mut i: usize = 0;
        while i < n
            invariant
                i <= n,
                n == dv.len(),
                dv == self@.documents,
                ws_wf(self@),
                marked@.len() == n,
                forall|x: int|
                    0 <= x < n ==> ((#[trigger] marked@[x]) <==> is_ancestor_of(
                        dv,
                        dv[x].uri,
                        uri@,
                    )),
                match best {
                    Some(b) => b < n && is_root_candidate(dv, b as int, uri@) && forall|idx: int|
                        0 <= idx < i && is_root_candidate(dv, idx, uri@) ==> lex_le(
                            dv[b as int].uri,
                            dv[idx].uri,
                        ),
                    None => forall|idx: int| 0 <= idx < i ==> !is_root_candidate(dv, idx, uri@),
                },
            decreases n - i,
        {
            let doc = &self.documents[i];
            let is_log = matches!(doc.language, Language::BuildLog);
            proof {
                assert(doc.language == dv[i as int].language);
                assert(doc.uri@ == dv[i as int].uri);
            }
            if marked[i] && !is_log && !self.has_incoming_exec(&doc.uri) {
                assert(is_root_candidate(dv, i as int, uri@));
                match &best {
                    Some(b) => {
                        let bi = *b;
                        if !lex_le_exec(&self.documents[bi].uri.text, &self.documents[i].uri.text) {
                            proof {
                                lemma_lex_le_total(dv[bi as int].uri, dv[i as int].uri, 0);
                                assert forall|idx: int|
                                    0 <= idx < i + 1 && is_root_candidate(dv, idx, uri@)
                                    implies lex_le(dv[i as int].uri, dv[idx].uri) by {
                                    if idx < i {
                                        lemma_lex_le_trans(
                                            dv[i as int].uri,
                                            dv[bi as int].uri,
                                            dv[idx].uri,
                                            0,
                                        );
                                    } else {
                                        lemma_lex_le_refl(dv[i as int].uri, 0);
                                    }
                                }
                            }
                            best = Some(i);
                        } else {
                            proof {
                                lemma_lex_le_refl(dv[bi as int].uri, 0);
                            }
                        }
                    },
                    None => {
                        proof {
                            lemma_lex_le_refl(dv[i as int].uri, 0);
                        }
                        best = Some(i);
                    },
                }
            }
            i = i + 1;
        }
        match best {
            Some(b) => {
                proof {
                    assert(is_root_candidate(dv, b as int, uri@));
                    lemma_doc_index_of_member(dv, b as int);
                }
                return self.documents[b].uri.duplicate();
            },
            None => {},
        }

        let mut best2: Option<usize> = None;
        let mut i2: usize = 0;
        while i2 < n
            invariant
                i2 <= n,
                n == dv.len(),
                dv == self@.documents,
                ws_wf(self@),
                marked@.len() == n,
                forall|x: int|
                    0 <= x < n ==> ((#[trigger] marked@[x]) <==> is_ancestor_of(
                        dv,
                        dv[x].uri,
                        uri@,
                    )),
                match best2 {
                    Some(b) => b < n && is_root_fallback(dv, b as int, uri@) && forall|idx: int|
                        0 <= idx < i2 && is_root_fallback(dv, idx, uri@) ==> lex_le(
                            dv[b as int].uri,
                            dv[idx].uri,
                        ),
                    None => forall|idx: int| 0 <= idx < i2 ==> !is_root_fallback(dv, idx, uri@),
                },
            decreases n - i2,
        {
            let doc = &self.documents[i2];
            proof {
                assert(doc.language == dv[i2 as int].language);
                assert(doc.uri@ == dv[i2 as int].uri);
            }
            if marked[i2] && !matches!(doc.language, Language::BuildLog) {
                assert(is_root_fallback(dv, i2 as int, uri@));
                match &best2 {
                    Some(b) => {
                        let bi = *b;
                        if !lex_le_exec(&self.documents[bi].uri.text, &self.documents[i2].uri.text)
                        {
                            proof {
                                lemma_lex_le_total(dv[bi as int].uri, dv[i2 as int].uri, 0);
                                assert forall|idx: int|
                                    0 <= idx < i2 + 1 && is_root_fallback(dv, idx, uri@)
                                    implies lex_le(dv[i2 as int].uri, dv[idx].uri) by {
                                    if idx < i2 {
                                        lemma_lex_le_trans(
                                            dv[i2 as int].uri,
                                            dv[bi as int].uri,
                                            dv[idx].uri,
                                            0,
                                        );
                                    } else {
                                        lemma_lex_le_refl(dv[i2 as int].uri, 0);
                                    }
                                }
                            }
                            best2 = Some(i2);
                        } else {
                            proof {
                                lemma_lex_le_refl(dv[bi as int].uri, 0);
                            }
                        }
                    },
                    None => {
                        proof {
                            lemma_lex_le_refl(dv[i2 as int].uri, 0);
                        }
                        best2 = Some(i2);
                    },
                }
            }
            i2 = i2 + 1;
        }
        match best2 {
            Some(b) => {
                proof {
                    lemma_doc_index_of_member(dv, b as int);
                }
                self.documents[b].uri.duplicate()
            },
            None => {
                proof {
                    lemma_ancestor_refl(dv, uri@);
                }
                uri.duplicate()
            },
        }
    }
}

/// Carries the fixpoint's closure facts over to the assembled slice.
proof fn lemma_slice_post(
    dv: Seq<DocumentView>,
    included: Seq<bool>,
    out: Seq<DocumentView>,
    start: int,
    u: Seq<char>,
)
    requires
        unique_uris(dv),
        included.len() == dv.len(),
        0 <= start < dv.len(),
        included[start],
        dv[start].uri == u,
        forall|x: int| 0 <= x < out.len() ==> from_marked(dv, included, dv.len() as int, #[trigger] out[x]),
        forall|y: int| 0 <= y < dv.len() && included[y] ==> out.contains(#[trigger] dv[y]),
        unique_uris(out),
        closure_prop(dv, included),
    ensures
        has_doc(out, u),
        forall|i: int|
            0 <= i < out.len() ==> has_doc(dv, #[trigger] out[i].uri) && out[i] == get_doc(
                dv,
                out[i].uri,
            ),
        forall|i: int, v: Seq<char>|
            0 <= i < out.len() && #[trigger] edge(dv, out[i].uri, v) ==> has_doc(out, v),
        forall|i: int, w: Seq<char>|
            0 <= i < out.len() && #[trigger] edge(dv, w, out[i].uri) ==> has_doc(out, w),
{
    // The target document stands in the slice.
    assert(out.contains(dv[start]));
    let x0 = choose|x: int| 0 <= x < out.len() && out[x] == dv[start];
    lemma_doc_index_of_member(out, x0);

    assert forall|i: int| 0 <= i < out.len() implies has_doc(dv, #[trigger] out[i].uri) && out[i]
        == get_doc(dv, out[i].uri) by {
        assert(from_marked(dv, included, dv.len() as int, out[i]));
        let y = choose|y: int|
            0 <= y < dv.len() && included[y] && out[i] == dv[y];
        lemma_doc_index_of_member(dv, y);
    }

    assert forall|i: int, v: Seq<char>|
        0 <= i < out.len() && #[trigger] edge(dv, out[i].uri, v) implies has_doc(out, v) by {
        assert(from_marked(dv, included, dv.len() as int, out[i]));
        let y = choose|y: int|
            0 <= y < dv.len() && included[y] && out[i] == dv[y];
        lemma_doc_index_of_member(dv, y);
        let kk = choose|kk: int|
            0 <= kk < get_doc(dv, out[i].uri).links.len() && resolve_spec(
                dv,
                out[i].uri,
                get_doc(dv, out[i].uri).links[kk],
            ) == Some(v);
        assert(resolve_spec(dv, dv[y].uri, dv[y].links[kk]) == Some(v));
        let tgt = doc_index(dv, v);
        lemma_find_doc_bounds(dv, v, 0);
        assert(included[tgt]);
        assert(out.contains(dv[tgt]));
        let x = choose|x: int| 0 <= x < out.len() && out[x] == dv[tgt];
        lemma_doc_index_of_member(out, x);
    }

    assert forall|i: int, w: Seq<char>|
        0 <= i < out.len() && #[trigger] edge(dv, w, out[i].uri) implies has_doc(out, w) by {
        assert(from_marked(dv, included, dv.len() as int, out[i]));
        let y = choose|y: int|
            0 <= y < dv.len() && included[y] && out[i] == dv[y];
        lemma_doc_index_of_member(dv, y);
        let jw = doc_index(dv, w);
        lemma_find_doc_bounds(dv, w, 0);
        let kk = choose|kk: int|
            0 <= kk < get_doc(dv, w).links.len() && resolve_spec(
                dv,
                w,
                get_doc(dv, w).links[kk],
            ) == Some(out[i].uri);
        assert(resolve_spec(dv, dv[jw].uri, dv[jw].links[kk]) == Some(dv[y].uri));
        assert(doc_index(dv, dv[y].uri) == y);
        assert(included[jw]);
        assert(out.contains(dv[jw]));
        let x = choose|x: int| 0 <= x < out.len() && out[x] == dv[jw];
        lemma_doc_index_of_member(out, x);
    }
}

} // verus!
