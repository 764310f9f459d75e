//! The diagnostic manager: three partitioned buffers per document.
//!
//! Each document has a syntax buffer, a linter buffer, and a build-log
//! buffer. Writing a buffer replaces its contents entirely; a publication
//! is the three buffers merged, in that order. Syntactic diagnostics come
//! from the brace structure of the text; build-log diagnostics from the
//! compiler log's error lines.

use vstd::prelude::*;
use crate::document::{DocumentView, Language};
use crate::text::line_end_from;
use crate::uri::Uri;
use crate::workspace::{get_doc, has_doc, Workspace};

verus! {

/// What a diagnostic reports.
#[derive(PartialEq, Eq, Structural, Clone, Copy, Debug)]
pub enum DiagnosticKind {
    /// A `}` with no group open.
    UnmatchedCloseBrace,
    /// A `{` still open at the end of the document.
    UnclosedGroup,
    /// A finding of the external linter.
    Linter,
    /// An error line of the compiler's log.
    BuildError,
}

/// One diagnostic: the zero-based line it points at, what it reports, and
/// its free text.
pub struct Diagnostic {
    pub line: u64,
    pub kind: DiagnosticKind,
    pub text: Vec<char>,
}

/// The spec-level image of a diagnostic.
#[verifier::ext_equal]
pub ghost struct DiagnosticView {
    pub line: u64,
    pub kind: DiagnosticKind,
    pub text: Seq<char>,
}

impl View for Diagnostic {
    type V = DiagnosticView;

    open spec fn view(&self) -> DiagnosticView {
        DiagnosticView { line: self.line, kind: self.kind, text: self.text@ }
    }
}

impl Diagnostic {
    pub fn duplicate(&self) -> (r: Diagnostic)
        ensures
            r@ == self@,
    {
        Diagnostic { line: self.line, kind: self.kind, text: self.text.clone() }
    }
}

/// The number of line breaks before position `i`.
pub open spec fn newlines_before(s: Seq<char>, i: int) -> int
    decreases i when 0 <= i <= s.len()
{
    if i <= 0 {
        0
    } else {
        newlines_before(s, i - 1) + (if s[i - 1] == '\n' {
            1int
        } else {
            0int
        })
    }
}

pub proof fn lemma_newlines_before_bounds(s: Seq<char>, i: int)
    requires
        0 <= i <= s.len(),
    ensures
        0 <= newlines_before(s, i) <= i,
    decreases i,
{
    if i > 0 {
        lemma_newlines_before_bounds(s, i - 1);
    }
}

/// The syntactic diagnostics of a text, scanned from `i` with `depth` groups
/// open: every `}` that closes nothing is reported on its line, and a group
/// still open at the end is reported on the last line.
pub open spec fn syntax_from(s: Seq<char>, i: int, depth: int) -> Seq<DiagnosticView>
    decreases s.len() - i when 0 <= i <= s.len()
{
    if i >= s.len() {
        if depth > 0 {
            seq![
                DiagnosticView {
                    line: newlines_before(s, s.len() as int) as u64,
                    kind: DiagnosticKind::UnclosedGroup,
                    text: Seq::empty(),
                },
            ]
        } else {
            Seq::empty()
        }
    } else if s[i] == '{' {
        syntax_from(s, i + 1, depth + 1)
    } else if s[i] == '}' {
        if depth == 0 {
            seq![
                DiagnosticView {
                    line: newlines_before(s, i) as u64,
                    kind: DiagnosticKind::UnmatchedCloseBrace,
                    text: Seq::empty(),
                },
            ] + syntax_from(s, i + 1, 0)
        } else {
            syntax_from(s, i + 1, depth - 1)
        }
    } else {
        syntax_from(s, i + 1, depth)
    }
}

/// The syntactic diagnostics a document derives: only source documents are
/// checked.
pub open spec fn doc_syntax_spec(d: DocumentView) -> Seq<DiagnosticView> {
    if d.language == Language::Latex || d.language == Language::Bibtex {
        syntax_from(d.text, 0, 0)
    } else {
        Seq::empty()
    }
}

/// Recomputes the syntactic diagnostics of a text.
pub fn compute_syntax_diagnostics(text: &Vec<char>) -> (r: Vec<Diagnostic>)
    ensures
        r@.map_values(|d: Diagnostic| d@) == syntax_from(text@, 0, 0),
{
    let ghost s = text@;
    let mut out: Vec<Diagnostic> = Vec::new();
    let mut i: usize = 0;
    let mut depth: usize = 0;
    let mut line: u64 = 0;
    while i < text.len()
        invariant
            i <= s.len(),
            depth <= i,
            s == text@,
            line == newlines_before(s, i as int),
            syntax_from(s, 0, 0) == out@.map_values(|d: Diagnostic| d@) + syntax_from(
                s,
                i as int,
                depth as int,
            ),
        decreases s.len() - i,
    {
        proof {
            lemma_newlines_before_bounds(s, i as int);
        }
        let c = text[i];
        if c == '{' {
            depth = depth + 1;
        } else if c == '}' {
            if depth == 0 {
                let ghost out0 = out@.map_values(|d: Diagnostic| d@);
                out.push(
                    Diagnostic { line, kind: DiagnosticKind::UnmatchedCloseBrace, text: Vec::new() },
                );
                proof {
                    assert(out@.map_values(|d: Diagnostic| d@) =~= out0.push(
                        DiagnosticView {
                            line: newlines_before(s, i as int) as u64,
                            kind: DiagnosticKind::UnmatchedCloseBrace,
                            text: Seq::empty(),
                        },
                    ));
                    assert(out@.map_values(|d: Diagnostic| d@) + syntax_from(s, i + 1, 0)
                        =~= out0 + syntax_from(s, i as int, 0));
                }
            } else {
                depth = depth - 1;
            }
        } else if c == '\n' {
            line = line + 1;
        }
        i = i + 1;
    }
    if depth > 0 {
        let ghost out0 = out@.map_values(|d: Diagnostic| d@);
        out.push(Diagnostic { line, kind: DiagnosticKind::UnclosedGroup, text: Vec::new() });
        proof {
            assert(out@.map_values(|d: Diagnostic| d@) =~= out0.push(
                DiagnosticView {
                    line: newlines_before(s, s.len() as int) as u64,
                    kind: DiagnosticKind::UnclosedGroup,
                    text: Seq::empty(),
                },
            ));
            assert(out@.map_values(|d: Diagnostic| d@) =~= out0 + syntax_from(
                s,
                i as int,
                depth as int,
            ));
        }
    } else {
        proof {
            assert(syntax_from(s, i as int, 0) =~= Seq::<DiagnosticView>::empty());
            assert(out@.map_values(|d: Diagnostic| d@) =~= out@.map_values(|d: Diagnostic| d@)
                + syntax_from(s, i as int, 0));
        }
    }
    out
}

/// The diagnostics a build log yields: each line beginning `! ` reports an
/// error, its text the rest of that line. The log does not name source
/// lines here, so every report points at line 0 of the root document.
pub open spec fn log_diags_from(s: Seq<char>, i: int) -> Seq<DiagnosticView>
    decreases s.len() - i when 0 <= i <= s.len() via log_diags_from_decreases
{
    if i >= s.len() {
        Seq::empty()
    } else {
        let e = line_end_from(s, i);
        let here: Seq<DiagnosticView> = if i + 2 <= e && s[i] == '!' && s[i + 1] == ' ' {
            seq![
                DiagnosticView {
                    line: 0,
                    kind: DiagnosticKind::BuildError,
                    text: s.subrange(i + 2, e),
                },
            ]
        } else {
            Seq::empty()
        };
        if e >= s.len() {
            here
        } else {
            here + log_diags_from(s, e + 1)
        }
    }
}

#[via_fn]
proof fn log_diags_from_decreases(s: Seq<char>, i: int) {
    if 0 <= i <= s.len() {
        crate::text::lemma_line_end_from_bounds(s, i);
    }
}

/// Parses a build log into its error diagnostics.
pub fn parse_build_log(log: &Vec<char>) -> (r: Vec<Diagnostic>)
    ensures
        r@.map_values(|d: Diagnostic| d@) == log_diags_from(log@, 0),
{
    let ghost s = log@;
    let mut out: Vec<Diagnostic> = Vec::new();
    let mut i: usize = 0;
    while i < log.len()
        invariant
            i <= s.len(),
            s == log@,
            log_diags_from(s, 0) == out@.map_values(|d: Diagnostic| d@) + log_diags_from(
                s,
                i as int,
            ),
        decreases s.len() - i,
    {
        let e = crate::text::find_line_end(log, i);
        if e - i >= 2 && log[i] == '!' && log[i + 1] == ' ' {
            let text = crate::document::copy_range(log, i + 2, e);
            let ghost out0 = out@.map_values(|d: Diagnostic| d@);
            out.push(Diagnostic { line: 0, kind: DiagnosticKind::BuildError, text });
            proof {
                assert(out@.map_values(|d: Diagnostic| d@) =~= out0.push(
                    DiagnosticView {
                        line: 0,
                        kind: DiagnosticKind::BuildError,
                        text: s.subrange(i + 2, e as int),
                    },
                ));
            }
        }
        proof {
            if e < s.len() {
                assert(log_diags_from(s, i as int) =~= (if i + 2 <= e && s[i as int] == '!'
                    && s[i as int + 1] == ' ' {
                    seq![
                        DiagnosticView {
                            line: 0,
                            kind: DiagnosticKind::BuildError,
                            text: s.subrange(i + 2, e as int),
                        },
                    ]
                } else {
                    Seq::empty()
                }) + log_diags_from(s, e + 1));
            }
        }
        if e >= log.len() {
            proof {
                assert(log_diags_from(s, 0) =~= out@.map_values(|d: Diagnostic| d@));
            }
            return out;
        }
        i = e + 1;
    }
    proof {
        assert(log_diags_from(s, i as int) =~= Seq::<DiagnosticView>::empty());
        assert(log_diags_from(s, 0) =~= out@.map_values(|d: Diagnostic| d@));
    }
    out
}

/// The findings the external linter's output yields: one finding per
/// non-empty output line, carrying that line's text. The tool reports
/// positions inside its text; this model keeps them there and points every
/// finding at line 0.
pub open spec fn linter_diags_from(s: Seq<char>, i: int) -> Seq<DiagnosticView>
    decreases s.len() - i when 0 <= i <= s.len() via linter_diags_from_decreases
{
    if i >= s.len() {
        Seq::empty()
    } else {
        let e = line_end_from(s, i);
        let here: Seq<DiagnosticView> = if i < e {
            seq![
                DiagnosticView { line: 0, kind: DiagnosticKind::Linter, text: s.subrange(i, e) },
            ]
        } else {
            Seq::empty()
        };
        if e >= s.len() {
            here
        } else {
            here + linter_diags_from(s, e + 1)
        }
    }
}

#[via_fn]
proof fn linter_diags_from_decreases(s: Seq<char>, i: int) {
    if 0 <= i <= s.len() {
        crate::text::lemma_line_end_from_bounds(s, i);
    }
}

/// Parses the external linter's output into its findings.
pub fn parse_linter_output(out: &Vec<char>) -> (r: Vec<Diagnostic>)
    ensures
        r@.map_values(|d: Diagnostic| d@) == linter_diags_from(out@, 0),
{
    let ghost s = out@;
    let mut res: Vec<Diagnostic> = Vec::new();
    let mut i: usize = 0;
    while i < out.len()
        invariant
            i <= s.len(),
            s == out@,
            linter_diags_from(s, 0) == res@.map_values(|d: Diagnostic| d@) + linter_diags_from(
                s,
                i as int,
            ),
        decreases s.len() - i,
    {
        let e = crate::text::find_line_end(out, i);
        if i < e {
            let text = crate::document::copy_range(out, i, e);
            let ghost res0 = res@.map_values(|d: Diagnostic| d@);
            res.push(Diagnostic { line: 0, kind: DiagnosticKind::Linter, text });
            proof {
                assert(res@.map_values(|d: Diagnostic| d@) =~= res0.push(
                    DiagnosticView {
                        line: 0,
                        kind: DiagnosticKind::Linter,
                        text: s.subrange(i as int, e as int),
                    },
                ));
            }
        }
        proof {
            if e < s.len() {
                assert(linter_diags_from(s, i as int) =~= (if i < e {
                    seq![
                        DiagnosticView {
                            line: 0,
                            kind: DiagnosticKind::Linter,
                            text: s.subrange(i as int, e as int),
                        },
                    ]
                } else {
                    Seq::empty()
                }) + linter_diags_from(s, e + 1));
            }
        }
        if e >= out.len() {
            proof {
                assert(linter_diags_from(s, 0) =~= res@.map_values(|d: Diagnostic| d@));
            }
            return res;
        }
        i = e + 1;
    }
    proof {
        assert(linter_diags_from(s, i as int) =~= Seq::<DiagnosticView>::empty());
        assert(linter_diags_from(s, 0) =~= res@.map_values(|d: Diagnostic| d@));
    }
    res
}

/// The three buffers of one document.
pub struct DiagnosticBuffers {
    pub uri: Uri,
    pub syntax: Vec<Diagnostic>,
    pub linter: Vec<Diagnostic>,
    pub build: Vec<Diagnostic>,
}

/// The spec-level image of one document's buffers.
#[verifier::ext_equal]
pub ghost struct DiagnosticBuffersView {
    pub uri: Seq<char>,
    pub syntax: Seq<DiagnosticView>,
    pub linter: Seq<DiagnosticView>,
    pub build: Seq<DiagnosticView>,
}

impl View for DiagnosticBuffers {
    type V = DiagnosticBuffersView;

    open spec fn view(&self) -> DiagnosticBuffersView {
        DiagnosticBuffersView {
            uri: self.uri@,
            syntax: self.syntax@.map_values(|d: Diagnostic| d@),
            linter: self.linter@.map_values(|d: Diagnostic| d@),
            build: self.build@.map_values(|d: Diagnostic| d@),
        }
    }
}

/// First index whose buffers carry URI `u`, or the end.
pub open spec fn find_buf(bs: Seq<DiagnosticBuffersView>, u: Seq<char>, i: int) -> int
    decreases bs.len() - i when 0 <= i <= bs.len()
{
    if i >= bs.len() {
        bs.len() as int
    } else if bs[i].uri == u {
        i
    } else {
        find_buf(bs, u, i + 1)
    }
}

pub proof fn lemma_find_buf_bounds(bs: Seq<DiagnosticBuffersView>, u: Seq<char>, i: int)
    requires
        0 <= i <= bs.len(),
    ensures
        i <= find_buf(bs, u, i) <= bs.len(),
        forall|j: int| i <= j < find_buf(bs, u, i) ==> bs[j].uri != u,
        find_buf(bs, u, i) < bs.len() ==> bs[find_buf(bs, u, i)].uri == u,
    decreases bs.len() - i,
{
    if i < bs.len() && bs[i].uri != u {
        lemma_find_buf_bounds(bs, u, i + 1);
    }
}

pub proof fn lemma_find_buf_unique(bs: Seq<DiagnosticBuffersView>, u: Seq<char>, i: int, k: int)
    requires
        0 <= i <= k <= bs.len(),
        forall|j: int| i <= j < k ==> bs[j].uri != u,
        k < bs.len() ==> bs[k].uri == u,
    ensures
        find_buf(bs, u, i) == k,
    decreases k - i,
{
    if i < k {
        lemma_find_buf_unique(bs, u, i + 1, k);
    }
}

/// The syntax buffer published for `u`.
pub open spec fn syntax_of(bs: Seq<DiagnosticBuffersView>, u: Seq<char>) -> Seq<DiagnosticView> {
    if find_buf(bs, u, 0) < bs.len() {
        bs[find_buf(bs, u, 0)].syntax
    } else {
        Seq::empty()
    }
}

/// The linter buffer published for `u`.
pub open spec fn linter_of(bs: Seq<DiagnosticBuffersView>, u: Seq<char>) -> Seq<DiagnosticView> {
    if find_buf(bs, u, 0) < bs.len() {
        bs[find_buf(bs, u, 0)].linter
    } else {
        Seq::empty()
    }
}

/// The build-log buffer published for `u`.
pub open spec fn build_of(bs: Seq<DiagnosticBuffersView>, u: Seq<char>) -> Seq<DiagnosticView> {
    if find_buf(bs, u, 0) < bs.len() {
        bs[find_buf(bs, u, 0)].build
    } else {
        Seq::empty()
    }
}

/// The publishable set for `u`: syntax, then linter, then build findings.
pub open spec fn publish_spec(bs: Seq<DiagnosticBuffersView>, u: Seq<char>) -> Seq<DiagnosticView> {
    syntax_of(bs, u) + linter_of(bs, u) + build_of(bs, u)
}

/// One buffer entry per document.
pub open spec fn unique_bufs(bs: Seq<DiagnosticBuffersView>) -> bool {
    forall|i: int, j: int|
        0 <= i < bs.len() && 0 <= j < bs.len() && i != j ==> bs[i].uri != bs[j].uri
}

/// Which of the three buffers an operation replaces.
#[derive(PartialEq, Eq, Structural, Clone, Copy)]
pub enum BufferSlot {
    Syntax,
    Linter,
    Build,
}

/// One buffer of one document replaced wholesale; the other buffers and the
/// other documents are untouched.
pub open spec fn set_buffer_spec(
    bs: Seq<DiagnosticBuffersView>,
    u: Seq<char>,
    slot: BufferSlot,
    ds: Seq<DiagnosticView>,
) -> Seq<DiagnosticBuffersView> {
    let i = find_buf(bs, u, 0);
    let base = if i < bs.len() {
        bs[i]
    } else {
        DiagnosticBuffersView {
            uri: u,
            syntax: Seq::empty(),
            linter: Seq::empty(),
            build: Seq::empty(),
        }
    };
    let updated = match slot {
        BufferSlot::Syntax => DiagnosticBuffersView { syntax: ds, ..base },
        BufferSlot::Linter => DiagnosticBuffersView { linter: ds, ..base },
        BufferSlot::Build => DiagnosticBuffersView { build: ds, ..base },
    };
    if i < bs.len() {
        bs.update(i, updated)
    } else {
        bs.push(updated)
    }
}

/// The diagnostic manager.
pub struct DiagnosticManager {
    pub buffers: Vec<DiagnosticBuffers>,
}

impl View for DiagnosticManager {
    type V = Seq<DiagnosticBuffersView>;

    open spec fn view(&self) -> Seq<DiagnosticBuffersView> {
        self.buffers@.map_values(|b: DiagnosticBuffers| b@)
    }
}

fn dup_diags(v: &Vec<Diagnostic>) -> (r: Vec<Diagnostic>)
    ensures
        r@.map_values(|d: Diagnostic| d@) == v@.map_values(|d: Diagnostic| d@),
{
    let mut out: Vec<Diagnostic> = Vec::new();
    let mut i: usize = 0;
    while i < v.len()
        invariant
            i <= v@.len(),
            out@.len() == i,
            forall|j: int| 0 <= j < i ==> out@[j]@ == #[trigger] v@[j]@,
        decreases v.len() - i,
    {
        out.push(v[i].duplicate());
        i = i + 1;
    }
    proof {
        assert(out@.map_values(|d: Diagnostic| d@) =~= v@.map_values(|d: Diagnostic| d@));
    }
    out
}

impl DiagnosticManager {
    /// A manager with no buffers.
    pub fn new() -> (m: DiagnosticManager)
        ensures
            m@.len() == 0,
            unique_bufs(m@),
    {
        let m = DiagnosticManager { buffers: Vec::new() };
        proof {
            assert(m@ =~= Seq::<DiagnosticBuffersView>::empty());
        }
        m
    }

    /// Replaces one buffer of one document.
    fn set_buffer(&mut self, uri: &Uri, slot: BufferSlot, ds: Vec<Diagnostic>)
        requires
            unique_bufs(old(self)@),
        ensures
            unique_bufs(final(self)@),
            final(self)@ == set_buffer_spec(
                old(self)@,
                uri@,
                slot,
                ds@.map_values(|d: Diagnostic| d@),
            ),
    {
        let ghost bv0 = self@;
        let ghost dsv = ds@.map_values(|d: Diagnostic| d@);
        proof {
            lemma_find_buf_bounds(bv0, uri@, 0);
        }
        let n = self.buffers.len();
        let mut i: usize = 0;
        while i < n
            invariant
                i <= n,
                n == bv0.len(),
                bv0 == self@,
                unique_bufs(self@),
                self@ == old(self)@,
                dsv == ds@.map_values(|d: Diagnostic| d@),
                forall|j: int| 0 <= j < i ==> bv0[j].uri != uri@,
            decreases n - i,
        {
            if crate::uri::chars_eq(&self.buffers[i].uri.text, &uri.text) {
                proof {
                    lemma_find_buf_unique(bv0, uri@, 0, i as int);
                }
                let old_entry = &self.buffers[i];
                let entry = match slot {
                    BufferSlot::Syntax => DiagnosticBuffers {
                        uri: uri.duplicate(),
                        syntax: dup_diags(&ds),
                        linter: dup_diags(&old_entry.linter),
                        build: dup_diags(&old_entry.build),
                    },
                    BufferSlot::Linter => DiagnosticBuffers {
                        uri: uri.duplicate(),
                        syntax: dup_diags(&old_entry.syntax),
                        linter: dup_diags(&ds),
                        build: dup_diags(&old_entry.build),
                    },
                    BufferSlot::Build => DiagnosticBuffers {
                        uri: uri.duplicate(),
                        syntax: dup_diags(&old_entry.syntax),
                        linter: dup_diags(&old_entry.linter),
                        build: dup_diags(&ds),
                    },
                };
                proof {
                    assert(entry@.uri == uri@);
                    assert((old_entry)@ == bv0[i as int]);
                    match slot {
                        BufferSlot::Syntax => {
                            assert(entry@.syntax =~= dsv);
                            assert(entry@.linter == bv0[i as int].linter);
                            assert(entry@.build == bv0[i as int].build);
                        },
                        BufferSlot::Linter => {
                            assert(entry@.linter =~= dsv);
                            assert(entry@.syntax == bv0[i as int].syntax);
                            assert(entry@.build == bv0[i as int].build);
                        },
                        BufferSlot::Build => {
                            assert(entry@.build =~= dsv);
                            assert(entry@.syntax == bv0[i as int].syntax);
                            assert(entry@.linter == bv0[i as int].linter);
                        },
                    }
                }
                self.buffers.set(i, entry);
                proof {
                    let target = set_buffer_spec(bv0, uri@, slot, dsv);
                    assert(self@.len() == target.len());
                    assert(self@[i as int] =~~= target[i as int]);
                    assert forall|j: int|
                        0 <= j < self@.len() && j != i as int implies self@[j] =~~= target[j] by {
                        assert(self@[j] == bv0[j]);
                        assert(target[j] == bv0[j]);
                    }
                    assert(self@ =~~= target);
                    let bv1 = self@;
                    assert forall|a: int, b: int|
                        0 <= a < bv1.len() && 0 <= b < bv1.len() && a != b implies bv1[a].uri
                        != bv1[b].uri by {
                        assert(bv1[a].uri == bv0[a].uri);
                        assert(bv1[b].uri == bv0[b].uri);
                    }
                }
                return ;
            }
            i = i + 1;
        }
        proof {
            lemma_find_buf_unique(bv0, uri@, 0, bv0.len() as int);
        }
        let entry = match slot {
            BufferSlot::Syntax => DiagnosticBuffers {
                uri: uri.duplicate(),
                syntax: dup_diags(&ds),
                linter: Vec::new(),
                build: Vec::new(),
            },
            BufferSlot::Linter => DiagnosticBuffers {
                uri: uri.duplicate(),
                syntax: Vec::new(),
                linter: dup_diags(&ds),
                build: Vec::new(),
            },
            BufferSlot::Build => DiagnosticBuffers {
                uri: uri.duplicate(),
                syntax: Vec::new(),
                linter: Vec::new(),
                build: dup_diags(&ds),
            },
        };
        self.buffers.push(entry);
        proof {
            assert(self@ =~~= set_buffer_spec(bv0, uri@, slot, dsv));
            let bv1 = self@;
            assert forall|a: int, b: int|
                0 <= a < bv1.len() && 0 <= b < bv1.len() && a != b implies bv1[a].uri
                != bv1[b].uri by {
                if a < bv0.len() && b < bv0.len() {
                    assert(bv1[a].uri == bv0[a].uri);
                    assert(bv1[b].uri == bv0[b].uri);
                } else {
                    lemma_find_buf_bounds(bv0, uri@, 0);
                }
            }
        }
    }

    /// Recomputes the syntactic diagnostics of `uri` from its current text
    /// in the workspace; a URI without a document clears the buffer.
    pub fn push_syntax(&mut self, ws: &Workspace, uri: &Uri)
        requires
            unique_bufs(old(self)@),
        ensures
            unique_bufs(final(self)@),
            final(self)@ == set_buffer_spec(
                old(self)@,
                uri@,
                BufferSlot::Syntax,
                if has_doc(ws@.documents, uri@) {
                    doc_syntax_spec(get_doc(ws@.documents, uri@))
                } else {
                    Seq::empty()
                },
            ),
    {
        let ds: Vec<Diagnostic> = match ws.get(uri) {
            Some(doc) => {
                if matches!(doc.language, Language::Latex) || matches!(
                    doc.language,
                    Language::Bibtex,
                ) {
                    compute_syntax_diagnostics(&doc.text)
                } else {
                    Vec::new()
                }
            },
            None => Vec::new(),
        };
        proof {
            assert(ds@.map_values(|d: Diagnostic| d@) =~= (if has_doc(ws@.documents, uri@) {
                doc_syntax_spec(get_doc(ws@.documents, uri@))
            } else {
                Seq::<DiagnosticView>::empty()
            }));
        }
        self.set_buffer(uri, BufferSlot::Syntax, ds);
    }

    /// Replaces the linter buffer of `uri` with the external linter's
    /// findings.
    pub fn set_linter(&mut self, uri: &Uri, ds: Vec<Diagnostic>)
        requires
            unique_bufs(old(self)@),
        ensures
            unique_bufs(final(self)@),
            final(self)@ == set_buffer_spec(
                old(self)@,
                uri@,
                BufferSlot::Linter,
                ds@.map_values(|d: Diagnostic| d@),
            ),
    {
        self.set_buffer(uri, BufferSlot::Linter, ds);
    }

    /// Parses a build log and replaces the root document's build buffer
    /// with its error lines.
    pub fn absorb_build_log(&mut self, uri: &Uri, log: &Vec<char>)
        requires
            unique_bufs(old(self)@),
        ensures
            unique_bufs(final(self)@),
            final(self)@ == set_buffer_spec(
                old(self)@,
                uri@,
                BufferSlot::Build,
                log_diags_from(log@, 0),
            ),
    {
        let ds = parse_build_log(log);
        self.set_buffer(uri, BufferSlot::Build, ds);
    }

    /// The merged publishable diagnostics of one document: its syntax,
    /// linter, and build findings, in that order.
    pub fn publish(&self, uri: &Uri) -> (r: Vec<Diagnostic>)
        ensures
            r@.map_values(|d: Diagnostic| d@) == publish_spec(self@, uri@),
    {
        let ghost bv = self@;
        let n = self.buffers.len();
        let mut i: usize = 0;
        while i < n
            invariant
                i <= n,
                n == bv.len(),
                bv == self@,
                forall|j: int| 0 <= j < i ==> bv[j].uri != uri@,
            decreases n - i,
        {
            if crate::uri::chars_eq(&self.buffers[i].uri.text, &uri.text) {
                proof {
                    lemma_find_buf_unique(bv, uri@, 0, i as int);
                }
                let entry = &self.buffers[i];
                let mut out = dup_diags(&entry.syntax);
                let more = dup_diags(&entry.linter);
                let ghost o1 = out@.map_values(|d: Diagnostic| d@);
                let mut k: usize = 0;
                while k < more.len()
                    invariant
                        k <= more@.len(),
                        out@.map_values(|d: Diagnostic| d@) =~= o1 + more@.map_values(
                            |d: Diagnostic| d@,
                        ).subrange(0, k as int),
                    decreases more.len() - k,
                {
                    let ghost opre = out@.map_values(|d: Diagnostic| d@);
                    out.push(more[k].duplicate());
                    proof {
                        assert(out@.map_values(|d: Diagnostic| d@) =~= opre.push(
                            more@[k as int]@,
                        ));
                        assert(opre.push(more@[k as int]@) =~= o1 + more@.map_values(
                            |d: Diagnostic| d@,
                        ).subrange(0, k + 1));
                    }
                    k = k + 1;
                }
                let more2 = dup_diags(&entry.build);
                let ghost o2 = out@.map_values(|d: Diagnostic| d@);
                let mut k2: usize = 0;
                while k2 < more2.len()
                    invariant
                        k2 <= more2@.len(),
                        out@.map_values(|d: Diagnostic| d@) =~= o2 + more2@.map_values(
                            |d: Diagnostic| d@,
                        ).subrange(0, k2 as int),
                    decreases more2.len() - k2,
                {
                    let ghost opre = out@.map_values(|d: Diagnostic| d@);
                    out.push(more2[k2].duplicate());
                    proof {
                        assert(out@.map_values(|d: Diagnostic| d@) =~= opre.push(
                            more2@[k2 as int]@,
                        ));
                        assert(opre.push(more2@[k2 as int]@) =~= o2 + more2@.map_values(
                            |d: Diagnostic| d@,
                        ).subrange(0, k2 + 1));
                    }
                    k2 = k2 + 1;
                }
                proof {
                    assert(more@.map_values(|d: Diagnostic| d@).subrange(
                        0,
                        more@.len() as int,
                    ) =~= more@.map_values(|d: Diagnostic| d@));
                    assert(more2@.map_values(|d: Diagnostic| d@).subrange(
                        0,
                        more2@.len() as int,
                    ) =~= more2@.map_values(|d: Diagnostic| d@));
                    assert(out@.map_values(|d: Diagnostic| d@) =~= publish_spec(bv, uri@));
                }
                return out;
            }
            i = i + 1;
        }
        proof {
            lemma_find_buf_unique(bv, uri@, 0, bv.len() as int);
            assert(publish_spec(bv, uri@) =~= Seq::<DiagnosticView>::empty());
        }
        let r: Vec<Diagnostic> = Vec::new();
        proof {
            assert(r@.map_values(|d: Diagnostic| d@) =~= publish_spec(bv, uri@));
        }
        r
    }
}

/// One entry of a publication round: a document and its merged diagnostics.
pub struct Publication {
    pub uri: Uri,
    pub diagnostics: Vec<Diagnostic>,
}

/// The spec-level image of one publication.
#[verifier::ext_equal]
pub ghost struct PublicationView {
    pub uri: Seq<char>,
    pub diagnostics: Seq<DiagnosticView>,
}

impl View for Publication {
    type V = PublicationView;

    open spec fn view(&self) -> PublicationView {
        PublicationView {
            uri: self.uri@,
            diagnostics: self.diagnostics@.map_values(|d: Diagnostic| d@),
        }
    }
}

/// The publication round a workspace snapshot deserves: one entry per
/// document that is not a build log, in store order, each carrying its
/// merged diagnostics.
pub open spec fn publish_all_spec(
    bs: Seq<DiagnosticBuffersView>,
    docs: Seq<DocumentView>,
) -> Seq<PublicationView>
    decreases docs.len(),
{
    if docs.len() == 0 {
        Seq::empty()
    } else {
        let rest = publish_all_spec(bs, docs.drop_first());
        if docs[0].language == Language::BuildLog {
            rest
        } else {
            seq![PublicationView { uri: docs[0].uri, diagnostics: publish_spec(bs, docs[0].uri) }]
                + rest
        }
    }
}

/// Every document that is not a build log gets its publication in the
/// round: after a debounce window fires, each such document is published
/// exactly once, with its merged buffers.
pub proof fn lemma_publication_per_document(
    bs: Seq<DiagnosticBuffersView>,
    docs: Seq<DocumentView>,
    i: int,
)
    requires
        0 <= i < docs.len(),
        docs[i].language != Language::BuildLog,
    ensures
        exists|k: int|
            0 <= k < publish_all_spec(bs, docs).len() && (#[trigger] publish_all_spec(
                bs,
                docs,
            )[k]).uri == docs[i].uri && publish_all_spec(bs, docs)[k].diagnostics == publish_spec(
                bs,
                docs[i].uri,
            ),
    decreases docs.len(),
{
    let all = publish_all_spec(bs, docs);
    let rest = publish_all_spec(bs, docs.drop_first());
    if i == 0 {
        assert(all[0].uri == docs[0].uri);
        assert(all[0].diagnostics == publish_spec(bs, docs[0].uri));
    } else {
        assert(docs.drop_first()[i - 1] == docs[i]);
        lemma_publication_per_document(bs, docs.drop_first(), i - 1);
        let k = choose|k: int|
            0 <= k < rest.len() && (#[trigger] rest[k]).uri == docs.drop_first()[i - 1].uri
                && rest[k].diagnostics == publish_spec(bs, docs.drop_first()[i - 1].uri);
        if docs[0].language == Language::BuildLog {
            assert(all[k] == rest[k]);
        } else {
            assert(all[k + 1] == rest[k]);
        }
    }
}

/// Collects the publication round for every document of the workspace that
/// is not a build log.
pub fn publish_all(manager: &DiagnosticManager, ws: &Workspace) -> (r: Vec<Publication>)
    ensures
        r@.map_values(|p: Publication| p@) == publish_all_spec(manager@, ws@.documents),
{
    let ghost bv = manager@;
    let ghost dv = ws@.documents;
    let n = ws.documents.len();
    let mut out: Vec<Publication> = Vec::new();
    let mut i: usize = n;
    proof {
        assert(dv.subrange(n as int, n as int) =~= Seq::<DocumentView>::empty());
    }
    while i > 0
        invariant
            i <= n,
            n == dv.len(),
            bv == manager@,
            dv == ws@.documents,
            out@.map_values(|p: Publication| p@) == publish_all_spec(
                bv,
                dv.subrange(i as int, n as int),
            ),
        decreases i,
    {
        i = i - 1;
        let doc = &ws.documents[i];
        proof {
            assert(doc@ == dv[i as int]);
            assert(dv.subrange(i as int, n as int).drop_first() =~= dv.subrange(
                i + 1,
                n as int,
            ));
            assert(dv.subrange(i as int, n as int)[0] == dv[i as int]);
        }
        if !matches!(doc.language, Language::BuildLog) {
            let diagnostics = manager.publish(&doc.uri);
            let ghost out0 = out@.map_values(|p: Publication| p@);
            let mut next: Vec<Publication> = Vec::new();
            next.push(Publication { uri: doc.uri.duplicate(), diagnostics });
            let mut k: usize = 0;
            let total = out.len();
            while k < total
                invariant
                    k <= total,
                    total == out@.len(),
                    out@.map_values(|p: Publication| p@) == out0,
                    next@.map_values(|p: Publication| p@) =~= seq![
                        PublicationView {
                            uri: dv[i as int].uri,
                            diagnostics: publish_spec(bv, dv[i as int].uri),
                        },
                    ] + out0.subrange(0, k as int),
                decreases total - k,
            {
                let ghost npre = next@.map_values(|p: Publication| p@);
                let entry = &out[k];
                next.push(
                    Publication {
                        uri: entry.uri.duplicate(),
                        diagnostics: dup_diags(&entry.diagnostics),
                    },
                );
                proof {
                    assert(next@.map_values(|p: Publication| p@) =~= npre.push(out0[k as int]));
                    assert(npre.push(out0[k as int]) =~= seq![
                        PublicationView {
                            uri: dv[i as int].uri,
                            diagnostics: publish_spec(bv, dv[i as int].uri),
                        },
                    ] + out0.subrange(0, k + 1));
                }
                k = k + 1;
            }
            proof {
                assert(out0.subrange(0, out0.len() as int) =~= out0);
            }
            out = next;
        }
    }
    proof {
        assert(dv.subrange(0, n as int) =~= dv);
    }
    out
}

} // verus!
