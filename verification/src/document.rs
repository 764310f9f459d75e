//! Documents: language tags, reference extraction, and the document record.
//!
//! A document carries its URI, its full text, a language tag, and the list
//! of raw references its text makes: inclusion targets (`\input`, `\include`,
//! `\import`, `\bibliography`, `\addbibresource`) and component references
//! (`\usepackage`, `\documentclass`). The references are derived from the
//! text alone, by the scanner specified here.

use vstd::prelude::*;
use crate::uri::Uri;
use crate::text::ranges_eq;

verus! {

/// The language tag of a document.
#[derive(PartialEq, Eq, Structural, Clone, Copy, Debug)]
pub enum Language {
    Latex,
    Bibtex,
    BuildLog,
    Auxiliary,
}

/// What a reference found in a document's text points at.
#[derive(PartialEq, Eq, Structural, Clone, Copy, Debug)]
pub enum LinkKind {
    /// An included source file: `\input`, `\include`, `\import`.
    Input,
    /// A bibliography file: `\bibliography`, `\addbibresource`.
    Bibliography,
    /// A package: `\usepackage`.
    Package,
    /// A class: `\documentclass`.
    Class,
}

/// One raw reference: the target written between the braces, and its kind.
pub struct LinkRef {
    pub path: Vec<char>,
    pub kind: LinkKind,
}

/// The spec-level image of a reference.
pub ghost struct LinkRefView {
    pub path: Seq<char>,
    pub kind: LinkKind,
}

impl View for LinkRef {
    type V = LinkRefView;

    open spec fn view(&self) -> LinkRefView {
        LinkRefView { path: self.path@, kind: self.kind }
    }
}

impl LinkRef {
    pub fn duplicate(&self) -> (r: LinkRef)
        ensures
            r@ == self@,
    {
        LinkRef { path: self.path.clone(), kind: self.kind }
    }
}

pub open spec fn kw_input() -> Seq<char> {
    seq!['\\', 'i', 'n', 'p', 'u', 't', '{']
}

pub open spec fn kw_include() -> Seq<char> {
    seq!['\\', 'i', 'n', 'c', 'l', 'u', 'd', 'e', '{']
}

pub open spec fn kw_import() -> Seq<char> {
    seq!['\\', 'i', 'm', 'p', 'o', 'r', 't', '{']
}

pub open spec fn kw_bibliography() -> Seq<char> {
    seq!['\\', 'b', 'i', 'b', 'l', 'i', 'o', 'g', 'r', 'a', 'p', 'h', 'y', '{']
}

pub open spec fn kw_addbibresource() -> Seq<char> {
    seq!['\\', 'a', 'd', 'd', 'b', 'i', 'b', 'r', 'e', 's', 'o', 'u', 'r', 'c', 'e', '{']
}

pub open spec fn kw_usepackage() -> Seq<char> {
    seq!['\\', 'u', 's', 'e', 'p', 'a', 'c', 'k', 'a', 'g', 'e', '{']
}

pub open spec fn kw_documentclass() -> Seq<char> {
    seq!['\\', 'd', 'o', 'c', 'u', 'm', 'e', 'n', 't', 'c', 'l', 'a', 's', 's', '{']
}

/// True when the characters of `kw` stand in `s` at position `i`.
pub open spec fn matches_at(s: Seq<char>, i: int, kw: Seq<char>) -> bool {
    0 <= i && i + kw.len() <= s.len() && s.subrange(i, i + kw.len()) == kw
}

/// Index of the first `}` at or after `from`, or the end of the text.
pub open spec fn brace_close_from(s: Seq<char>, from: int) -> int
    decreases s.len() - from when 0 <= from <= s.len()
{
    if from >= s.len() {
        s.len() as int
    } else if s[from] == '}' {
        from
    } else {
        brace_close_from(s, from + 1)
    }
}

pub proof fn lemma_brace_close_from_bounds(s: Seq<char>, from: int)
    requires
        0 <= from <= s.len(),
    ensures
        from <= brace_close_from(s, from) <= s.len(),
    decreases s.len() - from,
{
    if from < s.len() && s[from] != '}' {
        lemma_brace_close_from_bounds(s, from + 1);
    }
}

/// The references of `s` from position `i` on: at each position, the first
/// matching command keyword opens a reference, whose target runs to the next
/// `}`; a command whose group never closes yields nothing.
pub open spec fn links_from(s: Seq<char>, i: int) -> Seq<LinkRefView>
    decreases s.len() - i, 1nat when 0 <= i <= s.len() via links_from_decreases
{
    if i >= s.len() {
        Seq::empty()
    } else if matches_at(s, i, kw_input()) {
        link_step(s, i + kw_input().len(), LinkKind::Input)
    } else if matches_at(s, i, kw_include()) {
        link_step(s, i + kw_include().len(), LinkKind::Input)
    } else if matches_at(s, i, kw_import()) {
        link_step(s, i + kw_import().len(), LinkKind::Input)
    } else if matches_at(s, i, kw_bibliography()) {
        link_step(s, i + kw_bibliography().len(), LinkKind::Bibliography)
    } else if matches_at(s, i, kw_addbibresource()) {
        link_step(s, i + kw_addbibresource().len(), LinkKind::Bibliography)
    } else if matches_at(s, i, kw_usepackage()) {
        link_step(s, i + kw_usepackage().len(), LinkKind::Package)
    } else if matches_at(s, i, kw_documentclass()) {
        link_step(s, i + kw_documentclass().len(), LinkKind::Class)
    } else {
        links_from(s, i + 1)
    }
}

/// The reference whose target starts at `p` (just after the opening brace),
/// followed by the references of the rest of the text.
pub open spec fn link_step(s: Seq<char>, p: int, kind: LinkKind) -> Seq<LinkRefView>
    decreases s.len() - p + 1, 0nat when 0 < p <= s.len() via link_step_decreases
{
    let close = brace_close_from(s, p);
    if close < s.len() {
        seq![LinkRefView { path: s.subrange(p, close), kind }] + links_from(s, close + 1)
    } else {
        Seq::empty()
    }
}

#[via_fn]
proof fn links_from_decreases(s: Seq<char>, i: int) {
}

#[via_fn]
proof fn link_step_decreases(s: Seq<char>, p: int, kind: LinkKind) {
    if 0 < p <= s.len() {
        lemma_brace_close_from_bounds(s, p);
    }
}

/// All references of a text.
pub open spec fn links_of(s: Seq<char>) -> Seq<LinkRefView> {
    links_from(s, 0)
}

/// True when `kw` stands at `i` in `text`.
fn matches_kw(text: &Vec<char>, i: usize, kw: &Vec<char>) -> (r: bool)
    requires
        i <= text@.len(),
    ensures
        r == matches_at(text@, i as int, kw@),
{
    if kw.len() > text.len() - i {
        return false;
    }
    let r = ranges_eq(text, i, i + kw.len(), kw, 0, kw.len());
    proof {
        assert(kw@.subrange(0, kw@.len() as int) =~= kw@);
    }
    r
}

fn kw_input_exec() -> (v: Vec<char>)
    ensures
        v@ == kw_input(),
{
    let v = vec!['\\', 'i', 'n', 'p', 'u', 't', '{'];
    assert(v@ =~= kw_input());
    v
}

fn kw_include_exec() -> (v: Vec<char>)
    ensures
        v@ == kw_include(),
{
    let v = vec!['\\', 'i', 'n', 'c', 'l', 'u', 'd', 'e', '{'];
    assert(v@ =~= kw_include());
    v
}

fn kw_import_exec() -> (v: Vec<char>)
    ensures
        v@ == kw_import(),
{
    let v = vec!['\\', 'i', 'm', 'p', 'o', 'r', 't', '{'];
    assert(v@ =~= kw_import());
    v
}

fn kw_bibliography_exec() -> (v: Vec<char>)
    ensures
        v@ == kw_bibliography(),
{
    let v = vec!['\\', 'b', 'i', 'b', 'l', 'i', 'o', 'g', 'r', 'a', 'p', 'h', 'y', '{'];
    assert(v@ =~= kw_bibliography());
    v
}

fn kw_addbibresource_exec() -> (v: Vec<char>)
    ensures
        v@ == kw_addbibresource(),
{
    let v = vec!['\\', 'a', 'd', 'd', 'b', 'i', 'b', 'r', 'e', 's', 'o', 'u', 'r', 'c', 'e', '{'];
    assert(v@ =~= kw_addbibresource());
    v
}

fn kw_usepackage_exec() -> (v: Vec<char>)
    ensures
        v@ == kw_usepackage(),
{
    let v = vec!['\\', 'u', 's', 'e', 'p', 'a', 'c', 'k', 'a', 'g', 'e', '{'];
    assert(v@ =~= kw_usepackage());
    v
}

fn kw_documentclass_exec() -> (v: Vec<char>)
    ensures
        v@ == kw_documentclass(),
{
    let v = vec!['\\', 'd', 'o', 'c', 'u', 'm', 'e', 'n', 't', 'c', 'l', 'a', 's', 's', '{'];
    assert(v@ =~= kw_documentclass());
    v
}

/// Copies `text[from..to]` into a fresh vector.
pub fn copy_range(text: &Vec<char>, from: usize, to: usize) -> (r: Vec<char>)
    requires
        from <= to <= text@.len(),
    ensures
        r@ == text@.subrange(from as int, to as int),
{
    let mut out: Vec<char> = Vec::new();
    let mut k: usize = from;
    while k < to
        invariant
            from <= k <= to <= text@.len(),
            out@.len() == k - from,
            forall|m: int| 0 <= m < k - from ==> out@[m] == text@[from + m],
        decreases to - k,
    {
        out.push(text[k]);
        k = k + 1;
    }
    assert(out@ =~= text@.subrange(from as int, to as int));
    out
}

/// Finds the first `}` at or after `from`.
pub fn find_brace_close(text: &Vec<char>, from: usize) -> (r: usize)
    requires
        from <= text@.len(),
    ensures
        r == brace_close_from(text@, from as int),
        from <= r <= text@.len(),
{
    let mut j: usize = from;
    while j < text.len() && text[j] != '}'
        invariant
            from <= j <= text@.len(),
            brace_close_from(text@, from as int) == brace_close_from(text@, j as int),
        decreases text.len() - j,
    {
        j = j + 1;
    }
    j
}

/// Scans a text and returns every reference it makes, in order.
pub fn extract_links(text: &Vec<char>) -> (links: Vec<LinkRef>)
    ensures
        links@.map_values(|l: LinkRef| l@) == links_of(text@),
{
    let ghost s = text@;
    let kws: [Vec<char>; 7] = [
        kw_input_exec(),
        kw_include_exec(),
        kw_import_exec(),
        kw_bibliography_exec(),
        kw_addbibresource_exec(),
        kw_usepackage_exec(),
        kw_documentclass_exec(),
    ];
    let mut out: Vec<LinkRef> = Vec::new();
    let mut i: usize = 0;
    while i < text.len()
        invariant
            i <= s.len(),
            s == text@,
            kws[0]@ == kw_input(),
            kws[1]@ == kw_include(),
            kws[2]@ == kw_import(),
            kws[3]@ == kw_bibliography(),
            kws[4]@ == kw_addbibresource(),
            kws[5]@ == kw_usepackage(),
            kws[6]@ == kw_documentclass(),
            links_of(s) == out@.map_values(|l: LinkRef| l@) + links_from(s, i as int),
        decreases s.len() - i,
    {
        let mut matched: bool = false;
        let mut klen: usize = 0;
        let mut kind: LinkKind = LinkKind::Input;
        if matches_kw(text, i, &kws[0]) {
            matched = true;
            klen = kws[0].len();
            kind = LinkKind::Input;
        } else if matches_kw(text, i, &kws[1]) {
            matched = true;
            klen = kws[1].len();
            kind = LinkKind::Input;
        } else if matches_kw(text, i, &kws[2]) {
            matched = true;
            klen = kws[2].len();
            kind = LinkKind::Input;
        } else if matches_kw(text, i, &kws[3]) {
            matched = true;
            klen = kws[3].len();
            kind = LinkKind::Bibliography;
        } else if matches_kw(text, i, &kws[4]) {
            matched = true;
            klen = kws[4].len();
            kind = LinkKind::Bibliography;
        } else if matches_kw(text, i, &kws[5]) {
            matched = true;
            klen = kws[5].len();
            kind = LinkKind::Package;
        } else if matches_kw(text, i, &kws[6]) {
            matched = true;
            klen = kws[6].len();
            kind = LinkKind::Class;
        }
        if matched {
            assert(links_from(s, i as int) == link_step(s, i + klen, kind));
            let close = find_brace_close(text, i + klen);
            if close < text.len() {
                let path = copy_range(text, i + klen, close);
                let ghost prev = out@.map_values(|l: LinkRef| l@);
                out.push(LinkRef { path, kind });
                proof {
                    assert(out@.map_values(|l: LinkRef| l@) =~= prev.push(
                        LinkRefView { path: s.subrange(i + klen, close as int), kind },
                    ));
                    assert(prev + link_step(s, i + klen, kind) =~= out@.map_values(
                        |l: LinkRef| l@,
                    ) + links_from(s, close + 1));
                }
                i = close + 1;
            } else {
                assert(link_step(s, i + klen, kind) =~= Seq::<LinkRefView>::empty());
                assert(out@.map_values(|l: LinkRef| l@) + link_step(s, i + klen, kind)
                    =~= out@.map_values(|l: LinkRef| l@));
                assert(links_of(s) == out@.map_values(|l: LinkRef| l@));
                return out;
            }
        } else {
            assert(links_from(s, i as int) == links_from(s, i + 1));
            i = i + 1;
        }
    }
    assert(links_from(s, i as int) =~= Seq::<LinkRefView>::empty());
    assert(links_of(s) =~= out@.map_values(|l: LinkRef| l@));
    out
}

/// The references a document of this language derives from this text: only
/// source documents are scanned.
pub open spec fn doc_links_spec(text: Seq<char>, language: Language) -> Seq<LinkRefView> {
    if language == Language::Latex {
        links_of(text)
    } else {
        Seq::empty()
    }
}

/// One immutable document snapshot.
pub struct Document {
    pub uri: Uri,
    pub text: Vec<char>,
    pub language: Language,
    pub links: Vec<LinkRef>,
}

/// The spec-level image of a document.
pub ghost struct DocumentView {
    pub uri: Seq<char>,
    pub text: Seq<char>,
    pub language: Language,
    pub links: Seq<LinkRefView>,
}

impl View for Document {
    type V = DocumentView;

    open spec fn view(&self) -> DocumentView {
        DocumentView {
            uri: self.uri@,
            text: self.text@,
            language: self.language,
            links: self.links@.map_values(|l: LinkRef| l@),
        }
    }
}

/// A document's references are exactly those its text derives.
pub open spec fn doc_wf(d: DocumentView) -> bool {
    d.links == doc_links_spec(d.text, d.language)
}

impl Document {
    /// Builds a document: the text is parsed and the reference list derived.
    pub fn new(uri: Uri, text: Vec<char>, language: Language) -> (d: Document)
        ensures
            d@.uri == uri@,
            d@.text == text@,
            d@.language == language,
            doc_wf(d@),
    {
        let links: Vec<LinkRef> = if matches!(language, Language::Latex) {
            extract_links(&text)
        } else {
            Vec::new()
        };
        proof {
            if language != Language::Latex {
                assert(links@.map_values(|l: LinkRef| l@) =~= Seq::<LinkRefView>::empty());
            }
        }
        Document { uri, text, language, links }
    }

    pub fn duplicate(&self) -> (d: Document)
        ensures
            d@ == self@,
    {
        let mut links: Vec<LinkRef> = Vec::new();
        let mut k: usize = 0;
        while k < self.links.len()
            invariant
                k <= self.links@.len(),
                links@.len() == k,
                forall|m: int| 0 <= m < k ==> links@[m]@ == self.links@[m]@,
            decreases self.links.len() - k,
        {
            links.push(self.links[k].duplicate());
            k = k + 1;
        }
        let d = Document {
            uri: self.uri.duplicate(),
            text: self.text.clone(),
            language: self.language,
            links,
        };
        assert(d@.links =~= self@.links);
        d
    }
}

/// The language a client-provided language id names.
pub open spec fn language_by_id_spec(id: Seq<char>) -> Option<Language> {
    if id == "latex"@ || id == "tex"@ {
        Some(Language::Latex)
    } else if id == "bibtex"@ || id == "bib"@ {
        Some(Language::Bibtex)
    } else {
        None
    }
}

/// The language a file extension implies; unknown extensions default to the
/// source language.
pub open spec fn language_by_extension_spec(ext: Seq<char>) -> Language {
    if ext == "log"@ || ext == "blg"@ {
        Language::BuildLog
    } else if ext == "bib"@ {
        Language::Bibtex
    } else if ext == "aux"@ || ext == "fls"@ || ext == "fdb_latexmk"@ {
        Language::Auxiliary
    } else {
        Language::Latex
    }
}

pub fn chars_eq_str(v: &Vec<char>, s: &str) -> (r: bool)
    ensures
        r == (v@ == s@),
{
    let n = s.unicode_len();
    if v.len() != n {
        assert(v@ != s@);
        return false;
    }
    let mut k: usize = 0;
    while k < n
        invariant
            k <= n,
            n == s@.len(),
            v@.len() == n,
            forall|m: int| 0 <= m < k ==> v@[m] == s@[m],
        decreases n - k,
    {
        if v[k] != s.get_char(k) {
            assert(v@ != s@);
            return false;
        }
        k = k + 1;
    }
    assert(v@ =~= s@);
    true
}

/// Maps a client-provided language id to a language tag.
pub fn language_by_id(id: &Vec<char>) -> (r: Option<Language>)
    ensures
        r == language_by_id_spec(id@),
{
    if chars_eq_str(id, "latex") || chars_eq_str(id, "tex") {
        Some(Language::Latex)
    } else if chars_eq_str(id, "bibtex") || chars_eq_str(id, "bib") {
        Some(Language::Bibtex)
    } else {
        None
    }
}

/// Maps a file extension to a language tag.
pub fn language_by_extension(ext: &Vec<char>) -> (r: Language)
    ensures
        r == language_by_extension_spec(ext@),
{
    if chars_eq_str(ext, "log") || chars_eq_str(ext, "blg") {
        Language::BuildLog
    } else if chars_eq_str(ext, "bib") {
        Language::Bibtex
    } else if chars_eq_str(ext, "aux") || chars_eq_str(ext, "fls") || chars_eq_str(
        ext,
        "fdb_latexmk",
    ) {
        Language::Auxiliary
    } else {
        Language::Latex
    }
}

/// The extension of a path or URI: the characters after the last `.` of its
/// last segment, empty when that segment has no dot.
pub open spec fn ext_from(s: Seq<char>, i: int) -> Seq<char>
    decreases i + 1 when -1 <= i < s.len()
{
    if i < 0 {
        Seq::empty()
    } else if s[i] == '.' {
        s.subrange(i + 1, s.len() as int)
    } else if s[i] == '/' {
        Seq::empty()
    } else {
        ext_from(s, i - 1)
    }
}

pub open spec fn ext_of(s: Seq<char>) -> Seq<char> {
    ext_from(s, s.len() - 1)
}

/// A nonempty extension always leaves room for the dot before it.
pub proof fn lemma_ext_len(s: Seq<char>, i: int)
    requires
        -1 <= i < s.len(),
    ensures
        ext_from(s, i).len() == 0 || ext_from(s, i).len() + 1 <= s.len(),
    decreases i + 1,
{
    if i >= 0 && s[i] != '.' && s[i] != '/' {
        lemma_ext_len(s, i - 1);
    }
}

/// Returns the extension of a path or URI.
pub fn extension_of(s: &Vec<char>) -> (r: Vec<char>)
    ensures
        r@ == ext_of(s@),
{
    let mut i: usize = s.len();
    while i > 0
        invariant
            i <= s@.len(),
            ext_of(s@) == ext_from(s@, i - 1),
        decreases i,
    {
        if s[i - 1] == '.' {
            return copy_range(s, i, s.len());
        } else if s[i - 1] == '/' {
            let r: Vec<char> = Vec::new();
            assert(r@ =~= ext_of(s@));
            return r;
        }
        i = i - 1;
    }
    let r: Vec<char> = Vec::new();
    assert(r@ =~= ext_of(s@));
    r
}

} // verus!
