//! Completion against the bundled component database.
//!
//! The database lists components (classes and packages): the commands and
//! environments each one offers, and under which file names it is linked.
//! A component is linked to a project when some document of the project
//! references one of its file names with `\usepackage` or `\documentclass`;
//! a component without file names is part of the kernel and always linked.

pub mod argument;
pub mod command;
pub mod component_environment;

use vstd::prelude::*;
use crate::document::{Language, LinkKind};
use crate::uri::Uri;
use crate::workspace::{concat_chars, get_doc, has_doc, Workspace};

verus! {

/// One argument a command parameter offers.
pub struct ComponentArg {
    pub name: Vec<char>,
}

pub ghost struct ComponentArgView {
    pub name: Seq<char>,
}

impl View for ComponentArg {
    type V = ComponentArgView;

    open spec fn view(&self) -> ComponentArgView {
        ComponentArgView { name: self.name@ }
    }
}

/// One parameter of a command: the arguments it accepts.
pub struct ComponentParameter {
    pub args: Vec<ComponentArg>,
}

pub ghost struct ComponentParameterView {
    pub args: Seq<ComponentArgView>,
}

impl View for ComponentParameter {
    type V = ComponentParameterView;

    open spec fn view(&self) -> ComponentParameterView {
        ComponentParameterView { args: self.args@.map_values(|a: ComponentArg| a@) }
    }
}

/// One command a component offers.
pub struct ComponentCommand {
    pub name: Vec<char>,
    pub parameters: Vec<ComponentParameter>,
}

pub ghost struct ComponentCommandView {
    pub name: Seq<char>,
    pub parameters: Seq<ComponentParameterView>,
}

impl View for ComponentCommand {
    type V = ComponentCommandView;

    open spec fn view(&self) -> ComponentCommandView {
        ComponentCommandView {
            name: self.name@,
            parameters: self.parameters@.map_values(|p: ComponentParameter| p@),
        }
    }
}

/// One component: its file names, commands and environments.
pub struct Component {
    pub file_names: Vec<Vec<char>>,
    pub commands: Vec<ComponentCommand>,
    pub environments: Vec<Vec<char>>,
}

pub ghost struct ComponentView {
    pub file_names: Seq<Seq<char>>,
    pub commands: Seq<ComponentCommandView>,
    pub environments: Seq<Seq<char>>,
}

impl View for Component {
    type V = ComponentView;

    open spec fn view(&self) -> ComponentView {
        ComponentView {
            file_names: self.file_names@.map_values(|f: Vec<char>| f@),
            commands: self.commands@.map_values(|c: ComponentCommand| c@),
            environments: self.environments@.map_values(|e: Vec<char>| e@),
        }
    }
}

/// One documentation entry of the database.
pub struct DocEntry {
    pub name: Vec<char>,
    pub text: Vec<char>,
}

pub ghost struct DocEntryView {
    pub name: Seq<char>,
    pub text: Seq<char>,
}

impl View for DocEntry {
    type V = DocEntryView;

    open spec fn view(&self) -> DocEntryView {
        DocEntryView { name: self.name@, text: self.text@ }
    }
}

/// The bundled component database: built once, then read-only.
pub struct ComponentDb {
    pub components: Vec<Component>,
    pub documentation: Vec<DocEntry>,
}

pub ghost struct ComponentDbView {
    pub components: Seq<ComponentView>,
    pub documentation: Seq<DocEntryView>,
}

impl View for ComponentDb {
    type V = ComponentDbView;

    open spec fn view(&self) -> ComponentDbView {
        ComponentDbView {
            components: self.components@.map_values(|c: Component| c@),
            documentation: self.documentation@.map_values(|d: DocEntry| d@),
        }
    }
}

/// True when some document of the project references this component: a
/// `\usepackage` target plus `.sty`, or a `\documentclass` target plus
/// `.cls`, is one of its file names.
pub open spec fn component_referenced(
    c: ComponentView,
    docs: Seq<crate::document::DocumentView>,
) -> bool {
    exists|i: int, k: int, f: int|
        0 <= i < docs.len() && 0 <= k < docs[i].links.len() && 0 <= f < c.file_names.len() && (
        (docs[i].links[k].kind == LinkKind::Package && c.file_names[f] == docs[i].links[k].path
            + ".sty"@) || (docs[i].links[k].kind == LinkKind::Class && c.file_names[f]
            == docs[i].links[k].path + ".cls"@))
}

/// True when the component takes part in completion for this project:
/// kernel components always do, others when a document references them.
pub open spec fn component_linked(
    c: ComponentView,
    docs: Seq<crate::document::DocumentView>,
) -> bool {
    c.file_names.len() == 0 || component_referenced(c, docs)
}

/// True when some document of the project references this component.
pub fn component_referenced_exec(c: &Component, ws: &Workspace) -> (r: bool)
    ensures
        r == component_referenced(c@, ws@.documents),
{
    let ghost dv = ws@.documents;
    let ghost cv = c@;
    let sty = crate::session::str_chars(".sty");
    let cls = crate::session::str_chars(".cls");
    proof {
        reveal_strlit(".sty");
        reveal_strlit(".cls");
    }
    let n = ws.documents.len();
    let mut i: usize = 0;
    while i < n
        invariant
            i <= n,
            n == dv.len(),
            dv == ws@.documents,
            cv == c@,
            sty@ == ".sty"@,
            cls@ == ".cls"@,
            forall|i2: int, k2: int, f2: int|
                0 <= i2 < i && 0 <= k2 < dv[i2].links.len() && 0 <= f2 < cv.file_names.len()
                    ==> !((dv[i2].links[k2].kind == LinkKind::Package && cv.file_names[f2]
                    == dv[i2].links[k2].path + ".sty"@) || (dv[i2].links[k2].kind
                    == LinkKind::Class && cv.file_names[f2] == dv[i2].links[k2].path + ".cls"@)),
        decreases n - i,
    {
        let doc = &ws.documents[i];
        let nlinks = doc.links.len();
        let mut k: usize = 0;
        while k < nlinks
            invariant
                i < n,
                k <= nlinks,
                n == dv.len(),
                dv == ws@.documents,
                cv == c@,
                sty@ == ".sty"@,
                cls@ == ".cls"@,
                doc == &ws.documents[i as int],
                nlinks == dv[i as int].links.len(),
                forall|i2: int, k2: int, f2: int|
                    0 <= i2 < i && 0 <= k2 < dv[i2].links.len() && 0 <= f2 < cv.file_names.len()
                        ==> !((dv[i2].links[k2].kind == LinkKind::Package && cv.file_names[f2]
                        == dv[i2].links[k2].path + ".sty"@) || (dv[i2].links[k2].kind
                        == LinkKind::Class && cv.file_names[f2] == dv[i2].links[k2].path
                        + ".cls"@)),
                forall|k2: int, f2: int|
                    0 <= k2 < k && 0 <= f2 < cv.file_names.len() ==> !((dv[i as int].links[k2].kind
                        == LinkKind::Package && cv.file_names[f2] == dv[i as int].links[k2].path
                        + ".sty"@) || (dv[i as int].links[k2].kind == LinkKind::Class
                        && cv.file_names[f2] == dv[i as int].links[k2].path + ".cls"@)),
            decreases nlinks - k,
        {
            let link = &doc.links[k];
            proof {
                assert(link@ == dv[i as int].links[k as int]);
            }
            let ext: Option<&Vec<char>> = match link.kind {
                LinkKind::Package => Some(&sty),
                LinkKind::Class => Some(&cls),
                _ => None,
            };
            match ext {
                Some(ext) => {
                    let cand = concat_chars(&link.path, ext);
                    let nf = c.file_names.len();
                    let mut f: usize = 0;
                    while f < nf
                        invariant
                            i < n,
                            k < nlinks,
                            f <= nf,
                            n == dv.len(),
                            dv == ws@.documents,
                            cv == c@,
                            nf == cv.file_names.len(),
                            nlinks == dv[i as int].links.len(),
                            cand@ == dv[i as int].links[k as int].path + (if dv[i as int].links[k as int].kind
                                == LinkKind::Package {
                                ".sty"@
                            } else {
                                ".cls"@
                            }),
                            dv[i as int].links[k as int].kind == LinkKind::Package || dv[i as int].links[k as int].kind
                                == LinkKind::Class,
                            forall|f2: int|
                                0 <= f2 < f ==> cv.file_names[f2] != cand@,
                        decreases nf - f,
                    {
                        if crate::uri::chars_eq(&c.file_names[f], &cand) {
                            proof {
                                assert(cv.file_names[f as int] == cand@);
                            }
                            return true;
                        }
                        f = f + 1;
                    }
                },
                None => {},
            }
            k = k + 1;
        }
        i = i + 1;
    }
    proof {
        if component_referenced(cv, dv) {
            let (i2, k2, f2) = choose|i2: int, k2: int, f2: int|
                0 <= i2 < dv.len() && 0 <= k2 < dv[i2].links.len() && 0 <= f2
                    < cv.file_names.len() && ((dv[i2].links[k2].kind == LinkKind::Package
                    && cv.file_names[f2] == dv[i2].links[k2].path + ".sty"@) || (
                dv[i2].links[k2].kind == LinkKind::Class && cv.file_names[f2]
                    == dv[i2].links[k2].path + ".cls"@));
            assert(false);
        }
    }
    false
}

/// What a completion item stands for.
#[derive(PartialEq, Eq, Structural, Clone, Copy, Debug)]
pub enum CompletionItemKind {
    Environment,
    Argument,
    CommandName,
}

/// One completion item: its label, what it is, and the character span it
/// replaces.
pub struct CompletionItem {
    pub label: Vec<char>,
    pub kind: CompletionItemKind,
    pub start: usize,
    pub end: usize,
}

pub ghost struct CompletionItemView {
    pub label: Seq<char>,
    pub kind: CompletionItemKind,
    pub start: int,
    pub end: int,
}

impl View for CompletionItem {
    type V = CompletionItemView;

    open spec fn view(&self) -> CompletionItemView {
        CompletionItemView {
            label: self.label@,
            kind: self.kind,
            start: self.start as int,
            end: self.end as int,
        }
    }
}

/// Collects completion items; handlers append to it.
pub struct CompletionBuilder {
    pub items: Vec<CompletionItem>,
}

impl CompletionBuilder {
    pub fn new() -> (b: CompletionBuilder)
        ensures
            b.items@.len() == 0,
    {
        CompletionBuilder { items: Vec::new() }
    }
}

/// The cursor's surroundings: the project slice, the text of the document
/// the caret stands in, and the caret's character offset.
pub struct CursorContext {
    pub project: Workspace,
    pub text: Vec<char>,
    pub offset: usize,
}

/// The database text registered for a label, if any: what the resolver
/// attaches to package and class items.
pub open spec fn documentation_of(
    docs: Seq<DocEntryView>,
    label: Seq<char>,
    i: int,
) -> Option<Seq<char>>
    decreases docs.len() - i when 0 <= i <= docs.len()
{
    if i >= docs.len() {
        None
    } else if docs[i].name == label {
        Some(docs[i].text)
    } else {
        documentation_of(docs, label, i + 1)
    }
}

impl ComponentDb {
    /// Looks a label's documentation up.
    pub fn find_documentation(&self, label: &Vec<char>) -> (r: Option<Vec<char>>)
        ensures
            match r {
                Some(t) => documentation_of(self@.documentation, label@, 0) == Some(t@),
                None => documentation_of(self@.documentation, label@, 0) is None,
            },
    {
        let ghost ds = self@.documentation;
        let n = self.documentation.len();
        let mut i: usize = 0;
        while i < n
            invariant
                i <= n,
                n == ds.len(),
                ds == self@.documentation,
                documentation_of(ds, label@, 0) == documentation_of(ds, label@, i as int),
            decreases n - i,
        {
            if crate::uri::chars_eq(&self.documentation[i].name, label) {
                return Some(self.documentation[i].text.clone());
            }
            i = i + 1;
        }
        None
    }
}

/// First position at or after `i` where `needle` stands in `s`, or the end.
pub open spec fn find_sub(s: Seq<char>, needle: Seq<char>, i: int) -> int
    decreases s.len() - i when 0 <= i <= s.len()
{
    if i >= s.len() {
        s.len() as int
    } else if crate::document::matches_at(s, i, needle) {
        i
    } else {
        find_sub(s, needle, i + 1)
    }
}

/// First `@` at or after `i`, or the end: where the next bibliography
/// entry begins.
pub open spec fn at_from(s: Seq<char>, i: int) -> int
    decreases s.len() - i when 0 <= i <= s.len()
{
    if i >= s.len() {
        s.len() as int
    } else if s[i] == '@' {
        i
    } else {
        at_from(s, i + 1)
    }
}

pub proof fn lemma_find_sub_bounds(s: Seq<char>, needle: Seq<char>, i: int)
    requires
        0 <= i <= s.len(),
    ensures
        i <= find_sub(s, needle, i) <= s.len(),
    decreases s.len() - i,
{
    if i < s.len() && !crate::document::matches_at(s, i, needle) {
        lemma_find_sub_bounds(s, needle, i + 1);
    }
}

pub proof fn lemma_at_from_bounds(s: Seq<char>, i: int)
    requires
        0 <= i <= s.len(),
    ensures
        i <= at_from(s, i) <= s.len(),
    decreases s.len() - i,
{
    if i < s.len() && s[i] != '@' {
        lemma_at_from_bounds(s, i + 1);
    }
}

/// The citation preview for a key: the bibliography text from the key's
/// first occurrence to the next entry, or nothing when the key does not
/// occur.
pub open spec fn citation_preview(s: Seq<char>, key: Seq<char>) -> Option<Seq<char>> {
    let hit = find_sub(s, key, 0);
    if hit < s.len() {
        Some(s.subrange(hit, at_from(s, hit + 1)))
    } else {
        None
    }
}

fn find_sub_exec(text: &Vec<char>, needle: &Vec<char>) -> (r: usize)
    ensures
        r == find_sub(text@, needle@, 0),
        r <= text@.len(),
{
    let mut i: usize = 0;
    while i < text.len()
        invariant
            i <= text@.len(),
            find_sub(text@, needle@, 0) == find_sub(text@, needle@, i as int),
        decreases text.len() - i,
    {
        if matches_kw_pub(text, i, needle) {
            return i;
        }
        i = i + 1;
    }
    i
}

/// True when `kw` stands at `i` in `text`.
pub fn matches_kw_pub(text: &Vec<char>, i: usize, kw: &Vec<char>) -> (r: bool)
    requires
        i <= text@.len(),
    ensures
        r == crate::document::matches_at(text@, i as int, kw@),
{
    if kw.len() > text.len() - i {
        return false;
    }
    let r = crate::text::ranges_eq(text, i, i + kw.len(), kw, 0, kw.len());
    proof {
        assert(kw@.subrange(0, kw@.len() as int) =~= kw@);
    }
    r
}

fn at_from_exec(text: &Vec<char>, from: usize) -> (r: usize)
    requires
        from <= text@.len(),
    ensures
        r == at_from(text@, from as int),
        from <= r <= text@.len(),
{
    let mut j: usize = from;
    while j < text.len() && text[j] != '@'
        invariant
            from <= j <= text@.len(),
            at_from(text@, from as int) == at_from(text@, j as int),
        decreases text.len() - j,
    {
        j = j + 1;
    }
    j
}

/// The data a completion item carries into its resolve request.
pub enum ResolveData {
    /// A package or class item: its documentation comes from the database.
    Package { label: Vec<char> },
    /// A citation item: its preview comes from the bibliography document.
    Citation { uri: Uri, key: Vec<char> },
    /// Anything else resolves to itself.
    Other,
}

/// Resolves a completion item's documentation: a package or class label is
/// looked up in the database; a citation key yields the text of its entry
/// in the named bibliography document; anything else yields nothing.
pub fn completion_resolve(db: &ComponentDb, ws: &Workspace, data: &ResolveData) -> (r: Option<
    Vec<char>,
>)
    ensures
        match data {
            ResolveData::Package { label } => match r {
                Some(t) => documentation_of(db@.documentation, label@, 0) == Some(t@),
                None => documentation_of(db@.documentation, label@, 0) is None,
            },
            ResolveData::Citation { uri, key } => {
                if has_doc(ws@.documents, uri@) && get_doc(ws@.documents, uri@).language
                    == Language::Bibtex {
                    match r {
                        Some(t) => citation_preview(get_doc(ws@.documents, uri@).text, key@)
                            == Some(t@),
                        None => citation_preview(get_doc(ws@.documents, uri@).text, key@) is None,
                    }
                } else {
                    r is None
                }
            },
            ResolveData::Other => r is None,
        },
{
    match data {
        ResolveData::Package { label } => db.find_documentation(label),
        ResolveData::Citation { uri, key } => {
            match ws.get(uri) {
                Some(doc) => {
                    if matches!(doc.language, Language::Bibtex) {
                        let hit = find_sub_exec(&doc.text, key);
                        if hit < doc.text.len() {
                            proof {
                                lemma_at_from_bounds(doc.text@, hit + 1);
                            }
                            let stop = at_from_exec(&doc.text, hit + 1);
                            Some(crate::document::copy_range(&doc.text, hit, stop))
                        } else {
                            None
                        }
                    } else {
                        None
                    }
                },
                None => None,
            }
        },
        ResolveData::Other => None,
    }
}

} // verus!
