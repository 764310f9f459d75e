use texlab_core::document::Language;
use texlab_core::uri::Uri;
use texlab_core::workspace::Workspace;

fn chars(s: &str) -> Vec<char> {
    s.chars().collect()
}

fn string_of(v: &[char]) -> String {
    v.iter().collect()
}

fn uri(s: &str) -> Uri {
    Uri::from_chars(chars(s))
}

#[test]
fn open_replaces_atomically() {
    let mut ws = Workspace::new();
    ws.open(uri("file:///tmp/a.tex"), chars("one"), Language::Latex);
    ws.open(uri("file:///tmp/a.tex"), chars("two"), Language::Latex);
    assert_eq!(ws.documents.len(), 1);
    let doc = ws.get(&uri("file:///tmp/a.tex")).unwrap();
    assert_eq!(string_of(&doc.text), "two");
}

#[test]
fn remove_erases_and_close_keeps_the_document() {
    let mut ws = Workspace::new();
    ws.open(uri("file:///tmp/a.tex"), chars("x"), Language::Latex);
    ws.insert_viewport(&uri("file:///tmp/a.tex"));
    ws.close(&uri("file:///tmp/a.tex"));
    assert!(ws.get(&uri("file:///tmp/a.tex")).is_some());
    assert_eq!(ws.viewport.len(), 0);
    ws.remove(&uri("file:///tmp/a.tex"));
    assert!(ws.get(&uri("file:///tmp/a.tex")).is_none());
}

#[test]
fn slice_contains_target_and_is_closed_under_inclusion() {
    let mut ws = Workspace::new();
    ws.open(
        uri("file:///tmp/main.tex"),
        chars("\\documentclass{article}\\input{chap1}\\begin{document}\\end{document}"),
        Language::Latex,
    );
    ws.open(uri("file:///tmp/chap1.tex"), chars("Hello"), Language::Latex);
    ws.open(uri("file:///tmp/other.tex"), chars("Unrelated"), Language::Latex);

    // The slice of the included file pulls in the including root as well.
    let slice = ws.slice(&uri("file:///tmp/chap1.tex"));
    let uris: Vec<String> = slice.documents.iter().map(|d| string_of(&d.uri.text)).collect();
    assert!(uris.contains(&"file:///tmp/chap1.tex".to_string()));
    assert!(uris.contains(&"file:///tmp/main.tex".to_string()));
    assert!(!uris.contains(&"file:///tmp/other.tex".to_string()));

    let root = slice.pick_root(&uri("file:///tmp/chap1.tex"));
    assert_eq!(string_of(&root.text), "file:///tmp/main.tex");
}

#[test]
fn slice_of_unknown_document_is_empty() {
    let ws = Workspace::new();
    let slice = ws.slice(&uri("file:///never-opened.tex"));
    assert_eq!(slice.documents.len(), 0);
}

#[test]
fn root_tie_breaks_by_uri_order() {
    let mut ws = Workspace::new();
    ws.open(uri("file:///tmp/b.tex"), chars("\\input{common}"), Language::Latex);
    ws.open(uri("file:///tmp/a.tex"), chars("\\input{common}"), Language::Latex);
    ws.open(uri("file:///tmp/common.tex"), chars("shared"), Language::Latex);
    let slice = ws.slice(&uri("file:///tmp/common.tex"));
    assert_eq!(slice.documents.len(), 3);
    let root = slice.pick_root(&uri("file:///tmp/common.tex"));
    assert_eq!(string_of(&root.text), "file:///tmp/a.tex");
}

#[test]
fn build_log_is_never_the_root() {
    let mut ws = Workspace::new();
    ws.open(uri("file:///tmp/main.log"), chars("log text"), Language::BuildLog);
    ws.open(uri("file:///tmp/main.tex"), chars("body"), Language::Latex);
    let slice = ws.slice(&uri("file:///tmp/main.tex"));
    let root = slice.pick_root(&uri("file:///tmp/main.tex"));
    assert_eq!(string_of(&root.text), "file:///tmp/main.tex");
}
