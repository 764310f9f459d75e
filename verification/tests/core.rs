use texlab_core::document::{extract_links, language_by_extension, language_by_id, Language, LinkKind};
use texlab_core::text::{apply_document_edit, first_divergent_line, offset_of, Position, TextChange, TextSpan};
use texlab_core::uri::{normalize_uri, Uri};

fn chars(s: &str) -> Vec<char> {
    s.chars().collect()
}

fn string_of(v: &[char]) -> String {
    v.iter().collect()
}

#[test]
fn normalize_lowercases_scheme() {
    let mut u = Uri::from_chars(chars("FILE:///tmp/a.tex"));
    normalize_uri(&mut u);
    assert_eq!(string_of(&u.text), "file:///tmp/a.tex");
}

#[test]
fn normalize_canonicalizes_drive_letter() {
    let mut u = Uri::from_chars(chars("file:///C%3A/main.tex"));
    normalize_uri(&mut u);
    assert_eq!(string_of(&u.text), "file:///c:/main.tex");

    let mut v = Uri::from_chars(chars("file:///D:/x.tex"));
    normalize_uri(&mut v);
    assert_eq!(string_of(&v.text), "file:///d:/x.tex");
}

#[test]
fn normalize_is_idempotent_on_samples() {
    for s in [
        "FILE:///tmp/a.tex",
        "file:///C%3A/main.tex",
        "untitled:Untitled-1",
        "file:///d:/x.tex",
        "",
    ] {
        let mut once = Uri::from_chars(chars(s));
        normalize_uri(&mut once);
        let mut twice = Uri::from_chars(once.text.clone());
        normalize_uri(&mut twice);
        assert_eq!(string_of(&once.text), string_of(&twice.text));
    }
}

#[test]
fn full_replacement_change() {
    let mut text = chars("old text");
    let changes = vec![TextChange { span: None, text: chars("new") }];
    apply_document_edit(&mut text, &changes);
    assert_eq!(string_of(&text), "new");
}

#[test]
fn ranged_edits_apply_in_order() {
    let mut text = chars("hello world");
    let changes = vec![
        TextChange {
            span: Some(TextSpan {
                start: Position { line: 0, character: 0 },
                end: Position { line: 0, character: 5 },
            }),
            text: chars("bye"),
        },
        TextChange {
            span: Some(TextSpan {
                start: Position { line: 0, character: 4 },
                end: Position { line: 0, character: 9 },
            }),
            text: chars("earth"),
        },
    ];
    apply_document_edit(&mut text, &changes);
    assert_eq!(string_of(&text), "bye earth");
}

#[test]
fn multiline_edit_uses_line_and_column() {
    let mut text = chars("a\nbb\nccc");
    let changes = vec![TextChange {
        span: Some(TextSpan {
            start: Position { line: 1, character: 1 },
            end: Position { line: 2, character: 1 },
        }),
        text: chars("X"),
    }];
    apply_document_edit(&mut text, &changes);
    assert_eq!(string_of(&text), "a\nbXcc");
}

#[test]
fn offsets_follow_lines() {
    let text = chars("ab\ncd");
    assert_eq!(offset_of(&text, Position { line: 0, character: 1 }), 1);
    assert_eq!(offset_of(&text, Position { line: 1, character: 0 }), 3);
    // Columns clamp to the line end.
    assert_eq!(offset_of(&text, Position { line: 0, character: 99 }), 2);
    // Lines past the end clamp to the text end.
    assert_eq!(offset_of(&text, Position { line: 9, character: 0 }), 5);
}

#[test]
fn extracts_inclusion_and_component_references() {
    let links = extract_links(&chars(
        "\\documentclass{article}\\usepackage{amsmath}\\input{chap1}\\addbibresource{refs.bib}",
    ));
    assert_eq!(links.len(), 4);
    assert_eq!(links[0].kind, LinkKind::Class);
    assert_eq!(string_of(&links[0].path), "article");
    assert_eq!(links[1].kind, LinkKind::Package);
    assert_eq!(string_of(&links[1].path), "amsmath");
    assert_eq!(links[2].kind, LinkKind::Input);
    assert_eq!(string_of(&links[2].path), "chap1");
    assert_eq!(links[3].kind, LinkKind::Bibliography);
    assert_eq!(string_of(&links[3].path), "refs.bib");
}

#[test]
fn unclosed_reference_group_yields_nothing() {
    let links = extract_links(&chars("\\input{chap1"));
    assert_eq!(links.len(), 0);
}

#[test]
fn languages_follow_extensions() {
    assert_eq!(language_by_extension(&chars("log")), Language::BuildLog);
    assert_eq!(language_by_extension(&chars("blg")), Language::BuildLog);
    assert_eq!(language_by_extension(&chars("bib")), Language::Bibtex);
    assert_eq!(language_by_extension(&chars("aux")), Language::Auxiliary);
    assert_eq!(language_by_extension(&chars("fdb_latexmk")), Language::Auxiliary);
    // Unknown extensions default to the source language.
    assert_eq!(language_by_extension(&chars("sty")), Language::Latex);
}

#[test]
fn languages_follow_client_ids() {
    assert_eq!(language_by_id(&chars("latex")), Some(Language::Latex));
    assert_eq!(language_by_id(&chars("bibtex")), Some(Language::Bibtex));
    assert_eq!(language_by_id(&chars("python")), None);
}

#[test]
fn first_divergent_line_finds_the_edit() {
    assert_eq!(first_divergent_line(&chars("a\nb\nc"), &chars("a\nX\nc")), 1);
    assert_eq!(first_divergent_line(&chars("a\nb"), &chars("a\nb")), 0);
    assert_eq!(first_divergent_line(&chars("x\nb"), &chars("y\nb")), 0);
}
