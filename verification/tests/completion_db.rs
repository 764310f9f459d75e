use texlab_core::completion::{
    completion_resolve, Component, ComponentArg, ComponentCommand, ComponentDb,
    ComponentParameter, CompletionBuilder, CompletionItemKind, CursorContext, DocEntry,
    ResolveData,
};
use texlab_core::document::Language;
use texlab_core::uri::Uri;
use texlab_core::workspace::Workspace;

fn chars(s: &str) -> Vec<char> {
    s.chars().collect()
}

fn string_of(v: &[char]) -> String {
    v.iter().collect()
}

fn uri(s: &str) -> Uri {
    Uri::from_chars(chars(s))
}

fn small_db() -> ComponentDb {
    ComponentDb {
        components: vec![
            // The kernel: linked everywhere.
            Component {
                file_names: vec![],
                commands: vec![ComponentCommand {
                    name: chars("documentclass"),
                    parameters: vec![ComponentParameter {
                        args: vec![
                            ComponentArg { name: chars("article") },
                            ComponentArg { name: chars("book") },
                        ],
                    }],
                }],
                environments: vec![chars("document")],
            },
            // amsmath: linked only where it is used.
            Component {
                file_names: vec![chars("amsmath.sty")],
                commands: vec![],
                environments: vec![chars("align"), chars("gather")],
            },
        ],
        documentation: vec![DocEntry { name: chars("amsmath"), text: chars("AMS math") }],
    }
}

fn slice_of(text: &str) -> Workspace {
    let mut ws = Workspace::new();
    ws.open(uri("file:///tmp/a.tex"), chars(text), Language::Latex);
    ws.slice(&uri("file:///tmp/a.tex"))
}

#[test]
fn environments_of_linked_components_complete() {
    let db = small_db();
    let text = "\\usepackage{amsmath}\\begin{ali}";
    let context = CursorContext {
        project: slice_of(text),
        text: chars(text),
        offset: text.len() - 1,
    };
    let mut builder = CompletionBuilder::new();
    let r = texlab_core::completion::component_environment::complete(&context, &mut builder, &db);
    assert!(r.is_some());
    let labels: Vec<String> = builder.items.iter().map(|i| string_of(&i.label)).collect();
    assert!(labels.contains(&"document".to_string()));
    assert!(labels.contains(&"align".to_string()));
    assert!(labels.contains(&"gather".to_string()));
    assert!(builder.items.iter().all(|i| i.kind == CompletionItemKind::Environment));
}

#[test]
fn unlinked_components_stay_silent() {
    let db = small_db();
    let text = "\\begin{ali}";
    let context = CursorContext {
        project: slice_of(text),
        text: chars(text),
        offset: text.len() - 1,
    };
    let mut builder = CompletionBuilder::new();
    texlab_core::completion::component_environment::complete(&context, &mut builder, &db);
    let labels: Vec<String> = builder.items.iter().map(|i| string_of(&i.label)).collect();
    assert!(labels.contains(&"document".to_string()));
    assert!(!labels.contains(&"align".to_string()));
}

#[test]
fn outside_an_environment_name_nothing_completes() {
    let db = small_db();
    let text = "plain text";
    let context = CursorContext {
        project: slice_of(text),
        text: chars(text),
        offset: 3,
    };
    let mut builder = CompletionBuilder::new();
    let r = texlab_core::completion::component_environment::complete(&context, &mut builder, &db);
    assert!(r.is_none());
    assert_eq!(builder.items.len(), 0);
}

#[test]
fn command_arguments_complete_at_their_group() {
    let db = small_db();
    let text = "\\documentclass{art}";
    let context = CursorContext {
        project: slice_of(text),
        text: chars(text),
        offset: text.len() - 1,
    };
    let mut builder = CompletionBuilder::new();
    let r = texlab_core::completion::argument::complete(&context, &mut builder, &db);
    assert!(r.is_some());
    let labels: Vec<String> = builder.items.iter().map(|i| string_of(&i.label)).collect();
    assert_eq!(labels, vec!["article".to_string(), "book".to_string()]);
    assert!(builder.items.iter().all(|i| i.kind == CompletionItemKind::Argument));
    // The replaced span is the word around the caret.
    assert_eq!(builder.items[0].start, 15);
    assert_eq!(builder.items[0].end, 18);
}

#[test]
fn package_items_resolve_to_database_documentation() {
    let db = small_db();
    let ws = Workspace::new();
    let r = completion_resolve(&db, &ws, &ResolveData::Package { label: chars("amsmath") });
    assert_eq!(string_of(&r.unwrap()), "AMS math");
    let none = completion_resolve(&db, &ws, &ResolveData::Package { label: chars("nope") });
    assert!(none.is_none());
}

#[test]
fn citation_items_resolve_to_their_entry() {
    let db = small_db();
    let mut ws = Workspace::new();
    ws.open(
        uri("file:///tmp/refs.bib"),
        chars("@article{knuth84, title={Literate Programming}}\n@book{other}"),
        Language::Bibtex,
    );
    let r = completion_resolve(
        &db,
        &ws,
        &ResolveData::Citation { uri: uri("file:///tmp/refs.bib"), key: chars("knuth84") },
    );
    let text = string_of(&r.unwrap());
    assert!(text.starts_with("knuth84"));
    assert!(text.contains("Literate Programming"));
    assert!(!text.contains("@book"));
}

#[test]
fn open_then_complete_offers_documentclass() {
    // Open a document whose text is `\doc` and complete at character 4.
    let db = small_db();
    let mut session = texlab_core::session::Session::new();
    session.did_open(uri("file:///tmp/a.tex"), chars("latex"), chars("\\doc"), 0);
    let slice = session.workspace.slice(&uri("file:///tmp/a.tex"));
    let context = CursorContext { project: slice, text: chars("\\doc"), offset: 4 };
    let mut builder = CompletionBuilder::new();
    let r = texlab_core::completion::command::complete(&context, &mut builder, &db);
    assert!(r.is_some());
    let labels: Vec<String> = builder.items.iter().map(|i| string_of(&i.label)).collect();
    assert!(labels.contains(&"\\documentclass".to_string()));
    // The replaced span covers the backslash and the typed letters.
    assert_eq!(builder.items[0].start, 0);
    assert_eq!(builder.items[0].end, 4);
}
