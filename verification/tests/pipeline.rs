use texlab_core::build_engine::{BuildEngine, BuildStatus};
use texlab_core::debounce::Debouncer;
use texlab_core::diagnostics::{compute_syntax_diagnostics, parse_build_log, parse_linter_output, DiagnosticKind, DiagnosticManager};
use texlab_core::document::Language;
use texlab_core::options::{ConfigEntry, ConfigScalar, ConfigValue};
use texlab_core::session::{
    Action, ClientCapabilitiesInfo, ErrorCode, FeatureKind, ForwardSearchStatus, Message,
    Notification, Request, Session,
};
use texlab_core::text::{Position, TextChange};
use texlab_core::uri::Uri;
use texlab_core::workspace::Workspace;

fn chars(s: &str) -> Vec<char> {
    s.chars().collect()
}

fn string_of(v: &[char]) -> String {
    v.iter().collect()
}

fn uri(s: &str) -> Uri {
    Uri::from_chars(chars(s))
}

#[test]
fn debouncer_coalesces_bursts() {
    let mut d = Debouncer::new();
    // Ten submissions within the window; the timer resets each time.
    for t in 0..10u64 {
        let ws = Workspace::new();
        d.submit(ws, t * 5, 200);
    }
    // Quiet until the last deadline: nothing is emitted.
    assert!(d.poll(244).is_none());
    // The first poll past the deadline emits exactly once.
    assert!(d.poll(245).is_some());
    assert!(d.poll(246).is_none());
    assert!(d.poll(10_000).is_none());
}

#[test]
fn builds_for_one_root_are_serialized_and_coalesce() {
    let mut engine = BuildEngine::new();
    let root = uri("file:///tmp/main.tex");
    // The first caller runs the compiler; the second one waits.
    assert!(engine.try_begin(&root));
    assert!(!engine.try_begin(&root));
    engine.finish(&root, BuildStatus::Success);
    // Both callers observe the same result.
    assert_eq!(engine.last_result(&root), Some(BuildStatus::Success));
    // After the build finished, a new one may start.
    assert!(engine.try_begin(&root));
}

#[test]
fn builds_of_different_roots_run_side_by_side() {
    let mut engine = BuildEngine::new();
    assert!(engine.try_begin(&uri("file:///tmp/a.tex")));
    assert!(engine.try_begin(&uri("file:///tmp/b.tex")));
}

#[test]
fn syntax_diagnostics_report_brace_structure() {
    let ds = compute_syntax_diagnostics(&chars("}\n{"));
    assert_eq!(ds.len(), 2);
    assert_eq!(ds[0].kind, DiagnosticKind::UnmatchedCloseBrace);
    assert_eq!(ds[0].line, 0);
    assert_eq!(ds[1].kind, DiagnosticKind::UnclosedGroup);
    assert_eq!(ds[1].line, 1);
}

#[test]
fn build_log_errors_are_absorbed() {
    let ds = parse_build_log(&chars("This is pdfTeX\n! Undefined control sequence.\nl.3"));
    assert_eq!(ds.len(), 1);
    assert_eq!(ds[0].kind, DiagnosticKind::BuildError);
    assert_eq!(string_of(&ds[0].text), "Undefined control sequence.");
}

#[test]
fn publications_merge_buffers_and_skip_logs() {
    let mut manager = DiagnosticManager::new();
    let mut ws = Workspace::new();
    ws.open(uri("file:///tmp/a.tex"), chars("}"), Language::Latex);
    ws.open(uri("file:///tmp/a.log"), chars("! boom"), Language::BuildLog);
    manager.push_syntax(&ws, &uri("file:///tmp/a.tex"));
    manager.absorb_build_log(&uri("file:///tmp/a.tex"), &chars("! boom"));
    let merged = manager.publish(&uri("file:///tmp/a.tex"));
    assert_eq!(merged.len(), 2);
    assert_eq!(merged[0].kind, DiagnosticKind::UnmatchedCloseBrace);
    assert_eq!(merged[1].kind, DiagnosticKind::BuildError);
    let pubs = texlab_core::diagnostics::publish_all(&manager, &ws);
    // The build log itself is never published.
    assert_eq!(pubs.len(), 1);
    assert_eq!(string_of(&pubs[0].uri.text), "file:///tmp/a.tex");
}

#[test]
fn shutdown_then_exit_is_clean() {
    let mut s = Session::new();
    let a1 = s.process_message(
        Message::Request { id: 1, request: Request::Shutdown },
        0,
    );
    assert!(matches!(a1[0], Action::Respond { id: 1, error: None }));
    // No message is processed after shutdown: requests are refused...
    let a2 = s.process_message(
        Message::Request {
            id: 2,
            request: Request::Feature {
                kind: FeatureKind::Hover,
                uri: uri("file:///tmp/a.tex"),
                position: Some(Position { line: 0, character: 0 }),
            },
        },
        0,
    );
    assert!(matches!(
        a2[0],
        Action::Respond { id: 2, error: Some(ErrorCode::InvalidRequest) }
    ));
    // ...notifications are dropped...
    let a3 = s.process_message(
        Message::Notification {
            notification: Notification::DidOpen {
                uri: uri("file:///tmp/a.tex"),
                language_id: chars("latex"),
                text: chars("x"),
            },
        },
        0,
    );
    assert_eq!(a3.len(), 0);
    assert_eq!(s.workspace.documents.len(), 0);
    // ...and exit reports status 0.
    let a4 = s.process_message(
        Message::Notification { notification: Notification::Exit },
        0,
    );
    assert!(matches!(a4[0], Action::Exit { code: 0 }));
}

#[test]
fn exit_without_shutdown_is_an_error() {
    let mut s = Session::new();
    let a = s.process_message(Message::Notification { notification: Notification::Exit }, 0);
    assert!(matches!(a[0], Action::Exit { code: 1 }));
}

#[test]
fn unknown_document_requests_are_refused() {
    let mut s = Session::new();
    let a = s.process_message(
        Message::Request {
            id: 7,
            request: Request::Feature {
                kind: FeatureKind::Hover,
                uri: uri("file:///never-opened.tex"),
                position: Some(Position { line: 0, character: 0 }),
            },
        },
        0,
    );
    assert!(matches!(
        a[0],
        Action::Respond { id: 7, error: Some(ErrorCode::InvalidRequest) }
    ));
}

#[test]
fn unknown_methods_are_answered_with_method_not_found() {
    let mut s = Session::new();
    let a = s.process_message(Message::Request { id: 9, request: Request::Unknown }, 0);
    assert!(matches!(
        a[0],
        Action::Respond { id: 9, error: Some(ErrorCode::MethodNotFound) }
    ));
}

#[test]
fn invalid_configuration_keeps_previous_options() {
    let mut s = Session::new();
    s.options.diagnostics_delay = 150;
    // A configuration that is not an object — for instance the number 42 —
    // warns and keeps everything as it was.
    let a = s.did_change_configuration(&ConfigValue::NotObject);
    assert_eq!(a.len(), 1);
    assert!(matches!(a[0], Action::ShowWarning));
    assert_eq!(s.options.diagnostics_delay, 150);
}

#[test]
fn wrongly_typed_setting_rejects_the_whole_configuration() {
    let mut s = Session::new();
    let bad = ConfigValue::Object(vec![ConfigEntry {
        key: chars("diagnosticsDelay"),
        value: ConfigScalar::Str(chars("soon")),
    }]);
    let a = s.did_change_configuration(&bad);
    assert!(matches!(a[0], Action::ShowWarning));
    assert_eq!(s.options.diagnostics_delay, 300);
}

#[test]
fn valid_configuration_is_applied() {
    let mut s = Session::new();
    let good = ConfigValue::Object(vec![
        ConfigEntry { key: chars("diagnosticsDelay"), value: ConfigScalar::Int(200) },
        ConfigEntry { key: chars("build.onSave"), value: ConfigScalar::Bool(true) },
        ConfigEntry { key: chars("unknown.key"), value: ConfigScalar::Int(1) },
    ]);
    let a = s.did_change_configuration(&good);
    assert!(matches!(a[0], Action::WatchDirectory { .. }));
    assert_eq!(s.options.diagnostics_delay, 200);
    assert!(s.options.build_on_save);
}

#[test]
fn debounced_diagnostics_publish_once_per_burst() {
    let mut s = Session::new();
    s.options.diagnostics_delay = 200;
    s.did_open(uri("file:///tmp/a.tex"), chars("latex"), chars(""), 0);
    // Ten edits within 50 ticks, each introducing a new syntax error.
    for t in 0..10u64 {
        let change = TextChange { span: None, text: chars(&"}".repeat(t as usize + 1)) };
        s.did_change(uri("file:///tmp/a.tex"), vec![change], t * 5);
    }
    // Before the quiet window has passed, nothing is published.
    assert!(s.poll_diagnostics(244).is_none());
    // Exactly one publication per document, reflecting the final text.
    let pubs = s.poll_diagnostics(245).unwrap();
    assert_eq!(pubs.len(), 1);
    assert_eq!(string_of(&pubs[0].uri.text), "file:///tmp/a.tex");
    assert_eq!(pubs[0].diagnostics.len(), 10);
    assert!(s.poll_diagnostics(246).is_none());
}

#[test]
fn build_requests_for_one_root_coalesce() {
    let mut s = Session::new();
    s.did_open(uri("file:///tmp/main.tex"), chars("latex"), chars("body"), 0);
    let a1 = s.process_message(
        Message::Request { id: 1, request: Request::Build { uri: uri("file:///tmp/main.tex") } },
        0,
    );
    // The first request spawns the compiler once.
    assert!(matches!(a1[0], Action::RunBuild { id: Some(1), .. }));
    let a2 = s.process_message(
        Message::Request { id: 2, request: Request::Build { uri: uri("file:///tmp/main.tex") } },
        1,
    );
    // The second request within the window waits for the first result.
    assert!(matches!(a2[0], Action::AwaitBuild { id: 2, .. }));
    // When the compiler exits, both observe the same status.
    let status = s.build_finished(&uri("file:///tmp/main.tex"), true, false, &chars(""), 2);
    assert_eq!(status, BuildStatus::Success);
    assert_eq!(
        s.build.last_result(&uri("file:///tmp/main.tex")),
        Some(BuildStatus::Success)
    );
}

#[test]
fn build_for_unknown_document_is_refused() {
    let mut s = Session::new();
    let a = s.process_message(
        Message::Request { id: 4, request: Request::Build { uri: uri("file:///nowhere.tex") } },
        0,
    );
    assert!(matches!(
        a[0],
        Action::Respond { id: 4, error: Some(ErrorCode::InvalidRequest) }
    ));
}

#[test]
fn forward_search_without_configuration_is_unconfigured() {
    let mut s = Session::new();
    s.did_open(uri("file:///tmp/main.tex"), chars("latex"), chars("body"), 0);
    let a = s.process_message(
        Message::Request {
            id: 3,
            request: Request::ForwardSearch { uri: uri("file:///tmp/main.tex"), line: 5 },
        },
        0,
    );
    assert!(matches!(
        a[0],
        Action::RespondForwardSearch { id: 3, status: ForwardSearchStatus::Unconfigured }
    ));
}

#[test]
fn forward_search_substitutes_file_and_line() {
    let mut s = Session::new();
    s.options.forward_search_executable = Some(chars("viewer"));
    s.options.forward_search_args = Some(vec![chars("%f"), chars("--line=%l")]);
    s.did_open(uri("file:///tmp/main.tex"), chars("latex"), chars("body"), 0);
    let a = s.process_message(
        Message::Request {
            id: 3,
            request: Request::ForwardSearch { uri: uri("file:///tmp/main.tex"), line: 42 },
        },
        0,
    );
    match &a[0] {
        Action::RunForwardSearch { id, executable, args, root } => {
            assert_eq!(*id, 3);
            assert_eq!(string_of(executable), "viewer");
            assert_eq!(string_of(&args[0]), "/tmp/main.pdf");
            assert_eq!(string_of(&args[1]), "--line=42");
            assert_eq!(string_of(&root.text), "file:///tmp/main.tex");
        },
        other => panic!("unexpected action: {:?}", action_name(other)),
    }
}

fn action_name(a: &Action) -> &'static str {
    match a {
        Action::Respond { .. } => "Respond",
        Action::RespondBuild { .. } => "RespondBuild",
        Action::RespondForwardSearch { .. } => "RespondForwardSearch",
        Action::Dispatch { .. } => "Dispatch",
        Action::DispatchWorkspaceSymbol { .. } => "DispatchWorkspaceSymbol",
        Action::DispatchCommand { .. } => "DispatchCommand",
        Action::RunBuild { .. } => "RunBuild",
        Action::AwaitBuild { .. } => "AwaitBuild",
        Action::RunForwardSearch { .. } => "RunForwardSearch",
        Action::RunLinter { .. } => "RunLinter",
        Action::LoadFile { .. } => "LoadFile",
        Action::PullConfiguration => "PullConfiguration",
        Action::RegisterConfigCapability => "RegisterConfigCapability",
        Action::DetectDistribution => "DetectDistribution",
        Action::WatchDirectory { .. } => "WatchDirectory",
        Action::ShowWarning => "ShowWarning",
        Action::Exit { .. } => "Exit",
    }
}

#[test]
fn initialize_hands_back_startup_work() {
    let mut s = Session::new();
    let (caps, actions) = s.initialize(
        ClientCapabilitiesInfo { push_configuration: true, pull_configuration: true },
        false,
    );
    assert!(caps.incremental_sync);
    assert_eq!(string_of(&caps.completion_trigger_characters), "\\{}@/ ");
    assert_eq!(string_of(&caps.execute_commands[0]), "texlab.cleanAuxiliary");
    assert_eq!(string_of(&caps.execute_commands[1]), "texlab.cleanArtifacts");
    assert_eq!(actions.len(), 3);
    assert!(matches!(actions[0], Action::DetectDistribution));
    assert!(matches!(actions[1], Action::RegisterConfigCapability));
    assert!(matches!(actions[2], Action::PullConfiguration));

    let mut s2 = Session::new();
    let (_, actions2) = s2.initialize(
        ClientCapabilitiesInfo { push_configuration: false, pull_configuration: false },
        true,
    );
    assert_eq!(actions2.len(), 0);
}

#[test]
fn feature_requests_carry_a_project_slice() {
    let mut s = Session::new();
    s.did_open(
        uri("file:///tmp/main.tex"),
        chars("latex"),
        chars("\\documentclass{article}\\input{chap1}\\begin{document}\\end{document}"),
        0,
    );
    s.did_open(uri("file:///tmp/chap1.tex"), chars("latex"), chars("Hello"), 1);
    let a = s.process_message(
        Message::Request {
            id: 5,
            request: Request::Feature {
                kind: FeatureKind::DocumentSymbol,
                uri: uri("file:///tmp/chap1.tex"),
                position: None,
            },
        },
        2,
    );
    match &a[0] {
        Action::Dispatch { id, kind, uri: u, slice } => {
            assert_eq!(*id, 5);
            assert_eq!(*kind, FeatureKind::DocumentSymbol);
            assert_eq!(string_of(&u.text), "file:///tmp/chap1.tex");
            // The slice resolves chap1 as part of the main project.
            let uris: Vec<String> =
                slice.documents.iter().map(|d| string_of(&d.uri.text)).collect();
            assert!(uris.contains(&"file:///tmp/main.tex".to_string()));
            assert!(uris.contains(&"file:///tmp/chap1.tex".to_string()));
        },
        other => panic!("unexpected action: {:?}", action_name(other)),
    }
}

#[test]
fn file_events_reload_and_load_documents() {
    let mut s = Session::new();
    s.did_open(uri("file:///tmp/a.tex"), chars("latex"), chars("old"), 0);
    s.process_message(
        Message::Internal {
            event: texlab_core::session::InternalEvent::FileChanged {
                path: chars("/tmp/a.tex"),
                text: chars("fresh"),
            },
        },
        1,
    );
    let doc = s.workspace.get(&uri("file:///tmp/a.tex")).unwrap();
    assert_eq!(string_of(&doc.text), "fresh");
    // A path without a document is loaded, its language inferred from the
    // extension.
    s.process_message(
        Message::Internal {
            event: texlab_core::session::InternalEvent::FileChanged {
                path: chars("/tmp/refs.bib"),
                text: chars("@book{k}"),
            },
        },
        2,
    );
    let loaded = s.workspace.get(&uri("file:///tmp/refs.bib")).unwrap();
    assert_eq!(loaded.language, Language::Bibtex);
    // A removed file leaves the store.
    s.process_message(
        Message::Internal {
            event: texlab_core::session::InternalEvent::FileRemoved { path: chars("/tmp/a.tex") },
        },
        3,
    );
    assert!(s.workspace.get(&uri("file:///tmp/a.tex")).is_none());
}

#[test]
fn linter_output_lines_become_findings() {
    let ds = parse_linter_output(&chars("Warning 24 in a.tex\n\nWarning 8 in a.tex"));
    assert_eq!(ds.len(), 2);
    assert!(ds.iter().all(|d| d.kind == DiagnosticKind::Linter));
    assert_eq!(string_of(&ds[0].text), "Warning 24 in a.tex");
    assert_eq!(string_of(&ds[1].text), "Warning 8 in a.tex");
}

#[test]
fn failed_and_cancelled_compiler_runs_map_to_their_statuses() {
    let mut s = Session::new();
    s.did_open(uri("file:///tmp/m.tex"), chars("latex"), chars("x"), 0);
    assert!(s.build.try_begin(&uri("file:///tmp/m.tex")));
    let st = s.build_finished(&uri("file:///tmp/m.tex"), false, false, &chars("! err"), 1);
    assert_eq!(st, BuildStatus::Failure);
    // The absorbed log is part of the next publication.
    let pubs = s.poll_diagnostics(10_000).unwrap();
    assert!(pubs[0].diagnostics.iter().any(|d| d.kind == DiagnosticKind::BuildError));
    assert!(s.build.try_begin(&uri("file:///tmp/m.tex")));
    let st2 = s.build_finished(&uri("file:///tmp/m.tex"), false, true, &chars(""), 2);
    assert_eq!(st2, BuildStatus::Cancelled);
    // A later build's log replaces the buffer entirely: the old error is gone.
    let pubs2 = s.poll_diagnostics(20_000).unwrap();
    assert!(pubs2[0].diagnostics.iter().all(|d| d.kind != DiagnosticKind::BuildError));
}

#[test]
fn save_triggers_build_and_linter_as_configured() {
    let mut s = Session::new();
    s.options.build_on_save = true;
    s.options.chktex_on_open_and_save = true;
    s.did_open(uri("file:///tmp/m.tex"), chars("latex"), chars("x"), 0);
    let a = s.process_message(
        Message::Notification {
            notification: Notification::DidSave { uri: uri("file:///tmp/m.tex") },
        },
        1,
    );
    assert_eq!(a.len(), 2);
    assert!(matches!(a[0], Action::RunBuild { id: None, .. }));
    assert!(matches!(a[1], Action::RunLinter { .. }));
    // Saving an unknown document does nothing.
    let b = s.process_message(
        Message::Notification {
            notification: Notification::DidSave { uri: uri("file:///tmp/other.tex") },
        },
        2,
    );
    assert_eq!(b.len(), 0);
}

#[test]
fn editing_an_unknown_local_file_loads_it() {
    let mut s = Session::new();
    let a = s.did_change(
        uri("file:///tmp/new.tex"),
        vec![TextChange { span: None, text: chars("x") }],
        0,
    );
    assert_eq!(a.len(), 1);
    match &a[0] {
        Action::LoadFile { path } => assert_eq!(string_of(path), "/tmp/new.tex"),
        _ => panic!("expected a load"),
    }
}

#[test]
fn edits_track_the_cursor_for_inverse_search() {
    let mut s = Session::new();
    s.did_open(uri("file:///tmp/m.tex"), chars("latex"), chars("a\nb\nc"), 0);
    s.did_change(
        uri("file:///tmp/m.tex"),
        vec![TextChange { span: None, text: chars("a\nX\nc") }],
        1,
    );
    let p = s.build.position_of(&uri("file:///tmp/m.tex")).unwrap();
    assert_eq!(p.line, 1);
    assert_eq!(p.character, 0);
}

#[test]
fn build_of_a_non_local_root_fails_without_running() {
    let mut s = Session::new();
    s.did_open(uri("untitled:draft"), chars("latex"), chars("body"), 0);
    let a = s.process_message(
        Message::Request { id: 6, request: Request::Build { uri: uri("untitled:draft") } },
        0,
    );
    assert!(matches!(
        a[0],
        Action::RespondBuild { id: 6, status: BuildStatus::Failure }
    ));
    // The lock was never taken: a build of a local root still starts.
    assert!(s.build.try_begin(&uri("untitled:draft")));
}

#[test]
fn the_root_is_an_ancestor_of_the_request() {
    // Two unrelated documents include a shared file; the root picked for
    // each request must be one of its own ancestors.
    let mut ws = Workspace::new();
    ws.open(uri("file:///tmp/a.tex"), chars("\\input{common}"), Language::Latex);
    ws.open(uri("file:///tmp/b.tex"), chars("\\input{common}"), Language::Latex);
    ws.open(uri("file:///tmp/common.tex"), chars("shared"), Language::Latex);
    let slice = ws.slice(&uri("file:///tmp/b.tex"));
    // The slice is the whole project component, but b's only ancestor
    // without further ancestors is b itself — never a.
    let root = slice.pick_root(&uri("file:///tmp/b.tex"));
    assert_eq!(string_of(&root.text), "file:///tmp/b.tex");
}
