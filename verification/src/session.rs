//! The session orchestrator: the state machine behind the message loop.
//!
//! Every inbound protocol message, and every internal event, is one step of
//! `process_message`: it mutates the session state and returns the actions
//! the surrounding loop performs (responses to send, workers to start,
//! files to load). After a shutdown request no message mutates the state:
//! further requests are answered with an error, and `exit` reports status 0
//! exactly when shutdown was requested first.

use vstd::prelude::*;
use crate::build_engine::{
    finish_spec, spec_last, spec_position, status_of_exit_spec, try_begin_spec, BuildEngine,
    BuildStatus, engine_wf, substitute, subst_spec,
};
use crate::debounce::{poll_emit_spec, poll_state_spec, submit_spec, Debouncer};
use crate::diagnostics::{
    doc_syntax_spec, log_diags_from, publish_all_spec, set_buffer_spec, unique_bufs, BufferSlot,
    Diagnostic, DiagnosticManager, Publication,
};
use crate::document::{
    ext_of, language_by_id_spec, Language,
};
use crate::options::{parse_options_spec, ConfigValue, Options};
use crate::text::{
    apply_changes_spec, first_divergent_line_spec, Position, TextChange,
};
use crate::uri::{normalize_spec, normalize_uri, Uri};
use crate::workspace::{
    close_spec, dir_of, get_doc, has_doc, in_viewport, open_spec, remove_spec, ws_wf, Workspace,
};

verus! {

/// The error codes the protocol layer knows.
#[derive(PartialEq, Eq, Structural, Clone, Copy, Debug)]
pub enum ErrorCode {
    InvalidRequest,
    MethodNotFound,
    InternalError,
}

/// The outcome of a forward search.
#[derive(PartialEq, Eq, Structural, Clone, Copy, Debug)]
pub enum ForwardSearchStatus {
    Success,
    Error,
    Failure,
    Unconfigured,
}

/// The read-only feature requests that run against a workspace slice.
#[derive(PartialEq, Eq, Structural, Clone, Copy, Debug)]
pub enum FeatureKind {
    DocumentLink,
    FoldingRange,
    References,
    Hover,
    DocumentSymbol,
    GotoDefinition,
    PrepareRename,
    Rename,
    DocumentHighlight,
    Formatting,
    InlayHint,
    Completion,
}

/// An inbound request.
pub enum Request {
    Feature { kind: FeatureKind, uri: Uri, position: Option<Position> },
    WorkspaceSymbol,
    ExecuteCommand { command: Vec<char> },
    InlayHintResolve,
    SemanticTokensRange { uri: Uri },
    Build { uri: Uri },
    ForwardSearch { uri: Uri, line: u32 },
    Shutdown,
    Unknown,
}

/// An inbound notification.
pub enum Notification {
    Cancel,
    DidChangeWatchedFiles,
    DidChangeConfiguration { settings: ConfigValue },
    DidOpen { uri: Uri, language_id: Vec<char>, text: Vec<char> },
    DidChange { uri: Uri, changes: Vec<TextChange> },
    DidSave { uri: Uri },
    DidClose { uri: Uri },
    Exit,
    Unknown,
}

/// An event of the internal channel.
pub enum InternalEvent {
    DistroResolved,
    OptionsLoaded { options: Options },
    FileChanged { path: Vec<char>, text: Vec<char> },
    FileRemoved { path: Vec<char> },
}

/// One message of the loop's two input channels.
pub enum Message {
    Request { id: u64, request: Request },
    Notification { notification: Notification },
    Response { id: u64 },
    Internal { event: InternalEvent },
}

/// What the loop must do after a step.
#[allow(inconsistent_fields)]
pub enum Action {
    /// Send a plain or an error response.
    Respond { id: u64, error: Option<ErrorCode> },
    /// Send a build result.
    RespondBuild { id: u64, status: BuildStatus },
    /// Send a forward-search result.
    RespondForwardSearch { id: u64, status: ForwardSearchStatus },
    /// Run a feature handler on a worker against the given slice.
    Dispatch { id: u64, kind: FeatureKind, uri: Uri, slice: Workspace },
    /// Run a workspace-wide handler on a worker against the snapshot.
    DispatchWorkspaceSymbol { id: u64, snapshot: Workspace },
    /// Run a command against the snapshot.
    DispatchCommand { id: u64, command: Vec<char>, snapshot: Workspace },
    /// Spawn the compiler for this root; report back via `build_finished`.
    RunBuild { id: Option<u64>, root: Uri },
    /// This root is already building: answer with that build's result.
    AwaitBuild { id: u64, root: Uri },
    /// Spawn the forward-search tool on the root's produced file.
    RunForwardSearch { id: u64, executable: Vec<char>, args: Vec<Vec<char>>, root: Uri },
    /// Run the external linter; report back via `linter_finished`.
    RunLinter { uri: Uri },
    /// Read this file and report back as a `FileChanged` event.
    LoadFile { path: Vec<char> },
    /// Ask the client for the current configuration.
    PullConfiguration,
    /// Register for configuration-change notifications.
    RegisterConfigCapability,
    /// Detect the installed distribution on a worker; it reports back as a
    /// `DistroResolved` event.
    DetectDistribution,
    /// Watch this directory for file events.
    WatchDirectory { path: Vec<char> },
    /// Warn the client that its configuration is invalid.
    ShowWarning,
    /// Leave the process with this status.
    Exit { code: u8 },
}

/// The capabilities this server declares.
pub struct ServerCapabilitiesInfo {
    pub incremental_sync: bool,
    pub completion_trigger_characters: Vec<char>,
    pub completion_resolve: bool,
    pub definition: bool,
    pub references: bool,
    pub hover: bool,
    pub document_symbol: bool,
    pub workspace_symbol: bool,
    pub document_link: bool,
    pub folding_range: bool,
    pub document_highlight: bool,
    pub formatting: bool,
    pub rename_with_prepare: bool,
    pub inlay_hint: bool,
    pub execute_commands: Vec<Vec<char>>,
}

/// The trigger characters completion declares.
pub open spec fn trigger_characters_spec() -> Seq<char> {
    seq!['\\', '{', '}', '@', '/', ' ']
}

/// The declared server capabilities: incremental sync, the completion
/// triggers, every document feature, and the two cleaning commands.
pub fn capabilities() -> (r: ServerCapabilitiesInfo)
    ensures
        r.incremental_sync,
        r.completion_trigger_characters@ == trigger_characters_spec(),
        r.completion_resolve,
        r.definition && r.references && r.hover && r.document_symbol && r.workspace_symbol,
        r.document_link && r.folding_range && r.document_highlight && r.formatting,
        r.rename_with_prepare && r.inlay_hint,
        r.execute_commands@.len() == 2,
        r.execute_commands@[0]@ == "texlab.cleanAuxiliary"@,
        r.execute_commands@[1]@ == "texlab.cleanArtifacts"@,
{
    let triggers = vec!['\\', '{', '}', '@', '/', ' '];
    proof {
        assert(triggers@ =~= trigger_characters_spec());
    }
    let mut commands: Vec<Vec<char>> = Vec::new();
    let c1 = str_chars("texlab.cleanAuxiliary");
    let c2 = str_chars("texlab.cleanArtifacts");
    commands.push(c1);
    commands.push(c2);
    ServerCapabilitiesInfo {
        incremental_sync: true,
        completion_trigger_characters: triggers,
        completion_resolve: true,
        definition: true,
        references: true,
        hover: true,
        document_symbol: true,
        workspace_symbol: true,
        document_link: true,
        folding_range: true,
        document_highlight: true,
        formatting: true,
        rename_with_prepare: true,
        inlay_hint: true,
        execute_commands: commands,
    }
}

/// Copies the characters of a string.
pub fn str_chars(s: &str) -> (r: Vec<char>)
    ensures
        r@ == s@,
{
    let n = s.unicode_len();
    let mut out: Vec<char> = Vec::new();
    let mut i: usize = 0;
    while i < n
        invariant
            i <= n,
            n == s@.len(),
            out@.len() == i,
            forall|j: int| 0 <= j < i ==> out@[j] == s@[j],
        decreases n - i,
    {
        out.push(s.get_char(i));
        i = i + 1;
    }
    proof {
        assert(out@ =~= s@);
    }
    out
}

/// What the client said it can do.
#[derive(PartialEq, Eq, Structural, Clone, Copy, Debug)]
pub struct ClientCapabilitiesInfo {
    pub push_configuration: bool,
    pub pull_configuration: bool,
}

/// The decimal digit characters of a number.
pub open spec fn dec_rep(n: nat) -> Seq<char>
    decreases n,
{
    if n < 10 {
        seq![digit_char(n)]
    } else {
        dec_rep(n / 10).push(digit_char(n % 10))
    }
}

pub open spec fn digit_char(d: nat) -> char {
    if d == 0 {
        '0'
    } else if d == 1 {
        '1'
    } else if d == 2 {
        '2'
    } else if d == 3 {
        '3'
    } else if d == 4 {
        '4'
    } else if d == 5 {
        '5'
    } else if d == 6 {
        '6'
    } else if d == 7 {
        '7'
    } else if d == 8 {
        '8'
    } else {
        '9'
    }
}

fn digit_char_exec(d: u32) -> (r: char)
    requires
        d < 10,
    ensures
        r == digit_char(d as nat),
{
    if d == 0 {
        '0'
    } else if d == 1 {
        '1'
    } else if d == 2 {
        '2'
    } else if d == 3 {
        '3'
    } else if d == 4 {
        '4'
    } else if d == 5 {
        '5'
    } else if d == 6 {
        '6'
    } else if d == 7 {
        '7'
    } else if d == 8 {
        '8'
    } else {
        '9'
    }
}

/// Writes a number in decimal.
pub fn u32_chars(n: u32) -> (r: Vec<char>)
    ensures
        r@ == dec_rep(n as nat),
    decreases n,
{
    if n < 10 {
        let c = digit_char_exec(n);
        let v = vec![c];
        proof {
            assert(v@ =~= dec_rep(n as nat));
        }
        v
    } else {
        let mut r = u32_chars(n / 10);
        r.push(digit_char_exec(n % 10));
        r
    }
}

/// The prefix of every local-path URI.
pub open spec fn file_scheme_prefix() -> Seq<char> {
    seq!['f', 'i', 'l', 'e', ':', '/', '/']
}

/// True when the URI names a local path.
pub open spec fn is_file_uri(s: Seq<char>) -> bool {
    s.len() >= 7 && s.subrange(0, 7) == file_scheme_prefix()
}

/// The local path a `file://` URI names.
pub open spec fn path_of_uri(s: Seq<char>) -> Seq<char> {
    s.subrange(7, s.len() as int)
}

/// The URI of a local path.
pub open spec fn uri_of_path(p: Seq<char>) -> Seq<char> {
    file_scheme_prefix() + p
}

/// Whether the URI names a local path.
pub fn is_file_uri_exec(u: &Uri) -> (r: bool)
    ensures
        r == is_file_uri(u@),
{
    if u.text.len() < 7 {
        return false;
    }
    let r = u.text[0] == 'f' && u.text[1] == 'i' && u.text[2] == 'l' && u.text[3] == 'e'
        && u.text[4] == ':' && u.text[5] == '/' && u.text[6] == '/';
    proof {
        if r {
            assert(u@.subrange(0, 7) =~= file_scheme_prefix());
        } else {
            assert(u@.len() >= 7 && u@.subrange(0, 7) == file_scheme_prefix() ==> (u@[0] == 'f'
                && u@[1] == 'i' && u@[2] == 'l' && u@[3] == 'e' && u@[4] == ':' && u@[5] == '/'
                && u@[6] == '/'));
        }
    }
    r
}

/// Strips the scheme off a local-path URI.
pub fn uri_to_path(u: &Uri) -> (r: Vec<char>)
    requires
        is_file_uri(u@),
    ensures
        r@ == path_of_uri(u@),
{
    crate::document::copy_range(&u.text, 7, u.text.len())
}

/// Prepends the scheme to a local path.
pub fn path_to_uri(p: &Vec<char>) -> (r: Uri)
    ensures
        r@ == uri_of_path(p@),
{
    let mut text = vec!['f', 'i', 'l', 'e', ':', '/', '/'];
    let mut i: usize = 0;
    while i < p.len()
        invariant
            i <= p@.len(),
            text@.len() == 7 + i,
            text@.subrange(0, 7) =~= file_scheme_prefix(),
            forall|j: int| 0 <= j < i ==> text@[7 + j] == p@[j],
        decreases p.len() - i,
    {
        text.push(p[i]);
        i = i + 1;
    }
    proof {
        assert(text@ =~= uri_of_path(p@));
    }
    Uri { text }
}

/// The text with its extension replaced by `pdf`: where the produced
/// document of a root is expected.
pub open spec fn pdf_path_spec(p: Seq<char>) -> Seq<char> {
    if ext_of(p).len() > 0 {
        p.subrange(0, p.len() - ext_of(p).len() - 1) + ".pdf"@
    } else {
        p + ".pdf"@
    }
}

/// Replaces a path's extension by `pdf`.
pub fn pdf_path(p: &Vec<char>) -> (r: Vec<char>)
    ensures
        r@ == pdf_path_spec(p@),
{
    let ext = crate::document::extension_of(p);
    let stem: Vec<char> = if ext.len() > 0 {
        proof {
            crate::document::lemma_ext_len(p@, p@.len() - 1);
        }
        crate::document::copy_range(p, 0, p.len() - ext.len() - 1)
    } else {
        crate::document::copy_range(p, 0, p.len())
    };
    let suffix = str_chars(".pdf");
    let r = crate::workspace::concat_chars(&stem, &suffix);
    proof {
        reveal_strlit(".pdf");
        if ext_of(p@).len() > 0 {
            assert(r@ =~= pdf_path_spec(p@));
        } else {
            assert(p@.subrange(0, p@.len() as int) =~= p@);
            assert(r@ =~= pdf_path_spec(p@));
        }
    }
    r
}

/// The line a burst of edits first touched, clamped to the protocol's range.
pub open spec fn clamp_line(n: nat) -> u32 {
    if n > u32::MAX {
        u32::MAX
    } else {
        n as u32
    }
}

/// The one mutator of workspace state: the session loop's shared state.
pub struct Session {
    pub workspace: Workspace,
    pub options: Options,
    pub client_capabilities: ClientCapabilitiesInfo,
    pub shutdown_requested: bool,
    pub diagnostics: DiagnosticManager,
    pub debouncer: Debouncer,
    pub build: BuildEngine,
}

/// A well-formed session: its workspace, buffers and build locks are.
pub open spec fn session_wf(s: &Session) -> bool {
    &&& ws_wf(s.workspace@)
    &&& unique_bufs(s.diagnostics@)
    &&& engine_wf(s.build@)
}

/// The parts of the session a step may not touch unless it says so.
pub open spec fn same_state(a: &Session, b: &Session) -> bool {
    &&& a.workspace@ == b.workspace@
    &&& a.options@ == b.options@
    &&& a.client_capabilities == b.client_capabilities
    &&& a.shutdown_requested == b.shutdown_requested
    &&& a.diagnostics@ == b.diagnostics@
    &&& a.debouncer@ == b.debouncer@
    &&& a.build@ == b.build@
}

/// The document a `didOpen` stores: the language comes from the client's
/// language id, unknown ids defaulting to the source language.
pub open spec fn opened_doc(uri: Seq<char>, language_id: Seq<char>, text: Seq<char>) -> crate::document::DocumentView {
    let lang = match language_by_id_spec(language_id) {
        Some(l) => l,
        None => Language::Latex,
    };
    crate::document::DocumentView {
        uri,
        text,
        language: lang,
        links: crate::document::doc_links_spec(text, lang),
    }
}

/// What `did_open` does: the document is parsed and stored, the viewport
/// notes it, its syntactic diagnostics are recomputed, the new snapshot is
/// handed to the debouncer, and the linter runs when the settings ask for
/// it on open.
pub open spec fn did_open_ok(
    pre: Session,
    post: Session,
    uri: Uri,
    language_id: Seq<char>,
    text: Seq<char>,
    now: u64,
    actions: Seq<Action>,
) -> bool {
    let nu = normalize_spec(uri@);
    let d = opened_doc(nu, language_id, text);
    &&& post.workspace@.documents == open_spec(pre.workspace@.documents, d)
    &&& post.workspace@.viewport == (if in_viewport(pre.workspace@.viewport, nu) {
        pre.workspace@.viewport
    } else {
        pre.workspace@.viewport.push(nu)
    })
    &&& post.diagnostics@ == set_buffer_spec(
        pre.diagnostics@,
        nu,
        BufferSlot::Syntax,
        doc_syntax_spec(d),
    )
    &&& post.debouncer@ == submit_spec(
        pre.debouncer@,
        post.workspace@,
        now,
        pre.options.diagnostics_delay,
    )
    &&& post.options@ == pre.options@
    &&& post.client_capabilities == pre.client_capabilities
    &&& post.shutdown_requested == pre.shutdown_requested
    &&& post.build@ == pre.build@
    &&& if pre.options.chktex_on_open_and_save {
        actions.len() == 1 && (actions[0] matches Action::RunLinter { uri: u } && u@ == nu)
    } else {
        actions.len() == 0
    }
}

/// What `did_change` does to a known document: the changes are applied in
/// order to its text, the document is re-stored, the first divergent line
/// seeds the cursor table, diagnostics and debouncer follow as on open,
/// and the linter runs when the settings ask for it on edit. An unknown
/// local-path URI is loaded instead; any other unknown URI is ignored.
pub open spec fn did_change_ok(
    pre: Session,
    post: Session,
    uri: Uri,
    changes: Seq<crate::text::TextChangeView>,
    now: u64,
    actions: Seq<Action>,
) -> bool {
    let nu = normalize_spec(uri@);
    if has_doc(pre.workspace@.documents, nu) {
        let old_doc = get_doc(pre.workspace@.documents, nu);
        let new_text = apply_changes_spec(old_doc.text, changes);
        let d = crate::document::DocumentView {
            uri: nu,
            text: new_text,
            language: old_doc.language,
            links: crate::document::doc_links_spec(new_text, old_doc.language),
        };
        &&& post.workspace@.documents == open_spec(pre.workspace@.documents, d)
        &&& post.workspace@.viewport == (if in_viewport(pre.workspace@.viewport, nu) {
            pre.workspace@.viewport
        } else {
            pre.workspace@.viewport.push(nu)
        })
        &&& post.diagnostics@ == set_buffer_spec(
            pre.diagnostics@,
            nu,
            BufferSlot::Syntax,
            doc_syntax_spec(d),
        )
        &&& post.debouncer@ == submit_spec(
            pre.debouncer@,
            post.workspace@,
            now,
            pre.options.diagnostics_delay,
        )
        &&& post.build@.roots == pre.build@.roots
        &&& spec_position(post.build@.positions, nu) == Some(
            Position {
                line: clamp_line(first_divergent_line_spec(old_doc.text, new_text)),
                character: 0,
            },
        )
        &&& forall|u: Seq<char>|
            u != nu ==> spec_position(post.build@.positions, u) == spec_position(
                pre.build@.positions,
                u,
            )
        &&& post.options@ == pre.options@
        &&& post.client_capabilities == pre.client_capabilities
        &&& post.shutdown_requested == pre.shutdown_requested
        &&& if pre.options.chktex_on_edit {
            actions.len() == 1 && (actions[0] matches Action::RunLinter { uri: u } && u@ == nu)
        } else {
            actions.len() == 0
        }
    } else {
        &&& same_state(&pre, &post)
        &&& if is_file_uri(nu) {
            actions.len() == 1 && (actions[0] matches Action::LoadFile { path } && path@
                == path_of_uri(nu))
        } else {
            actions.len() == 0
        }
    }
}

/// One root's build step: a root whose URI is not a local path fails at
/// once without taking the lock; otherwise the root's lock is taken, and
/// the caller runs the compiler only when no build held it — while one
/// runs, later callers wait for its result instead of starting a second
/// one.
pub open spec fn build_root_step(
    pre: Session,
    post: Session,
    id: Option<u64>,
    root: Uri,
    actions: Seq<Action>,
) -> bool {
    &&& has_doc(pre.workspace@.documents, root@)
    &&& if !is_file_uri(root@) {
        &&& post.build@.roots == pre.build@.roots
        &&& match id {
            Some(i) => actions.len() == 1 && (actions[0] matches Action::RespondBuild {
                id: rid,
                status,
            } && rid == i && status == BuildStatus::Failure),
            None => actions.len() == 0,
        }
    } else {
        &&& post.build@.roots == try_begin_spec(pre.build@.roots, root@).0
        &&& if try_begin_spec(pre.build@.roots, root@).1 {
            actions.len() == 1 && (actions[0] matches Action::RunBuild { id: aid, root: r } && aid
                == id && r@ == root@)
        } else {
            match id {
                Some(i) => actions.len() == 1 && (actions[0] matches Action::AwaitBuild {
                    id: aid,
                    root: r,
                } && aid == i && r@ == root@),
                None => actions.len() == 0,
            }
        }
    }
}

/// What starting a build does: an unknown document is refused; otherwise a
/// root of the document's project goes through `build_root_step`.
pub open spec fn start_build_ok(
    pre: Session,
    post: Session,
    id: Option<u64>,
    uri: Uri,
    actions: Seq<Action>,
) -> bool {
    let nu = normalize_spec(uri@);
    &&& post.workspace@ == pre.workspace@
    &&& post.options@ == pre.options@
    &&& post.client_capabilities == pre.client_capabilities
    &&& post.shutdown_requested == pre.shutdown_requested
    &&& post.diagnostics@ == pre.diagnostics@
    &&& post.debouncer@ == pre.debouncer@
    &&& post.build@.positions == pre.build@.positions
    &&& if !has_doc(pre.workspace@.documents, nu) {
        &&& post.build@.roots == pre.build@.roots
        &&& match id {
            Some(i) => actions.len() == 1 && (actions[0] matches Action::Respond {
                id: rid,
                error,
            } && rid == i && error == Some(ErrorCode::InvalidRequest)),
            None => actions.len() == 0,
        }
    } else {
        exists|root: Uri| #[trigger] build_root_step(pre, post, id, root, actions)
    }
}

/// One forward-search argument with `%f` replaced by the produced file and
/// `%l` by the line number.
pub open spec fn fs_arg_spec(arg: Seq<char>, pdf: Seq<char>, line: u32) -> Seq<char> {
    subst_spec(subst_spec(arg, 'f', pdf), 'l', dec_rep(line as nat))
}

/// What a forward search does: without a configured executable and
/// arguments the result is `Unconfigured`; an unknown document is refused;
/// otherwise the tool is spawned on the root's produced file and the
/// requested line.
pub open spec fn forward_search_ok(
    pre: Session,
    post: Session,
    id: u64,
    uri: Uri,
    line: u32,
    actions: Seq<Action>,
) -> bool {
    let nu = normalize_spec(uri@);
    &&& same_state(&pre, &post)
    &&& if !has_doc(pre.workspace@.documents, nu) {
        actions.len() == 1 && (actions[0] matches Action::Respond { id: rid, error } && rid == id
            && error == Some(ErrorCode::InvalidRequest))
    } else {
        match (pre.options.forward_search_executable, pre.options.forward_search_args) {
            (Some(exe), Some(args)) => exists|root: Uri|
                {
                    &&& has_doc(pre.workspace@.documents, root@)
                    &&& actions.len() == 1
                    &&& (#[trigger] actions[0] matches Action::RunForwardSearch {
                        id: rid,
                        executable,
                        args: out_args,
                        root: r,
                    } && rid == id && executable@ == exe@ && r@ == root@ && out_args@.len()
                        == args@.len() && (forall|k: int|
                        0 <= k < args@.len() ==> out_args@[k]@ == fs_arg_spec(
                            args@[k]@,
                            pdf_path_spec(root_path_spec(root@)),
                            line,
                        )))
                },
            _ => actions.len() == 1 && (actions[0] matches Action::RespondForwardSearch {
                id: rid,
                status,
            } && rid == id && status == ForwardSearchStatus::Unconfigured),
        }
    }
}

/// What `did_save` does: a build starts when the settings build on save
/// and the document is known; the linter runs when the settings lint on
/// save. The workspace itself does not change.
pub open spec fn did_save_ok(
    pre: Session,
    post: Session,
    uri: Uri,
    actions: Seq<Action>,
) -> bool {
    let nu = normalize_spec(uri@);
    let lint = pre.options.chktex_on_open_and_save && has_doc(pre.workspace@.documents, nu);
    let build = pre.options.build_on_save && has_doc(pre.workspace@.documents, nu);
    &&& post.workspace@ == pre.workspace@
    &&& post.options@ == pre.options@
    &&& post.client_capabilities == pre.client_capabilities
    &&& post.shutdown_requested == pre.shutdown_requested
    &&& post.diagnostics@ == pre.diagnostics@
    &&& post.debouncer@ == pre.debouncer@
    &&& post.build@.positions == pre.build@.positions
    &&& (lint ==> actions.len() >= 1 && (actions[actions.len() - 1] matches Action::RunLinter {
        uri: u,
    } && u@ == nu))
    &&& if build && lint {
        exists|root: Uri| #[trigger] build_root_step(pre, post, None, root, actions.drop_last())
    } else if build {
        exists|root: Uri| #[trigger] build_root_step(pre, post, None, root, actions)
    } else {
        post.build@.roots == pre.build@.roots && actions.len() == (if lint {
            1int
        } else {
            0int
        })
    }
}

/// What `did_close` does: the URI leaves the viewport; its document stays.
pub open spec fn did_close_ok(pre: Session, post: Session, uri: Uri) -> bool {
    let nu = normalize_spec(uri@);
    &&& post.workspace@.documents == pre.workspace@.documents
    &&& post.workspace@.viewport == close_spec(pre.workspace@.viewport, nu)
    &&& post.options@ == pre.options@
    &&& post.client_capabilities == pre.client_capabilities
    &&& post.shutdown_requested == pre.shutdown_requested
    &&& post.diagnostics@ == pre.diagnostics@
    &&& post.debouncer@ == pre.debouncer@
    &&& post.build@ == pre.build@
}

/// What a configuration push does: a client that supports pulling is asked
/// for its configuration instead; a well-formed pushed configuration
/// replaces the settings and the watched directory follows it; a malformed
/// one leaves the settings alone, triggers no reparse, and warns the
/// client.
pub open spec fn did_change_configuration_ok(
    pre: Session,
    post: Session,
    settings: crate::options::ConfigValueView,
    actions: Seq<Action>,
) -> bool {
    &&& post.workspace@ == pre.workspace@
    &&& post.client_capabilities == pre.client_capabilities
    &&& post.shutdown_requested == pre.shutdown_requested
    &&& post.diagnostics@ == pre.diagnostics@
    &&& post.debouncer@ == pre.debouncer@
    &&& post.build@ == pre.build@
    &&& if pre.client_capabilities.pull_configuration {
        post.options@ == pre.options@ && actions.len() == 1 && actions[0] is PullConfiguration
    } else {
        match parse_options_spec(settings) {
            Some(o) => post.options@ == o && actions.len() == 1 && (actions[0]
                matches Action::WatchDirectory { path } && path@ == watched_dir_spec(o)),
            None => post.options@ == pre.options@ && actions.len() == 1 && actions[0]
                is ShowWarning,
        }
    }
}

/// The directory the file watcher observes: the configured auxiliary
/// directory, falling back to the current one.
pub open spec fn watched_dir_spec(o: crate::options::OptionsView) -> Seq<char> {
    match o.aux_directory {
        Some(p) => p,
        None => seq!['.'],
    }
}

impl Session {
    /// A fresh session with nothing open and default settings.
    pub fn new() -> (s: Session)
        ensures
            session_wf(&s),
            s.workspace@.documents.len() == 0,
            s.workspace@.viewport.len() == 0,
            s.options@ == crate::options::default_options(),
            !s.shutdown_requested,
            s.diagnostics@.len() == 0,
            s.debouncer@.pending is None,
            s.build@.roots.len() == 0,
            s.build@.positions.len() == 0,
    {
        Session {
            workspace: Workspace::new(),
            options: Options::new_default(),
            client_capabilities: ClientCapabilitiesInfo {
                push_configuration: false,
                pull_configuration: false,
            },
            shutdown_requested: false,
            diagnostics: DiagnosticManager::new(),
            debouncer: Debouncer::new(),
            build: BuildEngine::new(),
        }
    }

    /// The initialization handshake: the client's capabilities are
    /// recorded, and the startup work is handed back — distribution
    /// detection unless the startup options skipped it, registration for
    /// configuration pushes, and a configuration pull, each when the
    /// client supports it.
    pub fn initialize(
        &mut self,
        caps: ClientCapabilitiesInfo,
        skip_distro: bool,
    ) -> (r: (ServerCapabilitiesInfo, Vec<Action>))
        requires
            session_wf(old(self)),
        ensures
            session_wf(final(self)),
            final(self).client_capabilities == caps,
            final(self).workspace@ == old(self).workspace@,
            final(self).options@ == old(self).options@,
            final(self).shutdown_requested == old(self).shutdown_requested,
            final(self).diagnostics@ == old(self).diagnostics@,
            final(self).debouncer@ == old(self).debouncer@,
            final(self).build@ == old(self).build@,
            r.0.incremental_sync,
            ({
                let n1: int = if !skip_distro {
                    1
                } else {
                    0
                };
                let n2: int = if caps.push_configuration {
                    1
                } else {
                    0
                };
                let n3: int = if caps.pull_configuration {
                    1
                } else {
                    0
                };
                &&& r.1@.len() == n1 + n2 + n3
                &&& (!skip_distro ==> r.1@[0] is DetectDistribution)
                &&& (caps.push_configuration ==> r.1@[n1] is RegisterConfigCapability)
                &&& (caps.pull_configuration ==> r.1@[n1 + n2] is PullConfiguration)
            }),
    {
        self.client_capabilities = caps;
        let mut actions: Vec<Action> = Vec::new();
        if !skip_distro {
            actions.push(Action::DetectDistribution);
        }
        if caps.push_configuration {
            actions.push(Action::RegisterConfigCapability);
        }
        if caps.pull_configuration {
            actions.push(Action::PullConfiguration);
        }
        (capabilities(), actions)
    }

    /// Opens a document from the editor.
    pub fn did_open(
        &mut self,
        uri: Uri,
        language_id: Vec<char>,
        text: Vec<char>,
        now: u64,
    ) -> (actions: Vec<Action>)
        requires
            session_wf(old(self)),
        ensures
            session_wf(final(self)),
            did_open_ok(*old(self), *final(self), uri, language_id@, text@, now, actions@),
    {
        let mut nu = uri;
        normalize_uri(&mut nu);
        let language = match crate::document::language_by_id(&language_id) {
            Some(l) => l,
            None => Language::Latex,
        };
        self.workspace.open(nu.duplicate(), text, language);
        self.workspace.insert_viewport(&nu);
        self.diagnostics.push_syntax(&self.workspace, &nu);
        let snapshot = self.workspace.duplicate();
        self.debouncer.submit(snapshot, now, self.options.diagnostics_delay);
        let mut actions: Vec<Action> = Vec::new();
        if self.options.chktex_on_open_and_save {
            actions.push(Action::RunLinter { uri: nu });
        }
        actions
    }

    /// Applies an editor's incremental changes to a document.
    pub fn did_change(
        &mut self,
        uri: Uri,
        changes: Vec<TextChange>,
        now: u64,
    ) -> (actions: Vec<Action>)
        requires
            session_wf(old(self)),
        ensures
            session_wf(final(self)),
            did_change_ok(
                *old(self),
                *final(self),
                uri,
                changes@.map_values(|c: TextChange| c@),
                now,
                actions@,
            ),
    {
        let mut nu = uri;
        normalize_uri(&mut nu);
        let (old_text, language): (Vec<char>, Language) = match self.workspace.get(&nu) {
            Some(doc) => (doc.text.clone(), doc.language),
            None => {
                let mut actions: Vec<Action> = Vec::new();
                if is_file_uri_exec(&nu) {
                    actions.push(Action::LoadFile { path: uri_to_path(&nu) });
                }
                return actions;
            },
        };
        let mut new_text = old_text.clone();
        crate::text::apply_document_edit(&mut new_text, &changes);
        let divergent = crate::text::first_divergent_line(&old_text, &new_text);
        let line: u32 = if divergent >= u32::MAX as usize {
            u32::MAX
        } else {
            divergent as u32
        };
        self.workspace.open(nu.duplicate(), new_text, language);
        self.workspace.insert_viewport(&nu);
        self.build.set_position(&nu, Position { line, character: 0 });
        self.diagnostics.push_syntax(&self.workspace, &nu);
        let snapshot = self.workspace.duplicate();
        self.debouncer.submit(snapshot, now, self.options.diagnostics_delay);
        let mut actions: Vec<Action> = Vec::new();
        if self.options.chktex_on_edit {
            actions.push(Action::RunLinter { uri: nu });
        }
        actions
    }

    /// Starts a build for the project of `uri`, coalescing with a build
    /// already running for the same root.
    fn start_build(&mut self, id: Option<u64>, uri: &Uri) -> (actions: Vec<Action>)
        requires
            session_wf(old(self)),
        ensures
            session_wf(final(self)),
            start_build_ok(*old(self), *final(self), id, *uri, actions@),
    {
        let mut nu = uri.duplicate();
        normalize_uri(&mut nu);
        let mut actions: Vec<Action> = Vec::new();
        match self.workspace.get(&nu) {
            Some(_) => {},
            None => {
                match id {
                    Some(i) => {
                        actions.push(
                            Action::Respond { id: i, error: Some(ErrorCode::InvalidRequest) },
                        );
                    },
                    None => {},
                }
                return actions;
            },
        }
        let slice = self.workspace.slice(&nu);
        let root = slice.pick_root(&nu);
        proof {
            lemma_root_in_store(
                slice@.documents,
                self.workspace@.documents,
                root@,
                normalize_spec(uri@),
            );
        }
        if !is_file_uri_exec(&root) {
            // The root is not a local path: the build fails without a
            // compiler run and without taking the lock.
            match id {
                Some(i) => {
                    actions.push(
                        Action::RespondBuild { id: i, status: BuildStatus::Failure },
                    );
                },
                None => {},
            }
            proof {
                assert(build_root_step(*old(self), *self, id, root, actions@));
            }
            return actions;
        }
        let ghost chosen = root;
        let started = self.build.try_begin(&root);
        if started {
            actions.push(Action::RunBuild { id, root });
        } else {
            match id {
                Some(i) => {
                    actions.push(Action::AwaitBuild { id: i, root });
                },
                None => {},
            }
        }
        proof {
            assert(build_root_step(*old(self), *self, id, chosen, actions@));
        }
        actions
    }

    /// Handles a save: rebuild on save and lint on save, as configured.
    pub fn did_save(&mut self, uri: Uri) -> (actions: Vec<Action>)
        requires
            session_wf(old(self)),
        ensures
            session_wf(final(self)),
            did_save_ok(*old(self), *final(self), uri, actions@),
    {
        let ghost u0 = uri@;
        let mut nu = uri;
        normalize_uri(&mut nu);
        proof {
            crate::uri::lemma_normalize_idempotent(u0);
        }
        let known = match self.workspace.get(&nu) {
            Some(_) => true,
            None => false,
        };
        let built = self.options.build_on_save && known;
        let mut actions: Vec<Action> = Vec::new();
        if built {
            actions = self.start_build(None, &nu);
        }
        let ghost abuild = actions@;
        let linted = self.options.chktex_on_open_and_save && known;
        if linted {
            actions.push(Action::RunLinter { uri: nu });
        }
        proof {
            if built {
                let root = choose|root: Uri|
                    #[trigger] build_root_step(*old(self), *self, None, root, abuild);
                if linted {
                    assert(actions@.drop_last() =~= abuild);
                    assert(build_root_step(*old(self), *self, None, root, actions@.drop_last()));
                } else {
                    assert(actions@ =~= abuild);
                    assert(build_root_step(*old(self), *self, None, root, actions@));
                }
            }
        }
        actions
    }

    /// Closes a document: it leaves the viewport but stays in the store.
    pub fn did_close(&mut self, uri: Uri)
        requires
            session_wf(old(self)),
        ensures
            session_wf(final(self)),
            did_close_ok(*old(self), *final(self), uri),
    {
        let mut nu = uri;
        normalize_uri(&mut nu);
        self.workspace.close(&nu);
    }

    /// Takes a pushed configuration, or asks to pull one instead.
    pub fn did_change_configuration(&mut self, settings: &ConfigValue) -> (actions: Vec<Action>)
        requires
            session_wf(old(self)),
        ensures
            session_wf(final(self)),
            did_change_configuration_ok(*old(self), *final(self), settings@, actions@),
    {
        let mut actions: Vec<Action> = Vec::new();
        if self.client_capabilities.pull_configuration {
            actions.push(Action::PullConfiguration);
            return actions;
        }
        match crate::options::parse_options(settings) {
            Some(o) => {
                self.options = o;
                actions.push(Action::WatchDirectory { path: self.watched_dir() });
            },
            None => {
                actions.push(Action::ShowWarning);
            },
        }
        actions
    }

    /// The directory the file watcher observes under the current settings.
    fn watched_dir(&self) -> (r: Vec<char>)
        ensures
            r@ == watched_dir_spec(self.options@),
    {
        match &self.options.aux_directory {
            Some(p) => p.clone(),
            None => {
                let v = vec!['.'];
                proof {
                    assert(v@ =~= watched_dir_spec(self.options@));
                }
                v
            },
        }
    }

    /// Performs a forward search from a source line, or reports that none
    /// is configured.
    pub fn forward_search(&mut self, id: u64, uri: &Uri, line: u32) -> (actions: Vec<Action>)
        requires
            session_wf(old(self)),
        ensures
            session_wf(final(self)),
            forward_search_ok(*old(self), *final(self), id, *uri, line, actions@),
    {
        let mut nu = uri.duplicate();
        normalize_uri(&mut nu);
        let mut actions: Vec<Action> = Vec::new();
        match self.workspace.get(&nu) {
            Some(_) => {},
            None => {
                actions.push(Action::Respond { id, error: Some(ErrorCode::InvalidRequest) });
                return actions;
            },
        }
        let configured: bool = match (&self.options.forward_search_executable, &self.options.forward_search_args) {
            (Some(_), Some(_)) => true,
            _ => false,
        };
        if !configured {
            actions.push(
                Action::RespondForwardSearch { id, status: ForwardSearchStatus::Unconfigured },
            );
            return actions;
        }
        let slice = self.workspace.slice(&nu);
        let root = slice.pick_root(&nu);
        proof {
            lemma_root_in_store(
                slice@.documents,
                self.workspace@.documents,
                root@,
                normalize_spec(uri@),
            );
        }
        let rp = root_path(&root);
        let pdf = pdf_path(&rp);
        let line_chars = u32_chars(line);
        let exe: Vec<char> = match &self.options.forward_search_executable {
            Some(e) => e.clone(),
            None => Vec::new(),
        };
        let mut out_args: Vec<Vec<char>> = Vec::new();
        match &self.options.forward_search_args {
            Some(args) => {
                let mut k: usize = 0;
                while k < args.len()
                    invariant
                        k <= args@.len(),
                        out_args@.len() == k,
                        pdf@ == pdf_path_spec(root_path_spec(root@)),
                        line_chars@ == dec_rep(line as nat),
                        forall|j: int|
                            0 <= j < k ==> out_args@[j]@ == fs_arg_spec(
                                #[trigger] args@[j]@,
                                pdf_path_spec(root_path_spec(root@)),
                                line,
                            ),
                    decreases args.len() - k,
                {
                    let step1 = substitute(&args[k], 'f', &pdf);
                    let step2 = substitute(&step1, 'l', &line_chars);
                    out_args.push(step2);
                    k = k + 1;
                }
            },
            None => {},
        }
        actions.push(Action::RunForwardSearch { id, executable: exe, args: out_args, root });
        actions
    }

    /// Handles one request while the session is live.
    pub fn handle_request(&mut self, id: u64, request: Request) -> (actions: Vec<Action>)
        requires
            session_wf(old(self)),
        ensures
            session_wf(final(self)),
            handle_request_ok(*old(self), *final(self), id, request, actions@),
    {
        let mut actions: Vec<Action> = Vec::new();
        match request {
            Request::Feature { kind, uri, position } => {
                let mut nu = uri;
                normalize_uri(&mut nu);
                let track = matches!(kind, FeatureKind::Completion) || matches!(
                    kind,
                    FeatureKind::Hover,
                );
                if track {
                    match position {
                        Some(p) => {
                            self.build.set_position(&nu, p);
                        },
                        None => {},
                    }
                }
                let known = match self.workspace.get(&nu) {
                    Some(_) => true,
                    None => false,
                };
                if !known {
                    actions.push(Action::Respond { id, error: Some(ErrorCode::InvalidRequest) });
                } else {
                    let slice = self.workspace.slice(&nu);
                    actions.push(Action::Dispatch { id, kind, uri: nu, slice });
                }
            },
            Request::WorkspaceSymbol => {
                let snapshot = self.workspace.duplicate();
                actions.push(Action::DispatchWorkspaceSymbol { id, snapshot });
            },
            Request::ExecuteCommand { command } => {
                let snapshot = self.workspace.duplicate();
                actions.push(Action::DispatchCommand { id, command, snapshot });
            },
            Request::InlayHintResolve => {
                actions.push(Action::Respond { id, error: None });
            },
            Request::SemanticTokensRange { uri: _ } => {
                actions.push(Action::Respond { id, error: None });
            },
            Request::Build { uri } => {
                actions = self.start_build(Some(id), &uri);
            },
            Request::ForwardSearch { uri, line } => {
                actions = self.forward_search(id, &uri, line);
            },
            Request::Shutdown => {
                self.shutdown_requested = true;
                actions.push(Action::Respond { id, error: None });
            },
            Request::Unknown => {
                actions.push(Action::Respond { id, error: Some(ErrorCode::MethodNotFound) });
            },
        }
        actions
    }

    /// Handles one event of the internal channel.
    pub fn handle_internal(&mut self, event: InternalEvent, now: u64) -> (actions: Vec<Action>)
        requires
            session_wf(old(self)),
        ensures
            session_wf(final(self)),
            handle_internal_ok(*old(self), *final(self), event, now, actions@),
    {
        let mut actions: Vec<Action> = Vec::new();
        match event {
            InternalEvent::DistroResolved => {
                // The resolver itself lives outside this model; what changes
                // here is only the watched directory, because every stored
                // document's references derive from its text alone.
                actions.push(Action::WatchDirectory { path: self.watched_dir() });
            },
            InternalEvent::OptionsLoaded { options } => {
                self.options = options;
                actions.push(Action::WatchDirectory { path: self.watched_dir() });
            },
            InternalEvent::FileChanged { path, text } => {
                // A known document is replaced; an absent one is loaded.
                let mut nu = path_to_uri(&path);
                normalize_uri(&mut nu);
                let ext = crate::document::extension_of(&path);
                let language = crate::document::language_by_extension(&ext);
                self.workspace.open(nu.duplicate(), text, language);
                self.diagnostics.push_syntax(&self.workspace, &nu);
                let snapshot = self.workspace.duplicate();
                self.debouncer.submit(snapshot, now, self.options.diagnostics_delay);
            },
            InternalEvent::FileRemoved { path } => {
                let mut nu = path_to_uri(&path);
                normalize_uri(&mut nu);
                self.workspace.remove(&nu);
            },
        }
        actions
    }

    /// One step of the message loop: exactly one message is handled, the
    /// state advances, and the actions for the loop come back.
    pub fn process_message(&mut self, msg: Message, now: u64) -> (actions: Vec<Action>)
        requires
            session_wf(old(self)),
        ensures
            session_wf(final(self)),
            process_message_ok(*old(self), *final(self), msg, now, actions@),
    {
        let mut actions: Vec<Action> = Vec::new();
        match msg {
            Message::Request { id, request } => {
                if self.shutdown_requested {
                    actions.push(Action::Respond { id, error: Some(ErrorCode::InvalidRequest) });
                } else {
                    actions = self.handle_request(id, request);
                }
            },
            Message::Notification { notification } => {
                match notification {
                    Notification::Exit => {
                        let code: u8 = if self.shutdown_requested {
                            0
                        } else {
                            1
                        };
                        actions.push(Action::Exit { code });
                    },
                    Notification::Cancel => {},
                    Notification::DidChangeWatchedFiles => {},
                    Notification::Unknown => {},
                    Notification::DidChangeConfiguration { settings } => {
                        if !self.shutdown_requested {
                            actions = self.did_change_configuration(&settings);
                        }
                    },
                    Notification::DidOpen { uri, language_id, text } => {
                        if !self.shutdown_requested {
                            actions = self.did_open(uri, language_id, text, now);
                        }
                    },
                    Notification::DidChange { uri, changes } => {
                        if !self.shutdown_requested {
                            actions = self.did_change(uri, changes, now);
                        }
                    },
                    Notification::DidSave { uri } => {
                        if !self.shutdown_requested {
                            actions = self.did_save(uri);
                        }
                    },
                    Notification::DidClose { uri } => {
                        if !self.shutdown_requested {
                            self.did_close(uri);
                        }
                    },
                }
            },
            Message::Response { id: _ } => {},
            Message::Internal { event } => {
                if !self.shutdown_requested {
                    actions = self.handle_internal(event, now);
                }
            },
        }
        actions
    }

    /// Takes a finished compiler run: the produced log's errors go into
    /// the root's build buffer, the root's lock is released with the run's
    /// result, and a diagnostic publication is scheduled.
    pub fn build_finished(
        &mut self,
        root: &Uri,
        exit_zero: bool,
        cancelled: bool,
        log: &Vec<char>,
        now: u64,
    ) -> (status: BuildStatus)
        requires
            session_wf(old(self)),
        ensures
            session_wf(final(self)),
            status == status_of_exit_spec(exit_zero, cancelled),
            final(self).build@.roots == finish_spec(old(self).build@.roots, root@, status),
            final(self).build@.positions == old(self).build@.positions,
            final(self).diagnostics@ == set_buffer_spec(
                old(self).diagnostics@,
                root@,
                BufferSlot::Build,
                log_diags_from(log@, 0),
            ),
            final(self).debouncer@ == submit_spec(
                old(self).debouncer@,
                old(self).workspace@,
                now,
                old(self).options.diagnostics_delay,
            ),
            final(self).workspace@ == old(self).workspace@,
            final(self).options@ == old(self).options@,
            final(self).client_capabilities == old(self).client_capabilities,
            final(self).shutdown_requested == old(self).shutdown_requested,
    {
        self.diagnostics.absorb_build_log(root, log);
        let status = crate::build_engine::status_of_exit(exit_zero, cancelled);
        self.build.finish(root, status);
        let snapshot = self.workspace.duplicate();
        self.debouncer.submit(snapshot, now, self.options.diagnostics_delay);
        status
    }

    /// Takes the external linter's findings for one document and schedules
    /// a diagnostic publication.
    pub fn linter_finished(&mut self, uri: &Uri, findings: Vec<Diagnostic>, now: u64)
        requires
            session_wf(old(self)),
        ensures
            session_wf(final(self)),
            final(self).diagnostics@ == set_buffer_spec(
                old(self).diagnostics@,
                uri@,
                BufferSlot::Linter,
                findings@.map_values(|d: Diagnostic| d@),
            ),
            final(self).debouncer@ == submit_spec(
                old(self).debouncer@,
                old(self).workspace@,
                now,
                old(self).options.diagnostics_delay,
            ),
            final(self).workspace@ == old(self).workspace@,
            final(self).options@ == old(self).options@,
            final(self).client_capabilities == old(self).client_capabilities,
            final(self).shutdown_requested == old(self).shutdown_requested,
            final(self).build@ == old(self).build@,
    {
        self.diagnostics.set_linter(uri, findings);
        let snapshot = self.workspace.duplicate();
        self.debouncer.submit(snapshot, now, self.options.diagnostics_delay);
    }

    /// The debouncer's timer fired: when the quiet window has passed, the
    /// pending snapshot yields exactly one publication round, one entry per
    /// document that is not a build log.
    pub fn poll_diagnostics(&mut self, now: u64) -> (r: Option<Vec<Publication>>)
        requires
            session_wf(old(self)),
        ensures
            session_wf(final(self)),
            final(self).debouncer@ == poll_state_spec(old(self).debouncer@, now),
            final(self).workspace@ == old(self).workspace@,
            final(self).options@ == old(self).options@,
            final(self).client_capabilities == old(self).client_capabilities,
            final(self).shutdown_requested == old(self).shutdown_requested,
            final(self).diagnostics@ == old(self).diagnostics@,
            final(self).build@ == old(self).build@,
            match r {
                Some(pubs) => poll_emit_spec(old(self).debouncer@, now) is Some
                    && pubs@.map_values(|p: Publication| p@) == publish_all_spec(
                    old(self).diagnostics@,
                    poll_emit_spec(old(self).debouncer@, now).unwrap().documents,
                ),
                None => poll_emit_spec(old(self).debouncer@, now) is None,
            },
    {
        match self.debouncer.poll(now) {
            Some(ws) => Some(crate::diagnostics::publish_all(&self.diagnostics, &ws)),
            None => None,
        }
    }
}

/// What a request does when the session is live. Every request that names
/// an unknown document is answered with an `InvalidRequest` error; shutdown
/// only records that it was requested.
pub open spec fn handle_request_ok(
    pre: Session,
    post: Session,
    id: u64,
    request: Request,
    actions: Seq<Action>,
) -> bool {
    match request {
        Request::Feature { kind, uri, position } => {
            let nu = normalize_spec(uri@);
            &&& post.workspace@ == pre.workspace@
            &&& post.options@ == pre.options@
            &&& post.client_capabilities == pre.client_capabilities
            &&& post.shutdown_requested == pre.shutdown_requested
            &&& post.diagnostics@ == pre.diagnostics@
            &&& post.debouncer@ == pre.debouncer@
            &&& post.build@.roots == pre.build@.roots
            &&& if (kind == FeatureKind::Completion || kind == FeatureKind::Hover)
                && position is Some {
                spec_position(post.build@.positions, nu) == position && (forall|u: Seq<char>|
                    u != nu ==> spec_position(post.build@.positions, u) == spec_position(
                        pre.build@.positions,
                        u,
                    ))
            } else {
                post.build@.positions == pre.build@.positions
            }
            &&& if !has_doc(pre.workspace@.documents, nu) {
                actions.len() == 1 && (actions[0] matches Action::Respond { id: rid, error }
                    && rid == id && error == Some(ErrorCode::InvalidRequest))
            } else {
                actions.len() == 1 && (actions[0] matches Action::Dispatch {
                    id: rid,
                    kind: k2,
                    uri: u2,
                    slice,
                } && rid == id && k2 == kind && u2@ == nu && ws_wf(slice@)
                    && crate::workspace::slice_ok(slice@.documents, pre.workspace@.documents, nu))
            }
        },
        Request::WorkspaceSymbol => {
            &&& same_state(&pre, &post)
            &&& actions.len() == 1
            &&& (actions[0] matches Action::DispatchWorkspaceSymbol { id: rid, snapshot } && rid
                == id && snapshot@ == pre.workspace@)
        },
        Request::ExecuteCommand { command } => {
            &&& same_state(&pre, &post)
            &&& actions.len() == 1
            &&& (actions[0] matches Action::DispatchCommand { id: rid, command: c2, snapshot }
                && rid == id && c2@ == command@ && snapshot@ == pre.workspace@)
        },
        Request::InlayHintResolve => {
            &&& same_state(&pre, &post)
            &&& actions.len() == 1
            &&& (actions[0] matches Action::Respond { id: rid, error } && rid == id && error
                is None)
        },
        Request::SemanticTokensRange { uri } => {
            &&& same_state(&pre, &post)
            &&& actions.len() == 1
            &&& (actions[0] matches Action::Respond { id: rid, error } && rid == id && error
                is None)
        },
        Request::Build { uri } => start_build_ok(pre, post, Some(id), uri, actions),
        Request::ForwardSearch { uri, line } => forward_search_ok(
            pre,
            post,
            id,
            uri,
            line,
            actions,
        ),
        Request::Shutdown => {
            &&& post.shutdown_requested
            &&& post.workspace@ == pre.workspace@
            &&& post.options@ == pre.options@
            &&& post.client_capabilities == pre.client_capabilities
            &&& post.diagnostics@ == pre.diagnostics@
            &&& post.debouncer@ == pre.debouncer@
            &&& post.build@ == pre.build@
            &&& actions.len() == 1
            &&& (actions[0] matches Action::Respond { id: rid, error } && rid == id && error
                is None)
        },
        Request::Unknown => {
            &&& same_state(&pre, &post)
            &&& actions.len() == 1
            &&& (actions[0] matches Action::Respond { id: rid, error } && rid == id && error
                == Some(ErrorCode::MethodNotFound))
        },
    }
}

/// What an internal event does: a resolved distribution or fresh settings
/// re-aim the file watcher; a changed or created file replaces its
/// document, or loads it when none was present; a removed file drops it.
pub open spec fn handle_internal_ok(
    pre: Session,
    post: Session,
    event: InternalEvent,
    now: u64,
    actions: Seq<Action>,
) -> bool {
    match event {
        InternalEvent::DistroResolved => {
            &&& same_state(&pre, &post)
            &&& actions.len() == 1
            &&& (actions[0] matches Action::WatchDirectory { path } && path@ == watched_dir_spec(
                pre.options@,
            ))
        },
        InternalEvent::OptionsLoaded { options } => {
            &&& post.options@ == options@
            &&& post.workspace@ == pre.workspace@
            &&& post.client_capabilities == pre.client_capabilities
            &&& post.shutdown_requested == pre.shutdown_requested
            &&& post.diagnostics@ == pre.diagnostics@
            &&& post.debouncer@ == pre.debouncer@
            &&& post.build@ == pre.build@
            &&& actions.len() == 1
            &&& (actions[0] matches Action::WatchDirectory { path } && path@ == watched_dir_spec(
                options@,
            ))
        },
        InternalEvent::FileChanged { path, text } => {
            let nu = normalize_spec(uri_of_path(path@));
            let lang = crate::document::language_by_extension_spec(ext_of(path@));
            let d = crate::document::DocumentView {
                uri: nu,
                text: text@,
                language: lang,
                links: crate::document::doc_links_spec(text@, lang),
            };
            &&& post.workspace@.documents == open_spec(pre.workspace@.documents, d)
            &&& post.workspace@.viewport == pre.workspace@.viewport
            &&& post.diagnostics@ == set_buffer_spec(
                pre.diagnostics@,
                nu,
                BufferSlot::Syntax,
                doc_syntax_spec(d),
            )
            &&& post.debouncer@ == submit_spec(
                pre.debouncer@,
                post.workspace@,
                now,
                pre.options.diagnostics_delay,
            )
            &&& post.options@ == pre.options@
            &&& post.client_capabilities == pre.client_capabilities
            &&& post.shutdown_requested == pre.shutdown_requested
            &&& post.build@ == pre.build@
            &&& actions.len() == 0
        },
        InternalEvent::FileRemoved { path } => {
            let nu = normalize_spec(uri_of_path(path@));
            &&& post.workspace@.documents == remove_spec(pre.workspace@.documents, nu)
            &&& post.workspace@.viewport == pre.workspace@.viewport
            &&& post.options@ == pre.options@
            &&& post.client_capabilities == pre.client_capabilities
            &&& post.shutdown_requested == pre.shutdown_requested
            &&& post.diagnostics@ == pre.diagnostics@
            &&& post.debouncer@ == pre.debouncer@
            &&& post.build@ == pre.build@
            &&& actions.len() == 0
        },
    }
}

/// One step of the message loop. After shutdown was requested, no message
/// mutates the session: further requests are answered with an error,
/// notifications and internal events are dropped, and `exit` reports
/// status 0; without a preceding shutdown, `exit` reports status 1.
pub open spec fn process_message_ok(
    pre: Session,
    post: Session,
    msg: Message,
    now: u64,
    actions: Seq<Action>,
) -> bool {
    match msg {
        Message::Request { id, request } => {
            if pre.shutdown_requested {
                &&& same_state(&pre, &post)
                &&& actions.len() == 1
                &&& (actions[0] matches Action::Respond { id: rid, error } && rid == id && error
                    == Some(ErrorCode::InvalidRequest))
            } else {
                handle_request_ok(pre, post, id, request, actions)
            }
        },
        Message::Notification { notification } => {
            match notification {
                Notification::Exit => {
                    &&& same_state(&pre, &post)
                    &&& actions.len() == 1
                    &&& (actions[0] matches Action::Exit { code } && code == (if pre.shutdown_requested {
                        0u8
                    } else {
                        1u8
                    }))
                },
                Notification::Cancel => same_state(&pre, &post) && actions.len() == 0,
                Notification::DidChangeWatchedFiles => same_state(&pre, &post) && actions.len()
                    == 0,
                Notification::Unknown => same_state(&pre, &post) && actions.len() == 0,
                Notification::DidChangeConfiguration { settings } => if pre.shutdown_requested {
                    same_state(&pre, &post) && actions.len() == 0
                } else {
                    did_change_configuration_ok(pre, post, settings@, actions)
                },
                Notification::DidOpen { uri, language_id, text } => if pre.shutdown_requested {
                    same_state(&pre, &post) && actions.len() == 0
                } else {
                    did_open_ok(pre, post, uri, language_id@, text@, now, actions)
                },
                Notification::DidChange { uri, changes } => if pre.shutdown_requested {
                    same_state(&pre, &post) && actions.len() == 0
                } else {
                    did_change_ok(
                        pre,
                        post,
                        uri,
                        changes@.map_values(|c: TextChange| c@),
                        now,
                        actions,
                    )
                },
                Notification::DidSave { uri } => if pre.shutdown_requested {
                    same_state(&pre, &post) && actions.len() == 0
                } else {
                    did_save_ok(pre, post, uri, actions)
                },
                Notification::DidClose { uri } => if pre.shutdown_requested {
                    same_state(&pre, &post) && actions.len() == 0
                } else {
                    did_close_ok(pre, post, uri) && actions.len() == 0
                },
            }
        },
        Message::Response { id } => same_state(&pre, &post) && actions.len() == 0,
        Message::Internal { event } => if pre.shutdown_requested {
            same_state(&pre, &post) && actions.len() == 0
        } else {
            handle_internal_ok(pre, post, event, now, actions)
        },
    }
}

/// The members of a slice are documents of the store.
proof fn lemma_root_in_store(
    sl: Seq<crate::document::DocumentView>,
    store: Seq<crate::document::DocumentView>,
    root: Seq<char>,
    u: Seq<char>,
)
    requires
        crate::workspace::slice_ok(sl, store, u),
        has_doc(store, u),
        has_doc(sl, root) || root == u,
    ensures
        has_doc(store, root),
{
    if has_doc(sl, root) {
        crate::workspace::lemma_find_doc_bounds(sl, root, 0);
        let i = crate::workspace::doc_index(sl, root);
        assert(has_doc(store, sl[i].uri));
    }
}

/// The filesystem path a root's URI names: the path of a local URI, or
/// the URI's own text when it is not local (the external tool then
/// refuses it).
pub open spec fn root_path_spec(root: Seq<char>) -> Seq<char> {
    if is_file_uri(root) {
        path_of_uri(root)
    } else {
        root
    }
}

fn root_path(root: &Uri) -> (r: Vec<char>)
    ensures
        r@ == root_path_spec(root@),
{
    if is_file_uri_exec(root) {
        uri_to_path(root)
    } else {
        root.text.clone()
    }
}

} // verus!
