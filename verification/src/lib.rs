//! Core of a language server for a typesetting language: a workspace of
//! documents linked by inclusion edges, a debounced diagnostic pipeline, a
//! per-root build coordinator, and the session state machine that routes
//! protocol traffic between them.

pub mod build_engine;
pub mod completion;
pub mod debounce;
pub mod diagnostics;
pub mod document;
pub mod options;
pub mod session;
pub mod text;
pub mod uri;
pub mod workspace;
