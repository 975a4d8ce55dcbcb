//! Core engine for a workspace ("dimension") manager: a persisted list of
//! dimensions with tab templates, a navigation and mode state machine over
//! them, fuzzy search across dimension and tab names, and directory-path
//! completion. All decisions are made here over plain values; the thin
//! surrounding binary performs terminal and multiplexer I/O.

pub mod app;
pub mod codec;
pub mod dimension;
pub mod path_completion;
pub mod search;
pub mod session;
pub mod strutil;
pub mod update;
