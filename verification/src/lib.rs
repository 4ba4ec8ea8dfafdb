//! The rules of the Papers document viewer.
//!
//! * PDF documents: [`pdf_mutation`] changes the pages of a document, over
//!   [`pdf_document`]; [`page_edit_history`] undoes and redoes such changes, and
//!   [`page_edit_timeline`] states what that does to the files.
//! * The chat: [`sidebar_chat`] holds the talk, [`chat_context`] picks the pages
//!   that go with a question, [`ollama`] talks to the server in [`json`], and
//!   [`chat_text`] reads the answer.
//! * The thumbnails: [`sidebar_thumbnails`], over [`thumbnail_cache`].
//! * The window: [`window`] and its tabs, each a [`tab`], with the actions in
//!   [`window_actions`]. [`document_actions`] lists the actions of a document,
//!   [`document_view`] holds their rules, and [`document_effects`] says what each
//!   of them does.
//! * [`text`], [`ordering`] and [`page_set`] serve the others.

pub mod chat_context;
pub mod chat_text;
pub mod document_actions;
pub mod document_effects;
pub mod document_view;
pub mod json;
pub mod ollama;
pub mod ordering;
pub mod page_edit_history;
pub mod page_edit_timeline;
pub mod page_set;
pub mod pdf_document;
pub mod pdf_mutation;
pub mod sidebar_chat;
pub mod sidebar_thumbnails;
pub mod tab;
pub mod text;
pub mod thumbnail_cache;
pub mod window;
pub mod window_actions;
