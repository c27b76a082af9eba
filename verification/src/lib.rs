//! Rendering of untrusted HTML fragments as plain, terminal-readable text, and
//! what a reader of news items builds on it.
//!
//! A fragment is parsed and read into a tree of [`markup::Node`]s
//! ([`fragment`], [`outline`]), the tree is walked in document order into one
//! text ([`render`]), a small fixed set of entities is decoded ([`entities`]),
//! and the text is cut into trimmed, non-empty lines ([`lines`]). Around this
//! stand the lines shown of an item ([`story`], [`timestamp`]), the request for
//! a summary of a page ([`summary`]) and the verdict of the health checks
//! ([`doctor`]).

pub mod doctor;
pub mod entities;
pub mod fragment;
pub mod lines;
pub mod markup;
pub mod outline;
pub mod render;
pub mod story;
pub mod summary;
pub mod text;
pub mod timestamp;
