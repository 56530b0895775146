//! Core of a terminal e-book reader: the ingestion and layout pipeline
//! that turns a chapter's raw markup into renderable content blocks,
//! resolves embedded image references against the book's resource
//! table, wraps text to a viewport width, and tracks the reading
//! session's navigation state.
//!
//! - `content`: the block data model and its mathematical view.
//! - `processor`: the structural markup parser with its fallback path.
//! - `resolver`: relative-path resolution and resource-table lookup.
//! - `renderer`: greedy word-wrap and chapter line composition.
//! - `app`: the navigation state machine over fetched chapters.
//! - `parser`, `ui`: the invocation arguments and user actions as
//!   plain values.
//!
//! Opening the book container, terminal drawing and input, and all
//! file I/O stay outside: callers hand the functions here plain values
//! and take plain values back.

pub mod app;
pub mod content;
pub mod renderer;
pub mod resolver;
pub mod processor;
pub mod parser;
pub mod text;
pub mod ui;
