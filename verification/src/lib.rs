//! Checklist-driven spec documents: the task tree of a document's
//! implementation plan, per-document summaries and their ordering, and the
//! state of the two-mode dashboard built on them.
//!
//! The library works on plain values. It reads no files and draws nothing:
//! what was read is handed to it as text, and what is to be written or shown
//! comes back as text, numbers and rows.
//!
//! - `text`: character sequences, the model of all text in this crate.
//! - `task`, `plan`, `writer`: the task tree, its parser and its writer.
//! - `status`, `summary`, `order`, `collection`: the summary of a document
//!   and the order of a collection.
//! - `display`, `dashboard`, `render`: the rows of the list, the state of the
//!   session and what a row shows.
//! - `names`, `creation`, `commands`, `format`, `templates`, `applications`,
//!   `config`, `listing`, `setup`: what the commands around the documents
//!   compute.

pub mod applications;
pub mod collection;
pub mod commands;
pub mod config;
pub mod creation;
pub mod dashboard;
pub mod display;
pub mod format;
pub mod listing;
pub mod names;
pub mod order;
pub mod plan;
pub mod render;
pub mod setup;
pub mod status;
pub mod summary;
pub mod task;
pub mod templates;
pub mod text;
pub mod writer;
