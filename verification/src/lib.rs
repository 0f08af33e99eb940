//! Mail indexing helpers: address normalisation, tag reconciliation,
//! Maildir flag handling, index bookkeeping and the decision logic of the
//! terminal interface, each stated and proved with Verus.

pub mod text;
pub mod tag_set;
pub mod order;
pub mod diff;
pub mod index_maildir;
pub mod validation;
pub mod setup;
pub mod folder_tags;
pub mod address;
pub mod address_cache;
pub mod string_map;
pub mod index_metadata;
pub mod index_plan;
pub mod numfmt;
pub mod stats;
pub mod tag_edit;
pub mod index_core;
pub mod index_text;
pub mod search;
pub mod tui_view;
pub mod tui_filters;
pub mod tui_app;
pub mod explain_text;
pub mod structure;
pub mod sync_report;
