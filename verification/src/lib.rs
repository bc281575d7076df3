//! Maisou's search core: policies, the indexing funnel, file-name and
//! content search, the runtime index and the resource guard.
pub mod text;
pub mod json_fields;
pub mod control_center;
pub mod global_shortcut;
pub mod parsers;
pub mod indexer;
pub mod search;
pub mod content_store;
pub mod runtime_index;
pub mod commands;
