//! Casefile v1: records, diagnostics, the store's scanning and derivation
//! rules, and the workbench's navigation state, with their contracts.

pub mod activation;
pub mod board;
pub mod board_view;
pub mod browser;
pub mod browser_view;
pub mod change;
pub mod cli;
pub mod decision;
pub mod derived;
pub mod detail;
pub mod diagnostic;
pub mod draft;
pub mod frontmatter;
pub mod html;
pub mod index;
pub mod layout;
pub mod markdown;
pub mod order;
pub mod pattern;
pub mod progress;
pub mod progress_store;
pub mod project_map;
pub mod record;
pub mod rendering;
pub mod request;
pub mod review;
pub mod scanning;
pub mod schema;
pub mod server;
pub mod store;
pub mod strategy;
pub mod terminal;
pub mod terminal_markdown;
pub mod text;
pub mod tui;
pub mod tree;
pub mod validation;
pub mod verdict;
pub mod work_item;
pub mod workbench;

pub use draft::{parse_draft, render_draft, validate_draft};
pub use frontmatter::arrays as parse_metadata_arrays;
