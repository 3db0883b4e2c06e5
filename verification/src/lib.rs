//! Editor-side logic of a Vim emulation layer for a code editor.
pub mod auto_brace;
pub mod codec;
pub mod completion;
pub mod config_path;
pub mod config_types;
pub mod controller;
pub mod cursor;
pub mod dispatch;
pub mod effects;
pub mod document;
pub mod graphemes;
pub mod indent;
pub mod input;
pub mod keymap;
pub mod lines;
pub mod mapping_service;
pub mod multi_cursor;
pub mod navigation;
pub mod parser;
pub mod passthrough;
pub mod perf;
pub mod pipeline;
pub mod presets;
pub mod reconcile;
pub mod sandbox;
pub mod scroll;
pub mod status;
pub mod strs;
pub mod text;
pub mod types;
pub mod vimdebug;
