//! Keeps a plain-text project plan in step with an issue tracker.
//!
//! A project document lists tasks as bullets that point at task files; each
//! task file holds YAML front matter and markdown. `parser` reads both
//! formats, `yaml` models front matter, and `sync` decides, task by task,
//! whether to create, update or skip an issue and how the files change.
pub mod error;
pub mod parser;
pub mod sync;
pub mod text;
pub mod types;
pub mod yaml;
