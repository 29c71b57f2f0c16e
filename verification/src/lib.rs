//! Editing the YAML frontmatter of markdown notes: tags, aliases and the
//! identifier, with every other field carried through untouched.
//!
//! - `commands` holds the six operations on the text of a note.
//! - `transform` holds the same edits on a parsed frontmatter.
//! - `frontmatter` reads and writes a frontmatter; `document` finds the block
//!   in a note and lays out the block that is written back.
//! - `yaml` is the boundary to `serde_yaml`, `text` works on characters and
//!   lines, and `cli` holds the commands of the tool.

pub mod cli;
pub mod commands;
pub mod document;
pub mod frontmatter;
pub mod text;
pub mod transform;
pub mod yaml;
