//! Parsing of the two descriptors of a game-engine project, the project
//! descriptor and the extension descriptor, and the text of the modules that
//! are generated from them.
//!
//! Both descriptors are line-oriented texts with `[section]` headers,
//! `key=value` lines, nested blocks, and object literals with nested
//! parentheses. The text primitives, the balanced splitter, the scalar
//! coercion and the section splitter are shared; each section kind has its
//! parser. Every function states what it returns over a mathematical model
//! of the text, a sequence of characters.

pub mod event;
pub mod gdextension;
pub mod generator;
pub mod input_actions;
pub mod keys;
pub mod layers;
pub mod mod_file;
pub mod projectgodot;
pub mod quoted;
pub mod scalar;
pub mod scenes;
pub mod sections;
pub mod sorting;
pub mod splitter;
pub mod strmap;
pub mod text;
pub mod utils;
