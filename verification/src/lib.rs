//! Parsers for the Godot engine's text-based file formats.
//!
//! Three dialects are covered: project settings (`*.godot`), scenes
//! (`*.tscn`) and standalone resources (`*.tres`).  Each parser is a pure
//! transformation from an input string to a typed document; every function
//! is verified against a specification-level description of the grammar,
//! and the laws module proves the round-trip, determinism, ordering and
//! uniqueness properties of the design.

pub mod errors;
pub mod laws;
pub mod project_file;
pub mod project_parser;
pub mod ser_gen;
pub mod strmap;
pub mod tag_reader;
pub mod text;
pub mod tscn_file;
pub mod tscn_parser;
pub mod tscn_tres_parser;
pub mod value_parser;
pub mod values;
