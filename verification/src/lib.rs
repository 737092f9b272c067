//! Semantic call-tree comparison.
pub mod append;
pub mod diff;
pub mod digest;
pub mod callee_laws;
pub mod diff_laws;
pub mod engine;
pub mod entries;
pub mod files;
pub mod findings;
pub mod git;
pub mod graph;
pub mod json;
pub mod label_laws;
pub mod language;
pub mod layout_laws;
pub mod line_laws;
pub mod lists;
pub mod model;
pub mod names;
pub mod ocaml;
pub mod pair_laws;
pub mod path_laws;
pub mod paths;
pub mod plans;
pub mod rail_laws;
pub mod reach;
pub mod render;
pub mod render_laws;
pub mod report_laws;
pub mod resolve_laws;
pub mod roots;
pub mod rust;
pub mod select_laws;
pub mod selection;
pub mod sets;
pub mod shown_laws;
pub mod site_laws;
pub mod source;
pub mod spans;
pub mod text;
pub mod tree_laws;
pub mod trees;
