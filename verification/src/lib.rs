//! Parsing and rendering of amendments to legal acts: numbers of articles and items,
//! paths to the amended places, and the graph of changes.
use vstd::prelude::*;

pub mod text;
pub mod error;
pub mod order;
pub mod objects;
pub mod outputs;
pub mod change_path;
pub mod change_path_order;
pub mod json_path_creator;
pub mod change_action;
pub mod parsers;
pub mod changes_graph;
pub mod format_extensions;
pub mod actualizer;

verus! {

} // verus!

