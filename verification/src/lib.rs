//! The pure core of a terminal tool for reading a change, and of its symbol readers:
//! which file belongs to which language namespace, the crude regex reader,
//! the single-file-component mask, terminal escape sequences, where the
//! cursor and the views go, the file tree and the group map, and the
//! arithmetic and text cutting the app's panes and lists are drawn by.
use vstd::prelude::*;

pub mod acts;
pub mod bytes;
pub mod captures;
pub mod command;
pub mod config;
pub mod fake;
pub mod fixtures;
pub mod forge;
pub mod help;
pub mod hints;
pub mod jumps;
pub mod keymap;
pub mod keys;
pub mod kinds;
pub mod launch;
pub mod lines;
pub mod lists;
pub mod map;
pub mod naive;
pub mod namespace;
pub mod order;
pub mod osc;
pub mod panes;
pub mod patterns;
pub mod plan;
pub mod peek;
pub mod prompts;
pub mod scroll;
pub mod search;
pub mod sfc;
pub mod strings;
pub mod stub;
pub mod summary;
pub mod symbols;
pub mod text;
pub mod tree;
pub mod width;

verus! {

} // verus!
