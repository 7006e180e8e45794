//! Placement and case-repair planning for a normalized SDK/CRT directory tree.
//!
//! A staged vendor payload is resolved into mappings (`resolve`), each mapping's
//! subtree is walked into a plan of directory, copy, link and progress steps
//! (`place`, `payload`), with headers deduplicated by their case-insensitive name
//! (`registry`). Once all headers are placed, `finalize` plans the links that let
//! every reference between headers resolve with its exact casing. The library
//! decides; its caller performs the filesystem work that the steps describe.
use vstd::prelude::*;

pub mod model;
pub mod names;
pub mod tree;
pub mod hash;
pub mod registry;
pub mod policy;
pub mod place;
pub mod resolve;
pub mod payload;
pub mod finalize;

verus! {

} // verus!
