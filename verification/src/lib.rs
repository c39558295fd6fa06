//! Editing and bookkeeping logic of Hane's editor view: UTF-8/UTF-16 offset
//! conversion, grapheme-aware text fields, work-folder path handling and the
//! chunked block-metadata index used for height bookkeeping.

use vstd::prelude::*;

pub mod utf;
pub mod strings;
pub mod grapheme;
pub mod fenwick;
pub mod height_blocks;
pub mod text_field;
pub mod paths;
pub mod layout;
pub mod labels;
pub mod sidebar_tree;
pub mod parse_jobs;

verus! {

} // verus!
