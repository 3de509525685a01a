//! Content synchronization and conflict-resolution engine.
//!
//! A local working copy of a content package exchanges edits with a remote
//! copy. Every file carries a linear, versioned edit history; concurrent
//! edits are classified into conflict shapes and, where possible, resolved
//! by a line-based three-way merge.

pub mod ast;
pub mod differ;
pub mod error;
pub mod history;
pub mod logtext;
pub mod merge;
pub mod js;
pub mod p1;
pub mod pathmap;
pub mod protocol;
pub mod reconcile;
pub mod store;
pub mod wasm;
pub mod worker;
pub mod workspace;
pub mod textutil;
pub mod track;
pub mod utils;

use vstd::prelude::*;

verus! {

/// Converts a version number to an index, clamping negatives to zero.
pub fn i32_to_usize(i: i32) -> (r: usize)
    ensures
        i < 0 ==> r == 0,
        i >= 0 ==> r == i as usize,
{
    if i < 0 {
        0
    } else {
        i as usize
    }
}

} // verus!
