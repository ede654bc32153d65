//! Multi-file log tailing engine: incremental readers, a bounded combined
//! output buffer, a group tree with activity propagation and a windowed
//! file preview, together with the small filters the viewer applies.

pub mod colors;
pub mod config;
pub mod engine;
pub mod filter;
pub mod input;
pub mod layout;
pub mod levels;
pub mod lines;
pub mod preview;
pub mod reader;
pub mod theme;
pub mod view;

use vstd::prelude::*;

verus! {

/// `a + b`, or `u64::MAX` when the sum does not fit.
pub open spec fn sat_add_u64(a: u64, b: u64) -> u64 {
    if a + b > u64::MAX {
        u64::MAX
    } else {
        (a + b) as u64
    }
}

/// `a - b`, or 0 when `b` is larger.
pub open spec fn sat_sub_usize(a: usize, b: usize) -> usize {
    if a < b {
        0
    } else {
        (a - b) as usize
    }
}

/// `a + b`, or `usize::MAX` when the sum does not fit.
pub open spec fn sat_add_usize(a: usize, b: usize) -> usize {
    if a + b > usize::MAX {
        usize::MAX
    } else {
        (a + b) as usize
    }
}

} // verus!
