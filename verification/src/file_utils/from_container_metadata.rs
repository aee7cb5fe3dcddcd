//! Counts that follow from the length of a container.

use vstd::prelude::*;
use crate::sbx_specs::{Version, block_size_of, ver_to_block_size};
use crate::file_utils::{ceil_div, ceil_div_u64};

verus! {

/// The number of blocks that a container of `len` bytes has room for.
pub fn calc_total_block_count(version: Version, len: u64) -> (count: u64)
    ensures
        count == ceil_div(len as int, block_size_of(version)),
{
    ceil_div_u64(len, ver_to_block_size(version) as u64)
}

} // verus!
