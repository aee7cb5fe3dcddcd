//! Counts that follow from the length of a file that is to be encoded.

use vstd::prelude::*;
use crate::sbx_specs::{Version, data_size_of, ver_to_data_size};
use crate::file_utils::{ceil_div, ceil_div_u64};

verus! {

/// The number of data chunks that a file of `len` bytes makes.
pub fn calc_data_chunk_count(version: Version, len: u64) -> (count: u64)
    ensures
        count == ceil_div(len as int, data_size_of(version)),
{
    ceil_div_u64(len, ver_to_data_size(version) as u64)
}

} // verus!
