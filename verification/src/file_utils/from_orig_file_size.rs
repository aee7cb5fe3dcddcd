//! Counts and sizes that follow from the size of the file that a
//! container holds.

use vstd::prelude::*;
use crate::sbx_specs::{Version, block_size_of, data_size_of, uses_rs, ver_to_block_size,
    ver_to_data_size};
use crate::sbx_block::write_index::{block_index, write_index, layout_ok, layout_in_range,
    interleaved_index, read_index, lemma_write_index_in_group, lemma_write_index_burst_one,
    lemma_write_index_of_read_index};
use crate::file_utils::{ceil_div, ceil_div_u64, lemma_ceil_div};

verus! {

/// The number of data chunks that a file of `size` bytes makes.
pub open spec fn data_chunk_count(version: Version, size: int) -> int {
    ceil_div(size, data_size_of(version))
}

/// The number of blocks after the metadata blocks. With Reed-Solomon
/// sets every set counts in full, the last one too.
pub open spec fn data_block_count(
    version: Version,
    data_par_burst: Option<(usize, usize, usize)>,
    size: int,
) -> int {
    match data_par_burst {
        None => data_chunk_count(version, size),
        Some((data, parity, _)) => ceil_div(data_chunk_count(version, size), data as int) * (
        data + parity),
    }
}

/// The number of metadata blocks: one, and with Reed-Solomon sets one
/// more for each parity shard.
pub open spec fn meta_block_count(data_par_burst: Option<(usize, usize, usize)>) -> int {
    match data_par_burst {
        None => 1,
        Some((_, parity, _)) => 1 + parity,
    }
}

/// The number of blocks of a container.
pub open spec fn total_block_count(
    version: Version,
    data_par_burst: Option<(usize, usize, usize)>,
    size: int,
) -> int {
    meta_block_count(data_par_burst) + data_block_count(version, data_par_burst, size)
}

/// The last place in the output that one of the first `total` blocks
/// takes, or -1 where there is no block.
pub open spec fn max_write_index(total: int, data_par_burst: Option<(usize, usize, usize)>) -> int
    decreases total,
{
    if total <= 0 {
        -1
    } else {
        let before = max_write_index(total - 1, data_par_burst);
        let index = block_index(total - 1, data_par_burst);
        if index > before {
            index
        } else {
            before
        }
    }
}

/// The size of a container in bytes: room for every place up to the last
/// one that a block takes.
pub open spec fn container_size(
    version: Version,
    data_par_burst: Option<(usize, usize, usize)>,
    size: int,
) -> int {
    block_size_of(version) * (max_write_index(
        total_block_count(version, data_par_burst, size),
        data_par_burst,
    ) + 1)
}

/// The number of blocks in a group of interleaved sets, or 0 without
/// Reed-Solomon sets.
pub open spec fn group_size(data_par_burst: Option<(usize, usize, usize)>) -> int {
    match data_par_burst {
        None => 0,
        Some((data, parity, burst)) => (data + parity) * burst,
    }
}

/// Whether a version and the shape of its sets go together: a version
/// has Reed-Solomon sets exactly when their shape is given, and a set has a
/// data shard.
pub open spec fn shape_ok(version: Version, data_par_burst: Option<(usize, usize, usize)>) -> bool {
    match data_par_burst {
        None => !uses_rs(version),
        Some((data, parity, _)) => uses_rs(version) && data >= 1,
    }
}

/// Without interleaving every block stands at its sequence index, so the
/// blocks take the first places of the output.
pub proof fn lemma_max_write_index_plain(total: int, data_par_burst: Option<(usize, usize, usize)>)
    requires
        0 <= total,
        match data_par_burst {
            None => true,
            Some((data, parity, burst)) => data >= 1 && burst == 1,
        },
    ensures
        max_write_index(total, data_par_burst) == total - 1,
    decreases total,
{
    if total > 0 {
        lemma_max_write_index_plain(total - 1, data_par_burst);
        if let Some((data, parity, burst)) = data_par_burst {
            lemma_write_index_burst_one(total - 1, data as int, parity as int);
        }
    }
}

/// The blocks before a group stand before the group.
pub proof fn lemma_max_write_index_below(
    total: int,
    groups: int,
    data: int,
    parity: int,
    burst: int,
    data_par_burst: Option<(usize, usize, usize)>,
)
    requires
        data_par_burst matches Some((d, p, b)) && d == data && p == parity && b == burst,
        layout_ok(data, parity, burst),
        0 <= total <= groups * ((data + parity) * burst),
    ensures
        max_write_index(total, data_par_burst) < groups * ((data + parity) * burst),
    decreases total,
{
    if total > 0 {
        let group = (data + parity) * burst;
        lemma_max_write_index_below(total - 1, groups, data, parity, burst, data_par_burst);
        let s = total - 1;
        lemma_write_index_in_group(s, data, parity, burst);
        let q = s / group;
        assert((q + 1) * group <= groups * group) by (nonlinear_arith)
            requires
                q * group <= s,
                s < groups * group,
                group >= 1,
        ;
        assert(q * group + group == (q + 1) * group) by (nonlinear_arith);
    }
}

/// The last place that a block takes is in the same group as the last
/// block.
pub proof fn lemma_max_write_index_bounds(
    total: int,
    data: int,
    parity: int,
    burst: int,
    data_par_burst: Option<(usize, usize, usize)>,
)
    requires
        data_par_burst matches Some((d, p, b)) && d == data && p == parity && b == burst,
        layout_ok(data, parity, burst),
        1 <= total,
    ensures
        total - 1 - (total - 1) % ((data + parity) * burst) <= max_write_index(
            total,
            data_par_burst,
        ) < total - 1 - (total - 1) % ((data + parity) * burst) + (data + parity) * burst,
    decreases total,
{
    let group = (data + parity) * burst;
    let s = total - 1;
    lemma_write_index_in_group(s, data, parity, burst);
    vstd::arithmetic::div_mod::lemma_fundamental_div_mod(s, group);
    let q = s / group;
    assert(q * group == group * q) by (nonlinear_arith);
    assert(0 <= q) by (nonlinear_arith)
        requires
            0 <= s,
            s == group * q + s % group,
            0 <= s % group < group,
    ;
    assert(total <= (q + 1) * group) by (nonlinear_arith)
        requires
            s == group * q + s % group,
            s % group < group,
            total == s + 1,
    ;
    lemma_max_write_index_below(total, q + 1, data, parity, burst, data_par_burst);
    assert((q + 1) * group == q * group + group) by (nonlinear_arith);
}

/// Every block stands at or before the last place that a block takes.
pub proof fn lemma_max_write_index_is_max(
    total: int,
    s: int,
    data_par_burst: Option<(usize, usize, usize)>,
)
    requires
        0 <= s < total,
    ensures
        block_index(s, data_par_burst) <= max_write_index(total, data_par_burst),
    decreases total,
{
    if s < total - 1 {
        lemma_max_write_index_is_max(total - 1, s, data_par_burst);
    }
}

/// Without interleaving the blocks written are as many as the places
/// taken, and the last block stands at the last place.
pub proof fn lemma_blocks_written_plain(total: int, data: usize, parity: usize)
    requires
        1 <= total,
        1 <= data,
    ensures
        write_index(total - 1, data as int, parity as int, 1) + 1 == total,
        max_write_index(total, Some((data, parity, 1usize))) + 1 == total,
{
    lemma_write_index_burst_one(total - 1, data as int, parity as int);
    lemma_max_write_index_plain(total, Some((data, parity, 1usize)));
}

/// Where the blocks fill whole groups, no place is left out: the places
/// taken are as many as the blocks.
pub proof fn lemma_full_groups_leave_no_gap(
    total: int,
    data: int,
    parity: int,
    burst: int,
    data_par_burst: Option<(usize, usize, usize)>,
)
    requires
        data_par_burst matches Some((d, p, b)) && d == data && p == parity && b == burst,
        layout_ok(data, parity, burst),
        1 <= total,
        total % ((data + parity) * burst) == 0,
    ensures
        max_write_index(total, data_par_burst) + 1 == total,
{
    let group = (data + parity) * burst;
    let i = total - 1;
    lemma_write_index_of_read_index(i, data, parity, burst);
    let s = read_index(i, data, parity, burst);
    lemma_write_index_in_group(s, data, parity, burst);
    vstd::arithmetic::div_mod::lemma_fundamental_div_mod(total, group);
    let groups = total / group;
    assert(groups * group == group * groups) by (nonlinear_arith);
    assert(i == (groups - 1) * group + (group - 1)) by (nonlinear_arith)
        requires
            i == total - 1,
            total == group * groups,
    ;
    vstd::arithmetic::div_mod::lemma_fundamental_div_mod_converse(
        i,
        group,
        groups - 1,
        group - 1,
    );
    assert((groups - 1) * group + group == groups * group) by (nonlinear_arith);
    lemma_max_write_index_is_max(total, s, data_par_burst);
    lemma_max_write_index_below(total, groups, data, parity, burst, data_par_burst);
}

/// The last block stands at the last place of the blocks written exactly
/// when interleaving leaves it where it is: with `k` its place in its set
/// and `c` the place of its set in its group, when `k * (burst - 1)` is
/// `c * (data + parity - 1)`.
pub proof fn lemma_last_block_place(total: int, data: int, parity: int, burst: int)
    requires
        1 <= total,
        layout_ok(data, parity, burst),
    ensures
        ({
            let set = data + parity;
            let r = (total - 1) % (set * burst);
            (write_index(total - 1, data, parity, burst) + 1 == total) <==> ((r % set) * (burst
                - 1) == (r / set) * (set - 1))
        }),
{
    let set = data + parity;
    let group = set * burst;
    let s = total - 1;
    lemma_write_index_in_group(s, data, parity, burst);
    vstd::arithmetic::div_mod::lemma_fundamental_div_mod(s, group);
    let r = s % group;
    vstd::arithmetic::div_mod::lemma_fundamental_div_mod(r, set);
    let k = r % set;
    let c = r / set;
    assert((s / group) * group == group * (s / group)) by (nonlinear_arith);
    assert(k * (burst - 1) == k * burst - k) by (nonlinear_arith);
    assert(c * (set - 1) == set * c - c) by (nonlinear_arith);
}

/// The number of blocks after the metadata blocks, with every set counted
/// in full.
pub fn calc_data_block_count_exc_burst_gaps(
    version: Version,
    data_par_burst: Option<(usize, usize, usize)>,
    size: u64,
) -> (count: u64)
    requires
        shape_ok(version, data_par_burst),
        data_block_count(version, data_par_burst, size as int) <= u64::MAX,
    ensures
        count == data_block_count(version, data_par_burst, size as int),
{
    let chunk_size = ver_to_data_size(version) as u64;
    let data_chunks = ceil_div_u64(size, chunk_size);
    match data_par_burst {
        None => data_chunks,
        Some((data, parity, _)) => {
            let data_block_set_count = ceil_div_u64(data_chunks, data as u64);
            if data_block_set_count == 0 {
                proof {
                    assert(0 * (data + parity) == 0) by (nonlinear_arith);
                }
                return 0;
            }
            proof {
                assert(data + parity <= data_block_set_count * (data + parity))
                    by (nonlinear_arith)
                    requires
                        data_block_set_count >= 1,
                        data + parity >= 0,
                ;
            }
            let encoded_data_block_set_size = data as u64 + parity as u64;
            data_block_set_count * encoded_data_block_set_size
        },
    }
}

/// The number of blocks of a container, with every set counted in full.
pub fn calc_total_block_count_exc_burst_gaps(
    version: Version,
    data_par_burst: Option<(usize, usize, usize)>,
    size: u64,
) -> (count: u64)
    requires
        shape_ok(version, data_par_burst),
        total_block_count(version, data_par_burst, size as int) <= u64::MAX,
    ensures
        count == total_block_count(version, data_par_burst, size as int),
{
    let data_block_count = calc_data_block_count_exc_burst_gaps(version, data_par_burst, size);
    match data_par_burst {
        None => 1 + data_block_count,
        Some((_, parity, _)) => 1 + parity as u64 + data_block_count,
    }
}

/// The number of parity blocks: for each set, the last one too, as many
/// as a set has parity shards.
pub open spec fn parity_block_count(
    version: Version,
    data_par_burst: Option<(usize, usize, usize)>,
    size: int,
) -> int {
    match data_par_burst {
        None => 0,
        Some((data, parity, _)) => ceil_div(data_chunk_count(version, size), data as int)
            * parity,
    }
}

/// The blocks after the metadata blocks are the data blocks that the
/// file has chunks for, the data blocks of the last set that it has no
/// chunks for, and the parity blocks.
pub proof fn lemma_block_counts(
    version: Version,
    data_par_burst: Option<(usize, usize, usize)>,
    size: int,
)
    requires
        shape_ok(version, data_par_burst),
        0 <= size,
    ensures
        0 <= data_chunk_count(version, size) <= data_block_count(version, data_par_burst, size)
            - parity_block_count(version, data_par_burst, size),
        0 <= parity_block_count(version, data_par_burst, size),
        data_par_burst is None ==> data_block_count(version, data_par_burst, size)
            == data_chunk_count(version, size),
{
    lemma_ceil_div(size, data_size_of(version));
    if let Some((data, parity, _)) = data_par_burst {
        let chunks = data_chunk_count(version, size);
        let sets = ceil_div(chunks, data as int);
        lemma_ceil_div(chunks, data as int);
        assert(sets * (data + parity) == sets * data + sets * parity) by (nonlinear_arith);
        assert(0 <= sets * parity) by (nonlinear_arith)
            requires
                0 <= sets,
                0 <= parity,
        ;
    }
}

/// The number of metadata blocks: one, and with Reed-Solomon sets one
/// more for each parity shard.
pub fn calc_meta_block_count_exc_burst_gaps(
    version: Version,
    data_par_burst: Option<(usize, usize, usize)>,
) -> (count: u64)
    requires
        shape_ok(version, data_par_burst),
        meta_block_count(data_par_burst) <= u64::MAX,
    ensures
        count == meta_block_count(data_par_burst),
{
    match data_par_burst {
        None => 1,
        Some((_, parity, _)) => 1 + parity as u64,
    }
}

/// The number of data blocks that the file has chunks for, and the
/// number of parity blocks.
pub fn calc_data_only_and_parity_block_count_exc_burst_gaps(
    version: Version,
    data_par_burst: Option<(usize, usize, usize)>,
    size: u64,
) -> (counts: (u64, u64))
    requires
        shape_ok(version, data_par_burst),
        data_block_count(version, data_par_burst, size as int) <= u64::MAX,
    ensures
        counts.0 == data_chunk_count(version, size as int),
        counts.1 == parity_block_count(version, data_par_burst, size as int),
{
    proof {
        lemma_block_counts(version, data_par_burst, size as int);
    }
    let chunks = ceil_div_u64(size, ver_to_data_size(version) as u64);
    match data_par_burst {
        None => (chunks, 0),
        Some((data, parity, _)) => {
            let sets = ceil_div_u64(chunks, data as u64);
            proof {
                assert(sets * parity <= sets * (data + parity)) by (nonlinear_arith)
                    requires
                        0 <= sets,
                        0 <= data,
                        0 <= parity,
                ;
                assert(parity <= sets * parity || sets == 0) by (nonlinear_arith)
                    requires
                        0 <= sets,
                        0 <= parity,
                ;
            }
            if sets == 0 {
                proof {
                    assert(0 * parity == 0) by (nonlinear_arith);
                }
                (chunks, 0)
            } else {
                (chunks, sets * (parity as u64))
            }
        },
    }
}

/// The size of the container that holds a file of `size` bytes.
pub fn calc_container_size(
    version: Version,
    data_par_burst: Option<(usize, usize, usize)>,
    size: u64,
) -> (bytes: u64)
    requires
        shape_ok(version, data_par_burst),
        layout_in_range(data_par_burst),
        block_size_of(version) * (total_block_count(version, data_par_burst, size as int)
            + group_size(data_par_burst)) <= u64::MAX,
    ensures
        bytes == container_size(version, data_par_burst, size as int),
{
    let block_size = ver_to_block_size(version) as u64;
    proof {
        lemma_ceil_div(size as int, data_size_of(version));
        let total = total_block_count(version, data_par_burst, size as int);
        let group = group_size(data_par_burst);
        assert(0 <= group) by (nonlinear_arith)
            requires
                group == match data_par_burst {
                    None => 0,
                    Some((data, parity, burst)) => (data + parity) * burst,
                },
        ;
        if let Some((data, parity, burst)) = data_par_burst {
            lemma_ceil_div(data_chunk_count(version, size as int), data as int);
            assert(0 <= ceil_div(data_chunk_count(version, size as int), data as int) * (data
                + parity)) by (nonlinear_arith)
                requires
                    0 <= ceil_div(data_chunk_count(version, size as int), data as int),
                    0 <= data + parity,
            ;
        }
        assert(total + group <= block_size_of(version) * (total + group)) by (nonlinear_arith)
            requires
                block_size_of(version) >= 1,
                total + group >= 0,
        ;
    }
    let total = calc_total_block_count_exc_burst_gaps(version, data_par_burst, size);
    match data_par_burst {
        None => {
            proof {
                lemma_max_write_index_plain(total as int, data_par_burst);
            }
            block_size * total
        },
        Some((data, parity, burst)) => {
            proof {
                assert(data + parity <= u32::MAX) by (nonlinear_arith)
                    requires
                        (data + parity) * burst <= u32::MAX,
                        burst >= 1,
                        data >= 1,
                        parity >= 0,
                ;
            }
            let set = (data + parity) as u64;
            let group = set * (burst as u64);
            let last = total - 1;
            proof {
                assert(group >= 1) by (nonlinear_arith)
                    requires
                        group == set * burst,
                        set >= 1,
                        burst >= 1,
                ;
                vstd::arithmetic::div_mod::lemma_fundamental_div_mod(last as int, group as int);
                assert((last / group) * group == group * (last / group)) by (nonlinear_arith);
            }
            let first = (last / group) * group;
            proof {
                lemma_max_write_index_below(
                    first as int,
                    (last / group) as int,
                    data as int,
                    parity as int,
                    burst as int,
                    data_par_burst,
                );
                lemma_write_index_in_group(first as int, data as int, parity as int, burst as int);
                vstd::arithmetic::div_mod::lemma_fundamental_div_mod_converse(
                    first as int,
                    group as int,
                    (last / group) as int,
                    0,
                );
            }
            let mut last_index = interleaved_index(first, set, burst as u64);
            let mut seq_num = first + 1;
            while seq_num <= last
                invariant
                    first < seq_num <= total,
                    last == total - 1,
                    group == set * burst,
                    set == data + parity,
                    set >= 1,
                    burst >= 1,
                    group <= u32::MAX,
                    total + group <= u64::MAX,
                    data_par_burst == Some((data, parity, burst)),
                    last_index == max_write_index(seq_num as int, data_par_burst),
                decreases total - seq_num,
            {
                let index = interleaved_index(seq_num, set, burst as u64);
                if index > last_index {
                    last_index = index;
                }
                seq_num = seq_num + 1;
            }
            proof {
                lemma_max_write_index_bounds(
                    total as int,
                    data as int,
                    parity as int,
                    burst as int,
                    data_par_burst,
                );
                assert(block_size * (last_index + 1) <= block_size_of(version) * (total + group))
                    by (nonlinear_arith)
                    requires
                        block_size == block_size_of(version),
                        last_index + 1 <= total + group,
                        0 <= last_index,
                        block_size >= 1,
                ;
            }
            block_size * (last_index + 1)
        },
    }
}

} // verus!
