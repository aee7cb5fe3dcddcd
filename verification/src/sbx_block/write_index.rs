//! Where a block stands in a container: the map from a block's place in
//! the sequence of blocks to its place in the output.
//!
//! Blocks are grouped in sets of `data + parity` blocks, and `burst` sets
//! in a row make a group. Within a group the sets are interleaved: block `k`
//! of set `c` of the group stands at place `k * burst + c` of the group, so
//! that a run of `burst` damaged blocks takes one block of each set at most.

use vstd::prelude::*;
use vstd::arithmetic::div_mod::{lemma_fundamental_div_mod, lemma_fundamental_div_mod_converse};

verus! {

/// Whether shard counts and a burst level describe a layout: a set has a
/// data block, and a group has a set.
pub open spec fn layout_ok(data: int, parity: int, burst: int) -> bool {
    data >= 1 && parity >= 0 && burst >= 1
}

/// The place in the output of the block with sequence index `s`.
pub open spec fn write_index(s: int, data: int, parity: int, burst: int) -> int {
    let set = data + parity;
    let group = set * burst;
    let r = s % group;
    (s / group) * group + (r % set) * burst + r / set
}

/// The sequence index of the block at place `i` of the output.
pub open spec fn read_index(i: int, data: int, parity: int, burst: int) -> int {
    let set = data + parity;
    let group = set * burst;
    let j = i % group;
    (i / group) * group + (j % burst) * set + j / burst
}

/// The place in the output of the block with sequence index `s`: with no
/// interleaving, its sequence index.
pub open spec fn block_index(s: int, data_par_burst: Option<(usize, usize, usize)>) -> int {
    match data_par_burst {
        None => s,
        Some((data, parity, burst)) => write_index(s, data as int, parity as int, burst as int),
    }
}

/// Whether the numbers that describe a layout can be computed with: they
/// describe a layout, and a group has fewer than 2^32 blocks.
pub open spec fn layout_in_range(data_par_burst: Option<(usize, usize, usize)>) -> bool {
    match data_par_burst {
        None => true,
        Some((data, parity, burst)) => layout_ok(data as int, parity as int, burst as int) && (
        data + parity) * burst <= u32::MAX,
    }
}

/// Two numbers of a pair `(a, b)` with `a < m` and `b < n`, written as
/// `a * n + b`, can be read back by division.
proof fn lemma_pair(a: int, b: int, m: int, n: int)
    requires
        0 <= a < m,
        0 <= b < n,
    ensures
        0 <= a * n + b < m * n,
        (a * n + b) / n == a,
        (a * n + b) % n == b,
{
    assert(0 <= a * n + b < m * n) by (nonlinear_arith)
        requires
            0 <= a < m,
            0 <= b < n,
    ;
    lemma_fundamental_div_mod_converse(a * n + b, n, a, b);
}

/// A number below `m * n` splits into a quotient below `m` and a remainder
/// below `n`.
proof fn lemma_split(x: int, m: int, n: int)
    requires
        0 <= x < m * n,
        0 < n,
    ensures
        0 <= x / n < m,
        0 <= x % n < n,
        x == (x / n) * n + x % n,
{
    lemma_fundamental_div_mod(x, n);
    assert(0 <= x / n < m) by (nonlinear_arith)
        requires
            0 <= x < m * n,
            0 < n,
            x == n * (x / n) + (x % n),
            0 <= x % n < n,
    ;
    assert((x / n) * n == n * (x / n)) by (nonlinear_arith);
}

/// A block stays in its group: the place of the block with sequence index
/// `s` lies in the same run of `group` places as `s`, and the block at that
/// place is the one with sequence index `s`.
pub proof fn lemma_write_index_in_group(s: int, data: int, parity: int, burst: int)
    requires
        0 <= s,
        layout_ok(data, parity, burst),
    ensures
        ({
            let group = (data + parity) * burst;
            let i = write_index(s, data, parity, burst);
            &&& group >= 1
            &&& i / group == s / group
            &&& (s / group) * group <= i < (s / group) * group + group
            &&& (s / group) * group <= s < (s / group) * group + group
            &&& 0 <= i
            &&& read_index(i, data, parity, burst) == s
        }),
{
    let set = data + parity;
    let group = set * burst;
    assert(group >= 1) by (nonlinear_arith)
        requires
            set >= 1,
            burst >= 1,
            group == set * burst,
    ;
    let g = s / group;
    let r = s % group;
    lemma_fundamental_div_mod(s, group);
    assert(g * group == group * g) by (nonlinear_arith);
    assert(0 <= g) by (nonlinear_arith)
        requires
            0 <= s,
            group >= 1,
            s == group * g + r,
            0 <= r < group,
    ;
    assert(burst * set == set * burst) by (nonlinear_arith);
    lemma_split(r, burst, set);
    let c = r / set;
    let k = r % set;
    lemma_pair(k, c, set, burst);
    let j = k * burst + c;
    let i = write_index(s, data, parity, burst);
    assert(i == g * group + j);
    lemma_fundamental_div_mod_converse(i, group, g, j);
    assert(0 <= g * group) by (nonlinear_arith)
        requires
            0 <= g,
            group >= 1,
    ;
    lemma_pair(c, k, burst, set);
}

/// A place belongs to one block only: the block with sequence index
/// `read_index(i)` stands at place `i`.
pub proof fn lemma_write_index_of_read_index(i: int, data: int, parity: int, burst: int)
    requires
        0 <= i,
        layout_ok(data, parity, burst),
    ensures
        0 <= read_index(i, data, parity, burst),
        write_index(read_index(i, data, parity, burst), data, parity, burst) == i,
{
    let set = data + parity;
    let group = set * burst;
    assert(group >= 1) by (nonlinear_arith)
        requires
            set >= 1,
            burst >= 1,
            group == set * burst,
    ;
    let g = i / group;
    let j = i % group;
    lemma_fundamental_div_mod(i, group);
    assert(g * group == group * g) by (nonlinear_arith);
    assert(0 <= g) by (nonlinear_arith)
        requires
            0 <= i,
            group >= 1,
            i == group * g + j,
            0 <= j < group,
    ;
    lemma_split(j, set, burst);
    let k = j / burst;
    let c = j % burst;
    assert(burst * set == set * burst) by (nonlinear_arith);
    lemma_pair(c, k, burst, set);
    let r = c * set + k;
    let s = read_index(i, data, parity, burst);
    assert(s == g * group + r);
    lemma_fundamental_div_mod_converse(s, group, g, r);
    assert(0 <= g * group) by (nonlinear_arith)
        requires
            0 <= g,
            group >= 1,
    ;
}

/// No two blocks stand at the same place.
pub proof fn lemma_write_index_injective(s1: int, s2: int, data: int, parity: int, burst: int)
    requires
        0 <= s1,
        0 <= s2,
        layout_ok(data, parity, burst),
        write_index(s1, data, parity, burst) == write_index(s2, data, parity, burst),
    ensures
        s1 == s2,
{
    lemma_write_index_in_group(s1, data, parity, burst);
    lemma_write_index_in_group(s2, data, parity, burst);
}

/// Without interleaving a block stands at its sequence index.
pub proof fn lemma_write_index_burst_one(s: int, data: int, parity: int)
    requires
        0 <= s,
        data >= 1,
        parity >= 0,
    ensures
        write_index(s, data, parity, 1) == s,
{
    let set = data + parity;
    assert(set * 1 == set) by (nonlinear_arith);
    let r = s % set;
    lemma_fundamental_div_mod(s, set);
    lemma_fundamental_div_mod_converse(r, set, 0, r);
    assert((s / set) * set == set * (s / set)) by (nonlinear_arith);
    assert(r * 1 == r) by (nonlinear_arith);
}

/// The place of an interleaved block, computed in 64 bits.
pub fn interleaved_index(s: u64, set: u64, burst: u64) -> (index: u64)
    requires
        set >= 1,
        burst >= 1,
        set * burst <= u32::MAX,
        s + set * burst <= u64::MAX,
    ensures
        index == (s as int / (set * burst)) * (set * burst) + ((s as int % (set * burst)) % (
        set as int)) * burst + (s as int % (set * burst)) / (set as int),
        index < s + set * burst,
{
    proof {
        assert(1 <= set * burst) by (nonlinear_arith)
            requires
                set >= 1,
                burst >= 1,
        ;
    }
    let group: u64 = set * burst;
    let g = s / group;
    let r = s % group;
    let c = r / set;
    let k = r % set;
    proof {
        lemma_fundamental_div_mod(s as int, group as int);
        assert(g * group == group * g) by (nonlinear_arith);
        assert(burst * set == set * burst) by (nonlinear_arith);
        lemma_split(r as int, burst as int, set as int);
        lemma_pair(k as int, c as int, set as int, burst as int);
    }
    g * group + (k * burst + c)
}

/// The place in the output of the block with the given sequence index.
pub fn calc_data_block_write_index(
    seq_num: u32,
    data_par_burst: Option<(usize, usize, usize)>,
) -> (index: u64)
    requires
        layout_in_range(data_par_burst),
    ensures
        index == block_index(seq_num as int, data_par_burst),
{
    match data_par_burst {
        None => seq_num as u64,
        Some((data, parity, burst)) => {
            proof {
                assert(data + parity <= u32::MAX) by (nonlinear_arith)
                    requires
                        (data + parity) * burst <= u32::MAX,
                        burst >= 1,
                        data >= 1,
                        parity >= 0,
                ;
            }
            let set = (data + parity) as u64;
            interleaved_index(seq_num as u64, set, burst as u64)
        },
    }
}

} // verus!
