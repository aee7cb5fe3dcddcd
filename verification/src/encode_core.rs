//! Encoding: from the bytes of a file to the bytes of its container.

use vstd::prelude::*;
use vstd::arithmetic::div_mod::{lemma_fundamental_div_mod, lemma_fundamental_div_mod_converse};
use crate::sbx_specs::{Version, ver_to_block_size, ver_to_data_size};
use crate::sbx_block::Error;
use crate::sbx_block::metadata::{Metadata, all_writable, fits, views};
use crate::sbx_block::write_index::{block_index, calc_data_block_write_index,
    lemma_write_index_in_group, lemma_write_index_of_read_index};
use crate::rs_codec::{rs_parity, shard_views, uniform};
use crate::rs_codec::encoder::{RSEncoder, padded, zero_shard};
use crate::file_utils::{ceil_div, ceil_div_u64, lemma_ceil_div};
use crate::file_utils::from_orig_file_size::{max_write_index, calc_container_size,
    lemma_max_write_index_is_max};
use crate::container::{Plan, zeros, chunk, make_block, make_meta_block, zero_bytes, write_at,
    lemma_block_image_parts, lemma_byte_place, lemma_layout_sizes};

verus! {

/// Whether a container can be made: the version and the shape of its sets
/// go together, a set has a parity shard and no more than 256 shards, the
/// sequence numbers fit 32 bits, and the container fits in memory.
pub open spec fn encodable(plan: Plan) -> bool {
    plan.uid.len() == 6 && plan.layout().ok()
}

/// Putting the next block of the sequence in its place takes the
/// container one block further.
proof fn lemma_place(plan: Plan, n: int, before: Seq<u8>, after: Seq<u8>)
    requires
        encodable(plan),
        0 <= n < plan.total_blocks(),
        before == plan.image_upto(n),
        plan.block(n).len() == plan.block_size(),
        ({
            let offset = block_index(n, plan.data_par_burst) * plan.block_size();
            &&& 0 <= offset
            &&& offset + plan.block_size() <= before.len()
            &&& after == before.take(offset) + plan.block(n) + before.skip(
                offset + plan.block_size(),
            )
        }),
    ensures
        after == plan.image_upto(n + 1),
{
    lemma_layout_sizes(plan.layout());
    let bs = plan.block_size();
    let w = block_index(n, plan.data_par_burst);
    let offset = w * bs;
    if let Some((data, parity, burst)) = plan.data_par_burst {
        lemma_write_index_in_group(n, data as int, parity as int, burst as int);
    }
    assert(plan.source_index(w) == n);
    assert(0 <= w);
    let goal = plan.image_upto(n + 1);
    assert(after.len() == goal.len());
    assert forall|x: int| 0 <= x < after.len() implies after[x] == goal[x] by {
        lemma_byte_place(x, w, bs);
        let i = x / bs;
        if offset <= x < offset + bs {
            assert(after[x] == plan.block(n)[x - offset]);
        } else {
            assert(after[x] == before[x]);
            assert(i != w);
            lemma_fundamental_div_mod(x, bs);
            assert(0 <= i) by (nonlinear_arith)
                requires
                    0 <= x,
                    0 < bs,
                    x == bs * i + x % bs,
                    0 <= x % bs < bs,
            ;
            if let Some((data, parity, burst)) = plan.data_par_burst {
                lemma_write_index_of_read_index(i, data as int, parity as int, burst as int);
            }
            assert(plan.source_index(i) != n);
        }
    }
    assert(after =~= goal);
}

/// Blocks that are not written leave the container as it is.
proof fn lemma_skip(plan: Plan, from: int, to: int)
    requires
        encodable(plan),
        0 <= from <= to,
        forall|s: int| from <= s < to ==> #[trigger] plan.block(s) == zeros(plan.block_size()),
    ensures
        plan.image_upto(from) == plan.image_upto(to),
{
    lemma_layout_sizes(plan.layout());
    let bs = plan.block_size();
    let a = plan.image_upto(from);
    let b = plan.image_upto(to);
    assert forall|x: int| 0 <= x < a.len() implies a[x] == b[x] by {
        let s = plan.source_index(x / bs);
        lemma_fundamental_div_mod(x, bs);
        if from <= s < to {
            assert(plan.block(s) == zeros(bs));
            assert(0 <= x % bs < bs);
        }
    }
    assert(a =~= b);
}

/// Puts the next block of the sequence in its place.
fn place_block(
    out: &mut Vec<u8>,
    Ghost(plan): Ghost<Plan>,
    version: Version,
    data_par_burst: Option<(usize, usize, usize)>,
    n: u64,
    block: &Vec<u8>,
)
    requires
        encodable(plan),
        plan.version == version,
        plan.data_par_burst == data_par_burst,
        n < plan.total_blocks(),
        old(out)@ == plan.image_upto(n as int),
        block@ == plan.block(n as int),
        block@.len() == plan.block_size(),
    ensures
        final(out)@ == plan.image_upto(n + 1),
{
    let block_size = ver_to_block_size(version);
    proof {
        lemma_layout_sizes(plan.layout());
        lemma_max_write_index_is_max(plan.total_blocks(), n as int, data_par_burst);
        let w = block_index(n as int, data_par_burst);
        let last = max_write_index(plan.total_blocks(), data_par_burst);
        if let Some((data, parity, burst)) = data_par_burst {
            lemma_write_index_in_group(n as int, data as int, parity as int, burst as int);
        }
        assert(0 <= w * block_size && w * block_size + block_size <= block_size * (last + 1)
            && w <= w * block_size) by (nonlinear_arith)
            requires
                0 <= w <= last,
                0 < block_size,
        ;
    }
    let place = calc_data_block_write_index(n as u32, data_par_burst);
    let offset = place as usize * block_size;
    let ghost before = out@;
    write_at(out, offset, block.as_slice());
    proof {
        lemma_place(plan, n as int, before, out@);
    }
}

/// The container of a file: its metadata block and the copies of it, its
/// data blocks, and the parity blocks of each set, every block in its place.
pub fn encode(
    version: Version,
    uid: &[u8; 6],
    data_par_burst: Option<(usize, usize, usize)>,
    records: Vec<Metadata>,
    input: &[u8],
) -> (res: Result<Vec<u8>, Error>)
    requires
        all_writable(views(records@)),
        encodable(
            Plan { version, uid: uid@, data_par_burst, records: views(records@), input: input@ },
        ),
    ensures
        ({
            let plan = Plan {
                version,
                uid: uid@,
                data_par_burst,
                records: views(records@),
                input: input@,
            };
            &&& fits(plan.records, plan.data_size()) ==> res is Ok && res->Ok_0@ == plan.image()
                && plan.parity_ok()
            &&& !fits(plan.records, plan.data_size()) ==> res == Err::<Vec<u8>, Error>(
                Error::TooMuchMetaData,
            )
        }),
{
    let ghost plan = Plan {
        version,
        uid: uid@,
        data_par_burst,
        records: views(records@),
        input: input@,
    };
    proof {
        lemma_layout_sizes(plan.layout());
    }
    let meta = make_meta_block(version, uid, records)?;
    let size = calc_container_size(version, data_par_burst, input.len() as u64) as usize;
    let mut out = zero_bytes(size);
    proof {
        assert(out@ =~= plan.image_upto(0));
    }
    let meta_count: u64 = match data_par_burst {
        None => 1,
        Some((_, parity, _)) => 1 + parity as u64,
    };
    let mut n: u64 = 0;
    while n < meta_count
        invariant
            n <= meta_count,
            meta_count == plan.meta_blocks(),
            encodable(plan),
            plan.version == version,
            plan.data_par_burst == data_par_burst,
            plan.total_blocks() >= plan.meta_blocks(),
            meta@ == plan.meta_image(),
            meta@.len() == plan.block_size(),
            out@ == plan.image_upto(n as int),
        decreases meta_count - n,
    {
        place_block(&mut out, Ghost(plan), version, data_par_burst, n, &meta);
        n = n + 1;
    }
    let data_size = ver_to_data_size(version);
    let chunks = ceil_div_u64(input.len() as u64, data_size as u64);
    match data_par_burst {
        None => {
            let mut c: u64 = 0;
            while c < chunks
                invariant
                    c <= chunks,
                    chunks == plan.chunks(),
                    data_size == plan.data_size(),
                    chunks * data_size >= input@.len(),
                    encodable(plan),
                    plan.version == version,
                    plan.uid == uid@,
                    plan.input == input@,
                    plan.data_par_burst == data_par_burst,
                    data_par_burst is None,
                    plan.total_blocks() == 1 + chunks,
                    out@ == plan.image_upto(1 + c),
                decreases chunks - c,
            {
                let block = data_block(Ghost(plan), version, uid, input, c, c);
                place_block(&mut out, Ghost(plan), version, data_par_burst, 1 + c, &block);
                c = c + 1;
            }
            Ok(out)
        },
        Some((data, parity, burst)) => {
            let set_size = (data + parity) as u64;
            let mut encoder = RSEncoder::new(version, data, parity);
            let mut set: u64 = 0;
            let mut slot: u64 = 0;
            proof {
                lemma_ceil_div(plan.chunks(), data as int);
                assert(0 * data + 0 == 0) by (nonlinear_arith);
                assert(0 * set_size + 0 == 0) by (nonlinear_arith);
                assert(encoder.buffered() =~= plan.set_data(0).take(0));
            }
            while set * (data as u64) + slot < chunks
                invariant
                    chunks == plan.chunks(),
                    data_size == plan.data_size(),
                    chunks * data_size >= input@.len(),
                    encodable(plan),
                    plan.version == version,
                    plan.uid == uid@,
                    plan.input == input@,
                    plan.data_par_burst == data_par_burst,
                    data_par_burst == Some((data, parity, burst)),
                    set_size == data + parity,
                    meta_count == plan.meta_blocks(),
                    slot < data,
                    set * data + slot <= chunks,
                    set * set_size + slot <= plan.total_blocks() - meta_count,
                    encoder.wf(),
                    encoder.version() == version,
                    encoder.data_shards() == data,
                    encoder.parity_shards() == parity,
                    encoder.buffered() == plan.set_data(set as int).take(slot as int),
                    out@ == plan.image_upto(meta_count + set * set_size + slot),
                    forall|t: int| 0 <= t < set ==> #[trigger] plan.set_parity_ok(t),
                decreases chunks - (set * data + slot),
            {
                let c = set * (data as u64) + slot;
                let j = set * set_size + slot;
                proof {
                    lemma_set_bounds(plan, set as int, slot as int);
                }
                let block = data_block(Ghost(plan), version, uid, input, c, j);
                place_block(&mut out, Ghost(plan), version, data_par_burst, meta_count + j, &block);
                let shard = vstd::slice::slice_subrange(block.as_slice(), 16, 16 + data_size);
                proof {
                    assert(shard@ =~= plan.shard(j as int));
                    assert(plan.set_data(set as int).take(slot as int).push(shard@)
                        =~= plan.set_data(set as int).take(slot + 1));
                }
                let parity_shards = encoder.encode(shard);
                slot = slot + 1;
                match parity_shards {
                    None => {},
                    Some(shards) => {
                        proof {
                            assert(plan.set_data(set as int).take(data as int) =~= plan.set_data(
                                set as int,
                            ));
                            assert((set + 1) * set_size == set * set_size + set_size)
                                by (nonlinear_arith);
                        }
                        place_parity(
                            &mut out,
                            Ghost(plan),
                            version,
                            uid,
                            data_par_burst,
                            set,
                            &shards,
                        );
                        proof {
                            assert((set + 1) * data + 0 == set * data + data) by (nonlinear_arith);
                            assert((set + 1) * set_size + 0 == set * set_size + data + parity)
                                by (nonlinear_arith)
                                requires
                                    set_size == data + parity,
                            ;
                            lemma_set_start_bounds(plan, set + 1);
                            assert(plan.set_data(set + 1).take(0) =~= Seq::<Seq<u8>>::empty());
                        }
                        set = set + 1;
                        slot = 0;
                    },
                }
            }
            let ghost left = encoder.buffered();
            match encoder.finish() {
                None => {
                    proof {
                        assert(left.len() == slot);
                        lemma_whole_sets(plan, set as int);
                        assert(plan.sets() == set);
                    }
                },
                Some(shards) => {
                    proof {
                        assert(left.len() == slot);
                        lemma_short_set(plan, set as int, slot as int);
                        assert(plan.sets() == set + 1);
                        assert(padded(left, data as int, data_size as int) =~= plan.set_data(
                            set as int,
                        )) by {
                            let full = plan.set_data(set as int);
                            let filled = padded(left, data as int, data_size as int);
                            assert(filled.len() == full.len());
                            assert forall|k: int| 0 <= k < full.len() implies filled[k]
                                == full[k] by {
                                if k >= slot {
                                    assert((set * data + k) * data_size >= input@.len())
                                        by (nonlinear_arith)
                                        requires
                                            set * data + k >= chunks,
                                            chunks * data_size >= input@.len(),
                                            data_size >= 0,
                                    ;
                                    assert(full[k] =~= zero_shard(data_size as int));
                                }
                            }
                        }
                    }
                    place_parity(&mut out, Ghost(plan), version, uid, data_par_burst, set, &shards);
                },
            }
            Ok(out)
        },
    }
}

/// Block `j` after the metadata blocks of a set that starts within the
/// file lies within the container, and is the data block of chunk
/// `set * data + slot`.
proof fn lemma_set_bounds(plan: Plan, set: int, slot: int)
    requires
        encodable(plan),
        plan.data_par_burst is Some,
        0 <= set,
        0 <= slot < plan.data_per_set(),
        set * plan.data_per_set() + slot < plan.chunks(),
    ensures
        ({
            let j = set * plan.set_size() + slot;
            &&& 0 <= j
            &&& j + plan.parity_per_set() + (plan.data_per_set() - slot) <= plan.total_blocks()
                - plan.meta_blocks()
            &&& j / plan.set_size() == set
            &&& j % plan.set_size() == slot
            &&& plan.is_data_slot(j)
            &&& plan.chunk_index(j) == set * plan.data_per_set() + slot
            &&& plan.emitted(j)
        }),
{
    let d = plan.data_per_set();
    let size = plan.set_size();
    let sets = ceil_div(plan.chunks(), d);
    lemma_ceil_div(plan.chunks(), d);
    lemma_layout_sizes(plan.layout());
    assert(set < sets) by (nonlinear_arith)
        requires
            set * d + slot < plan.chunks(),
            sets * d >= plan.chunks(),
            0 <= slot,
            d >= 1,
    ;
    assert((set + 1) * size <= sets * size) by (nonlinear_arith)
        requires
            set < sets,
            size >= 1,
    ;
    assert((set + 1) * size == set * size + size) by (nonlinear_arith);
    assert(0 <= set * size) by (nonlinear_arith)
        requires
            0 <= set,
            0 <= size,
    ;
    lemma_fundamental_div_mod_converse(set * size + slot, size, set, slot);
}

/// A set that starts where the chunks of the file have not ended lies
/// within the container.
proof fn lemma_set_start_bounds(plan: Plan, set: int)
    requires
        encodable(plan),
        plan.data_par_burst is Some,
        0 <= set,
        (set - 1) * plan.data_per_set() < plan.chunks(),
    ensures
        set * plan.data_per_set() <= plan.chunks() ==> set * plan.set_size()
            <= plan.total_blocks() - plan.meta_blocks(),
        set * plan.set_size() <= plan.total_blocks() - plan.meta_blocks(),
{
    let d = plan.data_per_set();
    let size = plan.set_size();
    let sets = ceil_div(plan.chunks(), d);
    lemma_ceil_div(plan.chunks(), d);
    lemma_layout_sizes(plan.layout());
    assert(set <= sets) by (nonlinear_arith)
        requires
            (set - 1) * d < plan.chunks(),
            sets * d >= plan.chunks(),
            d >= 1,
    ;
    assert(set * size <= sets * size) by (nonlinear_arith)
        requires
            set <= sets,
            size >= 1,
    ;
}

/// Where the chunks of the file fill whole sets, the sets are all the
/// blocks after the metadata blocks.
proof fn lemma_whole_sets(plan: Plan, set: int)
    requires
        encodable(plan),
        plan.data_par_burst is Some,
        0 <= set,
        set * plan.data_per_set() == plan.chunks(),
    ensures
        plan.meta_blocks() + set * plan.set_size() == plan.total_blocks(),
        plan.sets() == set,
{
    let d = plan.data_per_set();
    lemma_ceil_div(plan.chunks(), d);
    lemma_layout_sizes(plan.layout());
    assert(set * d == d * set) by (nonlinear_arith);
    lemma_fundamental_div_mod_converse(plan.chunks(), d, set, 0);
}

/// Where chunks of the file are left over after whole sets, they start
/// the last set: the data blocks of that set after them are not written,
/// and its parity blocks end the container.
proof fn lemma_short_set(plan: Plan, set: int, slot: int)
    requires
        encodable(plan),
        plan.data_par_burst is Some,
        0 <= set,
        0 < slot < plan.data_per_set(),
        set * plan.data_per_set() + slot == plan.chunks(),
    ensures
        plan.meta_blocks() + (set + 1) * plan.set_size() == plan.total_blocks(),
        plan.sets() == set + 1,
        plan.image_upto(plan.meta_blocks() + set * plan.set_size() + slot) == plan.image_upto(
            plan.meta_blocks() + set * plan.set_size() + plan.data_per_set(),
        ),
{
    let d = plan.data_per_set();
    let size = plan.set_size();
    let m = plan.meta_blocks();
    lemma_ceil_div(plan.chunks(), d);
    lemma_layout_sizes(plan.layout());
    assert(set * d == d * set) by (nonlinear_arith);
    lemma_fundamental_div_mod_converse(plan.chunks(), d, set, slot);
    assert(0 <= set * size) by (nonlinear_arith)
        requires
            0 <= set,
            0 <= size,
    ;
    assert forall|s: int| m + set * size + slot <= s < m + set * size + d implies #[trigger] plan.block(
        s,
    ) == zeros(plan.block_size()) by {
        let j = s - m;
        let k = j - set * size;
        lemma_fundamental_div_mod_converse(j, size, set, k);
        assert(plan.chunk_index(j) == set * d + k);
    }
    lemma_skip(plan, m + set * size + slot, m + set * size + d);
}

/// The data block of chunk `c`, which is block `j` after the metadata
/// blocks.
fn data_block(
    Ghost(plan): Ghost<Plan>,
    version: Version,
    uid: &[u8; 6],
    input: &[u8],
    c: u64,
    j: u64,
) -> (block: Vec<u8>)
    requires
        encodable(plan),
        plan.version == version,
        plan.uid == uid@,
        plan.input == input@,
        c < plan.chunks(),
        j < plan.total_blocks() - plan.meta_blocks(),
        plan.is_data_slot(j as int),
        plan.chunk_index(j as int) == c,
    ensures
        block@ == plan.block(plan.meta_blocks() + j),
        block@.len() == plan.block_size(),
        block@.subrange(16, 16 + plan.data_size()) == plan.shard(j as int),
{
    let data_size = ver_to_data_size(version);
    proof {
        lemma_layout_sizes(plan.layout());
        lemma_ceil_div(input@.len() as int, data_size as int);
        lemma_fundamental_div_mod(input@.len() as int, data_size as int);
        let q = input@.len() as int / (data_size as int);
        let r = input@.len() as int % (data_size as int);
        let extra = if r == 0 {
            0int
        } else {
            1int
        };
        assert(c * data_size < input@.len() && c <= c * data_size) by (nonlinear_arith)
            requires
                0 <= c < q + extra,
                data_size >= 1,
                extra == if r == 0 {
                    0int
                } else {
                    1int
                },
                input@.len() == data_size * q + r,
                0 <= r < data_size,
        ;
    }
    let len = input.len();
    let start = c as usize * data_size;
    let end = if len - start < data_size {
        len
    } else {
        start + data_size
    };
    let piece = vstd::slice::slice_subrange(input, start, end);
    let block = make_block(version, uid, (j + 1) as u32, piece);
    proof {
        let padded = piece@ + zeros(data_size - piece@.len());
        assert(padded =~= chunk(input@, c as int, data_size as int));
        lemma_block_image_parts(version, uid@, (j + 1) as u32, padded);
        assert(block@.subrange(16, 16 + data_size) =~= block@.skip(16));
    }
    block
}

/// Puts the parity blocks of a set in their places.
fn place_parity(
    out: &mut Vec<u8>,
    Ghost(plan): Ghost<Plan>,
    version: Version,
    uid: &[u8; 6],
    data_par_burst: Option<(usize, usize, usize)>,
    set: u64,
    shards: &Vec<Vec<u8>>,
)
    requires
        encodable(plan),
        plan.version == version,
        plan.uid == uid@,
        plan.data_par_burst == data_par_burst,
        data_par_burst is Some,
        plan.meta_blocks() + (set + 1) * plan.set_size() <= plan.total_blocks(),
        shards@.len() == plan.parity_per_set(),
        uniform(shard_views(shards@), plan.data_size()),
        shard_views(shards@) == rs_parity(plan.set_data(set as int), plan.parity_per_set()),
        old(out)@ == plan.image_upto(
            plan.meta_blocks() + set * plan.set_size() + plan.data_per_set(),
        ),
    ensures
        final(out)@ == plan.image_upto(plan.meta_blocks() + (set + 1) * plan.set_size()),
{
    let (data, parity, burst) = match data_par_burst {
        Some(shape) => shape,
        None => vstd::pervasive::unreached(),
    };
    let set_size = (data + parity) as u64;
    let meta_count = 1 + parity as u64;
    proof {
        lemma_layout_sizes(plan.layout());
        assert((set + 1) * set_size == set * set_size + set_size) by (nonlinear_arith);
        assert(0 <= set * set_size) by (nonlinear_arith)
            requires
                0 <= set,
                0 <= set_size,
        ;
    }
    let start = set * set_size + data as u64;
    let mut k: usize = 0;
    while k < parity
        invariant
            k <= parity,
            encodable(plan),
            plan.version == version,
            plan.uid == uid@,
            plan.data_par_burst == data_par_burst,
            data_par_burst == Some((data, parity, burst)),
            set_size == data + parity,
            meta_count == plan.meta_blocks(),
            start == set * set_size + data,
            0 <= set * set_size,
            plan.meta_blocks() + start + parity <= plan.total_blocks(),
            shards@.len() == parity,
            uniform(shard_views(shards@), plan.data_size()),
            shard_views(shards@) == rs_parity(plan.set_data(set as int), parity as int),
            out@ == plan.image_upto(meta_count + start + k),
        decreases parity - k,
    {
        let j = start + k as u64;
        proof {
            lemma_fundamental_div_mod_converse(j as int, set_size as int, set as int, data + k);
            assert(shard_views(shards@)[k as int] == shards@[k as int]@);
            assert(shards@[k as int]@ + zeros(0) =~= shards@[k as int]@);
        }
        let block = make_block(version, uid, (j + 1) as u32, shards[k].as_slice());
        place_block(out, Ghost(plan), version, data_par_burst, meta_count + j, &block);
        k = k + 1;
    }
}

} // verus!
