//! Repair: rebuilding the blocks of a container that are not there from
//! those that are.

use vstd::prelude::*;
use vstd::arithmetic::div_mod::{lemma_fundamental_div_mod, lemma_fundamental_div_mod_converse};
use crate::sbx_specs::{Version, ver_to_block_size, ver_to_data_size};
use crate::sbx_block::BlockType;
use crate::sbx_block::write_index::{block_index, calc_data_block_write_index,
    lemma_write_index_of_read_index};
use crate::rs_codec::{RSError, RSErrorView, rs_reconstructed, shard_views, uniform,
    count_present, agree_where_present, is_codeword};
use crate::rs_codec::repairer::RSRepairer;
use crate::file_utils::{ceil_div, ceil_div_u64};
use crate::container::{Layout, Plan, is_block, check_block, zeros, chunk, block_image, make_block,
    place_of, write_at, zero_bytes, lemma_block_image_parts, lemma_byte_place,
    lemma_layout_sizes, lemma_set_slot, lemma_chunk_block, lemma_place_in_range};
use crate::rs_codec::rs_parity;
use crate::sbx_block::metadata::{fits, region_bytes};
use crate::encode_core::encodable;
use crate::decode_core::{data_blocks_ok, decoded, lemma_data_block};

verus! {

/// The sequence number in the header of block `s` of the sequence: 0 for
/// the metadata block and its copies, and from 1 on after them.
pub open spec fn seq_num_of(layout: Layout, s: int) -> u32 {
    if s < layout.meta_blocks() {
        0
    } else {
        (s - layout.meta_blocks() + 1) as u32
    }
}

/// Whether a container holds, at the place of block `s` of the sequence,
/// a block of its version and file UID with the sequence number of `s`.
pub open spec fn block_there(layout: Layout, uid: Seq<u8>, container: Seq<u8>, s: int) -> bool {
    is_block(layout.place(container, s), layout.version, uid, seq_num_of(layout, s))
}

/// Whether block `j` after the metadata blocks counts as there: a block
/// that is never written does, as a shard of zero bytes.
pub open spec fn present(layout: Layout, uid: Seq<u8>, container: Seq<u8>, j: int) -> bool {
    !layout.emitted(j) || block_there(layout, uid, container, layout.meta_blocks() + j)
}

/// The shard that block `j` after the metadata blocks gives: its data
/// region where it is there, and zero bytes else.
pub open spec fn shard_at(layout: Layout, uid: Seq<u8>, container: Seq<u8>, j: int) -> Seq<u8> {
    if layout.emitted(j) && block_there(layout, uid, container, layout.meta_blocks() + j) {
        layout.place(container, layout.meta_blocks() + j).subrange(16, layout.block_size())
    } else {
        zeros(layout.data_size())
    }
}

/// Which blocks of a set are there.
pub open spec fn set_present(layout: Layout, uid: Seq<u8>, container: Seq<u8>, set: int) -> Seq<
    bool,
> {
    Seq::new(
        layout.set_size() as nat,
        |slot: int| present(layout, uid, container, set * layout.set_size() + slot),
    )
}

/// The shards that the blocks of a set give.
pub open spec fn set_shards(layout: Layout, uid: Seq<u8>, container: Seq<u8>, set: int) -> Seq<
    Seq<u8>,
> {
    Seq::new(
        layout.set_size() as nat,
        |slot: int| shard_at(layout, uid, container, set * layout.set_size() + slot),
    )
}

/// Whether enough blocks of a set are there to rebuild the others.
pub open spec fn set_repairable(layout: Layout, uid: Seq<u8>, container: Seq<u8>, set: int) -> bool {
    count_present(set_present(layout, uid, container, set)) >= layout.data_per_set()
}

/// The shards of a set after its rebuilding.
pub open spec fn set_rebuilt(layout: Layout, uid: Seq<u8>, container: Seq<u8>, set: int) -> Seq<
    Seq<u8>,
> {
    rs_reconstructed(
        set_shards(layout, uid, container, set),
        set_present(layout, uid, container, set),
        layout.data_per_set(),
    )
}

/// The first of the first `upto` blocks of the sequence that is there,
/// or `upto` where none is.
pub open spec fn first_there(layout: Layout, uid: Seq<u8>, container: Seq<u8>, upto: int) -> int
    decreases upto,
{
    if upto <= 0 {
        0
    } else {
        let before = first_there(layout, uid, container, upto - 1);
        if before < upto - 1 {
            before
        } else if block_there(layout, uid, container, upto - 1) {
            upto - 1
        } else {
            upto
        }
    }
}

/// What repair writes at the place of block `s` of the sequence, if
/// anything. A copy of the metadata block that is not there is written
/// anew from the first copy that is there. A block of a set that is not
/// there is rebuilt where enough blocks of its set are there.
pub open spec fn replacement(layout: Layout, uid: Seq<u8>, container: Seq<u8>, s: int) -> Option<
    Seq<u8>,
> {
    let m = layout.meta_blocks();
    if s < m {
        let source = first_there(layout, uid, container, m);
        if source < m && !block_there(layout, uid, container, s) {
            Some(layout.place(container, source))
        } else {
            None
        }
    } else {
        let j = s - m;
        let set = j / layout.set_size();
        if set_repairable(layout, uid, container, set) && !present(layout, uid, container, j) {
            Some(
                block_image(
                    layout.version,
                    uid,
                    (j + 1) as u32,
                    set_rebuilt(layout, uid, container, set)[j % layout.set_size()],
                ),
            )
        } else {
            None
        }
    }
}

/// The container after repair has gone over the first `n` blocks of the
/// sequence.
#[verifier::opaque]
pub open spec fn repaired_upto(layout: Layout, uid: Seq<u8>, container: Seq<u8>, n: int) -> Seq<
    u8,
> {
    Seq::new(
        container.len(),
        |x: int|
            {
                let s = layout.source_index(x / layout.block_size());
                if 0 <= s < n && replacement(layout, uid, container, s) is Some {
                    replacement(layout, uid, container, s)->0[x % layout.block_size()]
                } else {
                    container[x]
                }
            },
    )
}

/// The container after repair.
pub open spec fn repaired(layout: Layout, uid: Seq<u8>, container: Seq<u8>) -> Seq<u8> {
    repaired_upto(layout, uid, container, layout.total_blocks())
}

/// What is reported where no copy of the metadata block is there.
pub open spec fn meta_failure(layout: Layout) -> RSErrorView {
    RSErrorView {
        version: layout.version,
        block_seq_num_start: 0,
        block_count: layout.meta_blocks() as u64,
        block_type: BlockType::Meta,
        shard_present: Seq::new(layout.meta_blocks() as nat, |i: int| false),
    }
}

/// What is reported of a set that cannot be rebuilt.
pub open spec fn set_failure(layout: Layout, uid: Seq<u8>, container: Seq<u8>, set: int) -> RSErrorView {
    RSErrorView {
        version: layout.version,
        block_seq_num_start: (set * layout.set_size() + 1) as u64,
        block_count: layout.set_size() as u64,
        block_type: BlockType::Data,
        shard_present: set_present(layout, uid, container, set),
    }
}

/// What repair reports after the metadata blocks and the first `sets`
/// sets: the metadata blocks where none is there, and each set of which
/// too few blocks are there, in the order of the sets.
pub open spec fn failures_upto(layout: Layout, uid: Seq<u8>, container: Seq<u8>, sets: int) -> Seq<
    RSErrorView,
>
    decreases sets,
{
    if sets <= 0 {
        if first_there(layout, uid, container, layout.meta_blocks()) < layout.meta_blocks() {
            Seq::empty()
        } else {
            seq![meta_failure(layout)]
        }
    } else {
        let before = failures_upto(layout, uid, container, sets - 1);
        if set_repairable(layout, uid, container, sets - 1) {
            before
        } else {
            before.push(set_failure(layout, uid, container, sets - 1))
        }
    }
}

/// What the codec has promised of the rebuilding of a set: if the shards
/// that are there are shards of a set as the codec makes it, that set is
/// what the rebuilding gives.
pub open spec fn set_recovers(layout: Layout, uid: Seq<u8>, container: Seq<u8>, set: int) -> bool {
    forall|full: Seq<Seq<u8>>|
        #[trigger] is_codeword(full, layout.data_per_set(), layout.parity_per_set()) && uniform(
            full,
            layout.data_size(),
        ) && agree_where_present(
            full,
            set_shards(layout, uid, container, set),
            set_present(layout, uid, container, set),
        ) ==> set_rebuilt(layout, uid, container, set) == full
}

/// The views of a run of reports.
pub open spec fn failure_views(errors: Seq<RSError>) -> Seq<RSErrorView> {
    errors.map_values(|e: RSError| e@)
}

/// Writing what repair writes at the place of the next block of the
/// sequence takes the repair one block further.
proof fn lemma_overwrite(
    layout: Layout,
    uid: Seq<u8>,
    container: Seq<u8>,
    n: int,
    before: Seq<u8>,
    after: Seq<u8>,
)
    requires
        layout.ok(),
        container.len() == layout.size(),
        0 <= n < layout.total_blocks(),
        before == repaired_upto(layout, uid, container, n),
        replacement(layout, uid, container, n) is Some,
        replacement(layout, uid, container, n)->0.len() == layout.block_size(),
        ({
            let offset = block_index(n, layout.data_par_burst) * layout.block_size();
            after == before.take(offset) + replacement(layout, uid, container, n)->0
                + before.skip(offset + layout.block_size())
        }),
    ensures
        after == repaired_upto(layout, uid, container, n + 1),
{
    reveal(repaired_upto);
    lemma_layout_sizes(layout);
    lemma_place_in_range(layout, n);
    let bs = layout.block_size();
    let w = block_index(n, layout.data_par_burst);
    let offset = w * bs;
    let goal = repaired_upto(layout, uid, container, n + 1);
    assert(after.len() == goal.len());
    assert forall|x: int| 0 <= x < after.len() implies after[x] == goal[x] by {
        lemma_byte_place(x, w, bs);
        let i = x / bs;
        if offset <= x < offset + bs {
            assert(after[x] == replacement(layout, uid, container, n)->0[x - offset]);
        } else {
            assert(after[x] == before[x]);
            lemma_other_place(layout, x, n);
        }
    }
    assert(after =~= goal);
}

/// A byte outside the place of a block belongs to the place of another
/// block.
proof fn lemma_other_place(layout: Layout, x: int, n: int)
    requires
        layout.ok(),
        0 <= x,
        0 <= n,
        x / layout.block_size() != block_index(n, layout.data_par_burst),
    ensures
        layout.source_index(x / layout.block_size()) != n,
{
    lemma_layout_sizes(layout);
    let bs = layout.block_size();
    let i = x / bs;
    lemma_fundamental_div_mod(x, bs);
    assert(0 <= i) by (nonlinear_arith)
        requires
            0 <= x,
            0 < bs,
            x == bs * i + x % bs,
            0 <= x % bs < bs,
    ;
    if let Some((data, parity, burst)) = layout.data_par_burst {
        lemma_write_index_of_read_index(i, data as int, parity as int, burst as int);
    }
}

/// Blocks at whose places repair writes nothing leave the repair where
/// it is.
proof fn lemma_keep(layout: Layout, uid: Seq<u8>, container: Seq<u8>, from: int, to: int)
    requires
        0 <= from <= to,
        forall|s: int| from <= s < to ==> #[trigger] replacement(layout, uid, container, s) is None,
    ensures
        repaired_upto(layout, uid, container, from) == repaired_upto(layout, uid, container, to),
{
    reveal(repaired_upto);
    let a = repaired_upto(layout, uid, container, from);
    let b = repaired_upto(layout, uid, container, to);
    assert forall|x: int| 0 <= x < a.len() implies a[x] == b[x] by {
        let s = layout.source_index(x / layout.block_size());
        if from <= s < to {
            assert(replacement(layout, uid, container, s) is None);
        }
    }
    assert(a =~= b);
}

/// Before repair has gone over a block, the container is as it was.
proof fn lemma_repair_start(layout: Layout, uid: Seq<u8>, container: Seq<u8>)
    ensures
        repaired_upto(layout, uid, container, 0) == container,
{
    reveal(repaired_upto);
    assert(repaired_upto(layout, uid, container, 0) =~= container);
}

/// Repair leaves the length of the container as it is.
proof fn lemma_repaired_len(layout: Layout, uid: Seq<u8>, container: Seq<u8>, n: int)
    ensures
        repaired_upto(layout, uid, container, n).len() == container.len(),
{
    reveal(repaired_upto);
}

/// Writes a block at the place of block `n` of the sequence.
fn overwrite(
    out: &mut Vec<u8>,
    Ghost(layout): Ghost<Layout>,
    Ghost(uid): Ghost<Seq<u8>>,
    Ghost(container): Ghost<Seq<u8>>,
    version: Version,
    data_par_burst: Option<(usize, usize, usize)>,
    n: u64,
    block: &[u8],
)
    requires
        layout.ok(),
        layout.version == version,
        layout.data_par_burst == data_par_burst,
        container.len() == layout.size(),
        n < layout.total_blocks(),
        old(out)@ == repaired_upto(layout, uid, container, n as int),
        replacement(layout, uid, container, n as int) == Some(block@),
        block@.len() == layout.block_size(),
    ensures
        final(out)@ == repaired_upto(layout, uid, container, n + 1),
{
    proof {
        lemma_place_in_range(layout, n as int);
        lemma_layout_sizes(layout);
        lemma_repaired_len(layout, uid, container, n as int);
    }
    let len = out.len();
    let block_size = ver_to_block_size(version);
    let place = calc_data_block_write_index(n as u32, data_par_burst);
    let offset = place as usize * block_size;
    let ghost before = out@;
    write_at(out, offset, block);
    proof {
        lemma_overwrite(layout, uid, container, n as int, before, out@);
    }
}

/// The first copy of the metadata block that is there, if one is.
fn find_meta(
    version: Version,
    uid: &[u8; 6],
    data_par_burst: Option<(usize, usize, usize)>,
    container: &[u8],
    meta_count: u64,
    Ghost(layout): Ghost<Layout>,
) -> (source: u64)
    requires
        layout.ok(),
        layout.version == version,
        layout.data_par_burst == data_par_burst,
        container@.len() == layout.size(),
        meta_count == layout.meta_blocks(),
    ensures
        source == first_there(layout, uid@, container@, meta_count as int),
        source <= meta_count,
        source < meta_count ==> block_there(layout, uid@, container@, source as int),
{
    proof {
        lemma_layout_sizes(layout);
    }
    let mut s: u64 = 0;
    while s < meta_count
        invariant
            s <= meta_count,
            layout.ok(),
            layout.version == version,
            layout.data_par_burst == data_par_burst,
            container@.len() == layout.size(),
            meta_count == layout.meta_blocks(),
            layout.total_blocks() >= layout.meta_blocks(),
            first_there(layout, uid@, container@, s as int) == s,
        decreases meta_count - s,
    {
        let bytes = place_of(version, data_par_burst, container, s, Ghost(layout));
        if check_block(bytes, version, uid, 0) {
            proof {
                lemma_first_there_found(layout, uid@, container@, s as int, meta_count as int);
            }
            return s;
        }
        s = s + 1;
    }
    s
}

/// Once a block that is there has been found, it stays the first.
proof fn lemma_first_there_found(
    layout: Layout,
    uid: Seq<u8>,
    container: Seq<u8>,
    s: int,
    upto: int,
)
    requires
        0 <= s < upto,
        first_there(layout, uid, container, s) == s,
        block_there(layout, uid, container, s),
    ensures
        first_there(layout, uid, container, upto) == s,
    decreases upto,
{
    if upto > s + 1 {
        lemma_first_there_found(layout, uid, container, s, upto - 1);
    }
}

/// The shards that the blocks of a set give, and which of them are
/// there.
fn gather_set(
    version: Version,
    uid: &[u8; 6],
    data_par_burst: Option<(usize, usize, usize)>,
    container: &[u8],
    set: u64,
    chunks: u64,
    Ghost(layout): Ghost<Layout>,
) -> (res: (Vec<Vec<u8>>, Vec<bool>))
    requires
        layout.ok(),
        layout.version == version,
        layout.data_par_burst == data_par_burst,
        data_par_burst is Some,
        container@.len() == layout.size(),
        chunks == layout.chunks(),
        set < ceil_div(layout.chunks(), layout.data_per_set()),
    ensures
        shard_views(res.0@) == set_shards(layout, uid@, container@, set as int),
        res.1@ == set_present(layout, uid@, container@, set as int),
        uniform(shard_views(res.0@), layout.data_size()),
        res.0@.len() == layout.set_size(),
        res.1@.len() == layout.set_size(),
{
    let (data, parity, burst) = match data_par_burst {
        Some(shape) => shape,
        None => vstd::pervasive::unreached(),
    };
    let set_size = (data + parity) as u64;
    let meta_count = 1 + parity as u64;
    let data_size = ver_to_data_size(version);
    let block_size = ver_to_block_size(version);
    let mut shards: Vec<Vec<u8>> = Vec::new();
    let mut flags: Vec<bool> = Vec::new();
    let mut slot: u64 = 0;
    proof {
        lemma_layout_sizes(layout);
        lemma_set_slot(layout, set as int, 0);
    }
    while slot < set_size
        invariant
            slot <= set_size,
            layout.ok(),
            layout.version == version,
            layout.data_par_burst == data_par_burst,
            data_par_burst == Some((data, parity, burst)),
            container@.len() == layout.size(),
            chunks == layout.chunks(),
            set < ceil_div(layout.chunks(), layout.data_per_set()),
            set_size == layout.set_size(),
            meta_count == layout.meta_blocks(),
            data_size == layout.data_size(),
            block_size == layout.block_size(),
            data_size == block_size - 16,
            0 <= set * set_size,
            shards@.len() == slot,
            flags@.len() == slot,
            forall|k: int| 0 <= k < slot ==> (#[trigger] shards@[k])@.len() == data_size,
            forall|k: int|
                0 <= k < slot ==> (#[trigger] shards@[k])@ == shard_at(
                    layout,
                    uid@,
                    container@,
                    set * set_size + k,
                ),
            forall|k: int|
                0 <= k < slot ==> #[trigger] flags@[k] == present(
                    layout,
                    uid@,
                    container@,
                    set * set_size + k,
                ),
        decreases set_size - slot,
    {
        proof {
            lemma_set_slot(layout, set as int, slot as int);
            assert(0 <= set * data) by (nonlinear_arith)
                requires
                    0 <= set,
                    0 <= data,
            ;
            assert(set * data + slot <= u64::MAX) by (nonlinear_arith)
                requires
                    set * set_size + slot <= u32::MAX,
                    set_size >= data,
                    0 <= set,
            ;
        }
        let j = set * set_size + slot;
        let emitted = slot >= data as u64 || set * (data as u64) + slot < chunks;
        if !emitted {
            shards.push(zero_bytes(data_size));
            flags.push(true);
        } else {
            let bytes = place_of(version, data_par_burst, container, meta_count + j, Ghost(layout));
            if check_block(bytes, version, uid, (j + 1) as u32) {
                let region = vstd::slice::slice_subrange(bytes, 16, block_size);
                shards.push(vstd::slice::slice_to_vec(region));
                flags.push(true);
            } else {
                shards.push(zero_bytes(data_size));
                flags.push(false);
            }
        }
        slot = slot + 1;
    }
    proof {
        assert(shard_views(shards@) =~= set_shards(layout, uid@, container@, set as int));
        assert(flags@ =~= set_present(layout, uid@, container@, set as int));
    }
    (shards, flags)
}

/// Writes the rebuilt blocks of a set at their places.
fn write_rebuilt(
    out: &mut Vec<u8>,
    version: Version,
    uid: &[u8; 6],
    data_par_burst: Option<(usize, usize, usize)>,
    set: u64,
    shards: &Vec<Vec<u8>>,
    flags: &Vec<bool>,
    Ghost(layout): Ghost<Layout>,
    Ghost(container): Ghost<Seq<u8>>,
)
    requires
        layout.ok(),
        layout.version == version,
        layout.data_par_burst == data_par_burst,
        data_par_burst is Some,
        container.len() == layout.size(),
        set < ceil_div(layout.chunks(), layout.data_per_set()),
        set_repairable(layout, uid@, container, set as int),
        shard_views(shards@) == set_rebuilt(layout, uid@, container, set as int),
        shards@.len() == layout.set_size(),
        uniform(shard_views(shards@), layout.data_size()),
        flags@ == set_present(layout, uid@, container, set as int),
        old(out)@ == repaired_upto(
            layout,
            uid@,
            container,
            layout.meta_blocks() + set * layout.set_size(),
        ),
    ensures
        final(out)@ == repaired_upto(
            layout,
            uid@,
            container,
            layout.meta_blocks() + (set + 1) * layout.set_size(),
        ),
{
    let (data, parity, burst) = match data_par_burst {
        Some(shape) => shape,
        None => vstd::pervasive::unreached(),
    };
    let set_size = (data + parity) as u64;
    let meta_count = 1 + parity as u64;
    let mut slot: u64 = 0;
    proof {
        lemma_layout_sizes(layout);
        lemma_set_slot(layout, set as int, 0);
        assert((set + 1) * set_size == set * set_size + set_size) by (nonlinear_arith);
    }
    while slot < set_size
        invariant
            slot <= set_size,
            layout.ok(),
            layout.version == version,
            layout.data_par_burst == data_par_burst,
            data_par_burst == Some((data, parity, burst)),
            container.len() == layout.size(),
            set < ceil_div(layout.chunks(), layout.data_per_set()),
            set_size == layout.set_size(),
            meta_count == layout.meta_blocks(),
            0 <= set * set_size,
            set_repairable(layout, uid@, container, set as int),
            shard_views(shards@) == set_rebuilt(layout, uid@, container, set as int),
            shards@.len() == layout.set_size(),
            uniform(shard_views(shards@), layout.data_size()),
            flags@ == set_present(layout, uid@, container, set as int),
            out@ == repaired_upto(layout, uid@, container, meta_count + set * set_size + slot),
        decreases set_size - slot,
    {
        proof {
            lemma_set_slot(layout, set as int, slot as int);
        }
        let j = set * set_size + slot;
        if flags[slot as usize] {
            proof {
                lemma_keep(layout, uid@, container, meta_count + j, meta_count + j + 1);
            }
        } else {
            proof {
                assert(shard_views(shards@)[slot as int] == shards@[slot as int]@);
                assert(shards@[slot as int]@ + zeros(0) =~= shards@[slot as int]@);
            }
            let block = make_block(version, uid, (j + 1) as u32, shards[slot as usize].as_slice());
            overwrite(
                out,
                Ghost(layout),
                Ghost(uid@),
                Ghost(container),
                version,
                data_par_burst,
                meta_count + j,
                block.as_slice(),
            );
        }
        slot = slot + 1;
    }
}

/// Repairs a container: writes the copies of the metadata block that are
/// not there anew from one that is, and rebuilds the blocks of each set
/// that are not there where enough blocks of the set are. What could not
/// be repaired is reported.
pub fn repair(
    version: Version,
    uid: &[u8; 6],
    data_par_burst: Option<(usize, usize, usize)>,
    container: &[u8],
    size: u64,
) -> (res: (Vec<u8>, Vec<RSError>))
    requires
        data_par_burst is Some,
        (Layout { version, data_par_burst, input_len: size as int }).ok(),
        container@.len() == (Layout { version, data_par_burst, input_len: size as int }).size(),
    ensures
        ({
            let layout = Layout { version, data_par_burst, input_len: size as int };
            let sets = ceil_div(layout.chunks(), layout.data_per_set());
            &&& res.0@ == repaired(layout, uid@, container@)
            &&& failure_views(res.1@) == failures_upto(layout, uid@, container@, sets)
            &&& forall|set: int|
                0 <= set < sets && set_repairable(layout, uid@, container@, set)
                    ==> #[trigger] set_recovers(layout, uid@, container@, set)
        }),
{
    let ghost layout = Layout { version, data_par_burst, input_len: size as int };
    let (data, parity, burst) = match data_par_burst {
        Some(shape) => shape,
        None => vstd::pervasive::unreached(),
    };
    let set_size = (data + parity) as u64;
    let meta_count = 1 + parity as u64;
    let data_size = ver_to_data_size(version);
    proof {
        lemma_layout_sizes(layout);
    }
    let mut out = vstd::slice::slice_to_vec(container);
    let mut errors: Vec<RSError> = Vec::new();
    proof {
        lemma_repair_start(layout, uid@, container@);
    }
    let source = find_meta(version, uid, data_par_burst, container, meta_count, Ghost(layout));
    if source < meta_count {
        let copy = place_of(version, data_par_burst, container, source, Ghost(layout));
        let mut s: u64 = 0;
        while s < meta_count
            invariant
                s <= meta_count,
                layout.ok(),
                layout.version == version,
                layout.data_par_burst == data_par_burst,
                container@.len() == layout.size(),
                meta_count == layout.meta_blocks(),
                layout.total_blocks() >= layout.meta_blocks(),
                source == first_there(layout, uid@, container@, meta_count as int),
                source < meta_count,
                copy@ == layout.place(container@, source as int),
                copy@.len() == layout.block_size(),
                out@ == repaired_upto(layout, uid@, container@, s as int),
            decreases meta_count - s,
        {
            let bytes = place_of(version, data_par_burst, container, s, Ghost(layout));
            if check_block(bytes, version, uid, 0) {
                proof {
                    lemma_keep(layout, uid@, container@, s as int, s + 1);
                }
            } else {
                overwrite(
                    &mut out,
                    Ghost(layout),
                    Ghost(uid@),
                    Ghost(container@),
                    version,
                    data_par_burst,
                    s,
                    copy,
                );
            }
            s = s + 1;
        }
        proof {
            assert(failure_views(errors@) =~= failures_upto(layout, uid@, container@, 0));
        }
    } else {
        let mut none: Vec<bool> = Vec::new();
        let mut i: u64 = 0;
        while i < meta_count
            invariant
                i <= meta_count,
                none@ == Seq::new(i as nat, |k: int| false),
            decreases meta_count - i,
        {
            none.push(false);
            i = i + 1;
            proof {
                assert(none@ =~= Seq::new(i as nat, |k: int| false));
            }
        }
        errors.push(RSError::new(version, 0, meta_count, BlockType::Meta, none.as_slice()));
        proof {
            lemma_keep(layout, uid@, container@, 0, meta_count as int);
            assert(failure_views(errors@) =~= failures_upto(layout, uid@, container@, 0));
        }
    }
    let chunks = ceil_div_u64(size, data_size as u64);
    let sets = ceil_div_u64(chunks, data as u64);
    let repairer = RSRepairer::new(version, data, parity);
    let mut set: u64 = 0;
    proof {
        assert(0 * set_size == 0) by (nonlinear_arith);
    }
    while set < sets
        invariant
            set <= sets,
            layout == (Layout { version, data_par_burst, input_len: size as int }),
            layout.ok(),
            data_par_burst == Some((data, parity, burst)),
            container@.len() == layout.size(),
            chunks == layout.chunks(),
            sets == ceil_div(layout.chunks(), layout.data_per_set()),
            set_size == layout.set_size(),
            meta_count == layout.meta_blocks(),
            layout.total_blocks() == meta_count + sets * set_size,
            repairer.wf(),
            repairer.version() == version,
            repairer.data_shards() == data,
            repairer.parity_shards() == parity,
            out@ == repaired_upto(layout, uid@, container@, meta_count + set * set_size),
            failure_views(errors@) == failures_upto(layout, uid@, container@, set as int),
            forall|t: int|
                0 <= t < set && set_repairable(layout, uid@, container@, t)
                    ==> #[trigger] set_recovers(layout, uid@, container@, t),
        decreases sets - set,
    {
        proof {
            lemma_set_slot(layout, set as int, 0);
            assert((set + 1) * set_size == set * set_size + set_size) by (nonlinear_arith);
        }
        let (mut shards, flags) = gather_set(
            version,
            uid,
            data_par_burst,
            container,
            set,
            chunks,
            Ghost(layout),
        );
        let ghost before = errors@;
        match repairer.repair(&mut shards, flags.as_slice(), set * set_size + 1, BlockType::Data) {
            Ok(()) => {
                write_rebuilt(
                    &mut out,
                    version,
                    uid,
                    data_par_burst,
                    set,
                    &shards,
                    &flags,
                    Ghost(layout),
                    Ghost(container@),
                );
            },
            Err(e) => {
                errors.push(e);
                proof {
                    assert forall|s: int|
                        meta_count + set * set_size <= s < meta_count + (set + 1)
                            * set_size implies #[trigger] replacement(
                        layout,
                        uid@,
                        container@,
                        s,
                    ) is None by {
                        let j = s - meta_count;
                        lemma_fundamental_div_mod_converse(
                            j,
                            set_size as int,
                            set as int,
                            j - set * set_size,
                        );
                    }
                    lemma_keep(
                        layout,
                        uid@,
                        container@,
                        meta_count + set * set_size,
                        meta_count + (set + 1) * set_size,
                    );
                    assert(failure_views(errors@) =~= failure_views(before).push(e@));
                }
            },
        }
        set = set + 1;
    }
    (out, errors)
}

/// Whether block `s` of the sequence of a plan is written: the metadata
/// block and its copies are, and after them the blocks that the file has a
/// chunk for, and every parity block.
pub open spec fn written(plan: Plan, s: int) -> bool {
    s < plan.meta_blocks() || plan.emitted(s - plan.meta_blocks())
}

/// Whether a container is what damage has left of the container of a
/// plan: wherever it holds a block of the kind that belongs at a place, it
/// is the block of the plan.
pub open spec fn damaged_from(plan: Plan, damaged: Seq<u8>) -> bool {
    &&& damaged.len() == plan.size()
    &&& forall|s: int|
        0 <= s < plan.total_blocks() && written(plan, s) && #[trigger] block_there(
            plan.layout(),
            plan.uid,
            damaged,
            s,
        ) ==> plan.layout().place(damaged, s) == plan.block(s)
}

/// The shards of a set of a plan: its data shards and their parity
/// shards.
pub open spec fn plan_set(plan: Plan, set: int) -> Seq<Seq<u8>> {
    plan.set_data(set) + rs_parity(plan.set_data(set), plan.parity_per_set())
}

/// The first block that is there is there.
pub proof fn lemma_first_there(layout: Layout, uid: Seq<u8>, container: Seq<u8>, upto: int)
    requires
        0 <= upto,
    ensures
        0 <= first_there(layout, uid, container, upto) <= upto,
        first_there(layout, uid, container, upto) < upto ==> block_there(
            layout,
            uid,
            container,
            first_there(layout, uid, container, upto),
        ),
    decreases upto,
{
    if upto > 0 {
        lemma_first_there(layout, uid, container, upto - 1);
    }
}

/// What the repaired container holds at the place of a block: what
/// repair wrote there, or what the container held.
pub proof fn lemma_repaired_place(layout: Layout, uid: Seq<u8>, container: Seq<u8>, s: int)
    requires
        layout.ok(),
        container.len() == layout.size(),
        0 <= s < layout.total_blocks(),
        replacement(layout, uid, container, s) is Some ==> replacement(
            layout,
            uid,
            container,
            s,
        )->0.len() == layout.block_size(),
    ensures
        layout.place(repaired(layout, uid, container), s) == match replacement(
            layout,
            uid,
            container,
            s,
        ) {
            Some(block) => block,
            None => layout.place(container, s),
        },
{
    reveal(repaired_upto);
    lemma_layout_sizes(layout);
    lemma_place_in_range(layout, s);
    let bs = layout.block_size();
    let w = block_index(s, layout.data_par_burst);
    let here = layout.place(repaired(layout, uid, container), s);
    let wanted = match replacement(layout, uid, container, s) {
        Some(block) => block,
        None => layout.place(container, s),
    };
    assert forall|k: int| 0 <= k < bs implies here[k] == wanted[k] by {
        lemma_byte_place(w * bs + k, w, bs);
    }
    assert(here =~= wanted);
}

/// A written block of a plan: the bytes of a block that carries the
/// records of the plan, a chunk of the file, or a parity shard.
pub proof fn lemma_plan_block(plan: Plan, s: int)
    requires
        encodable(plan),
        plan.data_par_burst is Some,
        plan.parity_ok(),
        fits(plan.records, plan.data_size()),
        0 <= s < plan.total_blocks(),
        written(plan, s),
    ensures
        plan.block(s).len() == plan.block_size(),
        s < plan.meta_blocks() ==> plan.block(s) == plan.meta_image(),
        s >= plan.meta_blocks() ==> plan.block(s) == block_image(
            plan.version,
            plan.uid,
            seq_num_of(plan.layout(), s),
            plan.shard(s - plan.meta_blocks()),
        ) && plan.block(s).subrange(16, plan.block_size()) == plan.shard(s - plan.meta_blocks())
            && plan.shard(s - plan.meta_blocks()).len() == plan.data_size(),
{
    let layout = plan.layout();
    lemma_layout_sizes(layout);
    let m = plan.meta_blocks();
    if s < m {
        lemma_block_image_parts(
            plan.version,
            plan.uid,
            0,
            region_bytes(plan.records, plan.data_size()),
        );
    } else {
        let j = s - m;
        let size = plan.set_size();
        lemma_fundamental_div_mod(j, size);
        let set = j / size;
        let slot = j % size;
        assert(set * size == size * set) by (nonlinear_arith);
        assert(0 <= set < plan.sets()) by (nonlinear_arith)
            requires
                0 <= j < plan.sets() * size,
                j == size * set + slot,
                0 <= slot < size,
        ;
        let data = plan.shard(j);
        if !plan.is_data_slot(j) {
            assert(plan.set_parity_ok(set));
        }
        lemma_block_image_parts(plan.version, plan.uid, (j + 1) as u32, data);
        let image = block_image(plan.version, plan.uid, (j + 1) as u32, data);
        assert(image.subrange(16, plan.block_size()) =~= image.skip(16));
    }
}

/// The shards of a set of a plan are a set as the codec makes it, and
/// they are the data regions of the blocks of the set.
pub proof fn lemma_plan_set(plan: Plan, set: int)
    requires
        encodable(plan),
        plan.data_par_burst is Some,
        plan.parity_ok(),
        0 <= set < plan.sets(),
    ensures
        is_codeword(plan_set(plan, set), plan.data_per_set(), plan.parity_per_set()),
        uniform(plan_set(plan, set), plan.data_size()),
        plan_set(plan, set).len() == plan.set_size(),
        forall|slot: int|
            0 <= slot < plan.set_size() ==> #[trigger] plan_set(plan, set)[slot] == plan.shard(
                set * plan.set_size() + slot,
            ),
{
    let layout = plan.layout();
    let d = plan.data_per_set();
    let full = plan_set(plan, set);
    lemma_layout_sizes(layout);
    assert(plan.set_parity_ok(set));
    assert(full.take(d) =~= plan.set_data(set));
    assert(full.skip(d) =~= rs_parity(plan.set_data(set), plan.parity_per_set()));
    assert forall|slot: int| 0 <= slot < plan.set_size() implies #[trigger] full[slot]
        == plan.shard(set * plan.set_size() + slot) by {
        lemma_set_slot(layout, set, slot);
    }
}

/// Repair gives back what damage took. Let a container be what damage
/// has left of the container of a plan, with as many blocks of every set as
/// a set has data blocks. Then the repaired container holds every written
/// data block and parity block of the plan at its place, and decoding it
/// gives the file of the plan. Where a copy of the metadata block is left
/// too, the repaired container holds the metadata block and every copy of
/// it. That the codec rebuilds a set from enough of its shards is what
/// `repair` reports of every set that it rebuilt.
pub proof fn lemma_repair_restores(plan: Plan, damaged: Seq<u8>)
    requires
        encodable(plan),
        plan.data_par_burst is Some,
        plan.parity_ok(),
        fits(plan.records, plan.data_size()),
        damaged_from(plan, damaged),
        forall|set: int|
            0 <= set < plan.sets() ==> #[trigger] set_repairable(
                plan.layout(),
                plan.uid,
                damaged,
                set,
            ),
        forall|set: int|
            0 <= set < plan.sets() ==> #[trigger] set_recovers(
                plan.layout(),
                plan.uid,
                damaged,
                set,
            ),
    ensures
        forall|s: int|
            0 <= s < plan.total_blocks() && written(plan, s) && (s >= plan.meta_blocks()
                || first_there(plan.layout(), plan.uid, damaged, plan.meta_blocks())
                < plan.meta_blocks()) ==> #[trigger] plan.layout().place(
                repaired(plan.layout(), plan.uid, damaged),
                s,
            ) == plan.block(s),
        data_blocks_ok(plan.layout(), plan.uid, repaired(plan.layout(), plan.uid, damaged)),
        decoded(plan.layout(), repaired(plan.layout(), plan.uid, damaged)) == plan.input,
{
    let layout = plan.layout();
    let uid = plan.uid;
    let whole = repaired(layout, uid, damaged);
    let ds = plan.data_size();
    lemma_layout_sizes(layout);
    assert forall|s: int|
        0 <= s < plan.total_blocks() && written(plan, s) && (s >= plan.meta_blocks()
            || first_there(layout, uid, damaged, plan.meta_blocks())
            < plan.meta_blocks()) implies #[trigger] layout.place(whole, s) == plan.block(s) by {
        lemma_restored_block(plan, damaged, s);
    }
    assert forall|c: int| 0 <= c < layout.chunks() implies is_block(
        layout.place(whole, #[trigger] layout.chunk_block(c)),
        layout.version,
        uid,
        (layout.chunk_block(c) - layout.meta_blocks() + 1) as u32,
    ) by {
        lemma_data_block(plan, c);
        lemma_chunk_written(plan, c);
        lemma_restored_block(plan, damaged, layout.chunk_block(c));
    }
    let back = decoded(layout, whole);
    assert forall|x: int| 0 <= x < plan.input.len() implies back[x] == plan.input[x] by {
        let c = x / ds;
        let k = x % ds;
        lemma_fundamental_div_mod(x, ds);
        assert(c * ds == ds * c) by (nonlinear_arith);
        assert(0 <= c < layout.chunks()) by (nonlinear_arith)
            requires
                0 <= x < plan.input.len(),
                x == ds * c + k,
                0 <= k < ds,
                layout.chunks() * ds >= plan.input.len(),
        ;
        lemma_data_block(plan, c);
        lemma_chunk_written(plan, c);
        let block = plan.block(layout.chunk_block(c));
        lemma_restored_block(plan, damaged, layout.chunk_block(c));
        assert(block.skip(16)[k] == block[16 + k]);
    }
    assert(back =~= plan.input);
}

/// The data block of a chunk of the file is written.
pub proof fn lemma_chunk_written(plan: Plan, c: int)
    requires
        encodable(plan),
        0 <= c < plan.chunks(),
    ensures
        written(plan, plan.layout().chunk_block(c)),
        plan.meta_blocks() <= plan.layout().chunk_block(c) < plan.total_blocks(),
{
    let layout = plan.layout();
    let d = layout.data_per_set();
    lemma_layout_sizes(layout);
    lemma_fundamental_div_mod(c, d);
    let set = c / d;
    let slot = c % d;
    assert(set * d == d * set) by (nonlinear_arith);
    assert(0 <= set) by (nonlinear_arith)
        requires
            0 <= c,
            c == d * set + slot,
            0 <= slot < d,
    ;
    lemma_chunk_block(layout, set, slot);
    lemma_set_slot(layout, set, slot);
}

/// The repaired container holds a written block of the plan at its
/// place.
proof fn lemma_restored_block(plan: Plan, damaged: Seq<u8>, s: int)
    requires
        encodable(plan),
        plan.data_par_burst is Some,
        plan.parity_ok(),
        fits(plan.records, plan.data_size()),
        damaged_from(plan, damaged),
        forall|set: int|
            0 <= set < plan.sets() ==> #[trigger] set_repairable(
                plan.layout(),
                plan.uid,
                damaged,
                set,
            ),
        forall|set: int|
            0 <= set < plan.sets() ==> #[trigger] set_recovers(
                plan.layout(),
                plan.uid,
                damaged,
                set,
            ),
        0 <= s < plan.total_blocks(),
        written(plan, s),
        s >= plan.meta_blocks() || first_there(
            plan.layout(),
            plan.uid,
            damaged,
            plan.meta_blocks(),
        ) < plan.meta_blocks(),
    ensures
        plan.layout().place(repaired(plan.layout(), plan.uid, damaged), s) == plan.block(s),
{
    let layout = plan.layout();
    let uid = plan.uid;
    let m = plan.meta_blocks();
    lemma_layout_sizes(layout);
    lemma_plan_block(plan, s);
    if s < m {
        let source = first_there(layout, uid, damaged, m);
        lemma_first_there(layout, uid, damaged, m);
        lemma_plan_block(plan, source);
        assert(block_there(layout, uid, damaged, source));
        assert(layout.place(damaged, source) == plan.block(source));
        if block_there(layout, uid, damaged, s) {
            assert(layout.place(damaged, s) == plan.block(s));
        }
        lemma_repaired_place(layout, uid, damaged, s);
    } else {
        let j = s - m;
        let size = plan.set_size();
        lemma_fundamental_div_mod(j, size);
        let set = j / size;
        let slot = j % size;
        assert(set * size == size * set) by (nonlinear_arith);
        assert(0 <= set < plan.sets()) by (nonlinear_arith)
            requires
                0 <= j < plan.sets() * size,
                j == size * set + slot,
                0 <= slot < size,
        ;
        if present(layout, uid, damaged, j) {
            assert(block_there(layout, uid, damaged, s));
            assert(layout.place(damaged, s) == plan.block(s));
            lemma_repaired_place(layout, uid, damaged, s);
        } else {
            assert(set_repairable(layout, uid, damaged, set));
            assert(set_recovers(layout, uid, damaged, set));
            lemma_set_agrees(plan, damaged, set);
            lemma_plan_set(plan, set);
            let full = plan_set(plan, set);
            assert(is_codeword(full, layout.data_per_set(), layout.parity_per_set()));
            assert(set_rebuilt(layout, uid, damaged, set) == full);
            assert(full[slot] == plan.shard(set * size + slot));
            lemma_repaired_place(layout, uid, damaged, s);
        }
    }
}

/// Where a container is what damage has left of the container of a
/// plan, the shards that the blocks of a set give are shards of the set of
/// the plan wherever a block is there.
proof fn lemma_set_agrees(plan: Plan, damaged: Seq<u8>, set: int)
    requires
        encodable(plan),
        plan.data_par_burst is Some,
        plan.parity_ok(),
        fits(plan.records, plan.data_size()),
        damaged_from(plan, damaged),
        0 <= set < plan.sets(),
    ensures
        agree_where_present(
            plan_set(plan, set),
            set_shards(plan.layout(), plan.uid, damaged, set),
            set_present(plan.layout(), plan.uid, damaged, set),
        ),
{
    let layout = plan.layout();
    let uid = plan.uid;
    let m = plan.meta_blocks();
    let size = plan.set_size();
    let d = plan.data_per_set();
    let ds = plan.data_size();
    let full = plan_set(plan, set);
    let shards = set_shards(layout, uid, damaged, set);
    let flags = set_present(layout, uid, damaged, set);
    lemma_layout_sizes(layout);
    lemma_plan_set(plan, set);
    assert forall|slot: int| 0 <= slot < flags.len() && flags[slot] implies #[trigger] full[slot]
        == shards[slot] by {
        let j = set * size + slot;
        lemma_set_slot(layout, set, slot);
        assert(full[slot] == plan.shard(j));
        if layout.emitted(j) {
            assert(block_there(layout, uid, damaged, m + j));
            lemma_plan_block(plan, m + j);
            assert(layout.place(damaged, m + j) == plan.block(m + j));
        } else {
            let c = set * d + slot;
            assert(c * ds >= plan.input.len()) by (nonlinear_arith)
                requires
                    c >= layout.chunks(),
                    layout.chunks() * ds >= plan.input.len(),
                    ds >= 0,
            ;
            assert(chunk(plan.input, c, ds) =~= zeros(ds));
        }
    }
}

} // verus!
