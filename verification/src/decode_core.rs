//! Decoding: from the bytes of a container back to the bytes of its file.

use vstd::prelude::*;
use vstd::arithmetic::div_mod::lemma_fundamental_div_mod;
use crate::sbx_specs::{Version, ver_to_data_size};
use crate::sbx_block::Error;
use crate::sbx_block::write_index::block_index;
use crate::file_utils::ceil_div_u64;
use crate::container::{Layout, Plan, is_block, check_block, chunk, block_image, place_of,
    lemma_block_image_parts, lemma_byte_place, lemma_layout_sizes, lemma_set_slot,
    lemma_chunk_block, lemma_place_in_range};
use crate::encode_core::encodable;

verus! {

/// Whether every data block of a container is a block of the container's
/// version and file UID with the sequence number of its place.
pub open spec fn data_blocks_ok(layout: Layout, uid: Seq<u8>, container: Seq<u8>) -> bool {
    forall|c: int|
        0 <= c < layout.chunks() ==> is_block(
            layout.place(container, #[trigger] layout.chunk_block(c)),
            layout.version,
            uid,
            (layout.chunk_block(c) - layout.meta_blocks() + 1) as u32,
        )
}

/// The file that a container holds: the data regions of its data blocks
/// one after another, up to the length of the file.
pub open spec fn decoded(layout: Layout, container: Seq<u8>) -> Seq<u8> {
    Seq::new(
        layout.input_len as nat,
        |x: int|
            layout.place(container, layout.chunk_block(x / layout.data_size()))[16 + x
                % layout.data_size()],
    )
}

/// The file that a container holds, unless one of its data blocks is not
/// a block of the container's version and file UID with the sequence
/// number of its place.
pub fn decode(
    version: Version,
    uid: &[u8; 6],
    data_par_burst: Option<(usize, usize, usize)>,
    container: &[u8],
    size: u64,
) -> (res: Result<Vec<u8>, Error>)
    requires
        (Layout { version, data_par_burst, input_len: size as int }).ok(),
        container@.len() == (Layout { version, data_par_burst, input_len: size as int }).size(),
    ensures
        ({
            let layout = Layout { version, data_par_burst, input_len: size as int };
            &&& data_blocks_ok(layout, uid@, container@) ==> res is Ok && res->Ok_0@ == decoded(
                layout,
                container@,
            )
            &&& !data_blocks_ok(layout, uid@, container@) ==> res == Err::<Vec<u8>, Error>(
                Error::ParseError,
            )
        }),
{
    let ghost layout = Layout { version, data_par_burst, input_len: size as int };
    proof {
        lemma_layout_sizes(layout);
    }
    let data_size = ver_to_data_size(version);
    let (data, set_size, meta_count): (u64, u64, u64) = match data_par_burst {
        None => (1, 1, 1),
        Some((data, parity, _)) => (data as u64, (data + parity) as u64, 1 + parity as u64),
    };
    let chunks = ceil_div_u64(size, data_size as u64);
    let mut out: Vec<u8> = Vec::new();
    let mut set: u64 = 0;
    let mut slot: u64 = 0;
    proof {
        assert(0 * data + 0 == 0) by (nonlinear_arith);
        assert(0 * data_size == 0) by (nonlinear_arith);
    }
    while set * data + slot < chunks
        invariant
            layout == (Layout { version, data_par_burst, input_len: size as int }),
            layout.ok(),
            container@.len() == layout.size(),
            chunks == layout.chunks(),
            data == layout.data_per_set(),
            set_size == layout.set_size(),
            meta_count == layout.meta_blocks(),
            data_size == layout.data_size(),
            size <= usize::MAX,
            chunks * data_size >= size,
            slot < data,
            set * data + slot <= chunks,
            out@.len() == if (set * data + slot) * data_size <= size {
                (set * data + slot) * data_size
            } else {
                size as int
            },
            forall|x: int| 0 <= x < out@.len() ==> out@[x] == decoded(layout, container@)[x],
            forall|c: int|
                0 <= c < set * data + slot ==> is_block(
                    layout.place(container@, #[trigger] layout.chunk_block(c)),
                    version,
                    uid@,
                    (layout.chunk_block(c) - layout.meta_blocks() + 1) as u32,
                ),
        decreases chunks - (set * data + slot),
    {
        let c = set * data + slot;
        proof {
            lemma_layout_sizes(layout);
            lemma_chunk_block(layout, set as int, slot as int);
            lemma_set_slot(layout, set as int, slot as int);
            assert(c * data_size < size) by (nonlinear_arith)
                requires
                    0 <= c < chunks,
                    (chunks - 1) * data_size < size,
                    data_size > 0,
            ;
        }
        let j = set * set_size + slot;
        let bytes = place_of(version, data_par_burst, container, meta_count + j, Ghost(layout));
        if !check_block(bytes, version, uid, (j + 1) as u32) {
            return Err(Error::ParseError);
        }
        let start = out.len();
        let left = size as usize - start;
        let take = if left < data_size {
            left
        } else {
            data_size
        };
        append_chunk(&mut out, bytes, take, Ghost(layout), Ghost(container@), Ghost(c as int));
        proof {
            assert((c + 1) * data_size == c * data_size + data_size) by (nonlinear_arith);
        }
        slot = slot + 1;
        if slot == data {
            proof {
                assert((set + 1) * data + 0 == set * data + data) by (nonlinear_arith);
            }
            set = set + 1;
            slot = 0;
        }
    }
    proof {
        assert(out@ =~= decoded(layout, container@));
    }
    Ok(out)
}

/// Appends the first `take` bytes of the data region of the data block
/// of chunk `c` to the part of the file before that chunk.
fn append_chunk(
    out: &mut Vec<u8>,
    bytes: &[u8],
    take: usize,
    Ghost(layout): Ghost<Layout>,
    Ghost(container): Ghost<Seq<u8>>,
    Ghost(c): Ghost<int>,
)
    requires
        layout.ok(),
        0 <= c,
        old(out)@.len() == c * layout.data_size(),
        take <= layout.data_size(),
        c * layout.data_size() + take <= layout.input_len,
        bytes@ == layout.place(container, layout.chunk_block(c)),
        bytes@.len() == layout.block_size(),
        forall|x: int| 0 <= x < old(out)@.len() ==> old(out)@[x] == decoded(layout, container)[x],
    ensures
        final(out)@.len() == old(out)@.len() + take,
        forall|x: int| 0 <= x < final(out)@.len() ==> final(out)@[x] == decoded(
            layout,
            container,
        )[x],
{
    let ghost start = out@.len() as int;
    let mut k: usize = 0;
    proof {
        lemma_layout_sizes(layout);
    }
    while k < take
        invariant
            k <= take <= layout.data_size(),
            0 <= c,
            start == c * layout.data_size(),
            start + take <= layout.input_len,
            out@.len() == start + k,
            bytes@ == layout.place(container, layout.chunk_block(c)),
            bytes@.len() == layout.block_size(),
            layout.data_size() == layout.block_size() - 16,
            layout.data_size() >= 1,
            forall|x: int| 0 <= x < out@.len() ==> out@[x] == decoded(layout, container)[x],
        decreases take - k,
    {
        proof {
            lemma_byte_place(start + k, c, layout.data_size());
        }
        out.push(bytes[16 + k]);
        k = k + 1;
    }
}

/// A container holds each block of the sequence at the block's place.
pub proof fn lemma_image_place(plan: Plan, s: int)
    requires
        encodable(plan),
        0 <= s < plan.total_blocks(),
        plan.block(s).len() == plan.block_size(),
    ensures
        plan.layout().place(plan.image(), s) == plan.block(s),
{
    let layout = plan.layout();
    let bs = plan.block_size();
    let w = block_index(s, plan.data_par_burst);
    lemma_place_in_range(layout, s);
    let here = layout.place(plan.image(), s);
    assert forall|k: int| 0 <= k < bs implies here[k] == plan.block(s)[k] by {
        lemma_byte_place(w * bs + k, w, bs);
    }
    assert(here =~= plan.block(s));
}

/// The data block of a chunk of the file, as a container holds it.
pub proof fn lemma_data_block(plan: Plan, c: int)
    requires
        encodable(plan),
        0 <= c < plan.chunks(),
    ensures
        ({
            let s = plan.layout().chunk_block(c);
            let j = s - plan.meta_blocks();
            &&& plan.meta_blocks() <= s < plan.total_blocks()
            &&& plan.block(s) == block_image(
                plan.version,
                plan.uid,
                (j + 1) as u32,
                chunk(plan.input, c, plan.data_size()),
            )
            &&& plan.block(s).len() == plan.block_size()
            &&& plan.block(s).skip(16) == chunk(plan.input, c, plan.data_size())
            &&& is_block(plan.block(s), plan.version, plan.uid, (j + 1) as u32)
        }),
{
    let layout = plan.layout();
    let d = layout.data_per_set();
    lemma_layout_sizes(layout);
    lemma_fundamental_div_mod(c, d);
    let set = c / d;
    let slot = c % d;
    assert(set * d == d * set) by (nonlinear_arith);
    assert(0 <= set) by (nonlinear_arith)
        requires
            0 <= c,
            c == d * set + slot,
            0 <= slot < d,
    ;
    lemma_chunk_block(layout, set, slot);
    lemma_set_slot(layout, set, slot);
    let s = layout.chunk_block(c);
    let j = s - plan.meta_blocks();
    let data = chunk(plan.input, c, plan.data_size());
    reveal(is_block);
    lemma_block_image_parts(plan.version, plan.uid, (j + 1) as u32, data);
    let image = block_image(plan.version, plan.uid, (j + 1) as u32, data);
    assert(image.subrange(16, plan.block_size()) =~= image.skip(16));
}

/// Decoding the container of a file gives the file back.
pub proof fn lemma_decode_image(plan: Plan)
    requires
        encodable(plan),
    ensures
        data_blocks_ok(plan.layout(), plan.uid, plan.image()),
        decoded(plan.layout(), plan.image()) == plan.input,
{
    let layout = plan.layout();
    let image = plan.image();
    let ds = plan.data_size();
    lemma_layout_sizes(layout);
    assert forall|c: int| 0 <= c < layout.chunks() implies is_block(
        layout.place(image, #[trigger] layout.chunk_block(c)),
        layout.version,
        plan.uid,
        (layout.chunk_block(c) - layout.meta_blocks() + 1) as u32,
    ) by {
        lemma_data_block(plan, c);
        lemma_image_place(plan, layout.chunk_block(c));
    }
    let back = decoded(layout, image);
    assert forall|x: int| 0 <= x < plan.input.len() implies back[x] == plan.input[x] by {
        let c = x / ds;
        let k = x % ds;
        lemma_fundamental_div_mod(x, ds);
        assert(c * ds == ds * c) by (nonlinear_arith);
        assert(0 <= c < layout.chunks()) by (nonlinear_arith)
            requires
                0 <= x < plan.input.len(),
                x == ds * c + k,
                0 <= k < ds,
                layout.chunks() * ds >= plan.input.len(),
        ;
        lemma_data_block(plan, c);
        lemma_image_place(plan, layout.chunk_block(c));
        let block = plan.block(layout.chunk_block(c));
        assert(block.skip(16)[k] == block[16 + k]);
    }
    assert(back =~= plan.input);
}

} // verus!
