//! What a container holds: which block stands at which place, and the
//! bytes of each block.

use vstd::prelude::*;
use vstd::arithmetic::div_mod::{lemma_fundamental_div_mod, lemma_fundamental_div_mod_converse};
use crate::sbx_specs::{Version, block_size_of, data_size_of, ver_to_block_size,
    ver_to_data_size};
use crate::sbx_block::{Block, BlockType, Error, block_crc, lemma_written_parts};
use crate::sbx_block::header::{Header, header_parses, header_of_bytes, lemma_header_round_trip,
    lemma_header_bytes_of_parsed};
use crate::sbx_block::crc::crc_ccitt_generic;
use crate::sbx_block::write_index::{block_index, layout_in_range, calc_data_block_write_index,
    lemma_write_index_in_group};
use crate::sbx_block::header::{HeaderView, header_bytes};
use crate::sbx_block::metadata::{Metadata, MetadataView, all_writable, fits, region_bytes, views};
use crate::sbx_block::records::MetadataList;
use crate::sbx_block::write_index::read_index;
use crate::rs_codec::{rs_parity, uniform};
use crate::file_utils::{ceil_div, ceil_div_u64, lemma_ceil_div};
use crate::sbx_specs::{ver_uses_rs};
use crate::file_utils::from_orig_file_size::{data_chunk_count, meta_block_count,
    total_block_count, container_size, shape_ok, group_size, max_write_index,
    lemma_max_write_index_is_max, lemma_max_write_index_bounds, lemma_max_write_index_plain};

verus! {

/// A run of zero bytes.
pub open spec fn zeros(n: int) -> Seq<u8> {
    Seq::new(n as nat, |i: int| 0u8)
}

/// Chunk `c` of a file cut into chunks of `size` bytes: its bytes of the
/// file, and zero bytes where the file has ended.
pub open spec fn chunk(input: Seq<u8>, c: int, size: int) -> Seq<u8> {
    Seq::new(
        size as nat,
        |k: int|
            if 0 <= c * size + k < input.len() {
                input[c * size + k]
            } else {
                0u8
            },
    )
}

/// The bytes of a block with a given sequence number and data region: its
/// header with the CRC of the block, and the data region.
#[verifier::opaque]
pub open spec fn block_image(version: Version, uid: Seq<u8>, seq_num: u32, data: Seq<u8>) -> Seq<
    u8,
> {
    let header = HeaderView { version, crc: 0, file_uid: uid, seq_num };
    header_bytes(HeaderView { crc: block_crc(header, data), ..header }) + data
}

/// All that decides which block of a container stands where.
pub struct Layout {
    pub version: Version,
    pub data_par_burst: Option<(usize, usize, usize)>,
    pub input_len: int,
}

impl Layout {
    /// The number of blocks that a set takes in the sequence of blocks:
    /// one without Reed-Solomon sets.
    pub open spec fn set_size(self) -> int {
        match self.data_par_burst {
            None => 1,
            Some((data, parity, _)) => data + parity,
        }
    }

    /// The number of data blocks of a set.
    pub open spec fn data_per_set(self) -> int {
        match self.data_par_burst {
            None => 1,
            Some((data, _, _)) => data as int,
        }
    }

    /// The number of parity blocks of a set.
    pub open spec fn parity_per_set(self) -> int {
        match self.data_par_burst {
            None => 0,
            Some((_, parity, _)) => parity as int,
        }
    }

    /// The size of a block.
    pub open spec fn block_size(self) -> int {
        block_size_of(self.version)
    }

    /// The size of the data region of a block.
    pub open spec fn data_size(self) -> int {
        data_size_of(self.version)
    }

    /// The number of chunks that the file makes.
    pub open spec fn chunks(self) -> int {
        data_chunk_count(self.version, self.input_len)
    }

    /// The number of metadata blocks.
    pub open spec fn meta_blocks(self) -> int {
        meta_block_count(self.data_par_burst)
    }

    /// The number of blocks, with every set counted in full.
    pub open spec fn total_blocks(self) -> int {
        total_block_count(self.version, self.data_par_burst, self.input_len)
    }

    /// The size of the container in bytes.
    pub open spec fn size(self) -> int {
        container_size(self.version, self.data_par_burst, self.input_len)
    }

    /// Whether block `j` after the metadata blocks is a data block.
    pub open spec fn is_data_slot(self, j: int) -> bool {
        j % self.set_size() < self.data_per_set()
    }

    /// The chunk of the file that data block `j` after the metadata
    /// blocks carries.
    pub open spec fn chunk_index(self, j: int) -> int {
        (j / self.set_size()) * self.data_per_set() + j % self.set_size()
    }

    /// Whether block `j` after the metadata blocks is written: every
    /// parity block is, and a data block is where the file has a chunk for
    /// it.
    pub open spec fn emitted(self, j: int) -> bool {
        self.is_data_slot(j) ==> self.chunk_index(j) < self.chunks()
    }

    /// The block of the sequence that stands at place `i` of the output.
    pub open spec fn source_index(self, i: int) -> int {
        match self.data_par_burst {
            None => i,
            Some((data, parity, burst)) => read_index(i, data as int, parity as int, burst as int),
        }
    }

    /// The place in the sequence of blocks of the data block of chunk `c`.
    pub open spec fn chunk_block(self, c: int) -> int {
        self.meta_blocks() + (c / self.data_per_set()) * self.set_size() + c
            % self.data_per_set()
    }

    /// What a container holds at the place of block `s` of the sequence.
    pub open spec fn place(self, container: Seq<u8>, s: int) -> Seq<u8> {
        let offset = block_index(s, self.data_par_burst) * self.block_size();
        container.subrange(offset, offset + self.block_size())
    }

    /// Whether a container of this layout can be worked on: the version
    /// and the shape of its sets go together, a set has a parity shard and
    /// no more than 256 shards, the sequence numbers fit 32 bits, and the
    /// container fits in memory.
    pub open spec fn ok(self) -> bool {
        &&& 0 <= self.input_len
        &&& shape_ok(self.version, self.data_par_burst)
        &&& layout_in_range(self.data_par_burst)
        &&& match self.data_par_burst {
            None => true,
            Some((data, parity, _)) => parity >= 1 && data + parity <= 256,
        }
        &&& self.total_blocks() <= u32::MAX
        &&& self.block_size() * (self.total_blocks() + group_size(self.data_par_burst))
            <= usize::MAX
    }
}

/// Whether a container of the given version and shape of sets can be
/// worked on for a file of `size` bytes.
pub fn check_layout(
    version: Version,
    data_par_burst: Option<(usize, usize, usize)>,
    size: u64,
) -> (ok: bool)
    ensures
        ok == (Layout { version, data_par_burst, input_len: size as int }).ok(),
{
    let ghost layout = Layout { version, data_par_burst, input_len: size as int };
    let block_size = ver_to_block_size(version) as u128;
    let data_size = ver_to_data_size(version) as u64;
    let chunks = ceil_div_u64(size, data_size);
    proof {
        lemma_ceil_div(size as int, data_size as int);
    }
    match data_par_burst {
        None => {
            if ver_uses_rs(version) {
                return false;
            }
            let total: u128 = 1 + chunks as u128;
            if total > u32::MAX as u128 {
                return false;
            }
            block_size * total <= usize::MAX as u128
        },
        Some((data, parity, burst)) => {
            if !ver_uses_rs(version) || data < 1 || parity < 1 || burst < 1 {
                return false;
            }
            if data > 256 || parity > 256 || data + parity > 256 {
                return false;
            }
            let set_size = (data + parity) as u128;
            proof {
                assert(set_size * burst <= 256 * burst) by (nonlinear_arith)
                    requires
                        0 <= set_size <= 256,
                        0 <= burst,
                ;
            }
            let group: u128 = set_size * (burst as u128);
            if group > u32::MAX as u128 {
                return false;
            }
            let sets = ceil_div_u64(chunks, data as u64);
            proof {
                lemma_ceil_div(chunks as int, data as int);
                assert(sets * set_size <= u64::MAX * 256) by (nonlinear_arith)
                    requires
                        0 <= sets <= u64::MAX,
                        0 <= set_size <= 256,
                ;
            }
            let total: u128 = 1 + parity as u128 + (sets as u128) * set_size;
            if total > u32::MAX as u128 {
                return false;
            }
            proof {
                assert(block_size * (total + group) <= 4096 * (u32::MAX + u32::MAX))
                    by (nonlinear_arith)
                    requires
                        0 <= block_size <= 4096,
                        0 <= total <= u32::MAX,
                        0 <= group <= u32::MAX,
                ;
            }
            block_size * (total + group) <= usize::MAX as u128
        },
    }
}

/// Whether a run of bytes is a block of the given version, file UID and
/// sequence number: a header with these and with the CRC of the block,
/// followed by a data region.
#[verifier::opaque]
pub open spec fn is_block(bytes: Seq<u8>, version: Version, uid: Seq<u8>, seq_num: u32) -> bool {
    &&& bytes.len() == block_size_of(version)
    &&& bytes == block_image(version, uid, seq_num, bytes.subrange(16, block_size_of(version)))
}

/// The bytes of a block start with its header and go on with its data
/// region, and its header holds the CRC of the block.
pub proof fn lemma_block_image_parts(version: Version, uid: Seq<u8>, seq_num: u32, data: Seq<u8>)
    requires
        uid.len() == 6,
    ensures
        ({
            let image = block_image(version, uid, seq_num, data);
            let parsed = header_of_bytes(image.take(16));
            &&& image.len() == 16 + data.len()
            &&& image.skip(16) == data
            &&& header_parses(image.take(16))
            &&& parsed.version == version
            &&& parsed.file_uid == uid
            &&& parsed.seq_num == seq_num
            &&& parsed.crc == block_crc(parsed, data)
        }),
{
    reveal(block_image);
    let plain = HeaderView { version, crc: 0, file_uid: uid, seq_num };
    let wanted = HeaderView { crc: block_crc(plain, data), ..plain };
    let front = header_bytes(wanted);
    lemma_header_round_trip(wanted);
    let image = front + data;
    assert(image.take(16) =~= front);
    assert(image.skip(16) =~= data);
    assert(HeaderView { crc: 0, ..wanted } == plain);
}

/// Bytes that start with a header which holds the CRC of the block are
/// the bytes of a block.
pub proof fn lemma_block_image_of_parts(bytes: Seq<u8>)
    requires
        bytes.len() >= 16,
        header_parses(bytes.take(16)),
        header_of_bytes(bytes.take(16)).crc == block_crc(
            header_of_bytes(bytes.take(16)),
            bytes.skip(16),
        ),
    ensures
        ({
            let parsed = header_of_bytes(bytes.take(16));
            bytes == block_image(parsed.version, parsed.file_uid, parsed.seq_num, bytes.skip(16))
        }),
{
    reveal(block_image);
    let parsed = header_of_bytes(bytes.take(16));
    let data = bytes.skip(16);
    let plain = HeaderView { crc: 0, ..parsed };
    let wanted = HeaderView { crc: block_crc(plain, data), ..plain };
    lemma_header_bytes_of_parsed(bytes.take(16));
    assert(HeaderView { crc: 0, ..plain } == plain);
    assert(parsed == wanted);
    assert(bytes =~= bytes.take(16) + data);
}

/// A run of bytes is a block of a given version, file UID and sequence
/// number exactly when it has the size of a block, starts with a header
/// that holds these, and the CRC in that header is the CRC of the block.
pub proof fn lemma_is_block(bytes: Seq<u8>, version: Version, uid: Seq<u8>, seq_num: u32)
    requires
        uid.len() == 6,
        bytes.len() == block_size_of(version),
    ensures
        is_block(bytes, version, uid, seq_num) <==> ({
            let parsed = header_of_bytes(bytes.take(16));
            &&& header_parses(bytes.take(16))
            &&& parsed.version == version
            &&& parsed.file_uid == uid
            &&& parsed.seq_num == seq_num
            &&& parsed.crc == block_crc(parsed, bytes.subrange(16, block_size_of(version)))
        }),
{
    reveal(is_block);
    let data = bytes.subrange(16, block_size_of(version));
    assert(data =~= bytes.skip(16));
    if is_block(bytes, version, uid, seq_num) {
        lemma_block_image_parts(version, uid, seq_num, data);
    }
    let parsed = header_of_bytes(bytes.take(16));
    if header_parses(bytes.take(16)) && parsed.crc == block_crc(parsed, data) {
        lemma_block_image_of_parts(bytes);
    }
}

/// Whether a run of bytes is a block of the given version, file UID and
/// sequence number.
pub fn check_block(bytes: &[u8], version: Version, uid: &[u8; 6], seq_num: u32) -> (ok: bool)
    ensures
        ok == is_block(bytes@, version, uid@, seq_num),
{
    let block_size = ver_to_block_size(version);
    proof {
        reveal(is_block);
    }
    if bytes.len() != block_size {
        return false;
    }
    proof {
        lemma_is_block(bytes@, version, uid@, seq_num);
    }
    let front = vstd::slice::slice_subrange(bytes, 0, 16);
    let data = vstd::slice::slice_subrange(bytes, 16, block_size);
    proof {
        assert(front@ =~= bytes@.take(16));
    }
    let mut header = Header::new(version, *uid);
    if header.from_bytes(front).is_err() {
        return false;
    }
    let same_uid = header.file_uid[0] == uid[0] && header.file_uid[1] == uid[1]
        && header.file_uid[2] == uid[2] && header.file_uid[3] == uid[3] && header.file_uid[4]
        == uid[4] && header.file_uid[5] == uid[5];
    proof {
        if same_uid {
            assert(header@.file_uid =~= uid@);
        }
    }
    if !(header.version == version) || !same_uid || header.seq_num != seq_num {
        return false;
    }
    header.crc == crc_ccitt_generic(header.calc_crc(), data)
}

/// A byte of the output belongs to the place that its offset divided by
/// the block size names.
pub proof fn lemma_byte_place(x: int, w: int, bs: int)
    requires
        0 < bs,
        0 <= w,
    ensures
        (w * bs <= x < w * bs + bs) <==> (0 <= x && x / bs == w),
        (w * bs <= x < w * bs + bs) ==> x % bs == x - w * bs,
{
    assert(0 <= w * bs) by (nonlinear_arith)
        requires
            0 < bs,
            0 <= w,
    ;
    if w * bs <= x < w * bs + bs {
        lemma_fundamental_div_mod_converse(x, bs, w, x - w * bs);
    }
    if 0 <= x && x / bs == w {
        lemma_fundamental_div_mod(x, bs);
        assert(bs * w == w * bs) by (nonlinear_arith);
    }
}

/// A vector of `len` zero bytes.
pub fn zero_bytes(len: usize) -> (bytes: Vec<u8>)
    ensures
        bytes@ == zeros(len as int),
{
    let mut bytes: Vec<u8> = Vec::new();
    let mut i: usize = 0;
    while i < len
        invariant
            i <= len,
            bytes@ == zeros(i as int),
        decreases len - i,
    {
        bytes.push(0);
        i = i + 1;
        proof {
            assert(bytes@ =~= zeros(i as int));
        }
    }
    bytes
}

/// Writes a run of bytes over the bytes of a vector from `offset` on.
pub fn write_at(out: &mut Vec<u8>, offset: usize, bytes: &[u8])
    requires
        offset + bytes@.len() <= old(out)@.len(),
    ensures
        final(out)@ == old(out)@.take(offset as int) + bytes@ + old(out)@.skip(
            offset + bytes@.len(),
        ),
{
    let ghost before = out@;
    let len = out.len();
    let mut i: usize = 0;
    while i < bytes.len()
        invariant
            i <= bytes.len(),
            offset + bytes@.len() <= before.len() == len,
            out@.len() == before.len(),
            forall|k: int| 0 <= k < offset ==> out@[k] == before[k],
            forall|k: int| 0 <= k < i ==> out@[offset + k] == bytes@[k],
            forall|k: int| offset + i <= k < before.len() ==> out@[k] == before[k],
        decreases bytes.len() - i,
    {
        out.set(offset + i, bytes[i]);
        i = i + 1;
    }
    proof {
        assert(out@ =~= before.take(offset as int) + bytes@ + before.skip(offset + bytes@.len()));
    }
}

/// Basic facts about the sizes of a container that can be worked on.
pub proof fn lemma_layout_sizes(layout: Layout)
    requires
        layout.ok(),
    ensures
        layout.block_size() >= 128,
        layout.data_size() == layout.block_size() - 16,
        layout.chunks() >= 0,
        layout.chunks() * layout.data_size() >= layout.input_len,
        (layout.chunks() - 1) * layout.data_size() < layout.input_len || layout.chunks() == 0,
        layout.meta_blocks() >= 1,
        layout.total_blocks() >= layout.meta_blocks(),
        layout.size() == layout.block_size() * (max_write_index(
            layout.total_blocks(),
            layout.data_par_burst,
        ) + 1),
        0 <= layout.size() <= usize::MAX,
        layout.set_size() >= layout.data_per_set() >= 1,
        layout.total_blocks() == layout.meta_blocks() + ceil_div(
            layout.chunks(),
            layout.data_per_set(),
        ) * layout.set_size(),
        ceil_div(layout.chunks(), layout.data_per_set()) * layout.data_per_set()
            >= layout.chunks(),
        ceil_div(layout.chunks(), layout.data_per_set()) >= 0,
        layout.input_len <= usize::MAX,
        group_size(layout.data_par_burst) >= 0,
{
    let total = layout.total_blocks();
    let group = group_size(layout.data_par_burst);
    let ds = layout.data_size();
    lemma_ceil_div(layout.input_len, ds);
    lemma_fundamental_div_mod(layout.input_len, ds);
    let chunks = layout.chunks();
    let q = layout.input_len / ds;
    let r = layout.input_len % ds;
    assert((chunks - 1) * ds < layout.input_len || chunks == 0) by (nonlinear_arith)
        requires
            chunks == q + if r == 0 {
                0int
            } else {
                1int
            },
            layout.input_len == ds * q + r,
            0 <= r < ds,
            0 <= q,
    ;
    lemma_ceil_div(chunks, layout.data_per_set());
    if let Some((data, parity, burst)) = layout.data_par_burst {
        assert(0 <= ceil_div(chunks, data as int) * (data + parity)) by (nonlinear_arith)
            requires
                0 <= ceil_div(chunks, data as int),
                0 <= data + parity,
        ;
        assert(0 <= (data + parity) * burst) by (nonlinear_arith)
            requires
                0 <= data + parity,
                0 <= burst,
        ;
        lemma_max_write_index_bounds(
            total,
            data as int,
            parity as int,
            burst as int,
            layout.data_par_burst,
        );
        lemma_fundamental_div_mod(total - 1, group);
    } else {
        lemma_max_write_index_plain(total, layout.data_par_burst);
        lemma_fundamental_div_mod_converse(chunks, 1, chunks, 0);
        assert(ceil_div(chunks, 1) == chunks);
        assert(chunks * 1 == chunks) by (nonlinear_arith);
    }
    let last = max_write_index(total, layout.data_par_burst);
    assert(0 <= layout.block_size() * (last + 1) <= layout.block_size() * (total + group))
        by (nonlinear_arith)
        requires
            layout.block_size() >= 1,
            0 <= last + 1 <= total + group,
    ;
    let sets = ceil_div(chunks, layout.data_per_set());
    assert(chunks <= sets * layout.set_size()) by (nonlinear_arith)
        requires
            sets * layout.data_per_set() >= chunks,
            layout.set_size() >= layout.data_per_set(),
            sets >= 0,
    ;
    assert(layout.input_len <= layout.block_size() * (total + group)) by (nonlinear_arith)
        requires
            layout.input_len <= chunks * ds,
            0 <= chunks <= total,
            0 <= ds <= layout.block_size(),
            0 <= group,
    ;
}

/// Where block `slot` of set `set` stands in the sequence of blocks.
pub proof fn lemma_set_slot(layout: Layout, set: int, slot: int)
    requires
        layout.ok(),
        0 <= set < ceil_div(layout.chunks(), layout.data_per_set()),
        0 <= slot < layout.set_size(),
    ensures
        ({
            let j = set * layout.set_size() + slot;
            &&& 0 <= set * layout.set_size() <= j
            &&& layout.meta_blocks() + j < layout.total_blocks()
            &&& j / layout.set_size() == set
            &&& j % layout.set_size() == slot
            &&& layout.is_data_slot(j) == (slot < layout.data_per_set())
            &&& layout.chunk_index(j) == set * layout.data_per_set() + slot
        }),
{
    let size = layout.set_size();
    let sets = ceil_div(layout.chunks(), layout.data_per_set());
    lemma_layout_sizes(layout);
    assert((set + 1) * size <= sets * size) by (nonlinear_arith)
        requires
            set < sets,
            size >= 1,
    ;
    assert((set + 1) * size == set * size + size) by (nonlinear_arith);
    assert(0 <= set * size) by (nonlinear_arith)
        requires
            0 <= set,
            0 <= size,
    ;
    lemma_fundamental_div_mod_converse(set * size + slot, size, set, slot);
}

/// Where the data block of a chunk stands in the sequence of blocks: the
/// chunk `set * data + slot` is block `slot` of set `set`.
pub proof fn lemma_chunk_block(layout: Layout, set: int, slot: int)
    requires
        layout.ok(),
        0 <= set,
        0 <= slot < layout.data_per_set(),
        set * layout.data_per_set() + slot < layout.chunks(),
    ensures
        set < ceil_div(layout.chunks(), layout.data_per_set()),
        layout.chunk_block(set * layout.data_per_set() + slot) == layout.meta_blocks() + set
            * layout.set_size() + slot,
        0 <= set * layout.data_per_set(),
{
    let d = layout.data_per_set();
    let sets = ceil_div(layout.chunks(), d);
    lemma_layout_sizes(layout);
    assert(set < sets) by (nonlinear_arith)
        requires
            set * d + slot < layout.chunks(),
            sets * d >= layout.chunks(),
            0 <= slot,
            d >= 1,
    ;
    assert(0 <= set * d) by (nonlinear_arith)
        requires
            0 <= set,
            0 <= d,
    ;
    lemma_fundamental_div_mod_converse(set * d + slot, d, set, slot);
}

/// The place of a block of the sequence lies within the container.
pub proof fn lemma_place_in_range(layout: Layout, s: int)
    requires
        layout.ok(),
        0 <= s < layout.total_blocks(),
    ensures
        ({
            let w = block_index(s, layout.data_par_burst);
            &&& 0 <= w
            &&& w <= w * layout.block_size()
            &&& w * layout.block_size() + layout.block_size() <= layout.size()
            &&& layout.source_index(w) == s
        }),
{
    lemma_layout_sizes(layout);
    lemma_max_write_index_is_max(layout.total_blocks(), s, layout.data_par_burst);
    let w = block_index(s, layout.data_par_burst);
    let last = max_write_index(layout.total_blocks(), layout.data_par_burst);
    let bs = layout.block_size();
    if let Some((data, parity, burst)) = layout.data_par_burst {
        lemma_write_index_in_group(s, data as int, parity as int, burst as int);
    }
    assert(0 <= w * bs && w * bs + bs <= bs * (last + 1) && w <= w * bs) by (nonlinear_arith)
        requires
            0 <= w <= last,
            0 < bs,
    ;
}

/// What a container holds at the place of a block of the sequence.
pub(crate) fn place_of<'a>(
    version: Version,
    data_par_burst: Option<(usize, usize, usize)>,
    container: &'a [u8],
    s: u64,
    Ghost(layout): Ghost<Layout>,
) -> (bytes: &'a [u8])
    requires
        layout.ok(),
        layout.version == version,
        layout.data_par_burst == data_par_burst,
        s < layout.total_blocks(),
        container@.len() == layout.size(),
    ensures
        bytes@ == layout.place(container@, s as int),
        bytes@.len() == layout.block_size(),
{
    proof {
        lemma_place_in_range(layout, s as int);
    }
    let len = container.len();
    let block_size = ver_to_block_size(version);
    let place = calc_data_block_write_index(s as u32, data_par_burst);
    let offset = place as usize * block_size;
    vstd::slice::slice_subrange(container, offset, offset + block_size)
}

/// All that decides what a container holds.
pub struct Plan {
    pub version: Version,
    pub uid: Seq<u8>,
    pub data_par_burst: Option<(usize, usize, usize)>,
    pub records: Seq<MetadataView>,
    pub input: Seq<u8>,
}

impl Plan {
    /// What decides which block stands where.
    pub open spec fn layout(self) -> Layout {
        Layout {
            version: self.version,
            data_par_burst: self.data_par_burst,
            input_len: self.input.len() as int,
        }
    }

    /// The number of blocks that a set takes in the sequence of blocks.
    pub open spec fn set_size(self) -> int {
        self.layout().set_size()
    }

    /// The number of data blocks of a set.
    pub open spec fn data_per_set(self) -> int {
        self.layout().data_per_set()
    }

    /// The number of parity blocks of a set.
    pub open spec fn parity_per_set(self) -> int {
        self.layout().parity_per_set()
    }

    /// The size of a block.
    pub open spec fn block_size(self) -> int {
        self.layout().block_size()
    }

    /// The size of the data region of a block.
    pub open spec fn data_size(self) -> int {
        self.layout().data_size()
    }

    /// The number of chunks that the file makes.
    pub open spec fn chunks(self) -> int {
        self.layout().chunks()
    }

    /// The number of metadata blocks.
    pub open spec fn meta_blocks(self) -> int {
        self.layout().meta_blocks()
    }

    /// The number of blocks, with every set counted in full.
    pub open spec fn total_blocks(self) -> int {
        self.layout().total_blocks()
    }

    /// The size of the container in bytes.
    pub open spec fn size(self) -> int {
        self.layout().size()
    }

    /// Whether block `j` after the metadata blocks is a data block.
    pub open spec fn is_data_slot(self, j: int) -> bool {
        self.layout().is_data_slot(j)
    }

    /// The chunk of the file that data block `j` after the metadata
    /// blocks carries.
    pub open spec fn chunk_index(self, j: int) -> int {
        self.layout().chunk_index(j)
    }

    /// Whether block `j` after the metadata blocks is written.
    pub open spec fn emitted(self, j: int) -> bool {
        self.layout().emitted(j)
    }

    /// The block of the sequence that stands at place `i` of the output.
    pub open spec fn source_index(self, i: int) -> int {
        self.layout().source_index(i)
    }

    /// The data shards of a set: its chunks of the file, and shards of
    /// zero bytes where the file has ended.
    pub open spec fn set_data(self, set: int) -> Seq<Seq<u8>> {
        Seq::new(
            self.data_per_set() as nat,
            |k: int| chunk(self.input, set * self.data_per_set() + k, self.data_size()),
        )
    }

    /// The number of sets.
    pub open spec fn sets(self) -> int {
        ceil_div(self.chunks(), self.data_per_set())
    }

    /// Whether the parity shards of a set are as many as a set has, each
    /// of the length of a data region.
    pub open spec fn set_parity_ok(self, set: int) -> bool {
        let parity = rs_parity(self.set_data(set), self.parity_per_set());
        parity.len() == self.parity_per_set() && uniform(parity, self.data_size())
    }

    /// Whether the parity shards of every set are as many as a set has,
    /// each of the length of a data region.
    pub open spec fn parity_ok(self) -> bool {
        self.data_par_burst is Some ==> forall|set: int|
            0 <= set < self.sets() ==> #[trigger] self.set_parity_ok(set)
    }

    /// The data region of block `j` after the metadata blocks: a chunk
    /// of the file, or a parity shard of the block's set.
    pub open spec fn shard(self, j: int) -> Seq<u8> {
        if self.is_data_slot(j) {
            chunk(self.input, self.chunk_index(j), self.data_size())
        } else {
            rs_parity(self.set_data(j / self.set_size()), self.parity_per_set())[j
                % self.set_size() - self.data_per_set()]
        }
    }

    /// The bytes of the metadata block.
    pub open spec fn meta_image(self) -> Seq<u8> {
        block_image(self.version, self.uid, 0, region_bytes(self.records, self.data_size()))
    }

    /// The bytes of block `s` of the sequence of blocks: the metadata
    /// block and its copies come first, and the sequence numbers of the
    /// blocks after them start at 1. A block that is not written is zero
    /// bytes.
    pub open spec fn block(self, s: int) -> Seq<u8> {
        let j = s - self.meta_blocks();
        if s < self.meta_blocks() {
            self.meta_image()
        } else if self.emitted(j) {
            block_image(self.version, self.uid, (j + 1) as u32, self.shard(j))
        } else {
            zeros(self.block_size())
        }
    }

    /// The container with the first `n` blocks of the sequence in their
    /// places and zero bytes elsewhere.
    pub open spec fn image_upto(self, n: int) -> Seq<u8> {
        Seq::new(
            self.size() as nat,
            |x: int|
                {
                    let s = self.source_index(x / self.block_size());
                    if 0 <= s < n {
                        self.block(s)[x % self.block_size()]
                    } else {
                        0u8
                    }
                },
        )
    }

    /// The container: every block in its place, and zero bytes at the
    /// places that no block takes.
    pub open spec fn image(self) -> Seq<u8> {
        self.image_upto(self.total_blocks())
    }
}

/// The bytes of a data block or parity block: a block with the given
/// sequence number whose data region starts with `data` and goes on with
/// zero bytes.
pub fn make_block(version: Version, uid: &[u8; 6], seq_num: u32, data: &[u8]) -> (bytes: Vec<u8>)
    requires
        seq_num != 0,
        data@.len() <= data_size_of(version),
    ensures
        bytes@ == block_image(
            version,
            uid@,
            seq_num,
            data@ + zeros(data_size_of(version) - data@.len()),
        ),
        bytes@.len() == block_size_of(version),
{
    let mut block = match Block::new(version, uid, BlockType::Data) {
        Ok(block) => block,
        Err(_) => vstd::pervasive::unreached(),
    };
    let header = block.header_mut();
    header.seq_num = seq_num;
    let region = block.data_buf_mut();
    let mut i: usize = 0;
    while i < data.len()
        invariant
            i <= data.len(),
            region@.len() == data_size_of(version),
            data@.len() <= data_size_of(version),
            forall|k: int| 0 <= k < i ==> region@[k] == data@[k],
            forall|k: int| i <= k < region@.len() ==> region@[k] == 0,
        decreases data.len() - i,
    {
        region[i] = data[i];
        i = i + 1;
    }
    proof {
        assert(region@ =~= data@ + zeros(data_size_of(version) - data@.len()));
    }
    let ghost before = block;
    proof {
        assert(before.data_bytes() =~= data@ + zeros(data_size_of(version) - data@.len()));
    }
    let res = block.sync_to_buffer(true);
    proof {
        reveal(block_image);
        lemma_written_parts(before, block, true);
        let padded = data@ + zeros(data_size_of(version) - data@.len());
        let header = HeaderView { version, crc: 0, file_uid: uid@, seq_num };
        assert(HeaderView { crc: 0, ..before.header_view() } == header);
        assert(block.block_bytes() =~= block.header_bytes() + block.data_bytes());
    }
    vstd::slice::slice_to_vec(block.buf())
}

/// The bytes of a metadata block that holds the given records, unless
/// they do not fit its data region.
pub fn make_meta_block(version: Version, uid: &[u8; 6], records: Vec<Metadata>) -> (res: Result<
    Vec<u8>,
    Error,
>)
    requires
        all_writable(views(records@)),
    ensures
        fits(views(records@), data_size_of(version)) ==> res is Ok && res->Ok_0@ == block_image(
            version,
            uid@,
            0,
            region_bytes(views(records@), data_size_of(version)),
        ) && res->Ok_0@.len() == block_size_of(version),
        !fits(views(records@), data_size_of(version)) ==> res == Err::<Vec<u8>, Error>(
            Error::TooMuchMetaData,
        ),
{
    let mut block = match Block::new(version, uid, BlockType::Meta) {
        Ok(block) => block,
        Err(_) => vstd::pervasive::unreached(),
    };
    match block.meta_ref_mut() {
        Ok(list) => {
            *list = MetadataList::from_vec(records);
        },
        Err(_) => {},
    }
    let ghost before = block;
    match block.sync_to_buffer(true) {
        Err(e) => Err(e),
        Ok(()) => {
            proof {
                reveal(block_image);
                lemma_written_parts(before, block, true);
                let header = HeaderView { version, crc: 0, file_uid: uid@, seq_num: 0 };
                assert(HeaderView { crc: 0, ..before.header_view() } == header);
                assert(block.block_bytes() =~= block.header_bytes() + block.data_bytes());
            }
            Ok(vstd::slice::slice_to_vec(block.buf()))
        },
    }
}

} // verus!
