//! The block codec: one fixed-size block with its header, data region and CRC.

use vstd::prelude::*;

pub mod buffer;
pub mod crc;
pub mod header;
pub mod metadata;
pub mod records;
pub mod write_index;

pub use self::write_index::calc_data_block_write_index;

use crate::sbx_specs::{Version, SBX_HEADER_SIZE, SBX_LARGEST_BLOCK_SIZE, block_size_of,
    data_size_of, ver_to_block_size, ver_to_data_size};
use self::buffer::{BlockBuffer, buffer_bytes, buffer_filled, buffer_as_slice, buffer_as_mut_slice};
use self::crc::{crc_ccitt, crc_ccitt_generic};
use self::header::{Header, HeaderView, header_bytes, header_crc, header_parses, header_of_bytes,
    lemma_header_round_trip, lemma_header_bytes_of_parsed};
use self::metadata::{MetadataView, all_writable, all_legal, fits, region_bytes, parse_records,
    canonical, reparsed, lemma_metadata_round_trip};
use self::records::MetadataList;

verus! {

/// What a block carries.
#[derive(Clone, Copy, Debug, PartialEq, Eq, Structural)]
pub enum BlockType {
    Data,
    Meta,
}

/// The ways in which encoding or decoding a block fails.
#[derive(Clone, Copy, Debug, PartialEq, Eq, Structural)]
pub enum Error {
    IncorrectBlockType,
    InconsistentHeaderBlockType,
    IncorrectBufferSize,
    TooMuchMetaData,
    ParseError,
}

/// What a block owns besides its header and buffer: a metadata block owns
/// its records.
#[derive(Debug, PartialEq)]
pub enum Data {
    Data,
    Meta(MetadataList),
}

/// One block: its header, what it carries, and the buffer that holds its
/// serialized form.
#[derive(Debug, PartialEq)]
pub struct Block {
    header: Header,
    data: Data,
    buffer: BlockBuffer,
}

/// The CRC of a block: over the header, taken with its CRC field as zero,
/// and then over the whole data region.
pub open spec fn block_crc(header: HeaderView, data: Seq<u8>) -> u16 {
    crc_ccitt(header_crc(header), data)
}

impl Block {
    /// The header of the block.
    pub closed spec fn header_view(&self) -> HeaderView {
        self.header@
    }

    /// What the block carries.
    pub closed spec fn kind(&self) -> BlockType {
        match self.data {
            Data::Data => BlockType::Data,
            Data::Meta(_) => BlockType::Meta,
        }
    }

    /// The records that the block owns: those of a metadata block, and
    /// none for a data block.
    pub closed spec fn records(&self) -> Seq<MetadataView> {
        match self.data {
            Data::Data => Seq::empty(),
            Data::Meta(list) => list.records(),
        }
    }

    /// All the bytes of the buffer.
    pub closed spec fn buffer_view(&self) -> Seq<u8> {
        buffer_bytes(self.buffer)
    }

    /// The buffer has room for the largest block.
    pub open spec fn wf(&self) -> bool {
        self.buffer_view().len() == SBX_LARGEST_BLOCK_SIZE
    }

    /// The size of the block that the header's version calls for.
    pub open spec fn block_size(&self) -> int {
        block_size_of(self.header_view().version)
    }

    /// The part of the buffer that is the block.
    pub open spec fn block_bytes(&self) -> Seq<u8> {
        self.buffer_view().take(self.block_size())
    }

    /// The part of the buffer that is the block's header.
    pub open spec fn header_bytes(&self) -> Seq<u8> {
        self.buffer_view().take(16)
    }

    /// The part of the buffer that is the block's data region.
    pub open spec fn data_bytes(&self) -> Seq<u8> {
        self.buffer_view().subrange(16, self.block_size())
    }

    /// Whether the header is that of a metadata block exactly when the
    /// block carries metadata.
    pub open spec fn types_agree(&self) -> bool {
        (self.header_view().seq_num == 0) == (self.kind() is Meta)
    }

    /// A block of the given kind with a zeroed buffer. The header of a
    /// metadata block has sequence number 0, that of a data block 1.
    pub fn new(version: Version, file_uid: &[u8; 6], block_type: BlockType) -> (res: Result<
        Block,
        Error,
    >)
        ensures
            res is Ok,
            res->Ok_0.wf(),
            res->Ok_0.header_view() == (HeaderView {
                version,
                crc: 0,
                file_uid: file_uid@,
                seq_num: if block_type is Meta {
                    0u32
                } else {
                    1u32
                },
            }),
            res->Ok_0.kind() == block_type,
            res->Ok_0.records() == Seq::<MetadataView>::empty(),
            res->Ok_0.buffer_view() == Seq::new(SBX_LARGEST_BLOCK_SIZE as nat, |i: int| 0u8),
    {
        let buffer = buffer_filled(0, SBX_LARGEST_BLOCK_SIZE);
        let mut header = Header::new(version, *file_uid);
        Ok(
            match block_type {
                BlockType::Data => {
                    header.seq_num = 1;
                    Block { header, data: Data::Data, buffer }
                },
                BlockType::Meta => Block { header, data: Data::Meta(MetadataList::new()), buffer },
            },
        )
    }

    /// The header of the block.
    pub fn header(&self) -> (header: &Header)
        ensures
            header@ == self.header_view(),
    {
        &self.header
    }

    /// The header of the block, to be changed.
    pub fn header_mut(&mut self) -> (header: &mut Header)
        ensures
            header@ == old(self).header_view(),
            final(self).header_view() == final(header)@,
            final(self).kind() == old(self).kind(),
            final(self).records() == old(self).records(),
            final(self).buffer_view() == old(self).buffer_view(),
    {
        &mut self.header
    }

    /// The part of the buffer that is the block.
    pub fn buf(&self) -> (bytes: &[u8])
        requires
            self.wf(),
        ensures
            bytes@ == self.block_bytes(),
    {
        let all = buffer_as_slice(&self.buffer);
        vstd::slice::slice_subrange(all, 0, ver_to_block_size(self.header.version))
    }

    /// The part of the buffer that is the block, to be written.
    pub fn buf_mut(&mut self) -> (bytes: &mut [u8])
        requires
            old(self).wf(),
        ensures
            bytes@ == old(self).block_bytes(),
            final(self).buffer_view() == final(bytes)@ + old(self).buffer_view().skip(
                old(self).block_size(),
            ),
            final(self).header_view() == old(self).header_view(),
            final(self).kind() == old(self).kind(),
            final(self).records() == old(self).records(),
    {
        let size = ver_to_block_size(self.header.version);
        let all = buffer_as_mut_slice(&mut self.buffer);
        let (block, rest) = all.split_at_mut(size);
        proof {
            assert(old(self).buffer_view().subrange(0, size as int) =~= old(self).block_bytes());
            assert(old(self).buffer_view().subrange(size as int, 4096) =~= old(self).buffer_view().skip(size as int));
        }
        block
    }

    /// The header part and the data part of the block's bytes.
    pub fn header_data_buf(&self) -> (parts: (&[u8], &[u8]))
        requires
            self.wf(),
        ensures
            parts.0@ == self.header_bytes(),
            parts.1@ == self.data_bytes(),
    {
        let all = buffer_as_slice(&self.buffer);
        let (h, d) = all.split_at(SBX_HEADER_SIZE);
        let data = vstd::slice::slice_subrange(d, 0, ver_to_data_size(self.header.version));
        proof {
            assert(h@ =~= self.header_bytes());
            assert(data@ =~= self.data_bytes());
        }
        (h, data)
    }

    /// The header part and the data part of the block's bytes, to be
    /// written.
    pub fn header_data_buf_mut(&mut self) -> (parts: (&mut [u8], &mut [u8]))
        requires
            old(self).wf(),
        ensures
            parts.0@ == old(self).header_bytes(),
            parts.1@ == old(self).data_bytes(),
            final(self).buffer_view() == final(parts.0)@ + final(parts.1)@ + old(self).buffer_view().skip(old(self).block_size()),
            final(self).header_view() == old(self).header_view(),
            final(self).kind() == old(self).kind(),
            final(self).records() == old(self).records(),
    {
        let size = ver_to_data_size(self.header.version);
        let all = buffer_as_mut_slice(&mut self.buffer);
        let (h, d) = all.split_at_mut(SBX_HEADER_SIZE);
        let (data, rest) = d.split_at_mut(size);
        proof {
            let before = old(self).buffer_view();
            assert(h@ =~= old(self).header_bytes());
            assert(data@ =~= old(self).data_bytes());
            assert(rest@ =~= before.skip(old(self).block_size()));
            assert(final(h)@ + (final(data)@ + rest@) =~= final(h)@ + final(data)@ + rest@);
        }
        (h, data)
    }

    /// The part of the buffer that is the block's header.
    pub fn header_buf(&self) -> (bytes: &[u8])
        requires
            self.wf(),
        ensures
            bytes@ == self.header_bytes(),
    {
        self.header_data_buf().0
    }

    /// The part of the buffer that is the block's data region.
    pub fn data_buf(&self) -> (bytes: &[u8])
        requires
            self.wf(),
        ensures
            bytes@ == self.data_bytes(),
    {
        self.header_data_buf().1
    }

    /// The part of the buffer that is the block's header, to be written.
    pub fn header_buf_mut(&mut self) -> (bytes: &mut [u8])
        requires
            old(self).wf(),
        ensures
            bytes@ == old(self).header_bytes(),
            final(self).buffer_view() == final(bytes)@ + old(self).buffer_view().skip(16),
            final(self).header_view() == old(self).header_view(),
            final(self).kind() == old(self).kind(),
            final(self).records() == old(self).records(),
    {
        let all = buffer_as_mut_slice(&mut self.buffer);
        let (h, d) = all.split_at_mut(SBX_HEADER_SIZE);
        proof {
            assert(h@ =~= old(self).header_bytes());
            assert(d@ =~= old(self).buffer_view().skip(16));
        }
        h
    }

    /// The part of the buffer that is the block's data region, to be
    /// written.
    pub fn data_buf_mut(&mut self) -> (bytes: &mut [u8])
        requires
            old(self).wf(),
        ensures
            bytes@ == old(self).data_bytes(),
            final(self).buffer_view() == old(self).header_bytes() + final(bytes)@ + old(self).buffer_view().skip(old(self).block_size()),
            final(self).header_view() == old(self).header_view(),
            final(self).kind() == old(self).kind(),
            final(self).records() == old(self).records(),
    {
        let size = ver_to_data_size(self.header.version);
        let all = buffer_as_mut_slice(&mut self.buffer);
        let (h, d) = all.split_at_mut(SBX_HEADER_SIZE);
        let (data, rest) = d.split_at_mut(size);
        proof {
            let before = old(self).buffer_view();
            assert(h@ =~= old(self).header_bytes());
            assert(data@ =~= old(self).data_bytes());
            assert(rest@ =~= before.skip(old(self).block_size()));
            assert(h@ + (final(data)@ + rest@) =~= h@ + final(data)@ + rest@);
        }
        data
    }

    /// What the block carries.
    pub fn block_type(&self) -> (block_type: BlockType)
        ensures
            block_type == self.kind(),
    {
        match self.data {
            Data::Data => BlockType::Data,
            Data::Meta(_) => BlockType::Meta,
        }
    }

    /// Whether the block carries metadata.
    pub fn is_meta(&self) -> (meta: bool)
        ensures
            meta == (self.kind() is Meta),
    {
        match self.block_type() {
            BlockType::Data => false,
            BlockType::Meta => true,
        }
    }

    /// Whether the block carries data.
    pub fn is_data(&self) -> (data: bool)
        ensures
            data == (self.kind() is Data),
    {
        match self.block_type() {
            BlockType::Data => true,
            BlockType::Meta => false,
        }
    }

    /// The records of a metadata block.
    pub fn meta_ref(&self) -> (res: Result<&MetadataList, Error>)
        ensures
            match res {
                Ok(list) => self.kind() is Meta && list.records() == self.records(),
                Err(e) => self.kind() is Data && e == Error::IncorrectBlockType,
            },
    {
        match &self.data {
            Data::Data => Err(Error::IncorrectBlockType),
            Data::Meta(x) => Ok(x),
        }
    }

    /// The records of a metadata block, to be changed.
    pub fn meta_ref_mut(&mut self) -> (res: Result<&mut MetadataList, Error>)
        ensures
            match res {
                Ok(list) => old(self).kind() is Meta && list.records() == old(self).records()
                    && final(self).kind() is Meta && final(self).records() == final(list).records() && final(self).header_view() == old(self).header_view() && final(self).buffer_view() == old(self).buffer_view(),
                Err(e) => old(self).kind() is Data && e == Error::IncorrectBlockType && final(self).same_as(*old(self)),
            },
    {
        match &mut self.data {
            Data::Data => Err(Error::IncorrectBlockType),
            Data::Meta(x) => Ok(x),
        }
    }

    /// Whether two blocks have the same header, kind, records and buffer.
    pub open spec fn same_as(&self, other: Block) -> bool {
        &&& self.header_view() == other.header_view()
        &&& self.kind() == other.kind()
        &&& self.records() == other.records()
        &&& self.buffer_view() == other.buffer_view()
    }

    /// The CRC that the block's header and data region call for.
    pub open spec fn expected_crc(&self) -> u16 {
        block_crc(self.header_view(), self.data_bytes())
    }

    /// Computes the CRC over the header, taken with its CRC field as zero,
    /// and the data region.
    pub fn calc_crc(&self) -> (res: Result<u16, Error>)
        requires
            self.wf(),
        ensures
            self.types_agree() ==> res == Ok::<u16, Error>(self.expected_crc()),
            !self.types_agree() ==> res == Err::<u16, Error>(Error::InconsistentHeaderBlockType),
    {
        self.check_header_type_matches_block_type()?;
        let crc = self.header.calc_crc();
        Ok(crc_ccitt_generic(crc, self.data_buf()))
    }

    /// Sets the header's CRC field to the CRC that the block calls for.
    pub fn update_crc(&mut self) -> (res: Result<(), Error>)
        requires
            old(self).wf(),
        ensures
            final(self).kind() == old(self).kind(),
            final(self).records() == old(self).records(),
            final(self).buffer_view() == old(self).buffer_view(),
            old(self).types_agree() ==> res is Ok && final(self).header_view() == (HeaderView {
                crc: old(self).expected_crc(),
                ..old(self).header_view()
            }),
            !old(self).types_agree() ==> res == Err::<(), Error>(
                Error::InconsistentHeaderBlockType,
            ) && final(self).header_view() == old(self).header_view(),
    {
        let crc = self.calc_crc()?;
        self.header.crc = crc;
        Ok(())
    }

    fn header_type_matches_block_type(&self) -> (agree: bool)
        ensures
            agree == self.types_agree(),
    {
        self.header.is_meta() == self.is_meta()
    }

    fn check_header_type_matches_block_type(&self) -> (res: Result<(), Error>)
        ensures
            self.types_agree() ==> res is Ok,
            !self.types_agree() ==> res == Err::<(), Error>(Error::InconsistentHeaderBlockType),
    {
        if self.header_type_matches_block_type() {
            Ok(())
        } else {
            Err(Error::InconsistentHeaderBlockType)
        }
    }

    /// What `sync_to_buffer` makes of a block. Where the header and the
    /// kind disagree, or the records of a metadata block do not fit the
    /// data region, the block is left as it was. Otherwise the records fill
    /// the data region of a metadata block, the CRC field is set where that
    /// was asked for, and the header is written in front of the data region.
    pub open spec fn synced_to_buffer(
        pre: Block,
        post: Block,
        update_crc: bool,
        res: Result<(), Error>,
    ) -> bool {
        let size = data_size_of(pre.header_view().version);
        if !pre.types_agree() {
            res == Err::<(), Error>(Error::InconsistentHeaderBlockType) && post.same_as(pre)
        } else if pre.kind() is Meta && !fits(pre.records(), size) {
            res == Err::<(), Error>(Error::TooMuchMetaData) && post.same_as(pre)
        } else {
            let data = if pre.kind() is Meta {
                region_bytes(pre.records(), size)
            } else {
                pre.data_bytes()
            };
            let header = if update_crc {
                HeaderView { crc: block_crc(pre.header_view(), data), ..pre.header_view() }
            } else {
                pre.header_view()
            };
            &&& res is Ok
            &&& post.header_view() == header
            &&& post.kind() == pre.kind()
            &&& post.records() == pre.records()
            &&& post.buffer_view() == header_bytes(header) + data + pre.buffer_view().skip(
                pre.block_size(),
            )
        }
    }

    /// Brings the buffer up to date with the header and the records.
    pub fn sync_to_buffer(&mut self, update_crc: bool) -> (res: Result<(), Error>)
        requires
            old(self).wf(),
            all_writable(old(self).records()),
        ensures
            final(self).wf(),
            Self::synced_to_buffer(*old(self), *final(self), update_crc, res),
    {
        self.check_header_type_matches_block_type()?;
        let size = ver_to_data_size(self.header.version);
        let ghost before = self.buffer_view();
        match &self.data {
            Data::Meta(list) => {
                let all = buffer_as_mut_slice(&mut self.buffer);
                let (h, d) = all.split_at_mut(SBX_HEADER_SIZE);
                let (data, rest) = d.split_at_mut(size);
                let ghost data_before = data@;
                proof {
                    assert(h@ + (data_before + rest@) =~= before);
                    assert(rest@ =~= before.skip(16 + size));
                    assert(h@ =~= before.take(16));
                    assert(data_before =~= before.subrange(16, 16 + size));
                }
                let written = metadata::to_bytes(list.as_slice(), data);
                match written {
                    Err(e) => {
                        proof {
                            assert(data@ == data_before);
                        }
                        return Err(e);
                    },
                    Ok(()) => {
                        proof {
                            assert((h@ + (data@ + rest@)).subrange(16, 16 + size) =~= data@);
                        }
                    },
                }
            },
            Data::Data => {},
        }
        let ghost data = self.data_bytes();
        proof {
            assert(self.buffer_view() =~= before.take(16) + data + before.skip(16 + size));
        }
        if update_crc {
            self.update_crc()?;
        }
        let all = buffer_as_mut_slice(&mut self.buffer);
        let (h, d) = all.split_at_mut(SBX_HEADER_SIZE);
        let _ = self.header.to_bytes(h);
        proof {
            assert(d@ =~= data + before.skip(16 + size));
            assert(final(h)@ + (data + before.skip(16 + size)) =~= final(h)@ + data + before.skip(
                16 + size,
            ));
        }
        Ok(())
    }

    fn switch_block_type(&mut self)
        ensures
            final(self).header_view() == old(self).header_view(),
            final(self).buffer_view() == old(self).buffer_view(),
            final(self).kind() != old(self).kind(),
            final(self).records() == Seq::<MetadataView>::empty(),
    {
        let block_type = self.block_type();
        if block_type == BlockType::Meta {
            self.data = Data::Data;
        } else {
            self.data = Data::Meta(MetadataList::new());
        }
    }

    /// Makes the block carry what its header says. A block that changes
    /// kind keeps its buffer and has no records.
    pub fn switch_block_type_to_match_header(&mut self)
        ensures
            final(self).header_view() == old(self).header_view(),
            final(self).buffer_view() == old(self).buffer_view(),
            final(self).types_agree(),
            old(self).types_agree() ==> final(self).same_as(*old(self)),
            !old(self).types_agree() ==> final(self).records() == Seq::<MetadataView>::empty(),
    {
        if !self.header_type_matches_block_type() {
            self.switch_block_type();
        }
    }

    /// Reads the header from the buffer. The block is left as it was
    /// unless the first 16 bytes of the buffer parse as a header.
    pub fn sync_from_buffer_header_only(&mut self) -> (res: Result<(), Error>)
        requires
            old(self).wf(),
        ensures
            final(self).kind() == old(self).kind(),
            final(self).records() == old(self).records(),
            final(self).buffer_view() == old(self).buffer_view(),
            header_parses(old(self).header_bytes()) ==> res is Ok && final(self).header_view()
                == header_of_bytes(old(self).header_bytes()),
            !header_parses(old(self).header_bytes()) ==> res == Err::<(), Error>(
                Error::ParseError,
            ) && final(self).header_view() == old(self).header_view(),
    {
        let all = buffer_as_slice(&self.buffer);
        let h = vstd::slice::slice_subrange(all, 0, SBX_HEADER_SIZE);
        proof {
            assert(h@ =~= self.header_bytes());
        }
        self.header.from_bytes(h)
    }

    /// What `sync_from_buffer` makes of a block. The buffer stays. Where
    /// its first 16 bytes do not parse as a header, the block is left as it
    /// was. Otherwise the header is the one that they spell, and the block
    /// carries what that header says. A metadata block owns the records that
    /// its data region holds, or none where the region does not read.
    pub open spec fn synced_from_buffer(pre: Block, post: Block, res: Result<(), Error>) -> bool {
        &&& post.buffer_view() == pre.buffer_view()
        &&& if !header_parses(pre.header_bytes()) {
            res == Err::<(), Error>(Error::ParseError) && post.same_as(pre)
        } else {
            let header = header_of_bytes(pre.header_bytes());
            &&& post.header_view() == header
            &&& post.types_agree()
            &&& if header.seq_num == 0 {
                match parse_records(post.data_bytes()) {
                    Some(records) => res is Ok && post.records() == records,
                    None => res == Err::<(), Error>(Error::ParseError) && post.records()
                        == Seq::<MetadataView>::empty(),
                }
            } else {
                res is Ok && post.records() == Seq::<MetadataView>::empty()
            }
        }
    }

    /// Brings the header, the kind and the records up to date with the
    /// buffer.
    pub fn sync_from_buffer(&mut self) -> (res: Result<(), Error>)
        requires
            old(self).wf(),
        ensures
            final(self).wf(),
            Self::synced_from_buffer(*old(self), *final(self), res),
    {
        self.sync_from_buffer_header_only()?;
        self.switch_block_type_to_match_header();
        let size = ver_to_data_size(self.header.version);
        match &mut self.data {
            Data::Meta(meta) => {
                meta.clear();
                let all = buffer_as_slice(&self.buffer);
                let data = vstd::slice::slice_subrange(all, SBX_HEADER_SIZE, SBX_HEADER_SIZE + size);
                match metadata::from_bytes(data) {
                    Err(e) => {
                        return Err(e);
                    },
                    Ok(records) => {
                        *meta = MetadataList::from_vec(records);
                    },
                }
            },
            Data::Data => {},
        }
        Ok(())
    }

    /// Whether the header's CRC field holds the CRC that the block calls
    /// for.
    pub fn verify_crc(&self) -> (res: Result<bool, Error>)
        requires
            self.wf(),
        ensures
            self.types_agree() ==> res == Ok::<bool, Error>(
                self.header_view().crc == self.expected_crc(),
            ),
            !self.types_agree() ==> res == Err::<bool, Error>(Error::InconsistentHeaderBlockType),
    {
        Ok(self.header.crc == self.calc_crc()?)
    }
}

/// A block that `sync_to_buffer` has brought up to date with a fresh CRC
/// verifies: its header and its kind agree, and its CRC field holds the
/// CRC that its header and data region call for.
pub proof fn lemma_synced_block_verifies(before: Block, written: Block)
    requires
        before.wf(),
        Block::synced_to_buffer(before, written, true, Ok(())),
    ensures
        written.types_agree(),
        written.header_view().crc == written.expected_crc(),
{
    let size = data_size_of(before.header_view().version);
    let data = if before.kind() is Meta {
        region_bytes(before.records(), size)
    } else {
        before.data_bytes()
    };
    let header = written.header_view();
    lemma_written_parts(before, written, true);
    assert(HeaderView { crc: 0, ..header } == HeaderView { crc: 0, ..before.header_view() });
}

/// Whether a change is found. Let a block verify, and let another block
/// have its header and another data region. Then the other block verifies
/// exactly when the CRC of its data region is that of the first: a change
/// of the data region is found unless it leaves the CRC as it was.
pub proof fn lemma_verify_finds_change(written: Block, changed: Block)
    requires
        written.header_view().crc == written.expected_crc(),
        changed.header_view() == written.header_view(),
    ensures
        (changed.header_view().crc == changed.expected_crc()) <==> (crc_ccitt(
            header_crc(written.header_view()),
            changed.data_bytes(),
        ) == crc_ccitt(header_crc(written.header_view()), written.data_bytes())),
        changed.data_bytes() == written.data_bytes() ==> changed.header_view().crc
            == changed.expected_crc(),
{
}

/// The parts of a block that `sync_to_buffer` has brought up to date: its
/// first 16 bytes are its header, and its data region holds the records of
/// a metadata block, or what it held before.
pub proof fn lemma_written_parts(before: Block, written: Block, update_crc: bool)
    requires
        before.wf(),
        Block::synced_to_buffer(before, written, update_crc, Ok(())),
    ensures
        written.wf(),
        written.header_bytes() == header_bytes(written.header_view()),
        written.data_bytes() == if before.kind() is Meta {
            region_bytes(before.records(), data_size_of(before.header_view().version))
        } else {
            before.data_bytes()
        },
{
    let size = data_size_of(before.header_view().version);
    let data = if before.kind() is Meta {
        region_bytes(before.records(), size)
    } else {
        before.data_bytes()
    };
    let header = written.header_view();
    before.lemma_file_uid_len();
    lemma_header_round_trip(header);
    assert(data.len() == size);
    assert(written.header_bytes() =~= header_bytes(header));
    assert(written.data_bytes() =~= data);
}

/// A block read back. `written` is a block that `sync_to_buffer` has
/// brought up to date, and `fresh` is any block whose buffer starts with
/// the bytes of `written`. Then `sync_from_buffer` on `fresh` succeeds on a
/// data block and gives the header and the data region of `written`; on a
/// metadata block with legal records it gives the header of `written` and
/// its records in the order in which a block holds them.
pub proof fn lemma_block_round_trip(
    before: Block,
    written: Block,
    update_crc: bool,
    fresh: Block,
    read: Block,
    res: Result<(), Error>,
)
    requires
        before.wf(),
        Block::synced_to_buffer(before, written, update_crc, Ok(())),
        before.kind() is Meta ==> all_legal(before.records()),
        fresh.wf(),
        fresh.buffer_view().take(written.block_size()) == written.block_bytes(),
        Block::synced_from_buffer(fresh, read, res),
    ensures
        res is Ok,
        read.header_view() == written.header_view(),
        read.kind() == written.kind(),
        read.data_bytes() == written.data_bytes(),
        before.kind() is Data ==> read.data_bytes() == before.data_bytes(),
        before.kind() is Meta ==> read.records() == canonical(before.records()).map_values(
            |m: MetadataView| reparsed(m),
        ),
{
    let size = data_size_of(before.header_view().version);
    let header = written.header_view();
    lemma_written_parts(before, written, update_crc);
    before.lemma_file_uid_len();
    lemma_header_round_trip(header);
    let block_size = written.block_size();
    assert(fresh.header_bytes() =~= written.header_bytes()) by {
        assert(fresh.buffer_view().take(block_size).take(16) =~= fresh.buffer_view().take(16));
        assert(written.block_bytes().take(16) =~= written.header_bytes());
    }
    assert(read.data_bytes() =~= written.data_bytes()) by {
        assert(fresh.buffer_view().take(block_size).subrange(16, block_size)
            =~= fresh.buffer_view().subrange(16, block_size));
        assert(written.block_bytes().subrange(16, block_size) =~= written.data_bytes());
    }
    if before.kind() is Meta {
        lemma_metadata_round_trip(before.records(), size);
    }
}

/// A data block written back. Let `sync_from_buffer` have read a block
/// as a data block, and let `sync_to_buffer` then write it without a new
/// CRC. Then the buffer holds what it held before.
pub proof fn lemma_data_block_written_back(before: Block, read: Block, written: Block)
    requires
        before.wf(),
        Block::synced_from_buffer(before, read, Ok(())),
        read.kind() is Data,
        Block::synced_to_buffer(read, written, false, Ok(())),
    ensures
        written.buffer_view() == before.buffer_view(),
{
    let front = before.header_bytes();
    lemma_header_bytes_of_parsed(front);
    let size = read.block_size();
    let all = before.buffer_view();
    assert(written.buffer_view() =~= front + all.subrange(16, size) + all.skip(size));
    assert(front + all.subrange(16, size) + all.skip(size) =~= all);
}

impl Block {
    /// The file UID of a block's header is six bytes.
    pub proof fn lemma_file_uid_len(&self)
        ensures
            self.header_view().file_uid.len() == 6,
    {
    }
}

} // verus!
