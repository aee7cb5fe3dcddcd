//! The records of a metadata block: a three-byte identifier, one length
//! byte and a value, packed one after another and followed by zero bytes.

use vstd::prelude::*;
use crate::multihash::{HashBytes, HashType, multihash_bytes};
use crate::multihash::specs::{Param, digest_length_of, total_length_of};
use crate::multihash::parsers::{hash_type_in, digest_in, parsed_name, multihash_w_len_p,
    lemma_multihash_round_trip};
use crate::sbx_block::Error;
use crate::sbx_block::header::{u32_be, u32_of_be};

verus! {

/// One record of a metadata block.
#[derive(Debug, PartialEq)]
pub enum Metadata {
    /// Name of the file that the container holds.
    FNM(Vec<u8>),
    /// Name of the container.
    SNM(Vec<u8>),
    /// Size of the file in bytes.
    FSZ(u64),
    /// When the file was last modified, in seconds since the epoch.
    FDT(i64),
    /// When the container was made, in seconds since the epoch.
    SDT(i64),
    /// Hash of the file.
    HSH(HashBytes),
    /// Number of data shards in a Reed-Solomon set.
    RSD(u8),
    /// Number of parity shards in a Reed-Solomon set.
    RSP(u8),
    /// Padding.
    PID(Vec<u8>),
}

/// The kinds of record, in the order in which a block holds them.
#[derive(Clone, Copy, Debug, PartialEq, Eq, Structural)]
pub enum MetadataID {
    FNM,
    SNM,
    FSZ,
    FDT,
    SDT,
    HSH,
    RSD,
    RSP,
    PID,
}

/// A record as mathematical data.
pub enum MetadataView {
    FNM(Seq<u8>),
    SNM(Seq<u8>),
    FSZ(u64),
    FDT(i64),
    SDT(i64),
    HSH(HashType, Seq<u8>),
    RSD(u8),
    RSP(u8),
    PID(Seq<u8>),
}

impl View for Metadata {
    type V = MetadataView;

    open spec fn view(&self) -> MetadataView {
        match *self {
            Metadata::FNM(x) => MetadataView::FNM(x@),
            Metadata::SNM(x) => MetadataView::SNM(x@),
            Metadata::FSZ(x) => MetadataView::FSZ(x),
            Metadata::FDT(x) => MetadataView::FDT(x),
            Metadata::SDT(x) => MetadataView::SDT(x),
            Metadata::HSH(h) => MetadataView::HSH(h.0, h.1@),
            Metadata::RSD(x) => MetadataView::RSD(x),
            Metadata::RSP(x) => MetadataView::RSP(x),
            Metadata::PID(x) => MetadataView::PID(x@),
        }
    }
}

/// The views of a run of records.
pub open spec fn views(records: Seq<Metadata>) -> Seq<MetadataView> {
    records.map_values(|m: Metadata| m@)
}

/// A 64-bit value as eight bytes, most significant first.
pub open spec fn u64_be(x: u64) -> Seq<u8> {
    u32_be((x / 0x1_0000_0000) as u32) + u32_be((x % 0x1_0000_0000) as u32)
}

/// The 64-bit value that eight bytes spell, most significant first.
pub open spec fn u64_of_be(b: Seq<u8>) -> u64 {
    (u32_of_be(b.subrange(0, 4)) * 0x1_0000_0000 + u32_of_be(b.subrange(4, 8))) as u64
}

/// The bit pattern of a signed 64-bit value in two's complement.
pub open spec fn i64_bits(x: i64) -> u64 {
    if x >= 0 {
        x as u64
    } else {
        (x + 0x1_0000_0000_0000_0000) as u64
    }
}

/// The signed value with a given bit pattern in two's complement.
pub open spec fn i64_of_bits(x: u64) -> i64 {
    if x < 0x8000_0000_0000_0000 {
        x as i64
    } else {
        (x - 0x1_0000_0000_0000_0000) as i64
    }
}

/// The kind of a record.
pub open spec fn id_of(m: MetadataView) -> MetadataID {
    match m {
        MetadataView::FNM(_) => MetadataID::FNM,
        MetadataView::SNM(_) => MetadataID::SNM,
        MetadataView::FSZ(_) => MetadataID::FSZ,
        MetadataView::FDT(_) => MetadataID::FDT,
        MetadataView::SDT(_) => MetadataID::SDT,
        MetadataView::HSH(_, _) => MetadataID::HSH,
        MetadataView::RSD(_) => MetadataID::RSD,
        MetadataView::RSP(_) => MetadataID::RSP,
        MetadataView::PID(_) => MetadataID::PID,
    }
}

/// The place of a kind of record in the order in which a block holds them.
pub open spec fn rank_of(id: MetadataID) -> int {
    match id {
        MetadataID::FNM => 0,
        MetadataID::SNM => 1,
        MetadataID::FSZ => 2,
        MetadataID::FDT => 3,
        MetadataID::SDT => 4,
        MetadataID::HSH => 5,
        MetadataID::RSD => 6,
        MetadataID::RSP => 7,
        MetadataID::PID => 8,
    }
}

/// The three bytes that name a kind of record: its letters in ASCII.
pub open spec fn id_bytes(id: MetadataID) -> Seq<u8> {
    match id {
        MetadataID::FNM => seq![0x46u8, 0x4eu8, 0x4du8],
        MetadataID::SNM => seq![0x53u8, 0x4eu8, 0x4du8],
        MetadataID::FSZ => seq![0x46u8, 0x53u8, 0x5au8],
        MetadataID::FDT => seq![0x46u8, 0x44u8, 0x54u8],
        MetadataID::SDT => seq![0x53u8, 0x44u8, 0x54u8],
        MetadataID::HSH => seq![0x48u8, 0x53u8, 0x48u8],
        MetadataID::RSD => seq![0x52u8, 0x53u8, 0x44u8],
        MetadataID::RSP => seq![0x52u8, 0x53u8, 0x50u8],
        MetadataID::PID => seq![0x50u8, 0x49u8, 0x44u8],
    }
}

/// Whether three bytes are the given ones.
pub open spec fn spells(b: Seq<u8>, b0: u8, b1: u8, b2: u8) -> bool {
    b.len() == 3 && b[0] == b0 && b[1] == b1 && b[2] == b2
}

/// The kind of record that three bytes name, if any.
pub open spec fn id_of_bytes(b: Seq<u8>) -> Option<MetadataID> {
    if spells(b, 0x46, 0x4e, 0x4d) {
        Some(MetadataID::FNM)
    } else if spells(b, 0x53, 0x4e, 0x4d) {
        Some(MetadataID::SNM)
    } else if spells(b, 0x46, 0x53, 0x5a) {
        Some(MetadataID::FSZ)
    } else if spells(b, 0x46, 0x44, 0x54) {
        Some(MetadataID::FDT)
    } else if spells(b, 0x53, 0x44, 0x54) {
        Some(MetadataID::SDT)
    } else if spells(b, 0x48, 0x53, 0x48) {
        Some(MetadataID::HSH)
    } else if spells(b, 0x52, 0x53, 0x44) {
        Some(MetadataID::RSD)
    } else if spells(b, 0x52, 0x53, 0x50) {
        Some(MetadataID::RSP)
    } else if spells(b, 0x50, 0x49, 0x44) {
        Some(MetadataID::PID)
    } else {
        None
    }
}

/// The value of a record as bytes.
pub open spec fn value_bytes(m: MetadataView) -> Seq<u8> {
    match m {
        MetadataView::FNM(x) => x,
        MetadataView::SNM(x) => x,
        MetadataView::FSZ(x) => u64_be(x),
        MetadataView::FDT(x) => u64_be(i64_bits(x)),
        MetadataView::SDT(x) => u64_be(i64_bits(x)),
        MetadataView::HSH(hash_type, digest) => multihash_bytes(hash_type, digest),
        MetadataView::RSD(x) => seq![x],
        MetadataView::RSP(x) => seq![x],
        MetadataView::PID(x) => x,
    }
}

/// Whether a record's value can be written: a hash holds a whole digest.
pub open spec fn writable(m: MetadataView) -> bool {
    match m {
        MetadataView::HSH(hash_type, digest) => digest.len() >= digest_length_of(hash_type),
        _ => true,
    }
}

/// Whether a record's value fits the one byte that holds its length.
pub open spec fn fits_length_byte(m: MetadataView) -> bool {
    value_bytes(m).len() <= 255
}

/// A record as bytes: identifier, length of the value, value.
pub open spec fn record_bytes(m: MetadataView) -> Seq<u8> {
    id_bytes(id_of(m)) + seq![value_bytes(m).len() as u8] + value_bytes(m)
}

/// A run of records as bytes, one after another.
pub open spec fn records_bytes(records: Seq<MetadataView>) -> Seq<u8>
    decreases records.len(),
{
    if records.len() == 0 {
        Seq::empty()
    } else {
        record_bytes(records.first()) + records_bytes(records.drop_first())
    }
}

/// The records of one kind, in the order in which they stand.
pub open spec fn of_rank(records: Seq<MetadataView>, rank: int) -> Seq<MetadataView>
    decreases records.len(),
{
    if records.len() == 0 {
        Seq::empty()
    } else {
        let front = of_rank(records.drop_last(), rank);
        if rank_of(id_of(records.last())) == rank {
            front.push(records.last())
        } else {
            front
        }
    }
}

/// The records of the first `ranks` kinds, kind by kind.
pub open spec fn canonical_upto(records: Seq<MetadataView>, ranks: int) -> Seq<MetadataView>
    decreases ranks,
{
    if ranks <= 0 {
        Seq::empty()
    } else {
        canonical_upto(records, ranks - 1) + of_rank(records, ranks - 1)
    }
}

/// The records in the order in which a block holds them: kind by kind, and
/// within a kind as they stood.
pub open spec fn canonical(records: Seq<MetadataView>) -> Seq<MetadataView> {
    canonical_upto(records, 9)
}

/// Whether every record of a run can be written.
pub open spec fn all_writable(records: Seq<MetadataView>) -> bool {
    forall|i: int| 0 <= i < records.len() ==> writable(#[trigger] records[i])
}

/// Whether the value of every record of a run fits its length byte.
pub open spec fn all_fit_length_byte(records: Seq<MetadataView>) -> bool {
    forall|i: int| 0 <= i < records.len() ==> fits_length_byte(#[trigger] records[i])
}

/// Whether a run of records fits a data region of `size` bytes.
pub open spec fn fits(records: Seq<MetadataView>, size: int) -> bool {
    all_fit_length_byte(records) && records_bytes(canonical(records)).len() <= size
}

/// A data region that holds a run of records: the records in the order in
/// which a block holds them, then zero bytes.
pub open spec fn region_bytes(records: Seq<MetadataView>, size: int) -> Seq<u8> {
    let packed = records_bytes(canonical(records));
    packed + Seq::new((size - packed.len()) as nat, |i: int| 0u8)
}

/// The bytes of a run of records with one more record after it.
pub proof fn lemma_records_bytes_push(records: Seq<MetadataView>, m: MetadataView)
    ensures
        records_bytes(records.push(m)) == records_bytes(records) + record_bytes(m),
    decreases records.len(),
{
    if records.len() == 0 {
        let rest = records.push(m).drop_first();
        assert(rest =~= Seq::<MetadataView>::empty());
        assert(records_bytes(rest) =~= Seq::<u8>::empty());
        assert(records.push(m).first() == m);
        assert(records_bytes(records.push(m)) =~= record_bytes(m));
        assert(records_bytes(records) + record_bytes(m) =~= record_bytes(m));
    } else {
        lemma_records_bytes_push(records.drop_first(), m);
        assert(records.push(m).drop_first() =~= records.drop_first().push(m));
        assert(records.push(m).first() == records.first());
        assert(record_bytes(records.first()) + (records_bytes(records.drop_first())
            + record_bytes(m)) =~= (record_bytes(records.first()) + records_bytes(
            records.drop_first(),
        )) + record_bytes(m));
    }
}

impl Clone for Metadata {
    fn clone(&self) -> (copy: Metadata)
        ensures
            copy@ == self@,
    {
        match self {
            Metadata::FNM(x) => Metadata::FNM(vstd::slice::slice_to_vec(x.as_slice())),
            Metadata::SNM(x) => Metadata::SNM(vstd::slice::slice_to_vec(x.as_slice())),
            Metadata::FSZ(x) => Metadata::FSZ(*x),
            Metadata::FDT(x) => Metadata::FDT(*x),
            Metadata::SDT(x) => Metadata::SDT(*x),
            Metadata::HSH(h) => Metadata::HSH((h.0, vstd::slice::slice_to_vec(h.1.as_slice()))),
            Metadata::RSD(x) => Metadata::RSD(*x),
            Metadata::RSP(x) => Metadata::RSP(*x),
            Metadata::PID(x) => Metadata::PID(vstd::slice::slice_to_vec(x.as_slice())),
        }
    }
}

impl Metadata {
    /// The kind of this record.
    pub fn id(&self) -> (id: MetadataID)
        ensures
            id == id_of(self@),
    {
        match self {
            Metadata::FNM(_) => MetadataID::FNM,
            Metadata::SNM(_) => MetadataID::SNM,
            Metadata::FSZ(_) => MetadataID::FSZ,
            Metadata::FDT(_) => MetadataID::FDT,
            Metadata::SDT(_) => MetadataID::SDT,
            Metadata::HSH(_) => MetadataID::HSH,
            Metadata::RSD(_) => MetadataID::RSD,
            Metadata::RSP(_) => MetadataID::RSP,
            Metadata::PID(_) => MetadataID::PID,
        }
    }
}

/// The place of a kind of record in the order in which a block holds them.
pub fn id_to_rank(id: MetadataID) -> (rank: u8)
    ensures
        rank == rank_of(id),
{
    match id {
        MetadataID::FNM => 0,
        MetadataID::SNM => 1,
        MetadataID::FSZ => 2,
        MetadataID::FDT => 3,
        MetadataID::SDT => 4,
        MetadataID::HSH => 5,
        MetadataID::RSD => 6,
        MetadataID::RSP => 7,
        MetadataID::PID => 8,
    }
}

/// The three bytes that name a kind of record.
pub fn id_to_bytes(id: MetadataID) -> (bytes: [u8; 3])
    ensures
        bytes@ == id_bytes(id),
{
    let bytes: [u8; 3] = match id {
        MetadataID::FNM => [0x46, 0x4e, 0x4d],
        MetadataID::SNM => [0x53, 0x4e, 0x4d],
        MetadataID::FSZ => [0x46, 0x53, 0x5a],
        MetadataID::FDT => [0x46, 0x44, 0x54],
        MetadataID::SDT => [0x53, 0x44, 0x54],
        MetadataID::HSH => [0x48, 0x53, 0x48],
        MetadataID::RSD => [0x52, 0x53, 0x44],
        MetadataID::RSP => [0x52, 0x53, 0x50],
        MetadataID::PID => [0x50, 0x49, 0x44],
    };
    proof {
        assert(bytes@ =~= id_bytes(id));
    }
    bytes
}

/// A 32-bit value as four bytes, most significant first.
fn u32_to_be(x: u32) -> (bytes: [u8; 4])
    ensures
        bytes@ == u32_be(x),
{
    let bytes: [u8; 4] = [
        (x / 0x100_0000) as u8,
        ((x / 0x1_0000) % 256) as u8,
        ((x / 0x100) % 256) as u8,
        (x % 256) as u8,
    ];
    proof {
        assert(bytes@ =~= u32_be(x));
    }
    bytes
}

/// A 64-bit value as eight bytes, most significant first.
fn u64_to_be(x: u64) -> (bytes: Vec<u8>)
    ensures
        bytes@ == u64_be(x),
{
    let high = u32_to_be((x / 0x1_0000_0000) as u32);
    let low = u32_to_be((x % 0x1_0000_0000) as u32);
    let bytes: Vec<u8> = vec![
        high[0],
        high[1],
        high[2],
        high[3],
        low[0],
        low[1],
        low[2],
        low[3],
    ];
    proof {
        assert(bytes@ =~= u64_be(x));
    }
    bytes
}

/// The bit pattern of a signed 64-bit value in two's complement.
fn i64_to_bits(x: i64) -> (bits: u64)
    ensures
        bits == i64_bits(x),
{
    if x >= 0 {
        x as u64
    } else {
        let lifted: i64 = x + i64::MAX + 1;
        lifted as u64 + 0x8000_0000_0000_0000
    }
}

/// The value of a record as bytes.
fn value_to_vec(m: &Metadata) -> (bytes: Vec<u8>)
    requires
        writable(m@),
    ensures
        bytes@ == value_bytes(m@),
{
    match m {
        Metadata::FNM(x) => vstd::slice::slice_to_vec(x.as_slice()),
        Metadata::SNM(x) => vstd::slice::slice_to_vec(x.as_slice()),
        Metadata::FSZ(x) => u64_to_be(*x),
        Metadata::FDT(x) => u64_to_be(i64_to_bits(*x)),
        Metadata::SDT(x) => u64_to_be(i64_to_bits(*x)),
        Metadata::HSH(h) => crate::multihash::hash_bytes_into_bytes(h),
        Metadata::RSD(x) => vec![*x],
        Metadata::RSP(x) => vec![*x],
        Metadata::PID(x) => vstd::slice::slice_to_vec(x.as_slice()),
    }
}

/// Appends a run of bytes to a vector.
fn append_bytes(out: &mut Vec<u8>, bytes: &[u8])
    ensures
        final(out)@ == old(out)@ + bytes@,
{
    let ghost before = out@;
    let mut i: usize = 0;
    while i < bytes.len()
        invariant
            i <= bytes.len(),
            out@ == before + bytes@.take(i as int),
        decreases bytes.len() - i,
    {
        out.push(bytes[i]);
        i = i + 1;
        proof {
            assert(out@ =~= before + bytes@.take(i as int));
        }
    }
    proof {
        assert(bytes@.take(i as int) =~= bytes@);
    }
}

/// The records of a run as bytes, in the order in which a block holds
/// them, unless the value of one does not fit its length byte.
fn pack(meta: &[Metadata]) -> (packed: Option<Vec<u8>>)
    requires
        all_writable(views(meta@)),
    ensures
        packed is Some <==> all_fit_length_byte(views(meta@)),
        packed is Some ==> packed->0@ == records_bytes(canonical(views(meta@))),
{
    let ghost all = views(meta@);
    let mut out: Vec<u8> = Vec::new();
    let mut rank: u8 = 0;
    while rank < 9
        invariant
            rank <= 9,
            all == views(meta@),
            all_writable(all),
            out@ == records_bytes(canonical_upto(all, rank as int)),
            forall|j: int|
                0 <= j < all.len() && rank_of(id_of(all[j])) < rank ==> fits_length_byte(
                    #[trigger] all[j],
                ),
        decreases 9 - rank,
    {
        let mut i: usize = 0;
        proof {
            assert(all.take(0) =~= Seq::<MetadataView>::empty());
            assert(canonical_upto(all, rank as int) + of_rank(all.take(0), rank as int)
                =~= canonical_upto(all, rank as int));
        }
        while i < meta.len()
            invariant
                i <= meta.len(),
                rank < 9,
                all == views(meta@),
                all_writable(all),
                out@ == records_bytes(
                    canonical_upto(all, rank as int) + of_rank(all.take(i as int), rank as int),
                ),
                forall|j: int|
                    0 <= j < all.len() && rank_of(id_of(all[j])) < rank ==> fits_length_byte(
                        #[trigger] all[j],
                    ),
                forall|j: int|
                    0 <= j < i && rank_of(id_of(all[j])) == rank ==> fits_length_byte(
                        #[trigger] all[j],
                    ),
            decreases meta.len() - i,
        {
            let ghost written = canonical_upto(all, rank as int) + of_rank(
                all.take(i as int),
                rank as int,
            );
            proof {
                assert(all[i as int] == meta@[i as int]@);
                assert(all.take(i + 1).drop_last() =~= all.take(i as int));
                assert(all.take(i + 1).last() == all[i as int]);
                assert(writable(all[i as int]));
            }
            let id = meta[i].id();
            if id_to_rank(id) == rank {
                let value = value_to_vec(&meta[i]);
                if value.len() > 255 {
                    proof {
                        assert(!fits_length_byte(all[i as int]));
                    }
                    return None;
                }
                let name = id_to_bytes(id);
                let ghost before = out@;
                append_bytes(&mut out, name.as_slice());
                out.push(value.len() as u8);
                append_bytes(&mut out, value.as_slice());
                proof {
                    lemma_records_bytes_push(written, all[i as int]);
                    assert(written.push(all[i as int]) =~= canonical_upto(all, rank as int)
                        + of_rank(all.take(i + 1), rank as int));
                    assert(out@ =~= before + record_bytes(all[i as int]));
                }
            }
            i = i + 1;
        }
        proof {
            assert(all.take(i as int) =~= all);
        }
        rank = rank + 1;
    }
    proof {
        assert forall|j: int| 0 <= j < all.len() implies fits_length_byte(#[trigger] all[j]) by {
            assert(rank_of(id_of(all[j])) < 9);
        }
    }
    Some(out)
}

/// Writes a run of records into a data region: the records in the order
/// in which a block holds them, then zero bytes to the end of the region.
/// Where the records do not fit, the region is left as it was.
pub fn to_bytes(meta: &[Metadata], buffer: &mut [u8]) -> (res: Result<(), Error>)
    requires
        all_writable(views(meta@)),
    ensures
        final(buffer)@.len() == old(buffer)@.len(),
        fits(views(meta@), old(buffer)@.len() as int) ==> res is Ok && final(buffer)@
            == region_bytes(views(meta@), old(buffer)@.len() as int),
        !fits(views(meta@), old(buffer)@.len() as int) ==> res == Err::<(), Error>(
            Error::TooMuchMetaData,
        ) && final(buffer)@ == old(buffer)@,
{
    let packed = match pack(meta) {
        Some(packed) => packed,
        None => {
            return Err(Error::TooMuchMetaData);
        },
    };
    if packed.len() > buffer.len() {
        return Err(Error::TooMuchMetaData);
    }
    let size = buffer.len();
    let mut i: usize = 0;
    while i < size
        invariant
            i <= size,
            size == buffer@.len(),
            packed@.len() <= size,
            forall|j: int|
                0 <= j < i ==> buffer@[j] == (if j < packed@.len() {
                    packed@[j]
                } else {
                    0u8
                }),
        decreases size - i,
    {
        if i < packed.len() {
            buffer[i] = packed[i];
        } else {
            buffer[i] = 0;
        }
        i = i + 1;
    }
    proof {
        assert(buffer@ =~= region_bytes(views(meta@), size as int));
    }
    Ok(())
}

/// What an identifier and a value read as.
pub enum Decoded {
    /// A record of a known kind.
    Known(MetadataView),
    /// A record of a kind that is not known: it is passed over.
    Unknown,
    /// A record of a known kind whose value does not read as one.
    Malformed,
}

/// What an identifier and a value read as. A size or a time is eight
/// bytes, a shard count is one, and a hash is a multihash whose length is
/// that of the value.
pub open spec fn decode_record(id: Seq<u8>, value: Seq<u8>) -> Decoded {
    match id_of_bytes(id) {
        None => Decoded::Unknown,
        Some(MetadataID::FNM) => Decoded::Known(MetadataView::FNM(value)),
        Some(MetadataID::SNM) => Decoded::Known(MetadataView::SNM(value)),
        Some(MetadataID::PID) => Decoded::Known(MetadataView::PID(value)),
        Some(MetadataID::FSZ) => if value.len() == 8 {
            Decoded::Known(MetadataView::FSZ(u64_of_be(value)))
        } else {
            Decoded::Malformed
        },
        Some(MetadataID::FDT) => if value.len() == 8 {
            Decoded::Known(MetadataView::FDT(i64_of_bits(u64_of_be(value))))
        } else {
            Decoded::Malformed
        },
        Some(MetadataID::SDT) => if value.len() == 8 {
            Decoded::Known(MetadataView::SDT(i64_of_bits(u64_of_be(value))))
        } else {
            Decoded::Malformed
        },
        Some(MetadataID::RSD) => if value.len() == 1 {
            Decoded::Known(MetadataView::RSD(value[0]))
        } else {
            Decoded::Malformed
        },
        Some(MetadataID::RSP) => if value.len() == 1 {
            Decoded::Known(MetadataView::RSP(value[0]))
        } else {
            Decoded::Malformed
        },
        Some(MetadataID::HSH) => {
            let framed = seq![value.len() as u8] + value;
            match hash_type_in(framed) {
                Some(hash_type) => Decoded::Known(
                    MetadataView::HSH(hash_type, digest_in(framed, hash_type)),
                ),
                None => Decoded::Malformed,
            }
        },
    }
}

/// Whether every byte is zero.
pub open spec fn all_zero(bytes: Seq<u8>) -> bool {
    forall|i: int| 0 <= i < bytes.len() ==> bytes[i] == 0
}

/// A run of records before what reading the rest gave.
pub open spec fn prefixed(
    records: Seq<MetadataView>,
    rest: Option<Seq<MetadataView>>,
) -> Option<Seq<MetadataView>> {
    match rest {
        Some(rest) => Some(records + rest),
        None => None,
    }
}

/// The records that a data region holds, read from left to right. A
/// record of an unknown kind is passed over by its length. The region does
/// not read where a value goes past its end, where a value of a known kind
/// is malformed, or where it ends in fewer than four bytes that are not
/// all zero.
pub open spec fn parse_records(bytes: Seq<u8>) -> Option<Seq<MetadataView>>
    decreases bytes.len(),
{
    if bytes.len() < 4 {
        if all_zero(bytes) {
            Some(Seq::empty())
        } else {
            None
        }
    } else {
        let len = bytes[3] as int;
        if 4 + len > bytes.len() {
            None
        } else {
            let rest = parse_records(bytes.skip(4 + len));
            match decode_record(bytes.subrange(0, 3), bytes.subrange(4, 4 + len)) {
                Decoded::Malformed => None,
                Decoded::Unknown => rest,
                Decoded::Known(m) => prefixed(seq![m], rest),
            }
        }
    }
}

/// The kind of record that three bytes name, if any.
pub fn bytes_to_id(b0: u8, b1: u8, b2: u8) -> (id: Option<MetadataID>)
    ensures
        id == id_of_bytes(seq![b0, b1, b2]),
{
    if b0 == 0x46 && b1 == 0x4e && b2 == 0x4d {
        Some(MetadataID::FNM)
    } else if b0 == 0x53 && b1 == 0x4e && b2 == 0x4d {
        Some(MetadataID::SNM)
    } else if b0 == 0x46 && b1 == 0x53 && b2 == 0x5a {
        Some(MetadataID::FSZ)
    } else if b0 == 0x46 && b1 == 0x44 && b2 == 0x54 {
        Some(MetadataID::FDT)
    } else if b0 == 0x53 && b1 == 0x44 && b2 == 0x54 {
        Some(MetadataID::SDT)
    } else if b0 == 0x48 && b1 == 0x53 && b2 == 0x48 {
        Some(MetadataID::HSH)
    } else if b0 == 0x52 && b1 == 0x53 && b2 == 0x44 {
        Some(MetadataID::RSD)
    } else if b0 == 0x52 && b1 == 0x53 && b2 == 0x50 {
        Some(MetadataID::RSP)
    } else if b0 == 0x50 && b1 == 0x49 && b2 == 0x44 {
        Some(MetadataID::PID)
    } else {
        None
    }
}

/// The 32-bit value that four bytes spell, most significant first.
fn u32_from_be(b: &[u8]) -> (x: u32)
    requires
        b@.len() == 4,
    ensures
        x == u32_of_be(b@),
{
    b[0] as u32 * 0x100_0000 + b[1] as u32 * 0x1_0000 + b[2] as u32 * 0x100 + b[3] as u32
}

/// The 64-bit value that eight bytes spell, most significant first.
fn u64_from_be(b: &[u8]) -> (x: u64)
    requires
        b@.len() == 8,
    ensures
        x == u64_of_be(b@),
{
    let high = u32_from_be(vstd::slice::slice_subrange(b, 0, 4));
    let low = u32_from_be(vstd::slice::slice_subrange(b, 4, 8));
    high as u64 * 0x1_0000_0000 + low as u64
}

/// The signed value with a given bit pattern in two's complement.
fn i64_from_bits(x: u64) -> (value: i64)
    ensures
        value == i64_of_bits(x),
{
    if x < 0x8000_0000_0000_0000 {
        x as i64
    } else {
        let low: i64 = (x - 0x8000_0000_0000_0000) as i64;
        low + i64::MIN
    }
}

/// What the record of a known kind with a given value reads as, if the
/// value reads as one. `framed` is the value with its length byte before it.
fn decode_known(id: MetadataID, framed: &[u8]) -> (m: Option<Metadata>)
    requires
        1 <= framed@.len() <= 256,
        framed@[0] == framed@.len() - 1,
    ensures
        match m {
            Some(m) => decode_record(id_bytes(id), framed@.skip(1)) == Decoded::Known(m@),
            None => decode_record(id_bytes(id), framed@.skip(1)) == Decoded::Malformed,
        },
{
    let value = vstd::slice::slice_subrange(framed, 1, framed.len());
    proof {
        assert(value@ =~= framed@.skip(1));
        assert(seq![value@.len() as u8] + value@ =~= framed@);
        assert(id_of_bytes(id_bytes(id)) == Some(id));
    }
    match id {
        MetadataID::FNM => Some(Metadata::FNM(vstd::slice::slice_to_vec(value))),
        MetadataID::SNM => Some(Metadata::SNM(vstd::slice::slice_to_vec(value))),
        MetadataID::PID => Some(Metadata::PID(vstd::slice::slice_to_vec(value))),
        MetadataID::FSZ => if value.len() == 8 {
            Some(Metadata::FSZ(u64_from_be(value)))
        } else {
            None
        },
        MetadataID::FDT => if value.len() == 8 {
            Some(Metadata::FDT(i64_from_bits(u64_from_be(value))))
        } else {
            None
        },
        MetadataID::SDT => if value.len() == 8 {
            Some(Metadata::SDT(i64_from_bits(u64_from_be(value))))
        } else {
            None
        },
        MetadataID::RSD => if value.len() == 1 {
            Some(Metadata::RSD(value[0]))
        } else {
            None
        },
        MetadataID::RSP => if value.len() == 1 {
            Some(Metadata::RSP(value[0]))
        } else {
            None
        },
        MetadataID::HSH => match multihash_w_len_p(framed) {
            Ok(hash_bytes) => Some(Metadata::HSH(hash_bytes)),
            Err(_) => None,
        },
    }
}

/// Reads the records that a data region holds.
pub fn from_bytes(bytes: &[u8]) -> (res: Result<Vec<Metadata>, Error>)
    ensures
        match res {
            Ok(records) => parse_records(bytes@) == Some(views(records@)),
            Err(e) => e == Error::ParseError && parse_records(bytes@) is None,
        },
{
    let mut records: Vec<Metadata> = Vec::new();
    let mut pos: usize = 0;
    proof {
        assert(bytes@.skip(0) =~= bytes@);
        assert(views(records@) =~= Seq::<MetadataView>::empty());
        lemma_prefixed_empty(parse_records(bytes@));
    }
    while bytes.len() - pos >= 4
        invariant
            pos <= bytes.len(),
            parse_records(bytes@) == prefixed(views(records@), parse_records(bytes@.skip(pos as int))),
        decreases bytes.len() - pos,
    {
        let ghost here = bytes@.skip(pos as int);
        let ghost before = views(records@);
        let len = bytes[pos + 3] as usize;
        proof {
            assert(here[3] == bytes@[pos + 3]);
        }
        if len > bytes.len() - pos - 4 {
            return Err(Error::ParseError);
        }
        let next = pos + 4 + len;
        proof {
            assert(here.skip(4 + len) =~= bytes@.skip(next as int));
            assert(here.subrange(0, 3) =~= seq![bytes@[pos as int], bytes@[pos + 1], bytes@[pos + 2]]);
            assert(here.subrange(4, 4 + len) =~= bytes@.subrange(pos + 4, next as int));
        }
        match bytes_to_id(bytes[pos], bytes[pos + 1], bytes[pos + 2]) {
            None => {},
            Some(id) => {
                let framed = vstd::slice::slice_subrange(bytes, pos + 3, next);
                proof {
                    assert(framed@.skip(1) =~= bytes@.subrange(pos + 4, next as int));
                    lemma_id_bytes_of_bytes(here.subrange(0, 3));
                }
                match decode_known(id, framed) {
                    None => {
                        return Err(Error::ParseError);
                    },
                    Some(m) => {
                        records.push(m);
                        proof {
                            assert(views(records@) =~= before + seq![m@]);
                            lemma_prefixed_assoc(before, seq![m@], parse_records(bytes@.skip(next as int)));
                        }
                    },
                }
            },
        }
        pos = next;
    }
    let mut i: usize = pos;
    while i < bytes.len()
        invariant
            pos <= i <= bytes.len(),
            bytes.len() - pos < 4,
            forall|j: int| pos <= j < i ==> bytes@[j] == 0,
            parse_records(bytes@) == prefixed(views(records@), parse_records(bytes@.skip(pos as int))),
        decreases bytes.len() - i,
    {
        if bytes[i] != 0 {
            proof {
                assert(bytes@.skip(pos as int)[i - pos] == bytes@[i as int]);
            }
            return Err(Error::ParseError);
        }
        i = i + 1;
    }
    proof {
        let here = bytes@.skip(pos as int);
        assert(all_zero(here));
        assert(views(records@) + Seq::<MetadataView>::empty() =~= views(records@));
    }
    Ok(records)
}

/// Nothing before what reading gave is what reading gave.
proof fn lemma_prefixed_empty(rest: Option<Seq<MetadataView>>)
    ensures
        prefixed(Seq::empty(), rest) == rest,
{
    if let Some(r) = rest {
        assert(Seq::<MetadataView>::empty() + r =~= r);
    }
}

/// Two runs before what reading gave, one after the other or joined.
proof fn lemma_prefixed_assoc(
    a: Seq<MetadataView>,
    b: Seq<MetadataView>,
    rest: Option<Seq<MetadataView>>,
)
    ensures
        prefixed(a, prefixed(b, rest)) == prefixed(a + b, rest),
{
    if let Some(r) = rest {
        assert(a + (b + r) =~= (a + b) + r);
    }
}

/// Three bytes that name a kind of record are the bytes of that kind.
pub proof fn lemma_id_bytes_of_bytes(b: Seq<u8>)
    requires
        b.len() == 3,
    ensures
        id_of_bytes(b) is Some ==> id_bytes(id_of_bytes(b)->0) == b,
{
    if id_of_bytes(b) is Some {
        assert(id_bytes(id_of_bytes(b)->0) =~= b);
    }
}

/// Whether a record can stand in a metadata block: its value fits the
/// length byte, and a hash holds a digest of the registered length.
pub open spec fn legal(m: MetadataView) -> bool {
    &&& fits_length_byte(m)
    &&& match m {
        MetadataView::HSH(hash_type, digest) => digest.len() == digest_length_of(hash_type),
        _ => true,
    }
}

/// Whether every record of a run can stand in a metadata block.
pub open spec fn all_legal(records: Seq<MetadataView>) -> bool {
    forall|i: int| 0 <= i < records.len() ==> legal(#[trigger] records[i])
}

/// A record as it comes back from a block: a hash function comes back
/// under the one name that parsing gives it.
pub open spec fn reparsed(m: MetadataView) -> MetadataView {
    match m {
        MetadataView::HSH(hash_type, digest) => MetadataView::HSH(parsed_name(hash_type), digest),
        other => other,
    }
}

/// The bytes of a 32-bit value spell that value.
pub proof fn lemma_u32_of_be_bytes(x: u32)
    ensures
        u32_of_be(u32_be(x)) == x,
{
    let b = u32_be(x);
    assert(b[0] * 0x100_0000 + b[1] * 0x1_0000 + b[2] * 0x100 + b[3] == x);
}

/// The bytes of a 64-bit value spell that value.
pub proof fn lemma_u64_of_be_bytes(x: u64)
    ensures
        u64_be(x).len() == 8,
        u64_of_be(u64_be(x)) == x,
{
    let high = (x / 0x1_0000_0000) as u32;
    let low = (x % 0x1_0000_0000) as u32;
    let b = u64_be(x);
    assert(b.subrange(0, 4) =~= u32_be(high));
    assert(b.subrange(4, 8) =~= u32_be(low));
    lemma_u32_of_be_bytes(high);
    lemma_u32_of_be_bytes(low);
}

/// A signed value is the value of its bit pattern.
pub proof fn lemma_i64_of_bits(x: i64)
    ensures
        i64_of_bits(i64_bits(x)) == x,
{
}

/// The identifier and the value of a legal record read as that record.
pub proof fn lemma_decode_record(m: MetadataView)
    requires
        legal(m),
    ensures
        decode_record(id_bytes(id_of(m)), value_bytes(m)) == Decoded::Known(reparsed(m)),
{
    assert(id_of_bytes(id_bytes(id_of(m))) == Some(id_of(m)));
    match m {
        MetadataView::FSZ(x) => {
            lemma_u64_of_be_bytes(x);
        },
        MetadataView::FDT(x) => {
            lemma_u64_of_be_bytes(i64_bits(x));
            lemma_i64_of_bits(x);
        },
        MetadataView::SDT(x) => {
            lemma_u64_of_be_bytes(i64_bits(x));
            lemma_i64_of_bits(x);
        },
        MetadataView::HSH(hash_type, digest) => {
            let value = value_bytes(m);
            let framed = seq![value.len() as u8] + value;
            lemma_multihash_round_trip(hash_type, digest, Seq::empty());
            assert(digest.take(digest_length_of(hash_type)) =~= digest);
            assert(value.len() == total_length_of(hash_type));
            assert(seq![total_length_of(hash_type) as u8] + multihash_bytes(hash_type, digest)
                + Seq::<u8>::empty() =~= framed);
        },
        _ => {},
    }
}

/// A region of zero bytes holds no record.
pub proof fn lemma_parse_zeros(bytes: Seq<u8>)
    requires
        all_zero(bytes),
    ensures
        parse_records(bytes) == Some(Seq::<MetadataView>::empty()),
    decreases bytes.len(),
{
    if bytes.len() >= 4 {
        let rest = bytes.skip(4);
        assert(all_zero(rest)) by {
            assert forall|i: int| 0 <= i < rest.len() implies rest[i] == 0 by {
                assert(rest[i] == bytes[i + 4]);
            }
        }
        lemma_parse_zeros(rest);
        assert(bytes[3] == 0);
        assert(!spells(bytes.subrange(0, 3), 0x46, 0x4e, 0x4d)) by {
            assert(bytes.subrange(0, 3)[0] == bytes[0]);
        }
        assert(id_of_bytes(bytes.subrange(0, 3)) is None) by {
            assert(bytes.subrange(0, 3)[0] == 0);
        }
    }
}

/// A run of legal records, read back from its bytes, is that run before
/// whatever the bytes after it hold.
pub proof fn lemma_parse_records_bytes(records: Seq<MetadataView>, tail: Seq<u8>)
    requires
        all_legal(records),
    ensures
        parse_records(records_bytes(records) + tail) == prefixed(
            records.map_values(|m: MetadataView| reparsed(m)),
            parse_records(tail),
        ),
    decreases records.len(),
{
    let back = records.map_values(|m: MetadataView| reparsed(m));
    if records.len() == 0 {
        assert(records_bytes(records) + tail =~= tail);
        assert(back =~= Seq::<MetadataView>::empty());
        lemma_prefixed_empty(parse_records(tail));
    } else {
        let m = records.first();
        let rest = records.drop_first();
        let bytes = records_bytes(records) + tail;
        let value = value_bytes(m);
        let len = value.len() as int;
        assert(legal(m));
        assert(all_legal(rest)) by {
            assert forall|i: int| 0 <= i < rest.len() implies legal(#[trigger] rest[i]) by {
                assert(rest[i] == records[i + 1]);
            }
        }
        lemma_parse_records_bytes(rest, tail);
        lemma_decode_record(m);
        assert(id_bytes(id_of(m)).len() == 3);
        assert(bytes.subrange(0, 3) =~= id_bytes(id_of(m)));
        assert(bytes[3] == len);
        assert(bytes.subrange(4, 4 + len) =~= value);
        assert(bytes.skip(4 + len) =~= records_bytes(rest) + tail);
        let rest_back = rest.map_values(|m: MetadataView| reparsed(m));
        assert(seq![reparsed(m)] + rest_back =~= back);
        lemma_prefixed_assoc(seq![reparsed(m)], rest_back, parse_records(tail));
    }
}

/// Every record of one kind in a run is a record of the run.
pub proof fn lemma_of_rank_legal(records: Seq<MetadataView>, rank: int)
    requires
        all_legal(records),
    ensures
        all_legal(of_rank(records, rank)),
    decreases records.len(),
{
    if records.len() > 0 {
        lemma_of_rank_legal(records.drop_last(), rank);
        assert(legal(records.last()));
    }
}

/// Putting legal records in order leaves them legal.
pub proof fn lemma_canonical_legal(records: Seq<MetadataView>, ranks: int)
    requires
        all_legal(records),
    ensures
        all_legal(canonical_upto(records, ranks)),
    decreases ranks,
{
    if ranks > 0 {
        lemma_canonical_legal(records, ranks - 1);
        lemma_of_rank_legal(records, ranks - 1);
    }
}

/// Writing a run of legal records into a data region that they fit, and
/// reading the region back, gives the records in the order in which a
/// block holds them.
pub proof fn lemma_metadata_round_trip(records: Seq<MetadataView>, size: int)
    requires
        all_legal(records),
        fits(records, size),
    ensures
        parse_records(region_bytes(records, size)) == Some(
            canonical(records).map_values(|m: MetadataView| reparsed(m)),
        ),
{
    let packed = records_bytes(canonical(records));
    let padding = Seq::new((size - packed.len()) as nat, |i: int| 0u8);
    lemma_canonical_legal(records, 9);
    lemma_parse_zeros(padding);
    lemma_parse_records_bytes(canonical(records), padding);
    let back = canonical(records).map_values(|m: MetadataView| reparsed(m));
    assert(back + Seq::<MetadataView>::empty() =~= back);
}

/// The length of a run of records as bytes: for each record its
/// identifier, its length byte and its value.
pub open spec fn records_len(records: Seq<MetadataView>) -> int
    decreases records.len(),
{
    if records.len() == 0 {
        0
    } else {
        4 + value_bytes(records.first()).len() + records_len(records.drop_first())
    }
}

/// The bytes of a run of records are as many as the lengths of the
/// records say.
pub proof fn lemma_records_bytes_len(records: Seq<MetadataView>)
    ensures
        records_bytes(records).len() == records_len(records),
        records_len(records) >= 0,
    decreases records.len(),
{
    if records.len() > 0 {
        lemma_records_bytes_len(records.drop_first());
        assert(id_bytes(id_of(records.first())).len() == 3);
    }
}

/// The length of two runs of records, one after the other.
pub proof fn lemma_records_len_add(a: Seq<MetadataView>, b: Seq<MetadataView>)
    ensures
        records_len(a + b) == records_len(a) + records_len(b),
    decreases a.len(),
{
    if a.len() == 0 {
        assert(a + b =~= b);
    } else {
        lemma_records_len_add(a.drop_first(), b);
        assert((a + b).drop_first() =~= a.drop_first() + b);
        assert((a + b).first() == a.first());
    }
}

/// The length of a run of records with one more record after it.
pub proof fn lemma_records_len_push(records: Seq<MetadataView>, m: MetadataView)
    ensures
        records_len(records.push(m)) == records_len(records) + 4 + value_bytes(m).len(),
{
    let one = seq![m];
    assert(one.drop_first() =~= Seq::<MetadataView>::empty());
    assert(records_len(one.drop_first()) == 0);
    assert(one.first() == m);
    assert(records_len(one) == 4 + value_bytes(m).len());
    lemma_records_len_add(records, one);
    assert(records + one =~= records.push(m));
}

/// One more record adds its length to the records of the first kinds
/// exactly when it is of one of them.
proof fn lemma_canonical_len_push(records: Seq<MetadataView>, m: MetadataView, ranks: int)
    ensures
        records_len(canonical_upto(records.push(m), ranks)) == records_len(
            canonical_upto(records, ranks),
        ) + if 0 <= rank_of(id_of(m)) < ranks {
            4 + value_bytes(m).len()
        } else {
            0
        },
    decreases ranks,
{
    if ranks > 0 {
        let more = records.push(m);
        let rank = ranks - 1;
        lemma_canonical_len_push(records, m, rank);
        assert(more.drop_last() =~= records);
        assert(more.last() == m);
        lemma_records_len_add(canonical_upto(more, rank), of_rank(more, rank));
        lemma_records_len_add(canonical_upto(records, rank), of_rank(records, rank));
        if rank_of(id_of(m)) == rank {
            lemma_records_len_push(of_rank(records, rank), m);
        }
    }
}

/// No records, put in order, are no records.
proof fn lemma_canonical_empty(ranks: int)
    ensures
        canonical_upto(Seq::<MetadataView>::empty(), ranks) == Seq::<MetadataView>::empty(),
    decreases ranks,
{
    if ranks > 0 {
        lemma_canonical_empty(ranks - 1);
        assert(canonical_upto(Seq::<MetadataView>::empty(), ranks) =~= Seq::<
            MetadataView,
        >::empty());
    }
}

/// Putting records in order keeps their length: a run of records fits a
/// data region exactly when the value of each fits its length byte and the
/// lengths of the records are no more in all than the size of the region.
pub proof fn lemma_packed_len(records: Seq<MetadataView>)
    ensures
        records_bytes(canonical(records)).len() == records_len(records),
        forall|size: int|
            #[trigger] fits(records, size) <==> all_fit_length_byte(records) && records_len(
                records,
            ) <= size,
    decreases records.len(),
{
    lemma_records_bytes_len(canonical(records));
    if records.len() == 0 {
        lemma_canonical_empty(9);
        assert(records =~= Seq::<MetadataView>::empty());
        assert(records_len(canonical(records)) == 0);
    } else {
        let front = records.drop_last();
        let m = records.last();
        lemma_packed_len(front);
        lemma_records_bytes_len(canonical(front));
        assert(front.push(m) =~= records);
        assert(0 <= rank_of(id_of(m)) < 9);
        lemma_canonical_len_push(front, m, 9);
        lemma_records_len_push(front, m);
        assert(records_len(canonical(records)) == records_len(canonical(front)) + 4
            + value_bytes(m).len());
        assert(records_len(records) == records_len(front) + 4 + value_bytes(m).len());
    }
    assert(records_bytes(canonical(records)).len() == records_len(records));
}

/// Whether every record of a run can be written.
pub fn check_writable(records: &[Metadata]) -> (ok: bool)
    ensures
        ok == all_writable(views(records@)),
{
    let mut i: usize = 0;
    while i < records.len()
        invariant
            i <= records.len(),
            forall|k: int| 0 <= k < i ==> writable(#[trigger] views(records@)[k]),
        decreases records.len() - i,
    {
        let ok = match &records[i] {
            Metadata::HSH(h) => {
                let param = Param::new(h.0);
                h.1.len() >= param.digest_length as usize
            },
            _ => true,
        };
        proof {
            assert(views(records@)[i as int] == records@[i as int]@);
        }
        if !ok {
            return false;
        }
        i = i + 1;
    }
    true
}

} // verus!
