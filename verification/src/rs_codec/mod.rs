//! Reed-Solomon coding of block sets: the arithmetic of sets, the codec,
//! and the failure to repair a set.

use vstd::prelude::*;
use smallvec::SmallVec;
use reed_solomon_erasure::galois_8::ReedSolomon;
use crate::sbx_specs::Version;
use crate::sbx_block::BlockType;
use crate::general_error::{Error, ErrorKind};

pub mod encoder;
pub mod repairer;

verus! {

/// The number of data shards in the last set, where `total_shards` data
/// shards are grouped in sets of `data_shards`.
pub open spec fn last_set_size(data_shards: int, total_shards: int) -> int {
    if total_shards % data_shards == 0 {
        data_shards
    } else {
        total_shards % data_shards
    }
}

/// The last set holds the shards that are left over after the sets before
/// it: one more than the remainder of the shards before the last one. A
/// number of shards that is a multiple of the set size leaves no short set.
pub proof fn lemma_last_set_size(data_shards: int, total_shards: int)
    requires
        data_shards >= 1,
        total_shards >= 1,
    ensures
        last_set_size(data_shards, total_shards) == (total_shards - 1) % data_shards + 1,
        1 <= last_set_size(data_shards, total_shards) <= data_shards,
        last_set_size(data_shards, total_shards) <= total_shards,
        total_shards % data_shards == 0 ==> last_set_size(data_shards, total_shards)
            == data_shards,
{
    let d = data_shards;
    let t = total_shards;
    vstd::arithmetic::div_mod::lemma_fundamental_div_mod(t, d);
    vstd::arithmetic::div_mod::lemma_fundamental_div_mod(t - 1, d);
    let q = t / d;
    let r = t % d;
    if r == 0 {
        assert(t - 1 == (q - 1) * d + (d - 1)) by (nonlinear_arith)
            requires
                t == d * q + r,
                r == 0,
        ;
        vstd::arithmetic::div_mod::lemma_fundamental_div_mod_converse(t - 1, d, q - 1, d - 1);
        assert(q >= 1) by (nonlinear_arith)
            requires
                t == d * q,
                t >= 1,
                d >= 1,
        ;
        assert(d * q >= d) by (nonlinear_arith)
            requires
                q >= 1,
                d >= 1,
        ;
    } else {
        assert(t - 1 == q * d + (r - 1)) by (nonlinear_arith)
            requires
                t == d * q + r,
        ;
        vstd::arithmetic::div_mod::lemma_fundamental_div_mod_converse(t - 1, d, q, r - 1);
        assert(q >= 0) by (nonlinear_arith)
            requires
                t == d * q + r,
                t >= 1,
                d >= 1,
                0 <= r < d,
        ;
        assert(d * q >= 0) by (nonlinear_arith)
            requires
                q >= 0,
                d >= 1,
        ;
    }
}

/// The number of data shards in the last set.
pub fn last_data_set_size(data_shards: usize, total_shards: u64) -> (size: usize)
    requires
        data_shards >= 1,
    ensures
        size == last_set_size(data_shards as int, total_shards as int),
{
    let size = total_shards % (data_shards as u64);
    if size == 0 {
        data_shards
    } else {
        size as usize
    }
}

/// The index of the first data shard of the last set.
pub fn last_data_set_start_index(data_shards: usize, total_shards: u64) -> (index: u64)
    requires
        data_shards >= 1,
        total_shards >= 1,
    ensures
        index == total_shards - last_set_size(data_shards as int, total_shards as int),
{
    proof {
        lemma_last_set_size(data_shards as int, total_shards as int);
    }
    total_shards - last_data_set_size(data_shards, total_shards) as u64
}

/// The sequence number at which the set after the full sets starts, where
/// every full set takes `data_shards + parity_shards` sequence numbers.
pub fn last_set_start_seq_num(data_shards: usize, parity_shards: usize, total_shards: u64) -> (seq_num:
    u64)
    requires
        data_shards >= 1,
        (total_shards / (data_shards as u64)) * (data_shards + parity_shards) <= u64::MAX,
        data_shards + parity_shards <= u64::MAX,
    ensures
        seq_num == (total_shards / (data_shards as u64)) * (data_shards + parity_shards),
{
    let normal_set_count = total_shards / (data_shards as u64);
    normal_set_count * (data_shards as u64 + parity_shards as u64)
}

/// The number of parity shards that a set of `set_size` data shards is
/// worth: `set_size * parity_shards / data_shards`, rounded up.
pub fn calc_parity_shards(data_shards: usize, parity_shards: usize, set_size: usize) -> (count:
    usize)
    requires
        data_shards >= 1,
        set_size * parity_shards + (data_shards - 1) <= usize::MAX,
    ensures
        count == (set_size * parity_shards + (data_shards - 1)) / (data_shards as int),
{
    proof {
        assert(0 <= set_size * parity_shards) by (nonlinear_arith)
            requires
                0 <= set_size,
                0 <= parity_shards,
        ;
    }
    (set_size * parity_shards + (data_shards - 1)) / data_shards
}

/// Which shards of a set are there, with inline room for 32 flags: a
/// `SmallVec` of the `smallvec` crate.
#[verifier::external_body]
#[derive(Debug)]
pub struct ShardFlags {
    inner: SmallVec<[bool; 32]>,
}

/// The flags that a list of shard flags holds, in order.
pub uninterp spec fn flags_of(flags: ShardFlags) -> Seq<bool>;

/// `SmallVec::new`: no flags.
#[verifier::external_body]
fn flags_new() -> (flags: ShardFlags)
    ensures
        flags_of(flags) == Seq::<bool>::empty(),
{
    ShardFlags { inner: SmallVec::new() }
}

/// `SmallVec::push`: one more flag at the end.
#[verifier::external_body]
fn flags_push(flags: &mut ShardFlags, flag: bool)
    ensures
        flags_of(*final(flags)) == flags_of(*old(flags)).push(flag),
{
    flags.inner.push(flag)
}

/// `SmallVec::as_slice`: the flags as a slice.
#[verifier::external_body]
fn flags_as_slice(flags: &ShardFlags) -> (slice: &[bool])
    ensures
        slice@ == flags_of(*flags),
{
    flags.inner.as_slice()
}

/// A set that could not be repaired, with all that is known of it.
#[derive(Debug)]
pub struct RSError {
    version: Version,
    block_seq_num_start: u64,
    block_count: u64,
    block_type: BlockType,
    shard_present: ShardFlags,
}

/// An unrepaired set as mathematical data.
pub struct RSErrorView {
    pub version: Version,
    pub block_seq_num_start: u64,
    pub block_count: u64,
    pub block_type: BlockType,
    pub shard_present: Seq<bool>,
}

impl View for RSError {
    type V = RSErrorView;

    closed spec fn view(&self) -> RSErrorView {
        RSErrorView {
            version: self.version,
            block_seq_num_start: self.block_seq_num_start,
            block_count: self.block_count,
            block_type: self.block_type,
            shard_present: flags_of(self.shard_present),
        }
    }
}

/// Hands an unrepaired set on as a failure of the library.
pub fn to_err(e: RSError) -> (error: Error)
    ensures
        error.kind == ErrorKind::RSError(e),
{
    Error::new(ErrorKind::RSError(e))
}

impl RSError {
    /// A set that could not be repaired.
    pub fn new(
        version: Version,
        block_seq_num_start: u64,
        block_count: u64,
        block_type: BlockType,
        shard_present: &[bool],
    ) -> (error: RSError)
        ensures
            error@ == (RSErrorView {
                version,
                block_seq_num_start,
                block_count,
                block_type,
                shard_present: shard_present@,
            }),
    {
        let mut flags = flags_new();
        let mut i: usize = 0;
        while i < shard_present.len()
            invariant
                i <= shard_present.len(),
                flags_of(flags) == shard_present@.take(i as int),
            decreases shard_present.len() - i,
        {
            flags_push(&mut flags, shard_present[i]);
            proof {
                assert(shard_present@.take(i as int).push(shard_present@[i as int])
                    =~= shard_present@.take(i + 1));
            }
            i = i + 1;
        }
        proof {
            assert(shard_present@.take(i as int) =~= shard_present@);
        }
        RSError { version, block_seq_num_start, block_count, block_type, shard_present: flags }
    }

    /// The version of the blocks of the set.
    pub fn version(&self) -> (version: Version)
        ensures
            version == self@.version,
    {
        self.version
    }

    /// The sequence number at which the set starts.
    pub fn block_seq_num_start(&self) -> (seq_num: u64)
        ensures
            seq_num == self@.block_seq_num_start,
    {
        self.block_seq_num_start
    }

    /// The number of blocks of the set.
    pub fn block_count(&self) -> (count: u64)
        ensures
            count == self@.block_count,
    {
        self.block_count
    }

    /// What the blocks of the set carry.
    pub fn block_type(&self) -> (block_type: BlockType)
        ensures
            block_type == self@.block_type,
    {
        self.block_type
    }

    /// Which blocks of the set were there.
    pub fn shard_present(&self) -> (present: &[bool])
        ensures
            present@ == self@.shard_present,
    {
        flags_as_slice(&self.shard_present)
    }
}

/// The bytes of each shard of a run of shards.
pub open spec fn shard_views(shards: Seq<Vec<u8>>) -> Seq<Seq<u8>> {
    shards.map_values(|s: Vec<u8>| s@)
}

/// Whether every shard of a run has the given length.
pub open spec fn uniform(shards: Seq<Seq<u8>>, len: int) -> bool {
    forall|i: int| 0 <= i < shards.len() ==> (#[trigger] shards[i]).len() == len
}

/// The number of flags that are set.
pub open spec fn count_present(present: Seq<bool>) -> int
    decreases present.len(),
{
    if present.len() == 0 {
        0
    } else {
        count_present(present.drop_last()) + if present.last() {
            1int
        } else {
            0int
        }
    }
}

/// Whether two runs of shards hold the same shard wherever the flag is set.
pub open spec fn agree_where_present(
    a: Seq<Seq<u8>>,
    b: Seq<Seq<u8>>,
    present: Seq<bool>,
) -> bool {
    forall|i: int| 0 <= i < present.len() && present[i] ==> #[trigger] a[i] == b[i]
}

/// The parity shards that `ReedSolomon::encode_sep` makes of a run of data
/// shards.
pub uninterp spec fn rs_parity(data: Seq<Seq<u8>>, parity_shards: int) -> Seq<Seq<u8>>;

/// The shards of a set after `ReedSolomon::reconstruct` has rebuilt those
/// whose flag is not set.
pub uninterp spec fn rs_reconstructed(
    shards: Seq<Seq<u8>>,
    present: Seq<bool>,
    data_shards: int,
) -> Seq<Seq<u8>>;

/// Whether a run of shards is a set as the codec makes it: data shards
/// followed by their parity shards.
pub open spec fn is_codeword(shards: Seq<Seq<u8>>, data_shards: int, parity_shards: int) -> bool {
    &&& shards.len() == data_shards + parity_shards
    &&& shards.skip(data_shards) == rs_parity(shards.take(data_shards), parity_shards)
}

/// A Reed-Solomon codec over GF(2^8) for sets of a fixed shape: a
/// `ReedSolomon` of the `reed-solomon-erasure` crate.
#[verifier::external_body]
pub struct Codec {
    inner: ReedSolomon,
}

/// The number of data shards that a codec was made for.
pub uninterp spec fn codec_data_shards(codec: Codec) -> int;

/// The number of parity shards that a codec was made for.
pub uninterp spec fn codec_parity_shards(codec: Codec) -> int;

/// `ReedSolomon::new`: a codec for sets of the given shape. There is one
/// exactly when there is a data shard, a parity shard, and no more than 256
/// shards in all.
#[verifier::external_body]
pub(crate) fn codec_new(data_shards: usize, parity_shards: usize) -> (codec: Option<Codec>)
    requires
        data_shards + parity_shards <= usize::MAX,
    ensures
        codec is Some <==> (data_shards >= 1 && parity_shards >= 1 && data_shards
            + parity_shards <= 256),
        codec is Some ==> codec_data_shards(codec->0) == data_shards && codec_parity_shards(
            codec->0,
        ) == parity_shards,
{
    ReedSolomon::new(data_shards, parity_shards).ok().map(|inner| Codec { inner })
}

/// `ReedSolomon::encode_sep`: overwrites the parity shards with the parity
/// of the data shards. It succeeds where the shards are as many as the
/// codec was made for, and all of one length that is not zero.
#[verifier::external_body]
pub(crate) fn codec_encode_sep(codec: &Codec, data: &Vec<Vec<u8>>, parity: &mut Vec<Vec<u8>>) -> (ok:
    bool)
    requires
        data@.len() == codec_data_shards(*codec),
        old(parity)@.len() == codec_parity_shards(*codec),
        data@.len() >= 1,
        old(parity)@.len() >= 1,
        data@[0]@.len() > 0,
        uniform(shard_views(data@), data@[0]@.len() as int),
        uniform(shard_views(old(parity)@), data@[0]@.len() as int),
    ensures
        ok,
        shard_views(final(parity)@) == rs_parity(shard_views(data@), codec_parity_shards(*codec)),
        final(parity)@.len() == old(parity)@.len(),
        uniform(shard_views(final(parity)@), data@[0]@.len() as int),
{
    codec.inner.encode_sep(data, parity).is_ok()
}

/// `ReedSolomon::reconstruct`: rebuilds the shards whose flag is not set
/// from those whose flag is set. It succeeds exactly when at least as many
/// shards are there as the codec has data shards; where it fails no shard is
/// touched. Where it succeeds the shards that were there stay, and if they
/// are shards of a set as the codec makes it, that set is what comes out.
#[verifier::external_body]
pub(crate) fn codec_reconstruct(codec: &Codec, shards: &mut Vec<Vec<u8>>, present: &[bool]) -> (ok:
    bool)
    requires
        old(shards)@.len() == codec_data_shards(*codec) + codec_parity_shards(*codec),
        present@.len() == old(shards)@.len(),
        old(shards)@.len() >= 1,
        old(shards)@[0]@.len() > 0,
        uniform(shard_views(old(shards)@), old(shards)@[0]@.len() as int),
    ensures
        ok <==> count_present(present@) >= codec_data_shards(*codec),
        !ok ==> shard_views(final(shards)@) == shard_views(old(shards)@),
        ok ==> shard_views(final(shards)@) == rs_reconstructed(
            shard_views(old(shards)@),
            present@,
            codec_data_shards(*codec),
        ),
        final(shards)@.len() == old(shards)@.len(),
        uniform(shard_views(final(shards)@), old(shards)@[0]@.len() as int),
        agree_where_present(shard_views(final(shards)@), shard_views(old(shards)@), present@),
        ok ==> forall|set: Seq<Seq<u8>>|
            #[trigger] is_codeword(set, codec_data_shards(*codec), codec_parity_shards(*codec))
                && uniform(set, old(shards)@[0]@.len() as int) && agree_where_present(
                set,
                shard_views(old(shards)@),
                present@,
            ) ==> shard_views(final(shards)@) == set,
{
    let mut flagged: Vec<(&mut [u8], bool)> = shards.iter_mut().map(|s| s.as_mut_slice()).zip(
        present.iter().cloned(),
    ).collect();
    codec.inner.reconstruct(&mut flagged).is_ok()
}

} // verus!
