//! The repairer: it rebuilds the missing blocks of one set at a time from
//! those that are there.

use vstd::prelude::*;
use crate::sbx_specs::{Version, data_size_of};
use crate::sbx_block::BlockType;
use crate::rs_codec::{Codec, RSError, RSErrorView, codec_new, codec_reconstruct,
    codec_data_shards, codec_parity_shards, rs_reconstructed, shard_views, uniform,
    count_present, agree_where_present, is_codeword};

verus! {

/// The repairer of one container.
pub struct RSRepairer {
    codec: Codec,
    version: Version,
    data_shards: usize,
    parity_shards: usize,
}

/// The number of flags that are set.
pub fn count_flags(present: &[bool]) -> (count: usize)
    ensures
        count == count_present(present@),
{
    let mut count: usize = 0;
    let mut i: usize = 0;
    while i < present.len()
        invariant
            i <= present.len(),
            count <= i,
            count == count_present(present@.take(i as int)),
        decreases present.len() - i,
    {
        proof {
            assert(present@.take(i + 1).drop_last() =~= present@.take(i as int));
        }
        if present[i] {
            count = count + 1;
        }
        i = i + 1;
    }
    proof {
        assert(present@.take(i as int) =~= present@);
    }
    count
}

/// What is made of an attempt to rebuild a set: nothing where it
/// succeeded, and else the set with all that is known of it.
pub fn repair_outcome(
    rebuilt: bool,
    version: Version,
    block_seq_num_start: u64,
    block_count: u64,
    block_type: BlockType,
    present: &[bool],
) -> (res: Result<(), RSError>)
    ensures
        rebuilt ==> res is Ok,
        !rebuilt ==> res is Err && res->Err_0@ == (RSErrorView {
            version,
            block_seq_num_start,
            block_count,
            block_type,
            shard_present: present@,
        }),
{
    if rebuilt {
        Ok(())
    } else {
        Err(RSError::new(version, block_seq_num_start, block_count, block_type, present))
    }
}

impl RSRepairer {
    /// The version of the blocks that the repairer works for.
    pub closed spec fn version(&self) -> Version {
        self.version
    }

    /// The number of data shards of a set.
    pub closed spec fn data_shards(&self) -> int {
        self.data_shards as int
    }

    /// The number of parity shards of a set.
    pub closed spec fn parity_shards(&self) -> int {
        self.parity_shards as int
    }

    /// The length of a shard: the size of the data region of a block.
    pub open spec fn shard_len(&self) -> int {
        data_size_of(self.version())
    }

    /// The codec is one for sets of the repairer's shape.
    pub closed spec fn wf(&self) -> bool {
        &&& codec_data_shards(self.codec) == self.data_shards
        &&& codec_parity_shards(self.codec) == self.parity_shards
        &&& 1 <= self.data_shards
        &&& 1 <= self.parity_shards
        &&& self.data_shards + self.parity_shards <= 256
    }

    /// A repairer for sets of `data_shards` data shards and
    /// `parity_shards` parity shards.
    pub fn new(version: Version, data_shards: usize, parity_shards: usize) -> (repairer: RSRepairer)
        requires
            1 <= data_shards,
            1 <= parity_shards,
            data_shards + parity_shards <= 256,
        ensures
            repairer.wf(),
            repairer.version() == version,
            repairer.data_shards() == data_shards,
            repairer.parity_shards() == parity_shards,
    {
        let codec = match codec_new(data_shards, parity_shards) {
            Some(codec) => codec,
            None => vstd::pervasive::unreached(),
        };
        RSRepairer { codec, version, data_shards, parity_shards }
    }

    /// What `repair` makes of the shards of a set. Where fewer shards are
    /// there than a set has data shards, the shards are left as they were
    /// and the set is handed back with all that is known of it. Otherwise
    /// the shards that were there stay, the others are rebuilt, and if the
    /// shards that were there are shards of a set as the codec makes it,
    /// that set is what comes out.
    pub open spec fn repaired(
        &self,
        before: Seq<Seq<u8>>,
        after: Seq<Seq<u8>>,
        present: Seq<bool>,
        block_seq_num_start: u64,
        block_type: BlockType,
        res: Result<(), RSError>,
    ) -> bool {
        &&& after.len() == before.len()
        &&& uniform(after, self.shard_len())
        &&& agree_where_present(after, before, present)
        &&& if count_present(present) >= self.data_shards() {
            &&& res is Ok
            &&& after == rs_reconstructed(before, present, self.data_shards())
            &&& forall|set: Seq<Seq<u8>>|
                #[trigger] is_codeword(set, self.data_shards(), self.parity_shards()) && uniform(
                    set,
                    self.shard_len(),
                ) && agree_where_present(set, before, present) ==> after == set
        } else {
            &&& res is Err
            &&& res->Err_0@ == (RSErrorView {
                version: self.version(),
                block_seq_num_start,
                block_count: before.len() as u64,
                block_type,
                shard_present: present,
            })
            &&& after == before
        }
    }

    /// Rebuilds the shards of a set whose flag is not set.
    pub fn repair(
        &self,
        shards: &mut Vec<Vec<u8>>,
        present: &[bool],
        block_seq_num_start: u64,
        block_type: BlockType,
    ) -> (res: Result<(), RSError>)
        requires
            self.wf(),
            old(shards)@.len() == self.data_shards() + self.parity_shards(),
            present@.len() == old(shards)@.len(),
            uniform(shard_views(old(shards)@), self.shard_len()),
        ensures
            self.repaired(
                shard_views(old(shards)@),
                shard_views(final(shards)@),
                present@,
                block_seq_num_start,
                block_type,
                res,
            ),
    {
        proof {
            assert(shard_views(shards@)[0].len() == self.shard_len());
        }
        let count = shards.len() as u64;
        let rebuilt = codec_reconstruct(&self.codec, shards, present);
        repair_outcome(rebuilt, self.version, block_seq_num_start, count, block_type, present)
    }
}

} // verus!
