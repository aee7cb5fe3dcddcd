//! The streaming encoder: it takes the data shards of a container one by
//! one and hands out the parity shards of each set as the set fills.

use vstd::prelude::*;
use crate::sbx_specs::{Version, data_size_of, ver_to_data_size};
use crate::rs_codec::{Codec, codec_new, codec_encode_sep, codec_data_shards,
    codec_parity_shards, rs_parity, shard_views, uniform};

verus! {

/// A shard of zero bytes.
pub open spec fn zero_shard(len: int) -> Seq<u8> {
    Seq::new(len as nat, |i: int| 0u8)
}

/// A run of shards filled up to `count` shards with shards of zero bytes.
pub open spec fn padded(shards: Seq<Seq<u8>>, count: int, len: int) -> Seq<Seq<u8>> {
    shards + Seq::new((count - shards.len()) as nat, |i: int| zero_shard(len))
}

/// The encoder of one container.
pub struct RSEncoder {
    codec: Codec,
    version: Version,
    data_shards: usize,
    parity_shards: usize,
    buffered: Vec<Vec<u8>>,
}

/// A vector of `len` zero bytes.
fn zeros(len: usize) -> (shard: Vec<u8>)
    ensures
        shard@ == zero_shard(len as int),
{
    let mut shard: Vec<u8> = Vec::new();
    let mut i: usize = 0;
    while i < len
        invariant
            i <= len,
            shard@ == zero_shard(i as int),
        decreases len - i,
    {
        shard.push(0);
        i = i + 1;
        proof {
            assert(shard@ =~= zero_shard(i as int));
        }
    }
    shard
}

impl RSEncoder {
    /// The version of the blocks that the encoder works for.
    pub closed spec fn version(&self) -> Version {
        self.version
    }

    /// The number of data shards of a set.
    pub closed spec fn data_shards(&self) -> int {
        self.data_shards as int
    }

    /// The number of parity shards of a set.
    pub closed spec fn parity_shards(&self) -> int {
        self.parity_shards as int
    }

    /// The data shards of the set that is being filled.
    pub closed spec fn buffered(&self) -> Seq<Seq<u8>> {
        shard_views(self.buffered@)
    }

    /// The length of a shard: the size of the data region of a block.
    pub open spec fn shard_len(&self) -> int {
        data_size_of(self.version())
    }

    /// The set that is being filled is not full, its shards have the
    /// length of a data region, and the codec is one for sets of the
    /// encoder's shape.
    pub closed spec fn wf(&self) -> bool {
        &&& codec_data_shards(self.codec) == self.data_shards
        &&& codec_parity_shards(self.codec) == self.parity_shards
        &&& 1 <= self.data_shards
        &&& 1 <= self.parity_shards
        &&& self.data_shards + self.parity_shards <= 256
        &&& self.buffered@.len() < self.data_shards
        &&& uniform(shard_views(self.buffered@), data_size_of(self.version))
    }

    /// An encoder for sets of `data_shards` data shards and
    /// `parity_shards` parity shards, with no shard taken yet.
    pub fn new(version: Version, data_shards: usize, parity_shards: usize) -> (encoder: RSEncoder)
        requires
            1 <= data_shards,
            1 <= parity_shards,
            data_shards + parity_shards <= 256,
        ensures
            encoder.wf(),
            encoder.version() == version,
            encoder.data_shards() == data_shards,
            encoder.parity_shards() == parity_shards,
            encoder.buffered() == Seq::<Seq<u8>>::empty(),
    {
        let codec = match codec_new(data_shards, parity_shards) {
            Some(codec) => codec,
            None => vstd::pervasive::unreached(),
        };
        let encoder = RSEncoder {
            codec,
            version,
            data_shards,
            parity_shards,
            buffered: Vec::new(),
        };
        proof {
            assert(encoder.buffered() =~= Seq::<Seq<u8>>::empty());
        }
        encoder
    }

    /// The number of data shards that the set being filled has room for.
    pub fn unfilled_slot_count(&self) -> (count: usize)
        requires
            self.wf(),
        ensures
            count == self.data_shards() - self.buffered().len(),
    {
        self.data_shards - self.buffered.len()
    }

    /// The number of blocks of a full set.
    pub fn total_slot_count(&self) -> (count: usize)
        requires
            self.wf(),
        ensures
            count == self.data_shards() + self.parity_shards(),
    {
        self.data_shards + self.parity_shards
    }

    /// The parity shards of a full run of data shards.
    fn parity_of(&self, data: &Vec<Vec<u8>>) -> (parity: Vec<Vec<u8>>)
        requires
            codec_data_shards(self.codec) == self.data_shards,
            codec_parity_shards(self.codec) == self.parity_shards,
            1 <= self.data_shards,
            1 <= self.parity_shards,
            data@.len() == self.data_shards,
            uniform(shard_views(data@), data_size_of(self.version)),
        ensures
            shard_views(parity@) == rs_parity(shard_views(data@), self.parity_shards as int),
            parity@.len() == self.parity_shards,
            uniform(shard_views(parity@), data_size_of(self.version)),
    {
        let len = ver_to_data_size(self.version);
        let mut parity: Vec<Vec<u8>> = Vec::new();
        let mut i: usize = 0;
        while i < self.parity_shards
            invariant
                i <= self.parity_shards,
                parity@.len() == i,
                uniform(shard_views(parity@), len as int),
            decreases self.parity_shards - i,
        {
            let ghost filled = shard_views(parity@);
            let shard = zeros(len);
            parity.push(shard);
            i = i + 1;
            proof {
                assert(shard_views(parity@) =~= filled.push(zero_shard(len as int)));
            }
        }
        proof {
            assert(shard_views(data@)[0].len() == len);
        }
        let _ = codec_encode_sep(&self.codec, data, &mut parity);
        parity
    }

    /// Takes the next data shard. Where it fills the set, the parity
    /// shards of the set come back and the next set begins.
    pub fn encode(&mut self, shard: &[u8]) -> (parity: Option<Vec<Vec<u8>>>)
        requires
            old(self).wf(),
            shard@.len() == old(self).shard_len(),
        ensures
            final(self).wf(),
            final(self).version() == old(self).version(),
            final(self).data_shards() == old(self).data_shards(),
            final(self).parity_shards() == old(self).parity_shards(),
            old(self).buffered().len() + 1 < old(self).data_shards() ==> parity is None && final(self).buffered() == old(self).buffered().push(shard@),
            old(self).buffered().len() + 1 == old(self).data_shards() ==> parity is Some
                && shard_views(parity->0@) == rs_parity(
                old(self).buffered().push(shard@),
                old(self).parity_shards(),
            ) && parity->0@.len() == old(self).parity_shards() && uniform(
                shard_views(parity->0@),
                old(self).shard_len(),
            ) && final(self).buffered() == Seq::<Seq<u8>>::empty(),
    {
        let ghost before = self.buffered();
        self.buffered.push(vstd::slice::slice_to_vec(shard));
        proof {
            assert(shard_views(self.buffered@) =~= before.push(shard@));
        }
        if self.buffered.len() == self.data_shards {
            let parity = self.parity_of(&self.buffered);
            self.buffered = Vec::new();
            proof {
                assert(self.buffered() =~= Seq::<Seq<u8>>::empty());
            }
            Some(parity)
        } else {
            None
        }
    }

    /// Ends the container. Where data shards of a set that is not full
    /// are left, the parity shards of that set come back: those of its data
    /// shards followed by shards of zero bytes to the set's size.
    pub fn finish(&mut self) -> (parity: Option<Vec<Vec<u8>>>)
        requires
            old(self).wf(),
        ensures
            final(self).wf(),
            final(self).version() == old(self).version(),
            final(self).data_shards() == old(self).data_shards(),
            final(self).parity_shards() == old(self).parity_shards(),
            final(self).buffered() == Seq::<Seq<u8>>::empty(),
            old(self).buffered().len() == 0 ==> parity is None,
            old(self).buffered().len() > 0 ==> parity is Some && shard_views(parity->0@)
                == rs_parity(
                padded(old(self).buffered(), old(self).data_shards(), old(self).shard_len()),
                old(self).parity_shards(),
            ) && parity->0@.len() == old(self).parity_shards() && uniform(
                shard_views(parity->0@),
                old(self).shard_len(),
            ),
    {
        if self.buffered.len() == 0 {
            proof {
                assert(self.buffered() =~= Seq::<Seq<u8>>::empty());
            }
            return None;
        }
        let ghost before = self.buffered();
        let len = ver_to_data_size(self.version);
        while self.buffered.len() < self.data_shards
            invariant
                self.version == old(self).version,
                self.data_shards == old(self).data_shards,
                self.parity_shards == old(self).parity_shards,
                self.codec == old(self).codec,
                len == data_size_of(self.version),
                before.len() <= self.buffered@.len() <= self.data_shards,
                shard_views(self.buffered@) == padded(
                    before,
                    self.buffered@.len() as int,
                    len as int,
                ),
                uniform(before, len as int),
            decreases self.data_shards - self.buffered@.len(),
        {
            let ghost filled = shard_views(self.buffered@);
            let shard = zeros(len);
            self.buffered.push(shard);
            proof {
                assert(shard_views(self.buffered@) =~= filled.push(zero_shard(len as int)));
                assert(filled.push(zero_shard(len as int)) =~= padded(
                    before,
                    self.buffered@.len() as int,
                    len as int,
                ));
            }
        }
        proof {
            assert(uniform(shard_views(self.buffered@), len as int));
        }
        let parity = self.parity_of(&self.buffered);
        self.buffered = Vec::new();
        proof {
            assert(self.buffered() =~= Seq::<Seq<u8>>::empty());
        }
        Some(parity)
    }
}

} // verus!
