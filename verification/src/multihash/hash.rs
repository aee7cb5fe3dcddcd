//! Computing digests: one context for each hash function that is
//! supported, fed piece by piece.

use vstd::prelude::*;
use blake2::{VarBlake2b, VarBlake2s};
use crate::multihash::{HashBytes, HashType, is_supported};
use crate::multihash::specs::digest_length_of;
use crate::multihash::parsers::parsed_name;

verus! {

/// The SHA-1 hasher of the `sha-1` crate.
#[verifier::external_type_specification]
#[verifier::external_body]
pub struct ExSha1(sha1::Sha1);

/// The SHA-256 hasher of the `sha2` crate.
#[verifier::external_type_specification]
#[verifier::external_body]
pub struct ExSha256(sha2::Sha256);

/// The SHA-512 hasher of the `sha2` crate.
#[verifier::external_type_specification]
#[verifier::external_body]
pub struct ExSha512(sha2::Sha512);

/// The BLAKE2b hasher with a digest length of choice of the `blake2` crate.
#[verifier::external_type_specification]
#[verifier::external_body]
pub struct ExVarBlake2b(VarBlake2b);

/// The BLAKE2s hasher with a digest length of choice of the `blake2` crate.
#[verifier::external_type_specification]
#[verifier::external_body]
pub struct ExVarBlake2s(VarBlake2s);

/// The bytes that a SHA-1 hasher has taken in.
pub uninterp spec fn sha1_taken(hasher: sha1::Sha1) -> Seq<u8>;

/// The bytes that a SHA-256 hasher has taken in.
pub uninterp spec fn sha256_taken(hasher: sha2::Sha256) -> Seq<u8>;

/// The bytes that a SHA-512 hasher has taken in.
pub uninterp spec fn sha512_taken(hasher: sha2::Sha512) -> Seq<u8>;

/// The bytes that a BLAKE2b hasher has taken in.
pub uninterp spec fn blake2b_taken(hasher: VarBlake2b) -> Seq<u8>;

/// The bytes that a BLAKE2s hasher has taken in.
pub uninterp spec fn blake2s_taken(hasher: VarBlake2s) -> Seq<u8>;

/// The digest length that a BLAKE2b hasher was made for.
pub uninterp spec fn blake2b_size(hasher: VarBlake2b) -> int;

/// The digest length that a BLAKE2s hasher was made for.
pub uninterp spec fn blake2s_size(hasher: VarBlake2s) -> int;

/// The SHA-1 digest of a run of bytes.
pub uninterp spec fn sha1_digest(data: Seq<u8>) -> Seq<u8>;

/// The SHA-256 digest of a run of bytes.
pub uninterp spec fn sha256_digest(data: Seq<u8>) -> Seq<u8>;

/// The SHA-512 digest of a run of bytes.
pub uninterp spec fn sha512_digest(data: Seq<u8>) -> Seq<u8>;

/// The BLAKE2b digest of a given length of a run of bytes.
pub uninterp spec fn blake2b_digest(data: Seq<u8>, size: int) -> Seq<u8>;

/// The BLAKE2s digest of a given length of a run of bytes.
pub uninterp spec fn blake2s_digest(data: Seq<u8>, size: int) -> Seq<u8>;

/// The most bytes that a hasher is fed here: their number of bits fits 64
/// bits.
pub open spec fn input_limit() -> int {
    0x2000_0000_0000_0000
}

/// `Digest::new` of `Sha1`: a hasher that has taken in nothing.
#[verifier::external_body]
fn sha1_new() -> (hasher: sha1::Sha1)
    ensures
        sha1_taken(hasher) == Seq::<u8>::empty(),
{
    <sha1::Sha1 as sha1::Digest>::new()
}

/// `Digest::input` of `Sha1`: the hasher takes in more bytes.
#[verifier::external_body]
fn sha1_input(hasher: &mut sha1::Sha1, data: &[u8])
    requires
        sha1_taken(*old(hasher)).len() + data@.len() < input_limit(),
    ensures
        sha1_taken(*final(hasher)) == sha1_taken(*old(hasher)) + data@,
{
    sha1::Digest::input(hasher, data)
}

/// `Digest::result` of `Sha1`: the digest of what the hasher took in, 20
/// bytes.
#[verifier::external_body]
fn sha1_result(hasher: sha1::Sha1) -> (digest: Vec<u8>)
    ensures
        digest@ == sha1_digest(sha1_taken(hasher)),
        digest@.len() == 20,
{
    sha1::Digest::result(hasher).to_vec()
}

/// `Digest::new` of `Sha256`: a hasher that has taken in nothing.
#[verifier::external_body]
fn sha256_new() -> (hasher: sha2::Sha256)
    ensures
        sha256_taken(hasher) == Seq::<u8>::empty(),
{
    <sha2::Sha256 as sha2::Digest>::new()
}

/// `Digest::input` of `Sha256`: the hasher takes in more bytes.
#[verifier::external_body]
fn sha256_input(hasher: &mut sha2::Sha256, data: &[u8])
    requires
        sha256_taken(*old(hasher)).len() + data@.len() < input_limit(),
    ensures
        sha256_taken(*final(hasher)) == sha256_taken(*old(hasher)) + data@,
{
    sha2::Digest::input(hasher, data)
}

/// `Digest::result` of `Sha256`: the digest of what the hasher took in,
/// 32 bytes.
#[verifier::external_body]
fn sha256_result(hasher: sha2::Sha256) -> (digest: Vec<u8>)
    ensures
        digest@ == sha256_digest(sha256_taken(hasher)),
        digest@.len() == 32,
{
    sha2::Digest::result(hasher).to_vec()
}

/// `Digest::new` of `Sha512`: a hasher that has taken in nothing.
#[verifier::external_body]
fn sha512_new() -> (hasher: sha2::Sha512)
    ensures
        sha512_taken(hasher) == Seq::<u8>::empty(),
{
    <sha2::Sha512 as sha2::Digest>::new()
}

/// `Digest::input` of `Sha512`: the hasher takes in more bytes.
#[verifier::external_body]
fn sha512_input(hasher: &mut sha2::Sha512, data: &[u8])
    requires
        sha512_taken(*old(hasher)).len() + data@.len() < input_limit(),
    ensures
        sha512_taken(*final(hasher)) == sha512_taken(*old(hasher)) + data@,
{
    sha2::Digest::input(hasher, data)
}

/// `Digest::result` of `Sha512`: the digest of what the hasher took in,
/// 64 bytes.
#[verifier::external_body]
fn sha512_result(hasher: sha2::Sha512) -> (digest: Vec<u8>)
    ensures
        digest@ == sha512_digest(sha512_taken(hasher)),
        digest@.len() == 64,
{
    sha2::Digest::result(hasher).to_vec()
}

/// `VariableOutput::new` of `VarBlake2b`: a hasher for digests of `size`
/// bytes that has taken in nothing. There is one for sizes from 1 to 64.
#[verifier::external_body]
fn blake2b_new(size: usize) -> (hasher: Option<VarBlake2b>)
    ensures
        hasher is Some <==> 1 <= size <= 64,
        hasher is Some ==> blake2b_taken(hasher->0) == Seq::<u8>::empty() && blake2b_size(
            hasher->0,
        ) == size,
{
    <VarBlake2b as blake2::digest::VariableOutput>::new(size).ok()
}

/// `Input::input` of `VarBlake2b`: the hasher takes in more bytes.
#[verifier::external_body]
fn blake2b_input(hasher: &mut VarBlake2b, data: &[u8])
    requires
        blake2b_taken(*old(hasher)).len() + data@.len() < input_limit(),
    ensures
        blake2b_taken(*final(hasher)) == blake2b_taken(*old(hasher)) + data@,
        blake2b_size(*final(hasher)) == blake2b_size(*old(hasher)),
{
    blake2::digest::Input::input(hasher, data)
}

/// `VariableOutput::vec_result` of `VarBlake2b`: the digest of what the
/// hasher took in, of the length that the hasher was made for.
#[verifier::external_body]
fn blake2b_result(hasher: VarBlake2b) -> (digest: Vec<u8>)
    ensures
        digest@ == blake2b_digest(blake2b_taken(hasher), blake2b_size(hasher)),
        digest@.len() == blake2b_size(hasher),
{
    blake2::digest::VariableOutput::vec_result(hasher)
}

/// `VariableOutput::new` of `VarBlake2s`: a hasher for digests of `size`
/// bytes that has taken in nothing. There is one for sizes from 1 to 32.
#[verifier::external_body]
fn blake2s_new(size: usize) -> (hasher: Option<VarBlake2s>)
    ensures
        hasher is Some <==> 1 <= size <= 32,
        hasher is Some ==> blake2s_taken(hasher->0) == Seq::<u8>::empty() && blake2s_size(
            hasher->0,
        ) == size,
{
    <VarBlake2s as blake2::digest::VariableOutput>::new(size).ok()
}

/// `Input::input` of `VarBlake2s`: the hasher takes in more bytes.
#[verifier::external_body]
fn blake2s_input(hasher: &mut VarBlake2s, data: &[u8])
    requires
        blake2s_taken(*old(hasher)).len() + data@.len() < input_limit(),
    ensures
        blake2s_taken(*final(hasher)) == blake2s_taken(*old(hasher)) + data@,
        blake2s_size(*final(hasher)) == blake2s_size(*old(hasher)),
{
    blake2::digest::Input::input(hasher, data)
}

/// `VariableOutput::vec_result` of `VarBlake2s`: the digest of what the
/// hasher took in, of the length that the hasher was made for.
#[verifier::external_body]
fn blake2s_result(hasher: VarBlake2s) -> (digest: Vec<u8>)
    ensures
        digest@ == blake2s_digest(blake2s_taken(hasher), blake2s_size(hasher)),
        digest@.len() == blake2s_size(hasher),
{
    blake2::digest::VariableOutput::vec_result(hasher)
}

/// The digest of a run of bytes under a hash function that is supported.
pub open spec fn digest_of(hash_type: HashType, data: Seq<u8>) -> Seq<u8> {
    match hash_type {
        HashType::SHA1 => sha1_digest(data),
        HashType::SHA2_256 | HashType::SHA256 => sha256_digest(data),
        HashType::SHA2_512_512 | HashType::SHA512 => sha512_digest(data),
        HashType::BLAKE2B_256 => blake2b_digest(data, 32),
        HashType::BLAKE2B_512 => blake2b_digest(data, 64),
        HashType::BLAKE2S_128 => blake2s_digest(data, 16),
        HashType::BLAKE2S_256 => blake2s_digest(data, 32),
        HashType::SHA2_512_256 => Seq::empty(),
    }
}

#[allow(non_camel_case_types)]
enum _Ctx {
    SHA1(sha1::Sha1),
    SHA256(sha2::Sha256),
    SHA512(sha2::Sha512),
    BLAKE2B_256(VarBlake2b),
    BLAKE2B_512(VarBlake2b),
    BLAKE2S_128(VarBlake2s),
    BLAKE2S_256(VarBlake2s),
}

/// A digest in the making.
pub struct Ctx {
    ctx: _Ctx,
}

/// Whether digests of a hash function can be computed here.
pub fn hash_type_is_supported(hash_type: HashType) -> (supported: bool)
    ensures
        supported == is_supported(hash_type),
{
    match Ctx::new(hash_type) {
        Ok(_) => true,
        Err(_) => false,
    }
}

impl Ctx {
    /// The hash function of the context.
    pub closed spec fn kind(&self) -> HashType {
        match self.ctx {
            _Ctx::SHA1(_) => HashType::SHA1,
            _Ctx::SHA256(_) => HashType::SHA256,
            _Ctx::SHA512(_) => HashType::SHA512,
            _Ctx::BLAKE2B_256(_) => HashType::BLAKE2B_256,
            _Ctx::BLAKE2B_512(_) => HashType::BLAKE2B_512,
            _Ctx::BLAKE2S_128(_) => HashType::BLAKE2S_128,
            _Ctx::BLAKE2S_256(_) => HashType::BLAKE2S_256,
        }
    }

    /// The bytes that the context has taken in.
    pub closed spec fn taken(&self) -> Seq<u8> {
        match self.ctx {
            _Ctx::SHA1(h) => sha1_taken(h),
            _Ctx::SHA256(h) => sha256_taken(h),
            _Ctx::SHA512(h) => sha512_taken(h),
            _Ctx::BLAKE2B_256(h) => blake2b_taken(h),
            _Ctx::BLAKE2B_512(h) => blake2b_taken(h),
            _Ctx::BLAKE2S_128(h) => blake2s_taken(h),
            _Ctx::BLAKE2S_256(h) => blake2s_taken(h),
        }
    }

    /// The hasher of the context makes digests of the length that the
    /// hash function is registered with.
    pub closed spec fn wf(&self) -> bool {
        match self.ctx {
            _Ctx::BLAKE2B_256(h) => blake2b_size(h) == 32,
            _Ctx::BLAKE2B_512(h) => blake2b_size(h) == 64,
            _Ctx::BLAKE2S_128(h) => blake2s_size(h) == 16,
            _Ctx::BLAKE2S_256(h) => blake2s_size(h) == 32,
            _ => true,
        }
    }

    /// A context for a hash function that is supported, with nothing
    /// taken in. A hash function comes under the one name that parsing
    /// gives it.
    pub fn new(hash_type: HashType) -> (res: Result<Ctx, ()>)
        ensures
            res is Ok <==> is_supported(hash_type),
            res is Ok ==> res->Ok_0.wf() && res->Ok_0.kind() == parsed_name(hash_type)
                && res->Ok_0.taken() == Seq::<u8>::empty(),
    {
        let ctx = match hash_type {
            HashType::SHA1 => Some(_Ctx::SHA1(sha1_new())),
            HashType::SHA2_256 | HashType::SHA256 => Some(_Ctx::SHA256(sha256_new())),
            HashType::SHA2_512_256 => None,
            HashType::SHA2_512_512 | HashType::SHA512 => Some(_Ctx::SHA512(sha512_new())),
            HashType::BLAKE2B_256 => match blake2b_new(32) {
                Some(h) => Some(_Ctx::BLAKE2B_256(h)),
                None => None,
            },
            HashType::BLAKE2B_512 => match blake2b_new(64) {
                Some(h) => Some(_Ctx::BLAKE2B_512(h)),
                None => None,
            },
            HashType::BLAKE2S_128 => match blake2s_new(16) {
                Some(h) => Some(_Ctx::BLAKE2S_128(h)),
                None => None,
            },
            HashType::BLAKE2S_256 => match blake2s_new(32) {
                Some(h) => Some(_Ctx::BLAKE2S_256(h)),
                None => None,
            },
        };
        match ctx {
            Some(ctx) => Ok(Ctx { ctx }),
            None => Err(()),
        }
    }

    /// The hash function of the context.
    pub fn hash_type(&self) -> (hash_type: HashType)
        ensures
            hash_type == self.kind(),
    {
        match self.ctx {
            _Ctx::SHA1(_) => HashType::SHA1,
            _Ctx::SHA256(_) => HashType::SHA256,
            _Ctx::SHA512(_) => HashType::SHA512,
            _Ctx::BLAKE2B_256(_) => HashType::BLAKE2B_256,
            _Ctx::BLAKE2B_512(_) => HashType::BLAKE2B_512,
            _Ctx::BLAKE2S_128(_) => HashType::BLAKE2S_128,
            _Ctx::BLAKE2S_256(_) => HashType::BLAKE2S_256,
        }
    }

    /// Takes in more bytes.
    pub fn update(&mut self, data: &[u8])
        requires
            old(self).wf(),
            old(self).taken().len() + data@.len() < input_limit(),
        ensures
            final(self).wf(),
            final(self).kind() == old(self).kind(),
            final(self).taken() == old(self).taken() + data@,
    {
        match &mut self.ctx {
            _Ctx::SHA1(ctx) => sha1_input(ctx, data),
            _Ctx::SHA256(ctx) => sha256_input(ctx, data),
            _Ctx::SHA512(ctx) => sha512_input(ctx, data),
            _Ctx::BLAKE2B_256(ctx) => blake2b_input(ctx, data),
            _Ctx::BLAKE2B_512(ctx) => blake2b_input(ctx, data),
            _Ctx::BLAKE2S_128(ctx) => blake2s_input(ctx, data),
            _Ctx::BLAKE2S_256(ctx) => blake2s_input(ctx, data),
        }
    }

    /// The digest of what was taken in.
    pub fn finish_into_bytes(self) -> (digest: Vec<u8>)
        requires
            self.wf(),
        ensures
            digest@ == digest_of(self.kind(), self.taken()),
            digest@.len() == digest_length_of(self.kind()),
    {
        match self.ctx {
            _Ctx::SHA1(ctx) => sha1_result(ctx),
            _Ctx::SHA256(ctx) => sha256_result(ctx),
            _Ctx::SHA512(ctx) => sha512_result(ctx),
            _Ctx::BLAKE2B_256(ctx) => blake2b_result(ctx),
            _Ctx::BLAKE2B_512(ctx) => blake2b_result(ctx),
            _Ctx::BLAKE2S_128(ctx) => blake2s_result(ctx),
            _Ctx::BLAKE2S_256(ctx) => blake2s_result(ctx),
        }
    }

    /// Writes the digest of what was taken in into a buffer of the
    /// digest's length.
    pub fn finish_to_bytes(self, hashval: &mut [u8])
        requires
            self.wf(),
            old(hashval)@.len() == digest_length_of(self.kind()),
        ensures
            final(hashval)@ == digest_of(self.kind(), self.taken()),
    {
        let digest = self.finish_into_bytes();
        let mut i: usize = 0;
        while i < digest.len()
            invariant
                i <= digest.len(),
                hashval@.len() == digest@.len(),
                forall|j: int| 0 <= j < i ==> hashval@[j] == digest@[j],
            decreases digest.len() - i,
        {
            hashval[i] = digest[i];
            i = i + 1;
        }
        proof {
            assert(hashval@ =~= digest@);
        }
    }

    /// Writes the hash function and the digest of what was taken in over
    /// a digest of the same length.
    pub fn finish_to_hash_bytes(self, hash_bytes: &mut HashBytes)
        requires
            self.wf(),
            old(hash_bytes).1@.len() == digest_length_of(self.kind()),
        ensures
            final(hash_bytes).0 == self.kind(),
            final(hash_bytes).1@ == digest_of(self.kind(), self.taken()),
    {
        hash_bytes.0 = self.hash_type();
        self.finish_to_bytes(hash_bytes.1.as_mut_slice());
    }

    /// The hash function and the digest of what was taken in.
    pub fn finish_into_hash_bytes(self) -> (hash_bytes: HashBytes)
        requires
            self.wf(),
        ensures
            hash_bytes.0 == self.kind(),
            hash_bytes.1@ == digest_of(self.kind(), self.taken()),
            hash_bytes.1@.len() == digest_length_of(self.kind()),
    {
        (self.hash_type(), self.finish_into_bytes())
    }
}

} // verus!
