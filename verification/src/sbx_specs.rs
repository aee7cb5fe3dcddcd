//! The closed registry of container format versions.

use vstd::prelude::*;

verus! {

/// Length in bytes of the block signature.
pub const SBX_SIGNATURE_LEN: usize = 3;

/// Length in bytes of the file UID shared by all blocks of one container.
pub const SBX_FILE_UID_LEN: usize = 6;

/// Size in bytes of the header that starts every block.
pub const SBX_HEADER_SIZE: usize = 16;

/// The largest block size over all versions.
pub const SBX_LARGEST_BLOCK_SIZE: usize = 4096;

/// A container format version.
#[derive(Clone, Copy, Debug, PartialEq, Eq, Structural)]
pub enum Version {
    V1,
    V2,
    V3,
    V17,
    V18,
    V19,
}

/// The block size of a version, as a mathematical integer.
pub open spec fn block_size_of(version: Version) -> int {
    match version {
        Version::V1 | Version::V17 => 512,
        Version::V2 | Version::V18 => 128,
        Version::V3 | Version::V19 => 4096,
    }
}

/// The size of the data region of a block of a version.
pub open spec fn data_size_of(version: Version) -> int {
    block_size_of(version) - 16
}

/// Whether blocks of a version are grouped into Reed-Solomon sets.
pub open spec fn uses_rs(version: Version) -> bool {
    version is V17 || version is V18 || version is V19
}

/// The numeric tag that stands for a version in a block header.
pub open spec fn version_tag(version: Version) -> int {
    match version {
        Version::V1 => 1,
        Version::V2 => 2,
        Version::V3 => 3,
        Version::V17 => 17,
        Version::V18 => 18,
        Version::V19 => 19,
    }
}

/// The version that a numeric tag stands for, if any.
pub open spec fn version_of_tag(tag: int) -> Option<Version> {
    if tag == 1 {
        Some(Version::V1)
    } else if tag == 2 {
        Some(Version::V2)
    } else if tag == 3 {
        Some(Version::V3)
    } else if tag == 17 {
        Some(Version::V17)
    } else if tag == 18 {
        Some(Version::V18)
    } else if tag == 19 {
        Some(Version::V19)
    } else {
        None
    }
}

/// The numeric tag of a version.
pub fn ver_to_usize(version: Version) -> (tag: usize)
    ensures
        tag == version_tag(version),
{
    match version {
        Version::V1 => 1,
        Version::V2 => 2,
        Version::V3 => 3,
        Version::V17 => 17,
        Version::V18 => 18,
        Version::V19 => 19,
    }
}

/// The numeric tag of a version, as the byte that a header holds.
pub fn ver_to_u8(version: Version) -> (tag: u8)
    ensures
        tag == version_tag(version),
{
    match version {
        Version::V1 => 1,
        Version::V2 => 2,
        Version::V3 => 3,
        Version::V17 => 17,
        Version::V18 => 18,
        Version::V19 => 19,
    }
}

/// The version that a numeric tag stands for, if any.
pub fn u8_to_ver(tag: u8) -> (version: Option<Version>)
    ensures
        version == version_of_tag(tag as int),
{
    if tag == 1 {
        Some(Version::V1)
    } else if tag == 2 {
        Some(Version::V2)
    } else if tag == 3 {
        Some(Version::V3)
    } else if tag == 17 {
        Some(Version::V17)
    } else if tag == 18 {
        Some(Version::V18)
    } else if tag == 19 {
        Some(Version::V19)
    } else {
        None
    }
}

/// The block size of a version.
pub fn ver_to_block_size(version: Version) -> (size: usize)
    ensures
        size == block_size_of(version),
{
    match version {
        Version::V1 | Version::V17 => 512,
        Version::V2 | Version::V18 => 128,
        Version::V3 | Version::V19 => 4096,
    }
}

/// The size of the data region of a block of a version.
pub fn ver_to_data_size(version: Version) -> (size: usize)
    ensures
        size == data_size_of(version),
{
    ver_to_block_size(version) - SBX_HEADER_SIZE
}

/// Whether blocks of a version are grouped into Reed-Solomon sets.
pub fn ver_uses_rs(version: Version) -> (rs: bool)
    ensures
        rs == uses_rs(version),
{
    match version {
        Version::V1 | Version::V2 | Version::V3 => false,
        Version::V17 | Version::V18 | Version::V19 => true,
    }
}

/// Every version's tag stands for that version, and for no other.
pub proof fn lemma_version_tag_round_trip(version: Version)
    ensures
        version_of_tag(version_tag(version)) == Some(version),
        0 < version_tag(version) < 256,
        16 < block_size_of(version) <= SBX_LARGEST_BLOCK_SIZE,
{
}

} // verus!
