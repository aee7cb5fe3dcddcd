//! An archiver that packs a file into a container of fixed-size blocks.
//! Every block carries a header by which it can be found, told apart and
//! checked on its own. Some versions of the format group blocks in
//! Reed-Solomon sets and interleave the sets, so that damage to a run of
//! neighbouring blocks can be repaired.
//!
//! - [`sbx_specs`]: the versions of the format.
//! - [`sbx_block`]: one block, its header, its metadata records and its
//!   CRC, and the place of a block in a container.
//! - [`multihash`]: self-describing hash digests, and their computation.
//! - [`rs_codec`]: Reed-Solomon coding of sets of blocks.
//! - [`file_utils`]: the number of blocks and the size of a container.
//! - [`container`], [`encode_core`], [`decode_core`], [`repair_core`]:
//!   whole containers in memory.

pub mod sbx_specs;
pub mod general_error;
pub mod multihash;
pub mod sbx_block;
pub mod rs_codec;
pub mod file_utils;
pub mod container;
pub mod encode_core;
pub mod decode_core;
pub mod repair_core;
