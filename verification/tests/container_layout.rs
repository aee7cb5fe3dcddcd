use rsbx::encode_core::encode;
use rsbx::file_utils::from_orig_file_size::{
    calc_container_size, calc_data_block_count_exc_burst_gaps,
    calc_total_block_count_exc_burst_gaps,
};
use rsbx::sbx_block::metadata::Metadata;
use rsbx::sbx_block::{calc_data_block_write_index, Block, BlockType};
use rsbx::sbx_specs::Version;

const UID: [u8; 6] = [1, 2, 3, 4, 5, 6];

fn parse(bytes: &[u8], version: Version) -> Block {
    let mut block = Block::new(version, &[0; 6], BlockType::Data).unwrap();
    block.buf_mut().copy_from_slice(bytes);
    block.sync_from_buffer().unwrap();
    assert_eq!(block.verify_crc(), Ok(true));
    block
}

#[test]
fn plain_container_of_1000_bytes() {
    let input = vec![0xaau8; 1000];
    let out = encode(Version::V1, &UID, None, vec![Metadata::FSZ(1000)], &input).unwrap();
    assert_eq!(out.len(), 2048);
    assert_eq!(calc_container_size(Version::V1, None, 1000), 2048);
    assert_eq!(calc_total_block_count_exc_burst_gaps(Version::V1, None, 1000), 4);
    assert_eq!(calc_data_block_count_exc_burst_gaps(Version::V1, None, 1000), 3);
    let meta = parse(&out[0..512], Version::V1);
    assert!(meta.is_meta());
    assert_eq!(meta.header().file_uid, UID);
    assert_eq!(meta.meta_ref().unwrap().as_slice(), &[Metadata::FSZ(1000)]);
    for i in 1..4usize {
        let block = parse(&out[i * 512..(i + 1) * 512], Version::V1);
        assert!(block.is_data());
        assert_eq!(block.header().seq_num, i as u32);
        assert_eq!(block.header().file_uid, UID);
    }
    let last = &out[3 * 512 + 16..4 * 512];
    assert!(last[..8].iter().all(|b| *b == 0xaa));
    assert!(last[8..].iter().all(|b| *b == 0));
    assert_eq!(last[8..].len(), 488);
    assert!(out[512 + 16..1024].iter().all(|b| *b == 0xaa));
}

#[test]
fn plain_container_of_no_bytes() {
    let out = encode(Version::V1, &UID, None, vec![], &[]).unwrap();
    assert_eq!(out.len(), 512);
    assert_eq!(calc_container_size(Version::V1, None, 0), 512);
    assert_eq!(calc_data_block_count_exc_burst_gaps(Version::V1, None, 0), 0);
    assert!(parse(&out, Version::V1).is_meta());
}

#[test]
fn rs_container_of_1500_bytes() {
    let shape = Some((3usize, 2usize, 1usize));
    let input: Vec<u8> = (0..1500u32).map(|i| (i % 253) as u8).collect();
    let out = encode(Version::V17, &UID, shape, vec![], &input).unwrap();
    assert_eq!(calc_data_block_count_exc_burst_gaps(Version::V17, shape, 1500), 10);
    assert_eq!(calc_total_block_count_exc_burst_gaps(Version::V17, shape, 1500), 13);
    assert_eq!(calc_container_size(Version::V17, shape, 1500), 6656);
    assert_eq!(out.len(), 6656);
    for i in 0..3usize {
        assert!(parse(&out[i * 512..(i + 1) * 512], Version::V17).is_meta());
    }
    for i in 3..8usize {
        let block = parse(&out[i * 512..(i + 1) * 512], Version::V17);
        assert_eq!(block.header().seq_num, (i - 2) as u32);
    }
    assert_eq!(parse(&out[8 * 512..9 * 512], Version::V17).header().seq_num, 6);
    assert!(out[9 * 512..11 * 512].iter().all(|b| *b == 0));
    assert_eq!(parse(&out[11 * 512..12 * 512], Version::V17).header().seq_num, 9);
    assert_eq!(parse(&out[12 * 512..13 * 512], Version::V17).header().seq_num, 10);
    assert_eq!(&out[3 * 512 + 16..4 * 512], &input[0..496]);
    assert_eq!(&out[8 * 512 + 16..8 * 512 + 16 + 12], &input[1488..1500]);
}

#[test]
fn rs_container_of_no_bytes_has_metadata_blocks_only() {
    let shape = Some((3usize, 2usize, 1usize));
    let out = encode(Version::V17, &UID, shape, vec![], &[]).unwrap();
    assert_eq!(out.len(), 3 * 512);
    assert_eq!(calc_data_block_count_exc_burst_gaps(Version::V17, shape, 0), 0);
}

#[test]
fn aligned_input_has_no_short_set() {
    let shape = Some((3usize, 2usize, 1usize));
    let input = vec![7u8; 3 * 496];
    let out = encode(Version::V17, &shape_uid(), shape, vec![], &input).unwrap();
    assert_eq!(out.len(), (3 + 5) * 512);
    for i in 3..8usize {
        assert!(!out[i * 512..(i + 1) * 512].iter().all(|b| *b == 0));
    }
}

fn shape_uid() -> [u8; 6] {
    UID
}

#[test]
fn write_index_with_burst_3_has_no_duplicates() {
    let shape = Some((3usize, 2usize, 3usize));
    let mut seen: Vec<u64> = Vec::new();
    for s in 0..13u32 {
        let i = calc_data_block_write_index(s, shape);
        assert!(!seen.contains(&i));
        seen.push(i);
    }
    assert_eq!(seen, vec![0, 3, 6, 9, 12, 1, 4, 7, 10, 13, 2, 5, 8]);
    assert_eq!(calc_container_size(Version::V17, shape, 1500), 14 * 512);
}

#[test]
fn write_index_without_interleaving_is_the_sequence_index() {
    for s in 0..40u32 {
        assert_eq!(calc_data_block_write_index(s, Some((3, 2, 1))), s as u64);
        assert_eq!(calc_data_block_write_index(s, None), s as u64);
    }
}
