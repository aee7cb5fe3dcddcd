use rsbx::container::{check_block, check_layout, make_block, make_meta_block};
use rsbx::file_utils::ceil_div_u64;
use rsbx::file_utils::from_container_metadata::calc_total_block_count;
use rsbx::file_utils::from_orig_file_size::{
    calc_container_size, calc_data_block_count_exc_burst_gaps,
    calc_data_only_and_parity_block_count_exc_burst_gaps, calc_meta_block_count_exc_burst_gaps,
    calc_total_block_count_exc_burst_gaps,
};
use rsbx::file_utils::from_raw_file_metadata::calc_data_chunk_count;
use rsbx::general_error::ErrorKind;
use rsbx::rs_codec::encoder::RSEncoder;
use rsbx::rs_codec::repairer::{count_flags, repair_outcome, RSRepairer};
use rsbx::rs_codec::{
    calc_parity_shards, last_data_set_size, last_data_set_start_index, last_set_start_seq_num,
    to_err, RSError,
};
use rsbx::sbx_block::metadata::Metadata;
use rsbx::sbx_block::write_index::interleaved_index;
use rsbx::sbx_block::{calc_data_block_write_index, BlockType, Error};
use rsbx::sbx_specs::Version;

#[test]
fn sizes_of_last_sets() {
    assert_eq!(last_data_set_size(3, 4), 1);
    assert_eq!(last_data_set_size(3, 5), 2);
    assert_eq!(last_data_set_size(3, 6), 3);
    assert_eq!(last_data_set_size(3, 3), 3);
    assert_eq!(last_data_set_size(3, 1), 1);
    assert_eq!(last_data_set_size(1, 9), 1);
    assert_eq!(last_data_set_size(10, 7), 7);
    assert_eq!(last_data_set_size(3, 0), 3);
    for d in 1..8usize {
        for total in 1..50u64 {
            assert_eq!(last_data_set_size(d, total) as u64, (total - 1) % d as u64 + 1);
            assert_eq!(
                last_data_set_start_index(d, total),
                total - last_data_set_size(d, total) as u64
            );
            if total % d as u64 == 0 {
                assert_eq!(last_data_set_size(d, total), d);
            }
        }
    }
    assert_eq!(last_data_set_start_index(3, 4), 3);
    assert_eq!(last_data_set_start_index(3, 6), 3);
}

#[test]
fn start_of_the_last_set() {
    assert_eq!(last_set_start_seq_num(3, 2, 4), 5);
    assert_eq!(last_set_start_seq_num(3, 2, 2), 0);
    assert_eq!(last_set_start_seq_num(3, 2, 6), 10);
    assert_eq!(last_set_start_seq_num(10, 2, 35), 36);
}

#[test]
fn parity_shards_of_a_set() {
    assert_eq!(calc_parity_shards(3, 2, 3), 2);
    assert_eq!(calc_parity_shards(3, 2, 1), 1);
    assert_eq!(calc_parity_shards(3, 2, 2), 2);
    assert_eq!(calc_parity_shards(10, 2, 1), 1);
    assert_eq!(calc_parity_shards(10, 2, 5), 1);
    assert_eq!(calc_parity_shards(10, 2, 6), 2);
    assert_eq!(calc_parity_shards(4, 4, 0), 0);
}

#[test]
fn chunks_and_blocks_of_lengths() {
    assert_eq!(calc_data_chunk_count(Version::V1, 0), 0);
    assert_eq!(calc_data_chunk_count(Version::V1, 1), 1);
    assert_eq!(calc_data_chunk_count(Version::V1, 496), 1);
    assert_eq!(calc_data_chunk_count(Version::V1, 497), 2);
    assert_eq!(calc_data_chunk_count(Version::V2, 1000), 9);
    assert_eq!(calc_data_chunk_count(Version::V3, u64::MAX), u64::MAX / 4080 + 1);
    assert_eq!(calc_total_block_count(Version::V1, 2048), 4);
    assert_eq!(calc_total_block_count(Version::V1, 2049), 5);
    assert_eq!(calc_total_block_count(Version::V19, 0), 0);
    assert_eq!(ceil_div_u64(u64::MAX, 1), u64::MAX);
    assert_eq!(ceil_div_u64(7, 7), 1);
    assert_eq!(ceil_div_u64(8, 7), 2);
}

#[test]
fn counts_of_blocks() {
    let shape = Some((10usize, 2usize, 4usize));
    assert_eq!(calc_data_block_count_exc_burst_gaps(Version::V17, shape, 496 * 10), 12);
    assert_eq!(calc_data_block_count_exc_burst_gaps(Version::V17, shape, 496 * 10 + 1), 24);
    assert_eq!(calc_total_block_count_exc_burst_gaps(Version::V17, shape, 496 * 10 + 1), 27);
    assert_eq!(calc_total_block_count_exc_burst_gaps(Version::V17, shape, 0), 3);
    assert_eq!(calc_total_block_count_exc_burst_gaps(Version::V2, None, 113), 3);
}

#[test]
fn counts_of_each_kind_of_block() {
    let shape = Some((3usize, 2usize, 1usize));
    assert_eq!(calc_meta_block_count_exc_burst_gaps(Version::V17, shape), 3);
    assert_eq!(calc_meta_block_count_exc_burst_gaps(Version::V1, None), 1);
    assert_eq!(
        calc_data_only_and_parity_block_count_exc_burst_gaps(Version::V17, shape, 1500),
        (4, 4)
    );
    assert_eq!(
        calc_data_only_and_parity_block_count_exc_burst_gaps(Version::V17, shape, 1488),
        (3, 2)
    );
    assert_eq!(
        calc_data_only_and_parity_block_count_exc_burst_gaps(Version::V17, shape, 0),
        (0, 0)
    );
    assert_eq!(
        calc_data_only_and_parity_block_count_exc_burst_gaps(Version::V1, None, 1000),
        (3, 0)
    );
}

#[test]
fn size_of_a_container_with_interleaving() {
    let shape = Some((3usize, 2usize, 3usize));
    for size in [0u64, 1, 496, 1488, 1500, 4464, 4465, 20000] {
        let total = calc_total_block_count_exc_burst_gaps(Version::V17, shape, size);
        let last = (0..total as u32)
            .map(|s| calc_data_block_write_index(s, shape))
            .max()
            .unwrap();
        assert_eq!(calc_container_size(Version::V17, shape, size), 512 * (last + 1));
    }
    let shape = Some((3usize, 2usize, 1usize));
    for size in [0u64, 1, 1500, 20000] {
        let total = calc_total_block_count_exc_burst_gaps(Version::V17, shape, size);
        assert_eq!(calc_container_size(Version::V17, shape, size), 512 * total);
        assert_eq!(calc_data_block_write_index(total as u32 - 1, shape) + 1, total);
    }
}

#[test]
fn write_index_is_one_to_one_on_every_group() {
    for (d, p, b) in [(1usize, 1usize, 1usize), (3, 2, 3), (2, 1, 5), (10, 2, 7), (4, 4, 4)] {
        let group = ((d + p) * b) as u32;
        for g in 0..3u32 {
            let mut seen = vec![false; group as usize];
            for r in 0..group {
                let s = g * group + r;
                let i = calc_data_block_write_index(s, Some((d, p, b)));
                assert!(i >= (g * group) as u64 && i < ((g + 1) * group) as u64);
                let at = (i - (g * group) as u64) as usize;
                assert!(!seen[at]);
                seen[at] = true;
                let set = r as usize / (d + p);
                let k = r as usize % (d + p);
                assert_eq!(at, k * b + set);
                assert_eq!(interleaved_index(s as u64, (d + p) as u64, b as u64), i);
            }
            assert!(seen.iter().all(|x| *x));
        }
    }
}

#[test]
fn layouts_that_can_be_worked_on() {
    assert!(check_layout(Version::V1, None, 0));
    assert!(check_layout(Version::V1, None, 1_000_000));
    assert!(!check_layout(Version::V17, None, 10));
    assert!(!check_layout(Version::V1, Some((3, 2, 1)), 10));
    assert!(check_layout(Version::V17, Some((3, 2, 1)), 10));
    assert!(!check_layout(Version::V17, Some((0, 2, 1)), 10));
    assert!(!check_layout(Version::V17, Some((3, 0, 1)), 10));
    assert!(!check_layout(Version::V17, Some((3, 2, 0)), 10));
    assert!(check_layout(Version::V17, Some((128, 128, 1)), 10));
    assert!(!check_layout(Version::V17, Some((129, 128, 1)), 10));
    assert!(!check_layout(Version::V17, Some((usize::MAX, 2, 1)), 10));
    assert!(!check_layout(Version::V17, Some((3, 2, usize::MAX)), 10));
    assert!(!check_layout(Version::V2, None, 112 * (u32::MAX as u64)));
    assert!(check_layout(Version::V2, None, 112 * (u32::MAX as u64 - 1)));
    assert!(!check_layout(Version::V1, None, u64::MAX));
}

#[test]
fn blocks_of_a_kind() {
    let uid = [1, 2, 3, 4, 5, 6];
    let block = make_block(Version::V2, &uid, 5, &[1, 2, 3]);
    assert_eq!(block.len(), 128);
    assert_eq!(&block[..4], &[b'S', b'B', b'x', 2]);
    assert_eq!(&block[6..16], &[1, 2, 3, 4, 5, 6, 0, 0, 0, 5]);
    assert_eq!(&block[16..20], &[1, 2, 3, 0]);
    assert!(check_block(&block, Version::V2, &uid, 5));
    assert!(!check_block(&block, Version::V2, &uid, 6));
    assert!(!check_block(&block, Version::V18, &uid, 5));
    assert!(!check_block(&block, Version::V1, &uid, 5));
    assert!(!check_block(&block, Version::V2, &[1, 2, 3, 4, 5, 7], 5));
    assert!(!check_block(&block[..127], Version::V2, &uid, 5));
    for at in 0..128 {
        let mut damaged = block.clone();
        damaged[at] ^= 0x10;
        assert!(!check_block(&damaged, Version::V2, &uid, 5));
    }
    let meta = make_meta_block(Version::V2, &uid, vec![Metadata::RSD(4)]).unwrap();
    assert!(check_block(&meta, Version::V2, &uid, 0));
    assert_eq!(&meta[16..21], &[b'R', b'S', b'D', 1, 4]);
    assert_eq!(
        make_meta_block(Version::V2, &uid, vec![Metadata::FNM(vec![0; 109])]),
        Err(Error::TooMuchMetaData)
    );
}

#[test]
fn unrepaired_set() {
    let e = RSError::new(Version::V19, 11, 5, BlockType::Data, &[true, false, false, false, true]);
    assert_eq!(e.version(), Version::V19);
    assert_eq!(e.block_seq_num_start(), 11);
    assert_eq!(e.block_count(), 5);
    assert_eq!(e.block_type(), BlockType::Data);
    assert_eq!(e.shard_present(), &[true, false, false, false, true]);
    let long: Vec<bool> = (0..40).map(|i| i % 3 == 0).collect();
    let e = RSError::new(Version::V17, 0, 40, BlockType::Meta, &long);
    assert_eq!(e.shard_present(), &long[..]);
    match to_err(e).kind {
        ErrorKind::RSError(e) => assert_eq!(e.block_count(), 40),
        other => panic!("unexpected kind {:?}", other),
    }
    assert!(repair_outcome(true, Version::V17, 1, 5, BlockType::Data, &[true]).is_ok());
    let e = repair_outcome(false, Version::V17, 6, 5, BlockType::Data, &[true, false])
        .err()
        .unwrap();
    assert_eq!(e.block_seq_num_start(), 6);
    assert_eq!(e.shard_present(), &[true, false]);
    assert_eq!(count_flags(&[]), 0);
    assert_eq!(count_flags(&[true, false, true, true]), 3);
}

#[test]
fn encoder_hands_out_parity_when_a_set_fills() {
    let mut encoder = RSEncoder::new(Version::V18, 3, 2);
    assert_eq!(encoder.total_slot_count(), 5);
    assert_eq!(encoder.unfilled_slot_count(), 3);
    let shards: Vec<Vec<u8>> =
        (0..3u8).map(|i| (0..112u8).map(|k| k.wrapping_mul(i + 3)).collect()).collect();
    assert!(encoder.encode(&shards[0]).is_none());
    assert_eq!(encoder.unfilled_slot_count(), 2);
    assert!(encoder.encode(&shards[1]).is_none());
    let parity = encoder.encode(&shards[2]).unwrap();
    assert_eq!(encoder.unfilled_slot_count(), 3);
    assert_eq!(parity.len(), 2);
    assert!(parity.iter().all(|p| p.len() == 112));
    assert!(parity.iter().any(|p| p.iter().any(|b| *b != 0)));
    assert!(encoder.finish().is_none());

    let repairer = RSRepairer::new(Version::V18, 3, 2);
    let mut set: Vec<Vec<u8>> = shards.clone();
    set.extend(parity.clone());
    for (a, b) in [(0usize, 1usize), (0, 4), (3, 4), (1, 2), (2, 2)] {
        let mut damaged = set.clone();
        let mut flags = [true; 5];
        damaged[a] = vec![0xaa; 112];
        damaged[b] = vec![0xbb; 112];
        flags[a] = false;
        flags[b] = false;
        assert!(repairer.repair(&mut damaged, &flags, 1, BlockType::Data).is_ok());
        assert_eq!(damaged, set);
    }
    let mut damaged = set.clone();
    damaged[0] = vec![0; 112];
    let before = damaged.clone();
    let e = repairer
        .repair(&mut damaged, &[false, false, false, true, true], 6, BlockType::Data)
        .err()
        .unwrap();
    assert_eq!(damaged, before);
    assert_eq!(e.version(), Version::V18);
    assert_eq!(e.block_seq_num_start(), 6);
    assert_eq!(e.block_count(), 5);
    assert_eq!(e.shard_present(), &[false, false, false, true, true]);
}

#[test]
fn encoder_fills_a_short_set_with_zero_shards() {
    let mut short = RSEncoder::new(Version::V18, 3, 2);
    assert!(short.encode(&[5u8; 112]).is_none());
    let parity = short.finish().unwrap();
    assert_eq!(short.unfilled_slot_count(), 3);

    let mut full = RSEncoder::new(Version::V18, 3, 2);
    assert!(full.encode(&[5u8; 112]).is_none());
    assert!(full.encode(&[0u8; 112]).is_none());
    assert_eq!(full.encode(&[0u8; 112]).unwrap(), parity);
}
