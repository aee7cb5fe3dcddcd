use rsbx::decode_core::decode;
use rsbx::encode_core::encode;
use rsbx::repair_core::repair;
use rsbx::sbx_block::metadata::Metadata;
use rsbx::sbx_block::{BlockType, Error};
use rsbx::sbx_specs::Version;

const UID: [u8; 6] = [1, 2, 3, 4, 5, 6];

fn sample(len: usize) -> Vec<u8> {
    (0..len).map(|i| ((i * 7 + i / 13) % 256) as u8).collect()
}

#[test]
fn decode_gives_the_file_back() {
    for len in [0usize, 1, 495, 496, 497, 1000, 1488, 1500] {
        let input = sample(len);
        let out = encode(Version::V1, &UID, None, vec![], &input).unwrap();
        assert_eq!(decode(Version::V1, &UID, None, &out, len as u64), Ok(input.clone()));
        let shape = Some((3usize, 2usize, 2usize));
        let out = encode(Version::V17, &UID, shape, vec![], &input).unwrap();
        assert_eq!(decode(Version::V17, &UID, shape, &out, len as u64), Ok(input));
    }
}

#[test]
fn decode_fails_on_a_damaged_data_block() {
    let input = sample(1000);
    let mut out = encode(Version::V1, &UID, None, vec![], &input).unwrap();
    out[512 + 100] ^= 1;
    assert_eq!(decode(Version::V1, &UID, None, &out, 1000), Err(Error::ParseError));
}

#[test]
fn repair_after_zeroing_blocks_3_and_7() {
    let shape = Some((3usize, 2usize, 1usize));
    let input = sample(1500);
    let intact = encode(Version::V17, &UID, shape, vec![Metadata::FSZ(1500)], &input).unwrap();
    let mut damaged = intact.clone();
    for b in damaged[3 * 512..4 * 512].iter_mut() {
        *b = 0;
    }
    for b in damaged[7 * 512..8 * 512].iter_mut() {
        *b = 0;
    }
    assert_eq!(decode(Version::V17, &UID, shape, &damaged, 1500), Err(Error::ParseError));
    let (repaired, errors) = repair(Version::V17, &UID, shape, &damaged, 1500);
    assert!(errors.is_empty());
    assert_eq!(repaired, intact);
    assert_eq!(decode(Version::V17, &UID, shape, &repaired, 1500), Ok(input));
}

#[test]
fn repair_of_every_pattern_that_leaves_enough_blocks() {
    let shape = Some((3usize, 2usize, 3usize));
    for len in [1usize, 496, 1000, 1488, 2000, 4464] {
        let input = sample(len);
        let intact = encode(Version::V17, &UID, shape, vec![], &input).unwrap();
        let places = intact.len() / 512;
        for first in 0..places {
            for second in first..places {
                let mut damaged = intact.clone();
                for b in damaged[first * 512..(first + 1) * 512].iter_mut() {
                    *b = 0xff;
                }
                for b in damaged[second * 512..(second + 1) * 512].iter_mut() {
                    *b = 0xff;
                }
                let (repaired, errors) = repair(Version::V17, &UID, shape, &damaged, len as u64);
                assert!(errors.is_empty());
                assert_eq!(
                    decode(Version::V17, &UID, shape, &repaired, len as u64),
                    Ok(input.clone())
                );
            }
        }
    }
}

#[test]
fn repair_reports_a_set_with_too_few_blocks() {
    let shape = Some((3usize, 2usize, 1usize));
    let input = sample(1500);
    let intact = encode(Version::V17, &UID, shape, vec![], &input).unwrap();
    let mut damaged = intact.clone();
    for place in [3usize, 4, 6] {
        for b in damaged[place * 512..(place + 1) * 512].iter_mut() {
            *b = 0;
        }
    }
    let (repaired, errors) = repair(Version::V17, &UID, shape, &damaged, 1500);
    assert_eq!(repaired, damaged);
    assert_eq!(errors.len(), 1);
    assert_eq!(errors[0].version(), Version::V17);
    assert_eq!(errors[0].block_seq_num_start(), 1);
    assert_eq!(errors[0].block_count(), 5);
    assert_eq!(errors[0].block_type(), BlockType::Data);
    assert_eq!(errors[0].shard_present(), &[false, false, true, false, true]);
}

#[test]
fn repair_writes_metadata_copies_anew() {
    let shape = Some((3usize, 2usize, 1usize));
    let input = sample(700);
    let intact = encode(Version::V17, &UID, shape, vec![Metadata::FSZ(700)], &input).unwrap();
    let mut damaged = intact.clone();
    for b in damaged[0..1024].iter_mut() {
        *b = 0;
    }
    let (repaired, errors) = repair(Version::V17, &UID, shape, &damaged, 700);
    assert!(errors.is_empty());
    assert_eq!(repaired, intact);

    for b in damaged[0..3 * 512].iter_mut() {
        *b = 0;
    }
    let (_, errors) = repair(Version::V17, &UID, shape, &damaged, 700);
    assert_eq!(errors.len(), 1);
    assert_eq!(errors[0].block_type(), BlockType::Meta);
    assert_eq!(errors[0].block_seq_num_start(), 0);
    assert_eq!(errors[0].block_count(), 3);
    assert_eq!(errors[0].shard_present(), &[false, false, false]);
}
