use rsbx::sbx_block::crc::{crc_ccitt_generic, crc_update_byte};
use rsbx::sbx_block::header::Header;
use rsbx::sbx_block::metadata::Metadata;
use rsbx::sbx_block::{Block, BlockType, Error};
use rsbx::sbx_specs::{
    u8_to_ver, ver_to_block_size, ver_to_data_size, ver_to_u8, ver_to_usize, ver_uses_rs,
    Version, SBX_FILE_UID_LEN, SBX_HEADER_SIZE, SBX_LARGEST_BLOCK_SIZE, SBX_SIGNATURE_LEN,
};

const VERSIONS: [Version; 6] =
    [Version::V1, Version::V2, Version::V3, Version::V17, Version::V18, Version::V19];

#[test]
fn registry_of_versions() {
    let expected = [
        (1usize, 512usize, false),
        (2, 128, false),
        (3, 4096, false),
        (17, 512, true),
        (18, 128, true),
        (19, 4096, true),
    ];
    for (version, (tag, block_size, rs)) in VERSIONS.iter().zip(expected) {
        assert_eq!(ver_to_usize(*version), tag);
        assert_eq!(ver_to_u8(*version) as usize, tag);
        assert_eq!(u8_to_ver(tag as u8), Some(*version));
        assert_eq!(ver_to_block_size(*version), block_size);
        assert_eq!(ver_to_data_size(*version), block_size - 16);
        assert_eq!(ver_uses_rs(*version), rs);
    }
    for tag in 0..=255u8 {
        assert_eq!(u8_to_ver(tag).is_some(), [1, 2, 3, 17, 18, 19].contains(&tag));
    }
    assert_eq!(SBX_HEADER_SIZE, 16);
    assert_eq!(SBX_FILE_UID_LEN, 6);
    assert_eq!(SBX_SIGNATURE_LEN, 3);
    assert_eq!(SBX_LARGEST_BLOCK_SIZE, 4096);
}

#[test]
fn crc_of_known_bytes() {
    assert_eq!(crc_ccitt_generic(0, b"123456789"), 0x31c3);
    assert_eq!(crc_ccitt_generic(0xffff, b"123456789"), 0x29b1);
    assert_eq!(crc_ccitt_generic(0, b""), 0);
    assert_eq!(crc_ccitt_generic(0x1234, b""), 0x1234);
    assert_eq!(crc_update_byte(0, 0), 0);
    assert_eq!(crc_update_byte(0, 1), 0x1021);
    assert_eq!(crc_update_byte(0, 0x80), 0x9188);
}

#[test]
fn crc_in_pieces() {
    let data: Vec<u8> = (0..200u32).map(|i| (i * 31 % 256) as u8).collect();
    let whole = crc_ccitt_generic(0, &data);
    for cut in [0usize, 1, 16, 199, 200] {
        assert_eq!(crc_ccitt_generic(crc_ccitt_generic(0, &data[..cut]), &data[cut..]), whole);
    }
    let mut state = 0;
    for b in &data {
        state = crc_update_byte(state, *b);
    }
    assert_eq!(state, whole);
}

#[test]
fn header_round_trip() {
    for version in VERSIONS {
        for seq_num in [0u32, 1, 0x0102_0304, u32::MAX] {
            let mut header = Header::new(version, [1, 2, 3, 4, 5, 6]);
            assert_eq!(header.seq_num, 0);
            assert_eq!(header.crc, 0);
            header.seq_num = seq_num;
            header.crc = 0xbeef;
            let mut buffer = [0u8; 16];
            header.to_bytes(&mut buffer).unwrap();
            assert_eq!(header.to_array(), buffer);
            let mut back = Header::new(Version::V1, [0; 6]);
            back.from_bytes(&buffer).unwrap();
            assert_eq!(back, header);
            assert_eq!(back.is_meta(), seq_num == 0);
            assert_eq!(back.is_data(), seq_num != 0);
        }
    }
}

#[test]
fn header_buffers_of_the_wrong_size() {
    let mut header = Header::new(Version::V1, [0; 6]);
    let mut short = [1u8; 15];
    assert_eq!(header.to_bytes(&mut short), Err(Error::IncorrectBufferSize));
    assert_eq!(short, [1u8; 15]);
    let mut long = [1u8; 17];
    assert_eq!(header.to_bytes(&mut long), Err(Error::IncorrectBufferSize));
    assert_eq!(header.from_bytes(&short), Err(Error::IncorrectBufferSize));
    assert_eq!(header.from_bytes(&long), Err(Error::IncorrectBufferSize));
}

#[test]
fn headers_that_do_not_parse() {
    let good = Header::new(Version::V2, [9; 6]).to_array();
    let mut header = Header::new(Version::V1, [0; 6]);
    header.seq_num = 77;
    for (at, value) in [(0usize, b's'), (1, b'b'), (2, b'Y'), (3, 0u8), (3, 4), (3, 16), (3, 20)] {
        let mut bad = good;
        bad[at] = value;
        assert_eq!(header.from_bytes(&bad), Err(Error::ParseError));
        assert_eq!(header.version, Version::V1);
        assert_eq!(header.seq_num, 77);
    }
    assert_eq!(header.from_bytes(&good), Ok(()));
    assert_eq!(header.version, Version::V2);
}

#[test]
fn header_crc_leaves_the_crc_field_out() {
    let mut a = Header::new(Version::V1, [1; 6]);
    let mut b = Header::new(Version::V1, [1; 6]);
    a.crc = 1;
    b.crc = 0xffff;
    assert_eq!(a.calc_crc(), b.calc_crc());
    let mut zeroed = a.to_array();
    zeroed[4] = 0;
    zeroed[5] = 0;
    assert_eq!(a.calc_crc(), crc_ccitt_generic(0, &zeroed));
    b.seq_num = 1;
    assert_ne!(a.calc_crc(), b.calc_crc());
}

#[test]
fn new_blocks() {
    let data = Block::new(Version::V3, &[7; 6], BlockType::Data).unwrap();
    assert!(data.is_data());
    assert!(!data.is_meta());
    assert_eq!(data.block_type(), BlockType::Data);
    assert_eq!(data.header().seq_num, 1);
    assert_eq!(data.header().file_uid, [7; 6]);
    assert_eq!(data.buf(), &[0u8; 4096][..]);
    assert_eq!(data.meta_ref().err(), Some(Error::IncorrectBlockType));

    let mut meta = Block::new(Version::V2, &[7; 6], BlockType::Meta).unwrap();
    assert!(meta.is_meta());
    assert_eq!(meta.header().seq_num, 0);
    assert_eq!(meta.buf().len(), 128);
    assert_eq!(meta.header_buf().len(), 16);
    assert_eq!(meta.data_buf().len(), 112);
    assert_eq!(meta.meta_ref().unwrap().len(), 0);
    assert!(meta.meta_ref_mut().is_ok());
    let (h, d) = meta.header_data_buf();
    assert_eq!((h.len(), d.len()), (16, 112));
    let (h, d) = meta.header_data_buf_mut();
    assert_eq!((h.len(), d.len()), (16, 112));
    assert_eq!(meta.header_buf_mut().len(), 16);
    assert_eq!(meta.data_buf_mut().len(), 112);
    assert_eq!(meta.buf_mut().len(), 128);
}

#[test]
fn data_block_has_no_records() {
    let mut block = Block::new(Version::V1, &[0; 6], BlockType::Data).unwrap();
    assert_eq!(block.meta_ref_mut().err(), Some(Error::IncorrectBlockType));
}

#[test]
fn header_and_kind_that_disagree() {
    let mut block = Block::new(Version::V1, &[0; 6], BlockType::Data).unwrap();
    block.header_mut().seq_num = 0;
    assert_eq!(block.calc_crc(), Err(Error::InconsistentHeaderBlockType));
    assert_eq!(block.update_crc(), Err(Error::InconsistentHeaderBlockType));
    assert_eq!(block.verify_crc(), Err(Error::InconsistentHeaderBlockType));
    assert_eq!(block.sync_to_buffer(true), Err(Error::InconsistentHeaderBlockType));
    assert_eq!(block.buf(), &[0u8; 512][..]);
    block.switch_block_type_to_match_header();
    assert!(block.is_meta());
    assert_eq!(block.sync_to_buffer(true), Ok(()));

    let mut block = Block::new(Version::V1, &[0; 6], BlockType::Meta).unwrap();
    block.header_mut().seq_num = 3;
    assert_eq!(block.sync_to_buffer(false), Err(Error::InconsistentHeaderBlockType));
    block.switch_block_type_to_match_header();
    assert!(block.is_data());
}

#[test]
fn crc_of_a_block() {
    let mut block = Block::new(Version::V2, &[1, 2, 3, 4, 5, 6], BlockType::Data).unwrap();
    block.data_buf_mut()[0] = 0x55;
    let expected = {
        let mut header = [b'S', b'B', b'x', 2, 0, 0, 1, 2, 3, 4, 5, 6, 0, 0, 0, 1];
        header[4] = 0;
        let mut data = [0u8; 112];
        data[0] = 0x55;
        crc_ccitt_generic(crc_ccitt_generic(0, &header), &data)
    };
    assert_eq!(block.calc_crc(), Ok(expected));
    assert_eq!(block.verify_crc(), Ok(expected == 0));
    block.update_crc().unwrap();
    assert_eq!(block.header().crc, expected);
    assert_eq!(block.verify_crc(), Ok(true));
    assert_eq!(block.header_buf(), &[0u8; 16][..]);
    block.sync_to_buffer(false).unwrap();
    assert_eq!(
        block.header_buf(),
        &[
            b'S',
            b'B',
            b'x',
            2,
            (expected >> 8) as u8,
            expected as u8,
            1,
            2,
            3,
            4,
            5,
            6,
            0,
            0,
            0,
            1
        ][..]
    );
    block.data_buf_mut()[111] ^= 0x40;
    assert_eq!(block.verify_crc(), Ok(false));
}

#[test]
fn sync_without_a_new_crc_writes_the_crc_as_it_stands() {
    let mut block = Block::new(Version::V1, &[0; 6], BlockType::Data).unwrap();
    block.header_mut().crc = 0xabcd;
    block.sync_to_buffer(false).unwrap();
    assert_eq!(&block.buf()[4..6], &[0xab, 0xcd]);
    assert_eq!(block.header().crc, 0xabcd);
}

#[test]
fn block_changes_kind_to_match_what_it_reads() {
    let mut meta = Block::new(Version::V17, &[3; 6], BlockType::Meta).unwrap();
    meta.meta_ref_mut().unwrap().push(Metadata::RSD(3));
    meta.sync_to_buffer(true).unwrap();

    let mut block = Block::new(Version::V17, &[0; 6], BlockType::Data).unwrap();
    block.buf_mut().copy_from_slice(meta.buf());
    assert_eq!(block.sync_from_buffer_header_only(), Ok(()));
    assert!(block.is_data());
    assert_eq!(block.header().seq_num, 0);
    assert_eq!(block.sync_from_buffer(), Ok(()));
    assert!(block.is_meta());
    assert_eq!(block.meta_ref().unwrap().as_slice(), &[Metadata::RSD(3)]);
    assert_eq!(block.buf(), meta.buf());

    let mut data = Block::new(Version::V17, &[3; 6], BlockType::Data).unwrap();
    data.header_mut().seq_num = 9;
    data.sync_to_buffer(true).unwrap();
    block.buf_mut().copy_from_slice(data.buf());
    assert_eq!(block.sync_from_buffer(), Ok(()));
    assert!(block.is_data());
    assert_eq!(block.header().seq_num, 9);
}

#[test]
fn metadata_block_whose_records_do_not_read() {
    let mut meta = Block::new(Version::V1, &[3; 6], BlockType::Meta).unwrap();
    meta.meta_ref_mut().unwrap().push(Metadata::RSD(3));
    meta.sync_to_buffer(true).unwrap();
    meta.data_buf_mut()[3] = 200;
    meta.data_buf_mut()[400] = 1;
    assert_eq!(meta.sync_from_buffer(), Err(Error::ParseError));
    assert!(meta.is_meta());
    assert_eq!(meta.meta_ref().unwrap().len(), 0);
}

#[test]
fn metadata_block_with_too_many_records() {
    let mut meta = Block::new(Version::V2, &[3; 6], BlockType::Meta).unwrap();
    meta.meta_ref_mut().unwrap().push(Metadata::FNM(vec![b'a'; 108]));
    assert_eq!(meta.sync_to_buffer(true), Ok(()));
    meta.meta_ref_mut().unwrap().clear();
    meta.meta_ref_mut().unwrap().push(Metadata::FNM(vec![b'a'; 109]));
    let before = meta.buf().to_vec();
    assert_eq!(meta.sync_to_buffer(true), Err(Error::TooMuchMetaData));
    assert_eq!(meta.buf(), &before[..]);
}

#[test]
fn what_was_read_is_written_back_unchanged() {
    let mut source = Block::new(Version::V2, &[5; 6], BlockType::Meta).unwrap();
    source.meta_ref_mut().unwrap().push(Metadata::FNM(b"name".to_vec()));
    source.meta_ref_mut().unwrap().push(Metadata::FSZ(12));
    source.sync_to_buffer(true).unwrap();
    let bytes = source.buf().to_vec();

    let mut block = Block::new(Version::V1, &[0; 6], BlockType::Data).unwrap();
    block.buf_mut()[..128].copy_from_slice(&bytes);
    block.sync_from_buffer().unwrap();
    for b in block.buf_mut().iter_mut() {
        *b = 0xee;
    }
    block.sync_to_buffer(false).unwrap();
    assert_eq!(block.buf(), &bytes[..]);
}
