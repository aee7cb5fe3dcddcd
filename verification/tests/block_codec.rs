use rsbx::sbx_block::header::Header;
use rsbx::sbx_block::metadata::Metadata;
use rsbx::sbx_block::{Block, BlockType, Error};
use rsbx::sbx_specs::Version;

#[test]
fn data_block_round_trip() {
    let uid: [u8; 6] = [1, 2, 3, 4, 5, 6];
    for version in [Version::V1, Version::V2, Version::V3, Version::V17, Version::V18, Version::V19]
    {
        let mut block = Block::new(version, &uid, BlockType::Data).unwrap();
        block.header_mut().seq_num = 7;
        {
            let data = block.data_buf_mut();
            for (i, b) in data.iter_mut().enumerate() {
                *b = (i % 251) as u8;
            }
        }
        block.sync_to_buffer(true).unwrap();
        assert_eq!(block.verify_crc(), Ok(true));

        let mut fresh = Block::new(version, &[0; 6], BlockType::Meta).unwrap();
        let n = block.buf().len();
        fresh.buf_mut()[..n].copy_from_slice(block.buf());
        fresh.sync_from_buffer().unwrap();
        assert_eq!(fresh.header().version, version);
        assert_eq!(fresh.header().file_uid, uid);
        assert_eq!(fresh.header().seq_num, 7);
        assert_eq!(fresh.header().crc, block.header().crc);
        assert!(fresh.is_data());
        assert_eq!(fresh.data_buf(), block.data_buf());
        assert_eq!(fresh.verify_crc(), Ok(true));
    }
}

#[test]
fn wrong_signature_is_a_parse_error() {
    let mut block = Block::new(Version::V1, &[0; 6], BlockType::Data).unwrap();
    block.sync_to_buffer(true).unwrap();
    block.buf_mut()[2] = b'Y';
    assert_eq!(block.sync_from_buffer(), Err(Error::ParseError));
    assert!(block.is_data());
}

#[test]
fn header_layout_is_big_endian() {
    let mut header = Header::new(Version::V17, [0xa, 0xb, 0xc, 0xd, 0xe, 0xf]);
    header.crc = 0x1234;
    header.seq_num = 0x0102_0304;
    let mut buffer = [0u8; 16];
    header.to_bytes(&mut buffer).unwrap();
    assert_eq!(
        buffer,
        [b'S', b'B', b'x', 17, 0x12, 0x34, 0xa, 0xb, 0xc, 0xd, 0xe, 0xf, 1, 2, 3, 4]
    );
}

#[test]
fn metadata_block_round_trip() {
    let mut block = Block::new(Version::V1, &[9; 6], BlockType::Meta).unwrap();
    {
        let meta = block.meta_ref_mut().unwrap();
        meta.push(Metadata::FSZ(1000));
        meta.push(Metadata::FNM(b"a.txt".to_vec()));
    }
    block.sync_to_buffer(true).unwrap();
    let mut fresh = Block::new(Version::V1, &[0; 6], BlockType::Data).unwrap();
    fresh.buf_mut().copy_from_slice(block.buf());
    fresh.sync_from_buffer().unwrap();
    assert!(fresh.is_meta());
    let records = fresh.meta_ref().unwrap().as_slice();
    assert_eq!(records.len(), 2);
    assert_eq!(records[0], Metadata::FNM(b"a.txt".to_vec()));
    assert_eq!(records[1], Metadata::FSZ(1000));
}
