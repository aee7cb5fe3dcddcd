use rsbx::multihash::HashType;
use rsbx::sbx_block::metadata::{
    bytes_to_id, check_writable, from_bytes, id_to_bytes, id_to_rank, to_bytes, Metadata,
    MetadataID,
};
use rsbx::sbx_block::Error;

fn all_kinds() -> Vec<Metadata> {
    vec![
        Metadata::PID(vec![1, 2, 3]),
        Metadata::RSP(2),
        Metadata::RSD(10),
        Metadata::HSH((HashType::SHA1, (0..20).collect())),
        Metadata::SDT(-2),
        Metadata::FDT(1_600_000_000),
        Metadata::FSZ(0x0102_0304_0506_0708),
        Metadata::SNM(b"out.sbx".to_vec()),
        Metadata::FNM(b"in.txt".to_vec()),
    ]
}

#[test]
fn records_come_back_in_the_order_of_their_kinds() {
    let mut region = vec![0xffu8; 496];
    to_bytes(&all_kinds(), &mut region).unwrap();
    let mut expected = all_kinds();
    expected.reverse();
    assert_eq!(from_bytes(&region), Ok(expected));
}

#[test]
fn records_of_one_kind_keep_their_order() {
    let records = vec![
        Metadata::PID(vec![1]),
        Metadata::FSZ(5),
        Metadata::PID(vec![2]),
        Metadata::FNM(vec![b'a']),
        Metadata::PID(vec![]),
    ];
    let mut region = vec![0u8; 112];
    to_bytes(&records, &mut region).unwrap();
    assert_eq!(
        from_bytes(&region),
        Ok(vec![
            Metadata::FNM(vec![b'a']),
            Metadata::FSZ(5),
            Metadata::PID(vec![1]),
            Metadata::PID(vec![2]),
            Metadata::PID(vec![]),
        ])
    );
}

#[test]
fn bytes_of_records() {
    let mut region = vec![0xffu8; 40];
    to_bytes(
        &[Metadata::RSD(3), Metadata::FSZ(0x0102_0304_0506_0708), Metadata::FDT(-2)],
        &mut region,
    )
    .unwrap();
    let mut expected = vec![b'F', b'S', b'Z', 8, 1, 2, 3, 4, 5, 6, 7, 8];
    expected.extend_from_slice(&[b'F', b'D', b'T', 8, 255, 255, 255, 255, 255, 255, 255, 254]);
    expected.extend_from_slice(&[b'R', b'S', b'D', 1, 3]);
    expected.resize(40, 0);
    assert_eq!(region, expected);
}

#[test]
fn times_at_the_ends_of_their_range() {
    for t in [i64::MIN, -1, 0, 1, i64::MAX] {
        let mut region = vec![0u8; 112];
        to_bytes(&[Metadata::FDT(t), Metadata::SDT(t)], &mut region).unwrap();
        assert_eq!(from_bytes(&region), Ok(vec![Metadata::FDT(t), Metadata::SDT(t)]));
    }
    for size in [0u64, 1, u64::MAX] {
        let mut region = vec![0u8; 112];
        to_bytes(&[Metadata::FSZ(size)], &mut region).unwrap();
        assert_eq!(from_bytes(&region), Ok(vec![Metadata::FSZ(size)]));
    }
}

#[test]
fn records_that_fill_the_region_exactly() {
    let records = vec![Metadata::FNM(vec![b'x'; 255]), Metadata::SNM(vec![b'y'; 496 - 259 - 4])];
    let mut region = vec![0u8; 496];
    assert_eq!(to_bytes(&records, &mut region), Ok(()));
    assert_eq!(region[495], b'y');
    assert_eq!(from_bytes(&region).unwrap().len(), 2);
}

#[test]
fn records_one_byte_over_the_region() {
    let records = vec![Metadata::FNM(vec![b'x'; 255]), Metadata::SNM(vec![b'y'; 496 - 259 - 3])];
    let mut region = vec![7u8; 496];
    assert_eq!(to_bytes(&records, &mut region), Err(Error::TooMuchMetaData));
    assert_eq!(region, vec![7u8; 496]);
}

#[test]
fn value_too_long_for_its_length_byte() {
    let mut region = vec![0u8; 4080];
    assert_eq!(
        to_bytes(&[Metadata::FNM(vec![b'x'; 256])], &mut region),
        Err(Error::TooMuchMetaData)
    );
    assert_eq!(to_bytes(&[Metadata::PID(vec![0; 255])], &mut region), Ok(()));
}

#[test]
fn no_records() {
    let mut region = vec![9u8; 112];
    to_bytes(&[], &mut region).unwrap();
    assert_eq!(region, vec![0u8; 112]);
    assert_eq!(from_bytes(&region), Ok(vec![]));
    assert_eq!(from_bytes(&[]), Ok(vec![]));
    assert_eq!(from_bytes(&[0, 0, 0]), Ok(vec![]));
}

#[test]
fn unknown_records_are_passed_over() {
    let mut region = vec![b'X', b'Y', b'Z', 2, 0xaa, 0xbb];
    region.extend_from_slice(&[b'R', b'S', b'P', 1, 4]);
    region.extend_from_slice(&[0, 0, 0, 3, 1, 2, 3]);
    region.extend_from_slice(&[b'R', b'S', b'D', 1, 9]);
    region.resize(64, 0);
    assert_eq!(from_bytes(&region), Ok(vec![Metadata::RSP(4), Metadata::RSD(9)]));
}

#[test]
fn regions_that_do_not_read() {
    assert_eq!(from_bytes(&[b'F', b'N', b'M']), Err(Error::ParseError));
    assert_eq!(from_bytes(&[0, 0, 1]), Err(Error::ParseError));
    assert_eq!(from_bytes(&[b'F', b'N', b'M', 2, b'a']), Err(Error::ParseError));
    assert_eq!(from_bytes(&[b'X', b'Y', b'Z', 200, 0, 0, 0, 0]), Err(Error::ParseError));
    assert_eq!(from_bytes(&[b'F', b'S', b'Z', 4, 0, 0, 0, 1]), Err(Error::ParseError));
    assert_eq!(from_bytes(&[b'R', b'S', b'D', 2, 0, 1]), Err(Error::ParseError));
    assert_eq!(from_bytes(&[b'R', b'S', b'P', 0]), Err(Error::ParseError));
    assert_eq!(from_bytes(&[b'S', b'D', b'T', 7, 0, 0, 0, 0, 0, 0, 0]), Err(Error::ParseError));
    let mut unknown_hash = vec![b'H', b'S', b'H', 22, 0x14, 20];
    unknown_hash.extend_from_slice(&[0u8; 20]);
    assert_eq!(from_bytes(&unknown_hash), Err(Error::ParseError));
    assert_eq!(from_bytes(&[b'R', b'S', b'D', 1, 3, 0, 5]), Err(Error::ParseError));
}

#[test]
fn identifiers_of_records() {
    let ids = [
        (MetadataID::FNM, *b"FNM"),
        (MetadataID::SNM, *b"SNM"),
        (MetadataID::FSZ, *b"FSZ"),
        (MetadataID::FDT, *b"FDT"),
        (MetadataID::SDT, *b"SDT"),
        (MetadataID::HSH, *b"HSH"),
        (MetadataID::RSD, *b"RSD"),
        (MetadataID::RSP, *b"RSP"),
        (MetadataID::PID, *b"PID"),
    ];
    for (rank, (id, bytes)) in ids.iter().enumerate() {
        assert_eq!(id_to_bytes(*id), *bytes);
        assert_eq!(bytes_to_id(bytes[0], bytes[1], bytes[2]), Some(*id));
        assert_eq!(id_to_rank(*id) as usize, rank);
    }
    assert_eq!(bytes_to_id(b'f', b'n', b'm'), None);
    assert_eq!(bytes_to_id(0, 0, 0), None);
    assert_eq!(Metadata::RSD(1).id(), MetadataID::RSD);
    assert_eq!(Metadata::HSH((HashType::SHA1, vec![])).id(), MetadataID::HSH);
}

#[test]
fn records_that_can_be_written() {
    assert!(check_writable(&all_kinds()));
    assert!(check_writable(&[]));
    assert!(!check_writable(&[Metadata::HSH((HashType::SHA1, vec![0; 19]))]));
    assert!(check_writable(&[Metadata::HSH((HashType::SHA1, vec![0; 21]))]));
}

#[test]
fn a_digest_longer_than_registered_is_cut() {
    let mut region = vec![0u8; 112];
    to_bytes(&[Metadata::HSH((HashType::BLAKE2S_128, (0..20).collect()))], &mut region).unwrap();
    assert_eq!(
        from_bytes(&region),
        Ok(vec![Metadata::HSH((HashType::BLAKE2S_128, (0..16).collect()))])
    );
}
