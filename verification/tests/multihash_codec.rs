use rsbx::multihash::hash::{hash_type_is_supported, Ctx};
use rsbx::multihash::parsers::multihash_w_len_p;
use rsbx::multihash::specs::Param;
use rsbx::multihash::{
    hash_bytes_into_bytes, hash_bytes_to_bytes, hash_type_to_string, lowercase_to_hash_type,
    string_to_hash_type, HashType,
};
use rsbx::sbx_block::metadata::{from_bytes, to_bytes, Metadata};
use rsbx::sbx_block::Error;

fn hex(bytes: &[u8]) -> String {
    bytes.iter().map(|b| format!("{:02x}", b)).collect()
}

fn digest_of(hash_type: HashType, data: &[u8]) -> String {
    let mut ctx = Ctx::new(hash_type).unwrap();
    ctx.update(data);
    hex(&ctx.finish_into_bytes())
}

const ALL: [HashType; 10] = [
    HashType::SHA1,
    HashType::SHA2_256,
    HashType::SHA256,
    HashType::SHA2_512_256,
    HashType::SHA2_512_512,
    HashType::SHA512,
    HashType::BLAKE2B_256,
    HashType::BLAKE2B_512,
    HashType::BLAKE2S_128,
    HashType::BLAKE2S_256,
];

#[test]
fn names_of_hash_types() {
    assert_eq!(hash_type_to_string(HashType::SHA1), "SHA1");
    assert_eq!(hash_type_to_string(HashType::SHA2_256), "SHA256");
    assert_eq!(hash_type_to_string(HashType::SHA256), "SHA256");
    assert_eq!(hash_type_to_string(HashType::SHA2_512_256), "SHA2-512-256");
    assert_eq!(hash_type_to_string(HashType::SHA2_512_512), "SHA512");
    assert_eq!(hash_type_to_string(HashType::SHA512), "SHA512");
    assert_eq!(hash_type_to_string(HashType::BLAKE2B_256), "BLAKE2b-256");
    assert_eq!(hash_type_to_string(HashType::BLAKE2B_512), "BLAKE2b-512");
    assert_eq!(hash_type_to_string(HashType::BLAKE2S_128), "BLAKE2s-128");
    assert_eq!(hash_type_to_string(HashType::BLAKE2S_256), "BLAKE2s-256");
}

#[test]
fn hash_types_of_names_in_any_case() {
    assert_eq!(string_to_hash_type("sha1"), Ok(HashType::SHA1));
    assert_eq!(string_to_hash_type("SHA1"), Ok(HashType::SHA1));
    assert_eq!(string_to_hash_type("Sha256"), Ok(HashType::SHA256));
    assert_eq!(string_to_hash_type("SHA2-256"), Ok(HashType::SHA256));
    assert_eq!(string_to_hash_type("sha512"), Ok(HashType::SHA512));
    assert_eq!(string_to_hash_type("sha2-512-512"), Ok(HashType::SHA512));
    assert_eq!(string_to_hash_type("BLAKE2B-256"), Ok(HashType::BLAKE2B_256));
    assert_eq!(string_to_hash_type("blake2b-512"), Ok(HashType::BLAKE2B_512));
    assert_eq!(string_to_hash_type("Blake2s-128"), Ok(HashType::BLAKE2S_128));
    assert_eq!(string_to_hash_type("blake2s-256"), Ok(HashType::BLAKE2S_256));
    assert_eq!(string_to_hash_type("sha2-512-256"), Err(()));
    assert_eq!(string_to_hash_type("md5"), Err(()));
    assert_eq!(string_to_hash_type(""), Err(()));
}

#[test]
fn hash_types_of_names_in_lower_case_only() {
    assert_eq!(lowercase_to_hash_type(&String::from("sha256")), Ok(HashType::SHA256));
    assert_eq!(lowercase_to_hash_type(&String::from("SHA256")), Err(()));
    assert_eq!(lowercase_to_hash_type(&String::from("sha2-512-256")), Err(()));
}

#[test]
fn supported_hash_types() {
    for hash_type in ALL {
        assert_eq!(hash_type_is_supported(hash_type), hash_type != HashType::SHA2_512_256);
        assert_eq!(Ctx::new(hash_type).is_ok(), hash_type != HashType::SHA2_512_256);
    }
}

#[test]
fn registered_identifiers_and_lengths() {
    let expected: [(HashType, &[u8], u8); 10] = [
        (HashType::SHA1, &[0x11], 20),
        (HashType::SHA2_256, &[0x12], 32),
        (HashType::SHA256, &[0x12], 32),
        (HashType::SHA2_512_256, &[0x13], 32),
        (HashType::SHA2_512_512, &[0x13], 64),
        (HashType::SHA512, &[0x13], 64),
        (HashType::BLAKE2B_256, &[0xb2, 0x20], 32),
        (HashType::BLAKE2B_512, &[0xb2, 0x40], 64),
        (HashType::BLAKE2S_128, &[0xb2, 0x50], 16),
        (HashType::BLAKE2S_256, &[0xb2, 0x60], 32),
    ];
    for (hash_type, id, len) in expected {
        let param = Param::new(hash_type);
        assert_eq!(param.hash_func_type, id);
        assert_eq!(param.digest_length, len);
        assert_eq!(param.total_length(), id.len() + 1 + len as usize);
    }
}

#[test]
fn multihash_bytes_of_a_digest() {
    let digest: Vec<u8> = (1..=20).collect();
    let bytes = hash_bytes_into_bytes(&(HashType::SHA1, digest.clone()));
    let mut expected = vec![0x11, 20];
    expected.extend_from_slice(&digest);
    assert_eq!(bytes, expected);

    let digest: Vec<u8> = (0..64).collect();
    let mut buffer = [0xeeu8; 70];
    hash_bytes_to_bytes(&(HashType::BLAKE2B_512, digest.clone()), &mut buffer);
    assert_eq!(&buffer[..3], &[0xb2, 0x40, 64]);
    assert_eq!(&buffer[3..67], &digest[..]);
    assert_eq!(&buffer[67..], &[0xee, 0xee, 0xee]);
}

#[test]
fn multihash_round_trip_for_every_hash_type() {
    for hash_type in ALL {
        let param = Param::new(hash_type);
        let digest: Vec<u8> = (0..param.digest_length).map(|i| i.wrapping_mul(3)).collect();
        let mut framed = vec![param.total_length() as u8];
        framed.extend_from_slice(&hash_bytes_into_bytes(&(hash_type, digest.clone())));
        framed.extend_from_slice(&[9, 9, 9]);
        let expected = match hash_type {
            HashType::SHA2_256 => HashType::SHA256,
            HashType::SHA2_512_512 => HashType::SHA512,
            other => other,
        };
        assert_eq!(multihash_w_len_p(&framed), Ok((expected, digest)));
    }
}

#[test]
fn multihash_alias_of_sha512_with_short_digest() {
    let mut framed = vec![34, 0x13, 0x20];
    framed.extend_from_slice(&[7u8; 32]);
    assert_eq!(multihash_w_len_p(&framed), Ok((HashType::SHA2_512_256, vec![7u8; 32])));
}

#[test]
fn multihash_that_does_not_parse() {
    assert_eq!(multihash_w_len_p(&[]), Err(Error::ParseError));
    assert_eq!(multihash_w_len_p(&[22, 0x14, 20]), Err(Error::ParseError));
    let mut unknown = vec![22, 0x14, 20];
    unknown.extend_from_slice(&[0u8; 20]);
    assert_eq!(multihash_w_len_p(&unknown), Err(Error::ParseError));
    let mut short = vec![22, 0x11, 20];
    short.extend_from_slice(&[0u8; 19]);
    assert_eq!(multihash_w_len_p(&short), Err(Error::ParseError));
    let mut wrong_total = vec![21, 0x11, 20];
    wrong_total.extend_from_slice(&[0u8; 20]);
    assert_eq!(multihash_w_len_p(&wrong_total), Err(Error::ParseError));
    let mut wrong_len = vec![22, 0x11, 19];
    wrong_len.extend_from_slice(&[0u8; 20]);
    assert_eq!(multihash_w_len_p(&wrong_len), Err(Error::ParseError));
}

#[test]
fn digests_of_abc() {
    assert_eq!(digest_of(HashType::SHA1, b"abc"), "a9993e364706816aba3e25717850c26c9cd0d89d");
    assert_eq!(
        digest_of(HashType::SHA256, b"abc"),
        "ba7816bf8f01cfea414140de5dae2223b00361a396177a9cb410ff61f20015ad"
    );
    assert_eq!(digest_of(HashType::SHA2_256, b"abc"), digest_of(HashType::SHA256, b"abc"));
    assert_eq!(
        digest_of(HashType::SHA512, b"abc"),
        "ddaf35a193617abacc417349ae20413112e6fa4e89a97ea20a9eeee64b55d39a\
         2192992a274fc1a836ba3c23a3feebbd454d4423643ce80e2a9ac94fa54ca49f"
    );
    assert_eq!(
        digest_of(HashType::BLAKE2B_512, b"abc"),
        "ba80a53f981c4d0d6a2797b69f12f6e94c212f14685ac4b74b12bb6fdbffa2d1\
         7d87c5392aab792dc252d5de4533cc9518d38aa8dbf1925ab92386edd4009923"
    );
    assert_eq!(
        digest_of(HashType::BLAKE2B_256, b"abc"),
        "bddd813c634239723171ef3fee98579b94964e3bb1cb3e427262c8c068d52319"
    );
    assert_eq!(
        digest_of(HashType::BLAKE2S_256, b"abc"),
        "508c5e8c327c14e2e1a72ba34eeb452f37458b209ed63a294d999b4c86675982"
    );
    assert_eq!(digest_of(HashType::BLAKE2S_128, b"abc"), "aa4938119b1dc7b87cbad0ffd200d0ae");
}

#[test]
fn digest_of_pieces_is_digest_of_the_whole() {
    for hash_type in ALL {
        if !hash_type_is_supported(hash_type) {
            continue;
        }
        let mut ctx = Ctx::new(hash_type).unwrap();
        ctx.update(b"a");
        ctx.update(b"");
        ctx.update(b"bc");
        assert_eq!(hex(&ctx.finish_into_bytes()), digest_of(hash_type, b"abc"));
        assert_ne!(digest_of(hash_type, b"abd"), digest_of(hash_type, b"abc"));
    }
}

#[test]
fn finishing_a_digest_in_every_way() {
    let whole = {
        let mut ctx = Ctx::new(HashType::SHA2_256).unwrap();
        ctx.update(b"abc");
        assert_eq!(ctx.hash_type(), HashType::SHA256);
        ctx.finish_into_hash_bytes()
    };
    assert_eq!(whole.0, HashType::SHA256);
    assert_eq!(hex(&whole.1), digest_of(HashType::SHA256, b"abc"));

    let mut ctx = Ctx::new(HashType::BLAKE2S_128).unwrap();
    ctx.update(b"abc");
    let mut buffer = [0u8; 16];
    ctx.finish_to_bytes(&mut buffer);
    assert_eq!(hex(&buffer), "aa4938119b1dc7b87cbad0ffd200d0ae");

    let mut ctx = Ctx::new(HashType::SHA1).unwrap();
    ctx.update(b"abc");
    let mut hash_bytes = (HashType::SHA256, vec![0u8; 20]);
    ctx.finish_to_hash_bytes(&mut hash_bytes);
    assert_eq!(hash_bytes.0, HashType::SHA1);
    assert_eq!(hex(&hash_bytes.1), "a9993e364706816aba3e25717850c26c9cd0d89d");
}

#[test]
fn sha256_of_abc_in_metadata_parses_back() {
    let mut ctx = Ctx::new(HashType::SHA256).unwrap();
    ctx.update(b"abc");
    let hash_bytes = ctx.finish_into_hash_bytes();
    let mut region = vec![0u8; 496];
    to_bytes(&[Metadata::HSH(hash_bytes)], &mut region).unwrap();
    assert_eq!(&region[..6], &[b'H', b'S', b'H', 34, 0x12, 0x20]);
    let records = from_bytes(&region).unwrap();
    assert_eq!(records.len(), 1);
    match &records[0] {
        Metadata::HSH((hash_type, digest)) => {
            assert_eq!(*hash_type, HashType::SHA256);
            assert_eq!(
                hex(digest),
                "ba7816bf8f01cfea414140de5dae2223b00361a396177a9cb410ff61f20015ad"
            );
        }
        other => panic!("unexpected record {:?}", other),
    }
}
