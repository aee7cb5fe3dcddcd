//! The 16-byte header that starts every block.

use vstd::prelude::*;
use crate::sbx_specs::{Version, SBX_HEADER_SIZE, ver_to_u8, u8_to_ver, version_tag, version_of_tag};
use crate::sbx_block::Error;
use crate::sbx_block::crc::{crc_ccitt, crc_ccitt_generic};

verus! {

/// The header of a block.
#[derive(Clone, Copy, Debug, PartialEq)]
pub struct Header {
    pub version: Version,
    pub crc: u16,
    pub file_uid: [u8; 6],
    pub seq_num: u32,
}

/// A header as mathematical data.
pub struct HeaderView {
    pub version: Version,
    pub crc: u16,
    pub file_uid: Seq<u8>,
    pub seq_num: u32,
}

impl View for Header {
    type V = HeaderView;

    open spec fn view(&self) -> HeaderView {
        HeaderView {
            version: self.version,
            crc: self.crc,
            file_uid: self.file_uid@,
            seq_num: self.seq_num,
        }
    }
}

/// The three signature bytes, ASCII "SBx".
pub open spec fn signature() -> Seq<u8> {
    seq![0x53u8, 0x42u8, 0x78u8]
}

/// A 16-bit value as two bytes, most significant first.
pub open spec fn u16_be(x: u16) -> Seq<u8> {
    seq![(x / 256) as u8, (x % 256) as u8]
}

/// A 32-bit value as four bytes, most significant first.
pub open spec fn u32_be(x: u32) -> Seq<u8> {
    seq![
        (x / 0x100_0000) as u8,
        ((x / 0x1_0000) % 256) as u8,
        ((x / 0x100) % 256) as u8,
        (x % 256) as u8,
    ]
}

/// The 16-bit value that two bytes spell, most significant first.
pub open spec fn u16_of_be(b: Seq<u8>) -> u16 {
    (b[0] * 256 + b[1]) as u16
}

/// The 32-bit value that four bytes spell, most significant first.
pub open spec fn u32_of_be(b: Seq<u8>) -> u32 {
    (b[0] * 0x100_0000 + b[1] * 0x1_0000 + b[2] * 0x100 + b[3]) as u32
}

/// The serialized form of a header: signature, version tag, CRC, file UID
/// and sequence number, integers most significant byte first.
pub open spec fn header_bytes(h: HeaderView) -> Seq<u8> {
    signature() + seq![version_tag(h.version) as u8] + u16_be(h.crc) + h.file_uid + u32_be(
        h.seq_num,
    )
}

/// Whether 16 bytes start with the signature and name a known version.
pub open spec fn header_parses(bytes: Seq<u8>) -> bool {
    &&& bytes.len() == 16
    &&& bytes.subrange(0, 3) == signature()
    &&& version_of_tag(bytes[3] as int) is Some
}

/// The header that 16 well-formed bytes spell.
pub open spec fn header_of_bytes(bytes: Seq<u8>) -> HeaderView
    recommends
        header_parses(bytes),
{
    HeaderView {
        version: version_of_tag(bytes[3] as int)->0,
        crc: u16_of_be(bytes.subrange(4, 6)),
        file_uid: bytes.subrange(6, 12),
        seq_num: u32_of_be(bytes.subrange(12, 16)),
    }
}

/// The CRC state after a header, taken with its CRC field as zero.
pub open spec fn header_crc(h: HeaderView) -> u16 {
    crc_ccitt(0, header_bytes(HeaderView { crc: 0, ..h }))
}

/// Parsing the serialized form of a header gives the header back.
pub proof fn lemma_header_round_trip(h: HeaderView)
    requires
        h.file_uid.len() == 6,
    ensures
        header_bytes(h).len() == 16,
        header_parses(header_bytes(h)),
        header_of_bytes(header_bytes(h)) == h,
{
    let b = header_bytes(h);
    crate::sbx_specs::lemma_version_tag_round_trip(h.version);
    assert(b.subrange(0, 3) =~= signature());
    assert(b.subrange(4, 6) =~= u16_be(h.crc));
    assert(b.subrange(6, 12) =~= h.file_uid);
    assert(b.subrange(12, 16) =~= u32_be(h.seq_num));
}

/// Two bytes spell a value whose two bytes they are.
pub proof fn lemma_u16_be_of_bytes(b: Seq<u8>)
    requires
        b.len() == 2,
    ensures
        u16_be(u16_of_be(b)) == b,
{
    let x = b[0] * 256 + b[1];
    assert(x / 256 == b[0] && x % 256 == b[1]);
    assert(u16_be(u16_of_be(b)) =~= b);
}

/// Four bytes spell a value whose four bytes they are.
pub proof fn lemma_u32_be_of_bytes(b: Seq<u8>)
    requires
        b.len() == 4,
    ensures
        u32_be(u32_of_be(b)) == b,
{
    let x = b[0] * 0x100_0000 + b[1] * 0x1_0000 + b[2] * 0x100 + b[3];
    assert(x / 0x100_0000 == b[0]);
    assert((x / 0x1_0000) % 256 == b[1]);
    assert((x / 0x100) % 256 == b[2]);
    assert(x % 256 == b[3]);
    assert(u32_be(u32_of_be(b)) =~= b);
}

/// Serializing the header that 16 well-formed bytes spell gives the bytes
/// back.
pub proof fn lemma_header_bytes_of_parsed(bytes: Seq<u8>)
    requires
        header_parses(bytes),
    ensures
        header_bytes(header_of_bytes(bytes)) == bytes,
{
    let h = header_of_bytes(bytes);
    assert(bytes.subrange(0, 3)[0] == signature()[0]);
    assert(bytes.subrange(0, 3)[1] == signature()[1]);
    assert(bytes.subrange(0, 3)[2] == signature()[2]);
    lemma_u16_be_of_bytes(bytes.subrange(4, 6));
    lemma_u32_be_of_bytes(bytes.subrange(12, 16));
    assert(version_tag(h.version) == bytes[3]);
    let front = signature() + seq![version_tag(h.version) as u8];
    assert(front =~= bytes.subrange(0, 4));
    assert(front + bytes.subrange(4, 6) =~= bytes.subrange(0, 6));
    assert(bytes.subrange(0, 6) + bytes.subrange(6, 12) =~= bytes.subrange(0, 12));
    assert(bytes.subrange(0, 12) + bytes.subrange(12, 16) =~= bytes);
}

impl Header {
    /// A header for the first block of a container: sequence number and
    /// CRC are zero.
    pub fn new(version: Version, file_uid: [u8; 6]) -> (header: Header)
        ensures
            header@ == (HeaderView { version, crc: 0, file_uid: file_uid@, seq_num: 0 }),
    {
        Header { version, crc: 0, file_uid, seq_num: 0 }
    }

    /// Whether this is the header of a metadata block.
    pub fn is_meta(&self) -> (meta: bool)
        ensures
            meta == (self.seq_num == 0),
    {
        self.seq_num == 0
    }

    /// Whether this is the header of a data block.
    pub fn is_data(&self) -> (data: bool)
        ensures
            data == (self.seq_num != 0),
    {
        self.seq_num != 0
    }

    /// The header's 16 bytes.
    pub fn to_array(&self) -> (bytes: [u8; 16])
        ensures
            bytes@ == header_bytes(self@),
    {
        let bytes: [u8; 16] = [
            0x53,
            0x42,
            0x78,
            ver_to_u8(self.version),
            (self.crc / 256) as u8,
            (self.crc % 256) as u8,
            self.file_uid[0],
            self.file_uid[1],
            self.file_uid[2],
            self.file_uid[3],
            self.file_uid[4],
            self.file_uid[5],
            (self.seq_num / 0x100_0000) as u8,
            ((self.seq_num / 0x1_0000) % 256) as u8,
            ((self.seq_num / 0x100) % 256) as u8,
            (self.seq_num % 256) as u8,
        ];
        proof {
            assert(bytes@ =~= header_bytes(self@));
        }
        bytes
    }

    /// Writes the header into a buffer of exactly 16 bytes. The CRC field is
    /// written as it stands.
    pub fn to_bytes(&self, buffer: &mut [u8]) -> (res: Result<(), Error>)
        ensures
            old(buffer)@.len() == 16 ==> res is Ok && final(buffer)@ == header_bytes(self@),
            old(buffer)@.len() != 16 ==> res == Err::<(), Error>(Error::IncorrectBufferSize)
                && final(buffer)@ == old(buffer)@,
    {
        if buffer.len() != SBX_HEADER_SIZE {
            return Err(Error::IncorrectBufferSize);
        }
        let bytes = self.to_array();
        let mut i: usize = 0;
        while i < 16
            invariant
                i <= 16,
                buffer@.len() == 16,
                bytes@ == header_bytes(self@),
                forall|j: int| 0 <= j < i ==> buffer@[j] == bytes@[j],
            decreases 16 - i,
        {
            buffer[i] = bytes[i];
            i = i + 1;
        }
        proof {
            assert(buffer@ =~= bytes@);
        }
        Ok(())
    }

    /// Reads the header from a buffer of exactly 16 bytes. The header is
    /// left as it was unless the bytes parse.
    pub fn from_bytes(&mut self, buffer: &[u8]) -> (res: Result<(), Error>)
        ensures
            buffer@.len() != 16 ==> res == Err::<(), Error>(Error::IncorrectBufferSize),
            buffer@.len() == 16 && !header_parses(buffer@) ==> res == Err::<(), Error>(
                Error::ParseError,
            ),
            header_parses(buffer@) ==> res is Ok && final(self)@ == header_of_bytes(buffer@),
            res is Err ==> *final(self) == *old(self),
    {
        if buffer.len() != SBX_HEADER_SIZE {
            return Err(Error::IncorrectBufferSize);
        }
        proof {
            assert(buffer@.subrange(0, 3) == signature() <==> (buffer@[0] == 0x53 && buffer@[1]
                == 0x42 && buffer@[2] == 0x78)) by {
                if buffer@[0] == 0x53 && buffer@[1] == 0x42 && buffer@[2] == 0x78 {
                    assert(buffer@.subrange(0, 3) =~= signature());
                } else {
                    assert(buffer@.subrange(0, 3)[0] == buffer@[0]);
                    assert(buffer@.subrange(0, 3)[1] == buffer@[1]);
                    assert(buffer@.subrange(0, 3)[2] == buffer@[2]);
                }
            }
        }
        if buffer[0] != 0x53 || buffer[1] != 0x42 || buffer[2] != 0x78 {
            return Err(Error::ParseError);
        }
        let version = match u8_to_ver(buffer[3]) {
            Some(v) => v,
            None => {
                return Err(Error::ParseError);
            },
        };
        let crc: u16 = buffer[4] as u16 * 256 + buffer[5] as u16;
        let file_uid: [u8; 6] = [
            buffer[6],
            buffer[7],
            buffer[8],
            buffer[9],
            buffer[10],
            buffer[11],
        ];
        let seq_num: u32 = buffer[12] as u32 * 0x100_0000 + buffer[13] as u32 * 0x1_0000
            + buffer[14] as u32 * 0x100 + buffer[15] as u32;
        self.version = version;
        self.crc = crc;
        self.file_uid = file_uid;
        self.seq_num = seq_num;
        proof {
            assert(file_uid@ =~= buffer@.subrange(6, 12));
        }
        Ok(())
    }

    /// The CRC state after this header, taken with its CRC field as zero.
    pub fn calc_crc(&self) -> (crc: u16)
        ensures
            crc == header_crc(self@),
    {
        let zeroed = Header {
            version: self.version,
            crc: 0,
            file_uid: self.file_uid,
            seq_num: self.seq_num,
        };
        let bytes = zeroed.to_array();
        crc_ccitt_generic(0, bytes.as_slice())
    }
}

} // verus!
