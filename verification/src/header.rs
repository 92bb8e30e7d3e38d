//! The fixed header at the start of a replay file.
use vstd::prelude::*;
use crate::error::Error;
use crate::error::Stage;
use crate::wire::get_u16;
use crate::wire::get_u32;
use crate::wire::le_u16;
use crate::wire::le_u32;
use crate::wire::put_u16;
use crate::wire::put_u32;
use crate::wire::u16_le_bytes;
use crate::wire::u32_le_bytes;
use crate::wire::lemma_u16_le_bytes_of_read;
use crate::wire::lemma_u32_le_bytes_of_read;
use crate::wire::lemma_u16_read_of_bytes;
use crate::wire::lemma_u32_read_of_bytes;

verus! {

/// The number of bytes that the header takes.
pub const HEADER_SIZE: usize = 68;

/// The number of bytes of the signature that opens the header.
pub const SIGNATURE_SIZE: usize = 28;

/// The signature: the text "Warcraft III recorded game", then 0x1A and a zero.
pub open spec fn signature() -> Seq<u8> {
    seq![
        0x57u8, 0x61u8, 0x72u8, 0x63u8, 0x72u8, 0x61u8, 0x66u8, 0x74u8, 0x20u8, 0x49u8, 0x49u8,
        0x49u8, 0x20u8, 0x72u8, 0x65u8, 0x63u8, 0x6fu8, 0x72u8, 0x64u8, 0x65u8, 0x64u8, 0x20u8,
        0x67u8, 0x61u8, 0x6du8, 0x65u8, 0x1Au8, 0x00u8,
    ]
}

/// The fields of the header, in file order after the signature.
#[derive(Clone, Copy, Debug, PartialEq, Eq, Structural)]
pub struct Header {
    /// The size that the header declares for itself.
    pub header_size: u32,
    /// The size of the whole file, as the writer recorded it.
    pub file_size: u32,
    /// The version of the header layout.
    pub header_version: u32,
    /// The total size of the decompressed stream.
    pub decompressed_size: u32,
    /// The number of compressed blocks that follow the header.
    pub num_blocks: u32,
    /// The four-character product code.
    pub product: u32,
    /// The game version.
    pub version: u32,
    /// The game build.
    pub build: u16,
    /// Flags: single or multi player.
    pub flags: u16,
    /// The length of the replay in milliseconds.
    pub duration_ms: u32,
    /// The checksum that the writer stored for the header.
    pub checksum: u32,
}

impl Header {
    /// The header that the first 68 bytes of `s` hold, whatever the signature.
    pub open spec fn fields_of(s: Seq<u8>) -> Header {
        Header {
            header_size: le_u32(s, 28),
            file_size: le_u32(s, 32),
            header_version: le_u32(s, 36),
            decompressed_size: le_u32(s, 40),
            num_blocks: le_u32(s, 44),
            product: le_u32(s, 48),
            version: le_u32(s, 52),
            build: le_u16(s, 56),
            flags: le_u16(s, 58),
            duration_ms: le_u32(s, 60),
            checksum: le_u32(s, 64),
        }
    }

    /// What decoding gives for `s`: too short an input is truncated, another
    /// signature is a mismatch, anything else has its fields read.
    pub open spec fn parse(s: Seq<u8>) -> Result<Header, Error> {
        if s.len() < 68 {
            Err(Error::Truncated { stage: Stage::Header, index: 0 })
        } else if s.subrange(0, 28) != signature() {
            Err(Error::MagicMismatch)
        } else {
            Ok(Header::fields_of(s))
        }
    }

    /// The 68 bytes that store this header.
    pub open spec fn to_bytes(self) -> Seq<u8> {
        signature() + u32_le_bytes(self.header_size) + u32_le_bytes(self.file_size)
            + u32_le_bytes(self.header_version) + u32_le_bytes(self.decompressed_size)
            + u32_le_bytes(self.num_blocks) + u32_le_bytes(self.product) + u32_le_bytes(
            self.version,
        ) + u16_le_bytes(self.build) + u16_le_bytes(self.flags) + u32_le_bytes(self.duration_ms)
            + u32_le_bytes(self.checksum)
    }

    /// Decodes the header from the start of `bytes`. Bytes after the 68th
    /// are not looked at.
    pub fn decode(bytes: &[u8]) -> (r: Result<Header, Error>)
        ensures
            r == Header::parse(bytes@),
    {
        if bytes.len() < HEADER_SIZE {
            return Err(Error::Truncated { stage: Stage::Header, index: 0 });
        }
        let sig: [u8; 28] = [
            0x57, 0x61, 0x72, 0x63, 0x72, 0x61, 0x66, 0x74, 0x20, 0x49, 0x49, 0x49, 0x20, 0x72,
            0x65, 0x63, 0x6f, 0x72, 0x64, 0x65, 0x64, 0x20, 0x67, 0x61, 0x6d, 0x65, 0x1A, 0x00,
        ];
        assert(sig@ =~= signature());
        let mut i: usize = 0;
        while i < SIGNATURE_SIZE
            invariant
                i <= 28,
                bytes@.len() >= 68,
                sig@ == signature(),
                forall|k: int| 0 <= k < i ==> bytes@[k] == signature()[k],
            decreases 28 - i,
        {
            if bytes[i] != sig[i] {
                proof {
                    assert(bytes@.subrange(0, 28)[i as int] == bytes@[i as int]);
                }
                return Err(Error::MagicMismatch);
            }
            i += 1;
        }
        assert(bytes@.subrange(0, 28) =~= signature());
        Ok(
            Header {
                header_size: get_u32(bytes, 28),
                file_size: get_u32(bytes, 32),
                header_version: get_u32(bytes, 36),
                decompressed_size: get_u32(bytes, 40),
                num_blocks: get_u32(bytes, 44),
                product: get_u32(bytes, 48),
                version: get_u32(bytes, 52),
                build: get_u16(bytes, 56),
                flags: get_u16(bytes, 58),
                duration_ms: get_u32(bytes, 60),
                checksum: get_u32(bytes, 64),
            },
        )
    }

    /// Writes the header out as its 68 bytes.
    pub fn encode(&self) -> (r: Vec<u8>)
        ensures
            r@ == self.to_bytes(),
            r@.len() == 68,
    {
        let sig: [u8; 28] = [
            0x57, 0x61, 0x72, 0x63, 0x72, 0x61, 0x66, 0x74, 0x20, 0x49, 0x49, 0x49, 0x20, 0x72,
            0x65, 0x63, 0x6f, 0x72, 0x64, 0x65, 0x64, 0x20, 0x67, 0x61, 0x6d, 0x65, 0x1A, 0x00,
        ];
        assert(sig@ =~= signature());
        let mut out: Vec<u8> = Vec::new();
        let mut i: usize = 0;
        while i < SIGNATURE_SIZE
            invariant
                i <= 28,
                sig@ == signature(),
                out@ == signature().subrange(0, i as int),
            decreases 28 - i,
        {
            out.push(sig[i]);
            i += 1;
            assert(out@ =~= signature().subrange(0, i as int));
        }
        assert(out@ =~= signature());
        put_u32(&mut out, self.header_size);
        put_u32(&mut out, self.file_size);
        put_u32(&mut out, self.header_version);
        put_u32(&mut out, self.decompressed_size);
        put_u32(&mut out, self.num_blocks);
        put_u32(&mut out, self.product);
        put_u32(&mut out, self.version);
        put_u16(&mut out, self.build);
        put_u16(&mut out, self.flags);
        put_u32(&mut out, self.duration_ms);
        put_u32(&mut out, self.checksum);
        out
    }
}

/// Encoding the header that was decoded from `s` gives back the first 68
/// bytes of `s`.
pub proof fn lemma_decode_then_encode(s: Seq<u8>)
    requires
        Header::parse(s) is Ok,
    ensures
        Header::parse(s).unwrap().to_bytes() == s.subrange(0, 68),
{
    let h = Header::parse(s).unwrap();
    lemma_u32_le_bytes_of_read(s, 28);
    lemma_u32_le_bytes_of_read(s, 32);
    lemma_u32_le_bytes_of_read(s, 36);
    lemma_u32_le_bytes_of_read(s, 40);
    lemma_u32_le_bytes_of_read(s, 44);
    lemma_u32_le_bytes_of_read(s, 48);
    lemma_u32_le_bytes_of_read(s, 52);
    lemma_u16_le_bytes_of_read(s, 56);
    lemma_u16_le_bytes_of_read(s, 58);
    lemma_u32_le_bytes_of_read(s, 60);
    lemma_u32_le_bytes_of_read(s, 64);
    assert(h.to_bytes() =~= s.subrange(0, 28) + s.subrange(28, 32) + s.subrange(32, 36)
        + s.subrange(36, 40) + s.subrange(40, 44) + s.subrange(44, 48) + s.subrange(48, 52)
        + s.subrange(52, 56) + s.subrange(56, 58) + s.subrange(58, 60) + s.subrange(60, 64)
        + s.subrange(64, 68));
    assert(h.to_bytes() =~= s.subrange(0, 68));
}

/// Where each field lies in the bytes that store a header.
proof fn lemma_layout(h: Header)
    ensures
        h.to_bytes().len() == 68,
        h.to_bytes().subrange(0, 28) == signature(),
        h.to_bytes().subrange(28, 32) == u32_le_bytes(h.header_size),
        h.to_bytes().subrange(32, 36) == u32_le_bytes(h.file_size),
        h.to_bytes().subrange(36, 40) == u32_le_bytes(h.header_version),
        h.to_bytes().subrange(40, 44) == u32_le_bytes(h.decompressed_size),
        h.to_bytes().subrange(44, 48) == u32_le_bytes(h.num_blocks),
        h.to_bytes().subrange(48, 52) == u32_le_bytes(h.product),
        h.to_bytes().subrange(52, 56) == u32_le_bytes(h.version),
        h.to_bytes().subrange(56, 58) == u16_le_bytes(h.build),
        h.to_bytes().subrange(58, 60) == u16_le_bytes(h.flags),
        h.to_bytes().subrange(60, 64) == u32_le_bytes(h.duration_ms),
        h.to_bytes().subrange(64, 68) == u32_le_bytes(h.checksum),
{
    let s = h.to_bytes();
    assert(s.len() == 68);
    assert(s.subrange(0, 28) =~= signature());
    assert(s.subrange(28, 32) =~= u32_le_bytes(h.header_size));
    assert(s.subrange(32, 36) =~= u32_le_bytes(h.file_size));
    assert(s.subrange(36, 40) =~= u32_le_bytes(h.header_version));
    assert(s.subrange(40, 44) =~= u32_le_bytes(h.decompressed_size));
    assert(s.subrange(44, 48) =~= u32_le_bytes(h.num_blocks));
    assert(s.subrange(48, 52) =~= u32_le_bytes(h.product));
    assert(s.subrange(52, 56) =~= u32_le_bytes(h.version));
    assert(s.subrange(56, 58) =~= u16_le_bytes(h.build));
    assert(s.subrange(58, 60) =~= u16_le_bytes(h.flags));
    assert(s.subrange(60, 64) =~= u32_le_bytes(h.duration_ms));
    assert(s.subrange(64, 68) =~= u32_le_bytes(h.checksum));
}

/// Decoding the bytes that a header was encoded to gives the header back.
pub proof fn lemma_encode_then_decode(h: Header)
    ensures
        Header::parse(h.to_bytes()) == Ok::<Header, Error>(h),
{
    let s = h.to_bytes();
    lemma_layout(h);
    lemma_u32_read_of_bytes(s, 28, h.header_size);
    lemma_u32_read_of_bytes(s, 32, h.file_size);
    lemma_u32_read_of_bytes(s, 36, h.header_version);
    lemma_u32_read_of_bytes(s, 40, h.decompressed_size);
    lemma_u32_read_of_bytes(s, 44, h.num_blocks);
    lemma_u32_read_of_bytes(s, 48, h.product);
    lemma_u32_read_of_bytes(s, 52, h.version);
    lemma_u16_read_of_bytes(s, 56, h.build);
    lemma_u16_read_of_bytes(s, 58, h.flags);
    lemma_u32_read_of_bytes(s, 60, h.duration_ms);
    lemma_u32_read_of_bytes(s, 64, h.checksum);
}

} // verus!
