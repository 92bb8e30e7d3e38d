//! The failures that decoding can report, each with the place it came from.
use vstd::prelude::*;

verus! {

/// The part of a replay that was being read when the input ran out.
#[derive(Clone, Copy, Debug, PartialEq, Eq, Structural)]
pub enum Stage {
    /// The fixed header at the start of the file.
    Header,
    /// The size fields in front of a block.
    BlockHeader,
    /// The compressed payload of a block.
    BlockPayload,
    /// A record of the decompressed stream.
    Record,
}

/// A decoding failure. `index` and `block` count blocks from zero; `offset`
/// is the position of a record's tag in the decompressed stream.
#[derive(Clone, Copy, Debug, PartialEq, Eq, Structural)]
pub enum Error {
    /// The file does not start with the replay signature.
    MagicMismatch,
    /// The input ended inside the named part. For `Stage::Record` the index
    /// is the offset of the record; for the header it is zero.
    Truncated { stage: Stage, index: usize },
    /// A block declares no payload, or more payload than the input holds.
    BlockHeader { block: usize },
    /// The checksum that a block stores differs from the computed one, and
    /// the caller asked for checksums to be enforced.
    ChecksumMismatch { block: usize },
    /// The payload of a block is not a valid compressed stream.
    DecompressFailure { block: usize },
    /// A block decompressed to another length than it declares. The
    /// decompressor is offered one byte more than declared, so `actual` is
    /// at most `declared + 1`.
    BlockSizeMismatch { block: usize, declared: u32, actual: usize },
    /// The decompressed stream is longer than a position can count.
    StreamTooLong,
    /// A record starts with a tag that has no known layout.
    UnknownRecordTag { offset: usize, tag: u8 },
    /// A field of a record contradicts the record's own length.
    MalformedRecordField { offset: usize, tag: u8 },
}

impl Error {
    /// The label of the pipeline stage that an error belongs to.
    pub open spec fn label(self) -> Seq<char> {
        match self {
            Error::MagicMismatch => "header"@,
            Error::Truncated { stage: Stage::Header, .. } => "header"@,
            Error::Truncated { stage: Stage::Record, .. } => "record"@,
            Error::Truncated { .. } => "block"@,
            Error::BlockHeader { .. } => "block"@,
            Error::ChecksumMismatch { .. } => "block"@,
            Error::DecompressFailure { .. } => "block"@,
            Error::BlockSizeMismatch { .. } => "block"@,
            Error::StreamTooLong => "block"@,
            Error::UnknownRecordTag { .. } => "record"@,
            Error::MalformedRecordField { .. } => "record"@,
        }
    }

    /// Names the stage that failed: `"header"`, `"block"` or `"record"`.
    pub fn context(&self) -> (r: &'static str)
        ensures
            r@ == self.label(),
    {
        match self {
            Error::MagicMismatch => "header",
            Error::Truncated { stage: Stage::Header, .. } => "header",
            Error::Truncated { stage: Stage::Record, .. } => "record",
            Error::Truncated { .. } => "block",
            Error::BlockHeader { .. } => "block",
            Error::ChecksumMismatch { .. } => "block",
            Error::DecompressFailure { .. } => "block",
            Error::BlockSizeMismatch { .. } => "block",
            Error::StreamTooLong => "block",
            Error::UnknownRecordTag { .. } => "record",
            Error::MalformedRecordField { .. } => "record",
        }
    }
}

} // verus!
