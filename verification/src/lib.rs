//! Decoder for Warcraft III replay containers: a fixed header, a run of
//! compressed blocks, and the stream of game records that the blocks hold.
use vstd::prelude::*;

pub mod error;
pub mod wire;
pub mod header;
pub mod block;
pub mod records;
pub mod cursor;
pub mod iter;
pub mod reader;

use crate::block::BlockFormat;
use crate::block::Blocks;
use crate::block::WIDE_SINCE_VERSION;
use crate::block::BlocksView;
use crate::error::Error;
use crate::header::Header;
use crate::iter::IterView;
use crate::iter::RecordIter;

verus! {

/// The shared byte buffer of the `bytes` crate; nothing is read from it but
/// through `bytes_content`.
#[verifier::external_type_specification]
#[verifier::external_body]
pub struct ExBytes(bytes::Bytes);

/// The bytes that a `bytes::Bytes` holds, first to last.
pub uninterp spec fn bytes_content(buf: bytes::Bytes) -> Seq<u8>;

/// Copies a buffer out through the slice that `bytes::Bytes` dereferences
/// to: the result holds the buffer's bytes in order.
#[verifier::external_body]
fn bytes_to_vec(buf: &bytes::Bytes) -> (r: Vec<u8>)
    ensures
        r@ == bytes_content(*buf),
{
    buf.to_vec()
}

/// A replay whose header has been decoded and whose blocks wait to be read.
pub struct W3Replay {
    header: Header,
    blocks: Blocks,
}

/// The block format of a replay with this header: sizes are 32 bits wide
/// from game version 10032 on.
pub open spec fn format_of(h: Header, enforce_checksum: bool) -> BlockFormat {
    BlockFormat { wide: h.version >= 10032, enforce_checksum }
}

/// What opening a replay over the bytes `s` gives: the header's error, or
/// the header and a block stream over the bytes behind it with the number of
/// blocks that the header declares.
pub open spec fn opened(s: Seq<u8>, enforce_checksum: bool) -> Result<
    (Header, BlocksView),
    Error,
> {
    match Header::parse(s) {
        Err(e) => Err(e),
        Ok(h) => Ok(
            (
                h,
                BlocksView {
                    input: s.subrange(68, s.len() as int),
                    done: 0,
                    total: h.num_blocks as usize,
                    format: format_of(h, enforce_checksum),
                },
            ),
        ),
    }
}

impl W3Replay {
    /// The decoded header, as contracts speak of it.
    pub closed spec fn spec_header(&self) -> Header {
        self.header
    }

    /// The block stream, as contracts speak of it.
    pub closed spec fn spec_blocks(&self) -> BlocksView {
        self.blocks@
    }

    /// The outcome of a constructor as a mathematical value.
    pub open spec fn outcome(r: Result<W3Replay, Error>) -> Result<(Header, BlocksView), Error> {
        match r {
            Ok(replay) => Ok((replay.spec_header(), replay.spec_blocks())),
            Err(e) => Err(e),
        }
    }

    /// Opens a replay over the bytes of a whole file. The header is decoded
    /// and checked; no block is read yet. Block checksums are not enforced.
    pub fn from_vec(data: Vec<u8>) -> (r: Result<W3Replay, Error>)
        ensures
            W3Replay::outcome(r) == opened(data@, false),
    {
        W3Replay::from_vec_with(data, false)
    }

    /// Opens a replay as `from_vec` does, and lets the caller choose whether
    /// a block with a wrong checksum is refused.
    pub fn from_vec_with(data: Vec<u8>, enforce_checksum: bool) -> (r: Result<W3Replay, Error>)
        ensures
            W3Replay::outcome(r) == opened(data@, enforce_checksum),
    {
        let header = match Header::decode(data.as_slice()) {
            Ok(h) => h,
            Err(e) => {
                return Err(e);
            },
        };
        let total = header.num_blocks as usize;
        let format = BlockFormat { wide: header.version >= WIDE_SINCE_VERSION, enforce_checksum };
        Ok(W3Replay { header, blocks: Blocks::new(data, 68, total, format) })
    }

    /// Opens a replay over a buffer in memory.
    pub fn from_buf(buf: bytes::Bytes) -> (r: Result<W3Replay, Error>)
        ensures
            W3Replay::outcome(r) == opened(bytes_content(buf), false),
    {
        W3Replay::from_vec(bytes_to_vec(&buf))
    }

    /// The decoded header.
    pub fn header(&self) -> (r: &Header)
        ensures
            *r == self.spec_header(),
    {
        &self.header
    }

    /// Turns the replay into the sequence of its records.
    pub fn into_records(self) -> (r: RecordIter)
        ensures
            r@ == (IterView {
                blocks: self.spec_blocks(),
                stream: Seq::empty(),
                pos: 0,
                finished: false,
            }),
    {
        RecordIter::new(self.blocks)
    }
}

} // verus!
