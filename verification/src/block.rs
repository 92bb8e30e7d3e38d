//! The compressed blocks that follow the header: each has a small header of
//! its own and a zlib payload, and decompresses to one segment of the record
//! stream.
use vstd::prelude::*;
use vstd::slice::slice_subrange;
use crate::error::Error;
use crate::error::Stage;
use crate::wire::get_u16;
use crate::wire::get_u32;
use crate::wire::le_u16;
use crate::wire::le_u32;
use crate::wire::put_u16;
use crate::wire::put_u32;
use crate::wire::u16_le_bytes;
use crate::wire::u32_le_bytes;

verus! {

/// The game version from which on block headers store their sizes in 32
/// bits.
pub const WIDE_SINCE_VERSION: u32 = 10032;

/// How the blocks of a replay are laid out and judged.
#[derive(Clone, Copy, Debug, PartialEq, Eq, Structural)]
pub struct BlockFormat {
    /// Whether the two sizes of a block header take 32 bits each, in place
    /// of 16.
    pub wide: bool,
    /// Whether a block whose stored checksum differs from the computed one
    /// is refused. Writers are known to store other values, so this is a
    /// choice of the caller, and off unless asked for.
    pub enforce_checksum: bool,
}

/// The number of bytes that a block header takes: two sizes and a 32-bit
/// checksum.
pub open spec fn header_len(wide: bool) -> usize {
    if wide {
        12
    } else {
        8
    }
}

/// The number of bytes that a block header takes.
pub fn block_header_size(wide: bool) -> (r: usize)
    ensures
        r == header_len(wide),
{
    if wide {
        12
    } else {
        8
    }
}

/// The error type of `flate2`'s decompressor; nothing is read from it.
#[verifier::external_type_specification]
#[verifier::external_body]
pub struct ExDecompressError(flate2::DecompressError);

/// What a fresh zlib decompressor writes for `payload` when it is run once,
/// with a sync flush, on an output area of `limit` bytes; `None` where it
/// reports a corrupt stream.
pub uninterp spec fn zlib_inflate(payload: Seq<u8>, limit: nat) -> Option<Seq<u8>>;

/// Runs `flate2::Decompress::decompress` once, on a new decompressor that
/// expects a zlib header, with `FlushDecompress::Sync` and an output area of
/// `limit` bytes, and cuts the area down to `total_out`. The contract only
/// gives that outcome its name: the bytes written, or the decompressor's
/// error where it has one.
#[verifier::external_body]
fn inflate(payload: &[u8], limit: usize) -> (r: Result<Vec<u8>, flate2::DecompressError>)
    ensures
        zlib_inflate(payload@, limit as nat) == (match r {
            Ok(v) => Some(v@),
            Err(_) => None,
        }),
{
    let mut out = vec![0u8; limit];
    let mut engine = flate2::Decompress::new(true);
    engine.decompress(payload, &mut out, flate2::FlushDecompress::Sync)?;
    out.truncate(engine.total_out() as usize);
    Ok(out)
}

/// The CRC-32 of `data`, as `flate2::Crc` computes it.
pub uninterp spec fn crc32_of(data: Seq<u8>) -> u32;

/// Feeds `data` to a new `flate2::Crc` and takes its sum. The contract only
/// gives that sum its name.
#[verifier::external_body]
fn crc32(data: &[u8]) -> (r: u32)
    ensures
        r == crc32_of(data@),
{
    let mut sum = flate2::Crc::new();
    sum.update(data);
    sum.sum()
}

/// A CRC-32 folded to 16 bits: its two halves combined by exclusive or.
pub open spec fn fold16(sum: u32) -> u32 {
    (sum ^ (sum >> 16)) & 0xFFFF
}

/// The checksum of a block, from the CRC-32 of its header and that of its
/// payload: the folded header sum in the low half, the folded payload sum in
/// the high half.
pub open spec fn combined_checksum(header_sum: u32, payload_sum: u32) -> u32 {
    fold16(header_sum) | (fold16(payload_sum) << 16)
}

/// Combines the CRC-32 of a block's header and that of its payload into the
/// checksum that the block header stores.
pub fn combine_checksum(header_sum: u32, payload_sum: u32) -> (r: u32)
    ensures
        r == combined_checksum(header_sum, payload_sum),
{
    let low: u32 = (header_sum ^ (header_sum >> 16)) & 0xFFFF;
    let high: u32 = (payload_sum ^ (payload_sum >> 16)) & 0xFFFF;
    low | (high << 16)
}

/// The size fields in front of a block's payload.
#[derive(Clone, Copy, Debug, PartialEq, Eq, Structural)]
pub struct BlockHeader {
    /// The number of payload bytes that follow.
    pub compressed_size: u32,
    /// The number of bytes that the payload decompresses to.
    pub decompressed_size: u32,
    /// The checksum that the writer stored. It is compared with the computed
    /// one only where the format enforces checksums.
    pub checksum: u32,
}

/// The output area offered to the decompressor for a block that declares
/// `declared` bytes: one byte more where that fits, so that a payload which
/// holds more than it declares is seen to do so.
pub open spec fn inflate_limit(declared: u32) -> usize {
    if declared < usize::MAX {
        (declared + 1) as usize
    } else {
        declared as usize
    }
}

/// The verdict on what the decompressor gave for block `index`, which
/// declares `declared` bytes.
pub open spec fn checked(index: usize, declared: u32, inflated: Option<Seq<u8>>) -> Result<
    Seq<u8>,
    Error,
> {
    match inflated {
        None => Err(Error::DecompressFailure { block: index }),
        Some(bytes) => if bytes.len() == declared {
            Ok(bytes)
        } else {
            Err(Error::BlockSizeMismatch { block: index, declared, actual: bytes.len() as usize })
        },
    }
}

/// A block's result with the segment taken as a sequence.
pub open spec fn segment_view(r: Result<Vec<u8>, Error>) -> Result<Seq<u8>, Error> {
    match r {
        Ok(v) => Ok(v@),
        Err(e) => Err(e),
    }
}

/// The bytes of a block header over which its checksum is taken: the two
/// sizes as stored, and zeros in place of the checksum.
pub open spec fn header_image(header: BlockHeader, wide: bool) -> Seq<u8> {
    if wide {
        u32_le_bytes(header.compressed_size) + u32_le_bytes(header.decompressed_size)
            + u32_le_bytes(0)
    } else {
        u16_le_bytes((header.compressed_size % 65536) as u16) + u16_le_bytes(
            (header.decompressed_size % 65536) as u16,
        ) + u32_le_bytes(0)
    }
}

/// The checksum that a block with this header and payload should store.
pub open spec fn expected_checksum(header: BlockHeader, wide: bool, payload: Seq<u8>) -> u32 {
    combined_checksum(crc32_of(header_image(header, wide)), crc32_of(payload))
}

/// What decoding block `index` gives for its header and the bytes after it.
/// The checksum is looked at only where the format enforces it, and then
/// before anything is decompressed.
pub open spec fn block_result(
    index: usize,
    header: BlockHeader,
    payload: Seq<u8>,
    format: BlockFormat,
) -> Result<Seq<u8>, Error> {
    if payload.len() < header.compressed_size {
        Err(Error::Truncated { stage: Stage::BlockPayload, index })
    } else if format.enforce_checksum && header.checksum != expected_checksum(
        header,
        format.wide,
        payload.subrange(0, header.compressed_size as int),
    ) {
        Err(Error::ChecksumMismatch { block: index })
    } else {
        checked(
            index,
            header.decompressed_size,
            zlib_inflate(
                payload.subrange(0, header.compressed_size as int),
                inflate_limit(header.decompressed_size) as nat,
            ),
        )
    }
}

impl BlockHeader {
    /// The fields that the start of `s` holds, with sizes of 32 bits where
    /// `wide`, else of 16.
    pub open spec fn fields_of(s: Seq<u8>, wide: bool) -> BlockHeader {
        if wide {
            BlockHeader {
                compressed_size: le_u32(s, 0),
                decompressed_size: le_u32(s, 4),
                checksum: le_u32(s, 8),
            }
        } else {
            BlockHeader {
                compressed_size: le_u16(s, 0) as u32,
                decompressed_size: le_u16(s, 2) as u32,
                checksum: le_u32(s, 4),
            }
        }
    }

    /// What decoding a block header gives: `s` holds the header, `available`
    /// is the number of input bytes behind it.
    pub open spec fn parse(s: Seq<u8>, index: usize, available: usize, wide: bool) -> Result<
        BlockHeader,
        Error,
    > {
        if s.len() < header_len(wide) {
            Err(Error::Truncated { stage: Stage::BlockHeader, index })
        } else if BlockHeader::fields_of(s, wide).compressed_size == 0 || BlockHeader::fields_of(
            s,
            wide,
        ).compressed_size > available {
            Err(Error::BlockHeader { block: index })
        } else {
            Ok(BlockHeader::fields_of(s, wide))
        }
    }

    /// Decodes the header of block `index` from the start of `bytes`, and
    /// refuses one that declares no payload or more than `available` bytes.
    pub fn decode(bytes: &[u8], index: usize, available: usize, wide: bool) -> (r: Result<
        BlockHeader,
        Error,
    >)
        ensures
            r == BlockHeader::parse(bytes@, index, available, wide),
    {
        if bytes.len() < block_header_size(wide) {
            return Err(Error::Truncated { stage: Stage::BlockHeader, index });
        }
        let header = if wide {
            BlockHeader {
                compressed_size: get_u32(bytes, 0),
                decompressed_size: get_u32(bytes, 4),
                checksum: get_u32(bytes, 8),
            }
        } else {
            BlockHeader {
                compressed_size: get_u16(bytes, 0) as u32,
                decompressed_size: get_u16(bytes, 2) as u32,
                checksum: get_u32(bytes, 4),
            }
        };
        if header.compressed_size == 0 || header.compressed_size as usize > available {
            return Err(Error::BlockHeader { block: index });
        }
        Ok(header)
    }

    /// Computes the checksum that a block with this header and `payload`
    /// should store.
    pub fn checksum_of(&self, wide: bool, payload: &[u8]) -> (r: u32)
        ensures
            r == expected_checksum(*self, wide, payload@),
    {
        let mut image: Vec<u8> = Vec::new();
        if wide {
            put_u32(&mut image, self.compressed_size);
            put_u32(&mut image, self.decompressed_size);
        } else {
            put_u16(&mut image, (self.compressed_size % 65536) as u16);
            put_u16(&mut image, (self.decompressed_size % 65536) as u16);
        }
        put_u32(&mut image, 0);
        combine_checksum(crc32(image.as_slice()), crc32(payload))
    }
}

/// Judges what the decompressor gave for block `index`: a failure of the
/// decompressor and a length other than the declared one are both errors, and
/// only a segment of exactly the declared length is handed on.
pub fn check_inflated(index: usize, declared: u32, inflated: Option<Vec<u8>>) -> (r: Result<
    Vec<u8>,
    Error,
>)
    ensures
        segment_view(r) == checked(
            index,
            declared,
            match inflated {
                Some(v) => Some(v@),
                None => None,
            },
        ),
{
    match inflated {
        None => Err(Error::DecompressFailure { block: index }),
        Some(bytes) => {
            if bytes.len() == declared as usize {
                Ok(bytes)
            } else {
                Err(
                    Error::BlockSizeMismatch { block: index, declared, actual: bytes.len() },
                )
            }
        },
    }
}

/// Decompresses block `index`: the first `compressed_size` bytes of `payload`
/// are its payload.
pub fn decode_block(
    index: usize,
    header: &BlockHeader,
    payload: &[u8],
    format: BlockFormat,
) -> (r: Result<Vec<u8>, Error>)
    ensures
        segment_view(r) == block_result(index, *header, payload@, format),
{
    let size = header.compressed_size as usize;
    if payload.len() < size {
        return Err(Error::Truncated { stage: Stage::BlockPayload, index });
    }
    if format.enforce_checksum && header.checksum != header.checksum_of(
        format.wide,
        slice_subrange(payload, 0, size),
    ) {
        return Err(Error::ChecksumMismatch { block: index });
    }
    let declared = header.decompressed_size;
    let limit: usize = if (declared as usize) < usize::MAX {
        declared as usize + 1
    } else {
        declared as usize
    };
    let inflated = match inflate(slice_subrange(payload, 0, size), limit) {
        Ok(bytes) => Some(bytes),
        Err(_) => None,
    };
    check_inflated(index, declared, inflated)
}

/// What is left of a block stream: the input not yet read, the number of
/// blocks handed out, the number declared, and the format of the blocks.
pub struct BlocksView {
    pub input: Seq<u8>,
    pub done: usize,
    pub total: usize,
    pub format: BlockFormat,
}

/// The number of bytes that follow a block header at the start of `input`.
pub open spec fn bytes_behind_header(input: Seq<u8>, wide: bool) -> usize {
    if input.len() >= header_len(wide) {
        (input.len() - header_len(wide)) as usize
    } else {
        0
    }
}

/// One step of a block stream: nothing once every declared block was handed
/// out; else the next segment and the stream behind it, or the error and a
/// stream that has stopped.
pub open spec fn block_step(v: BlocksView) -> Option<(Result<Seq<u8>, Error>, BlocksView)> {
    if v.done >= v.total {
        None
    } else {
        let wide = v.format.wide;
        let stopped = BlocksView {
            input: v.input,
            done: v.total,
            total: v.total,
            format: v.format,
        };
        match BlockHeader::parse(v.input, v.done, bytes_behind_header(v.input, wide), wide) {
            Err(e) => Some((Err(e), stopped)),
            Ok(h) => match block_result(
                v.done,
                h,
                v.input.subrange(header_len(wide) as int, v.input.len() as int),
                v.format,
            ) {
                Err(e) => Some((Err(e), stopped)),
                Ok(segment) => Some(
                    (
                        Ok(segment),
                        BlocksView {
                            input: v.input.subrange(
                                header_len(wide) + h.compressed_size,
                                v.input.len() as int,
                            ),
                            done: (v.done + 1) as usize,
                            total: v.total,
                            format: v.format,
                        },
                    ),
                ),
            },
        }
    }
}

/// The segments of all blocks that are left, joined; `None` where one of them
/// fails to decode.
pub open spec fn remaining_stream(v: BlocksView) -> Option<Seq<u8>>
    decreases v.total - v.done,
{
    match block_step(v) {
        None => Some(Seq::empty()),
        Some((Err(_), _)) => None,
        Some((Ok(segment), rest)) => match remaining_stream(rest) {
            None => None,
            Some(more) => Some(segment + more),
        },
    }
}

/// The number of segments that a stream hands out before it ends or fails.
pub open spec fn segments_ahead(v: BlocksView) -> nat
    decreases v.total - v.done,
{
    match block_step(v) {
        Some((Ok(_), rest)) => 1 + segments_ahead(rest),
        _ => 0,
    }
}

/// A block stream over a buffer in memory. It hands out one decompressed
/// segment per declared block, in order, and never reads past the last
/// declared block.
pub struct Blocks {
    data: Vec<u8>,
    pos: usize,
    total: usize,
    done: usize,
    format: BlockFormat,
}

impl View for Blocks {
    type V = BlocksView;

    closed spec fn view(&self) -> BlocksView {
        BlocksView {
            input: self.data@.subrange(self.pos as int, self.data@.len() as int),
            done: self.done,
            total: self.total,
            format: self.format,
        }
    }
}

impl Blocks {
    #[verifier::type_invariant]
    spec fn wf(&self) -> bool {
        self.pos <= self.data@.len() && self.done <= self.total
    }

    /// A stream of `total` blocks over `data`, whose first block header is at
    /// `start`. A `start` behind the end of `data` leaves no input.
    pub fn new(data: Vec<u8>, start: usize, total: usize, format: BlockFormat) -> (r: Blocks)
        ensures
            r@ == (BlocksView {
                input: if start <= data@.len() {
                    data@.subrange(start as int, data@.len() as int)
                } else {
                    Seq::empty()
                },
                done: 0,
                total,
                format,
            }),
    {
        let pos = if start <= data.len() {
            start
        } else {
            data.len()
        };
        proof {
            assert(data@.subrange(data@.len() as int, data@.len() as int) =~= Seq::<u8>::empty());
        }
        Blocks { data, pos, total, done: 0, format }
    }

    /// The number of blocks that are still to come.
    pub fn remaining(&self) -> (r: usize)
        ensures
            r == self@.total - self@.done,
            self@.done <= self@.total,
    {
        proof {
            use_type_invariant(self);
        }
        self.total - self.done
    }

    /// Decodes the next block. After the last declared block, and after any
    /// error, the stream gives `None`; input behind the last block is never
    /// looked at.
    pub fn next_block(&mut self) -> (r: Option<Result<Vec<u8>, Error>>)
        ensures
            block_step(old(self)@) == (match r {
                None => None,
                Some(res) => Some((segment_view(res), final(self)@)),
            }),
            r is None ==> final(self)@ == old(self)@,
    {
        proof {
            use_type_invariant(&*self);
        }
        if self.done >= self.total {
            return None;
        }
        let index = self.done;
        let len = self.data.len();
        let rest = slice_subrange(self.data.as_slice(), self.pos, len);
        let wide = self.format.wide;
        let head = block_header_size(wide);
        let available: usize = if rest.len() >= head {
            rest.len() - head
        } else {
            0
        };
        let header = match BlockHeader::decode(rest, index, available, wide) {
            Ok(h) => h,
            Err(e) => {
                self.done = self.total;
                return Some(Err(e));
            },
        };
        let payload = slice_subrange(rest, head, rest.len());
        match decode_block(index, &header, payload, self.format) {
            Ok(segment) => {
                let size = header.compressed_size as usize;
                proof {
                    assert(old(self)@.input.subrange(head + size, old(self)@.input.len() as int)
                        =~= self.data@.subrange(
                        self.pos + head + size,
                        self.data@.len() as int,
                    ));
                }
                self.pos = self.pos + head + size;
                self.done = self.done + 1;
                Some(Ok(segment))
            },
            Err(e) => {
                self.done = self.total;
                Some(Err(e))
            },
        }
    }
}

/// A stream of `n` declared blocks hands out at most `n` segments, whatever
/// input lies behind them.
pub proof fn lemma_segments_bounded(v: BlocksView)
    requires
        v.done <= v.total,
    ensures
        segments_ahead(v) <= v.total - v.done,
        remaining_stream(v) is Some ==> segments_ahead(v) == v.total - v.done,
    decreases v.total - v.done,
{
    match block_step(v) {
        Some((Ok(_), rest)) => {
            lemma_segments_bounded(rest);
        },
        _ => {},
    }
}

/// Input behind the last declared block changes nothing: a stream whose
/// blocks all decode gives the same segments when more bytes follow.
pub proof fn lemma_trailing_bytes_ignored(v: BlocksView, extra: Seq<u8>)
    requires
        v.done <= v.total,
        remaining_stream(v) is Some,
        v.input.len() + extra.len() <= usize::MAX,
    ensures
        remaining_stream(
            BlocksView { input: v.input + extra, done: v.done, total: v.total, format: v.format },
        ) == remaining_stream(v),
    decreases v.total - v.done,
{
    let w = BlocksView {
        input: v.input + extra,
        done: v.done,
        total: v.total,
        format: v.format,
    };
    if v.done < v.total {
        let wide = v.format.wide;
        let head = header_len(wide) as int;
        let h = BlockHeader::parse(
            v.input,
            v.done,
            bytes_behind_header(v.input, wide),
            wide,
        ).unwrap();
        assert(forall|i: int| 0 <= i < 12 && i < v.input.len() ==> w.input[i] == v.input[i]);
        assert(BlockHeader::fields_of(w.input, wide) == BlockHeader::fields_of(v.input, wide));
        let size = h.compressed_size as int;
        assert(w.input.subrange(head, w.input.len() as int).subrange(0, size)
            =~= v.input.subrange(head, v.input.len() as int).subrange(0, size));
        let rest = block_step(v).unwrap().1;
        let rest_w = block_step(w).unwrap().1;
        assert(rest_w.input =~= rest.input + extra);
        lemma_trailing_bytes_ignored(rest, extra);
    }
}

} // verus!
