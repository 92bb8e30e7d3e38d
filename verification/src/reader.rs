//! The block stream as a state machine for input that arrives piece by
//! piece: it says how many bytes it wants next, takes them, and answers with
//! a segment, an error, or a request for more. It reads nothing itself.
use vstd::prelude::*;
use crate::block::block_header_size;
use crate::block::block_result;
use crate::block::block_step;
use crate::block::decode_block;
use crate::block::header_len;
use crate::block::segment_view;
use crate::block::BlockFormat;
use crate::block::BlockHeader;
use crate::block::BlocksView;
use crate::error::Error;

verus! {

/// The state of a block stream that is fed from outside.
#[derive(Clone, Copy, Debug)]
pub struct BlockReader {
    /// The number of blocks handed out.
    pub done: usize,
    /// The number of blocks declared.
    pub total: usize,
    /// The number of input bytes not yet supplied.
    pub remaining: usize,
    /// The layout of the blocks and the checksum policy.
    pub format: BlockFormat,
    /// The header of the block whose payload is awaited.
    pub pending: Option<BlockHeader>,
}

/// What a block stream wants to be supplied with next.
#[derive(Clone, Copy, Debug, PartialEq, Eq, Structural)]
pub enum Request {
    /// Nothing: every declared block was handed out, or the stream failed.
    Finished,
    /// The bytes of a block header, of the given number.
    Header(usize),
    /// The bytes of a block's payload, of the given number.
    Payload(usize),
}

/// The answer of a block stream to the bytes it was supplied with.
#[derive(Debug, PartialEq, Eq)]
pub enum Supplied {
    /// The header was accepted; the payload is wanted next.
    Continue,
    /// The block is complete: its decompressed segment.
    Segment(Vec<u8>),
    /// The stream failed and has ended.
    Failed(Error),
    /// The stream had ended before.
    Finished,
}

/// An answer as a mathematical value.
pub enum SuppliedView {
    Continue,
    Segment(Seq<u8>),
    Failed(Error),
    Finished,
}

impl View for Supplied {
    type V = SuppliedView;

    open spec fn view(&self) -> SuppliedView {
        match *self {
            Supplied::Continue => SuppliedView::Continue,
            Supplied::Segment(v) => SuppliedView::Segment(v@),
            Supplied::Failed(e) => SuppliedView::Failed(e),
            Supplied::Finished => SuppliedView::Finished,
        }
    }
}

/// `a` less `b`, and zero where `b` is the larger.
pub open spec fn less(a: usize, b: usize) -> usize {
    if a >= b {
        (a - b) as usize
    } else {
        0
    }
}

impl BlockReader {
    /// The state with the stream ended.
    pub open spec fn halted(self) -> BlockReader {
        BlockReader {
            done: self.total,
            total: self.total,
            remaining: self.remaining,
            format: self.format,
            pending: None,
        }
    }

    /// What the stream wants next.
    pub open spec fn wanted(self) -> Request {
        if self.done >= self.total {
            Request::Finished
        } else {
            match self.pending {
                None => Request::Header(header_len(self.format.wide)),
                Some(h) => Request::Payload(h.compressed_size as usize),
            }
        }
    }

    /// The answer to `bytes`, and the state behind it. Bytes for a header
    /// are decoded and judged against the input that is left; bytes for a
    /// payload are decompressed and judged against the header. Fewer bytes
    /// than were wanted are a truncation. Any error ends the stream.
    pub open spec fn supplied(self, bytes: Seq<u8>) -> (SuppliedView, BlockReader) {
        if self.done >= self.total {
            (SuppliedView::Finished, self)
        } else {
            match self.pending {
                None => {
                    let behind = less(self.remaining, header_len(self.format.wide));
                    match BlockHeader::parse(bytes, self.done, behind, self.format.wide) {
                        Err(e) => (SuppliedView::Failed(e), self.halted()),
                        Ok(h) => (
                            SuppliedView::Continue,
                            BlockReader {
                                done: self.done,
                                total: self.total,
                                remaining: behind,
                                format: self.format,
                                pending: Some(h),
                            },
                        ),
                    }
                },
                Some(h) => match block_result(self.done, h, bytes, self.format) {
                    Err(e) => (SuppliedView::Failed(e), self.halted()),
                    Ok(segment) => (
                        SuppliedView::Segment(segment),
                        BlockReader {
                            done: (self.done + 1) as usize,
                            total: self.total,
                            remaining: less(self.remaining, h.compressed_size as usize),
                            format: self.format,
                            pending: None,
                        },
                    ),
                },
            }
        }
    }

    /// A stream of `total` blocks in an input of `remaining` bytes.
    pub fn new(total: usize, remaining: usize, format: BlockFormat) -> (r: BlockReader)
        ensures
            r == (BlockReader { done: 0, total, remaining, format, pending: None }),
    {
        BlockReader { done: 0, total, remaining, format, pending: None }
    }

    /// Says what the stream wants to be supplied with next.
    pub fn request(&self) -> (r: Request)
        ensures
            r == self.wanted(),
    {
        if self.done >= self.total {
            Request::Finished
        } else {
            match self.pending {
                None => Request::Header(block_header_size(self.format.wide)),
                Some(h) => Request::Payload(h.compressed_size as usize),
            }
        }
    }

    /// Takes the bytes that were read for the last request; fewer than were
    /// wanted mean that the input has ended.
    pub fn supply(&mut self, bytes: &[u8]) -> (r: Supplied)
        ensures
            old(self).supplied(bytes@) == (r@, *final(self)),
    {
        if self.done >= self.total {
            return Supplied::Finished;
        }
        match self.pending {
            None => {
                let head = block_header_size(self.format.wide);
                let behind: usize = if self.remaining >= head {
                    self.remaining - head
                } else {
                    0
                };
                match BlockHeader::decode(bytes, self.done, behind, self.format.wide) {
                    Err(e) => {
                        self.done = self.total;
                        Supplied::Failed(e)
                    },
                    Ok(h) => {
                        self.remaining = behind;
                        self.pending = Some(h);
                        Supplied::Continue
                    },
                }
            },
            Some(h) => {
                match decode_block(self.done, &h, bytes, self.format) {
                    Err(e) => {
                        self.done = self.total;
                        self.pending = None;
                        Supplied::Failed(e)
                    },
                    Ok(segment) => {
                        let size = h.compressed_size as usize;
                        self.done = self.done + 1;
                        self.remaining = if self.remaining >= size {
                            self.remaining - size
                        } else {
                            0
                        };
                        self.pending = None;
                        Supplied::Segment(segment)
                    },
                }
            },
        }
    }
}

/// The bytes of `input` from `from` on, `count` of them or as many as there
/// are: what a reader gets that asks for `count` bytes at `from`.
pub open spec fn read_at(input: Seq<u8>, from: int, count: int) -> Seq<u8> {
    if from + count <= input.len() {
        input.subrange(from, from + count)
    } else if from <= input.len() {
        input.subrange(from, input.len() as int)
    } else {
        Seq::empty()
    }
}

/// A stream fed piece by piece gives what the stream over the whole input
/// gives: supplied with the header bytes and then the payload bytes of the
/// next block, it answers with the same segment or the same error, and leaves
/// the same count of blocks and of input bytes.
pub proof fn lemma_reader_matches_block_stream(v: BlocksView)
    requires
        v.done < v.total,
        v.input.len() <= usize::MAX,
    ensures
        ({
            let r = BlockReader {
                done: v.done,
                total: v.total,
                remaining: v.input.len() as usize,
                format: v.format,
                pending: None,
            };
            let head = header_len(v.format.wide) as int;
            let first = r.supplied(read_at(v.input, 0, head));
            let whole = block_step(v).unwrap();
            match first.0 {
                SuppliedView::Continue => {
                    let size = first.1.pending.unwrap().compressed_size as int;
                    let second = first.1.supplied(read_at(v.input, head, size));
                    match second.0 {
                        SuppliedView::Segment(segment) => {
                            &&& whole.0 == Ok::<Seq<u8>, Error>(segment)
                            &&& whole.1.done == second.1.done
                            &&& whole.1.input.len() == second.1.remaining
                        },
                        SuppliedView::Failed(e) => whole.0 == Err::<Seq<u8>, Error>(e)
                            && whole.1.done == second.1.done,
                        _ => false,
                    }
                },
                SuppliedView::Failed(e) => whole.0 == Err::<Seq<u8>, Error>(e) && whole.1.done
                    == first.1.done,
                _ => false,
            }
        }),
{
    let wide = v.format.wide;
    let head = header_len(wide) as int;
    let bytes = read_at(v.input, 0, head);
    assert(forall|i: int| 0 <= i < bytes.len() ==> bytes[i] == v.input[i]);
    if v.input.len() >= head {
        assert(BlockHeader::fields_of(bytes, wide) == BlockHeader::fields_of(v.input, wide));
        let h = BlockHeader::fields_of(v.input, wide);
        let size = h.compressed_size as int;
        if size <= v.input.len() - head {
            let payload = read_at(v.input, head, size);
            assert(payload.subrange(0, size) =~= v.input.subrange(
                head,
                v.input.len() as int,
            ).subrange(0, size));
        }
    }
}

} // verus!
