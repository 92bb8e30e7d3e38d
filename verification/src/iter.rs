//! The lazy record sequence: a cursor over the decompressed stream that
//! pulls the next block only when the bytes at hand end inside a record.
use vstd::prelude::*;
use crate::block::block_step;
use crate::block::remaining_stream;
use crate::block::Blocks;
use crate::block::BlocksView;
use crate::error::Error;
use crate::cursor::CursorView;
use crate::cursor::Poll;
use crate::cursor::RecordCursor;
use crate::records::is_prefix;
use crate::records::lemma_item_bounds;
use crate::records::lemma_parse_prefix_stable;
use crate::records::parse_at;
use crate::records::truncated;
use crate::records::Parsed;
use crate::records::Record;
use crate::records::RecordView;

verus! {

/// The state of a record sequence: the blocks not yet decompressed, the
/// stream decompressed so far, the position of the next record in it, and
/// whether the sequence has ended.
pub struct IterView {
    pub blocks: BlocksView,
    pub stream: Seq<u8>,
    pub pos: usize,
    pub finished: bool,
}

/// What one step hands to the consumer, as a mathematical value.
pub open spec fn item_view(r: Option<Result<Record, Error>>) -> Option<Result<RecordView, Error>> {
    match r {
        None => None,
        Some(Ok(record)) => Some(Ok(record@)),
        Some(Err(e)) => Some(Err(e)),
    }
}

/// The state `v` with the sequence ended.
pub open spec fn ended(v: IterView) -> IterView {
    IterView { blocks: v.blocks, stream: v.stream, pos: v.pos, finished: true }
}

/// One step of the sequence, and the state it leaves.
///
/// A sequence that has ended gives nothing. Else the record at the position
/// is read from the stream at hand. A record is handed out and the position
/// moves behind it; the end-of-replay record also ends the sequence. An error
/// other than a truncation is handed out and ends the sequence. On a
/// truncation the next block is appended to the stream and the record is read
/// again; a block that fails hands out its error and ends the sequence, and
/// so does a block that would make the stream longer than a position can
/// count. When
/// no block is left, a truncation at the very end of the stream is the clean
/// end, and one inside a record is handed out as the last item.
pub open spec fn advance(v: IterView) -> (Option<Result<RecordView, Error>>, IterView)
    decreases v.blocks.total - v.blocks.done,
{
    if v.finished {
        (None, v)
    } else {
        match parse_at(v.stream, v.pos as int) {
            Parsed::Item { record, next } => (
                Some(Ok(record)),
                IterView {
                    blocks: v.blocks,
                    stream: v.stream,
                    pos: next as usize,
                    finished: record is EndOfReplay,
                },
            ),
            Parsed::Fail(e) => if Parsed::Fail(e) != truncated(v.pos as int) {
                (Some(Err(e)), ended(v))
            } else {
                match block_step(v.blocks) {
                    None => if v.pos == v.stream.len() {
                        (None, ended(v))
                    } else {
                        (Some(Err(e)), ended(v))
                    },
                    Some((Err(failure), rest)) => (
                        Some(Err(failure)),
                        IterView { blocks: rest, stream: v.stream, pos: v.pos, finished: true },
                    ),
                    Some((Ok(segment), rest)) => if v.stream.len() + segment.len()
                        > usize::MAX {
                        (
                            Some(Err(Error::StreamTooLong)),
                            IterView {
                                blocks: rest,
                                stream: v.stream,
                                pos: v.pos,
                                finished: true,
                            },
                        )
                    } else {
                        advance(
                            IterView {
                                blocks: rest,
                                stream: v.stream + segment,
                                pos: v.pos,
                                finished: false,
                            },
                        )
                    },
                }
            },
        }
    }
}

/// The state `v` once every block that is left has been decompressed into
/// the stream, where `rest` is what they hold: no input and no block is left.
pub open spec fn joined(v: IterView, rest: Seq<u8>) -> IterView {
    IterView {
        blocks: BlocksView {
            input: Seq::empty(),
            done: v.blocks.total,
            total: v.blocks.total,
            format: v.blocks.format,
        },
        stream: v.stream + rest,
        pos: v.pos,
        finished: v.finished,
    }
}

/// The lazy sequence of the records of a replay. It is read once, front to
/// back; a new one can be made from the same bytes.
pub struct RecordIter {
    blocks: Blocks,
    cursor: RecordCursor,
}

impl View for RecordIter {
    type V = IterView;

    open spec fn view(&self) -> IterView {
        IterView {
            blocks: self.spec_blocks(),
            stream: self.spec_cursor().stream,
            pos: self.spec_cursor().pos,
            finished: self.spec_cursor().finished,
        }
    }
}

impl RecordIter {
    /// The block stream, as contracts speak of it.
    pub closed spec fn spec_blocks(&self) -> BlocksView {
        self.blocks@
    }

    /// The cursor, as contracts speak of it.
    pub closed spec fn spec_cursor(&self) -> CursorView {
        self.cursor@
    }

    /// The sequence of the records that `blocks` hold, positioned at the
    /// first record, with nothing decompressed yet.
    pub fn new(blocks: Blocks) -> (r: RecordIter)
        ensures
            r@ == (IterView { blocks: blocks@, stream: Seq::empty(), pos: 0, finished: false }),
    {
        RecordIter { blocks, cursor: RecordCursor::new() }
    }

    /// The position of the next record in the decompressed stream.
    pub fn position(&self) -> (r: usize)
        ensures
            r == self@.pos,
    {
        self.cursor.position()
    }

    /// Produces the next record, an error, or `None` at the end. After an
    /// error, and after the end-of-replay record, every call gives `None`.
    pub fn next(&mut self) -> (r: Option<Result<Record, Error>>)
        ensures
            advance(old(self)@) == (item_view(r), final(self)@),
    {
        loop
            invariant
                advance(old(self)@) == advance(self@),
            decreases self.blocks@.total - self.blocks@.done,
        {
            let more = self.blocks.remaining() > 0;
            match self.cursor.poll(more) {
                Poll::Record(record) => {
                    return Some(Ok(record));
                },
                Poll::Failed(e) => {
                    return Some(Err(e));
                },
                Poll::Finished => {
                    return None;
                },
                Poll::NeedInput => {
                    match self.blocks.next_block() {
                        Some(Ok(segment)) => {
                            if !self.cursor.feed(segment) {
                                return Some(Err(Error::StreamTooLong));
                            }
                        },
                        Some(Err(failure)) => {
                            self.cursor.stop();
                            return Some(Err(failure));
                        },
                        None => {
                            self.cursor.stop();
                            return None;
                        },
                    }
                },
            }
        }
    }
}

/// With no block declared and nothing decompressed, the first step is the
/// end: no record comes out.
pub proof fn lemma_no_blocks_no_records(v: IterView)
    requires
        v.blocks.done >= v.blocks.total,
        v.stream.len() == 0,
        v.pos == 0,
        !v.finished,
    ensures
        advance(v).0 is None,
        advance(v).1 == ended(v),
{
}

/// The first `count` items that the sequence hands out from state `v`, with
/// `None` for each step at or behind the end.
pub open spec fn items(v: IterView, count: nat) -> Seq<Option<Result<RecordView, Error>>>
    decreases count,
{
    if count == 0 {
        Seq::empty()
    } else {
        seq![advance(v).0] + items(advance(v).1, (count - 1) as nat)
    }
}

/// A state whose blocks that are left all decode, to a stream that a
/// position can count, with its position inside the stream at hand.
pub open spec fn decodable(v: IterView) -> bool {
    &&& v.blocks.done <= v.blocks.total
    &&& v.pos <= v.stream.len()
    &&& remaining_stream(v.blocks) is Some
    &&& v.stream.len() + remaining_stream(v.blocks).unwrap().len() <= usize::MAX
}

/// The state `v` with every block that is left decompressed into the stream
/// beforehand.
pub open spec fn flattened(v: IterView) -> IterView {
    joined(v, remaining_stream(v.blocks).unwrap())
}

/// Reading records while blocks are decompressed one by one gives what
/// reading them from the whole decompressed stream gives: where the blocks
/// that are left all decode, a step hands out the same item as a step on the
/// stream with all of them appended beforehand, and the two states that the
/// steps leave correspond in the same way, or have both ended.
pub proof fn lemma_step_matches_joined_stream(v: IterView)
    requires
        decodable(v),
    ensures
        advance(v).0 == advance(flattened(v)).0,
        advance(v).1.finished == advance(flattened(v)).1.finished,
        !advance(v).1.finished ==> decodable(advance(v).1) && flattened(advance(v).1) == advance(
            flattened(v),
        ).1,
    decreases v.blocks.total - v.blocks.done,
{
    let rest = remaining_stream(v.blocks).unwrap();
    let whole = joined(v, rest);
    assert(block_step(whole.blocks) is None);
    assert(remaining_stream(whole.blocks) == Some(Seq::<u8>::empty()));
    if !v.finished {
        assert(is_prefix(v.stream, whole.stream));
        if parse_at(v.stream, v.pos as int) != truncated(v.pos as int) {
            lemma_parse_prefix_stable(v.stream, whole.stream, v.pos as int);
            if parse_at(v.stream, v.pos as int) is Item {
                lemma_item_bounds(v.stream, v.pos as int);
            }
        } else {
            match block_step(v.blocks) {
                None => {
                    assert(whole.stream =~= v.stream);
                },
                Some((Err(_), _)) => {},
                Some((Ok(segment), blocks)) => {
                    let w = IterView {
                        blocks,
                        stream: v.stream + segment,
                        pos: v.pos,
                        finished: false,
                    };
                    let more = remaining_stream(blocks).unwrap();
                    assert(rest == segment + more);
                    assert((v.stream + segment) + more =~= v.stream + rest);
                    lemma_step_matches_joined_stream(w);
                    assert(joined(w, more).stream =~= whole.stream);
                    assert(joined(w, more) == whole);
                },
            }
        }
    } else {
        assert(whole.stream + Seq::<u8>::empty() =~= whole.stream);
    }
}

/// Reading is a function of the state: two passes that start from equal
/// states hand out the same items, however many are asked for.
pub proof fn lemma_passes_agree(a: IterView, b: IterView, count: nat)
    requires
        a == b,
    ensures
        items(a, count) == items(b, count),
{
}

/// Once the sequence has ended, every step gives `None`, whatever the rest
/// of the state holds.
pub proof fn lemma_nothing_after_the_end(a: IterView, b: IterView, count: nat)
    requires
        a.finished,
        b.finished,
    ensures
        items(a, count) == items(b, count),
    decreases count,
{
    if count > 0 {
        lemma_nothing_after_the_end(a, b, (count - 1) as nat);
    }
}

/// Stream and buffer agree: where the blocks all decode, the items read
/// while the blocks are decompressed one by one are, item for item, those
/// read from the one stream that all the segments joined make up.
pub proof fn lemma_items_match_joined_stream(v: IterView, count: nat)
    requires
        decodable(v),
    ensures
        items(v, count) == items(flattened(v), count),
    decreases count,
{
    if count > 0 {
        lemma_step_matches_joined_stream(v);
        let left = (count - 1) as nat;
        if advance(v).1.finished {
            lemma_nothing_after_the_end(advance(v).1, advance(flattened(v)).1, left);
        } else {
            lemma_items_match_joined_stream(advance(v).1, left);
        }
    }
}

} // verus!
