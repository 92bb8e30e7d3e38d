//! The record cursor: a position in the decompressed stream, fed segment by
//! segment, that hands out one record per step. It reads nothing itself; who
//! drives it says whether more input can come. It keeps only the bytes from
//! the record it stood at when it was last fed, so what it holds is bounded
//! by one segment and one record, not by the length of the stream.
use vstd::prelude::*;
use crate::error::Error;
use crate::error::Stage;
use crate::records::lemma_cut_behind_record;
use crate::records::lemma_cut_inside_record;
use crate::records::lemma_item_bounds;
use crate::records::lemma_parse_shift;
use crate::wire::copy_range;
use crate::records::parse_at;
use crate::records::parse_record;
use crate::records::truncated;
use crate::records::Parsed;
use crate::records::Record;
use crate::records::RecordView;

verus! {

/// The state of a cursor: the stream fed so far, the position from which on
/// the cursor still holds its bytes, the position of the next record, and
/// whether the cursor has ended.
pub struct CursorView {
    pub stream: Seq<u8>,
    pub kept_from: usize,
    pub pos: usize,
    pub finished: bool,
}

/// What a step of the cursor asks of its driver or hands to it.
#[derive(Debug, PartialEq, Eq)]
pub enum Poll {
    /// The next record.
    Record(Record),
    /// The error that ends the sequence.
    Failed(Error),
    /// The stream at hand ends inside the next record: feed more.
    NeedInput,
    /// The sequence has ended.
    Finished,
}

/// A step's outcome as a mathematical value.
pub enum PollView {
    Record(RecordView),
    Failed(Error),
    NeedInput,
    Finished,
}

impl View for Poll {
    type V = PollView;

    open spec fn view(&self) -> PollView {
        match *self {
            Poll::Record(r) => PollView::Record(r@),
            Poll::Failed(e) => PollView::Failed(e),
            Poll::NeedInput => PollView::NeedInput,
            Poll::Finished => PollView::Finished,
        }
    }
}

/// The state `v` with the cursor ended.
pub open spec fn stopped(v: CursorView) -> CursorView {
    CursorView { stream: v.stream, kept_from: v.kept_from, pos: v.pos, finished: true }
}

/// One step of a cursor in state `v`, where `more` says whether more input
/// can still be fed, and the state it leaves.
///
/// An ended cursor stays ended. A record that the stream holds whole is
/// handed out, and the position moves behind it; the end-of-replay record
/// also ends the cursor. An error other than a truncation ends the cursor. A
/// truncation asks for input while more can come and leaves the state as it
/// is; when none can, it is the clean end at the end of the stream, and an
/// error inside a record.
pub open spec fn poll_step(v: CursorView, more: bool) -> (PollView, CursorView) {
    if v.finished {
        (PollView::Finished, v)
    } else {
        match parse_at(v.stream, v.pos as int) {
            Parsed::Item { record, next } => (
                PollView::Record(record),
                CursorView {
                    stream: v.stream,
                    kept_from: v.kept_from,
                    pos: next as usize,
                    finished: record is EndOfReplay,
                },
            ),
            Parsed::Fail(e) => if Parsed::Fail(e) != truncated(v.pos as int) {
                (PollView::Failed(e), stopped(v))
            } else if more {
                (PollView::NeedInput, v)
            } else if v.pos == v.stream.len() {
                (PollView::Finished, stopped(v))
            } else {
                (PollView::Failed(e), stopped(v))
            },
        }
    }
}

/// A cursor over a stream that is fed to it in segments.
pub struct RecordCursor {
    buf: Vec<u8>,
    base: usize,
    pos: usize,
    finished: bool,
    stream: Ghost<Seq<u8>>,
}

impl View for RecordCursor {
    type V = CursorView;

    closed spec fn view(&self) -> CursorView {
        CursorView {
            stream: self.stream@,
            kept_from: self.base,
            pos: self.pos,
            finished: self.finished,
        }
    }
}

impl RecordCursor {
    /// The buffer holds the stream from `base` on, and the position lies in
    /// it.
    #[verifier::type_invariant]
    spec fn wf(&self) -> bool {
        &&& self.base <= self.pos <= self.stream@.len() <= usize::MAX
        &&& self.buf@ == self.stream@.subrange(self.base as int, self.stream@.len() as int)
    }

    /// A cursor at the start of an empty stream.
    pub fn new() -> (r: RecordCursor)
        ensures
            r@ == (CursorView { stream: Seq::empty(), kept_from: 0, pos: 0, finished: false }),
    {
        let buf: Vec<u8> = Vec::new();
        proof {
            assert(buf@ =~= Seq::<u8>::empty().subrange(0, 0));
        }
        RecordCursor { buf, base: 0, pos: 0, finished: false, stream: Ghost(Seq::empty()) }
    }

    /// The position of the next record in the stream.
    pub fn position(&self) -> (r: usize)
        ensures
            r == self@.pos,
            r <= self@.stream.len(),
    {
        proof {
            use_type_invariant(self);
        }
        self.pos
    }

    /// Whether the cursor has ended.
    pub fn is_finished(&self) -> (r: bool)
        ensures
            r == self@.finished,
    {
        self.finished
    }

    /// The number of bytes that the cursor holds: those of the stream from
    /// `kept_from` on.
    pub fn buffered(&self) -> (r: usize)
        ensures
            r == self@.stream.len() - self@.kept_from,
            self@.kept_from <= self@.pos <= self@.stream.len(),
    {
        proof {
            use_type_invariant(self);
        }
        self.buf.len()
    }

    /// Appends a segment to the stream and lets go of the bytes before the
    /// position. Position and state stay. A stream that would grow beyond
    /// what a position can count is refused: the cursor ends, and the result
    /// is `false`.
    pub fn feed(&mut self, segment: Vec<u8>) -> (fits: bool)
        ensures
            fits == (old(self)@.stream.len() + segment@.len() <= usize::MAX),
            final(self)@ == (if fits {
                CursorView {
                    stream: old(self)@.stream + segment@,
                    kept_from: old(self)@.pos,
                    pos: old(self)@.pos,
                    finished: old(self)@.finished,
                }
            } else {
                stopped(old(self)@)
            }),
    {
        proof {
            use_type_invariant(&*self);
        }
        let held = self.buf.len();
        let end = self.base + held;
        if segment.len() > usize::MAX - end {
            self.finished = true;
            return false;
        }
        let mut fresh = copy_range(self.buf.as_slice(), self.pos - self.base, held);
        let mut segment = segment;
        let ghost whole = self.stream@ + segment@;
        fresh.append(&mut segment);
        proof {
            assert(fresh@ =~= whole.subrange(self.pos as int, whole.len() as int));
        }
        *self = RecordCursor {
            buf: fresh,
            base: self.pos,
            pos: self.pos,
            finished: self.finished,
            stream: Ghost(whole),
        };
        true
    }

    /// Ends the cursor, as after a failure of its input.
    pub fn stop(&mut self)
        ensures
            final(self)@ == stopped(old(self)@),
    {
        proof {
            use_type_invariant(&*self);
        }
        self.finished = true;
    }

    /// Takes one step; `more` says whether more input can still be fed.
    pub fn poll(&mut self, more: bool) -> (r: Poll)
        ensures
            poll_step(old(self)@, more) == (r@, final(self)@),
    {
        proof {
            use_type_invariant(&*self);
            lemma_parse_shift(self.stream@, self.base as int, self.pos as int);
        }
        if self.finished {
            return Poll::Finished;
        }
        let at = self.pos - self.base;
        match parse_record(self.buf.as_slice(), at) {
            Ok((record, next)) => {
                proof {
                    lemma_item_bounds(self.buf@, at as int);
                }
                self.pos = self.base + next;
                self.finished = match record {
                    Record::EndOfReplay => true,
                    _ => false,
                };
                Poll::Record(record)
            },
            Err(Error::MalformedRecordField { tag, .. }) => {
                self.finished = true;
                Poll::Failed(Error::MalformedRecordField { offset: self.pos, tag })
            },
            Err(Error::UnknownRecordTag { tag, .. }) => {
                self.finished = true;
                Poll::Failed(Error::UnknownRecordTag { offset: self.pos, tag })
            },
            Err(_) => {
                if more {
                    Poll::NeedInput
                } else {
                    self.finished = true;
                    if at == self.buf.len() {
                        Poll::Finished
                    } else {
                        Poll::Failed(Error::Truncated { stage: Stage::Record, index: self.pos })
                    }
                }
            },
        }
    }
}

/// A step that hands out a record or an error other than a truncation does
/// not depend on whether more input can come.
pub proof fn lemma_poll_ignores_more(v: CursorView)
    requires
        poll_step(v, true).0 != PollView::NeedInput,
    ensures
        poll_step(v, false) == poll_step(v, true),
{
}

/// A record that a step hands out lies inside the stream: the position it
/// leaves is behind the old one and not behind the end.
pub proof fn lemma_poll_moves_forward(v: CursorView, more: bool)
    requires
        v.stream.len() <= usize::MAX,
        poll_step(v, more).0 is Record,
    ensures
        v.pos < poll_step(v, more).1.pos <= v.stream.len(),
{
    lemma_item_bounds(v.stream, v.pos as int);
}

/// A stream that is cut inside a record, with no more input to come, fails
/// at that record with a truncation: the record is not handed out, and the
/// error names the record's own position.
pub proof fn lemma_cut_stream_fails_at_record(v: CursorView, cut: int)
    requires
        !v.finished,
        parse_at(v.stream, v.pos as int) is Item,
        v.pos < cut < parse_at(v.stream, v.pos as int)->next,
    ensures
        poll_step(
            CursorView {
                stream: v.stream.subrange(0, cut),
                kept_from: v.kept_from,
                pos: v.pos,
                finished: false,
            },
            false,
        ).0 == PollView::Failed(Error::Truncated { stage: Stage::Record, index: v.pos }),
{
    lemma_cut_inside_record(v.stream, v.pos as int, cut);
    lemma_item_bounds(v.stream, v.pos as int);
}

/// A stream that is cut behind a record still hands out that record, and
/// leaves the same position.
pub proof fn lemma_cut_stream_keeps_earlier_record(v: CursorView, cut: int, more: bool)
    requires
        !v.finished,
        parse_at(v.stream, v.pos as int) is Item,
        parse_at(v.stream, v.pos as int)->next <= cut <= v.stream.len(),
    ensures
        poll_step(
            CursorView {
                stream: v.stream.subrange(0, cut),
                kept_from: v.kept_from,
                pos: v.pos,
                finished: false,
            },
            more,
        ).0 == poll_step(v, more).0,
        poll_step(
            CursorView {
                stream: v.stream.subrange(0, cut),
                kept_from: v.kept_from,
                pos: v.pos,
                finished: false,
            },
            more,
        ).1.pos == poll_step(v, more).1.pos,
{
    lemma_cut_behind_record(v.stream, v.pos as int, cut);
}

} // verus!
