//! Bodies as their readers see them: the state shared between the side that decodes a
//! body and the side that reads it, and a body read straight from the connection.
use std::collections::VecDeque;
use vstd::prelude::*;

use crate::common::body::StreamHint;
use crate::common::error::HttpError;
use crate::common::waker::{set_waker, slot_wakers, wake_slot};
use vstd::std_specs::convert::FromSpecImpl;
use crate::h1::codec::decoder::{ChunkedBodyDecoder, DecodeError, FixedBodyDecoder, PayloadDecoder};

verus! {

/// Why a body could not be read to its end.
#[derive(Debug)]
pub enum PayloadError {
    UnexpectedEof,
    Decode,
    Io(std::io::Error),
}

/// What polling a body gives: a piece, or `None` once it is over; or nothing yet.
#[derive(Debug)]
pub enum PayloadPoll<T> {
    Ready(Option<T>),
    Pending,
}

/// The state shared by the two ends of a body delivered in one piece: the piece once
/// it was fed, whether it was handed out, and the reader waiting for it.
pub struct FixedInner<D, E> {
    item: Option<Result<D, E>>,
    task: Option<std::task::Waker>,
    eof: bool,
    woken: Ghost<Seq<std::task::Waker>>,
}

impl<D, E> FixedInner<D, E> {
    /// The piece fed and not yet handed out.
    pub closed spec fn item(self) -> Option<Result<D, E>> {
        self.item
    }

    /// Whether the piece was handed out.
    pub closed spec fn is_eof(self) -> bool {
        self.eof
    }

    /// The waker of the reader waiting for the piece, if any.
    pub closed spec fn task(self) -> Option<std::task::Waker> {
        self.task
    }

    /// The wakers woken so far, in order.
    pub closed spec fn woken(self) -> Seq<std::task::Waker> {
        self.woken@
    }

    /// Nothing fed yet.
    pub fn new() -> (r: Self)
        ensures
            r.item() is None,
            !r.is_eof(),
            r.task() is None,
            r.woken() == Seq::<std::task::Waker>::empty(),
    {
        FixedInner { item: None, task: None, eof: false, woken: Ghost(Seq::empty()) }
    }

    /// Already holding `data`.
    pub fn with_data(data: D) -> (r: Self)
        ensures
            r.item() == Some(Ok::<D, E>(data)),
            !r.is_eof(),
            r.task() is None,
            r.woken() == Seq::<std::task::Waker>::empty(),
    {
        FixedInner { item: Some(Ok(data)), task: None, eof: false, woken: Ghost(Seq::empty()) }
    }

    /// The reader's poll: the piece once (the end after it), or, while it has not come,
    /// nothing, with the reader's `waker` kept to be woken when it comes.
    pub fn poll_next(&mut self, waker: &std::task::Waker) -> (r: PayloadPoll<Result<D, E>>)
        ensures
            old(self).is_eof() ==> r == PayloadPoll::<Result<D, E>>::Ready(None) && *final(self) == *old(self),
            !old(self).is_eof() ==> (old(self).item() matches Some(it) ==> {
                &&& r == PayloadPoll::Ready(Some(it))
                &&& final(self).is_eof()
                &&& final(self).item() is None
                &&& final(self).task() == old(self).task()
                &&& final(self).woken() == old(self).woken()
            }),
            !old(self).is_eof() && old(self).item() is None ==> {
                &&& r is Pending
                &&& final(self).item() == old(self).item()
                &&& final(self).is_eof() == old(self).is_eof()
                &&& final(self).task() is Some
                &&& final(self).woken() == old(self).woken()
            },
    {
        if self.eof {
            return PayloadPoll::Ready(None);
        }
        let mut taken: Option<Result<D, E>> = None;
        std::mem::swap(&mut taken, &mut self.item);
        match taken {
            Some(item) => {
                self.eof = true;
                PayloadPoll::Ready(Some(item))
            },
            None => {
                set_waker(&mut self.task, waker);
                PayloadPoll::Pending
            },
        }
    }

    /// The decoding side hands over the piece (or the error that stood in its way) and
    /// wakes the reader.
    pub fn feed(&mut self, item: Result<D, E>)
        ensures
            final(self).item() == Some(item),
            final(self).is_eof() == old(self).is_eof(),
            final(self).task() is None,
            final(self).woken() == old(self).woken() + slot_wakers(old(self).task()),
    {
        self.item = Some(item);
        let woke = wake_slot(&mut self.task);
        proof {
            self.woken@ = self.woken@ + woke@;
        }
    }
}

impl<D, E> Default for FixedInner<D, E> {
    fn default() -> (r: Self)
        ensures
            r.item() is None,
            !r.is_eof(),
    {
        FixedInner::new()
    }
}

/// The state shared by the two ends of a body delivered in pieces: the pieces (or
/// errors) fed and not yet read, in order, whether the end was fed, and the reader
/// waiting for more.
pub struct StreamInner<D, E> {
    eof: bool,
    items: VecDeque<Result<D, E>>,
    task: Option<std::task::Waker>,
    woken: Ghost<Seq<std::task::Waker>>,
}

impl<D, E> StreamInner<D, E> {
    /// What was fed and not yet read, oldest first.
    pub closed spec fn items(self) -> Seq<Result<D, E>> {
        self.items@
    }

    /// Whether the end was fed.
    pub closed spec fn is_eof(self) -> bool {
        self.eof
    }

    /// The waker of the reader waiting for a piece, if any.
    pub closed spec fn task(self) -> Option<std::task::Waker> {
        self.task
    }

    /// The wakers woken so far, in order.
    pub closed spec fn woken(self) -> Seq<std::task::Waker> {
        self.woken@
    }

    /// Nothing fed yet.
    pub fn new() -> (r: Self)
        ensures
            r.items() == Seq::<Result<D, E>>::empty(),
            !r.is_eof(),
            r.task() is None,
            r.woken() == Seq::<std::task::Waker>::empty(),
    {
        StreamInner { eof: false, items: VecDeque::new(), task: None, woken: Ghost(Seq::empty()) }
    }

    /// The reader's poll: the oldest piece not yet read; once none is left and the end
    /// was fed, the end; otherwise nothing, with the reader's `waker` kept.
    pub fn poll_next(&mut self, waker: &std::task::Waker) -> (r: PayloadPoll<Result<D, E>>)
        ensures
            (final(self).items(), r) == poll_stream(old(self).items(), old(self).is_eof()),
            old(self).items().len() > 0 ==> {
                &&& r == PayloadPoll::Ready(Some(old(self).items()[0]))
                &&& final(self).items() == old(self).items().drop_first()
                &&& final(self).is_eof() == old(self).is_eof()
            },
            old(self).items().len() == 0 && old(self).is_eof() ==> r == PayloadPoll::<Result<D, E>>::Ready(None),
            old(self).items().len() == 0 && !old(self).is_eof() ==> r is Pending,
            old(self).items().len() == 0 ==> final(self).items() == old(self).items()
                && final(self).is_eof() == old(self).is_eof(),
            r is Ready ==> final(self).task() == old(self).task(),
            r is Pending ==> final(self).task() is Some,
            final(self).woken() == old(self).woken(),
    {
        match self.items.pop_front() {
            Some(item) => {
                proof {
                    assert(self.items@ =~= old(self).items@.drop_first());
                }
                return PayloadPoll::Ready(Some(item));
            },
            None => {},
        }
        if self.eof {
            return PayloadPoll::Ready(None);
        }
        set_waker(&mut self.task, waker);
        PayloadPoll::Pending
    }

    /// The decoding side hands over a piece, or (`None`) the end, and wakes the reader.
    pub fn feed_data(&mut self, data: Option<D>)
        ensures
            match data {
                Some(d) => final(self).items() == old(self).items().push(Ok(d))
                    && final(self).is_eof() == old(self).is_eof(),
                None => final(self).items() == old(self).items() && final(self).is_eof(),
            },
            final(self).task() is None,
            final(self).woken() == old(self).woken() + slot_wakers(old(self).task()),
    {
        match data {
            Some(d) => self.items.push_back(Ok(d)),
            None => self.eof = true,
        }
        let woke = wake_slot(&mut self.task);
        proof {
            self.woken@ = self.woken@ + woke@;
        }
    }

    /// The decoding side hands over an error in place of the next piece, and wakes the
    /// reader.
    pub fn feed_error(&mut self, err: E)
        ensures
            final(self).items() == old(self).items().push(Err(err)),
            final(self).is_eof() == old(self).is_eof(),
            final(self).task() is None,
            final(self).woken() == old(self).woken() + slot_wakers(old(self).task()),
    {
        self.items.push_back(Err(err));
        let woke = wake_slot(&mut self.task);
        proof {
            self.woken@ = self.woken@ + woke@;
        }
    }
}

impl<D, E> Default for StreamInner<D, E> {
    fn default() -> (r: Self)
        ensures
            r.items() == Seq::<Result<D, E>>::empty(),
            !r.is_eof(),
    {
        StreamInner::new()
    }
}

/// What reading the next item of a body from the connection gave.
#[derive(Debug)]
pub enum BodyRead {
    /// The connection ended first.
    Eof,
    /// A piece of the body.
    Data(bytes::Bytes),
    /// The end of a body in pieces.
    End,
    /// Decoding failed.
    Failed(DecodeError),
}

/// A body read from the connection as it is asked for, mainly by clients: the source to
/// read from, the decoder that frames the body, and whether it was read to its end.
pub struct FramedPayload<T> {
    io_source: T,
    payload_decoder: PayloadDecoder<FixedBodyDecoder, ChunkedBodyDecoder>,
    eof: bool,
}

impl<T> FramedPayload<T> {
    pub closed spec fn source(self) -> T {
        self.io_source
    }

    pub closed spec fn decoder(self) -> PayloadDecoder<FixedBodyDecoder, ChunkedBodyDecoder> {
        self.payload_decoder
    }

    /// Whether the body was read to its end.
    pub closed spec fn is_eof(self) -> bool {
        self.eof
    }

    /// A body read from `io_source` through `payload_decoder`, nothing read yet.
    pub fn new(io_source: T, payload_decoder: PayloadDecoder<FixedBodyDecoder, ChunkedBodyDecoder>) -> (r: Self)
        ensures
            r.source() == io_source,
            r.decoder() == payload_decoder,
            !r.is_eof(),
    {
        FramedPayload { io_source, payload_decoder, eof: false }
    }

    /// How the body is delivered, as its decoder says.
    pub fn stream_hint(&self) -> (r: StreamHint)
        ensures
            r == self.decoder().hint_spec(),
    {
        self.payload_decoder.hint()
    }

    /// The source read from, and the decoder that frames the body, both lent for
    /// change.
    pub fn parts_mut(&mut self) -> ((io, dec): (&mut T, &mut PayloadDecoder<FixedBodyDecoder, ChunkedBodyDecoder>))
        ensures
            *io == old(self).source(),
            *dec == old(self).decoder(),
            final(self).source() == *final(io),
            final(self).decoder() == *final(dec),
            final(self).is_eof() == old(self).is_eof(),
    {
        (&mut self.io_source, &mut self.payload_decoder)
    }

    /// The source read from, handed back.
    pub fn into_source(self) -> (r: T)
        ensures
            r == self.source(),
    {
        self.io_source
    }

    /// Whether another item must be read from the connection to answer the next ask:
    /// not once the end was read, nor where there is no body. A body of fixed length
    /// is read once: asking marks it read to its end.
    pub fn begin_read(&mut self) -> (r: bool)
        ensures
            (r, final(self).is_eof()) == begin_spec(old(self).is_eof(), old(self).decoder()),
            r == (!old(self).is_eof() && !(old(self).decoder() is Empty)),
            final(self).is_eof() == (old(self).is_eof() || old(self).decoder() is Fixed),
            final(self).source() == old(self).source(),
            final(self).decoder() == old(self).decoder(),
    {
        if self.eof {
            return false;
        }
        match &self.payload_decoder {
            PayloadDecoder::Empty => false,
            PayloadDecoder::Fixed(_) => {
                self.eof = true;
                true
            },
            PayloadDecoder::Streamed(_) => true,
        }
    }

    /// The answer to an ask, from what the read gave: a piece, the end (`None`, after
    /// which the body is read to its end), or an error; an early end of the connection
    /// is `DecodeError::UnexpectedEof`.
    pub fn finish_read(&mut self, read: BodyRead) -> (r: Option<Result<bytes::Bytes, HttpError>>)
        ensures
            (final(self).is_eof(), r) == finish_spec(old(self).is_eof(), read),
            final(self).source() == old(self).source(),
            final(self).decoder() == old(self).decoder(),
            match read {
                BodyRead::Eof => r matches Some(Err(HttpError::H1DecodeError(DecodeError::UnexpectedEof)))
                    && final(self).is_eof() == old(self).is_eof(),
                BodyRead::Data(b) => r == Some(Ok::<bytes::Bytes, HttpError>(b)) && final(self).is_eof()
                    == old(self).is_eof(),
                BodyRead::End => r is None && final(self).is_eof(),
                BodyRead::Failed(e) => r == Some(Err::<bytes::Bytes, HttpError>(HttpError::H1DecodeError(e)))
                    && final(self).is_eof() == old(self).is_eof(),
            },
    {
        match read {
            BodyRead::Eof => Some(Err(HttpError::H1DecodeError(DecodeError::UnexpectedEof))),
            BodyRead::Data(b) => Some(Ok(b)),
            BodyRead::End => {
                self.eof = true;
                None
            },
            BodyRead::Failed(e) => Some(Err(HttpError::H1DecodeError(e))),
        }
    }
}


/// What the decoding side hands the reader of a body.
#[derive(Debug)]
pub enum Feed {
    /// A piece of the body.
    Piece(bytes::Bytes),
    /// The end of a body in pieces.
    End,
    /// The error that stopped the body.
    Error(PayloadError),
}

/// One step of filling a body from the connection: what its reader is handed, and
/// whether filling goes on (`None`) or stops, well or with an error.
#[derive(Debug)]
pub struct FillStep {
    pub feed: Feed,
    pub outcome: Option<Result<(), HttpError>>,
}

/// The step for what was read for the body: a piece is handed over and filling goes on
/// (a body of fixed length is then complete); the end of a body in pieces is handed over and filling goes on
/// to its completion; an early end of the connection hands over `UnexpectedEof` and
/// stops with `DecodeError::UnexpectedEof`; a decoding error hands over `Decode` and
/// stops with that error.
pub fn fill_step(read: BodyRead) -> (r: FillStep)
    ensures
        match read {
            BodyRead::Data(b) => r.feed == Feed::Piece(b) && r.outcome is None,
            BodyRead::End => r.feed is End && r.outcome is None,
            BodyRead::Eof => r.feed matches Feed::Error(PayloadError::UnexpectedEof) && r.outcome matches Some(
                Err(HttpError::H1DecodeError(DecodeError::UnexpectedEof)),
            ),
            BodyRead::Failed(e) => r.feed matches Feed::Error(PayloadError::Decode) && r.outcome == Some(
                Err::<(), HttpError>(HttpError::H1DecodeError(e)),
            ),
        },
{
    match read {
        BodyRead::Data(b) => FillStep { feed: Feed::Piece(b), outcome: None },
        BodyRead::End => FillStep { feed: Feed::End, outcome: None },
        BodyRead::Eof => FillStep {
            feed: Feed::Error(PayloadError::UnexpectedEof),
            outcome: Some(Err(HttpError::H1DecodeError(DecodeError::UnexpectedEof))),
        },
        BodyRead::Failed(e) => FillStep {
            feed: Feed::Error(PayloadError::Decode),
            outcome: Some(Err(HttpError::H1DecodeError(e))),
        },
    }
}


/// A poll of a body in pieces holding `items` (`eof`: its end was fed): the oldest
/// item, else the end once fed, else nothing yet.
pub open spec fn poll_stream<T>(items: Seq<T>, eof: bool) -> (Seq<T>, PayloadPoll<T>) {
    if items.len() > 0 {
        (items.drop_first(), PayloadPoll::Ready(Some(items[0])))
    } else if eof {
        (items, PayloadPoll::Ready(None))
    } else {
        (items, PayloadPoll::Pending)
    }
}

/// What `n` polls in a row give.
pub open spec fn poll_stream_n<T>(items: Seq<T>, eof: bool, n: nat) -> Seq<PayloadPoll<T>>
    decreases n,
{
    if n == 0 {
        Seq::empty()
    } else {
        let (rest, p) = poll_stream(items, eof);
        seq![p] + poll_stream_n(rest, eof, (n - 1) as nat)
    }
}

/// A body in pieces is read in the order it was fed: once its end was fed, polls give
/// each item in turn, then the end, and the end again after that.
pub proof fn lemma_stream_in_order<T>(items: Seq<T>, extra: nat)
    ensures
        poll_stream_n(items, true, items.len() + extra + 1) == items.map_values(|x: T| PayloadPoll::Ready(Some(x)))
            + Seq::new(extra + 1, |_i: int| PayloadPoll::<T>::Ready(None)),
    decreases items.len() + extra,
{
    let lhs = poll_stream_n(items, true, items.len() + extra + 1);
    let tail = Seq::new(extra + 1, |_i: int| PayloadPoll::<T>::Ready(None));
    if items.len() > 0 {
        let rest = items.drop_first();
        lemma_stream_in_order(rest, extra);
        let n = (items.len() + extra + 1) as nat;
        assert(poll_stream(items, true) == (rest, PayloadPoll::Ready(Some(items[0]))));
        assert(lhs == seq![PayloadPoll::Ready(Some(items[0]))] + poll_stream_n(rest, true, (n - 1) as nat));
        assert((n - 1) as nat == rest.len() + extra + 1);
        let f = |x: T| PayloadPoll::Ready(Some(x));
        assert(items.map_values(f) =~= seq![f(items[0])] + rest.map_values(f));
        assert(lhs =~= items.map_values(f) + tail);
    } else if extra > 0 {
        lemma_stream_in_order(items, (extra - 1) as nat);
        let n = (extra + 1) as nat;
        assert(poll_stream(items, true) == (items, PayloadPoll::<T>::Ready(None)));
        assert(lhs == seq![PayloadPoll::<T>::Ready(None)] + poll_stream_n(items, true, (n - 1) as nat));
        let f = |x: T| PayloadPoll::Ready(Some(x));
        assert(items.map_values(f) =~= Seq::<PayloadPoll<T>>::empty());
        assert(poll_stream_n(items, true, (n - 1) as nat) =~= Seq::new(extra, |_i: int| PayloadPoll::<T>::Ready(None)));
        assert(lhs =~= items.map_values(f) + tail);
    } else {
        assert(poll_stream(items, true) == (items, PayloadPoll::<T>::Ready(None)));
        assert(lhs == seq![PayloadPoll::<T>::Ready(None)] + poll_stream_n(items, true, 0));
        let f = |x: T| PayloadPoll::Ready(Some(x));
        assert(items.map_values(f) =~= Seq::<PayloadPoll<T>>::empty());
        assert(lhs =~= items.map_values(f) + tail);
    }
}


/// One event on a body in pieces: a piece fed, its end fed, or a poll of the reader.
pub enum StreamOp<T> {
    Feed(T),
    End,
    Poll,
}

/// A body in pieces after `ops` in turn, from `items` not yet read (`eof`: its end was
/// fed): what is left unread, whether the end was fed, the pieces fed, the pieces the
/// reader got, and whether a poll gave the end.
pub open spec fn run_stream<T>(items: Seq<T>, eof: bool, ops: Seq<StreamOp<T>>) -> (Seq<T>, bool, Seq<T>, Seq<T>, bool)
    decreases ops.len(),
{
    if ops.len() == 0 {
        (items, eof, Seq::empty(), Seq::empty(), false)
    } else {
        let (left, e, fed, got, ended) = run_stream(items, eof, ops.drop_last());
        match ops.last() {
            StreamOp::Feed(x) => (left.push(x), e, fed.push(x), got, ended),
            StreamOp::End => (left, true, fed, got, ended),
            StreamOp::Poll => {
                let (rest, p) = poll_stream(left, e);
                match p {
                    PayloadPoll::Ready(Some(x)) => (rest, e, fed, got.push(x), ended),
                    PayloadPoll::Ready(None) => (rest, e, fed, got, true),
                    PayloadPoll::Pending => (rest, e, fed, got, ended),
                }
            },
        }
    }
}

/// The law of a body in pieces under any interleaving of feeds and polls: from nothing
/// fed, the reader gets the pieces in the order they were fed, each once; what it has
/// not got yet is exactly what waits; and it sees the end only once the end was fed and
/// every piece fed before was read.
pub proof fn lemma_stream_interleaved<T>(ops: Seq<StreamOp<T>>)
    ensures
        ({
            let (left, eof, fed, got, ended) = run_stream(Seq::<T>::empty(), false, ops);
            &&& got.len() <= fed.len()
            &&& got == fed.take(got.len() as int)
            &&& left == fed.skip(got.len() as int)
            &&& ended ==> eof
        }),
    decreases ops.len(),
{
    if ops.len() > 0 {
        lemma_stream_interleaved(ops.drop_last());
        let (left, e, fed, got, ended) = run_stream(Seq::<T>::empty(), false, ops.drop_last());
        match ops.last() {
            StreamOp::Feed(x) => {
                assert(fed.push(x).take(got.len() as int) =~= fed.take(got.len() as int));
                assert(fed.push(x).skip(got.len() as int) =~= left.push(x));
            },
            StreamOp::End => {},
            StreamOp::Poll => {
                if left.len() > 0 {
                    assert(left[0] == fed[got.len() as int]);
                    assert(got.push(left[0]) =~= fed.take(got.len() + 1int));
                    assert(left.drop_first() =~= fed.skip(got.len() + 1int));
                }
            },
        }
    }
}

/// Whether an ask of a framed body reads from the connection, and whether the body
/// counts as read to its end after the ask began: not once read to its end, nor where
/// there is no body; a body of fixed length counts as read once asked for.
pub open spec fn begin_spec(eof: bool, dec: PayloadDecoder<FixedBodyDecoder, ChunkedBodyDecoder>) -> (bool, bool) {
    (!eof && !(dec is Empty), eof || dec is Fixed)
}

/// Whether the body counts as read to its end after the read gave `read`, and the
/// answer: a piece, an error (an early end of the connection is `UnexpectedEof`), or
/// the end, after which the body is read to its end.
pub open spec fn finish_spec(eof: bool, read: BodyRead) -> (bool, Option<Result<bytes::Bytes, HttpError>>) {
    match read {
        BodyRead::Eof => (eof, Some(Err(HttpError::H1DecodeError(DecodeError::UnexpectedEof)))),
        BodyRead::Data(b) => (eof, Some(Ok(b))),
        BodyRead::End => (true, None),
        BodyRead::Failed(e) => (eof, Some(Err(HttpError::H1DecodeError(e)))),
    }
}

/// One ask for the next piece of a framed body: `begin_read`, then, where it reads,
/// `finish_read` of what the read gave (`read`); the end flag after it, and the answer.
pub open spec fn ask_step(eof: bool, dec: PayloadDecoder<FixedBodyDecoder, ChunkedBodyDecoder>, read: BodyRead) -> (
    bool,
    Option<Result<bytes::Bytes, HttpError>>,
) {
    let (reads, eof1) = begin_spec(eof, dec);
    if reads {
        finish_spec(eof1, read)
    } else {
        (eof1, None)
    }
}

/// The answers of asks in turn, from the end flag `eof`, the reads giving `reads`.
pub open spec fn ask_answers(
    eof: bool,
    dec: PayloadDecoder<FixedBodyDecoder, ChunkedBodyDecoder>,
    reads: Seq<BodyRead>,
) -> Seq<Option<Result<bytes::Bytes, HttpError>>>
    decreases reads.len(),
{
    if reads.len() == 0 {
        Seq::empty()
    } else {
        let (e, a) = ask_step(eof, dec, reads[0]);
        seq![a] + ask_answers(e, dec, reads.drop_first())
    }
}

/// The law of asking a framed body in turn: a body read to its end, or with no body,
/// answers the end to every ask; a body of fixed length answers only its first ask;
/// and once a body in pieces answered the end, every later ask answers the end.
pub proof fn lemma_ask_answers(
    eof: bool,
    dec: PayloadDecoder<FixedBodyDecoder, ChunkedBodyDecoder>,
    reads: Seq<BodyRead>,
)
    ensures
        ask_answers(eof, dec, reads).len() == reads.len(),
        (eof || dec is Empty) ==> forall|i: int| 0 <= i < reads.len() ==> (#[trigger] ask_answers(eof, dec, reads)[i]) is None,
        dec is Fixed ==> forall|i: int| 1 <= i < reads.len() ==> (#[trigger] ask_answers(eof, dec, reads)[i]) is None,
        forall|i: int, j: int|
            #![trigger reads[i], ask_answers(eof, dec, reads)[j]]
            0 <= i < j < reads.len() && reads[i] is End ==> ask_answers(eof, dec, reads)[j] is None,
    decreases reads.len(),
{
    if reads.len() > 0 {
        let (e, a) = ask_step(eof, dec, reads[0]);
        let rest = reads.drop_first();
        lemma_ask_answers(e, dec, rest);
        let xs = ask_answers(eof, dec, reads);
        assert(xs == seq![a] + ask_answers(e, dec, rest));
        assert forall|i: int| 1 <= i < reads.len() implies #[trigger] xs[i] == ask_answers(e, dec, rest)[i - 1] by {}
        if dec is Fixed {
            assert(e);
        }
        assert forall|i: int, j: int|
            #![trigger reads[i], xs[j]]
            0 <= i < j < reads.len() && reads[i] is End implies xs[j] is None by {
            assert(xs[j] == ask_answers(e, dec, rest)[j - 1]);
            if i == 0 {
                assert(e || dec is Empty);
            } else {
                assert(rest[i - 1] == reads[i]);
            }
        }
    }
}

impl From<std::io::Error> for PayloadError {
    fn from(v: std::io::Error) -> (r: Self) {
        PayloadError::Io(v)
    }
}

impl FromSpecImpl<std::io::Error> for PayloadError {
    open spec fn obeys_from_spec() -> bool {
        true
    }

    open spec fn from_spec(v: std::io::Error) -> Self {
        PayloadError::Io(v)
    }
}

} // verus!
