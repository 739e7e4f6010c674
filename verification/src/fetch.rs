//! The range fetcher as a state machine.
//!
//! Fetching one byte range alternates work on the network and on disk with
//! decisions about what to do next. The decisions live here: `RangeFetch`
//! says which action is due, the caller performs it and reports what
//! happened, and `step` moves on. Retries, the cap on what is written, and
//! cancellation are all decided by the machine.

use vstd::prelude::*;
use crate::probe::{OK, PARTIAL_CONTENT};
use crate::types::{DownloadError, Piece, SegmentState};

verus! {

/// How many transport failures end a fetch.
pub const MAX_RETRIES: u32 = 3;

/// The pause before the first doubling, in milliseconds.
pub const BACKOFF_BASE_MILLIS: u64 = 100;

/// After this many doublings the pause stops growing.
pub const BACKOFF_MAX_DOUBLINGS: u32 = 5;

/// The inclusive byte positions that a request asks for.
#[derive(Debug, Clone, Copy, PartialEq, Eq, Structural)]
pub struct ByteSpan {
    pub first: i64,
    pub last: i64,
}

/// Where a fetch stands.
#[derive(Debug, Clone, Copy, PartialEq, Eq, Structural)]
pub enum FetchPhase {
    /// About to look at the cancel handle before a request.
    Polling,
    /// A request is due.
    Sending,
    /// A response arrived; the scratch file must be opened.
    Opening,
    /// Waiting for the next chunk of the body.
    Reading,
    /// A chunk arrived, and part of it is to be written.
    Writing,
    /// Bytes were written; the progress callback is due.
    Notifying,
    /// Cancellation was seen mid-stream; what is buffered is flushed first.
    FlushingOnCancel,
    /// The stream broke; what is buffered is flushed before the retry.
    FlushingOnError,
    /// The body is complete; the last flush.
    FlushingFinal,
    /// Waiting out the pause between two attempts.
    Sleeping,
    /// Nothing more to do.
    Done,
}

/// What the caller must do next.
#[derive(Debug, Clone, Copy, PartialEq, Eq, Structural)]
pub enum FetchAction {
    /// Read the cancel handle and report `CancelPolled`.
    PollCancel,
    /// Send the request, with a `Range` header for `range` if there is one.
    Send { range: Option<ByteSpan> },
    /// Open the scratch file, appending to it or truncating it.
    Open { append: bool },
    /// Wait for the next chunk of the body.
    ReadChunk,
    /// Write the first `len` bytes of the chunk that was just read.
    Write { len: u64 },
    /// Tell the progress callback that `delta` bytes were written.
    Notify { delta: u64 },
    /// Flush the writer.
    Flush,
    /// Sleep for `millis` milliseconds.
    Sleep { millis: u64 },
    /// The fetch is over: take the result with `finish`.
    Done,
}

/// What happened when the caller performed the action.
#[derive(Debug)]
pub enum FetchEvent {
    CancelPolled { cancelled: bool },
    /// The origin answered, with this status.
    Responded { status: u16 },
    SendFailed,
    Opened,
    OpenFailed { cause: String },
    /// A chunk of `len` bytes arrived; `cancelled` is the cancel handle as
    /// read right after it.
    Chunk { len: u64, cancelled: bool },
    /// The stream gave an error; `cancelled` as for `Chunk`.
    ChunkFailed { cancelled: bool },
    BodyEnded,
    Written,
    WriteFailed { cause: String },
    Notified,
    Flushed,
    FlushFailed { cause: String },
    Woke,
}

/// The whole state of a fetch, as plain values.
pub struct FetchModel {
    pub piece: Piece,
    /// Transport failures so far.
    pub retries: u32,
    /// Bytes that the current response may still contribute, counted when the
    /// file was opened.
    pub remaining: u64,
    /// Bytes written from the current response.
    pub written: u64,
    /// Bytes of the chunk at hand that are to be written.
    pub take: u64,
    pub phase: FetchPhase,
    /// Why the fetch ended, if it ended without success.
    pub failure: Option<DownloadError>,
}

/// The pause after `retries` failures: the base doubled `retries` times, but
/// no more than `BACKOFF_MAX_DOUBLINGS` times.
pub open spec fn backoff_millis(retries: u32) -> int {
    BACKOFF_BASE_MILLIS * vstd::arithmetic::power2::pow2(
        if retries < BACKOFF_MAX_DOUBLINGS {
            retries as nat
        } else {
            BACKOFF_MAX_DOUBLINGS as nat
        },
    )
}

/// Whether a response with this status carries the resource: partial
/// content, or the whole of it.
pub open spec fn accepted_status(status: u16) -> bool {
    status == PARTIAL_CONTENT || status == OK
}

/// How many bytes a response may contribute to `piece`: up to its length
/// where that is known, and otherwise what its counter can still hold.
pub open spec fn budget(piece: Piece) -> int {
    if piece.bounded() {
        piece.length - piece.downloaded
    } else {
        i64::MAX - piece.downloaded
    }
}

impl FetchModel {
    /// The state in which a fetch of `piece` begins.
    pub open spec fn initial(piece: Piece) -> FetchModel {
        FetchModel {
            piece: Piece { state: SegmentState::Downloading, ..piece },
            retries: 0,
            remaining: 0,
            written: 0,
            take: 0,
            phase: FetchPhase::Polling,
            failure: None,
        }
    }

    /// Whether a response is being read.
    pub open spec fn streaming(self) -> bool {
        self.phase == FetchPhase::Reading || self.phase == FetchPhase::Writing || self.phase
            == FetchPhase::Notifying
    }

    /// The invariant of the machine. Among the rest: a range of known length
    /// never holds more than its length, and holds exactly its length once
    /// the last flush is due.
    pub open spec fn wf(self) -> bool {
        &&& self.piece.wf()
        &&& self.retries <= MAX_RETRIES
        &&& self.phase != FetchPhase::Done ==> self.retries < MAX_RETRIES
        &&& self.phase == FetchPhase::Sleeping ==> self.retries >= 1
        &&& self.streaming() ==> self.written <= self.remaining && self.remaining - self.written
            == budget(self.piece)
        &&& self.phase == FetchPhase::Writing ==> 0 < self.take <= self.remaining - self.written
        &&& self.failure is Some ==> self.phase == FetchPhase::Done
        &&& self.phase == FetchPhase::Done && self.failure is None ==> self.piece.state
            == SegmentState::Finished
        &&& (self.phase == FetchPhase::FlushingFinal || (self.phase == FetchPhase::Done
            && self.failure is None)) && self.piece.bounded() ==> self.piece.downloaded
            == self.piece.length
    }

    /// The state after a transport failure: one more retry is counted, and
    /// the fetch either pauses or, with the budget used up, fails.
    pub open spec fn after_transport_failure(self) -> FetchModel {
        if self.retries + 1 >= MAX_RETRIES {
            FetchModel {
                piece: Piece { state: SegmentState::Failed, ..self.piece },
                retries: MAX_RETRIES,
                phase: FetchPhase::Done,
                failure: Some(DownloadError::MaxRetryExceeded),
                ..self
            }
        } else {
            FetchModel { retries: (self.retries + 1) as u32, phase: FetchPhase::Sleeping, ..self }
        }
    }

    /// The state after a body has ended, or has brought an empty chunk. A
    /// range of known length that still lacks bytes has not been served:
    /// what is buffered is flushed and the attempt counts as failed. Any
    /// other range is complete, and the last flush is due.
    pub open spec fn after_body_end(self) -> FetchModel {
        if self.piece.bounded() && self.written < self.remaining {
            FetchModel { phase: FetchPhase::FlushingOnError, ..self }
        } else {
            FetchModel { phase: FetchPhase::FlushingFinal, ..self }
        }
    }

    /// The state in which the fetch has ended with `error`.
    pub open spec fn failed(self, error: DownloadError) -> FetchModel {
        FetchModel { phase: FetchPhase::Done, failure: Some(error), ..self }
    }

    /// The action that is due in this state.
    pub open spec fn action(self) -> FetchAction {
        match self.phase {
            FetchPhase::Polling => FetchAction::PollCancel,
            FetchPhase::Sending => FetchAction::Send {
                range: if self.piece.bounded() {
                    Some(
                        ByteSpan {
                            first: (self.piece.offset + self.piece.downloaded) as i64,
                            last: (self.piece.offset + self.piece.length - 1) as i64,
                        },
                    )
                } else {
                    None
                },
            },
            FetchPhase::Opening => FetchAction::Open { append: self.piece.downloaded > 0 },
            FetchPhase::Reading => FetchAction::ReadChunk,
            FetchPhase::Writing => FetchAction::Write { len: self.take },
            FetchPhase::Notifying => FetchAction::Notify { delta: self.take },
            FetchPhase::FlushingOnCancel | FetchPhase::FlushingOnError
            | FetchPhase::FlushingFinal => FetchAction::Flush,
            FetchPhase::Sleeping => FetchAction::Sleep { millis: backoff_millis(self.retries) as u64 },
            FetchPhase::Done => FetchAction::Done,
        }
    }

    /// The state after `event`. A response is taken only with a status
    /// that carries the resource; any other counts as a failed attempt. An
    /// event that does not answer the action that was due ends the fetch
    /// with `InvalidState`; once the fetch is
    /// over nothing changes any more.
    pub open spec fn next(self, event: FetchEvent) -> FetchModel {
        match (self.phase, event) {
            (FetchPhase::Done, _) => self,
            (FetchPhase::Polling, FetchEvent::CancelPolled { cancelled }) => if cancelled {
                self.failed(DownloadError::Cancelled)
            } else {
                FetchModel { phase: FetchPhase::Sending, ..self }
            },
            (FetchPhase::Sending, FetchEvent::Responded { status }) => if accepted_status(status) {
                FetchModel { phase: FetchPhase::Opening, ..self }
            } else {
                self.after_transport_failure()
            },
            (FetchPhase::Sending, FetchEvent::SendFailed) => self.after_transport_failure(),
            (FetchPhase::Opening, FetchEvent::Opened) => FetchModel {
                phase: FetchPhase::Reading,
                remaining: budget(self.piece) as u64,
                written: 0,
                ..self
            },
            (FetchPhase::Opening, FetchEvent::OpenFailed { cause }) => self.failed(
                DownloadError::Disk(cause),
            ),
            (FetchPhase::Reading, FetchEvent::Chunk { len, cancelled }) => if cancelled {
                FetchModel { phase: FetchPhase::FlushingOnCancel, ..self }
            } else if self.written == self.remaining {
                FetchModel { phase: FetchPhase::FlushingFinal, ..self }
            } else if len == 0 {
                self.after_body_end()
            } else {
                FetchModel {
                    phase: FetchPhase::Writing,
                    take: if len <= self.remaining - self.written {
                        len
                    } else {
                        (self.remaining - self.written) as u64
                    },
                    ..self
                }
            },
            (FetchPhase::Reading, FetchEvent::ChunkFailed { cancelled }) => if cancelled {
                FetchModel { phase: FetchPhase::FlushingOnCancel, ..self }
            } else {
                FetchModel { phase: FetchPhase::FlushingOnError, ..self }
            },
            (FetchPhase::Reading, FetchEvent::BodyEnded) => self.after_body_end(),
            (FetchPhase::Writing, FetchEvent::Written) => FetchModel {
                phase: FetchPhase::Notifying,
                piece: Piece {
                    downloaded: (self.piece.downloaded + self.take) as i64,
                    ..self.piece
                },
                written: (self.written + self.take) as u64,
                ..self
            },
            (FetchPhase::Writing, FetchEvent::WriteFailed { cause }) => self.failed(
                DownloadError::Disk(cause),
            ),
            (FetchPhase::Notifying, FetchEvent::Notified) => if self.piece.bounded()
                && self.written >= self.remaining {
                FetchModel { phase: FetchPhase::FlushingFinal, ..self }
            } else {
                FetchModel { phase: FetchPhase::Reading, ..self }
            },
            (FetchPhase::FlushingOnCancel, FetchEvent::Flushed) => self.failed(
                DownloadError::Cancelled,
            ),
            (FetchPhase::FlushingOnCancel, FetchEvent::FlushFailed { cause }) => self.failed(
                DownloadError::Cancelled,
            ),
            (FetchPhase::FlushingOnError, FetchEvent::Flushed) => self.after_transport_failure(),
            (FetchPhase::FlushingOnError, FetchEvent::FlushFailed { cause }) =>
                self.after_transport_failure(),
            (FetchPhase::FlushingFinal, FetchEvent::Flushed) => FetchModel {
                phase: FetchPhase::Done,
                piece: Piece { state: SegmentState::Finished, ..self.piece },
                ..self
            },
            (FetchPhase::FlushingFinal, FetchEvent::FlushFailed { cause }) => self.failed(
                DownloadError::Disk(cause),
            ),
            (FetchPhase::Sleeping, FetchEvent::Woke) => FetchModel {
                phase: FetchPhase::Polling,
                ..self
            },
            _ => self.failed(DownloadError::InvalidState),
        }
    }

    /// The state after a whole sequence of events.
    pub open spec fn run(self, events: Seq<FetchEvent>) -> FetchModel
        decreases events.len(),
    {
        if events.len() == 0 {
            self
        } else {
            self.run(events.drop_last()).next(events.last())
        }
    }

    /// The bytes that a sequence of events commits to the scratch file: the
    /// sum of the lengths of the writes that were reported as done.
    pub open spec fn committed(self, events: Seq<FetchEvent>) -> int
        decreases events.len(),
    {
        if events.len() == 0 {
            0
        } else {
            let before = self.run(events.drop_last());
            self.committed(events.drop_last()) + if before.phase == FetchPhase::Writing
                && events.last() is Written {
                before.take as int
            } else {
                0
            }
        }
    }
}

/// What a fetch in state `model` hands back: the range once it is finished,
/// the failure if there was one, and `InvalidState` while it is still running.
pub open spec fn outcome(model: FetchModel) -> Result<Piece, DownloadError> {
    if model.phase != FetchPhase::Done {
        Err(DownloadError::InvalidState)
    } else {
        match model.failure {
            Some(error) => Err(error),
            None => Ok(model.piece),
        }
    }
}

/// The pause before the attempt that follows `retries` failures.
pub fn backoff(retries: u32) -> (millis: u64)
    ensures
        millis == backoff_millis(retries),
{
    let doublings: u32 = if retries < BACKOFF_MAX_DOUBLINGS {
        retries
    } else {
        BACKOFF_MAX_DOUBLINGS
    };
    let mut millis: u64 = BACKOFF_BASE_MILLIS;
    let mut done: u32 = 0;
    proof {
        vstd::arithmetic::power2::lemma2_to64();
    }
    while done < doublings
        invariant
            done <= doublings <= 5,
            millis == 100 * vstd::arithmetic::power2::pow2(done as nat),
            millis <= 3200,
        decreases doublings - done,
    {
        proof {
            vstd::arithmetic::power2::lemma2_to64();
            vstd::arithmetic::power2::lemma_pow2_unfold((done + 1) as nat);
            assert(done == 0 || done == 1 || done == 2 || done == 3 || done == 4);
        }
        millis = millis * 2;
        done = done + 1;
    }
    millis
}

/// A fetch of one byte range in progress.
pub struct RangeFetch {
    m: FetchModel,
}

impl View for RangeFetch {
    type V = FetchModel;

    closed spec fn view(&self) -> FetchModel {
        self.m
    }
}

fn fail(m: &mut FetchModel, error: DownloadError)
    ensures
        *final(m) == old(m).failed(error),
{
    m.phase = FetchPhase::Done;
    m.failure = Some(error);
}

fn end_body(m: &mut FetchModel)
    ensures
        *final(m) == old(m).after_body_end(),
{
    if m.piece.length > 0 && m.written < m.remaining {
        m.phase = FetchPhase::FlushingOnError;
    } else {
        m.phase = FetchPhase::FlushingFinal;
    }
}

fn count_transport_failure(m: &mut FetchModel)
    requires
        old(m).retries < MAX_RETRIES,
    ensures
        *final(m) == old(m).after_transport_failure(),
{
    if m.retries + 1 >= MAX_RETRIES {
        m.piece.state = SegmentState::Failed;
        m.retries = MAX_RETRIES;
        m.phase = FetchPhase::Done;
        m.failure = Some(DownloadError::MaxRetryExceeded);
    } else {
        m.retries = m.retries + 1;
        m.phase = FetchPhase::Sleeping;
    }
}

impl RangeFetch {
    #[verifier::type_invariant]
    spec fn inv(self) -> bool {
        self.m.wf()
    }

    /// Begins a fetch of `piece`, which may already hold bytes from an
    /// earlier attempt. A range that breaks its invariant is refused.
    pub fn new(piece: Piece) -> (made: Result<RangeFetch, DownloadError>)
        ensures
            match made {
                Ok(fetch) => piece.wf() && fetch@ == FetchModel::initial(piece),
                Err(error) => !piece.wf() && error == DownloadError::InvalidState,
            },
    {
        let sound = piece.offset >= 0 && piece.downloaded >= 0 && (piece.length <= 0 || (
        piece.downloaded <= piece.length && piece.offset <= i64::MAX - piece.length));
        if !sound {
            return Err(DownloadError::InvalidState);
        }
        let mut piece = piece;
        piece.state = SegmentState::Downloading;
        Ok(
            RangeFetch {
                m: FetchModel {
                    piece,
                    retries: 0,
                    remaining: 0,
                    written: 0,
                    take: 0,
                    phase: FetchPhase::Polling,
                    failure: None,
                },
            },
        )
    }

    /// The action that the caller must perform now.
    pub fn action(&self) -> (due: FetchAction)
        ensures
            due == self@.action(),
    {
        proof {
            use_type_invariant(self);
        }
        match self.m.phase {
            FetchPhase::Polling => FetchAction::PollCancel,
            FetchPhase::Sending => {
                if self.m.piece.length > 0 {
                    FetchAction::Send {
                        range: Some(
                            ByteSpan {
                                first: self.m.piece.offset + self.m.piece.downloaded,
                                last: self.m.piece.offset + self.m.piece.length - 1,
                            },
                        ),
                    }
                } else {
                    FetchAction::Send { range: None }
                }
            },
            FetchPhase::Opening => FetchAction::Open { append: self.m.piece.downloaded > 0 },
            FetchPhase::Reading => FetchAction::ReadChunk,
            FetchPhase::Writing => FetchAction::Write { len: self.m.take },
            FetchPhase::Notifying => FetchAction::Notify { delta: self.m.take },
            FetchPhase::FlushingOnCancel => FetchAction::Flush,
            FetchPhase::FlushingOnError => FetchAction::Flush,
            FetchPhase::FlushingFinal => FetchAction::Flush,
            FetchPhase::Sleeping => FetchAction::Sleep { millis: backoff(self.m.retries) },
            FetchPhase::Done => FetchAction::Done,
        }
    }

    /// Takes in what happened and moves to the next state.
    pub fn step(self, event: FetchEvent) -> (after: RangeFetch)
        ensures
            after@ == self@.next(event),
    {
        proof {
            use_type_invariant(&self);
            lemma_next_keeps_wf(self.m, event);
        }
        let mut m = self.m;
        match m.phase {
            FetchPhase::Done => {},
            FetchPhase::Polling => match event {
                FetchEvent::CancelPolled { cancelled } => {
                    if cancelled {
                        fail(&mut m, DownloadError::Cancelled);
                    } else {
                        m.phase = FetchPhase::Sending;
                    }
                },
                _ => fail(&mut m, DownloadError::InvalidState),
            },
            FetchPhase::Sending => match event {
                FetchEvent::Responded { status } => {
                    if status == PARTIAL_CONTENT || status == OK {
                        m.phase = FetchPhase::Opening;
                    } else {
                        count_transport_failure(&mut m);
                    }
                },
                FetchEvent::SendFailed => count_transport_failure(&mut m),
                _ => fail(&mut m, DownloadError::InvalidState),
            },
            FetchPhase::Opening => match event {
                FetchEvent::Opened => {
                    m.phase = FetchPhase::Reading;
                    m.remaining = if m.piece.length > 0 {
                        (m.piece.length - m.piece.downloaded) as u64
                    } else {
                        (i64::MAX - m.piece.downloaded) as u64
                    };
                    m.written = 0;
                },
                FetchEvent::OpenFailed { cause } => fail(&mut m, DownloadError::Disk(cause)),
                _ => fail(&mut m, DownloadError::InvalidState),
            },
            FetchPhase::Reading => match event {
                FetchEvent::Chunk { len, cancelled } => {
                    if cancelled {
                        m.phase = FetchPhase::FlushingOnCancel;
                    } else if m.written == m.remaining {
                        m.phase = FetchPhase::FlushingFinal;
                    } else if len == 0 {
                        end_body(&mut m);
                    } else {
                        let left = m.remaining - m.written;
                        m.phase = FetchPhase::Writing;
                        m.take = if len <= left {
                            len
                        } else {
                            left
                        };
                    }
                },
                FetchEvent::ChunkFailed { cancelled } => {
                    if cancelled {
                        m.phase = FetchPhase::FlushingOnCancel;
                    } else {
                        m.phase = FetchPhase::FlushingOnError;
                    }
                },
                FetchEvent::BodyEnded => end_body(&mut m),
                _ => fail(&mut m, DownloadError::InvalidState),
            },
            FetchPhase::Writing => match event {
                FetchEvent::Written => {
                    m.phase = FetchPhase::Notifying;
                    m.piece.downloaded = m.piece.downloaded + m.take as i64;
                    m.written = m.written + m.take;
                },
                FetchEvent::WriteFailed { cause } => fail(&mut m, DownloadError::Disk(cause)),
                _ => fail(&mut m, DownloadError::InvalidState),
            },
            FetchPhase::Notifying => match event {
                FetchEvent::Notified => {
                    if m.piece.length > 0 && m.written >= m.remaining {
                        m.phase = FetchPhase::FlushingFinal;
                    } else {
                        m.phase = FetchPhase::Reading;
                    }
                },
                _ => fail(&mut m, DownloadError::InvalidState),
            },
            FetchPhase::FlushingOnCancel => match event {
                FetchEvent::Flushed => fail(&mut m, DownloadError::Cancelled),
                FetchEvent::FlushFailed { cause } => fail(&mut m, DownloadError::Cancelled),
                _ => fail(&mut m, DownloadError::InvalidState),
            },
            FetchPhase::FlushingOnError => match event {
                FetchEvent::Flushed => count_transport_failure(&mut m),
                FetchEvent::FlushFailed { cause } => count_transport_failure(&mut m),
                _ => fail(&mut m, DownloadError::InvalidState),
            },
            FetchPhase::FlushingFinal => match event {
                FetchEvent::Flushed => {
                    m.phase = FetchPhase::Done;
                    m.piece.state = SegmentState::Finished;
                },
                FetchEvent::FlushFailed { cause } => fail(&mut m, DownloadError::Disk(cause)),
                _ => fail(&mut m, DownloadError::InvalidState),
            },
            FetchPhase::Sleeping => match event {
                FetchEvent::Woke => {
                    m.phase = FetchPhase::Polling;
                },
                _ => fail(&mut m, DownloadError::InvalidState),
            },
        }
        RangeFetch { m }
    }

    /// The range as it stands, with what has been committed so far: after a
    /// cancelled fetch this is where a later one resumes.
    pub fn piece(&self) -> (piece: &Piece)
        ensures
            *piece == self@.piece,
            piece.wf(),
    {
        proof {
            use_type_invariant(self);
        }
        &self.m.piece
    }

    /// Whether the fetch is over.
    pub fn is_done(&self) -> (done: bool)
        ensures
            done == (self@.phase == FetchPhase::Done),
    {
        match self.m.phase {
            FetchPhase::Done => true,
            _ => false,
        }
    }

    /// Ends the fetch and hands back its result.
    pub fn finish(self) -> (result: Result<Piece, DownloadError>)
        ensures
            result == outcome(self@),
            result is Ok ==> {
                &&& result->Ok_0.state == SegmentState::Finished
                &&& result->Ok_0.wf()
                &&& result->Ok_0.bounded() ==> result->Ok_0.downloaded == result->Ok_0.length
            },
    {
        proof {
            use_type_invariant(&self);
        }
        match self.m.phase {
            FetchPhase::Done => match self.m.failure {
                Some(error) => Err(error),
                None => Ok(self.m.piece),
            },
            _ => Err(DownloadError::InvalidState),
        }
    }
}

/// Two descriptors of the same range: they differ at most in what has been
/// downloaded and in the state.
pub open spec fn same_range(a: Piece, b: Piece) -> bool {
    &&& a.id == b.id
    &&& a.offset == b.offset
    &&& a.length == b.length
    &&& a.stream_type == b.stream_type
}

/// Whether `event`, arriving in state `model`, reports a failed attempt: a
/// request that could not be sent, a response whose status does not carry
/// the resource, or, once what was buffered is flushed, a body that broke
/// off or ended before the range was full.
pub open spec fn transport_failure(model: FetchModel, event: FetchEvent) -> bool {
    ||| model.phase == FetchPhase::Sending && event is SendFailed
    ||| model.phase == FetchPhase::Sending && event is Responded && !accepted_status(
        event->status,
    )
    ||| model.phase == FetchPhase::FlushingOnError && (event is Flushed || event is FlushFailed)
}

/// Whether `event`, arriving in state `model`, brings the news that the
/// fetch was cancelled.
pub open spec fn cancellation_seen(model: FetchModel, event: FetchEvent) -> bool {
    ||| model.phase == FetchPhase::Polling && event == (FetchEvent::CancelPolled {
        cancelled: true,
    })
    ||| model.phase == FetchPhase::Reading && event is Chunk && event->Chunk_cancelled
    ||| model.phase == FetchPhase::Reading && event == (FetchEvent::ChunkFailed {
        cancelled: true,
    })
}

/// Every step keeps the invariant of the machine and the identity of the
/// range: in particular a range never holds more bytes than its length,
/// whatever the origin sends, and never fewer than before.
pub proof fn lemma_next_keeps_wf(model: FetchModel, event: FetchEvent)
    requires
        model.wf(),
    ensures
        model.next(event).wf(),
        same_range(model.next(event).piece, model.piece),
        model.next(event).piece.downloaded >= model.piece.downloaded,
        model.next(event).retries >= model.retries,
{
}

/// What holds of one step holds of any number of them.
pub proof fn lemma_run_keeps_wf(model: FetchModel, events: Seq<FetchEvent>)
    requires
        model.wf(),
    ensures
        model.run(events).wf(),
        same_range(model.run(events).piece, model.piece),
        model.run(events).piece.downloaded == model.piece.downloaded + model.committed(events),
        model.committed(events) >= 0,
        model.run(events).retries >= model.retries,
    decreases events.len(),
{
    if events.len() > 0 {
        lemma_run_keeps_wf(model, events.drop_last());
        lemma_next_keeps_wf(model.run(events.drop_last()), events.last());
    }
}

/// The cap on writes. Whatever happens during a fetch, and however much the
/// origin sends, the scratch file of a range of known length never grows
/// beyond that length: an origin that ignores `Range` and sends the whole
/// resource cannot make the assembled file larger than the resource.
pub proof fn law_never_more_than_length(piece: Piece, events: Seq<FetchEvent>)
    requires
        piece.wf(),
        piece.bounded(),
    ensures
        piece.downloaded <= FetchModel::initial(piece).run(events).piece.downloaded <= piece.length,
        FetchModel::initial(piece).committed(events) <= piece.length - piece.downloaded,
{
    lemma_run_keeps_wf(FetchModel::initial(piece), events);
}

/// Every write that the machine asks for stays within the chunk at hand and
/// within what the range still lacks.
pub proof fn law_write_is_capped(model: FetchModel, len: u64)
    requires
        model.wf(),
        model.phase == FetchPhase::Reading,
    ensures
        ({
            let after = model.next(FetchEvent::Chunk { len, cancelled: false });
            after.action() is Write ==> {
                &&& 0 < after.action()->Write_len <= len
                &&& after.action()->Write_len <= budget(model.piece)
                &&& after.action()->Write_len == len || after.action()->Write_len == budget(
                    model.piece,
                )
            }
        }),
{
}

/// A fetch that succeeds has the whole range. If the fetch of a range of
/// known length ends in success, the range is `Finished` and holds exactly
/// `length` bytes, from wherever it started and whatever the origin sent:
/// a body that ends before the range is full is a failed attempt, not a
/// success.
pub proof fn law_finished_range_is_complete(piece: Piece, events: Seq<FetchEvent>)
    requires
        piece.wf(),
        piece.bounded(),
        outcome(FetchModel::initial(piece).run(events)) is Ok,
    ensures
        ({
            let got = outcome(FetchModel::initial(piece).run(events))->Ok_0;
            &&& got.state == SegmentState::Finished
            &&& got.downloaded == piece.length
            &&& same_range(got, piece)
            &&& FetchModel::initial(piece).committed(events) == piece.length - piece.downloaded
        }),
{
    lemma_run_keeps_wf(FetchModel::initial(piece), events);
}

/// Stopping and resuming neither loses nor repeats a byte. Let a fetch be
/// interrupted after any events, by cancellation or otherwise, and let a
/// second fetch start from the range as the first one left it. If the
/// second succeeds, the range holds exactly `length` bytes, and the two
/// fetches together have written exactly what the range lacked at the
/// start.
pub proof fn law_resumed_fetch_adds_up(
    piece: Piece,
    first: Seq<FetchEvent>,
    second: Seq<FetchEvent>,
)
    requires
        piece.wf(),
        piece.bounded(),
        outcome(
            FetchModel::initial(FetchModel::initial(piece).run(first).piece).run(second),
        ) is Ok,
    ensures
        ({
            let left = FetchModel::initial(piece).run(first).piece;
            let got = outcome(FetchModel::initial(left).run(second))->Ok_0;
            &&& left.wf()
            &&& got.downloaded == piece.length
            &&& FetchModel::initial(piece).committed(first) + FetchModel::initial(
                left,
            ).committed(second) == piece.length - piece.downloaded
        }),
{
    lemma_run_keeps_wf(FetchModel::initial(piece), first);
    let left = FetchModel::initial(piece).run(first).piece;
    law_finished_range_is_complete(left, second);
}

/// The retry budget. A transport failure counts one retry; the third ends
/// the fetch with `MaxRetryExceeded` and the range `Failed`, and each one
/// before it leads to a pause of `backoff_millis`. Nothing else counts a
/// retry or gives that error.
pub proof fn law_retry_budget(model: FetchModel, event: FetchEvent)
    requires
        model.wf(),
        model.phase != FetchPhase::Done,
    ensures
        transport_failure(model, event) && model.retries + 1 < MAX_RETRIES ==> {
            &&& model.next(event).retries == model.retries + 1
            &&& model.next(event).action() == (FetchAction::Sleep {
                millis: backoff_millis((model.retries + 1) as u32) as u64,
            })
            &&& model.next(event).piece == model.piece
        },
        transport_failure(model, event) && model.retries + 1 == MAX_RETRIES ==> {
            &&& outcome(model.next(event)) == Err::<Piece, DownloadError>(
                DownloadError::MaxRetryExceeded,
            )
            &&& model.next(event).piece.state == SegmentState::Failed
        },
        !transport_failure(model, event) ==> {
            &&& model.next(event).retries == model.retries
            &&& model.next(event).failure != Some(DownloadError::MaxRetryExceeded)
        },
{
}

/// Cancellation is its own outcome. When the cancel handle is seen tripped,
/// before a request or between two chunks, no retry is counted, at most a
/// flush follows, and the fetch ends with `Cancelled`, never with
/// `MaxRetryExceeded`, whether that flush succeeds or not.
pub proof fn law_cancellation_ends_the_fetch(model: FetchModel, event: FetchEvent)
    requires
        model.wf(),
        cancellation_seen(model, event),
    ensures
        model.next(event).retries == model.retries,
        model.next(event).piece == model.piece,
        model.phase == FetchPhase::Polling ==> outcome(model.next(event)) == Err::<
            Piece,
            DownloadError,
        >(DownloadError::Cancelled),
        model.phase == FetchPhase::Reading ==> {
            &&& model.next(event).action() == FetchAction::Flush
            &&& forall|answer: FetchEvent|
                answer is Flushed || answer is FlushFailed ==> outcome(
                    #[trigger] model.next(event).next(answer),
                ) == Err::<Piece, DownloadError>(DownloadError::Cancelled)
        },
{
}

/// Only a response that carries the resource is written. Where the origin
/// answers a request with any other status than partial content or
/// success, the scratch file is not opened and nothing of the body is
/// taken: the attempt counts as failed, and the range holds what it held.
pub proof fn law_refused_response_is_not_written(model: FetchModel, status: u16)
    requires
        model.wf(),
        model.phase == FetchPhase::Sending,
        !accepted_status(status),
    ensures
        model.next(FetchEvent::Responded { status }) == model.after_transport_failure(),
        model.next(FetchEvent::Responded { status }).phase == FetchPhase::Sleeping || model.next(
            FetchEvent::Responded { status },
        ).phase == FetchPhase::Done,
        model.next(FetchEvent::Responded { status }).piece.downloaded == model.piece.downloaded,
        outcome(model.next(FetchEvent::Responded { status })) is Err,
{
}

} // verus!
