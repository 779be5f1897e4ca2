//! Handing a live stream on, to standard output or to the clients of a TCP
//! listener.
//!
//! [`PipeSession`] decides what is to be done next; its caller does it and
//! reports back what came of it.

use vstd::prelude::*;
use vstd::slice::slice_subrange;

use crate::flv::FlvStripper;
use crate::live::{wait_for_live, Wait};
use crate::reconnect::{backoff, MAX_RECONNECTS, POLL_SECS, RETRY_SECS};

verus! {

/// What a session waits to hear of.
#[derive(Debug, Clone, Copy, PartialEq, Eq, Structural)]
pub enum PipeStage {
    /// The status of a stream that has not started.
    StartStatus,
    /// The end of the pause between two looks at that status.
    StartRest,
    /// The stream URL.
    Fetch,
    /// The status of a stream whose URL could not be had.
    FetchStatus,
    /// The end of the pause before the URL is asked for again.
    Rest,
    /// The answer of the server.
    Connect,
    /// The next bytes.
    Read,
    /// The status of a stream that is being read.
    ReadStatus,
    /// The fate of bytes that were handed on.
    Write,
    /// The status of a stream whose connection was lost.
    EndStatus,
    /// Nothing: the session is over.
    Over,
}

/// What came of a step.
#[derive(Debug)]
pub enum PipeEvent<'a> {
    /// The live status, if it could be learnt.
    Status(Option<i32>),
    /// The pause is over.
    Rested,
    /// The stream URL, if it could be had.
    Url(Option<String>),
    /// The server answered with this HTTP status code.
    Answered(u16),
    /// There was no answer.
    Unreachable,
    /// Bytes of the stream.
    Chunk(&'a [u8]),
    /// The connection failed.
    Lost,
    /// The connection was closed.
    Closed,
    /// It is time to look at the live status again.
    Tick,
    /// The bytes were handed on.
    Written,
    /// Nobody reads what is handed on any more.
    BrokenPipe,
    /// The bytes could not be handed on.
    WriteFailed,
}

/// What is to be done next.
#[derive(Debug)]
pub enum PipeStep<'a> {
    /// Learn the live status.
    Status,
    /// Pause for this many seconds.
    Sleep(u64),
    /// Get the stream URL.
    FetchUrl,
    /// Connect to the stream.
    Connect(String),
    /// Wait for bytes of the stream, but no longer than until the next look at
    /// the live status is due; there is one after every so many seconds of reading.
    Read(u64),
    /// Hand these bytes on.
    Write(&'a [u8]),
    /// Leave, with success.
    Finish,
    /// Leave, with an error.
    Fail(PipeError),
}

/// Why a session fails.
#[derive(Debug, Clone, Copy, PartialEq, Eq, Structural)]
pub enum PipeError {
    /// The connection was lost more often than it is replaced.
    TooManyReconnects,
    /// The bytes could not be handed on.
    Output,
}

/// An event, as contracts speak of it.
pub enum Heard {
    Status(Option<i32>),
    Rested,
    Url(Option<Seq<char>>),
    Answered(u16),
    Unreachable,
    Chunk(Seq<u8>),
    Lost,
    Closed,
    Tick,
    Written,
    BrokenPipe,
    WriteFailed,
}

/// A step, as contracts speak of it.
pub enum Order {
    Status,
    Sleep(nat),
    FetchUrl,
    Connect(Seq<char>),
    Read(nat),
    Write(Seq<u8>),
    Finish,
    Fail(PipeError),
}

impl<'a> View for PipeEvent<'a> {
    type V = Heard;

    open spec fn view(&self) -> Heard {
        match self {
            PipeEvent::Status(status) => Heard::Status(*status),
            PipeEvent::Rested => Heard::Rested,
            PipeEvent::Url(Some(url)) => Heard::Url(Some(url@)),
            PipeEvent::Url(None) => Heard::Url(None),
            PipeEvent::Answered(code) => Heard::Answered(*code),
            PipeEvent::Unreachable => Heard::Unreachable,
            PipeEvent::Chunk(data) => Heard::Chunk(data@),
            PipeEvent::Lost => Heard::Lost,
            PipeEvent::Closed => Heard::Closed,
            PipeEvent::Tick => Heard::Tick,
            PipeEvent::Written => Heard::Written,
            PipeEvent::BrokenPipe => Heard::BrokenPipe,
            PipeEvent::WriteFailed => Heard::WriteFailed,
        }
    }
}

impl<'a> View for PipeStep<'a> {
    type V = Order;

    open spec fn view(&self) -> Order {
        match self {
            PipeStep::Status => Order::Status,
            PipeStep::Sleep(secs) => Order::Sleep(*secs as nat),
            PipeStep::FetchUrl => Order::FetchUrl,
            PipeStep::Connect(url) => Order::Connect(url@),
            PipeStep::Read(secs) => Order::Read(*secs as nat),
            PipeStep::Write(data) => Order::Write(data@),
            PipeStep::Finish => Order::Finish,
            PipeStep::Fail(error) => Order::Fail(*error),
        }
    }
}

/// The state of a session.
pub struct PipeState {
    pub stage: PipeStage,
    /// How often the connection was replaced.
    pub reconnects: nat,
    /// How far the headers of the connection are stripped: those of the first one
    /// are not.
    pub strip: crate::flv::Strip,
    /// Whether any bytes came yet.
    pub started: bool,
}

impl PipeState {
    /// The same state, in another stage.
    pub open spec fn at(self, stage: PipeStage) -> PipeState {
        PipeState { stage, ..self }
    }
}

/// The state that a session begins in; the first step is to learn the status.
pub open spec fn opening() -> PipeState {
    PipeState {
        stage: PipeStage::StartStatus,
        reconnects: 0,
        strip: crate::flv::Strip { passing: true, place: crate::flv::Place::Before(0) },
        started: false,
    }
}

/// What is handed on of bytes that come in this state.
pub open spec fn passed_on(state: PipeState, data: Seq<u8>) -> Seq<u8> {
    crate::flv::strip_out(state.strip, data)
}

/// The state after bytes came.
pub open spec fn taken(state: PipeState, data: Seq<u8>) -> PipeState {
    PipeState {
        strip: crate::flv::strip_after(state.strip, data),
        started: state.started || data.len() > 0,
        ..state
    }
}

/// The state and the step after a connection ended. Headers of the next one are
/// dropped only if they would be repeated.
pub open spec fn lost(state: PipeState) -> (PipeState, Order) {
    if state.reconnects >= MAX_RECONNECTS {
        (state.at(PipeStage::Over), Order::Fail(PipeError::TooManyReconnects))
    } else {
        (
            PipeState {
                stage: PipeStage::EndStatus,
                reconnects: state.reconnects + 1,
                strip: if state.started {
                    crate::flv::reconnected()
                } else {
                    state.strip
                },
                started: state.started,
            },
            Order::Status,
        )
    }
}

/// The state and the step that follow an event, or `None` where the event is no
/// answer to the step before it.
pub open spec fn next(state: PipeState, event: Heard) -> Option<(PipeState, Order)> {
    match (state.stage, event) {
        (PipeStage::StartStatus, Heard::Status(status)) => if status == Some(1i32) {
            Some((state.at(PipeStage::Fetch), Order::FetchUrl))
        } else {
            Some((state.at(PipeStage::StartRest), Order::Sleep(POLL_SECS as nat)))
        },
        (PipeStage::StartRest, Heard::Rested) => Some(
            (state.at(PipeStage::StartStatus), Order::Status),
        ),
        (PipeStage::Fetch, Heard::Url(Some(url))) => Some(
            (state.at(PipeStage::Connect), Order::Connect(url)),
        ),
        (PipeStage::Fetch, Heard::Url(None)) => Some(
            (state.at(PipeStage::FetchStatus), Order::Status),
        ),
        (PipeStage::FetchStatus, Heard::Status(status)) => if status == Some(0i32) {
            Some((state.at(PipeStage::Over), Order::Finish))
        } else {
            Some((state.at(PipeStage::Rest), Order::Sleep(RETRY_SECS as nat)))
        },
        (PipeStage::Rest, Heard::Rested) => Some((state.at(PipeStage::Fetch), Order::FetchUrl)),
        (PipeStage::Connect, Heard::Answered(code)) => if crate::reconnect::is_success(code) {
            Some((state.at(PipeStage::Read), Order::Read(POLL_SECS as nat)))
        } else {
            Some((state.at(PipeStage::Rest), Order::Sleep(RETRY_SECS as nat)))
        },
        (PipeStage::Connect, Heard::Unreachable) => Some(
            (state.at(PipeStage::Rest), Order::Sleep(RETRY_SECS as nat)),
        ),
        (PipeStage::Read, Heard::Chunk(data)) => if passed_on(state, data).len() == 0 {
            Some((taken(state, data), Order::Read(POLL_SECS as nat)))
        } else {
            Some((taken(state, data).at(PipeStage::Write), Order::Write(passed_on(state, data))))
        },
        (PipeStage::Read, Heard::Lost) => Some(lost(state)),
        (PipeStage::Read, Heard::Closed) => Some(lost(state)),
        (PipeStage::Read, Heard::Tick) => Some((state.at(PipeStage::ReadStatus), Order::Status)),
        (PipeStage::ReadStatus, Heard::Status(status)) => if status == Some(0i32) {
            Some((state.at(PipeStage::Over), Order::Finish))
        } else {
            Some((state.at(PipeStage::Read), Order::Read(POLL_SECS as nat)))
        },
        (PipeStage::Write, Heard::Written) => Some((state.at(PipeStage::Read), Order::Read(POLL_SECS as nat))),
        (PipeStage::Write, Heard::BrokenPipe) => Some((state.at(PipeStage::Over), Order::Finish)),
        (PipeStage::Write, Heard::WriteFailed) => Some(
            (state.at(PipeStage::Over), Order::Fail(PipeError::Output)),
        ),
        (PipeStage::EndStatus, Heard::Status(status)) => if status == Some(0i32) {
            Some((state.at(PipeStage::Over), Order::Finish))
        } else {
            Some(
                (
                    state.at(PipeStage::Rest),
                    Order::Sleep(crate::reconnect::pause_secs(state.reconnects)),
                ),
            )
        },
        _ => None,
    }
}

/// A stream on its way from the server to whoever reads it here.
pub struct PipeSession {
    stage: PipeStage,
    reconnects: u32,
    stripper: FlvStripper,
    started: bool,
}

impl View for PipeSession {
    type V = PipeState;

    closed spec fn view(&self) -> PipeState {
        PipeState {
            stage: self.stage,
            reconnects: self.reconnects as nat,
            strip: self.stripper.strip(),
            started: self.started,
        }
    }
}

impl PipeSession {
    /// A session that has not started; the first step is to learn the status.
    pub fn new() -> (r: (Self, PipeStep<'static>))
        ensures
            r.0@ == opening(),
            r.1@ == Order::Status,
    {
        (
            Self {
                stage: PipeStage::StartStatus,
                reconnects: 0,
                stripper: FlvStripper::new(),
                started: false,
            },
            PipeStep::Status,
        )
    }

    /// A session whose stream is known to be live; the first step is to get its
    /// URL.
    pub fn live() -> (r: (Self, PipeStep<'static>))
        ensures
            next(opening(), Heard::Status(Some(1i32))) == Some((r.0@, r.1@)),
    {
        (
            Self {
                stage: PipeStage::Fetch,
                reconnects: 0,
                stripper: FlvStripper::new(),
                started: false,
            },
            PipeStep::FetchUrl,
        )
    }

    /// Whether the session is over.
    pub fn is_over(&self) -> (r: bool)
        ensures
            r == (self@.stage == PipeStage::Over),
    {
        self.stage == PipeStage::Over
    }

    /// How often the connection was replaced.
    pub fn reconnects(&self) -> (r: u32)
        ensures
            r == self@.reconnects,
    {
        self.reconnects
    }

    fn go<'a>(&mut self, stage: PipeStage, step: PipeStep<'a>) -> (r: Option<PipeStep<'a>>)
        ensures
            final(self)@ == old(self)@.at(stage),
            r == Some(step),
    {
        self.stage = stage;
        Some(step)
    }

    fn chunk<'a>(&mut self, data: &'a [u8]) -> (r: Option<PipeStep<'a>>)
        requires
            old(self)@.stage == PipeStage::Read,
        ensures
            next(old(self)@, Heard::Chunk(data@)) == Some((final(self)@, r->0@)),
            r is Some,
    {
        self.started = self.started || data.len() > 0;
        let out = self.stripper.process(data);
        if out.len() == 0 {
            Some(PipeStep::Read(POLL_SECS))
        } else {
            self.go(PipeStage::Write, PipeStep::Write(out))
        }
    }

    fn lost(&mut self) -> (r: Option<PipeStep<'static>>)
        requires
            old(self)@.stage == PipeStage::Read,
        ensures
            r is Some,
            lost(old(self)@) == (final(self)@, r->0@),
    {
        if self.reconnects >= MAX_RECONNECTS {
            return self.go(PipeStage::Over, PipeStep::Fail(PipeError::TooManyReconnects));
        }
        self.reconnects += 1;
        if self.started {
            self.stripper.mark_reconnect();
        }
        self.go(PipeStage::EndStatus, PipeStep::Status)
    }

    /// Takes in what came of the last step, and says what is to be done next.
    /// An event that is no answer to that step is not taken in.
    pub fn handle<'a>(&mut self, event: PipeEvent<'a>) -> (r: Option<PipeStep<'a>>)
        ensures
            match next(old(self)@, event@) {
                Some((state, step)) => final(self)@ == state && r is Some && r->0@ == step,
                None => final(self)@ == old(self)@ && r is None,
            },
    {
        match (self.stage, event) {
            (PipeStage::StartStatus, PipeEvent::Status(status)) => match wait_for_live(status) {
                Wait::Live => self.go(PipeStage::Fetch, PipeStep::FetchUrl),
                Wait::Sleep(secs) => self.go(PipeStage::StartRest, PipeStep::Sleep(secs)),
            },
            (PipeStage::StartRest, PipeEvent::Rested) => self.go(
                PipeStage::StartStatus,
                PipeStep::Status,
            ),
            (PipeStage::Fetch, PipeEvent::Url(Some(url))) => self.go(
                PipeStage::Connect,
                PipeStep::Connect(url),
            ),
            (PipeStage::Fetch, PipeEvent::Url(None)) => self.go(
                PipeStage::FetchStatus,
                PipeStep::Status,
            ),
            (PipeStage::FetchStatus, PipeEvent::Status(status)) => if status == Some(0i32) {
                self.go(PipeStage::Over, PipeStep::Finish)
            } else {
                self.go(PipeStage::Rest, PipeStep::Sleep(RETRY_SECS))
            },
            (PipeStage::Rest, PipeEvent::Rested) => self.go(PipeStage::Fetch, PipeStep::FetchUrl),
            (PipeStage::Connect, PipeEvent::Answered(code)) => if 200 <= code && code <= 299 {
                self.go(PipeStage::Read, PipeStep::Read(POLL_SECS))
            } else {
                self.go(PipeStage::Rest, PipeStep::Sleep(RETRY_SECS))
            },
            (PipeStage::Connect, PipeEvent::Unreachable) => self.go(
                PipeStage::Rest,
                PipeStep::Sleep(RETRY_SECS),
            ),
            (PipeStage::Read, PipeEvent::Chunk(data)) => self.chunk(data),
            (PipeStage::Read, PipeEvent::Lost) => self.lost(),
            (PipeStage::Read, PipeEvent::Closed) => self.lost(),
            (PipeStage::Read, PipeEvent::Tick) => self.go(PipeStage::ReadStatus, PipeStep::Status),
            (PipeStage::ReadStatus, PipeEvent::Status(status)) => if status == Some(0i32) {
                self.go(PipeStage::Over, PipeStep::Finish)
            } else {
                self.go(PipeStage::Read, PipeStep::Read(POLL_SECS))
            },
            (PipeStage::Write, PipeEvent::Written) => self.go(PipeStage::Read, PipeStep::Read(POLL_SECS)),
            (PipeStage::Write, PipeEvent::BrokenPipe) => self.go(
                PipeStage::Over,
                PipeStep::Finish,
            ),
            (PipeStage::Write, PipeEvent::WriteFailed) => self.go(
                PipeStage::Over,
                PipeStep::Fail(PipeError::Output),
            ),
            (PipeStage::EndStatus, PipeEvent::Status(status)) => if status == Some(0i32) {
                self.go(PipeStage::Over, PipeStep::Finish)
            } else {
                let secs: u64 = backoff(self.reconnects);
                self.go(PipeStage::Rest, PipeStep::Sleep(secs))
            },
            _ => None,
        }
    }
}

/// The state after these events, in order.
pub open spec fn state_after(events: Seq<Heard>) -> PipeState
    decreases events.len(),
{
    if events.len() == 0 {
        opening()
    } else {
        let before = state_after(events.drop_last());
        match next(before, events.last()) {
            Some((state, _)) => state,
            None => before,
        }
    }
}

/// The steps that these events lead to, after the opening one.
pub open spec fn steps_of(events: Seq<Heard>) -> Seq<Order>
    decreases events.len(),
{
    if events.len() == 0 {
        Seq::empty()
    } else {
        let earlier = steps_of(events.drop_last());
        match next(state_after(events.drop_last()), events.last()) {
            Some((_, step)) => earlier.push(step),
            None => earlier,
        }
    }
}

/// The pauses before reconnections that these events lead to.
pub open spec fn pauses_of(events: Seq<Heard>) -> Seq<nat>
    decreases events.len(),
{
    if events.len() == 0 {
        Seq::empty()
    } else {
        let earlier = pauses_of(events.drop_last());
        let before = state_after(events.drop_last());
        match next(before, events.last()) {
            Some((_, Order::Sleep(secs))) => if before.stage == PipeStage::EndStatus {
                earlier.push(secs)
            } else {
                earlier
            },
            _ => earlier,
        }
    }
}

/// Before the stream is live a session does nothing but look at the status every
/// few seconds: it fetches, connects and writes nothing, and does not end.
#[verifier::rlimit(40)]
pub proof fn law_waits_until_live(events: Seq<Heard>)
    requires
        forall|i: int| 0 <= i < events.len() ==> #[trigger] events[i] != Heard::Status(Some(1i32)),
    ensures
        state_after(events).stage == PipeStage::StartStatus || state_after(events).stage
            == PipeStage::StartRest,
        forall|i: int|
            0 <= i < steps_of(events).len() ==> #[trigger] steps_of(events)[i] == Order::Status
                || steps_of(events)[i] == Order::Sleep(POLL_SECS as nat),
    decreases events.len(),
{
    if events.len() > 0 {
        let front = events.drop_last();
        assert forall|i: int| 0 <= i < front.len() implies #[trigger] front[i] != Heard::Status(
            Some(1i32),
        ) by {
            assert(front[i] == events[i]);
        }
        law_waits_until_live(front);
        assert(events[events.len() - 1] != Heard::Status(Some(1i32)));
    }
}

/// The connection is replaced a bounded number of times, and the pauses before
/// that follow the backoff: the first one comes before the first reconnection,
/// and so on.
pub proof fn law_reconnects_back_off(events: Seq<Heard>)
    ensures
        state_after(events).reconnects <= MAX_RECONNECTS,
        pauses_of(events).len() <= state_after(events).reconnects,
        forall|i: int|
            0 <= i < pauses_of(events).len() ==> #[trigger] pauses_of(events)[i]
                == crate::reconnect::pause_secs((i + 1) as nat),
{
    lemma_pauses(events);
}

#[verifier::rlimit(40)]
proof fn lemma_pauses(events: Seq<Heard>)
    ensures
        state_after(events).reconnects <= MAX_RECONNECTS,
        state_after(events).stage == PipeStage::EndStatus ==> pauses_of(events).len() + 1
            == state_after(events).reconnects,
        state_after(events).stage == PipeStage::Over ==> pauses_of(events).len() <= state_after(
            events,
        ).reconnects,
        state_after(events).stage != PipeStage::EndStatus && state_after(events).stage
            != PipeStage::Over ==> pauses_of(events).len() == state_after(events).reconnects,
        forall|i: int|
            0 <= i < pauses_of(events).len() ==> #[trigger] pauses_of(events)[i]
                == crate::reconnect::pause_secs((i + 1) as nat),
    decreases events.len(),
{
    if events.len() > 0 {
        lemma_pauses(events.drop_last());
    }
}

/// As soon as a stream that was live is known to be offline, the session ends
/// with success.
pub proof fn law_offline_ends_cleanly(state: PipeState)
    requires
        state.stage == PipeStage::FetchStatus || state.stage == PipeStage::ReadStatus || state.stage
            == PipeStage::EndStatus,
    ensures
        next(state, Heard::Status(Some(0i32))) == Some((state.at(PipeStage::Over), Order::Finish)),
{
}

/// Whenever a session reads, the status is due to be looked at every few seconds,
/// and when it is time, that is what the session does.
pub proof fn law_status_is_polled_while_reading(state: PipeState, event: Heard)
    ensures
        next(state, event) matches Some((reading, Order::Read(secs))) ==> secs == POLL_SECS
            && reading.stage == PipeStage::Read && next(reading, Heard::Tick) == Some(
            (reading.at(PipeStage::ReadStatus), Order::Status),
        ),
{
}

/// A lost connection is replaced, as long as that is not done too often and the
/// stream is not known to be offline: after the pause that is due, the stream URL
/// is asked for again.
pub proof fn law_lost_connection_is_replaced(state: PipeState, event: Heard, status: Option<i32>)
    requires
        state.stage == PipeStage::Read,
        state.reconnects < MAX_RECONNECTS,
        event == Heard::Lost || event == Heard::Closed,
        status != Some(0i32),
    ensures
        next(state, event) matches Some((ended, step)) && step == Order::Status && (next(
            ended,
            Heard::Status(status),
        ) matches Some((resting, pause)) && pause == Order::Sleep(
            crate::reconnect::pause_secs(state.reconnects + 1),
        ) && next(resting, Heard::Rested) == Some(
            (resting.at(PipeStage::Fetch), Order::FetchUrl),
        )),
{
}

/// When nobody reads what is handed on any more, the session ends with success.
pub proof fn law_broken_pipe_ends_cleanly(state: PipeState)
    requires
        state.stage == PipeStage::Write,
    ensures
        next(state, Heard::BrokenPipe) == Some((state.at(PipeStage::Over), Order::Finish)),
{
}

/// A session ends with success only where the stream is offline or nobody reads
/// what is handed on, and with an error only where the connection is lost once
/// too often or writing fails.
pub proof fn law_ends_only_for_cause(state: PipeState, event: Heard)
    requires
        state.stage != PipeStage::Over,
    ensures
        ({
            let after = next(state, event);
            &&& after matches Some((_, Order::Finish)) ==> event == Heard::Status(Some(0i32))
                || event == Heard::BrokenPipe
            &&& after matches Some((_, Order::Fail(error))) ==> (if error
                == PipeError::TooManyReconnects {
                (event == Heard::Lost || event == Heard::Closed) && state.reconnects
                    >= MAX_RECONNECTS
            } else {
                event == Heard::WriteFailed
            })
            &&& after matches Some((s, _)) ==> (s.stage == PipeStage::Over <==> after matches Some(
                (_, Order::Finish),
            ) || after matches Some((_, Order::Fail(_))))
        }),
{
}

/// Only bytes of the stream are handed on, and never an empty chunk.
pub proof fn law_no_empty_chunk_is_handed_on(state: PipeState, event: Heard)
    ensures
        next(state, event) matches Some((_, Order::Write(bytes))) ==> bytes.len() > 0 && (event
            matches Heard::Chunk(data) && bytes == passed_on(state, data)),
{
}

/// Once a session is over, nothing follows.
pub proof fn law_over_is_final(state: PipeState, event: Heard)
    requires
        state.stage == PipeStage::Over,
    ensures
        next(state, event) is None,
{
}

/// What is handed on of a connection that brings these bytes, one chunk after the
/// other, all of them being taken.
pub open spec fn handed_on(state: PipeState, chunks: Seq<Seq<u8>>) -> Seq<u8>
    decreases chunks.len(),
{
    if chunks.len() == 0 {
        Seq::empty()
    } else {
        match next(state, Heard::Chunk(chunks[0])) {
            Some((written, Order::Write(data))) => match next(written, Heard::Written) {
                Some((reading, _)) => data + handed_on(reading, chunks.drop_first()),
                None => data,
            },
            Some((reading, _)) => handed_on(reading, chunks.drop_first()),
            None => Seq::empty(),
        }
    }
}

/// However a connection is cut into chunks, it is handed on whole if it is the first,
/// and else from its first audio or video tag on.
pub proof fn law_connection_is_handed_on(state: PipeState, chunks: Seq<Seq<u8>>)
    requires
        state.stage == PipeStage::Read,
    ensures
        handed_on(state, chunks) == crate::flv::strip_all(state.strip, chunks),
        handed_on(state, chunks) == crate::flv::strip_out(state.strip, chunks.flatten()),
    decreases chunks.len(),
{
    crate::flv::law_stripping_ignores_cuts(state.strip, chunks);
    if chunks.len() > 0 {
        let data = chunks[0];
        let rest = chunks.drop_first();
        let after = taken(state, data);
        law_connection_is_handed_on(after, rest);
        assert(after.at(PipeStage::Write).at(PipeStage::Read) == after);
        assert(passed_on(state, data).len() == 0 ==> passed_on(state, data) + handed_on(after, rest)
            =~= handed_on(after, rest));
    }
}

/// The bytes that are handed on before and after a lost connection make up one
/// valid stream: a file header and complete tags.
pub proof fn law_stream_stays_valid_across_reconnects(
    before: Seq<u8>,
    state: PipeState,
    header: Seq<u8>,
    lead: Seq<Seq<u8>>,
    rest: Seq<Seq<u8>>,
    chunks: Seq<Seq<u8>>,
)
    requires
        crate::flv::is_flv(before),
        state.stage == PipeStage::Read,
        state.strip == crate::flv::reconnected(),
        crate::flv::is_file_header(header),
        crate::flv::all_tags(lead),
        crate::flv::no_media(lead),
        crate::flv::all_tags(rest),
        rest.len() > 0 ==> crate::flv::is_media(crate::flv::kind_of(rest[0])),
        chunks.flatten() == header + lead.flatten() + rest.flatten(),
    ensures
        handed_on(state, chunks) == rest.flatten(),
        crate::flv::is_flv(before + handed_on(state, chunks)),
{
    law_connection_is_handed_on(state, chunks);
    crate::flv::law_reconnect_keeps_media_tags(header, lead, rest, chunks);
    crate::flv::law_concatenated_stream_stays_valid(before, header, lead, rest, chunks);
}

/// Whether a session is between two connections, or before the first one.
pub open spec fn unconnected(stage: PipeStage) -> bool {
    ||| stage == PipeStage::StartStatus
    ||| stage == PipeStage::StartRest
    ||| stage == PipeStage::Fetch
    ||| stage == PipeStage::FetchStatus
    ||| stage == PipeStage::Rest
    ||| stage == PipeStage::Connect
    ||| stage == PipeStage::EndStatus
}

/// Headers are handed on as long as nothing was received, and the headers of every
/// connection after that are dropped: they would be repeated.
#[verifier::rlimit(40)]
pub proof fn law_headers_are_dropped_once_repeated(events: Seq<Heard>)
    ensures
        !state_after(events).started ==> state_after(events).strip.passing,
        state_after(events).started && unconnected(state_after(events).stage) ==> state_after(
            events,
        ).strip == crate::flv::reconnected(),
        state_after(events).reconnects == 0 ==> state_after(events).strip.passing,
    decreases events.len(),
{
    if events.len() > 0 {
        law_headers_are_dropped_once_repeated(events.drop_last());
    }
}

/// The stream URL that was fetched is the URL that is opened, to the last character,
/// and none is opened but on hearing of it.
pub proof fn law_fetched_url_is_opened(state: PipeState, event: Heard, url: Seq<char>)
    ensures
        state.stage == PipeStage::Fetch ==> (next(state, Heard::Url(Some(url))) matches Some(
            (after, step),
        ) && step == Order::Connect(url) && after == state.at(PipeStage::Connect)),
        next(state, event) matches Some((_, Order::Connect(opened))) ==> event == Heard::Url(
            Some(opened),
        ),
{
}

/// Over whole runs, every URL that is opened was fetched: it is the text of the event
/// directly before.
pub proof fn law_every_opened_url_was_fetched(events: Seq<Heard>)
    ensures
        steps_of(events).len() > steps_of(events.drop_last()).len() && events.len() > 0 ==> (
        steps_of(events).last() matches Order::Connect(url) ==> events.last() == Heard::Url(
            Some(url),
        )),
        forall|i: int|
            0 <= i < steps_of(events).len() ==> (#[trigger] steps_of(events)[i] matches Order::Connect(
                url,
            ) ==> events.contains(Heard::Url(Some(url)))),
    decreases events.len(),
{
    if events.len() > 0 {
        let front = events.drop_last();
        let steps = steps_of(events);
        let earlier = steps_of(front);
        law_every_opened_url_was_fetched(front);
        assert(events[events.len() - 1] == events.last());
        assert forall|i: int| 0 <= i < steps.len() implies (
        #[trigger] steps[i] matches Order::Connect(url) ==> events.contains(
            Heard::Url(Some(url)),
        )) by {
            if let Order::Connect(url) = steps[i] {
                if i < earlier.len() {
                    assert(earlier[i] == steps[i]);
                    assert(front.contains(Heard::Url(Some(url))));
                    let k = choose|k: int|
                        0 <= k < front.len() && front[k] == Heard::Url(Some(url));
                    assert(events[k] == Heard::Url(Some(url)));
                } else {
                    law_fetched_url_is_opened(state_after(front), events.last(), url);
                }
            }
        }
    }
}

/// A connection is read only if the server answers with success, a status code from
/// 200 to 299. With any other code, and without an answer, the stream URL is asked for
/// again after a pause, and no reconnection is counted.
pub proof fn law_only_success_is_read(state: PipeState, code: u16)
    requires
        state.stage == PipeStage::Connect,
    ensures
        200 <= code <= 299 ==> next(state, Heard::Answered(code)) == Some(
            (state.at(PipeStage::Read), Order::Read(POLL_SECS as nat)),
        ),
        !(200 <= code <= 299) ==> next(state, Heard::Answered(code)) == Some(
            (state.at(PipeStage::Rest), Order::Sleep(RETRY_SECS as nat)),
        ),
        next(state, Heard::Unreachable) == Some(
            (state.at(PipeStage::Rest), Order::Sleep(RETRY_SECS as nat)),
        ),
        next(state.at(PipeStage::Rest), Heard::Rested) == Some(
            (state.at(PipeStage::Fetch), Order::FetchUrl),
        ),
{
}

/// A session gets from connecting to reading on success only.
pub proof fn law_reading_begins_with_success(state: PipeState, event: Heard)
    requires
        state.stage == PipeStage::Connect,
        next(state, event) matches Some((after, _)) && after.stage != PipeStage::Rest,
    ensures
        event matches Heard::Answered(code) && 200 <= code <= 299,
{
}

/// A stream that is waited for and is live is fetched. As long as it is not live, the
/// status is asked for again after a pause.
pub proof fn law_live_stream_is_fetched(state: PipeState, status: Option<i32>)
    requires
        state.stage == PipeStage::StartStatus,
    ensures
        next(state, Heard::Status(Some(1i32))) == Some(
            (state.at(PipeStage::Fetch), Order::FetchUrl),
        ),
        status != Some(1i32) ==> next(state, Heard::Status(status)) == Some(
            (state.at(PipeStage::StartRest), Order::Sleep(POLL_SECS as nat)),
        ),
        next(state.at(PipeStage::StartRest), Heard::Rested) == Some((state, Order::Status)),
{
}

/// Where no stream URL can be had, the status is asked for, and unless the stream is
/// offline the URL is asked for again after a pause, with no reconnection counted.
pub proof fn law_missing_url_is_asked_for_again(state: PipeState, status: Option<i32>)
    requires
        state.stage == PipeStage::Fetch,
        status != Some(0i32),
    ensures
        next(state, Heard::Url(None)) == Some((state.at(PipeStage::FetchStatus), Order::Status)),
        next(state.at(PipeStage::FetchStatus), Heard::Status(status)) == Some(
            (state.at(PipeStage::Rest), Order::Sleep(RETRY_SECS as nat)),
        ),
        next(state.at(PipeStage::Rest), Heard::Rested) == Some(
            (state.at(PipeStage::Fetch), Order::FetchUrl),
        ),
{
}

/// Reading goes on after every chunk that was handed on, and after every look at the
/// status that did not find the stream offline.
pub proof fn law_reading_goes_on(state: PipeState, status: Option<i32>)
    requires
        status != Some(0i32),
    ensures
        next(state.at(PipeStage::Write), Heard::Written) == Some(
            (state.at(PipeStage::Read), Order::Read(POLL_SECS as nat)),
        ),
        next(state.at(PipeStage::ReadStatus), Heard::Status(status)) == Some(
            (state.at(PipeStage::Read), Order::Read(POLL_SECS as nat)),
        ),
        next(state.at(PipeStage::Write), Heard::WriteFailed) == Some(
            (state.at(PipeStage::Over), Order::Fail(PipeError::Output)),
        ),
{
}

/// A connection that ends is counted, and the headers of the next one are dropped if
/// any bytes came; once too many were lost, the session fails.
pub proof fn law_lost_connection_is_counted(state: PipeState, event: Heard)
    requires
        state.stage == PipeStage::Read,
        event == Heard::Lost || event == Heard::Closed,
    ensures
        state.reconnects < MAX_RECONNECTS ==> (next(state, event) matches Some((after, step))
            && step == Order::Status && after.stage == PipeStage::EndStatus && after.reconnects
            == state.reconnects + 1 && after.started == state.started && after.strip == (
        if state.started {
            crate::flv::reconnected()
        } else {
            state.strip
        })),
        state.reconnects >= MAX_RECONNECTS ==> next(state, event) == Some(
            (state.at(PipeStage::Over), Order::Fail(PipeError::TooManyReconnects)),
        ),
{
}

/// Whatever is left of a chunk without repeated headers is handed on.
pub proof fn law_what_is_left_is_handed_on(state: PipeState, data: Seq<u8>)
    requires
        state.stage == PipeStage::Read,
    ensures
        next(state, Heard::Chunk(data)) matches Some((after, step)) && step == (
        if crate::flv::strip_out(state.strip, data).len() > 0 {
            Order::Write(crate::flv::strip_out(state.strip, data))
        } else {
            Order::Read(POLL_SECS as nat)
        }) && after.strip == crate::flv::strip_after(state.strip, data) && after.reconnects
            == state.reconnects && after.started == (state.started || data.len() > 0),
{
}

/// Whether an event is an answer to a step.
pub open spec fn answers(step: Order, event: Heard) -> bool {
    match step {
        Order::Status => event is Status,
        Order::Sleep(_) => event is Rested,
        Order::FetchUrl => event is Url,
        Order::Connect(_) => event is Answered || event is Unreachable,
        Order::Read(_) => event is Chunk || event is Lost || event is Closed || event is Tick,
        Order::Write(_) => event is Written || event is BrokenPipe || event is WriteFailed,
        Order::Finish | Order::Fail(_) => false,
    }
}

/// After a step exactly the answers to it are taken in.
pub proof fn law_exactly_answers_are_taken_in(state: PipeState, event: Heard, then: Heard)
    ensures
        next(state, event) matches Some((after, step)) ==> (next(after, then) is Some <==> answers(
            step,
            then,
        )),
{
}

/// Contracts speak of an event, and of a step, with all that it holds: a status, a URL
/// to its last character, a code, a chunk to its last byte, a number of seconds.
pub proof fn law_nothing_is_left_out_of_view(event: PipeEvent, step: PipeStep)
    ensures
        event matches PipeEvent::Status(status) ==> event@ == Heard::Status(status),
        event matches PipeEvent::Url(Some(url)) ==> event@ == Heard::Url(Some(url@)),
        event matches PipeEvent::Url(None) ==> event@ == Heard::Url(None),
        event matches PipeEvent::Answered(code) ==> event@ == Heard::Answered(code),
        event matches PipeEvent::Chunk(data) ==> event@ == Heard::Chunk(data@),
        event is Rested <==> event@ is Rested,
        event is Unreachable <==> event@ is Unreachable,
        event is Lost <==> event@ is Lost,
        event is Closed <==> event@ is Closed,
        event is Tick <==> event@ is Tick,
        event is Written <==> event@ is Written,
        event is BrokenPipe <==> event@ is BrokenPipe,
        event is WriteFailed <==> event@ is WriteFailed,
        step matches PipeStep::Sleep(secs) ==> step@ == Order::Sleep(secs as nat),
        step matches PipeStep::Connect(url) ==> step@ == Order::Connect(url@),
        step matches PipeStep::Read(secs) ==> step@ == Order::Read(secs as nat),
        step matches PipeStep::Write(data) ==> step@ == Order::Write(data@),
        step matches PipeStep::Fail(error) ==> step@ == Order::Fail(error),
        step is Status <==> step@ is Status,
        step is FetchUrl <==> step@ is FetchUrl,
        step is Finish <==> step@ is Finish,
{
}

/// A session begins before anything came: it waits for the stream to start, no
/// connection was replaced, and the headers of the first one are handed on.
pub proof fn law_session_begins_at_the_start()
    ensures
        opening().stage == PipeStage::StartStatus,
        opening().reconnects == 0,
        opening().strip.passing,
        !opening().started,
{
}

/// Buffer the first N bytes of filtered FLV as metadata so late-joining
/// clients receive the FLV header and codec config they need to initialise.
pub const METADATA_LIMIT: usize = 65536;

/// The opening bytes of a stream, as many of them as are kept.
pub open spec fn first_bytes(stream: Seq<u8>) -> Seq<u8> {
    if stream.len() <= METADATA_LIMIT {
        stream
    } else {
        stream.take(METADATA_LIMIT as int)
    }
}

/// What a metadata buffer holds after one more chunk: as much of it more as there
/// is room for.
pub open spec fn with_chunk(held: Seq<u8>, chunk: Seq<u8>) -> Seq<u8> {
    let room = METADATA_LIMIT - held.len();
    held + chunk.take(
        if chunk.len() <= room {
            chunk.len() as int
        } else {
            room
        },
    )
}

/// What a metadata buffer holds after these chunks.
pub open spec fn buffered(chunks: Seq<Seq<u8>>) -> Seq<u8>
    decreases chunks.len(),
{
    if chunks.len() == 0 {
        Seq::empty()
    } else {
        with_chunk(buffered(chunks.drop_last()), chunks.last())
    }
}

/// The opening bytes of a stream, kept for clients that join late.
#[derive(Debug)]
pub struct MetadataBuffer {
    bytes: Vec<u8>,
}

impl View for MetadataBuffer {
    type V = Seq<u8>;

    closed spec fn view(&self) -> Seq<u8> {
        self.bytes@
    }
}

impl MetadataBuffer {
    /// The buffer holds no more than it is to hold.
    pub open spec fn wf(&self) -> bool {
        self@.len() <= METADATA_LIMIT
    }

    pub fn new() -> (r: Self)
        ensures
            r.wf(),
            r@ == Seq::<u8>::empty(),
    {
        Self { bytes: Vec::with_capacity(METADATA_LIMIT) }
    }

    /// Whether the buffer takes no more bytes.
    pub fn is_done(&self) -> (r: bool)
        ensures
            r == (self@.len() >= METADATA_LIMIT),
    {
        self.bytes.len() >= METADATA_LIMIT
    }

    /// Takes in as much of a chunk as there is room for. True if that made the
    /// buffer full.
    pub fn offer(&mut self, chunk: &[u8]) -> (completed: bool)
        requires
            old(self).wf(),
        ensures
            final(self).wf(),
            final(self)@ == with_chunk(old(self)@, chunk@),
            completed == (old(self)@.len() < METADATA_LIMIT && final(self)@.len()
                >= METADATA_LIMIT),
    {
        let ghost before = self@;
        if self.is_done() {
            assert(with_chunk(before, chunk@) =~= before);
            return false;
        }
        let room: usize = METADATA_LIMIT - self.bytes.len();
        if chunk.len() <= room {
            self.bytes.extend_from_slice(chunk);
        } else {
            self.bytes.extend_from_slice(slice_subrange(chunk, 0, room));
        }
        assert(self@ =~= with_chunk(before, chunk@));
        self.is_done()
    }

    /// The bytes for a client that joins now.
    pub fn snapshot(&self) -> (bytes: Vec<u8>)
        ensures
            bytes@ == self@,
    {
        let mut bytes: Vec<u8> = Vec::new();
        bytes.extend_from_slice(self.bytes.as_slice());
        assert(bytes@ =~= self@);
        bytes
    }
}

/// However the stream is cut into chunks, the buffer holds its opening bytes: all
/// of them up to the limit, and never more.
pub proof fn law_metadata_opens_the_stream(chunks: Seq<Seq<u8>>)
    ensures
        buffered(chunks) == first_bytes(chunks.flatten()),
        buffered(chunks).len() <= METADATA_LIMIT,
        buffered(chunks).len() == METADATA_LIMIT <==> chunks.flatten().len() >= METADATA_LIMIT,
    decreases chunks.len(),
{
    if chunks.len() > 0 {
        let front = chunks.drop_last();
        law_metadata_opens_the_stream(front);
        assert(chunks =~= front.push(chunks.last()));
        chunks.lemma_flatten_and_flatten_alt_are_equivalent();
        front.lemma_flatten_and_flatten_alt_are_equivalent();
        assert(chunks.flatten() == front.flatten() + chunks.last());
        assert(buffered(chunks) =~= first_bytes(chunks.flatten()));
    }
}

/// The buffer holds a beginning of the stream, as long as there is room for it, and
/// not a byte less.
pub proof fn law_metadata_is_a_beginning(chunks: Seq<Seq<u8>>)
    ensures
        buffered(chunks).is_prefix_of(chunks.flatten()),
        buffered(chunks).len() == (if chunks.flatten().len() < METADATA_LIMIT {
            chunks.flatten().len()
        } else {
            METADATA_LIMIT as nat
        }),
{
    law_metadata_opens_the_stream(chunks);
}

/// Once it holds enough, the buffer does not change any more.
pub proof fn law_metadata_is_fixed_once_complete(chunks: Seq<Seq<u8>>, more: Seq<Seq<u8>>)
    requires
        buffered(chunks).len() >= METADATA_LIMIT,
    ensures
        buffered(chunks + more) == buffered(chunks),
    decreases more.len(),
{
    if more.len() == 0 {
        assert(chunks + more =~= chunks);
    } else {
        law_metadata_is_fixed_once_complete(chunks, more.drop_last());
        assert((chunks + more).drop_last() =~= chunks + more.drop_last());
        law_metadata_opens_the_stream(chunks);
        assert(with_chunk(buffered(chunks), more.last()) =~= buffered(chunks));
    }
}

/// What a client of the listener meets with.
#[derive(Debug)]
pub enum ClientEvent {
    /// It has joined; these are the opening bytes of the stream.
    Joined(Vec<u8>),
    /// The stream went on with these bytes.
    Received(Vec<u8>),
    /// The client was too slow and has missed bytes.
    Lagged,
    /// The stream is at its end.
    Closed,
    /// The bytes were sent.
    Written,
    /// The bytes could not be sent.
    WriteFailed,
}

/// What is to be done for a client.
#[derive(Debug)]
pub enum ClientStep {
    /// Send these bytes.
    Write(Vec<u8>),
    /// Wait for the stream to go on.
    Receive,
    /// Let the client go.
    Stop,
}

/// An event of a client, as contracts speak of it.
pub enum ClientHeard {
    Joined(Seq<u8>),
    Received(Seq<u8>),
    Lagged,
    Closed,
    Written,
    WriteFailed,
}

/// A step for a client, as contracts speak of it.
pub enum ClientOrder {
    Write(Seq<u8>),
    Receive,
    Stop,
}

impl View for ClientEvent {
    type V = ClientHeard;

    open spec fn view(&self) -> ClientHeard {
        match self {
            ClientEvent::Joined(bytes) => ClientHeard::Joined(bytes@),
            ClientEvent::Received(bytes) => ClientHeard::Received(bytes@),
            ClientEvent::Lagged => ClientHeard::Lagged,
            ClientEvent::Closed => ClientHeard::Closed,
            ClientEvent::Written => ClientHeard::Written,
            ClientEvent::WriteFailed => ClientHeard::WriteFailed,
        }
    }
}

impl View for ClientStep {
    type V = ClientOrder;

    open spec fn view(&self) -> ClientOrder {
        match self {
            ClientStep::Write(bytes) => ClientOrder::Write(bytes@),
            ClientStep::Receive => ClientOrder::Receive,
            ClientStep::Stop => ClientOrder::Stop,
        }
    }
}

/// What is to be done for a client.
pub open spec fn served(event: ClientHeard) -> ClientOrder {
    match event {
        ClientHeard::Joined(bytes) => if bytes.len() == 0 {
            ClientOrder::Receive
        } else {
            ClientOrder::Write(bytes)
        },
        ClientHeard::Received(bytes) => ClientOrder::Write(bytes),
        ClientHeard::Lagged | ClientHeard::Written => ClientOrder::Receive,
        ClientHeard::Closed | ClientHeard::WriteFailed => ClientOrder::Stop,
    }
}

/// What is to be done for a client of the listener: it gets the opening bytes, if
/// there are any, and then whatever comes, until the stream ends or nothing can
/// be sent.
pub fn serve(event: ClientEvent) -> (step: ClientStep)
    ensures
        step@ == served(event@),
{
    match event {
        ClientEvent::Joined(bytes) => if bytes.len() == 0 {
            ClientStep::Receive
        } else {
            ClientStep::Write(bytes)
        },
        ClientEvent::Received(bytes) => ClientStep::Write(bytes),
        ClientEvent::Lagged | ClientEvent::Written => ClientStep::Receive,
        ClientEvent::Closed | ClientEvent::WriteFailed => ClientStep::Stop,
    }
}

/// All that is sent to a client that meets with these events.
pub open spec fn sent_to_client(events: Seq<ClientHeard>) -> Seq<u8>
    decreases events.len(),
{
    if events.len() == 0 {
        Seq::empty()
    } else {
        let earlier = sent_to_client(events.drop_last());
        match served(events.last()) {
            ClientOrder::Write(bytes) => earlier + bytes,
            _ => earlier,
        }
    }
}

/// The chunks of the stream among these events.
pub open spec fn chunks_received(events: Seq<ClientHeard>) -> Seq<Seq<u8>>
    decreases events.len(),
{
    if events.len() == 0 {
        Seq::empty()
    } else {
        let earlier = chunks_received(events.drop_last());
        match events.last() {
            ClientHeard::Received(bytes) => earlier.push(bytes),
            _ => earlier,
        }
    }
}

/// Events of a client that joined once, at the start.
pub open spec fn joined_first(opening: Seq<u8>, events: Seq<ClientHeard>) -> bool {
    &&& events.len() > 0
    &&& events[0] == ClientHeard::Joined(opening)
    &&& forall|i: int| 0 < i < events.len() ==> !(#[trigger] events[i] is Joined)
}

/// A client gets the opening bytes first, and then every chunk that it receives,
/// whole and in order, and nothing else.
pub proof fn law_client_gets_opening_then_chunks(opening: Seq<u8>, events: Seq<ClientHeard>)
    requires
        joined_first(opening, events),
    ensures
        sent_to_client(events) == opening + chunks_received(events).flatten(),
    decreases events.len(),
{
    let front = events.drop_last();
    let last = events.last();
    let earlier = chunks_received(front);
    let none = Seq::<u8>::empty();
    if front.len() == 0 {
        assert(last == events[0]);
        assert(sent_to_client(front) =~= none);
        assert(earlier.flatten() =~= none);
        assert(sent_to_client(events) =~= opening + none);
    } else {
        assert(front[0] == events[0]);
        assert forall|i: int| 0 < i < front.len() implies !(#[trigger] front[i] is Joined) by {
            assert(front[i] == events[i]);
        }
        law_client_gets_opening_then_chunks(opening, front);
        assert(!(events[events.len() - 1] is Joined));
        if let ClientHeard::Received(bytes) = last {
            let all = chunks_received(events);
            assert(all.drop_last() =~= earlier);
            all.lemma_flatten_and_flatten_alt_are_equivalent();
            earlier.lemma_flatten_and_flatten_alt_are_equivalent();
            assert(all.flatten() == earlier.flatten() + bytes);
            assert(sent_to_client(events) =~= opening + all.flatten());
        }
    }
}

/// A client is let go when the stream ends or nothing can be sent, and only then.
pub proof fn law_client_is_let_go_only_for_cause(event: ClientHeard)
    ensures
        served(event) == ClientOrder::Stop <==> event == ClientHeard::Closed || event
            == ClientHeard::WriteFailed,
{
}

/// A client that missed bytes, one that was sent bytes and one that there is nothing to
/// open with wait for the stream to go on, and no other does; what it receives is sent
/// whole.
pub proof fn law_client_waits_for_more(event: ClientHeard, bytes: Seq<u8>)
    ensures
        served(event) == ClientOrder::Receive <==> event == ClientHeard::Lagged || event
            == ClientHeard::Written || event == ClientHeard::Joined(Seq::empty()),
        served(ClientHeard::Received(bytes)) == ClientOrder::Write(bytes),
        bytes.len() > 0 ==> served(ClientHeard::Joined(bytes)) == ClientOrder::Write(bytes),
{
    if let ClientHeard::Joined(opening) = event {
        if opening.len() == 0 {
            assert(opening =~= Seq::empty());
        }
    }
}

/// Contracts speak of what a client meets with, and of what is done for it, with all of
/// its bytes.
pub proof fn law_no_byte_of_a_client_is_left_out_of_view(event: ClientEvent, step: ClientStep)
    ensures
        event matches ClientEvent::Joined(bytes) ==> event@ == ClientHeard::Joined(bytes@),
        event matches ClientEvent::Received(bytes) ==> event@ == ClientHeard::Received(bytes@),
        event is Lagged <==> event@ is Lagged,
        event is Closed <==> event@ is Closed,
        event is Written <==> event@ is Written,
        event is WriteFailed <==> event@ is WriteFailed,
        step matches ClientStep::Write(bytes) ==> step@ == ClientOrder::Write(bytes@),
        step is Receive <==> step@ is Receive,
        step is Stop <==> step@ is Stop,
{
}

/// What a listener meets with.
#[derive(Debug, Clone, Copy, PartialEq, Eq, Structural)]
pub enum ListenEvent {
    /// A client connected.
    Accepted,
    /// No client can connect any more.
    AcceptFailed,
    /// The stream is at its end.
    FeedEnded,
    /// The stream was given up.
    FeedFailed,
}

/// What a listener does next.
#[derive(Debug, Clone, Copy, PartialEq, Eq, Structural)]
pub enum ListenStep {
    /// Serve the client, and wait for the next one.
    Serve,
    /// Leave, with success.
    Finish,
    /// Leave, with the error of the stream.
    Fail,
}

/// What a listener does next: it serves clients until the stream ends.
pub fn listen(event: ListenEvent) -> (step: ListenStep)
    ensures
        step == (match event {
            ListenEvent::Accepted => ListenStep::Serve,
            ListenEvent::AcceptFailed | ListenEvent::FeedEnded => ListenStep::Finish,
            ListenEvent::FeedFailed => ListenStep::Fail,
        }),
{
    match event {
        ListenEvent::Accepted => ListenStep::Serve,
        ListenEvent::AcceptFailed | ListenEvent::FeedEnded => ListenStep::Finish,
        ListenEvent::FeedFailed => ListenStep::Fail,
    }
}

} // verus!
