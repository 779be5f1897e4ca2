//! One recording of a live stream, from waiting for it to the finished file.
//!
//! [`RecordSession`] decides what is to be done next; its caller does it and
//! reports back what came of it.

use vstd::prelude::*;
use vstd::string::*;

use crate::flv::FlvFilter;
use crate::live::{wait_for_live, Wait};
use crate::reconnect::{
    backoff, still_live, too_many_reconnects, MAX_RECONNECTS, POLL_SECS, RETRY_SECS,
};
use crate::record::Format;

verus! {

/// Why a recording fails.
#[derive(Debug, Clone, Copy, PartialEq, Eq, Structural)]
pub enum RecordFailure {
    /// There was no stream URL, and the stream is not live any more.
    EndedWhileFetching,
    /// The connection was lost more often than it is replaced.
    TooManyReconnects,
    /// The last step failed.
    Step,
}

impl RecordFailure {
    /// What the user is told, or `None` where the step that failed has its own
    /// error.
    pub fn message(&self) -> (text: Option<String>)
        ensures
            *self == RecordFailure::EndedWhileFetching ==> text is Some && text->0@
                == "Stream ended while fetching URL"@,
            *self == RecordFailure::TooManyReconnects ==> text is Some && text->0@
                == "Too many reconnects ("@ + crate::text::decimal(MAX_RECONNECTS as nat) + ")"@,
            *self == RecordFailure::Step ==> text is None,
    {
        match self {
            RecordFailure::EndedWhileFetching => Some("Stream ended while fetching URL".to_owned()),
            RecordFailure::TooManyReconnects => Some(too_many_reconnects()),
            RecordFailure::Step => None,
        }
    }
}

/// How a recording ends.
#[derive(Debug, Clone, Copy, PartialEq, Eq, Structural)]
pub enum Ending {
    /// The recording is saved.
    Saved,
    /// What there is is saved, but the recording failed.
    Failed(RecordFailure),
}

/// What a session waits to hear of.
#[derive(Debug, Clone, Copy, PartialEq, Eq, Structural)]
pub enum RecordStage {
    /// The status of a stream that has not started.
    StartStatus,
    /// The end of the pause between two looks at that status.
    StartRest,
    /// Whether the output could be opened.
    Open,
    /// Whether the recording is cancelled.
    Cancel,
    /// The stream URL.
    Fetch,
    /// The status of a stream whose URL could not be had.
    FetchStatus,
    /// The end of a pause.
    Rest,
    /// What came of the connection: of all of it for audio, else of its opening.
    Connect,
    /// The next bytes.
    Read,
    /// The fate of bytes that were written.
    Write,
    /// The status of a stream whose connection ended.
    EndStatus,
    /// Whether the output could be finalised.
    Finalize(Ending),
    /// Nothing: the session is over.
    Over,
}

/// What came of a step.
#[derive(Debug)]
pub enum RecordEvent<'a> {
    /// The live status, if it could be learnt.
    Status(Option<i32>),
    /// The pause is over.
    Rested,
    /// The output is open.
    Opened,
    /// The recording is not cancelled.
    Running,
    /// The recording is cancelled.
    Cancelled,
    /// The stream URL, if it could be had.
    Url(Option<String>),
    /// The stream is open.
    Connected,
    /// The stream could not be opened.
    Unreachable,
    /// Bytes of the stream.
    Chunk(&'a [u8]),
    /// The connection failed.
    Lost,
    /// The connection was closed.
    Closed,
    /// The bytes were written.
    Written,
    /// The bytes could not be written.
    WriteFailed,
    /// The output is finalised.
    Finalized,
    /// The step failed in a way that ends the recording.
    Failed,
}

/// What is to be done next.
#[derive(Debug)]
pub enum RecordStep<'a> {
    /// Learn the live status.
    Status,
    /// Pause for this many seconds.
    Sleep(u64),
    /// Name the output and, for audio, open it.
    Open,
    /// See whether the recording is cancelled.
    CheckCancel,
    /// Get the stream URL.
    FetchUrl,
    /// Connect to the stream; for audio, record it until it ends.
    Connect(String),
    /// Wait for bytes of the stream.
    Read,
    /// Append these bytes to the output.
    Write(&'a [u8]),
    /// Finalise the output.
    Finalize,
    /// Leave, with success; true if there is a recording.
    Finish(bool),
    /// Leave, with an error.
    Fail(RecordFailure),
}

/// An event, as contracts speak of it.
pub enum Heard {
    Status(Option<i32>),
    Rested,
    Opened,
    Running,
    Cancelled,
    Url(Option<Seq<char>>),
    Connected,
    Unreachable,
    Chunk(Seq<u8>),
    Lost,
    Closed,
    Written,
    WriteFailed,
    Finalized,
    Failed,
}

/// A step, as contracts speak of it.
pub enum Order {
    Status,
    Sleep(nat),
    Open,
    CheckCancel,
    FetchUrl,
    Connect(Seq<char>),
    Read,
    Write(Seq<u8>),
    Finalize,
    Finish(bool),
    Fail(RecordFailure),
}

impl<'a> View for RecordEvent<'a> {
    type V = Heard;

    open spec fn view(&self) -> Heard {
        match self {
            RecordEvent::Status(status) => Heard::Status(*status),
            RecordEvent::Rested => Heard::Rested,
            RecordEvent::Opened => Heard::Opened,
            RecordEvent::Running => Heard::Running,
            RecordEvent::Cancelled => Heard::Cancelled,
            RecordEvent::Url(Some(url)) => Heard::Url(Some(url@)),
            RecordEvent::Url(None) => Heard::Url(None),
            RecordEvent::Connected => Heard::Connected,
            RecordEvent::Unreachable => Heard::Unreachable,
            RecordEvent::Chunk(data) => Heard::Chunk(data@),
            RecordEvent::Lost => Heard::Lost,
            RecordEvent::Closed => Heard::Closed,
            RecordEvent::Written => Heard::Written,
            RecordEvent::WriteFailed => Heard::WriteFailed,
            RecordEvent::Finalized => Heard::Finalized,
            RecordEvent::Failed => Heard::Failed,
        }
    }
}

impl<'a> View for RecordStep<'a> {
    type V = Order;

    open spec fn view(&self) -> Order {
        match self {
            RecordStep::Status => Order::Status,
            RecordStep::Sleep(secs) => Order::Sleep(*secs as nat),
            RecordStep::Open => Order::Open,
            RecordStep::CheckCancel => Order::CheckCancel,
            RecordStep::FetchUrl => Order::FetchUrl,
            RecordStep::Connect(url) => Order::Connect(url@),
            RecordStep::Read => Order::Read,
            RecordStep::Write(data) => Order::Write(data@),
            RecordStep::Finalize => Order::Finalize,
            RecordStep::Finish(saved) => Order::Finish(*saved),
            RecordStep::Fail(failure) => Order::Fail(*failure),
        }
    }
}

/// The state of a session.
pub struct RecordState {
    /// Whether audio is recorded, with an encoder, rather than the stream itself.
    pub audio: bool,
    pub stage: RecordStage,
    /// How often the connection was replaced.
    pub reconnects: nat,
    /// Which kinds of tags are kept, and how far the stream is filtered.
    pub filter: crate::flv::Filter,
    /// Whether any bytes came yet.
    pub started: bool,
}

impl RecordState {
    /// The same state, in another stage.
    pub open spec fn at(self, stage: RecordStage) -> RecordState {
        RecordState { stage, ..self }
    }
}

/// The state that a session begins in; the first step is to learn the status.
pub open spec fn opening(format: Format, no_video: bool, no_audio: bool) -> RecordState {
    RecordState {
        audio: format != Format::Flv,
        stage: RecordStage::StartStatus,
        reconnects: 0,
        filter: crate::flv::new_filter(!no_audio, !no_video),
        started: false,
    }
}

/// The step that says how a recording ended.
pub open spec fn verdict(ending: Ending) -> Order {
    match ending {
        Ending::Saved => Order::Finish(true),
        Ending::Failed(failure) => Order::Fail(failure),
    }
}

/// The state and the step that end a recording. The output of an encoder is
/// finalised first.
pub open spec fn ended(state: RecordState, ending: Ending) -> (RecordState, Order) {
    if state.audio {
        (state.at(RecordStage::Finalize(ending)), Order::Finalize)
    } else {
        (state.at(RecordStage::Over), verdict(ending))
    }
}

/// The state and the step that lead to a new connection, if one may still be
/// made. Headers of the next one are dropped only if they would be repeated.
pub open spec fn again(state: RecordState) -> (RecordState, Order) {
    if state.reconnects >= MAX_RECONNECTS {
        ended(state, Ending::Failed(RecordFailure::TooManyReconnects))
    } else {
        (
            RecordState {
                stage: RecordStage::Rest,
                reconnects: state.reconnects + 1,
                filter: if state.started {
                    crate::flv::filter_reconnected(state.filter)
                } else {
                    state.filter
                },
                ..state
            },
            Order::Sleep(crate::reconnect::pause_secs(state.reconnects + 1)),
        )
    }
}

/// What is written of bytes that come in this state.
pub open spec fn recorded(state: RecordState, data: Seq<u8>) -> Seq<u8> {
    crate::flv::filter_out(state.filter, data)
}

/// The state after bytes came.
pub open spec fn taken(state: RecordState, data: Seq<u8>) -> RecordState {
    RecordState {
        filter: crate::flv::filter_after(state.filter, data),
        started: state.started || data.len() > 0,
        ..state
    }
}

/// The state and the step that follow an event, or `None` where the event is no
/// answer to the step before it.
pub open spec fn next(state: RecordState, event: Heard) -> Option<(RecordState, Order)> {
    match (state.stage, event) {
        (RecordStage::StartStatus, Heard::Status(status)) => if status == Some(1i32) {
            Some((state.at(RecordStage::Open), Order::Open))
        } else {
            Some((state.at(RecordStage::StartRest), Order::Sleep(POLL_SECS as nat)))
        },
        (RecordStage::StartStatus, Heard::Cancelled) => Some(
            (state.at(RecordStage::Over), Order::Finish(false)),
        ),
        (RecordStage::StartRest, Heard::Rested) => Some(
            (state.at(RecordStage::StartStatus), Order::Status),
        ),
        (RecordStage::StartRest, Heard::Cancelled) => Some(
            (state.at(RecordStage::Over), Order::Finish(false)),
        ),
        (RecordStage::Open, Heard::Opened) => Some(
            (state.at(RecordStage::Cancel), Order::CheckCancel),
        ),
        (RecordStage::Open, Heard::Failed) => Some(
            (state.at(RecordStage::Over), Order::Fail(RecordFailure::Step)),
        ),
        (RecordStage::Cancel, Heard::Running) => Some(
            (state.at(RecordStage::Fetch), Order::FetchUrl),
        ),
        (RecordStage::Cancel, Heard::Cancelled) => Some(ended(state, Ending::Saved)),
        (RecordStage::Fetch, Heard::Url(Some(url))) => Some(
            (state.at(RecordStage::Connect), Order::Connect(url)),
        ),
        (RecordStage::Fetch, Heard::Url(None)) => Some(
            (state.at(RecordStage::FetchStatus), Order::Status),
        ),
        (RecordStage::FetchStatus, Heard::Status(status)) => if crate::reconnect::on_air(status) {
            Some((state.at(RecordStage::Rest), Order::Sleep(RETRY_SECS as nat)))
        } else {
            Some(ended(state, Ending::Failed(RecordFailure::EndedWhileFetching)))
        },
        (RecordStage::Rest, Heard::Rested) => Some(
            (state.at(RecordStage::Cancel), Order::CheckCancel),
        ),
        (RecordStage::Connect, Heard::Cancelled) => Some(ended(state, Ending::Saved)),
        (RecordStage::Connect, Heard::Connected) => if state.audio {
            None
        } else {
            Some((state.at(RecordStage::Read), Order::Read))
        },
        (RecordStage::Connect, Heard::Closed) => if state.audio {
            Some((state.at(RecordStage::EndStatus), Order::Status))
        } else {
            None
        },
        (RecordStage::Connect, Heard::Unreachable) => Some(again(state)),
        (RecordStage::Connect, Heard::Failed) => Some(
            (state.at(RecordStage::Over), Order::Fail(RecordFailure::Step)),
        ),
        (RecordStage::Read, Heard::Cancelled) => Some(ended(state, Ending::Saved)),
        (RecordStage::Read, Heard::Chunk(data)) => if recorded(state, data).len() == 0 {
            Some((taken(state, data), Order::Read))
        } else {
            Some((taken(state, data).at(RecordStage::Write), Order::Write(recorded(state, data))))
        },
        (RecordStage::Read, Heard::Lost) => Some(
            (state.at(RecordStage::EndStatus), Order::Status),
        ),
        (RecordStage::Read, Heard::Closed) => Some(
            (state.at(RecordStage::EndStatus), Order::Status),
        ),
        (RecordStage::Write, Heard::Written) => Some((state.at(RecordStage::Read), Order::Read)),
        (RecordStage::Write, Heard::WriteFailed) => Some(again(state)),
        (RecordStage::EndStatus, Heard::Status(status)) => if crate::reconnect::on_air(status) {
            Some(again(state))
        } else {
            Some(ended(state, Ending::Saved))
        },
        (RecordStage::Finalize(ending), Heard::Finalized) => Some(
            (state.at(RecordStage::Over), verdict(ending)),
        ),
        (RecordStage::Finalize(_), Heard::Failed) => Some(
            (state.at(RecordStage::Over), Order::Fail(RecordFailure::Step)),
        ),
        _ => None,
    }
}

/// A recording in the making.
pub struct RecordSession {
    audio: bool,
    stage: RecordStage,
    reconnects: u32,
    filter: FlvFilter,
}

impl View for RecordSession {
    type V = RecordState;

    closed spec fn view(&self) -> RecordState {
        RecordState {
            audio: self.audio,
            stage: self.stage,
            reconnects: self.reconnects as nat,
            filter: self.filter@,
            started: self.filter.is_started(),
        }
    }
}

impl RecordSession {
    /// A recording that has not started; the first step is to learn the status.
    pub fn new(format: Format, no_video: bool, no_audio: bool) -> (r: (Self, RecordStep<'static>))
        ensures
            r.0@ == opening(format, no_video, no_audio),
            r.1@ == Order::Status,
    {
        (
            Self {
                audio: format.is_audio_only(),
                stage: RecordStage::StartStatus,
                reconnects: 0,
                filter: FlvFilter::new(!no_audio, !no_video),
            },
            RecordStep::Status,
        )
    }

    /// Whether the session is over.
    pub fn is_over(&self) -> (r: bool)
        ensures
            r == (self@.stage == RecordStage::Over),
    {
        matches!(self.stage, RecordStage::Over)
    }

    /// How often the connection was replaced.
    pub fn reconnects(&self) -> (r: u32)
        ensures
            r == self@.reconnects,
    {
        self.reconnects
    }

    fn go(&mut self, stage: RecordStage, step: RecordStep<'static>) -> (r: Option<
        RecordStep<'static>,
    >)
        ensures
            final(self)@ == old(self)@.at(stage),
            r == Some(step),
    {
        self.stage = stage;
        Some(step)
    }

    fn end(&mut self, ending: Ending) -> (r: Option<RecordStep<'static>>)
        ensures
            r is Some,
            ended(old(self)@, ending) == (final(self)@, r->0@),
    {
        if self.audio {
            self.go(RecordStage::Finalize(ending), RecordStep::Finalize)
        } else {
            self.go(RecordStage::Over, verdict_step(ending))
        }
    }

    fn again(&mut self) -> (r: Option<RecordStep<'static>>)
        ensures
            r is Some,
            again(old(self)@) == (final(self)@, r->0@),
    {
        if self.reconnects >= MAX_RECONNECTS {
            return self.end(Ending::Failed(RecordFailure::TooManyReconnects));
        }
        self.reconnects += 1;
        if self.filter.has_started() {
            self.filter.mark_reconnect();
        }
        let secs: u64 = backoff(self.reconnects);
        self.go(RecordStage::Rest, RecordStep::Sleep(secs))
    }

    fn chunk<'a>(&'a mut self, data: &'a [u8]) -> (r: Option<RecordStep<'a>>)
        requires
            old(self)@.stage == RecordStage::Read,
        ensures
            r is Some,
            next(old(self)@, Heard::Chunk(data@)) == Some((final(self)@, r->0@)),
    {
        let out = self.filter.process(data);
        if out.len() == 0 {
            Some(RecordStep::Read)
        } else {
            self.stage = RecordStage::Write;
            Some(RecordStep::Write(out))
        }
    }

    /// Takes in what came of the last step, and says what is to be done next.
    /// An event that is no answer to that step is not taken in.
    pub fn handle<'a>(&'a mut self, event: RecordEvent<'a>) -> (r: Option<RecordStep<'a>>)
        ensures
            match next(old(self)@, event@) {
                Some((state, step)) => final(self)@ == state && r is Some && r->0@ == step,
                None => final(self)@ == old(self)@ && r is None,
            },
    {
        match (self.stage, event) {
            (RecordStage::StartStatus, RecordEvent::Status(status)) => match wait_for_live(status) {
                Wait::Live => self.go(RecordStage::Open, RecordStep::Open),
                Wait::Sleep(secs) => self.go(RecordStage::StartRest, RecordStep::Sleep(secs)),
            },
            (RecordStage::StartStatus, RecordEvent::Cancelled) => self.go(
                RecordStage::Over,
                RecordStep::Finish(false),
            ),
            (RecordStage::StartRest, RecordEvent::Rested) => self.go(
                RecordStage::StartStatus,
                RecordStep::Status,
            ),
            (RecordStage::StartRest, RecordEvent::Cancelled) => self.go(
                RecordStage::Over,
                RecordStep::Finish(false),
            ),
            (RecordStage::Open, RecordEvent::Opened) => self.go(
                RecordStage::Cancel,
                RecordStep::CheckCancel,
            ),
            (RecordStage::Open, RecordEvent::Failed) => self.go(
                RecordStage::Over,
                RecordStep::Fail(RecordFailure::Step),
            ),
            (RecordStage::Cancel, RecordEvent::Running) => self.go(
                RecordStage::Fetch,
                RecordStep::FetchUrl,
            ),
            (RecordStage::Cancel, RecordEvent::Cancelled) => self.end(Ending::Saved),
            (RecordStage::Fetch, RecordEvent::Url(Some(url))) => self.go(
                RecordStage::Connect,
                RecordStep::Connect(url),
            ),
            (RecordStage::Fetch, RecordEvent::Url(None)) => self.go(
                RecordStage::FetchStatus,
                RecordStep::Status,
            ),
            (RecordStage::FetchStatus, RecordEvent::Status(status)) => if still_live(status) {
                self.go(RecordStage::Rest, RecordStep::Sleep(RETRY_SECS))
            } else {
                self.end(Ending::Failed(RecordFailure::EndedWhileFetching))
            },
            (RecordStage::Rest, RecordEvent::Rested) => self.go(
                RecordStage::Cancel,
                RecordStep::CheckCancel,
            ),
            (RecordStage::Connect, RecordEvent::Cancelled) => self.end(Ending::Saved),
            (RecordStage::Connect, RecordEvent::Connected) => if self.audio {
                None
            } else {
                self.go(RecordStage::Read, RecordStep::Read)
            },
            (RecordStage::Connect, RecordEvent::Closed) => if self.audio {
                self.go(RecordStage::EndStatus, RecordStep::Status)
            } else {
                None
            },
            (RecordStage::Connect, RecordEvent::Unreachable) => self.again(),
            (RecordStage::Connect, RecordEvent::Failed) => self.go(
                RecordStage::Over,
                RecordStep::Fail(RecordFailure::Step),
            ),
            (RecordStage::Read, RecordEvent::Cancelled) => self.end(Ending::Saved),
            (RecordStage::Read, RecordEvent::Chunk(data)) => self.chunk(data),
            (RecordStage::Read, RecordEvent::Lost) => self.go(
                RecordStage::EndStatus,
                RecordStep::Status,
            ),
            (RecordStage::Read, RecordEvent::Closed) => self.go(
                RecordStage::EndStatus,
                RecordStep::Status,
            ),
            (RecordStage::Write, RecordEvent::Written) => self.go(
                RecordStage::Read,
                RecordStep::Read,
            ),
            (RecordStage::Write, RecordEvent::WriteFailed) => self.again(),
            (RecordStage::EndStatus, RecordEvent::Status(status)) => if still_live(status) {
                self.again()
            } else {
                self.end(Ending::Saved)
            },
            (RecordStage::Finalize(ending), RecordEvent::Finalized) => self.go(
                RecordStage::Over,
                verdict_step(ending),
            ),
            (RecordStage::Finalize(_), RecordEvent::Failed) => self.go(
                RecordStage::Over,
                RecordStep::Fail(RecordFailure::Step),
            ),
            _ => None,
        }
    }
}

fn verdict_step(ending: Ending) -> (step: RecordStep<'static>)
    ensures
        step@ == verdict(ending),
{
    match ending {
        Ending::Saved => RecordStep::Finish(true),
        Ending::Failed(failure) => RecordStep::Fail(failure),
    }
}

/// The state after these events, in order, of a session that begins in `start`.
pub open spec fn state_after(start: RecordState, events: Seq<Heard>) -> RecordState
    decreases events.len(),
{
    if events.len() == 0 {
        start
    } else {
        let before = state_after(start, events.drop_last());
        match next(before, events.last()) {
            Some((state, _)) => state,
            None => before,
        }
    }
}

/// The steps that these events lead to, after the opening one.
pub open spec fn steps_of(start: RecordState, events: Seq<Heard>) -> Seq<Order>
    decreases events.len(),
{
    if events.len() == 0 {
        Seq::empty()
    } else {
        let earlier = steps_of(start, events.drop_last());
        match next(state_after(start, events.drop_last()), events.last()) {
            Some((_, step)) => earlier.push(step),
            None => earlier,
        }
    }
}

/// The pauses before reconnections that these events lead to.
pub open spec fn pauses_of(start: RecordState, events: Seq<Heard>) -> Seq<nat>
    decreases events.len(),
{
    if events.len() == 0 {
        Seq::empty()
    } else {
        let earlier = pauses_of(start, events.drop_last());
        let before = state_after(start, events.drop_last());
        match next(before, events.last()) {
            Some((after, Order::Sleep(secs))) => if after.reconnects > before.reconnects {
                earlier.push(secs)
            } else {
                earlier
            },
            _ => earlier,
        }
    }
}

/// How often these events have the output opened.
pub open spec fn times_opened(start: RecordState, events: Seq<Heard>) -> nat
    decreases events.len(),
{
    if events.len() == 0 {
        0
    } else {
        let earlier = times_opened(start, events.drop_last());
        match next(state_after(start, events.drop_last()), events.last()) {
            Some((_, Order::Open)) => earlier + 1,
            _ => earlier,
        }
    }
}

/// A session that has not seen its stream live.
pub open spec fn is_waiting(state: RecordState) -> bool {
    state.stage == RecordStage::StartStatus || state.stage == RecordStage::StartRest
}

/// Before the stream is live a session does nothing but look at the status every
/// few seconds, until it is cancelled: no output is opened and nothing written.
#[verifier::rlimit(40)]
pub proof fn law_waits_until_live(
    format: Format,
    no_video: bool,
    no_audio: bool,
    events: Seq<Heard>,
)
    requires
        forall|i: int| 0 <= i < events.len() ==> #[trigger] events[i] != Heard::Status(Some(1i32)),
    ensures
        ({
            let start = opening(format, no_video, no_audio);
            let steps = steps_of(start, events);
            &&& is_waiting(state_after(start, events)) || state_after(start, events).stage
                == RecordStage::Over
            &&& forall|i: int|
                0 <= i < steps.len() ==> #[trigger] steps[i] == Order::Status || steps[i]
                    == Order::Sleep(POLL_SECS as nat) || steps[i] == Order::Finish(false)
        }),
    decreases events.len(),
{
    if events.len() > 0 {
        let front = events.drop_last();
        assert forall|i: int| 0 <= i < front.len() implies #[trigger] front[i] != Heard::Status(
            Some(1i32),
        ) by {
            assert(front[i] == events[i]);
        }
        law_waits_until_live(format, no_video, no_audio, front);
        assert(events[events.len() - 1] != Heard::Status(Some(1i32)));
    }
}

proof fn lemma_opens_once(state: RecordState, event: Heard)
    ensures
        next(state, event) matches Some((after, step)) ==> (is_waiting(after) ==> is_waiting(
            state,
        )) && (step == Order::Open ==> is_waiting(state) && !is_waiting(after)),
{
}

/// There is one recording per session: whatever happens, its output is opened at
/// most once, and a session that has seen its stream live does not wait for it to
/// start again.
pub proof fn law_one_recording_per_session(
    format: Format,
    no_video: bool,
    no_audio: bool,
    events: Seq<Heard>,
)
    ensures
        ({
            let start = opening(format, no_video, no_audio);
            &&& times_opened(start, events) <= 1
            &&& is_waiting(state_after(start, events)) ==> times_opened(start, events) == 0
        }),
    decreases events.len(),
{
    if events.len() > 0 {
        let front = events.drop_last();
        law_one_recording_per_session(format, no_video, no_audio, front);
        lemma_opens_once(
            state_after(opening(format, no_video, no_audio), front),
            events.last(),
        );
    }
}

/// The connection is replaced a bounded number of times, and the pauses before
/// that follow the backoff.
#[verifier::rlimit(40)]
pub proof fn law_reconnects_back_off(
    format: Format,
    no_video: bool,
    no_audio: bool,
    events: Seq<Heard>,
)
    ensures
        ({
            let start = opening(format, no_video, no_audio);
            let pauses = pauses_of(start, events);
            &&& state_after(start, events).reconnects <= MAX_RECONNECTS
            &&& pauses.len() == state_after(start, events).reconnects
            &&& forall|i: int|
                0 <= i < pauses.len() ==> #[trigger] pauses[i] == crate::reconnect::pause_secs(
                    (i + 1) as nat,
                )
        }),
    decreases events.len(),
{
    if events.len() > 0 {
        law_reconnects_back_off(format, no_video, no_audio, events.drop_last());
    }
}

/// A cancelled recording ends with success, wherever that can come to its notice:
/// without a recording as long as the stream has not started, else with one.
pub proof fn law_cancelling_ends_cleanly(state: RecordState)
    ensures
        is_waiting(state) ==> next(state, Heard::Cancelled) == Some(
            (state.at(RecordStage::Over), Order::Finish(false)),
        ),
        state.stage == RecordStage::Cancel || state.stage == RecordStage::Connect || state.stage
            == RecordStage::Read ==> next(state, Heard::Cancelled) == Some(
            ended(state, Ending::Saved),
        ),
{
}

/// When a connection ends and the stream is not live any more, the recording ends
/// with success, however many reconnections there were.
pub proof fn law_offline_ends_cleanly(state: RecordState, status: Option<i32>)
    requires
        state.stage == RecordStage::EndStatus,
        !crate::reconnect::on_air(status),
    ensures
        next(state, Heard::Status(status)) == Some(ended(state, Ending::Saved)),
{
}

/// When a connection ends and the stream is live or looping, a new connection is
/// made, as long as that is not done too often: after the pause that is due, and
/// unless the recording is cancelled, the stream URL is asked for again.
pub proof fn law_live_stream_is_reconnected(state: RecordState, status: Option<i32>)
    requires
        state.stage == RecordStage::EndStatus,
        state.reconnects < MAX_RECONNECTS,
        crate::reconnect::on_air(status),
    ensures
        next(state, Heard::Status(status)) matches Some((resting, pause)) && pause == Order::Sleep(
            crate::reconnect::pause_secs(state.reconnects + 1),
        ) && (next(resting, Heard::Rested) matches Some((checking, _)) && next(
            checking,
            Heard::Running,
        ) == Some((checking.at(RecordStage::Fetch), Order::FetchUrl))),
{
}

/// A recording of audio that has begun ends only after its output was finalised,
/// unless a step failed; it is never called saved before that.
pub proof fn law_audio_is_finalised(state: RecordState, event: Heard)
    requires
        state.audio,
        !is_waiting(state),
    ensures
        next(state, event) matches Some((after, _)) ==> (after.stage == RecordStage::Over
            ==> state.stage is Finalize || event == Heard::Failed),
        next(state, event) matches Some((_, Order::Finish(_))) ==> state.stage
            == RecordStage::Finalize(Ending::Saved) && event == Heard::Finalized,
{
}

/// Apart from steps that fail, a recording fails only when the connection is lost
/// once too often, or when its stream ends while the URL is fetched.
pub proof fn law_fails_only_for_cause(state: RecordState, event: Heard, failure: RecordFailure)
    requires
        !(state.stage is Finalize),
        event != Heard::Failed,
        next(state, event) matches Some((after, step)) && (step == Order::Fail(failure)
            || after.stage == RecordStage::Finalize(Ending::Failed(failure))),
    ensures
        failure == RecordFailure::TooManyReconnects && state.reconnects >= MAX_RECONNECTS || failure
            == RecordFailure::EndedWhileFetching && state.stage == RecordStage::FetchStatus,
{
}

/// Once a session is over, nothing follows.
pub proof fn law_over_is_final(state: RecordState, event: Heard)
    requires
        state.stage == RecordStage::Over,
    ensures
        next(state, event) is None,
{
}

/// What is written of a connection that brings these bytes, one chunk after the
/// other, all of them being written.
pub open spec fn written(state: RecordState, chunks: Seq<Seq<u8>>) -> Seq<u8>
    decreases chunks.len(),
{
    if chunks.len() == 0 {
        Seq::empty()
    } else {
        match next(state, Heard::Chunk(chunks[0])) {
            Some((writing, Order::Write(data))) => match next(writing, Heard::Written) {
                Some((reading, _)) => data + written(reading, chunks.drop_first()),
                None => data,
            },
            Some((reading, _)) => written(reading, chunks.drop_first()),
            None => Seq::empty(),
        }
    }
}

proof fn lemma_written_step(state: RecordState, chunks: Seq<Seq<u8>>)
    requires
        state.stage == RecordStage::Read,
        chunks.len() > 0,
    ensures
        written(state, chunks) == recorded(state, chunks[0]) + written(
            taken(state, chunks[0]),
            chunks.drop_first(),
        ),
{
    let data = chunks[0];
    let after = taken(state, data);
    assert(after.at(RecordStage::Write).at(RecordStage::Read) == after);
    if recorded(state, data).len() == 0 {
        assert(recorded(state, data) + written(after, chunks.drop_first()) =~= written(
            after,
            chunks.drop_first(),
        ));
    }
}

/// However a connection is cut into chunks, what is written of it is what the filter
/// leaves of it as a whole.
pub proof fn law_connection_is_written(state: RecordState, chunks: Seq<Seq<u8>>)
    requires
        state.stage == RecordStage::Read,
    ensures
        written(state, chunks) == crate::flv::filter_all(state.filter, chunks),
        written(state, chunks) == crate::flv::filter_out(state.filter, chunks.flatten()),
    decreases chunks.len(),
{
    crate::flv::law_filtering_ignores_cuts(state.filter, chunks);
    if chunks.len() > 0 {
        lemma_written_step(state, chunks);
        law_connection_is_written(taken(state, chunks[0]), chunks.drop_first());
    }
}

/// With audio and video both kept, the first connection is written whole.
pub proof fn law_first_connection_is_written_whole(state: RecordState, chunks: Seq<Seq<u8>>)
    requires
        state.stage == RecordStage::Read,
        state.filter == crate::flv::new_filter(true, true),
    ensures
        written(state, chunks) == chunks.flatten(),
{
    law_connection_is_written(state, chunks);
}

/// Of a first connection that brings a file header and tags, cut into chunks
/// anywhere, exactly the header and the tags of the kinds that are kept are
/// written, in their order, and of a tag that is cut off at the end what there is,
/// if its kind is kept. Without such a tag the recording is a valid stream.
pub proof fn law_only_kept_tags_are_written(
    state: RecordState,
    header: Seq<u8>,
    tags: Seq<Seq<u8>>,
    tail: Seq<u8>,
    chunks: Seq<Seq<u8>>,
)
    requires
        state.stage == RecordStage::Read,
        state.filter == crate::flv::new_filter(state.filter.keep_audio, state.filter.keep_video),
        crate::flv::is_file_header(header),
        crate::flv::all_tags(tags),
        crate::flv::no_tag_yet(tail),
        chunks.flatten() == header + tags.flatten() + tail,
    ensures
        written(state, chunks) == header + tags.filter(
            crate::flv::keeping(state.filter.keep_audio, state.filter.keep_video),
        ).flatten() + crate::flv::tail_kept(
            tail,
            state.filter.keep_audio,
            state.filter.keep_video,
        ),
        tail.len() == 0 ==> crate::flv::is_flv(written(state, chunks)),
{
    law_connection_is_written(state, chunks);
    crate::flv::law_filtered_stream_stays_valid(
        header,
        tags,
        tail,
        state.filter.keep_audio,
        state.filter.keep_video,
        chunks,
    );
}

/// Of a connection that replaces another, cut into chunks anywhere, exactly the tags
/// of the kinds that are kept are written, in their order, from the first audio or
/// video tag on; so what was recorded before stays a valid stream: a file header and
/// complete tags.
pub proof fn law_only_kept_tags_follow_a_reconnect(
    before: Seq<u8>,
    state: RecordState,
    header: Seq<u8>,
    lead: Seq<Seq<u8>>,
    rest: Seq<Seq<u8>>,
    chunks: Seq<Seq<u8>>,
)
    requires
        crate::flv::is_flv(before),
        state.stage == RecordStage::Read,
        state.filter == crate::flv::filter_reconnected(state.filter),
        crate::flv::is_file_header(header),
        crate::flv::all_tags(lead),
        crate::flv::no_media(lead),
        crate::flv::all_tags(rest),
        rest.len() > 0 ==> crate::flv::is_media(crate::flv::kind_of(rest[0])),
        chunks.flatten() == header + lead.flatten() + rest.flatten(),
    ensures
        written(state, chunks) == rest.filter(
            crate::flv::keeping(state.filter.keep_audio, state.filter.keep_video),
        ).flatten(),
        crate::flv::is_flv(before + written(state, chunks)),
{
    law_connection_is_written(state, chunks);
    crate::flv::law_filter_after_reconnect(before, state.filter, header, lead, rest, chunks);
}

/// What is recorded of two connections, each a file header and complete tags that are
/// cut into chunks anywhere, makes up one valid stream: the file header of the first,
/// and the tags of the kinds that are kept, those of the second from its first audio
/// or video tag on.
pub proof fn law_recording_stays_valid_across_reconnects(
    first: RecordState,
    second: RecordState,
    header: Seq<u8>,
    tags: Seq<Seq<u8>>,
    chunks: Seq<Seq<u8>>,
    header_again: Seq<u8>,
    lead: Seq<Seq<u8>>,
    rest: Seq<Seq<u8>>,
    chunks_again: Seq<Seq<u8>>,
)
    requires
        first.stage == RecordStage::Read,
        first.filter == crate::flv::new_filter(first.filter.keep_audio, first.filter.keep_video),
        second.stage == RecordStage::Read,
        second.filter == crate::flv::filter_reconnected(first.filter),
        crate::flv::is_file_header(header),
        crate::flv::all_tags(tags),
        chunks.flatten() == header + tags.flatten(),
        crate::flv::is_file_header(header_again),
        crate::flv::all_tags(lead),
        crate::flv::no_media(lead),
        crate::flv::all_tags(rest),
        rest.len() > 0 ==> crate::flv::is_media(crate::flv::kind_of(rest[0])),
        chunks_again.flatten() == header_again + lead.flatten() + rest.flatten(),
    ensures
        ({
            let recording = written(first, chunks) + written(second, chunks_again);
            let keep = crate::flv::keeping(first.filter.keep_audio, first.filter.keep_video);
            &&& recording == header + (tags + rest).filter(keep).flatten()
            &&& crate::flv::is_flv(recording)
        }),
{
    let keep = crate::flv::keeping(first.filter.keep_audio, first.filter.keep_video);
    let none = Seq::<u8>::empty();
    assert(chunks.flatten() =~= header + tags.flatten() + none);
    law_only_kept_tags_are_written(first, header, tags, none, chunks);
    law_only_kept_tags_follow_a_reconnect(
        written(first, chunks),
        second,
        header_again,
        lead,
        rest,
        chunks_again,
    );
    Seq::filter_distributes_over_add(tags, rest, keep);
    crate::flv::lemma_flatten_add(tags.filter(keep), rest.filter(keep));
    assert(written(first, chunks) + written(second, chunks_again) =~= header + (tags + rest).filter(
        keep,
    ).flatten());
}

/// Whether a session is about to make a connection.
pub open spec fn unconnected(stage: RecordStage) -> bool {
    ||| stage == RecordStage::StartStatus
    ||| stage == RecordStage::StartRest
    ||| stage == RecordStage::Open
    ||| stage == RecordStage::Cancel
    ||| stage == RecordStage::Fetch
    ||| stage == RecordStage::FetchStatus
    ||| stage == RecordStage::Rest
    ||| stage == RecordStage::Connect
}

proof fn lemma_filter_is_reset(state: RecordState, event: Heard, first: crate::flv::Filter)
    requires
        !state.started ==> state.filter == first,
        state.started && unconnected(state.stage) ==> state.filter
            == crate::flv::filter_reconnected(state.filter),
    ensures
        next(state, event) matches Some((after, _)) ==> (!after.started ==> after.filter == first)
            && (after.started && unconnected(after.stage) ==> after.filter
            == crate::flv::filter_reconnected(after.filter)),
        next(state, event) matches Some((after, _)) ==> after.filter.keep_audio
            == state.filter.keep_audio && after.filter.keep_video == state.filter.keep_video,
{
}

/// The kinds of tags that are kept never change. Headers are written as long as
/// nothing was received, and the headers of every connection after that are dropped:
/// they would be repeated.
pub proof fn law_headers_are_dropped_once_repeated(
    format: Format,
    no_video: bool,
    no_audio: bool,
    events: Seq<Heard>,
)
    ensures
        ({
            let state = state_after(opening(format, no_video, no_audio), events);
            &&& state.filter.keep_audio == !no_audio
            &&& state.filter.keep_video == !no_video
            &&& !state.started ==> state.filter == crate::flv::new_filter(!no_audio, !no_video)
            &&& state.started && unconnected(state.stage) ==> state.filter
                == crate::flv::filter_reconnected(state.filter)
        }),
    decreases events.len(),
{
    if events.len() > 0 {
        let front = events.drop_last();
        law_headers_are_dropped_once_repeated(format, no_video, no_audio, front);
        lemma_filter_is_reset(
            state_after(opening(format, no_video, no_audio), front),
            events.last(),
            crate::flv::new_filter(!no_audio, !no_video),
        );
    }
}

/// The stream URL that was fetched is the URL that is opened, to the last character,
/// and none is opened but on hearing of it.
pub proof fn law_fetched_url_is_opened(state: RecordState, event: Heard, url: Seq<char>)
    ensures
        state.stage == RecordStage::Fetch ==> (next(state, Heard::Url(Some(url))) matches Some(
            (after, step),
        ) && step == Order::Connect(url) && after == state.at(RecordStage::Connect)),
        next(state, event) matches Some((_, Order::Connect(opened))) ==> event == Heard::Url(
            Some(opened),
        ),
{
}

/// Over whole runs, every URL that is opened was fetched: it is the text of the event
/// directly before.
pub proof fn law_every_opened_url_was_fetched(start: RecordState, events: Seq<Heard>)
    ensures
        steps_of(start, events).len() > steps_of(start, events.drop_last()).len()
            && events.len() > 0 ==> (steps_of(start, events).last() matches Order::Connect(url)
            ==> events.last() == Heard::Url(Some(url))),
        forall|i: int|
            0 <= i < steps_of(start, events).len() ==> (#[trigger] steps_of(start, events)[i] matches Order::Connect(
                url,
            ) ==> events.contains(Heard::Url(Some(url)))),
    decreases events.len(),
{
    if events.len() > 0 {
        let front = events.drop_last();
        let steps = steps_of(start, events);
        let earlier = steps_of(start, front);
        law_every_opened_url_was_fetched(start, front);
        assert(events[events.len() - 1] == events.last());
        assert forall|i: int| 0 <= i < steps.len() implies (
        #[trigger] steps[i] matches Order::Connect(url) ==> events.contains(
            Heard::Url(Some(url)),
        )) by {
            if let Order::Connect(url) = steps[i] {
                if i < earlier.len() {
                    assert(earlier[i] == steps[i]);
                    assert(front.contains(Heard::Url(Some(url))));
                    let k = choose|k: int|
                        0 <= k < front.len() && front[k] == Heard::Url(Some(url));
                    assert(events[k] == Heard::Url(Some(url)));
                } else {
                    law_fetched_url_is_opened(state_after(start, front), events.last(), url);
                }
            }
        }
    }
}

/// A stream that is waited for and is live is recorded: the output is opened, and
/// unless the recording is cancelled the stream URL is asked for. As long as it is not
/// live, the status is asked for again after a pause.
pub proof fn law_live_stream_is_recorded(state: RecordState, status: Option<i32>)
    requires
        state.stage == RecordStage::StartStatus,
    ensures
        next(state, Heard::Status(Some(1i32))) == Some((state.at(RecordStage::Open), Order::Open)),
        next(state.at(RecordStage::Open), Heard::Opened) == Some(
            (state.at(RecordStage::Cancel), Order::CheckCancel),
        ),
        next(state.at(RecordStage::Cancel), Heard::Running) == Some(
            (state.at(RecordStage::Fetch), Order::FetchUrl),
        ),
        status != Some(1i32) ==> next(state, Heard::Status(status)) == Some(
            (state.at(RecordStage::StartRest), Order::Sleep(POLL_SECS as nat)),
        ),
        next(state.at(RecordStage::StartRest), Heard::Rested) == Some((state, Order::Status)),
{
}

/// Where no stream URL can be had, the status decides: live or looping, the URL is
/// asked for again after a pause, and unless the recording is cancelled, with no
/// reconnection counted; with any other status, or none, the recording fails.
pub proof fn law_missing_url_is_asked_for_again(state: RecordState, status: Option<i32>)
    requires
        state.stage == RecordStage::Fetch,
    ensures
        next(state, Heard::Url(None)) == Some((state.at(RecordStage::FetchStatus), Order::Status)),
        status == Some(1i32) || status == Some(2i32) ==> next(
            state.at(RecordStage::FetchStatus),
            Heard::Status(status),
        ) == Some((state.at(RecordStage::Rest), Order::Sleep(RETRY_SECS as nat))),
        status != Some(1i32) && status != Some(2i32) ==> next(
            state.at(RecordStage::FetchStatus),
            Heard::Status(status),
        ) == Some(
            ended(
                state.at(RecordStage::FetchStatus),
                Ending::Failed(RecordFailure::EndedWhileFetching),
            ),
        ),
        next(state.at(RecordStage::Rest), Heard::Rested) == Some(
            (state.at(RecordStage::Cancel), Order::CheckCancel),
        ),
{
}

/// A connection that is made is read, chunk by chunk, each being written before the
/// next is read. Audio is read by the encoder, and reported on when it ends.
pub proof fn law_connection_is_read(state: RecordState)
    requires
        state.stage == RecordStage::Connect,
    ensures
        !state.audio ==> next(state, Heard::Connected) == Some(
            (state.at(RecordStage::Read), Order::Read),
        ),
        state.audio ==> next(state, Heard::Connected) is None,
        state.audio ==> next(state, Heard::Closed) == Some(
            (state.at(RecordStage::EndStatus), Order::Status),
        ),
        !state.audio ==> next(state, Heard::Closed) is None,
        next(state.at(RecordStage::Write), Heard::Written) == Some(
            (state.at(RecordStage::Read), Order::Read),
        ),
{
}

/// When a connection fails or closes while it is read, the status is asked for.
pub proof fn law_end_of_connection_is_looked_into(state: RecordState)
    requires
        state.stage == RecordStage::Read,
    ensures
        next(state, Heard::Lost) == Some((state.at(RecordStage::EndStatus), Order::Status)),
        next(state, Heard::Closed) == Some((state.at(RecordStage::EndStatus), Order::Status)),
{
}

/// What leads to a new connection: that a stream which is live or looping ended its
/// connection, that the server could not be reached, that bytes could not be written.
/// Then the connections are counted, the pause is the one that is due for that count,
/// and the headers of the next connection are dropped if any bytes came; once too
/// many were lost, the recording ends as failed.
pub proof fn law_connection_is_replaced(state: RecordState, event: Heard)
    requires
        state.stage == RecordStage::EndStatus && (event == Heard::Status(Some(1i32)) || event
            == Heard::Status(Some(2i32))) || state.stage == RecordStage::Connect && event
            == Heard::Unreachable || state.stage == RecordStage::Write && event
            == Heard::WriteFailed,
    ensures
        state.reconnects < MAX_RECONNECTS ==> (next(state, event) matches Some((after, step))
            && step == Order::Sleep(crate::reconnect::pause_secs(state.reconnects + 1))
            && after.stage == RecordStage::Rest && after.reconnects == state.reconnects + 1
            && after.started == state.started && after.audio == state.audio && after.filter == (
        if state.started {
            crate::flv::filter_reconnected(state.filter)
        } else {
            state.filter
        })),
        state.reconnects >= MAX_RECONNECTS ==> next(state, event) == Some(
            ended(state, Ending::Failed(RecordFailure::TooManyReconnects)),
        ),
{
}

/// A connection that ended while the stream is neither live nor looping, or while its
/// status could not be learnt, ends the recording, and that is no failure.
pub proof fn law_offline_stream_ends_the_recording(state: RecordState, status: Option<i32>)
    requires
        state.stage == RecordStage::EndStatus,
        status != Some(1i32),
        status != Some(2i32),
    ensures
        next(state, Heard::Status(status)) == Some(ended(state, Ending::Saved)),
{
}

/// A recording that ends tells how: saved or not, after the output of an encoder was
/// finalised, and only then.
pub proof fn law_ending_is_told(state: RecordState, failure: RecordFailure)
    ensures
        ({
            let saved = ended(state, Ending::Saved);
            let failed = ended(state, Ending::Failed(failure));
            let over = state.at(RecordStage::Over);
            &&& !state.audio ==> saved == (over, Order::Finish(true))
            &&& !state.audio ==> failed == (over, Order::Fail(failure))
            &&& state.audio ==> saved.1 == Order::Finalize && failed.1 == Order::Finalize
            &&& state.audio ==> next(saved.0, Heard::Finalized) == Some((over, Order::Finish(true)))
            &&& state.audio ==> next(failed.0, Heard::Finalized) == Some(
                (over, Order::Fail(failure)),
            )
            &&& state.audio ==> next(saved.0, Heard::Failed) == Some(
                (over, Order::Fail(RecordFailure::Step)),
            )
            &&& state.audio ==> next(failed.0, Heard::Failed) == Some(
                (over, Order::Fail(RecordFailure::Step)),
            )
        }),
{
}

/// A step that fails ends the recording with an error.
pub proof fn law_failed_step_ends_the_recording(state: RecordState)
    requires
        state.stage == RecordStage::Open || state.stage == RecordStage::Connect,
    ensures
        next(state, Heard::Failed) == Some(
            (state.at(RecordStage::Over), Order::Fail(RecordFailure::Step)),
        ),
{
}

/// Only bytes of the stream are written, as the filter leaves them, and never an empty
/// chunk; whatever the filter leaves is written.
pub proof fn law_what_the_filter_leaves_is_written(state: RecordState, event: Heard, data: Seq<u8>)
    ensures
        next(state, event) matches Some((_, Order::Write(bytes))) ==> state.stage
            == RecordStage::Read && bytes.len() > 0 && (event matches Heard::Chunk(came) && bytes
            == crate::flv::filter_out(state.filter, came)),
        state.stage == RecordStage::Read ==> (next(state, Heard::Chunk(data)) matches Some(
            (after, step),
        ) && step == (if crate::flv::filter_out(state.filter, data).len() > 0 {
            Order::Write(crate::flv::filter_out(state.filter, data))
        } else {
            Order::Read
        }) && after.filter == crate::flv::filter_after(state.filter, data) && after.reconnects
            == state.reconnects && after.started == (state.started || data.len() > 0)),
{
}

/// Whether an event is an answer to a step.
pub open spec fn answers(step: Order, event: Heard) -> bool {
    match step {
        Order::Status => event is Status || event is Cancelled,
        Order::Sleep(_) => event is Rested || event is Cancelled,
        Order::Open => event is Opened || event is Failed,
        Order::CheckCancel => event is Running || event is Cancelled,
        Order::FetchUrl => event is Url,
        Order::Connect(_) => event is Connected || event is Closed || event is Unreachable || event
            is Failed || event is Cancelled,
        Order::Read => event is Chunk || event is Lost || event is Closed || event is Cancelled,
        Order::Write(_) => event is Written || event is WriteFailed,
        Order::Finalize => event is Finalized || event is Failed,
        Order::Finish(_) | Order::Fail(_) => false,
    }
}

/// After a step nothing is taken in but an answer to it; what a session records, and
/// with which kinds of tags, never changes.
pub proof fn law_only_answers_are_taken_in(state: RecordState, event: Heard, then: Heard)
    ensures
        next(state, event) matches Some((after, step)) ==> (next(after, then) is Some ==> answers(
            step,
            then,
        )),
        next(state, event) matches Some((after, _)) ==> after.audio == state.audio
            && after.filter.keep_audio == state.filter.keep_audio && after.filter.keep_video
            == state.filter.keep_video,
        next(state, event) matches Some((after, step)) ==> after.reconnects == state.reconnects
            || after.reconnects == state.reconnects + 1 && step is Sleep,
{
}

/// Whether a session waits for such an event in this stage.
pub open spec fn is_awaited(stage: RecordStage, audio: bool, event: Heard) -> bool {
    match stage {
        RecordStage::StartStatus => event is Status || event is Cancelled,
        RecordStage::StartRest => event is Rested || event is Cancelled,
        RecordStage::Open => event is Opened || event is Failed,
        RecordStage::Cancel => event is Running || event is Cancelled,
        RecordStage::Fetch => event is Url,
        RecordStage::FetchStatus | RecordStage::EndStatus => event is Status,
        RecordStage::Rest => event is Rested,
        RecordStage::Connect => event is Unreachable || event is Failed || event is Cancelled || (
        if audio {
            event is Closed
        } else {
            event is Connected
        }),
        RecordStage::Read => event is Chunk || event is Lost || event is Closed || event
            is Cancelled,
        RecordStage::Write => event is Written || event is WriteFailed,
        RecordStage::Finalize(_) => event is Finalized || event is Failed,
        RecordStage::Over => false,
    }
}

/// Exactly the events that a session waits for are taken in.
pub proof fn law_exactly_awaited_events_are_taken_in(state: RecordState, event: Heard)
    ensures
        next(state, event) is Some <==> is_awaited(state.stage, state.audio, event),
{
}

/// What is recorded follows from what was asked for: audio with an encoder in every
/// format but FLV, and in FLV the kinds of tags that were not turned off.
pub proof fn law_recording_is_as_asked_for(format: Format, no_video: bool, no_audio: bool)
    ensures
        opening(format, no_video, no_audio).audio <==> format != Format::Flv,
        opening(format, no_video, no_audio).filter.keep_audio == !no_audio,
        opening(format, no_video, no_audio).filter.keep_video == !no_video,
        opening(format, no_video, no_audio).reconnects == 0,
        !opening(format, no_video, no_audio).started,
        opening(format, no_video, no_audio).stage == RecordStage::StartStatus,
{
}

/// Contracts speak of an event, and of a step, with all that it holds: a status, a URL
/// to its last character, a chunk to its last byte, a number of seconds.
pub proof fn law_nothing_is_left_out_of_view(event: RecordEvent, step: RecordStep)
    ensures
        event matches RecordEvent::Status(status) ==> event@ == Heard::Status(status),
        event matches RecordEvent::Url(Some(url)) ==> event@ == Heard::Url(Some(url@)),
        event matches RecordEvent::Url(None) ==> event@ == Heard::Url(None),
        event matches RecordEvent::Chunk(data) ==> event@ == Heard::Chunk(data@),
        event is Rested <==> event@ is Rested,
        event is Opened <==> event@ is Opened,
        event is Running <==> event@ is Running,
        event is Cancelled <==> event@ is Cancelled,
        event is Connected <==> event@ is Connected,
        event is Unreachable <==> event@ is Unreachable,
        event is Lost <==> event@ is Lost,
        event is Closed <==> event@ is Closed,
        event is Written <==> event@ is Written,
        event is WriteFailed <==> event@ is WriteFailed,
        event is Finalized <==> event@ is Finalized,
        event is Failed <==> event@ is Failed,
        step matches RecordStep::Sleep(secs) ==> step@ == Order::Sleep(secs as nat),
        step matches RecordStep::Connect(url) ==> step@ == Order::Connect(url@),
        step matches RecordStep::Write(data) ==> step@ == Order::Write(data@),
        step matches RecordStep::Finish(saved) ==> step@ == Order::Finish(saved),
        step matches RecordStep::Fail(failure) ==> step@ == Order::Fail(failure),
        step is Status <==> step@ is Status,
        step is Open <==> step@ is Open,
        step is CheckCancel <==> step@ is CheckCancel,
        step is FetchUrl <==> step@ is FetchUrl,
        step is Read <==> step@ is Read,
        step is Finalize <==> step@ is Finalize,
{
}

} // verus!
