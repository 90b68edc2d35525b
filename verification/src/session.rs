//! The worker loop as a state machine.
//!
//! The loop reads a request, runs the compiler, writes the response and
//! begins again; it ends cleanly where the stream ends between two
//! requests. Reading, running and writing are done by the program that
//! drives the loop. It hands each result to `Worker::step` as an `Event` and
//! does what the `Action` that comes back says.

use crate::codec::{
    decode_request, encode_response, lemma_response_round_trip, response_fits,
    spec_decode_request, spec_decode_response, spec_encode_response,
};
use crate::dispatch::{
    build_response, dispatch_error, spec_build_response, spec_dispatch_error, ProcessOutcome,
    ProcessOutcomeView,
};
use crate::frame::{
    encode_frame, lemma_frame_bounds, lemma_frame_round_trip, spec_frame, spec_frame_bytes,
    spec_poll, FrameReader, FramingError, Poll, PollView, PROBE_CAPACITY,
};
use crate::wire::DecodeError;
use crate::worker::{spec_command_arguments, Worker, WorkerView};
use vstd::prelude::*;

verus! {

/// Where the loop stands.
#[derive(Clone, Copy, Debug, PartialEq, Eq, Structural)]
pub enum Phase {
    /// Between two messages, or inside a length prefix.
    AwaitingLength,
    /// Inside a payload.
    AwaitingPayload,
    /// The compiler runs for the request that was read.
    Dispatching,
    /// The response is being written.
    Writing,
    /// The loop has ended.
    Closed,
}

/// Why a session ended other than by the end of its stream.
#[derive(Clone, Copy, Debug, PartialEq, Eq, Structural)]
pub enum SessionError {
    /// The stream cannot be cut into messages.
    Framing(FramingError),
    /// A message is no request.
    Decode(DecodeError),
    /// The driver reported something that the loop did not ask for.
    OutOfTurn,
}

/// What the driver reports.
#[derive(Clone, Debug, PartialEq, Eq)]
pub enum Event {
    /// The loop begins.
    Start,
    /// A read returned these bytes; none where the stream has ended.
    Input(Vec<u8>),
    /// The compiler process came to this.
    Finished(ProcessOutcome),
    /// The response was written and flushed.
    Written,
}

/// What the driver is to do next.
#[derive(Debug, PartialEq, Eq)]
pub enum Action {
    /// Read at most `max` bytes and report them with `Event::Input`.
    Read { max: u64 },
    /// Run the compiler with these arguments, wait for it and report with
    /// `Event::Finished`.
    Run { arguments: Vec<String> },
    /// Write these bytes, flush, and report with `Event::Written`.
    Write { bytes: Vec<u8> },
    /// Leave the loop.
    Stop(Result<(), SessionError>),
}

/// An `Event` as mathematical values.
pub enum EventView {
    Start,
    Input(Seq<u8>),
    Finished(ProcessOutcomeView),
    Written,
}

/// An `Action` as mathematical values.
pub enum ActionView {
    Read { max: u64 },
    Run { arguments: Seq<Seq<char>> },
    Write { bytes: Seq<u8> },
    Stop(Result<(), SessionError>),
}

impl View for Event {
    type V = EventView;

    open spec fn view(&self) -> EventView {
        match *self {
            Event::Start => EventView::Start,
            Event::Input(bytes) => EventView::Input(bytes@),
            Event::Finished(outcome) => EventView::Finished(outcome@),
            Event::Written => EventView::Written,
        }
    }
}

impl View for Action {
    type V = ActionView;

    open spec fn view(&self) -> ActionView {
        match *self {
            Action::Read { max } => ActionView::Read { max },
            Action::Run { arguments } => ActionView::Run {
                arguments: arguments@.map_values(|s: String| s@),
            },
            Action::Write { bytes } => ActionView::Write { bytes: bytes@ },
            Action::Stop(result) => ActionView::Stop(result),
        }
    }
}

/// The state of one session.
pub struct Session {
    reader: FrameReader,
    phase: Phase,
    request_id: i32,
    defect: bool,
}

/// A `Session` as mathematical values.
pub struct SessionView {
    /// The bytes that were read and belong to no request handed out so far.
    pub held: Seq<u8>,
    pub phase: Phase,
    /// While the compiler runs: the `request_id` of its request.
    pub request_id: i32,
    /// Whether a request so far was answered with a dispatch error.
    pub defect: bool,
}

impl View for Session {
    type V = SessionView;

    closed spec fn view(&self) -> SessionView {
        SessionView {
            held: self.reader@,
            phase: self.phase,
            request_id: self.request_id,
            defect: self.defect,
        }
    }
}

/// The session closed, with everything else as it is.
pub open spec fn closed(session: SessionView) -> SessionView {
    SessionView {
        held: session.held,
        phase: Phase::Closed,
        request_id: session.request_id,
        defect: session.defect,
    }
}

/// What follows from the reader's answer: a message is decoded and sent to
/// the compiler, a want of bytes becomes a read, and the end of the stream
/// or a failure closes the session.
pub open spec fn after_poll(worker: WorkerView, session: SessionView, answer: (PollView, Seq<u8>))
    -> (SessionView, ActionView) {
    let held = answer.1;
    let request_id = session.request_id;
    let defect = session.defect;
    match answer.0 {
        PollView::Message(payload) => match spec_decode_request(payload) {
            Ok(request) => (
                SessionView {
                    held,
                    phase: Phase::Dispatching,
                    request_id: request.request_id,
                    defect,
                },
                ActionView::Run {
                    arguments: spec_command_arguments(worker, request.arguments),
                },
            ),
            Err(e) => (
                SessionView { held, phase: Phase::Closed, request_id, defect },
                ActionView::Stop(Err(SessionError::Decode(e))),
            ),
        },
        PollView::NeedPrefix { max } => (
            SessionView { held, phase: Phase::AwaitingLength, request_id, defect },
            ActionView::Read { max },
        ),
        PollView::NeedPayload { max } => (
            SessionView { held, phase: Phase::AwaitingPayload, request_id, defect },
            ActionView::Read { max },
        ),
        PollView::EndOfStream => (
            SessionView { held, phase: Phase::Closed, request_id, defect },
            ActionView::Stop(Ok(())),
        ),
        PollView::Failed(e) => (
            SessionView { held, phase: Phase::Closed, request_id, defect },
            ActionView::Stop(Err(SessionError::Framing(e))),
        ),
    }
}

/// What follows from the compiler's outcome: the response is built, encoded
/// and framed, and is to be written. An outcome that is a dispatch error is
/// answered like any other, and remembered.
pub open spec fn after_outcome(session: SessionView, outcome: ProcessOutcomeView) -> (
    SessionView,
    ActionView,
) {
    let payload = spec_encode_response(spec_build_response(session.request_id, outcome));
    let defect = session.defect || spec_dispatch_error(outcome) is Some;
    if payload.len() <= u32::MAX {
        (
            SessionView {
                held: session.held,
                phase: Phase::Writing,
                request_id: session.request_id,
                defect,
            },
            ActionView::Write { bytes: spec_frame_bytes(payload) },
        )
    } else {
        (
            SessionView {
                held: session.held,
                phase: Phase::Closed,
                request_id: session.request_id,
                defect,
            },
            ActionView::Stop(Err(SessionError::Framing(FramingError::PayloadTooLarge))),
        )
    }
}

/// One step of the loop: the state after `event`, and what to do next.
///
/// An event that the phase did not ask for closes the session.
pub open spec fn spec_step(worker: WorkerView, session: SessionView, event: EventView) -> (
    SessionView,
    ActionView,
) {
    match event {
        EventView::Start => if session.phase == Phase::AwaitingLength {
            after_poll(worker, session, spec_poll(session.held, false))
        } else {
            (closed(session), ActionView::Stop(Err(SessionError::OutOfTurn)))
        },
        EventView::Input(chunk) => if session.phase == Phase::AwaitingLength || session.phase
            == Phase::AwaitingPayload {
            after_poll(worker, session, spec_poll(session.held + chunk, chunk.len() == 0))
        } else {
            (closed(session), ActionView::Stop(Err(SessionError::OutOfTurn)))
        },
        EventView::Finished(outcome) => if session.phase == Phase::Dispatching {
            after_outcome(session, outcome)
        } else {
            (closed(session), ActionView::Stop(Err(SessionError::OutOfTurn)))
        },
        EventView::Written => if session.phase == Phase::Writing {
            after_poll(worker, session, spec_poll(session.held, false))
        } else {
            (closed(session), ActionView::Stop(Err(SessionError::OutOfTurn)))
        },
    }
}

impl Session {
    /// A session that has read nothing and waits for its first request.
    pub fn new() -> (session: Session)
        ensures
            session@ == SessionView::start(),
    {
        Session {
            reader: FrameReader::new(),
            phase: Phase::AwaitingLength,
            request_id: 0,
            defect: false,
        }
    }

    /// Where the loop stands.
    pub fn phase(&self) -> (phase: Phase)
        ensures
            phase == self@.phase,
    {
        self.phase
    }

    /// How many bytes were read and belong to no request handed out so far.
    pub fn held_len(&self) -> (n: usize)
        ensures
            n == self@.held.len(),
    {
        self.reader.held_len()
    }

    /// Whether a request so far was answered with a dispatch error.
    pub fn defect(&self) -> (defect: bool)
        ensures
            defect == self@.defect,
    {
        self.defect
    }

    /// The exit status of the worker process once the loop has ended with
    /// `result`: 0 where the stream ended between two requests and every
    /// request was answered with the compiler's own result, 1 for
    /// everything else.
    pub fn exit_status(&self, result: Result<(), SessionError>) -> (status: i32)
        ensures
            status == spec_exit_status(result, self@.defect),
    {
        match result {
            Ok(_) => if self.defect {
                1
            } else {
                0
            },
            Err(_) => 1,
        }
    }
}

impl SessionView {
    /// The session that has read nothing and waits for its first request.
    pub open spec fn start() -> SessionView {
        SessionView {
            held: Seq::empty(),
            phase: Phase::AwaitingLength,
            request_id: 0,
            defect: false,
        }
    }
}

/// The exit status for a loop that ended with `result`, with or without a
/// dispatch error on its way.
pub open spec fn spec_exit_status(result: Result<(), SessionError>, defect: bool) -> i32 {
    if result is Ok && !defect {
        0
    } else {
        1
    }
}

impl Worker {
    fn after_poll(&self, session: &mut Session, poll: Poll) -> (action: Action)
        ensures
            (final(session)@, action@) == after_poll(
                self@,
                old(session)@,
                (poll@, old(session)@.held),
            ),
    {
        match poll {
            Poll::Message(payload) => match decode_request(payload.as_slice()) {
                Ok(request) => {
                    session.phase = Phase::Dispatching;
                    session.request_id = request.request_id;
                    Action::Run { arguments: self.command_arguments(&request) }
                },
                Err(e) => {
                    session.phase = Phase::Closed;
                    Action::Stop(Err(SessionError::Decode(e)))
                },
            },
            Poll::NeedPrefix { max } => {
                session.phase = Phase::AwaitingLength;
                Action::Read { max }
            },
            Poll::NeedPayload { max } => {
                session.phase = Phase::AwaitingPayload;
                Action::Read { max }
            },
            Poll::EndOfStream => {
                session.phase = Phase::Closed;
                Action::Stop(Ok(()))
            },
            Poll::Failed(e) => {
                session.phase = Phase::Closed;
                Action::Stop(Err(SessionError::Framing(e)))
            },
        }
    }

    /// Takes one event and says what to do next.
    pub fn step(&self, session: &mut Session, event: Event) -> (action: Action)
        ensures
            (final(session)@, action@) == spec_step(self@, old(session)@, event@),
    {
        match event {
            Event::Start => {
                if session.phase == Phase::AwaitingLength {
                    let poll = session.reader.poll();
                    return self.after_poll(session, poll);
                }
            },
            Event::Input(chunk) => {
                if session.phase == Phase::AwaitingLength || session.phase
                    == Phase::AwaitingPayload {
                    let poll = session.reader.feed(chunk.as_slice());
                    return self.after_poll(session, poll);
                }
            },
            Event::Finished(outcome) => {
                if session.phase == Phase::Dispatching {
                    if dispatch_error(&outcome).is_some() {
                        session.defect = true;
                    }
                    let response = build_response(session.request_id, &outcome);
                    let payload = encode_response(&response);
                    match encode_frame(payload.as_slice()) {
                        Ok(bytes) => {
                            session.phase = Phase::Writing;
                            return Action::Write { bytes };
                        },
                        Err(e) => {
                            session.phase = Phase::Closed;
                            return Action::Stop(Err(SessionError::Framing(e)));
                        },
                    }
                }
            },
            Event::Written => {
                if session.phase == Phase::Writing {
                    let poll = session.reader.poll();
                    return self.after_poll(session, poll);
                }
            },
        }
        session.phase = Phase::Closed;
        Action::Stop(Err(SessionError::OutOfTurn))
    }
}

/// The response that is written for a request carries the `request_id` of
/// that request, whatever the number is and whatever became of the compiler:
/// a session that holds a whole request sends it to the compiler, and what
/// it then has written is one frame that reads as a response with the
/// request's `request_id`.
pub proof fn lemma_correlation(
    worker: WorkerView,
    session: SessionView,
    outcome: ProcessOutcomeView,
)
    requires
        session.phase == Phase::AwaitingLength,
        spec_frame(session.held) is Complete,
        spec_decode_request(spec_frame(session.held)->payload) is Ok,
        response_fits(
            spec_build_response(
                spec_decode_request(spec_frame(session.held)->payload)->Ok_0.request_id,
                outcome,
            ),
        ),
        spec_encode_response(
            spec_build_response(
                spec_decode_request(spec_frame(session.held)->payload)->Ok_0.request_id,
                outcome,
            ),
        ).len() <= u32::MAX,
    ensures
        ({
            let request = spec_decode_request(spec_frame(session.held)->payload)->Ok_0;
            let (running, run) = spec_step(worker, session, EventView::Start);
            let (writing, write) = spec_step(worker, running, EventView::Finished(outcome));
            &&& run is Run
            &&& running.phase == Phase::Dispatching
            &&& write is Write
            &&& writing.phase == Phase::Writing
            &&& spec_frame(write->bytes) is Complete
            &&& spec_frame(write->bytes)->consumed == write->bytes.len()
            &&& spec_decode_response(spec_frame(write->bytes)->payload) is Ok
            &&& spec_decode_response(spec_frame(write->bytes)->payload)->Ok_0.request_id
                == request.request_id
        }),
{
    let request = spec_decode_request(spec_frame(session.held)->payload)->Ok_0;
    let response = spec_build_response(request.request_id, outcome);
    let payload = spec_encode_response(response);
    lemma_response_round_trip(response);
    lemma_frame_round_trip(payload, Seq::<u8>::empty());
    assert(spec_frame_bytes(payload) + Seq::<u8>::empty() =~= spec_frame_bytes(payload));
}

/// A read is asked for at least one byte, so that a read that returns
/// nothing always means the end of the stream. Inside a payload it is asked
/// for no more than the payload lacks, and inside a length prefix for no
/// more than the probe buffer takes.
pub proof fn lemma_reads_are_bounded(worker: WorkerView, session: SessionView, event: EventView)
    ensures
        ({
            let (after, action) = spec_step(worker, session, event);
            action matches ActionView::Read { max } ==> {
                &&& max >= 1
                &&& after.phase == Phase::AwaitingLength || after.phase == Phase::AwaitingPayload
                &&& after.phase == Phase::AwaitingLength ==> spec_frame(after.held) is NoPrefix
                    && max + after.held.len() == PROBE_CAPACITY
                &&& after.phase == Phase::AwaitingPayload ==> spec_frame(after.held) is Partial
                    && max == spec_frame(after.held)->missing
            }
        }),
{
    match event {
        EventView::Input(chunk) => {
            lemma_frame_bounds(session.held + chunk);
        },
        _ => {
            lemma_frame_bounds(session.held);
        },
    }
}

/// The end of the stream between two requests ends the session cleanly;
/// the end of the stream inside a length prefix or a payload is a framing
/// error.
pub proof fn lemma_end_of_stream(worker: WorkerView, session: SessionView)
    requires
        session.phase == Phase::AwaitingLength || session.phase == Phase::AwaitingPayload,
        spec_frame(session.held) is NoPrefix || spec_frame(session.held) is Partial,
    ensures
        ({
            let (after, action) = spec_step(
                worker,
                session,
                EventView::Input(Seq::<u8>::empty()),
            );
            &&& after.phase == Phase::Closed
            &&& session.held.len() == 0 ==> action == ActionView::Stop(Ok(()))
            &&& session.held.len() > 0 ==> action == ActionView::Stop(
                Err(SessionError::Framing(FramingError::PrematureEof)),
            )
        }),
{
    assert(session.held + Seq::<u8>::empty() =~= session.held);
    lemma_frame_bounds(session.held);
}

} // verus!
