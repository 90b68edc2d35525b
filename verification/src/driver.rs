//! The driver of the worker loop, as a specification.
//!
//! A driver does what each `Action` says and reports the result as the next
//! `Event`. Here that loop is written down as a function of the pieces in
//! which the stream arrives, and shown to write what the stream as a whole
//! asks for: the pieces do not matter.
//!
//! The compiler is a function from the number of compilers that ran before
//! and from the command line to what becomes of the process, so that
//! nothing is assumed of it: two runs on one command line may end
//! differently.

use crate::codec::{
    lemma_request_round_trip, request_fits, spec_decode_request, spec_encode_request,
    spec_encode_response,
};
use crate::dispatch::{spec_build_response, spec_dispatch_error, ProcessOutcomeView};
use crate::frame::{
    lemma_frame_bounds, lemma_frame_extend, lemma_frame_round_trip, spec_frame, spec_frame_bytes,
    spec_poll, Frame, FramingError,
};
use crate::message::{WorkRequestView, WorkResponseView};
use crate::session::{
    after_outcome, after_poll, spec_exit_status, spec_step, ActionView, EventView, Phase,
    SessionError, SessionView,
};
use crate::worker::{spec_command_arguments, WorkerView};
use vstd::prelude::*;

verus! {

/// What becomes of the compiler process that is run after `ran` others, on
/// a command line.
pub type Compiler = spec_fn(nat, Seq<Seq<char>>) -> ProcessOutcomeView;

/// The bytes that an event brings.
pub open spec fn brought(event: EventView) -> Seq<u8> {
    match event {
        EventView::Input(chunk) => chunk,
        _ => Seq::empty(),
    }
}

/// Whether an event reports the end of the stream.
pub open spec fn at_end(event: EventView) -> bool {
    event matches EventView::Input(chunk) && chunk.len() == 0
}

/// The place of an event in one round of the loop, counted down towards the
/// read that finds the stream at its end.
pub open spec fn turn(event: EventView) -> nat {
    match event {
        EventView::Finished(_) => 3,
        EventView::Input(chunk) => if chunk.len() == 0 {
            1
        } else {
            2
        },
        _ => 2,
    }
}

/// What a session comes to: the bytes written, the way the loop ended, and
/// whether a request was answered with a dispatch error.
pub struct Ending {
    pub written: Seq<u8>,
    pub result: Result<(), SessionError>,
    pub defect: bool,
}

impl Ending {
    /// The exit status of the worker process.
    pub open spec fn exit_status(self) -> i32 {
        spec_exit_status(self.result, self.defect)
    }

    /// This ending behind `bytes` that were written before.
    pub open spec fn after(self, bytes: Seq<u8>) -> Ending {
        Ending { written: bytes + self.written, result: self.result, defect: self.defect }
    }
}

/// What a driver writes and how its session ends, from `event` on: it does
/// what each action says, answers a read with the next of `pieces`, or with
/// the end of the stream when none is left, and gets from `compiler` what
/// becomes of each process. `ran` counts the processes that ran before.
pub open spec fn spec_drive(
    worker: WorkerView,
    session: SessionView,
    event: EventView,
    pieces: Seq<Seq<u8>>,
    compiler: Compiler,
    ran: nat,
) -> Ending
    decreases pieces.len(), session.held.len() + brought(event).len(), turn(event),
{
    let (after, action) = spec_step(worker, session, event);
    match action {
        ActionView::Stop(result) => Ending { written: Seq::empty(), result, defect: after.defect },
        ActionView::Read { max } => {
            if pieces.len() == 0 {
                proof {
                    lemma_frame_bounds(session.held + brought(event));
                    lemma_frame_bounds(session.held);
                }
                spec_drive(worker, after, EventView::Input(Seq::empty()), pieces, compiler, ran)
            } else {
                spec_drive(
                    worker,
                    after,
                    EventView::Input(pieces.first()),
                    pieces.drop_first(),
                    compiler,
                    ran,
                )
            }
        },
        ActionView::Run { arguments } => {
            proof {
                lemma_frame_bounds(session.held + brought(event));
                lemma_frame_bounds(session.held);
            }
            spec_drive(
                worker,
                after,
                EventView::Finished(compiler(ran, arguments)),
                pieces,
                compiler,
                ran + 1,
            )
        },
        ActionView::Write { bytes } => spec_drive(
            worker,
            after,
            EventView::Written,
            pieces,
            compiler,
            ran,
        ).after(bytes),
    }
}

/// What a session writes and how it ends, as a function of the whole stream:
/// each request in turn is answered with one framed response, and the
/// session ends where the stream ends or where it stops being a sequence of
/// requests. `defect` says whether a dispatch error was answered before.
pub open spec fn spec_session(
    worker: WorkerView,
    stream: Seq<u8>,
    compiler: Compiler,
    ran: nat,
    defect: bool,
) -> Ending
    decreases stream.len(),
{
    match spec_frame(stream) {
        Frame::Complete { payload, consumed } => match spec_decode_request(payload) {
            Err(e) => Ending {
                written: Seq::empty(),
                result: Err(SessionError::Decode(e)),
                defect,
            },
            Ok(request) => {
                let outcome = compiler(ran, spec_command_arguments(worker, request.arguments));
                let response = spec_encode_response(
                    spec_build_response(request.request_id, outcome),
                );
                let defect = defect || spec_dispatch_error(outcome) is Some;
                if response.len() <= u32::MAX {
                    proof {
                        lemma_frame_bounds(stream);
                    }
                    spec_session(
                        worker,
                        stream.skip(consumed as int),
                        compiler,
                        ran + 1,
                        defect,
                    ).after(spec_frame_bytes(response))
                } else {
                    Ending {
                        written: Seq::empty(),
                        result: Err(SessionError::Framing(FramingError::PayloadTooLarge)),
                        defect,
                    }
                }
            },
        },
        Frame::Partial { missing } => Ending {
            written: Seq::empty(),
            result: Err(SessionError::Framing(FramingError::PrematureEof)),
            defect,
        },
        Frame::NoPrefix => Ending {
            written: Seq::empty(),
            result: if stream.len() == 0 {
                Ok(())
            } else {
                Err(SessionError::Framing(FramingError::PrematureEof))
            },
            defect,
        },
        Frame::Malformed => Ending {
            written: Seq::empty(),
            result: Err(SessionError::Framing(FramingError::PrefixTooLong)),
            defect,
        },
    }
}

/// The response that a request gets where `ran` compilers ran before its own.
pub open spec fn spec_response_to(
    worker: WorkerView,
    request: WorkRequestView,
    compiler: Compiler,
    ran: nat,
) -> WorkResponseView {
    spec_build_response(
        request.request_id,
        compiler(ran, spec_command_arguments(worker, request.arguments)),
    )
}

/// An event at which the session looks at its stream: the start, the end of
/// a write, or the result of a read; and pieces that are left to be read,
/// none of them empty, and none at all behind the end of the stream.
pub open spec fn at_the_stream(session: SessionView, event: EventView, pieces: Seq<Seq<u8>>)
    -> bool {
    &&& forall|i: int| 0 <= i < pieces.len() ==> (#[trigger] pieces[i]).len() > 0
    &&& match event {
        EventView::Start => session.phase == Phase::AwaitingLength,
        EventView::Written => session.phase == Phase::Writing,
        EventView::Input(chunk) => (session.phase == Phase::AwaitingLength || session.phase
            == Phase::AwaitingPayload) && (chunk.len() == 0 ==> pieces.len() == 0),
        EventView::Finished(_) => false,
    }
}

/// At an event at which the session looks at its stream, the step is what
/// follows from the reader's answer on all bytes held.
proof fn lemma_step_at_the_stream(
    worker: WorkerView,
    session: SessionView,
    event: EventView,
    pieces: Seq<Seq<u8>>,
)
    requires
        at_the_stream(session, event, pieces),
    ensures
        spec_step(worker, session, event) == after_poll(
            worker,
            session,
            spec_poll(session.held + brought(event), at_end(event)),
        ),
{
    assert(session.held + Seq::<u8>::empty() =~= session.held);
}

/// The driver on a stream that begins with a whole message, given that it
/// follows the stream from the end of the write on.
proof fn lemma_drive_on_message(
    worker: WorkerView,
    session: SessionView,
    event: EventView,
    pieces: Seq<Seq<u8>>,
    compiler: Compiler,
    ran: nat,
    writing: SessionView,
)
    requires
        at_the_stream(session, event, pieces),
        spec_frame(session.held + brought(event)) is Complete,
        ({
            let held = session.held + brought(event);
            let frame = spec_frame(held);
            spec_decode_request(frame->payload) matches Ok(request) ==> {
                &&& writing == (SessionView {
                    held: held.skip(frame->consumed as int),
                    phase: Phase::Writing,
                    request_id: request.request_id,
                    defect: session.defect || spec_dispatch_error(
                        compiler(ran, spec_command_arguments(worker, request.arguments)),
                    ) is Some,
                })
                &&& spec_drive(worker, writing, EventView::Written, pieces, compiler, ran + 1)
                    == spec_session(
                    worker,
                    (held + pieces.flatten()).skip(frame->consumed as int),
                    compiler,
                    ran + 1,
                    writing.defect,
                )
            }
        }),
    ensures
        spec_drive(worker, session, event, pieces, compiler, ran) == spec_session(
            worker,
            session.held + brought(event) + pieces.flatten(),
            compiler,
            ran,
            session.defect,
        ),
{
    let held = session.held + brought(event);
    lemma_step_at_the_stream(worker, session, event, pieces);
    lemma_frame_bounds(held);
    lemma_frame_extend(held, pieces.flatten());
    let (after, action) = spec_step(worker, session, event);
    let payload = spec_frame(held)->payload;
    match spec_decode_request(payload) {
        Ok(request) => {
            let outcome = compiler(ran, spec_command_arguments(worker, request.arguments));
            assert(action == ActionView::Run {
                arguments: spec_command_arguments(worker, request.arguments),
            });
            assert(spec_drive(worker, session, event, pieces, compiler, ran) == spec_drive(
                worker,
                after,
                EventView::Finished(outcome),
                pieces,
                compiler,
                ran + 1,
            ));
            assert(spec_step(worker, after, EventView::Finished(outcome)) == after_outcome(
                after,
                outcome,
            ));
        },
        Err(e) => {},
    }
}

/// The driver on a stream that begins with anything but a whole message,
/// given that it follows the stream from the next read on.
proof fn lemma_drive_on_wait(
    worker: WorkerView,
    session: SessionView,
    event: EventView,
    pieces: Seq<Seq<u8>>,
    compiler: Compiler,
    ran: nat,
)
    requires
        at_the_stream(session, event, pieces),
        !(spec_frame(session.held + brought(event)) is Complete),
        ({
            let held = session.held + brought(event);
            let after = spec_step(worker, session, event).0;
            !at_end(event) && !(spec_frame(held) is Malformed) ==> {
                if pieces.len() == 0 {
                    spec_drive(
                        worker,
                        after,
                        EventView::Input(Seq::<u8>::empty()),
                        pieces,
                        compiler,
                        ran,
                    ) == spec_session(worker, held, compiler, ran, session.defect)
                } else {
                    spec_drive(
                        worker,
                        after,
                        EventView::Input(pieces.first()),
                        pieces.drop_first(),
                        compiler,
                        ran,
                    ) == spec_session(
                        worker,
                        held + pieces.flatten(),
                        compiler,
                        ran,
                        session.defect,
                    )
                }
            }
        }),
    ensures
        spec_drive(worker, session, event, pieces, compiler, ran) == spec_session(
            worker,
            session.held + brought(event) + pieces.flatten(),
            compiler,
            ran,
            session.defect,
        ),
{
    let held = session.held + brought(event);
    lemma_step_at_the_stream(worker, session, event, pieces);
    lemma_frame_bounds(held);
    if spec_frame(held) is Malformed {
        lemma_frame_extend(held, pieces.flatten());
    } else if at_end(event) || pieces.len() == 0 {
        assert(pieces.flatten() =~= Seq::<u8>::empty());
        assert(held + pieces.flatten() =~= held);
    }
}

/// From any event at which the session looks at its stream, the driver
/// writes what the rest of the stream asks for, whatever the pieces are in
/// which the stream arrives.
pub proof fn lemma_drive_follows_stream(
    worker: WorkerView,
    session: SessionView,
    event: EventView,
    pieces: Seq<Seq<u8>>,
    compiler: Compiler,
    ran: nat,
)
    requires
        at_the_stream(session, event, pieces),
    ensures
        spec_drive(worker, session, event, pieces, compiler, ran) == spec_session(
            worker,
            session.held + brought(event) + pieces.flatten(),
            compiler,
            ran,
            session.defect,
        ),
    decreases pieces.len(), session.held.len() + brought(event).len(), turn(event),
{
    let held = session.held + brought(event);
    let rest = pieces.flatten();
    lemma_frame_bounds(held);
    lemma_step_at_the_stream(worker, session, event, pieces);
    let after = spec_step(worker, session, event).0;
    match spec_frame(held) {
        Frame::Complete { payload, consumed } => {
            let (request_id, defect) = match spec_decode_request(payload) {
                Ok(request) => (
                    request.request_id,
                    session.defect || spec_dispatch_error(
                        compiler(ran, spec_command_arguments(worker, request.arguments)),
                    ) is Some,
                ),
                Err(e) => (0, false),
            };
            let writing = SessionView {
                held: held.skip(consumed as int),
                phase: Phase::Writing,
                request_id,
                defect,
            };
            lemma_drive_follows_stream(
                worker,
                writing,
                EventView::Written,
                pieces,
                compiler,
                ran + 1,
            );
            assert(writing.held + brought(EventView::Written) + rest =~= (held + rest).skip(
                consumed as int,
            ));
            lemma_drive_on_message(worker, session, event, pieces, compiler, ran, writing);
        },
        _ => {
            if !at_end(event) && !(spec_frame(held) is Malformed) {
                assert(after.held == held);
                if pieces.len() == 0 {
                    let end = EventView::Input(Seq::<u8>::empty());
                    lemma_drive_follows_stream(worker, after, end, pieces, compiler, ran);
                    assert(rest =~= Seq::<u8>::empty());
                    assert(after.held + brought(end) + rest =~= held);
                } else {
                    let next = EventView::Input(pieces.first());
                    lemma_drive_follows_stream(
                        worker,
                        after,
                        next,
                        pieces.drop_first(),
                        compiler,
                        ran,
                    );
                    assert(after.held + brought(next) + pieces.drop_first().flatten() =~= held
                        + rest);
                }
            }
            lemma_drive_on_wait(worker, session, event, pieces, compiler, ran);
        },
    }
}

/// A session depends on its stream alone: however the reads cut the stream
/// into pieces, the driver writes the framed responses to the requests of
/// the stream, one for each and in their order, and ends as the stream ends.
pub proof fn lemma_session_follows_stream(
    worker: WorkerView,
    pieces: Seq<Seq<u8>>,
    compiler: Compiler,
)
    requires
        forall|i: int| 0 <= i < pieces.len() ==> (#[trigger] pieces[i]).len() > 0,
    ensures
        spec_drive(worker, SessionView::start(), EventView::Start, pieces, compiler, 0)
            == spec_session(worker, pieces.flatten(), compiler, 0, false),
{
    let start = SessionView::start();
    lemma_drive_follows_stream(worker, start, EventView::Start, pieces, compiler, 0);
    assert(start.held + brought(EventView::Start) + pieces.flatten() =~= pieces.flatten());
}

/// The stream that carries these requests, one frame after the other.
pub open spec fn spec_request_stream(requests: Seq<WorkRequestView>) -> Seq<u8>
    decreases requests.len(),
{
    if requests.len() == 0 {
        Seq::empty()
    } else {
        spec_frame_bytes(spec_encode_request(requests.first())) + spec_request_stream(
            requests.drop_first(),
        )
    }
}

/// The stream that carries the responses to these requests, one frame
/// after the other, where `ran` compilers ran before the first of them.
pub open spec fn spec_response_stream(
    worker: WorkerView,
    requests: Seq<WorkRequestView>,
    compiler: Compiler,
    ran: nat,
) -> Seq<u8>
    decreases requests.len(),
{
    if requests.len() == 0 {
        Seq::empty()
    } else {
        spec_frame_bytes(
            spec_encode_response(spec_response_to(worker, requests.first(), compiler, ran)),
        ) + spec_response_stream(worker, requests.drop_first(), compiler, ran + 1)
    }
}

/// Requests and responses that can be framed: their fields and their
/// encodings are short enough for their lengths to be written.
pub open spec fn can_be_framed(
    worker: WorkerView,
    requests: Seq<WorkRequestView>,
    compiler: Compiler,
    ran: nat,
) -> bool {
    forall|i: int|
        0 <= i < requests.len() ==> {
            &&& request_fits(#[trigger] requests[i])
            &&& spec_encode_request(requests[i]).len() <= u32::MAX
            &&& spec_encode_response(
                spec_response_to(worker, requests[i], compiler, (ran + i) as nat),
            ).len() <= u32::MAX
        }
}

/// Whether one of these requests is answered with a dispatch error, where
/// `ran` compilers ran before the first of them.
pub open spec fn spec_any_defect(
    worker: WorkerView,
    requests: Seq<WorkRequestView>,
    compiler: Compiler,
    ran: nat,
) -> bool
    decreases requests.len(),
{
    if requests.len() == 0 {
        false
    } else {
        spec_dispatch_error(
            compiler(ran, spec_command_arguments(worker, requests.first().arguments)),
        ) is Some || spec_any_defect(worker, requests.drop_first(), compiler, ran + 1)
    }
}

/// A session on a stream of requests answers each of them, in order, with
/// the response that carries its `request_id`, and ends with the stream:
/// whatever the numbers are, be they repeated or negative, and whatever
/// becomes of the compiler.
pub proof fn lemma_session_answers_each_request(
    worker: WorkerView,
    requests: Seq<WorkRequestView>,
    compiler: Compiler,
    ran: nat,
    defect: bool,
)
    requires
        can_be_framed(worker, requests, compiler, ran),
    ensures
        spec_session(worker, spec_request_stream(requests), compiler, ran, defect) == (Ending {
            written: spec_response_stream(worker, requests, compiler, ran),
            result: Ok(()),
            defect: defect || spec_any_defect(worker, requests, compiler, ran),
        }),
        forall|i: int, n: nat|
            0 <= i < requests.len() ==> (#[trigger] spec_response_to(
                worker,
                requests[i],
                compiler,
                n,
            )).request_id == requests[i].request_id,
    decreases requests.len(),
{
    if requests.len() > 0 {
        let first = requests.first();
        let later = requests.drop_first();
        let payload = spec_encode_request(first);
        let rest = spec_request_stream(later);
        let outcome = compiler(ran, spec_command_arguments(worker, first.arguments));
        let now = defect || spec_dispatch_error(outcome) is Some;
        assert(request_fits(first) && payload.len() <= u32::MAX && spec_encode_response(
            spec_response_to(worker, first, compiler, ran),
        ).len() <= u32::MAX) by {
            assert(first == requests[0]);
        }
        assert(can_be_framed(worker, later, compiler, ran + 1)) by {
            assert forall|i: int| 0 <= i < later.len() implies {
                &&& request_fits(#[trigger] later[i])
                &&& spec_encode_request(later[i]).len() <= u32::MAX
                &&& spec_encode_response(
                    spec_response_to(worker, later[i], compiler, (ran + 1 + i) as nat),
                ).len() <= u32::MAX
            } by {
                assert(later[i] == requests[i + 1]);
            }
        }
        lemma_frame_round_trip(payload, rest);
        lemma_request_round_trip(first);
        lemma_session_answers_each_request(worker, later, compiler, ran + 1, now);
        let stream = spec_request_stream(requests);
        assert(stream.skip(spec_frame_bytes(payload).len() as int) =~= rest);
    }
}

/// The whole of it: a driver that gets a stream of requests in any pieces
/// writes the stream of their responses and ends with the stream; its exit
/// status is 0 exactly where no request was answered with a dispatch error.
pub proof fn lemma_driver_answers_each_request(
    worker: WorkerView,
    requests: Seq<WorkRequestView>,
    pieces: Seq<Seq<u8>>,
    compiler: Compiler,
)
    requires
        can_be_framed(worker, requests, compiler, 0),
        pieces.flatten() == spec_request_stream(requests),
        forall|i: int| 0 <= i < pieces.len() ==> (#[trigger] pieces[i]).len() > 0,
    ensures
        spec_drive(worker, SessionView::start(), EventView::Start, pieces, compiler, 0) == (Ending {
            written: spec_response_stream(worker, requests, compiler, 0),
            result: Ok(()),
            defect: spec_any_defect(worker, requests, compiler, 0),
        }),
        spec_drive(
            worker,
            SessionView::start(),
            EventView::Start,
            pieces,
            compiler,
            0,
        ).exit_status() == 0 <==> !spec_any_defect(worker, requests, compiler, 0),
{
    lemma_session_follows_stream(worker, pieces, compiler);
    lemma_session_answers_each_request(worker, requests, compiler, 0, false);
}

} // verus!
