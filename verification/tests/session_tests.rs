use rustc_worker::codec::{decode_response, encode_request};
use rustc_worker::dispatch::{
    ProcessOutcome, EXIT_OUTPUT_NOT_UTF8, EXIT_SIGNALED, EXIT_SPAWN_FAILED,
};
use rustc_worker::frame::{encode_frame, FrameReader, FramingError, Poll};
use rustc_worker::session::{Action, Event, Phase, Session, SessionError};
use rustc_worker::wire::DecodeError;
use rustc_worker::{Input, WorkRequest, WorkResponse, Worker};

fn test_worker() -> Worker {
    Worker::new("/bin/stub-rustc".to_string(), "/tmp/rustc-worker-1-fastbuild".to_string())
}

fn request_frame(request: &WorkRequest) -> Vec<u8> {
    encode_frame(&encode_request(request)).unwrap()
}

fn simple_request(arguments: &[&str], request_id: i32) -> WorkRequest {
    WorkRequest {
        arguments: arguments.iter().map(|a| a.to_string()).collect(),
        inputs: vec![],
        request_id,
    }
}

/// What a stub compiler does with one command line.
fn stub_compiler(arguments: &[String]) -> ProcessOutcome {
    if arguments.first().map(|a| a.as_str()) == Some("--version") {
        ProcessOutcome::Exited { code: Some(0), diagnostics: b"v1.0".to_vec() }
    } else {
        let mut text = String::from("compiled");
        for argument in arguments {
            text.push(' ');
            text.push_str(argument);
        }
        ProcessOutcome::Exited { code: Some(arguments.len() as i32), diagnostics: text.into_bytes() }
    }
}

/// Drives a session over `input`, handing it at most `piece` bytes per read,
/// and returns the command lines run, the bytes written and how it ended.
fn drive(
    worker: &Worker,
    input: &[u8],
    piece: usize,
) -> (Vec<Vec<String>>, Vec<u8>, Result<(), SessionError>) {
    let (commands, written, result, _) = drive_to_exit(worker, input, piece, &stub_compiler);
    (commands, written, result)
}

/// As `drive`, with the compiler given, and with the exit status of the
/// process at the end.
fn drive_to_exit(
    worker: &Worker,
    input: &[u8],
    piece: usize,
    compiler: &dyn Fn(&[String]) -> ProcessOutcome,
) -> (Vec<Vec<String>>, Vec<u8>, Result<(), SessionError>, i32) {
    let mut session = Session::new();
    let mut commands = Vec::new();
    let mut written = Vec::new();
    let mut at = 0;
    let mut action = worker.step(&mut session, Event::Start);
    loop {
        action = match action {
            Action::Read { max } => {
                assert!(max >= 1);
                let mut take = piece.min(input.len() - at);
                if (take as u64) > max {
                    take = max as usize;
                }
                let chunk = input[at..at + take].to_vec();
                at += take;
                worker.step(&mut session, Event::Input(chunk))
            }
            Action::Run { arguments } => {
                assert_eq!(session.phase(), Phase::Dispatching);
                let outcome = compiler(&arguments);
                commands.push(arguments);
                worker.step(&mut session, Event::Finished(outcome))
            }
            Action::Write { bytes } => {
                assert_eq!(session.phase(), Phase::Writing);
                written.extend_from_slice(&bytes);
                worker.step(&mut session, Event::Written)
            }
            Action::Stop(result) => {
                assert_eq!(session.phase(), Phase::Closed);
                let status = session.exit_status(result);
                return (commands, written, result, status);
            }
        };
    }
}

fn responses_in(written: &[u8]) -> Vec<WorkResponse> {
    let mut reader = FrameReader::new();
    let mut responses = Vec::new();
    let mut answer = reader.feed(written);
    while let Poll::Message(payload) = answer {
        responses.push(decode_response(&payload).unwrap());
        answer = reader.poll();
    }
    assert_eq!(reader.held_len(), 0);
    responses
}

#[test]
fn test_eof() {
    let worker = test_worker();
    let mut session = Session::new();
    assert_eq!(session.phase(), Phase::AwaitingLength);
    assert_eq!(worker.step(&mut session, Event::Start), Action::Read { max: 10 });
    assert_eq!(worker.step(&mut session, Event::Input(vec![])), Action::Stop(Ok(())));
    assert_eq!(session.phase(), Phase::Closed);
    assert!(!session.defect());
    assert_eq!(session.exit_status(Ok(())), 0);
}

#[test]
fn end_to_end_version_request() {
    let worker = test_worker();
    let request = simple_request(&["--version"], 7);
    let (commands, written, result) = drive(&worker, &request_frame(&request), 4096);
    assert_eq!(result, Ok(()));
    assert_eq!(
        commands,
        vec![vec![
            "--version".to_string(),
            "--codegen".to_string(),
            "incremental=/tmp/rustc-worker-1-fastbuild".to_string(),
        ]]
    );
    assert_eq!(
        responses_in(&written),
        vec![WorkResponse { exit_code: 0, output: "v1.0".to_string(), request_id: 7 }]
    );
    // field 2 "v1.0", then field 3 = 7; exit code 0 is left out
    assert_eq!(written, vec![8, 0x12, 4, b'v', b'1', b'.', b'0', 0x18, 7]);
}

#[test]
fn responses_carry_the_ids_of_their_requests() {
    let worker = test_worker();
    let ids = [0, 1, 1, -1, 7, i32::MAX, i32::MIN, -1, 0, 42, 42, -123456];
    let mut input = Vec::new();
    for (n, id) in ids.iter().enumerate() {
        let argument = format!("unit{}", n);
        input.extend_from_slice(&request_frame(&simple_request(&[&argument, "-O"], *id)));
    }
    for piece in [1usize, 3, 10, 1 << 20] {
        let (commands, written, result) = drive(&worker, &input, piece);
        assert_eq!(result, Ok(()));
        assert_eq!(commands.len(), ids.len());
        let responses = responses_in(&written);
        assert_eq!(responses.len(), ids.len());
        for (n, response) in responses.iter().enumerate() {
            assert_eq!(response.request_id, ids[n]);
            assert_eq!(response.exit_code, 4);
            assert_eq!(
                response.output,
                format!("compiled unit{} -O --codegen incremental=/tmp/rustc-worker-1-fastbuild", n)
            );
        }
    }
}

#[test]
fn session_is_independent_of_read_sizes() {
    let worker = test_worker();
    let mut input = Vec::new();
    let mut big = simple_request(&["a", "", "ключ", "--edition=2021"], -5);
    big.inputs.push(Input { path: "src/lib.rs".to_string(), digest: vec![0, 1, 2, 255] });
    big.inputs.push(Input { path: String::new(), digest: vec![] });
    big.arguments.push("x".repeat(5000));
    input.extend_from_slice(&request_frame(&big));
    input.extend_from_slice(&request_frame(&simple_request(&[], 0)));
    input.extend_from_slice(&request_frame(&simple_request(&["--version"], 3)));
    let bulk = drive(&worker, &input, input.len());
    assert_eq!(bulk.2, Ok(()));
    assert_eq!(bulk.0.len(), 3);
    for piece in [1usize, 2, 5, 9, 10, 11, 100, 4999] {
        assert_eq!(drive(&worker, &input, piece), bulk);
    }
}

#[test]
fn end_of_stream_after_three_prefix_bytes_is_a_framing_error() {
    let worker = test_worker();
    let (commands, written, result) = drive(&worker, &[0x80, 0x80, 0x80], 1);
    assert!(commands.is_empty());
    assert!(written.is_empty());
    assert_eq!(result, Err(SessionError::Framing(FramingError::PrematureEof)));
    let (_, _, _, status) = drive_to_exit(&worker, &[0x80, 0x80, 0x80], 1, &stub_compiler);
    assert_eq!(status, 1);
}

#[test]
fn end_of_stream_inside_a_payload_is_a_framing_error() {
    let worker = test_worker();
    let mut input = request_frame(&simple_request(&["--version"], 1));
    input.pop();
    let (commands, written, result) = drive(&worker, &input, 3);
    assert!(commands.is_empty());
    assert!(written.is_empty());
    assert_eq!(result, Err(SessionError::Framing(FramingError::PrematureEof)));
}

#[test]
fn end_of_stream_after_a_request_is_clean() {
    let worker = test_worker();
    let mut session = Session::new();
    let _ = worker.step(&mut session, Event::Start);
    let frame = request_frame(&simple_request(&["--version"], 1));
    assert!(matches!(worker.step(&mut session, Event::Input(frame)), Action::Run { .. }));
    let action = worker.step(
        &mut session,
        Event::Finished(ProcessOutcome::Exited { code: Some(0), diagnostics: vec![] }),
    );
    assert_eq!(action, Action::Write { bytes: vec![2, 0x18, 1] });
    assert_eq!(worker.step(&mut session, Event::Written), Action::Read { max: 10 });
    assert_eq!(session.phase(), Phase::AwaitingLength);
    assert_eq!(worker.step(&mut session, Event::Input(vec![])), Action::Stop(Ok(())));
}

#[test]
fn over_long_prefix_closes_the_session() {
    let worker = test_worker();
    let (_, written, result, status) = drive_to_exit(&worker, &[0xff; 16], 16, &stub_compiler);
    assert!(written.is_empty());
    assert_eq!(result, Err(SessionError::Framing(FramingError::PrefixTooLong)));
    assert_eq!(status, 1);
}

#[test]
fn undecodable_request_closes_the_session() {
    let worker = test_worker();
    // one frame whose payload is a text field that is no UTF-8
    let payload = vec![0x0a, 0x02, 0xff, 0xfe];
    let mut input = encode_frame(&payload).unwrap();
    input.extend_from_slice(&request_frame(&simple_request(&["--version"], 1)));
    let (commands, written, result) = drive(&worker, &input, 7);
    assert!(commands.is_empty());
    assert!(written.is_empty());
    assert_eq!(result, Err(SessionError::Decode(DecodeError::InvalidUtf8)));
}

#[test]
fn session_phases_follow_the_reads() {
    let worker = test_worker();
    let mut session = Session::new();
    let frame = request_frame(&simple_request(&["--version"], 9));
    assert_eq!(frame.len(), 14);
    assert_eq!(worker.step(&mut session, Event::Start), Action::Read { max: 10 });
    assert_eq!(session.phase(), Phase::AwaitingLength);
    assert_eq!(
        worker.step(&mut session, Event::Input(frame[..1].to_vec())),
        Action::Read { max: 13 }
    );
    assert_eq!(session.phase(), Phase::AwaitingPayload);
    assert_eq!(session.held_len(), 1);
    assert_eq!(
        worker.step(&mut session, Event::Input(frame[1..6].to_vec())),
        Action::Read { max: 8 }
    );
    assert_eq!(session.phase(), Phase::AwaitingPayload);
    let action = worker.step(&mut session, Event::Input(frame[6..].to_vec()));
    assert!(matches!(action, Action::Run { .. }));
    assert_eq!(session.phase(), Phase::Dispatching);
    assert_eq!(session.held_len(), 0);
}

#[test]
fn events_out_of_turn_close_the_session() {
    let worker = test_worker();
    let mut session = Session::new();
    assert_eq!(
        worker.step(&mut session, Event::Written),
        Action::Stop(Err(SessionError::OutOfTurn))
    );
    assert_eq!(session.phase(), Phase::Closed);
    let mut session = Session::new();
    assert_eq!(
        worker.step(
            &mut session,
            Event::Finished(ProcessOutcome::Exited { code: Some(0), diagnostics: vec![] })
        ),
        Action::Stop(Err(SessionError::OutOfTurn))
    );
    let mut session = Session::new();
    let _ = worker.step(&mut session, Event::Start);
    let frame = request_frame(&simple_request(&[], 0));
    assert!(matches!(worker.step(&mut session, Event::Input(frame)), Action::Run { .. }));
    assert_eq!(
        worker.step(&mut session, Event::Input(vec![1])),
        Action::Stop(Err(SessionError::OutOfTurn))
    );
    assert_eq!(worker.step(&mut session, Event::Start), Action::Stop(Err(SessionError::OutOfTurn)));
    assert_eq!(session.exit_status(Err(SessionError::OutOfTurn)), 1);
}

#[test]
fn dispatch_errors_are_answered_and_the_session_goes_on() {
    let worker = test_worker();
    let outcomes = vec![
        ProcessOutcome::SpawnFailed { reason: "No such file or directory".to_string() },
        ProcessOutcome::Exited { code: None, diagnostics: b"killed".to_vec() },
        ProcessOutcome::Exited { code: Some(0), diagnostics: vec![0xc3, 0x28] },
        ProcessOutcome::Exited { code: Some(1), diagnostics: b"error[E0308]".to_vec() },
    ];
    let expected = vec![
        WorkResponse {
            exit_code: EXIT_SPAWN_FAILED,
            output: "rustc-worker: the compiler could not be started: No such file or directory"
                .to_string(),
            request_id: 10,
        },
        WorkResponse {
            exit_code: EXIT_SIGNALED,
            output: "rustc-worker: the compiler was ended by a signal".to_string(),
            request_id: 11,
        },
        WorkResponse {
            exit_code: EXIT_OUTPUT_NOT_UTF8,
            output: "rustc-worker: the compiler's diagnostics are not valid UTF-8".to_string(),
            request_id: 12,
        },
        WorkResponse { exit_code: 1, output: "error[E0308]".to_string(), request_id: 13 },
    ];
    let mut session = Session::new();
    let mut action = worker.step(&mut session, Event::Start);
    let mut written = Vec::new();
    for (n, outcome) in outcomes.into_iter().enumerate() {
        assert_eq!(action, Action::Read { max: 10 });
        let frame = request_frame(&simple_request(&["main.rs"], 10 + n as i32));
        action = worker.step(&mut session, Event::Input(frame));
        assert!(matches!(action, Action::Run { .. }));
        action = worker.step(&mut session, Event::Finished(outcome));
        match action {
            Action::Write { bytes } => written.extend_from_slice(&bytes),
            other => panic!("no response was written: {:?}", other),
        }
        action = worker.step(&mut session, Event::Written);
    }
    assert_eq!(responses_in(&written), expected);
    assert_eq!(worker.step(&mut session, Event::Input(vec![])), Action::Stop(Ok(())));
    assert!(session.defect());
    assert_eq!(session.exit_status(Ok(())), 1);
}

#[test]
fn exit_status_is_zero_after_a_session_without_defects() {
    let worker = test_worker();
    let mut input = Vec::new();
    for id in [1, 2, 3] {
        input.extend_from_slice(&request_frame(&simple_request(&["main.rs"], id)));
    }
    // a compiler that fails is no defect of the dispatch
    let failing = |_: &[String]| ProcessOutcome::Exited {
        code: Some(1),
        diagnostics: b"error: aborting".to_vec(),
    };
    let (commands, written, result, status) = drive_to_exit(&worker, &input, 5, &failing);
    assert_eq!(commands.len(), 3);
    assert_eq!(result, Ok(()));
    assert_eq!(status, 0);
    let responses = responses_in(&written);
    assert_eq!(responses.len(), 3);
    assert_eq!(responses[2], WorkResponse {
        exit_code: 1,
        output: "error: aborting".to_string(),
        request_id: 3,
    });
}

#[test]
fn exit_status_is_not_zero_after_a_dispatch_defect() {
    let worker = test_worker();
    let mut input = Vec::new();
    for id in [1, 2, 3] {
        input.extend_from_slice(&request_frame(&simple_request(&["main.rs"], id)));
    }
    for outcome in [
        ProcessOutcome::SpawnFailed { reason: "not found".to_string() },
        ProcessOutcome::Exited { code: None, diagnostics: vec![] },
        ProcessOutcome::Exited { code: Some(0), diagnostics: vec![0xff] },
    ] {
        let defective = |arguments: &[String]| {
            if arguments.len() == 3 {
                outcome.clone()
            } else {
                stub_compiler(arguments)
            }
        };
        let (commands, written, result, status) = drive_to_exit(&worker, &input, 64, &defective);
        // every request is answered, and the loop ends with the stream
        assert_eq!(commands.len(), 3);
        assert_eq!(responses_in(&written).len(), 3);
        assert_eq!(result, Ok(()));
        assert_eq!(status, 1);
    }
}

#[test]
fn a_defect_is_remembered_to_the_end() {
    let worker = test_worker();
    let mut session = Session::new();
    let _ = worker.step(&mut session, Event::Start);
    let frame = request_frame(&simple_request(&["a.rs"], 1));
    let _ = worker.step(&mut session, Event::Input(frame));
    assert!(!session.defect());
    let _ = worker.step(
        &mut session,
        Event::Finished(ProcessOutcome::Exited { code: None, diagnostics: vec![] }),
    );
    assert!(session.defect());
    let _ = worker.step(&mut session, Event::Written);
    let frame = request_frame(&simple_request(&["b.rs"], 2));
    let _ = worker.step(&mut session, Event::Input(frame));
    let _ = worker.step(
        &mut session,
        Event::Finished(ProcessOutcome::Exited { code: Some(0), diagnostics: vec![] }),
    );
    assert!(session.defect());
    let _ = worker.step(&mut session, Event::Written);
    assert_eq!(worker.step(&mut session, Event::Input(vec![])), Action::Stop(Ok(())));
    assert_eq!(session.exit_status(Ok(())), 1);
}
