use rustc_worker::dispatch::{
    build_response, classify, dispatch_error, exit_code_or_sentinel, DispatchError,
    ProcessOutcome, EXIT_OUTPUT_NOT_UTF8, EXIT_SIGNALED, EXIT_SPAWN_FAILED,
};
use rustc_worker::{Input, WorkRequest, WorkResponse, Worker};

fn exited(code: Option<i32>, diagnostics: &[u8]) -> ProcessOutcome {
    ProcessOutcome::Exited { code, diagnostics: diagnostics.to_vec() }
}

#[test]
fn worker_keeps_its_configuration() {
    let worker = Worker::new("/bin/process_wrapper".to_string(), "/tmp/cache".to_string());
    assert_eq!(worker.program_path(), "/bin/process_wrapper");
    assert_eq!(worker.incremental_dir(), "/tmp/cache");
}

#[test]
fn command_line_ends_with_the_incremental_flag() {
    let worker = Worker::new("/bin/rustc".to_string(), "/tmp/rustc-worker-5-opt".to_string());
    let request = WorkRequest {
        arguments: vec!["--crate-name".to_string(), "foo".to_string(), "src/lib.rs".to_string()],
        inputs: vec![Input { path: "src/lib.rs".to_string(), digest: vec![1] }],
        request_id: 3,
    };
    assert_eq!(
        worker.command_arguments(&request),
        vec![
            "--crate-name".to_string(),
            "foo".to_string(),
            "src/lib.rs".to_string(),
            "--codegen".to_string(),
            "incremental=/tmp/rustc-worker-5-opt".to_string(),
        ]
    );
}

#[test]
fn command_line_of_a_request_without_arguments() {
    let worker = Worker::new("rustc".to_string(), String::new());
    let request = WorkRequest { arguments: vec![], inputs: vec![], request_id: 0 };
    assert_eq!(
        worker.command_arguments(&request),
        vec!["--codegen".to_string(), "incremental=".to_string()]
    );
}

#[test]
fn command_line_keeps_arguments_as_they_are() {
    let worker = Worker::new("rustc".to_string(), "/c d/é".to_string());
    let arguments = vec![String::new(), " ".to_string(), "--codegen".to_string(), "ü=1".to_string()];
    let request = WorkRequest { arguments: arguments.clone(), inputs: vec![], request_id: -4 };
    let mut expected = arguments;
    expected.push("--codegen".to_string());
    expected.push("incremental=/c d/é".to_string());
    assert_eq!(worker.command_arguments(&request), expected);
}

#[test]
fn response_of_a_compiler_that_ran() {
    assert_eq!(
        build_response(7, &exited(Some(0), b"v1.0")),
        WorkResponse { exit_code: 0, output: "v1.0".to_string(), request_id: 7 }
    );
    assert_eq!(
        build_response(0, &exited(Some(1), "error: expected `;`\n".as_bytes())),
        WorkResponse { exit_code: 1, output: "error: expected `;`\n".to_string(), request_id: 0 }
    );
    assert_eq!(
        build_response(-9, &exited(Some(101), b"")),
        WorkResponse { exit_code: 101, output: String::new(), request_id: -9 }
    );
    assert_eq!(
        build_response(1, &exited(Some(-1073741819), "ошибка".as_bytes())),
        WorkResponse { exit_code: -1073741819, output: "ошибка".to_string(), request_id: 1 }
    );
}

#[test]
fn response_copies_the_request_id() {
    for id in [0, 1, -1, 7, 7, i32::MAX, i32::MIN] {
        assert_eq!(build_response(id, &exited(Some(0), b"ok")).request_id, id);
        assert_eq!(build_response(id, &exited(None, b"ok")).request_id, id);
        assert_eq!(build_response(id, &exited(Some(0), &[0xff])).request_id, id);
        let failed = ProcessOutcome::SpawnFailed { reason: "denied".to_string() };
        assert_eq!(build_response(id, &failed).request_id, id);
    }
}

#[test]
fn response_of_a_compiler_that_could_not_be_started() {
    let outcome = ProcessOutcome::SpawnFailed { reason: "Permission denied (os error 13)".to_string() };
    assert_eq!(
        build_response(4, &outcome),
        WorkResponse {
            exit_code: -1,
            output: "rustc-worker: the compiler could not be started: Permission denied (os error 13)"
                .to_string(),
            request_id: 4,
        }
    );
    assert_eq!(EXIT_SPAWN_FAILED, -1);
}

#[test]
fn response_of_a_compiler_that_a_signal_ended() {
    assert_eq!(
        build_response(5, &exited(None, b"half a diagnostic")),
        WorkResponse {
            exit_code: -2,
            output: "rustc-worker: the compiler was ended by a signal".to_string(),
            request_id: 5,
        }
    );
    assert_eq!(EXIT_SIGNALED, -2);
}

#[test]
fn response_of_diagnostics_that_are_no_utf8() {
    assert_eq!(
        build_response(6, &exited(Some(0), &[b'o', b'k', 0xff])),
        WorkResponse {
            exit_code: -3,
            output: "rustc-worker: the compiler's diagnostics are not valid UTF-8".to_string(),
            request_id: 6,
        }
    );
    assert_eq!(EXIT_OUTPUT_NOT_UTF8, -3);
}

#[test]
fn a_missing_exit_code_is_looked_at_first() {
    assert_eq!(classify(&exited(None, &[0xff])), Err(DispatchError::Signaled));
}

#[test]
fn classify_tells_the_outcomes_apart() {
    assert_eq!(classify(&exited(Some(3), b"warn")), Ok((3, "warn".to_string())));
    assert_eq!(classify(&exited(Some(0), b"")), Ok((0, String::new())));
    assert_eq!(classify(&exited(None, b"")), Err(DispatchError::Signaled));
    assert_eq!(classify(&exited(Some(0), &[0xc3])), Err(DispatchError::OutputNotUtf8));
    assert_eq!(
        classify(&ProcessOutcome::SpawnFailed { reason: String::new() }),
        Err(DispatchError::SpawnFailed)
    );
}

#[test]
fn dispatch_errors_have_their_own_codes_and_texts() {
    let errors = [DispatchError::SpawnFailed, DispatchError::Signaled, DispatchError::OutputNotUtf8];
    for first in errors {
        assert_ne!(first.exit_code(), 0);
        assert!(!first.message().is_empty());
        for second in errors {
            if first != second {
                assert_ne!(first.exit_code(), second.exit_code());
                assert_ne!(first.message(), second.message());
            }
        }
    }
    assert_eq!(DispatchError::SpawnFailed.exit_code(), -1);
    assert_eq!(DispatchError::Signaled.exit_code(), -2);
    assert_eq!(DispatchError::OutputNotUtf8.exit_code(), -3);
    assert_eq!(
        DispatchError::SpawnFailed.message(),
        "rustc-worker: the compiler could not be started"
    );
}

#[test]
fn exit_code_of_a_process() {
    assert_eq!(exit_code_or_sentinel(Some(0)), 0);
    assert_eq!(exit_code_or_sentinel(Some(1)), 1);
    assert_eq!(exit_code_or_sentinel(Some(-7)), -7);
    assert_eq!(exit_code_or_sentinel(None), EXIT_SIGNALED);
}

#[test]
fn dispatch_error_of_each_outcome() {
    assert_eq!(dispatch_error(&exited(Some(0), b"fine")), None);
    assert_eq!(dispatch_error(&exited(Some(1), b"error")), None);
    assert_eq!(dispatch_error(&exited(Some(-1), b"")), None);
    assert_eq!(dispatch_error(&exited(None, b"fine")), Some(DispatchError::Signaled));
    assert_eq!(dispatch_error(&exited(None, &[0xff])), Some(DispatchError::Signaled));
    assert_eq!(dispatch_error(&exited(Some(0), &[0xff])), Some(DispatchError::OutputNotUtf8));
    assert_eq!(
        dispatch_error(&ProcessOutcome::SpawnFailed { reason: "gone".to_string() }),
        Some(DispatchError::SpawnFailed)
    );
}

#[test]
fn outcomes_are_left_as_they_are() {
    let outcome = exited(Some(2), b"twice");
    assert_eq!(build_response(1, &outcome), build_response(1, &outcome));
    assert_eq!(classify(&outcome), Ok((2, "twice".to_string())));
    assert_eq!(outcome, exited(Some(2), b"twice"));
}
