//! From a request to a compiler invocation, and from what the compiler did
//! to a response.
//!
//! The compiler runs outside this library. What is decided here is the command
//! line that it gets and the response that its outcome becomes. A request is
//! always answered: where the compiler could not be started, was ended by a
//! signal or wrote something that is no UTF-8, the response carries a
//! sentinel exit code and a text that says so, and the worker goes on; its
//! own exit status will not be 0 then.

use crate::message::{WorkResponse, WorkResponseView};
use crate::text::str_from_utf8;
use vstd::prelude::*;
use vstd::utf8::{decode_utf8, valid_utf8};

verus! {

/// The exit code of a response where the compiler could not be started.
pub const EXIT_SPAWN_FAILED: i32 = -1;

/// The exit code of a response where a signal ended the compiler, which
/// then has no exit code of its own.
pub const EXIT_SIGNALED: i32 = -2;

/// The exit code of a response where the compiler's diagnostics are no UTF-8.
pub const EXIT_OUTPUT_NOT_UTF8: i32 = -3;

/// Why a request has no result of the compiler's own.
#[derive(Clone, Copy, Debug, PartialEq, Eq, Structural)]
pub enum DispatchError {
    /// The compiler could not be started.
    SpawnFailed,
    /// A signal ended the compiler.
    Signaled,
    /// The compiler's diagnostics are no UTF-8.
    OutputNotUtf8,
}

/// What became of one compiler process.
#[derive(Clone, Debug, PartialEq, Eq)]
pub enum ProcessOutcome {
    /// The process ended. `code` is its exit code, or nothing where a signal
    /// ended it; `diagnostics` is all that it wrote to its diagnostic stream.
    Exited { code: Option<i32>, diagnostics: Vec<u8> },
    /// The process could not be started.
    SpawnFailed { reason: String },
}

/// A `ProcessOutcome` as mathematical values.
pub enum ProcessOutcomeView {
    Exited { code: Option<i32>, diagnostics: Seq<u8> },
    SpawnFailed { reason: Seq<char> },
}

impl View for ProcessOutcome {
    type V = ProcessOutcomeView;

    open spec fn view(&self) -> ProcessOutcomeView {
        match *self {
            ProcessOutcome::Exited { code, diagnostics } => ProcessOutcomeView::Exited {
                code,
                diagnostics: diagnostics@,
            },
            ProcessOutcome::SpawnFailed { reason } => ProcessOutcomeView::SpawnFailed {
                reason: reason@,
            },
        }
    }
}

impl DispatchError {
    /// The sentinel exit code that reports this error.
    pub open spec fn spec_exit_code(self) -> i32 {
        match self {
            DispatchError::SpawnFailed => EXIT_SPAWN_FAILED,
            DispatchError::Signaled => EXIT_SIGNALED,
            DispatchError::OutputNotUtf8 => EXIT_OUTPUT_NOT_UTF8,
        }
    }

    /// The text that reports this error.
    pub open spec fn spec_message(self) -> Seq<char> {
        match self {
            DispatchError::SpawnFailed => "rustc-worker: the compiler could not be started"@,
            DispatchError::Signaled => "rustc-worker: the compiler was ended by a signal"@,
            DispatchError::OutputNotUtf8 => {
                "rustc-worker: the compiler's diagnostics are not valid UTF-8"@
            },
        }
    }

    /// The sentinel exit code that reports this error.
    pub fn exit_code(self) -> (code: i32)
        ensures
            code == self.spec_exit_code(),
            code != 0,
    {
        match self {
            DispatchError::SpawnFailed => EXIT_SPAWN_FAILED,
            DispatchError::Signaled => EXIT_SIGNALED,
            DispatchError::OutputNotUtf8 => EXIT_OUTPUT_NOT_UTF8,
        }
    }

    /// The text that reports this error.
    pub fn message(self) -> (text: String)
        ensures
            text@ == self.spec_message(),
    {
        match self {
            DispatchError::SpawnFailed => String::from_str(
                "rustc-worker: the compiler could not be started",
            ),
            DispatchError::Signaled => String::from_str(
                "rustc-worker: the compiler was ended by a signal",
            ),
            DispatchError::OutputNotUtf8 => String::from_str(
                "rustc-worker: the compiler's diagnostics are not valid UTF-8",
            ),
        }
    }
}

/// The error that stands for the outcome of a compiler, where there is
/// one. A missing exit code is looked at before the diagnostics.
pub open spec fn spec_dispatch_error(outcome: ProcessOutcomeView) -> Option<DispatchError> {
    match outcome {
        ProcessOutcomeView::SpawnFailed { reason } => Some(DispatchError::SpawnFailed),
        ProcessOutcomeView::Exited { code, diagnostics } => if code is None {
            Some(DispatchError::Signaled)
        } else if !valid_utf8(diagnostics) {
            Some(DispatchError::OutputNotUtf8)
        } else {
            None
        },
    }
}

/// The exit code and the diagnostics of a compiler that ran to its end, or
/// the error that stands for them.
pub open spec fn spec_classify(outcome: ProcessOutcomeView) -> Result<
    (i32, Seq<char>),
    DispatchError,
> {
    match spec_dispatch_error(outcome) {
        Some(error) => Err(error),
        None => Ok((outcome->code->0, decode_utf8(outcome->diagnostics))),
    }
}

/// The response to the request `request_id`, given what became of its compiler.
///
/// A compiler that ran to its end gives its exit code and its diagnostics.
/// An error gives its sentinel exit code and its text; where the compiler
/// could not be started, the reason follows the text.
pub open spec fn spec_build_response(request_id: i32, outcome: ProcessOutcomeView)
    -> WorkResponseView {
    match spec_classify(outcome) {
        Ok((code, output)) => WorkResponseView { exit_code: code, output, request_id },
        Err(error) => WorkResponseView {
            exit_code: error.spec_exit_code(),
            output: match outcome {
                ProcessOutcomeView::SpawnFailed { reason } => error.spec_message() + ": "@ + reason,
                _ => error.spec_message(),
            },
            request_id,
        },
    }
}

/// Tells whether the outcome of a compiler is an error, and which.
pub fn dispatch_error(outcome: &ProcessOutcome) -> (r: Option<DispatchError>)
    ensures
        r == spec_dispatch_error(outcome@),
{
    match outcome {
        ProcessOutcome::SpawnFailed { reason } => Some(DispatchError::SpawnFailed),
        ProcessOutcome::Exited { code, diagnostics } => {
            if code.is_none() {
                Some(DispatchError::Signaled)
            } else if str_from_utf8(diagnostics.as_slice()).is_none() {
                Some(DispatchError::OutputNotUtf8)
            } else {
                None
            }
        },
    }
}

/// Sorts out what became of a compiler process.
pub fn classify(outcome: &ProcessOutcome) -> (r: Result<(i32, String), DispatchError>)
    ensures
        match spec_classify(outcome@) {
            Ok((code, output)) => r matches Ok((c, o)) && c == code && o@ == output,
            Err(error) => r == Err::<(i32, String), DispatchError>(error),
        },
{
    match outcome {
        ProcessOutcome::SpawnFailed { reason } => Err(DispatchError::SpawnFailed),
        ProcessOutcome::Exited { code, diagnostics } => match code {
            None => Err(DispatchError::Signaled),
            Some(code) => match str_from_utf8(diagnostics.as_slice()) {
                Some(output) => Ok((*code, output.to_owned())),
                None => Err(DispatchError::OutputNotUtf8),
            },
        },
    }
}

/// Builds the response to one request. Its `request_id` is that of the
/// request, whatever became of the compiler.
pub fn build_response(request_id: i32, outcome: &ProcessOutcome) -> (response: WorkResponse)
    ensures
        response@ == spec_build_response(request_id, outcome@),
        response.request_id == request_id,
{
    match classify(outcome) {
        Ok((exit_code, output)) => WorkResponse { exit_code, output, request_id },
        Err(error) => {
            let mut output = error.message();
            match outcome {
                ProcessOutcome::SpawnFailed { reason } => {
                    output.append(": ");
                    output.append(reason.as_str());
                },
                _ => {},
            }
            WorkResponse { exit_code: error.exit_code(), output, request_id }
        },
    }
}

/// The exit code that stands for a process: its own, or `EXIT_SIGNALED`
/// where a signal ended it.
pub fn exit_code_or_sentinel(code: Option<i32>) -> (r: i32)
    ensures
        r == match code {
            Some(own) => own,
            None => EXIT_SIGNALED,
        },
{
    match code {
        Some(own) => own,
        None => EXIT_SIGNALED,
    }
}

} // verus!
