//! The three messages of the worker protocol.

use vstd::prelude::*;

verus! {

/// An input file that a request may read.
#[derive(Clone, Debug, PartialEq, Eq)]
pub struct Input {
    /// Where to read the file: relative to the execution root, or absolute.
    pub path: String,
    /// A hash of the contents, in no stated format; an opaque token.
    pub digest: Vec<u8>,
}

/// One unit of work sent to the worker.
#[derive(Clone, Debug, PartialEq, Eq)]
pub struct WorkRequest {
    /// The command line of the compilation.
    pub arguments: Vec<String>,
    /// The files that the worker may read while it works on this request.
    pub inputs: Vec<Input>,
    /// Chosen by the sender and sent back unchanged; 0 where the sender has
    /// one request in flight at a time.
    pub request_id: i32,
}

/// The answer to one request.
#[derive(Clone, Debug, PartialEq, Eq)]
pub struct WorkResponse {
    /// The exit code of the compiler.
    pub exit_code: i32,
    /// What the compiler wrote for the user: warnings and errors.
    pub output: String,
    /// The `request_id` of the request that this answers.
    pub request_id: i32,
}

/// An `Input` as mathematical values.
pub struct InputView {
    pub path: Seq<char>,
    pub digest: Seq<u8>,
}

/// A `WorkRequest` as mathematical values.
pub struct WorkRequestView {
    pub arguments: Seq<Seq<char>>,
    pub inputs: Seq<InputView>,
    pub request_id: i32,
}

/// A `WorkResponse` as mathematical values.
pub struct WorkResponseView {
    pub exit_code: i32,
    pub output: Seq<char>,
    pub request_id: i32,
}

impl View for Input {
    type V = InputView;

    open spec fn view(&self) -> InputView {
        InputView { path: self.path@, digest: self.digest@ }
    }
}

impl View for WorkRequest {
    type V = WorkRequestView;

    open spec fn view(&self) -> WorkRequestView {
        WorkRequestView {
            arguments: self.arguments@.map_values(|s: String| s@),
            inputs: self.inputs@.map_values(|i: Input| i@),
            request_id: self.request_id,
        }
    }
}

impl View for WorkResponse {
    type V = WorkResponseView;

    open spec fn view(&self) -> WorkResponseView {
        WorkResponseView {
            exit_code: self.exit_code,
            output: self.output@,
            request_id: self.request_id,
        }
    }
}

impl InputView {
    /// The input with every field at its default.
    pub open spec fn empty() -> InputView {
        InputView { path: Seq::empty(), digest: Seq::empty() }
    }
}

impl WorkRequestView {
    /// The request with every field at its default.
    pub open spec fn empty() -> WorkRequestView {
        WorkRequestView { arguments: Seq::empty(), inputs: Seq::empty(), request_id: 0 }
    }
}

impl WorkResponseView {
    /// The response with every field at its default.
    pub open spec fn empty() -> WorkResponseView {
        WorkResponseView { exit_code: 0, output: Seq::empty(), request_id: 0 }
    }
}

impl Default for Input {
    fn default() -> (r: Input)
        ensures
            r@ == InputView::empty(),
    {
        Input { path: String::new(), digest: Vec::new() }
    }
}

impl Default for WorkRequest {
    fn default() -> (r: WorkRequest)
        ensures
            r@ == WorkRequestView::empty(),
    {
        let r = WorkRequest { arguments: Vec::new(), inputs: Vec::new(), request_id: 0 };
        assert(r@.arguments =~= Seq::empty());
        assert(r@.inputs =~= Seq::empty());
        r
    }
}

impl Default for WorkResponse {
    fn default() -> (r: WorkResponse)
        ensures
            r@ == WorkResponseView::empty(),
    {
        WorkResponse { exit_code: 0, output: String::new(), request_id: 0 }
    }
}

} // verus!
