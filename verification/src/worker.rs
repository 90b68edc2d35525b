//! The worker: which compiler it runs, and where that compiler keeps its
//! incremental state.

use crate::message::WorkRequest;
use vstd::prelude::*;

verus! {

/// The configuration of a worker process, made once and never changed.
#[derive(Clone, Debug, PartialEq, Eq)]
pub struct Worker {
    program_path: String,
    incremental_dir: String,
}

/// A `Worker` as mathematical values.
pub struct WorkerView {
    pub program_path: Seq<char>,
    pub incremental_dir: Seq<char>,
}

impl View for Worker {
    type V = WorkerView;

    closed spec fn view(&self) -> WorkerView {
        WorkerView { program_path: self.program_path@, incremental_dir: self.incremental_dir@ }
    }
}

/// The command line of one request: its arguments, then the flag that
/// points the compiler's incremental state at the cache directory.
pub open spec fn spec_command_arguments(worker: WorkerView, arguments: Seq<Seq<char>>) -> Seq<
    Seq<char>,
> {
    arguments + seq!["--codegen"@, "incremental="@ + worker.incremental_dir]
}

impl Worker {
    /// A worker that runs the compiler at `program_path` and has it keep its
    /// incremental state in `incremental_dir`.
    pub fn new(program_path: String, incremental_dir: String) -> (worker: Worker)
        ensures
            worker@ == (WorkerView {
                program_path: program_path@,
                incremental_dir: incremental_dir@,
            }),
    {
        Worker { program_path, incremental_dir }
    }

    /// The compiler that this worker runs.
    pub fn program_path(&self) -> (path: &str)
        ensures
            path@ == self@.program_path,
    {
        self.program_path.as_str()
    }

    /// The directory of the compiler's incremental state.
    pub fn incremental_dir(&self) -> (dir: &str)
        ensures
            dir@ == self@.incremental_dir,
    {
        self.incremental_dir.as_str()
    }

    /// The arguments that the compiler gets for `request`.
    pub fn command_arguments(&self, request: &WorkRequest) -> (arguments: Vec<String>)
        ensures
            arguments@.map_values(|s: String| s@) == spec_command_arguments(
                self@,
                request@.arguments,
            ),
    {
        let mut arguments: Vec<String> = Vec::new();
        let mut i: usize = 0;
        while i < request.arguments.len()
            invariant
                i <= request.arguments.len(),
                arguments@.map_values(|s: String| s@) == request@.arguments.take(i as int),
            decreases request.arguments.len() - i,
        {
            let ghost before = arguments@.map_values(|s: String| s@);
            let argument = request.arguments[i].clone();
            arguments.push(argument);
            i += 1;
            assert(arguments@.map_values(|s: String| s@) =~= before.push(argument@));
            assert(before.push(argument@) =~= request@.arguments.take(i as int));
        }
        assert(request@.arguments.take(i as int) =~= request@.arguments);
        let ghost before = arguments@.map_values(|s: String| s@);
        let flag = String::from_str("--codegen");
        let mut value = String::from_str("incremental=");
        value.append(self.incremental_dir.as_str());
        arguments.push(flag);
        arguments.push(value);
        assert(arguments@.map_values(|s: String| s@) =~= before + seq![flag@, value@]);
        arguments
    }
}

} // verus!
