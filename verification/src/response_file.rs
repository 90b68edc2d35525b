//! Response files: one command-line argument per line.
//!
//! A line ends with a line feed, or with a carriage return and a line feed;
//! the last line may end with the file. Neither ending belongs to the
//! argument.

use crate::text::str_from_utf8;
use vstd::prelude::*;
use vstd::slice::slice_subrange;
use vstd::utf8::{decode_utf8, valid_utf8};

verus! {

/// Why a response file gives no argument list.
#[derive(Clone, Copy, Debug, PartialEq, Eq, Structural)]
pub enum ResponseFileError {
    /// The line with this index, counted from 0, is no UTF-8.
    LineNotUtf8 { line: usize },
}

/// The index of the first line feed at or behind `from`, or the length
/// where there is none.
pub open spec fn line_end(bytes: Seq<u8>, from: nat) -> nat
    decreases bytes.len() - from,
{
    if from >= bytes.len() {
        bytes.len()
    } else if bytes[from as int] == 10 {
        from
    } else {
        line_end(bytes, from + 1)
    }
}

/// A line without the carriage return that it may end with.
pub open spec fn strip_cr(line: Seq<u8>) -> Seq<u8> {
    if line.len() > 0 && line.last() == 13 {
        line.drop_last()
    } else {
        line
    }
}

/// The lines of a file, without their endings.
pub open spec fn spec_lines(bytes: Seq<u8>) -> Seq<Seq<u8>>
    decreases bytes.len(),
{
    if bytes.len() == 0 {
        Seq::empty()
    } else {
        let end = line_end(bytes, 0);
        if end >= bytes.len() {
            seq![bytes]
        } else {
            seq![strip_cr(bytes.take(end as int))] + spec_lines(bytes.skip(end as int + 1))
        }
    }
}

/// Reads the argument list that a response file holds.
///
/// Every line is one argument, an empty line an empty argument. The result
/// is an error where a line is no UTF-8, and names the first such line.
pub fn response_file_arguments(content: &[u8]) -> (r: Result<Vec<String>, ResponseFileError>)
    ensures
        r is Ok <==> forall|k: int|
            0 <= k < spec_lines(content@).len() ==> valid_utf8(#[trigger] spec_lines(content@)[k]),
        r matches Ok(arguments) ==> arguments@.map_values(|s: String| s@) == spec_lines(
            content@,
        ).map_values(|line: Seq<u8>| decode_utf8(line)),
        r matches Err(ResponseFileError::LineNotUtf8 { line }) ==> line < spec_lines(
            content@,
        ).len() && !valid_utf8(spec_lines(content@)[line as int]) && forall|k: int|
            0 <= k < line ==> valid_utf8(#[trigger] spec_lines(content@)[k]),
{
    let mut arguments: Vec<String> = Vec::new();
    let mut rest: &[u8] = content;
    let ghost mut done: Seq<Seq<u8>> = Seq::empty();
    while rest.len() > 0
        invariant
            spec_lines(content@) == done + spec_lines(rest@),
            arguments@.len() == done.len(),
            forall|k: int| 0 <= k < done.len() ==> valid_utf8(#[trigger] done[k]),
            arguments@.map_values(|s: String| s@) == done.map_values(
                |line: Seq<u8>| decode_utf8(line),
            ),
        decreases rest.len(),
    {
        let mut end: usize = 0;
        while end < rest.len() && rest[end] != 10
            invariant
                end <= rest.len(),
                line_end(rest@, 0) == line_end(rest@, end as nat),
            decreases rest.len() - end,
        {
            end += 1;
        }
        let whole: bool = end == rest.len();
        let mut stop: usize = end;
        if !whole && end > 0 && rest[end - 1] == 13 {
            stop = end - 1;
        }
        let line = slice_subrange(rest, 0, stop);
        let ghost line_bytes = line@;
        let ghost tail = if whole {
            Seq::<u8>::empty()
        } else {
            rest@.skip(end + 1)
        };
        proof {
            if whole {
                assert(rest@.take(end as int) =~= rest@);
            } else {
                assert(strip_cr(rest@.take(end as int)) =~= line_bytes);
            }
            assert(spec_lines(rest@) =~= seq![line_bytes] + spec_lines(tail));
            assert(spec_lines(content@) =~= done.push(line_bytes) + spec_lines(tail));
        }
        match str_from_utf8(line) {
            Some(text) => {
                let ghost before = arguments@.map_values(|s: String| s@);
                let argument = text.to_owned();
                arguments.push(argument);
                proof {
                    assert(arguments@.map_values(|s: String| s@) =~= before.push(argument@));
                    assert(done.push(line_bytes).map_values(|line: Seq<u8>| decode_utf8(line))
                        =~= done.map_values(|line: Seq<u8>| decode_utf8(line)).push(
                        decode_utf8(line_bytes),
                    ));
                    done = done.push(line_bytes);
                }
            },
            None => {
                proof {
                    let all = spec_lines(content@);
                    assert(all[done.len() as int] == line_bytes);
                    assert forall|k: int| 0 <= k < done.len() implies valid_utf8(
                        #[trigger] all[k],
                    ) by {
                        assert(all[k] == done[k]);
                    }
                }
                return Err(ResponseFileError::LineNotUtf8 { line: arguments.len() });
            },
        }
        if whole {
            rest = slice_subrange(rest, end, end);
        } else {
            rest = slice_subrange(rest, end + 1, rest.len());
        }
    }
    proof {
        assert(spec_lines(content@) =~= done);
    }
    Ok(arguments)
}

} // verus!
