//! The wire layout of the three messages.
//!
//! `Input`: field 1 `path` (text), field 2 `digest` (bytes).
//! `WorkRequest`: field 1 `arguments` (text, repeated), field 2 `inputs`
//! (embedded `Input`, repeated), field 3 `request_id` (varint).
//! `WorkResponse`: field 1 `exit_code` (varint), field 2 `output` (text),
//! field 3 `request_id` (varint).
//!
//! A message is written with its fields in this order, a field that is not
//! repeated being left out where it holds 0 or nothing. It is read with its
//! fields in any order: a repeated field collects what comes, another field
//! keeps what came last, and a field with a number that the message does
//! not have is passed over.

use crate::message::{
    Input, InputView, WorkRequest, WorkRequestView, WorkResponse, WorkResponseView,
};
use crate::text::str_from_utf8;
use crate::wire::{
    lemma_field_bounds, lemma_read_bytes_field, lemma_read_int32_field, low_i32, read_field,
    spec_bytes_field, spec_int32_field, spec_read_field, write_bytes_field, write_int32_field,
    DecodeError, Field, FieldView, WireType,
};
use vstd::prelude::*;
use vstd::slice::{slice_subrange, slice_to_vec};
use vstd::utf8::{
    decode_utf8, encode_scalar, encode_utf8, encode_utf8_decode_utf8, encode_utf8_valid_utf8,
    valid_utf8,
};

verus! {

/// Reads a text field's content.
fn read_text(content: &[u8]) -> (r: Result<String, DecodeError>)
    ensures
        match spec_text(content@) {
            Ok(chars) => r matches Ok(s) && s@ == chars,
            Err(e) => r == Err::<String, DecodeError>(e),
        },
{
    match str_from_utf8(content) {
        Some(text) => Ok(text.to_owned()),
        None => Err(DecodeError::InvalidUtf8),
    }
}

/// The text that the content of a text field holds.
pub open spec fn spec_text(content: Seq<u8>) -> Result<Seq<char>, DecodeError> {
    if valid_utf8(content) {
        Ok(decode_utf8(content))
    } else {
        Err(DecodeError::InvalidUtf8)
    }
}

/// A text is empty exactly where its UTF-8 bytes are.
pub proof fn lemma_text_is_empty(text: Seq<char>)
    ensures
        text.len() == 0 <==> encode_utf8(text).len() == 0,
{
    if text.len() > 0 {
        assert(encode_utf8(text).len() >= encode_scalar(text[0] as u32).len());
    }
}

// ---------------------------------------------------------------- Input

/// The bytes of an `Input`.
pub open spec fn spec_encode_input(input: InputView) -> Seq<u8> {
    (if input.path.len() == 0 {
        Seq::<u8>::empty()
    } else {
        spec_bytes_field(1, encode_utf8(input.path))
    }) + (if input.digest.len() == 0 {
        Seq::<u8>::empty()
    } else {
        spec_bytes_field(2, input.digest)
    })
}

/// `acc` after one field of an `Input` was read.
pub open spec fn input_with(acc: InputView, field: FieldView, content: Seq<u8>) -> Result<
    InputView,
    DecodeError,
> {
    if field.number == 1 {
        if field.wire_type != WireType::LengthDelimited {
            Err(DecodeError::UnexpectedWireType)
        } else {
            match spec_text(content) {
                Ok(path) => Ok(InputView { path, digest: acc.digest }),
                Err(e) => Err(e),
            }
        }
    } else if field.number == 2 {
        if field.wire_type != WireType::LengthDelimited {
            Err(DecodeError::UnexpectedWireType)
        } else {
            Ok(InputView { path: acc.path, digest: content })
        }
    } else {
        Ok(acc)
    }
}

/// `acc` after all fields in `bytes` were read, one after the other.
pub open spec fn merge_input(acc: InputView, bytes: Seq<u8>) -> Result<InputView, DecodeError>
    decreases bytes.len(),
{
    if bytes.len() == 0 {
        Ok(acc)
    } else {
        match spec_read_field(bytes) {
            Err(e) => Err(e),
            Ok(field) => {
                proof {
                    lemma_field_bounds(bytes);
                }
                let content = bytes.subrange(field.start as int, field.end as int);
                match input_with(acc, field, content) {
                    Err(e) => Err(e),
                    Ok(next) => merge_input(next, bytes.skip(field.end as int)),
                }
            },
        }
    }
}

/// The `Input` that `bytes` hold.
pub open spec fn spec_decode_input(bytes: Seq<u8>) -> Result<InputView, DecodeError> {
    merge_input(InputView::empty(), bytes)
}

/// Writes an `Input`. What is written reads back as the same `Input`.
pub fn encode_input(input: &Input) -> (bytes: Vec<u8>)
    ensures
        bytes@ == spec_encode_input(input@),
        input_fits(input@),
        spec_decode_input(bytes@) == Ok::<InputView, DecodeError>(input@),
{
    let mut out: Vec<u8> = Vec::new();
    let path = input.path.as_str().as_bytes();
    if path.len() != 0 {
        write_bytes_field(1, path, &mut out);
    }
    if input.digest.len() != 0 {
        write_bytes_field(2, input.digest.as_slice(), &mut out);
    }
    proof {
        lemma_text_is_empty(input@.path);
        assert(out@ =~= spec_encode_input(input@));
        lemma_input_round_trip(input@);
    }
    out
}

/// Reads an `Input`.
pub fn decode_input(bytes: &[u8]) -> (r: Result<Input, DecodeError>)
    ensures
        match spec_decode_input(bytes@) {
            Ok(v) => r matches Ok(input) && input@ == v,
            Err(e) => r == Err::<Input, DecodeError>(e),
        },
{
    let mut input = Input { path: String::new(), digest: Vec::new() };
    let mut rest: &[u8] = bytes;
    while rest.len() > 0
        invariant
            merge_input(input@, rest@) == spec_decode_input(bytes@),
        decreases rest.len(),
    {
        proof {
            lemma_field_bounds(rest@);
        }
        let field: Field = match read_field(rest) {
            Ok(field) => field,
            Err(e) => {
                return Err(e);
            },
        };
        let content = slice_subrange(rest, field.start, field.end);
        if field.number == 1 {
            if field.wire_type != WireType::LengthDelimited {
                return Err(DecodeError::UnexpectedWireType);
            }
            match read_text(content) {
                Ok(path) => {
                    input.path = path;
                },
                Err(e) => {
                    return Err(e);
                },
            }
        } else if field.number == 2 {
            if field.wire_type != WireType::LengthDelimited {
                return Err(DecodeError::UnexpectedWireType);
            }
            input.digest = slice_to_vec(content);
        }
        rest = slice_subrange(rest, field.end, rest.len());
    }
    Ok(input)
}

/// An `Input` whose fields are short enough for their lengths to be written.
pub open spec fn input_fits(input: InputView) -> bool {
    encode_utf8(input.path).len() <= u64::MAX && input.digest.len() <= u64::MAX
}

/// Reading a written `path` field sets the path and goes on with the rest.
proof fn lemma_merge_input_path(acc: InputView, path: Seq<char>, rest: Seq<u8>)
    requires
        encode_utf8(path).len() <= u64::MAX,
    ensures
        merge_input(acc, spec_bytes_field(1, encode_utf8(path)) + rest) == merge_input(
            InputView { path, digest: acc.digest },
            rest,
        ),
{
    lemma_read_bytes_field(1, encode_utf8(path), rest);
    encode_utf8_valid_utf8(path);
    encode_utf8_decode_utf8(path);
}

/// Reading a written `digest` field sets the digest and goes on with the rest.
proof fn lemma_merge_input_digest(acc: InputView, digest: Seq<u8>, rest: Seq<u8>)
    requires
        digest.len() <= u64::MAX,
    ensures
        merge_input(acc, spec_bytes_field(2, digest) + rest) == merge_input(
            InputView { path: acc.path, digest },
            rest,
        ),
{
    lemma_read_bytes_field(2, digest, rest);
}

/// Reading what was written for an `Input` gives the same `Input`.
pub proof fn lemma_input_round_trip(input: InputView)
    requires
        input_fits(input),
    ensures
        spec_decode_input(spec_encode_input(input)) == Ok::<InputView, DecodeError>(input),
{
    let none = Seq::<u8>::empty();
    let digest_part = if input.digest.len() == 0 {
        none
    } else {
        spec_bytes_field(2, input.digest)
    };
    let with_path = InputView { path: input.path, digest: Seq::empty() };
    assert(merge_input(InputView::empty(), spec_encode_input(input)) == merge_input(
        with_path,
        digest_part,
    )) by {
        if input.path.len() == 0 {
            assert(input.path =~= Seq::<char>::empty());
            assert(spec_encode_input(input) =~= digest_part);
        } else {
            lemma_merge_input_path(InputView::empty(), input.path, digest_part);
        }
    }
    if input.digest.len() == 0 {
        assert(input.digest =~= Seq::<u8>::empty());
    } else {
        lemma_merge_input_digest(with_path, input.digest, none);
        assert(digest_part + none =~= digest_part);
    }
}

// ---------------------------------------------------------------- WorkRequest

/// The `arguments` fields of a request, one after the other.
pub open spec fn spec_encode_arguments(arguments: Seq<Seq<char>>) -> Seq<u8>
    decreases arguments.len(),
{
    if arguments.len() == 0 {
        Seq::<u8>::empty()
    } else {
        spec_encode_arguments(arguments.drop_last()) + spec_bytes_field(
            1,
            encode_utf8(arguments.last()),
        )
    }
}

/// The `inputs` fields of a request, one after the other.
pub open spec fn spec_encode_inputs(inputs: Seq<InputView>) -> Seq<u8>
    decreases inputs.len(),
{
    if inputs.len() == 0 {
        Seq::<u8>::empty()
    } else {
        spec_encode_inputs(inputs.drop_last()) + spec_bytes_field(
            2,
            spec_encode_input(inputs.last()),
        )
    }
}

/// A field that holds a number, left out where the number is 0.
pub open spec fn spec_optional_int32(number: u32, value: i32) -> Seq<u8> {
    if value == 0 {
        Seq::<u8>::empty()
    } else {
        spec_int32_field(number, value)
    }
}

/// The bytes of a `WorkRequest`.
pub open spec fn spec_encode_request(request: WorkRequestView) -> Seq<u8> {
    spec_encode_arguments(request.arguments) + spec_encode_inputs(request.inputs)
        + spec_optional_int32(3, request.request_id)
}

/// `acc` after one field of a `WorkRequest` was read.
pub open spec fn request_with(acc: WorkRequestView, field: FieldView, content: Seq<u8>) -> Result<
    WorkRequestView,
    DecodeError,
> {
    if field.number == 1 {
        if field.wire_type != WireType::LengthDelimited {
            Err(DecodeError::UnexpectedWireType)
        } else {
            match spec_text(content) {
                Ok(argument) => Ok(
                    WorkRequestView {
                        arguments: acc.arguments.push(argument),
                        inputs: acc.inputs,
                        request_id: acc.request_id,
                    },
                ),
                Err(e) => Err(e),
            }
        }
    } else if field.number == 2 {
        if field.wire_type != WireType::LengthDelimited {
            Err(DecodeError::UnexpectedWireType)
        } else {
            match spec_decode_input(content) {
                Ok(input) => Ok(
                    WorkRequestView {
                        arguments: acc.arguments,
                        inputs: acc.inputs.push(input),
                        request_id: acc.request_id,
                    },
                ),
                Err(e) => Err(e),
            }
        }
    } else if field.number == 3 {
        if field.wire_type != WireType::Varint {
            Err(DecodeError::UnexpectedWireType)
        } else {
            Ok(
                WorkRequestView {
                    arguments: acc.arguments,
                    inputs: acc.inputs,
                    request_id: low_i32(field.value),
                },
            )
        }
    } else {
        Ok(acc)
    }
}

/// `acc` after all fields in `bytes` were read, one after the other.
pub open spec fn merge_request(acc: WorkRequestView, bytes: Seq<u8>) -> Result<
    WorkRequestView,
    DecodeError,
>
    decreases bytes.len(),
{
    if bytes.len() == 0 {
        Ok(acc)
    } else {
        match spec_read_field(bytes) {
            Err(e) => Err(e),
            Ok(field) => {
                proof {
                    lemma_field_bounds(bytes);
                }
                let content = bytes.subrange(field.start as int, field.end as int);
                match request_with(acc, field, content) {
                    Err(e) => Err(e),
                    Ok(next) => merge_request(next, bytes.skip(field.end as int)),
                }
            },
        }
    }
}

/// The `WorkRequest` that `bytes` hold.
pub open spec fn spec_decode_request(bytes: Seq<u8>) -> Result<WorkRequestView, DecodeError> {
    merge_request(WorkRequestView::empty(), bytes)
}

/// The number in the low 32 bits of a varint.
fn low_bits_i32(value: u64) -> (r: i32)
    ensures
        r == low_i32(value),
{
    let low: u64 = value % 0x1_0000_0000;
    if low < 0x8000_0000 {
        low as i32
    } else {
        (low as i64 - 0x1_0000_0000) as i32
    }
}

/// Writes a `WorkRequest`. What is written reads back as the same
/// `WorkRequest`.
pub fn encode_request(request: &WorkRequest) -> (bytes: Vec<u8>)
    ensures
        bytes@ == spec_encode_request(request@),
        request_fits(request@),
        spec_decode_request(bytes@) == Ok::<WorkRequestView, DecodeError>(request@),
{
    let mut out: Vec<u8> = Vec::new();
    let ghost arguments = request@.arguments;
    let ghost inputs = request@.inputs;
    let mut i: usize = 0;
    while i < request.arguments.len()
        invariant
            i <= request.arguments.len(),
            arguments == request@.arguments,
            out@ == spec_encode_arguments(arguments.take(i as int)),
            forall|k: int| 0 <= k < i ==> encode_utf8(#[trigger] arguments[k]).len() <= u64::MAX,
        decreases request.arguments.len() - i,
    {
        let content = request.arguments[i].as_str().as_bytes();
        write_bytes_field(1, content, &mut out);
        proof {
            let longer = arguments.take(i + 1);
            assert(longer.drop_last() =~= arguments.take(i as int));
            assert(longer.last() == request.arguments@[i as int]@);
            assert(arguments[i as int] == request.arguments@[i as int]@);
            assert(content@.len() == content.len() <= usize::MAX);
        }
        i += 1;
    }
    assert(arguments.take(i as int) =~= arguments);
    let ghost head = out@;
    let mut j: usize = 0;
    while j < request.inputs.len()
        invariant
            j <= request.inputs.len(),
            inputs == request@.inputs,
            out@ == head + spec_encode_inputs(inputs.take(j as int)),
            forall|k: int|
                0 <= k < j ==> input_fits(#[trigger] inputs[k]) && spec_encode_input(
                    inputs[k],
                ).len() <= u64::MAX,
        decreases request.inputs.len() - j,
    {
        let inner = encode_input(&request.inputs[j]);
        let ghost before = out@;
        write_bytes_field(2, inner.as_slice(), &mut out);
        proof {
            let longer = inputs.take(j + 1);
            assert(longer.drop_last() =~= inputs.take(j as int));
            assert(longer.last() == request.inputs@[j as int]@);
            assert(out@ =~= head + spec_encode_inputs(longer));
            assert(inputs[j as int] == request.inputs@[j as int]@);
            assert(inner@.len() == inner.len() <= usize::MAX);
        }
        j += 1;
    }
    assert(inputs.take(j as int) =~= inputs);
    if request.request_id != 0 {
        write_int32_field(3, request.request_id, &mut out);
    }
    proof {
        assert(out@ =~= spec_encode_request(request@));
        lemma_request_round_trip(request@);
    }
    out
}

/// Reads a `WorkRequest`.
pub fn decode_request(bytes: &[u8]) -> (r: Result<WorkRequest, DecodeError>)
    ensures
        match spec_decode_request(bytes@) {
            Ok(v) => r matches Ok(request) && request@ == v,
            Err(e) => r == Err::<WorkRequest, DecodeError>(e),
        },
{
    let mut request = WorkRequest { arguments: Vec::new(), inputs: Vec::new(), request_id: 0 };
    assert(request@.arguments =~= Seq::empty() && request@.inputs =~= Seq::empty());
    let mut rest: &[u8] = bytes;
    while rest.len() > 0
        invariant
            merge_request(request@, rest@) == spec_decode_request(bytes@),
        decreases rest.len(),
    {
        proof {
            lemma_field_bounds(rest@);
        }
        let field: Field = match read_field(rest) {
            Ok(field) => field,
            Err(e) => {
                return Err(e);
            },
        };
        let content = slice_subrange(rest, field.start, field.end);
        let ghost before = request@;
        if field.number == 1 {
            if field.wire_type != WireType::LengthDelimited {
                return Err(DecodeError::UnexpectedWireType);
            }
            match read_text(content) {
                Ok(argument) => {
                    request.arguments.push(argument);
                    assert(request@.arguments =~= before.arguments.push(argument@));
                },
                Err(e) => {
                    return Err(e);
                },
            }
        } else if field.number == 2 {
            if field.wire_type != WireType::LengthDelimited {
                return Err(DecodeError::UnexpectedWireType);
            }
            match decode_input(content) {
                Ok(input) => {
                    request.inputs.push(input);
                    assert(request@.inputs =~= before.inputs.push(input@));
                },
                Err(e) => {
                    return Err(e);
                },
            }
        } else if field.number == 3 {
            if field.wire_type != WireType::Varint {
                return Err(DecodeError::UnexpectedWireType);
            }
            request.request_id = low_bits_i32(field.value);
        }
        rest = slice_subrange(rest, field.end, rest.len());
    }
    Ok(request)
}

/// A `WorkRequest` whose fields are short enough for their lengths to be written.
pub open spec fn request_fits(request: WorkRequestView) -> bool {
    &&& forall|i: int|
        0 <= i < request.arguments.len() ==> encode_utf8(#[trigger] request.arguments[i]).len()
            <= u64::MAX
    &&& forall|i: int|
        0 <= i < request.inputs.len() ==> input_fits(#[trigger] request.inputs[i])
            && spec_encode_input(request.inputs[i]).len() <= u64::MAX
}

/// Reading written `arguments` fields appends the arguments and goes on with the rest.
proof fn lemma_merge_arguments(acc: WorkRequestView, arguments: Seq<Seq<char>>, rest: Seq<u8>)
    requires
        forall|i: int|
            0 <= i < arguments.len() ==> encode_utf8(#[trigger] arguments[i]).len() <= u64::MAX,
    ensures
        merge_request(acc, spec_encode_arguments(arguments) + rest) == merge_request(
            WorkRequestView {
                arguments: acc.arguments + arguments,
                inputs: acc.inputs,
                request_id: acc.request_id,
            },
            rest,
        ),
    decreases arguments.len(),
{
    if arguments.len() == 0 {
        assert(acc.arguments + arguments =~= acc.arguments);
        assert(spec_encode_arguments(arguments) + rest =~= rest);
    } else {
        let front = arguments.drop_last();
        let last = arguments.last();
        let field = spec_bytes_field(1, encode_utf8(last));
        assert(spec_encode_arguments(arguments) + rest =~= spec_encode_arguments(front) + (field
            + rest));
        lemma_merge_arguments(acc, front, field + rest);
        let mid = WorkRequestView {
            arguments: acc.arguments + front,
            inputs: acc.inputs,
            request_id: acc.request_id,
        };
        lemma_read_bytes_field(1, encode_utf8(last), rest);
        encode_utf8_valid_utf8(last);
        encode_utf8_decode_utf8(last);
        assert(mid.arguments.push(last) =~= acc.arguments + arguments);
    }
}

/// Reading written `inputs` fields appends the inputs and goes on with the rest.
proof fn lemma_merge_inputs(acc: WorkRequestView, inputs: Seq<InputView>, rest: Seq<u8>)
    requires
        forall|i: int|
            0 <= i < inputs.len() ==> input_fits(#[trigger] inputs[i]) && spec_encode_input(
                inputs[i],
            ).len() <= u64::MAX,
    ensures
        merge_request(acc, spec_encode_inputs(inputs) + rest) == merge_request(
            WorkRequestView {
                arguments: acc.arguments,
                inputs: acc.inputs + inputs,
                request_id: acc.request_id,
            },
            rest,
        ),
    decreases inputs.len(),
{
    if inputs.len() == 0 {
        assert(acc.inputs + inputs =~= acc.inputs);
        assert(spec_encode_inputs(inputs) + rest =~= rest);
    } else {
        let front = inputs.drop_last();
        let last = inputs.last();
        let field = spec_bytes_field(2, spec_encode_input(last));
        assert(spec_encode_inputs(inputs) + rest =~= spec_encode_inputs(front) + (field + rest));
        lemma_merge_inputs(acc, front, field + rest);
        let mid = WorkRequestView {
            arguments: acc.arguments,
            inputs: acc.inputs + front,
            request_id: acc.request_id,
        };
        lemma_read_bytes_field(2, spec_encode_input(last), rest);
        lemma_input_round_trip(last);
        assert(mid.inputs.push(last) =~= acc.inputs + inputs);
    }
}

/// Reading a written `request_id` field sets the number and goes on with the rest.
proof fn lemma_merge_request_id(acc: WorkRequestView, request_id: i32, rest: Seq<u8>)
    ensures
        merge_request(acc, spec_int32_field(3, request_id) + rest) == merge_request(
            WorkRequestView { arguments: acc.arguments, inputs: acc.inputs, request_id },
            rest,
        ),
{
    lemma_read_int32_field(3, request_id, rest);
}

/// Reading what was written for a `WorkRequest` gives the same `WorkRequest`,
/// whatever its arguments, inputs and `request_id` are.
pub proof fn lemma_request_round_trip(request: WorkRequestView)
    requires
        request_fits(request),
    ensures
        spec_decode_request(spec_encode_request(request)) == Ok::<WorkRequestView, DecodeError>(
            request,
        ),
{
    let none = Seq::<u8>::empty();
    let id_part = spec_optional_int32(3, request.request_id);
    let inputs_part = spec_encode_inputs(request.inputs);
    let start = WorkRequestView::empty();
    assert(spec_encode_request(request) =~= spec_encode_arguments(request.arguments) + (inputs_part
        + id_part));
    lemma_merge_arguments(start, request.arguments, inputs_part + id_part);
    let with_arguments = WorkRequestView {
        arguments: start.arguments + request.arguments,
        inputs: start.inputs,
        request_id: 0,
    };
    lemma_merge_inputs(with_arguments, request.inputs, id_part);
    let with_inputs = WorkRequestView {
        arguments: with_arguments.arguments,
        inputs: with_arguments.inputs + request.inputs,
        request_id: 0,
    };
    assert(with_inputs.arguments =~= request.arguments);
    assert(with_inputs.inputs =~= request.inputs);
    if request.request_id != 0 {
        lemma_merge_request_id(with_inputs, request.request_id, none);
        assert(id_part + none =~= id_part);
    }
}

// ---------------------------------------------------------------- WorkResponse

/// The bytes of a `WorkResponse`.
pub open spec fn spec_encode_response(response: WorkResponseView) -> Seq<u8> {
    spec_optional_int32(1, response.exit_code) + (if response.output.len() == 0 {
        Seq::<u8>::empty()
    } else {
        spec_bytes_field(2, encode_utf8(response.output))
    }) + spec_optional_int32(3, response.request_id)
}

/// `acc` after one field of a `WorkResponse` was read.
pub open spec fn response_with(
    acc: WorkResponseView,
    field: FieldView,
    content: Seq<u8>,
) -> Result<WorkResponseView, DecodeError> {
    if field.number == 1 {
        if field.wire_type != WireType::Varint {
            Err(DecodeError::UnexpectedWireType)
        } else {
            Ok(
                WorkResponseView {
                    exit_code: low_i32(field.value),
                    output: acc.output,
                    request_id: acc.request_id,
                },
            )
        }
    } else if field.number == 2 {
        if field.wire_type != WireType::LengthDelimited {
            Err(DecodeError::UnexpectedWireType)
        } else {
            match spec_text(content) {
                Ok(output) => Ok(
                    WorkResponseView {
                        exit_code: acc.exit_code,
                        output,
                        request_id: acc.request_id,
                    },
                ),
                Err(e) => Err(e),
            }
        }
    } else if field.number == 3 {
        if field.wire_type != WireType::Varint {
            Err(DecodeError::UnexpectedWireType)
        } else {
            Ok(
                WorkResponseView {
                    exit_code: acc.exit_code,
                    output: acc.output,
                    request_id: low_i32(field.value),
                },
            )
        }
    } else {
        Ok(acc)
    }
}

/// `acc` after all fields in `bytes` were read, one after the other.
pub open spec fn merge_response(acc: WorkResponseView, bytes: Seq<u8>) -> Result<
    WorkResponseView,
    DecodeError,
>
    decreases bytes.len(),
{
    if bytes.len() == 0 {
        Ok(acc)
    } else {
        match spec_read_field(bytes) {
            Err(e) => Err(e),
            Ok(field) => {
                proof {
                    lemma_field_bounds(bytes);
                }
                let content = bytes.subrange(field.start as int, field.end as int);
                match response_with(acc, field, content) {
                    Err(e) => Err(e),
                    Ok(next) => merge_response(next, bytes.skip(field.end as int)),
                }
            },
        }
    }
}

/// The `WorkResponse` that `bytes` hold.
pub open spec fn spec_decode_response(bytes: Seq<u8>) -> Result<WorkResponseView, DecodeError> {
    merge_response(WorkResponseView::empty(), bytes)
}

/// Writes a `WorkResponse`. What is written reads back as the same
/// `WorkResponse`.
pub fn encode_response(response: &WorkResponse) -> (bytes: Vec<u8>)
    ensures
        bytes@ == spec_encode_response(response@),
        response_fits(response@),
        spec_decode_response(bytes@) == Ok::<WorkResponseView, DecodeError>(response@),
{
    let mut out: Vec<u8> = Vec::new();
    if response.exit_code != 0 {
        write_int32_field(1, response.exit_code, &mut out);
    }
    let output = response.output.as_str().as_bytes();
    if output.len() != 0 {
        write_bytes_field(2, output, &mut out);
    }
    if response.request_id != 0 {
        write_int32_field(3, response.request_id, &mut out);
    }
    proof {
        lemma_text_is_empty(response@.output);
        assert(out@ =~= spec_encode_response(response@));
        lemma_response_round_trip(response@);
    }
    out
}

/// Reads a `WorkResponse`.
pub fn decode_response(bytes: &[u8]) -> (r: Result<WorkResponse, DecodeError>)
    ensures
        match spec_decode_response(bytes@) {
            Ok(v) => r matches Ok(response) && response@ == v,
            Err(e) => r == Err::<WorkResponse, DecodeError>(e),
        },
{
    let mut response = WorkResponse { exit_code: 0, output: String::new(), request_id: 0 };
    let mut rest: &[u8] = bytes;
    while rest.len() > 0
        invariant
            merge_response(response@, rest@) == spec_decode_response(bytes@),
        decreases rest.len(),
    {
        proof {
            lemma_field_bounds(rest@);
        }
        let field: Field = match read_field(rest) {
            Ok(field) => field,
            Err(e) => {
                return Err(e);
            },
        };
        let content = slice_subrange(rest, field.start, field.end);
        if field.number == 1 {
            if field.wire_type != WireType::Varint {
                return Err(DecodeError::UnexpectedWireType);
            }
            response.exit_code = low_bits_i32(field.value);
        } else if field.number == 2 {
            if field.wire_type != WireType::LengthDelimited {
                return Err(DecodeError::UnexpectedWireType);
            }
            match read_text(content) {
                Ok(output) => {
                    response.output = output;
                },
                Err(e) => {
                    return Err(e);
                },
            }
        } else if field.number == 3 {
            if field.wire_type != WireType::Varint {
                return Err(DecodeError::UnexpectedWireType);
            }
            response.request_id = low_bits_i32(field.value);
        }
        rest = slice_subrange(rest, field.end, rest.len());
    }
    Ok(response)
}

/// A `WorkResponse` whose output is short enough for its length to be written.
pub open spec fn response_fits(response: WorkResponseView) -> bool {
    encode_utf8(response.output).len() <= u64::MAX
}

/// Reading a written number field of a response sets that number and goes
/// on with the rest.
proof fn lemma_merge_response_number(acc: WorkResponseView, number: u32, value: i32, rest: Seq<u8>)
    requires
        number == 1 || number == 3,
    ensures
        merge_response(acc, spec_int32_field(number, value) + rest) == merge_response(
            WorkResponseView {
                exit_code: if number == 1 {
                    value
                } else {
                    acc.exit_code
                },
                output: acc.output,
                request_id: if number == 3 {
                    value
                } else {
                    acc.request_id
                },
            },
            rest,
        ),
{
    lemma_read_int32_field(number, value, rest);
}

/// Reading a written `output` field sets the output and goes on with the rest.
proof fn lemma_merge_response_output(acc: WorkResponseView, output: Seq<char>, rest: Seq<u8>)
    requires
        encode_utf8(output).len() <= u64::MAX,
    ensures
        merge_response(acc, spec_bytes_field(2, encode_utf8(output)) + rest) == merge_response(
            WorkResponseView { exit_code: acc.exit_code, output, request_id: acc.request_id },
            rest,
        ),
{
    lemma_read_bytes_field(2, encode_utf8(output), rest);
    encode_utf8_valid_utf8(output);
    encode_utf8_decode_utf8(output);
}

/// Reading what was written for a `WorkResponse` gives the same `WorkResponse`.
pub proof fn lemma_response_round_trip(response: WorkResponseView)
    requires
        response_fits(response),
    ensures
        spec_decode_response(spec_encode_response(response)) == Ok::<
            WorkResponseView,
            DecodeError,
        >(response),
{
    let none = Seq::<u8>::empty();
    let code_part = spec_optional_int32(1, response.exit_code);
    let output_part = if response.output.len() == 0 {
        none
    } else {
        spec_bytes_field(2, encode_utf8(response.output))
    };
    let id_part = spec_optional_int32(3, response.request_id);
    let start = WorkResponseView::empty();
    let with_code = WorkResponseView {
        exit_code: response.exit_code,
        output: start.output,
        request_id: 0,
    };
    let with_output = WorkResponseView {
        exit_code: response.exit_code,
        output: response.output,
        request_id: 0,
    };
    assert(spec_encode_response(response) =~= code_part + (output_part + id_part));
    assert(merge_response(start, code_part + (output_part + id_part)) == merge_response(
        with_code,
        output_part + id_part,
    )) by {
        if response.exit_code != 0 {
            lemma_merge_response_number(start, 1, response.exit_code, output_part + id_part);
        } else {
            assert(code_part + (output_part + id_part) =~= output_part + id_part);
        }
    }
    assert(merge_response(with_code, output_part + id_part) == merge_response(
        with_output,
        id_part,
    )) by {
        if response.output.len() != 0 {
            lemma_merge_response_output(with_code, response.output, id_part);
        } else {
            assert(response.output =~= Seq::<char>::empty());
            assert(output_part + id_part =~= id_part);
        }
    }
    if response.request_id != 0 {
        lemma_merge_response_number(with_output, 3, response.request_id, none);
        assert(id_part + none =~= id_part);
    }
}

} // verus!
