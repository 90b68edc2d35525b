//! The wire form of one field of a message: a varint key that packs the
//! field number with a wire type, then a value in the shape that the wire
//! type names.

use crate::varint::{
    decode_varint, encode_varint, encoding, lemma_decode_bounds, lemma_decode_encoding,
    lemma_encoding_len_u64, spec_decode, Varint,
};
use vstd::prelude::*;
use vstd::slice::slice_subrange;

verus! {

/// Why bytes are not a message.
#[derive(Clone, Copy, Debug, PartialEq, Eq, Structural)]
pub enum DecodeError {
    /// The bytes end inside a key, a length or a value.
    Truncated,
    /// A varint runs on past its tenth byte.
    MalformedVarint,
    /// A key names a wire type that no field of these messages can have;
    /// groups are among them.
    InvalidWireType,
    /// A key names the field number 0.
    InvalidFieldNumber,
    /// A field of the message comes in the wire type of another kind of value.
    UnexpectedWireType,
    /// A text field does not hold UTF-8.
    InvalidUtf8,
}

/// The shapes that a value on the wire can have.
#[derive(Clone, Copy, Debug, PartialEq, Eq, Structural)]
pub enum WireType {
    /// A varint: code 0.
    Varint,
    /// Eight bytes: code 1.
    Fixed64,
    /// A varint length and that many bytes: code 2.
    LengthDelimited,
    /// Four bytes: code 5.
    Fixed32,
}

/// One field at the front of some bytes.
#[derive(Clone, Copy, Debug, PartialEq, Eq, Structural)]
pub struct Field {
    pub number: u32,
    pub wire_type: WireType,
    /// The varint of a `Varint` field, the length of a `LengthDelimited`
    /// one, else 0.
    pub value: u64,
    /// Where the content begins: behind the key, and behind the length of a
    /// `LengthDelimited` field.
    pub start: usize,
    /// Where the next field begins.
    pub end: usize,
}

/// A `Field` with unbounded offsets.
pub struct FieldView {
    pub number: u32,
    pub wire_type: WireType,
    pub value: u64,
    pub start: nat,
    pub end: nat,
}

impl View for Field {
    type V = FieldView;

    open spec fn view(&self) -> FieldView {
        FieldView {
            number: self.number,
            wire_type: self.wire_type,
            value: self.value,
            start: self.start as nat,
            end: self.end as nat,
        }
    }
}

/// The largest field number that a key can carry.
pub const MAX_FIELD_NUMBER: u32 = 0x1fff_ffff;

/// The key of a field: its number above the three bits of the wire type's code.
pub open spec fn spec_key(number: u32, code: nat) -> nat {
    number as nat * 8 + code
}

/// A 32-bit signed number as the varint that carries it: negative numbers
/// are extended to 64 bits.
pub open spec fn sign_extended(value: i32) -> nat {
    if value >= 0 {
        value as nat
    } else {
        (value + 0x1_0000_0000_0000_0000) as nat
    }
}

/// The 32-bit signed number in the low 32 bits of a varint.
pub open spec fn low_i32(value: u64) -> i32 {
    let low = value % 0x1_0000_0000;
    if low < 0x8000_0000 {
        low as i32
    } else {
        (low - 0x1_0000_0000) as i32
    }
}

/// A length-delimited field: key, length, content.
pub open spec fn spec_bytes_field(number: u32, content: Seq<u8>) -> Seq<u8> {
    encoding(spec_key(number, 2)) + encoding(content.len()) + content
}

/// A 32-bit signed number as a varint field: key, value.
pub open spec fn spec_int32_field(number: u32, value: i32) -> Seq<u8> {
    encoding(spec_key(number, 0)) + encoding(sign_extended(value))
}

/// Reads the field at the front of `bytes`.
///
/// The key is taken by its low 32 bits. The codes 3 and 4 (groups), 6 and 7
/// are refused, then the field number 0; a length that reaches past the end
/// of `bytes` is a truncation.
pub open spec fn spec_read_field(bytes: Seq<u8>) -> Result<FieldView, DecodeError> {
    match spec_decode(bytes) {
        Varint::Incomplete => Err(DecodeError::Truncated),
        Varint::Malformed => Err(DecodeError::MalformedVarint),
        Varint::Complete { value, consumed } => {
            let key = value % 0x1_0000_0000;
            let code = key % 8;
            let number = (key / 8) as u32;
            let body = bytes.skip(consumed as int);
            if code == 3 || code == 4 || code > 5 {
                Err(DecodeError::InvalidWireType)
            } else if number == 0 {
                Err(DecodeError::InvalidFieldNumber)
            } else if code == 1 {
                if body.len() < 8 {
                    Err(DecodeError::Truncated)
                } else {
                    Ok(
                        FieldView {
                            number,
                            wire_type: WireType::Fixed64,
                            value: 0,
                            start: consumed as nat,
                            end: (consumed + 8) as nat,
                        },
                    )
                }
            } else if code == 5 {
                if body.len() < 4 {
                    Err(DecodeError::Truncated)
                } else {
                    Ok(
                        FieldView {
                            number,
                            wire_type: WireType::Fixed32,
                            value: 0,
                            start: consumed as nat,
                            end: (consumed + 4) as nat,
                        },
                    )
                }
            } else {
                match spec_decode(body) {
                    Varint::Incomplete => Err(DecodeError::Truncated),
                    Varint::Malformed => Err(DecodeError::MalformedVarint),
                    Varint::Complete { value: inner, consumed: width } => if code == 0 {
                        Ok(
                            FieldView {
                                number,
                                wire_type: WireType::Varint,
                                value: inner,
                                start: consumed as nat,
                                end: (consumed + width) as nat,
                            },
                        )
                    } else if inner > body.len() - width {
                        Err(DecodeError::Truncated)
                    } else {
                        Ok(
                            FieldView {
                                number,
                                wire_type: WireType::LengthDelimited,
                                value: inner,
                                start: (consumed + width) as nat,
                                end: (consumed + width + inner) as nat,
                            },
                        )
                    },
                }
            }
        },
    }
}

/// Reads the field at the front of `bytes`.
pub fn read_field(bytes: &[u8]) -> (r: Result<Field, DecodeError>)
    ensures
        match spec_read_field(bytes@) {
            Ok(f) => r matches Ok(g) && g@ == f,
            Err(e) => r == Err::<Field, DecodeError>(e),
        },
{
    proof {
        lemma_decode_bounds(bytes@);
    }
    match decode_varint(bytes) {
        Varint::Incomplete => Err(DecodeError::Truncated),
        Varint::Malformed => Err(DecodeError::MalformedVarint),
        Varint::Complete { value, consumed } => {
            let key: u64 = value % 0x1_0000_0000;
            let code: u64 = key % 8;
            let number: u32 = (key / 8) as u32;
            let body = slice_subrange(bytes, consumed, bytes.len());
            proof {
                lemma_decode_bounds(body@);
            }
            if code == 3 || code == 4 || code > 5 {
                Err(DecodeError::InvalidWireType)
            } else if number == 0 {
                Err(DecodeError::InvalidFieldNumber)
            } else if code == 1 {
                if body.len() < 8 {
                    Err(DecodeError::Truncated)
                } else {
                    Ok(
                        Field {
                            number,
                            wire_type: WireType::Fixed64,
                            value: 0,
                            start: consumed,
                            end: consumed + 8,
                        },
                    )
                }
            } else if code == 5 {
                if body.len() < 4 {
                    Err(DecodeError::Truncated)
                } else {
                    Ok(
                        Field {
                            number,
                            wire_type: WireType::Fixed32,
                            value: 0,
                            start: consumed,
                            end: consumed + 4,
                        },
                    )
                }
            } else {
                match decode_varint(body) {
                    Varint::Incomplete => Err(DecodeError::Truncated),
                    Varint::Malformed => Err(DecodeError::MalformedVarint),
                    Varint::Complete { value: inner, consumed: width } => {
                        if code == 0 {
                            Ok(
                                Field {
                                    number,
                                    wire_type: WireType::Varint,
                                    value: inner,
                                    start: consumed,
                                    end: consumed + width,
                                },
                            )
                        } else if inner > (body.len() - width) as u64 {
                            Err(DecodeError::Truncated)
                        } else {
                            Ok(
                                Field {
                                    number,
                                    wire_type: WireType::LengthDelimited,
                                    value: inner,
                                    start: consumed + width,
                                    end: consumed + width + inner as usize,
                                },
                            )
                        }
                    },
                }
            }
        },
    }
}

/// A field that was read lies within the bytes, and takes at least one of them.
pub proof fn lemma_field_bounds(bytes: Seq<u8>)
    ensures
        spec_read_field(bytes) matches Ok(f) ==> 1 <= f.start <= f.end <= bytes.len() && 1
            <= f.number <= MAX_FIELD_NUMBER && (f.wire_type == WireType::LengthDelimited
            ==> f.end - f.start == f.value),
{
    lemma_decode_bounds(bytes);
    if let Varint::Complete { value, consumed } = spec_decode(bytes) {
        lemma_decode_bounds(bytes.skip(consumed as int));
    }
}

/// Appends a length-delimited field to `out`. A reader finds the field
/// under its number where the number lies between 1 and `MAX_FIELD_NUMBER`.
pub fn write_bytes_field(number: u32, content: &[u8], out: &mut Vec<u8>)
    ensures
        final(out)@ == old(out)@ + spec_bytes_field(number, content@),
{
    encode_varint(number as u64 * 8 + 2, out);
    encode_varint(content.len() as u64, out);
    let ghost head = out@;
    let mut i: usize = 0;
    while i < content.len()
        invariant
            i <= content.len(),
            out@ == head + content@.subrange(0, i as int),
        decreases content.len() - i,
    {
        let ghost before = out@;
        out.push(content[i]);
        i += 1;
        assert(before.push(content@[i - 1]) =~= head + content@.subrange(0, i as int));
    }
    assert(content@.subrange(0, i as int) =~= content@);
    assert(out@ =~= old(out)@ + spec_bytes_field(number, content@));
}

/// Appends a 32-bit signed number to `out` as a varint field. A reader
/// finds the field under its number where the number lies between 1 and
/// `MAX_FIELD_NUMBER`.
pub fn write_int32_field(number: u32, value: i32, out: &mut Vec<u8>)
    ensures
        final(out)@ == old(out)@ + spec_int32_field(number, value),
{
    encode_varint(number as u64 * 8, out);
    let wide: u64 = if value >= 0 {
        value as u64
    } else {
        0xffff_ffff_ffff_ffff - ((-(value as i64)) as u64) + 1
    };
    encode_varint(wide, out);
    assert(out@ =~= old(out)@ + spec_int32_field(number, value));
}

/// A length-delimited field that was written is read back: its number, its
/// content and where it ends, whatever follows.
pub proof fn lemma_read_bytes_field(number: u32, content: Seq<u8>, rest: Seq<u8>)
    requires
        1 <= number <= MAX_FIELD_NUMBER,
        content.len() <= u64::MAX,
    ensures
        spec_read_field(spec_bytes_field(number, content) + rest) matches Ok(f) && f.number
            == number && f.wire_type == WireType::LengthDelimited && f.end == spec_bytes_field(
            number,
            content,
        ).len() && (spec_bytes_field(number, content) + rest).subrange(
            f.start as int,
            f.end as int,
        ) == content && (spec_bytes_field(number, content) + rest).skip(f.end as int) == rest,
{
    let key = spec_key(number, 2);
    let head = encoding(key);
    let len = encoding(content.len());
    let all = spec_bytes_field(number, content) + rest;
    assert(all =~= head + (len + content + rest));
    lemma_decode_encoding(key as u64, len + content + rest);
    lemma_encoding_len_u64(key as u64);
    let body = all.skip(head.len() as int);
    assert(body =~= len + (content + rest));
    lemma_decode_encoding(content.len() as u64, content + rest);
    lemma_encoding_len_u64(content.len() as u64);
    let start = head.len() + len.len();
    assert(all.subrange(start as int, (start + content.len()) as int) =~= content);
    assert(all.skip((head.len() + len.len() + content.len()) as int) =~= rest);
}

/// A number that was written as a varint field is read back, whatever follows.
pub proof fn lemma_read_int32_field(number: u32, value: i32, rest: Seq<u8>)
    requires
        1 <= number <= MAX_FIELD_NUMBER,
    ensures
        spec_read_field(spec_int32_field(number, value) + rest) matches Ok(f) && f.number
            == number && f.wire_type == WireType::Varint && f.end == spec_int32_field(
            number,
            value,
        ).len() && low_i32(f.value) == value && (spec_int32_field(number, value) + rest).skip(
            f.end as int,
        ) == rest,
{
    let key = spec_key(number, 0);
    let head = encoding(key);
    let wide = sign_extended(value);
    let all = spec_int32_field(number, value) + rest;
    assert(all =~= head + (encoding(wide) + rest));
    lemma_decode_encoding(key as u64, encoding(wide) + rest);
    lemma_encoding_len_u64(key as u64);
    let body = all.skip(head.len() as int);
    assert(body =~= encoding(wide) + rest);
    lemma_decode_encoding(wide as u64, rest);
    lemma_encoding_len_u64(wide as u64);
    assert(all.skip((head.len() + encoding(wide).len()) as int) =~= rest);
}

} // verus!
