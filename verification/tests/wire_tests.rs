use rustc_worker::wire::{
    read_field, write_bytes_field, write_int32_field, DecodeError, Field, WireType,
    MAX_FIELD_NUMBER,
};

fn bytes_field(number: u32, content: &[u8]) -> Vec<u8> {
    let mut out = Vec::new();
    write_bytes_field(number, content, &mut out);
    out
}

fn int32_field(number: u32, value: i32) -> Vec<u8> {
    let mut out = Vec::new();
    write_int32_field(number, value, &mut out);
    out
}

#[test]
fn bytes_field_is_key_length_content() {
    assert_eq!(bytes_field(1, b"abc"), vec![0x0a, 3, b'a', b'b', b'c']);
    assert_eq!(bytes_field(2, b""), vec![0x12, 0]);
    assert_eq!(bytes_field(16, b"z"), vec![0x82, 0x01, 1, b'z']);
    let long = vec![7u8; 200];
    let field = bytes_field(3, &long);
    assert_eq!(&field[..3], &[0x1a, 0xc8, 0x01]);
    assert_eq!(&field[3..], &long[..]);
}

#[test]
fn int32_field_is_key_value() {
    assert_eq!(int32_field(3, 7), vec![0x18, 7]);
    assert_eq!(int32_field(3, 0), vec![0x18, 0]);
    assert_eq!(int32_field(1, 300), vec![0x08, 0xac, 0x02]);
    assert_eq!(
        int32_field(1, i32::MAX),
        vec![0x08, 0xff, 0xff, 0xff, 0xff, 0x07]
    );
}

#[test]
fn int32_field_extends_negative_numbers_to_64_bits() {
    assert_eq!(
        int32_field(3, -1),
        vec![0x18, 0xff, 0xff, 0xff, 0xff, 0xff, 0xff, 0xff, 0xff, 0xff, 0x01]
    );
    assert_eq!(
        int32_field(3, i32::MIN),
        vec![0x18, 0x80, 0x80, 0x80, 0x80, 0xf8, 0xff, 0xff, 0xff, 0xff, 0x01]
    );
}

#[test]
fn fields_append_to_what_is_there() {
    let mut out = vec![1, 2];
    write_int32_field(1, 5, &mut out);
    write_bytes_field(2, b"x", &mut out);
    assert_eq!(out, vec![1, 2, 0x08, 5, 0x12, 1, b'x']);
}

#[test]
fn fields_agree_with_prost() {
    for number in [1u32, 2, 3, 15, 16, 2047, 2048, MAX_FIELD_NUMBER] {
        for value in [0i32, 1, -1, 127, 128, i32::MAX, i32::MIN] {
            let mut expected: Vec<u8> = Vec::new();
            prost::encoding::int32::encode(number, &value, &mut expected);
            assert_eq!(int32_field(number, value), expected);
        }
        for content in [&b""[..], &b"a"[..], &[0u8; 300][..]] {
            let mut expected: Vec<u8> = Vec::new();
            prost::encoding::bytes::encode(number, &content.to_vec(), &mut expected);
            assert_eq!(bytes_field(number, content), expected);
        }
    }
}

#[test]
fn fields_agree_with_protobuf() {
    for number in [1u32, 2, 3, 15, 16, 2047, 2048, MAX_FIELD_NUMBER] {
        for value in [0i32, 1, -1, 127, 128, i32::MAX, i32::MIN] {
            let mut expected = Vec::new();
            {
                let mut stream = protobuf::CodedOutputStream::vec(&mut expected);
                stream.write_int32(number, value).unwrap();
                stream.flush().unwrap();
            }
            assert_eq!(int32_field(number, value), expected);
        }
        for content in [&b""[..], &b"a"[..], &[0u8; 300][..]] {
            let mut expected = Vec::new();
            {
                let mut stream = protobuf::CodedOutputStream::vec(&mut expected);
                stream.write_bytes(number, content).unwrap();
                stream.flush().unwrap();
            }
            assert_eq!(bytes_field(number, content), expected);
        }
    }
}

#[test]
fn read_field_finds_each_wire_type() {
    assert_eq!(
        read_field(&[0x18, 0xac, 0x02, 0xff]),
        Ok(Field { number: 3, wire_type: WireType::Varint, value: 300, start: 1, end: 3 })
    );
    assert_eq!(
        read_field(&[0x0a, 3, b'a', b'b', b'c', 0x18]),
        Ok(Field { number: 1, wire_type: WireType::LengthDelimited, value: 3, start: 2, end: 5 })
    );
    assert_eq!(
        read_field(&[0x21, 1, 2, 3, 4, 5, 6, 7, 8]),
        Ok(Field { number: 4, wire_type: WireType::Fixed64, value: 0, start: 1, end: 9 })
    );
    assert_eq!(
        read_field(&[0x25, 1, 2, 3, 4, 9, 9]),
        Ok(Field { number: 4, wire_type: WireType::Fixed32, value: 0, start: 1, end: 5 })
    );
    assert_eq!(
        read_field(&[0x12, 0]),
        Ok(Field { number: 2, wire_type: WireType::LengthDelimited, value: 0, start: 2, end: 2 })
    );
}

#[test]
fn read_field_reads_what_was_written() {
    for number in [1u32, 2, 3, 15, 16, 300, MAX_FIELD_NUMBER] {
        let mut bytes = bytes_field(number, b"content");
        let end = bytes.len();
        bytes.extend_from_slice(&[0xff, 0xff]);
        let field = read_field(&bytes).unwrap();
        assert_eq!(field.number, number);
        assert_eq!(field.wire_type, WireType::LengthDelimited);
        assert_eq!(field.value, 7);
        assert_eq!(field.end, end);
        assert_eq!(&bytes[field.start..field.end], b"content");
        for value in [0i32, 5, -5, i32::MAX, i32::MIN] {
            let mut bytes = int32_field(number, value);
            let end = bytes.len();
            bytes.push(0x0a);
            let field = read_field(&bytes).unwrap();
            assert_eq!(field.number, number);
            assert_eq!(field.wire_type, WireType::Varint);
            assert_eq!(field.value as u32 as i32, value);
            assert_eq!(field.end, end);
        }
    }
}

#[test]
fn read_field_takes_the_key_by_its_low_32_bits() {
    // 2^32 + 0x18
    assert_eq!(
        read_field(&[0x98, 0x80, 0x80, 0x80, 0x10, 0x05]),
        Ok(Field { number: 3, wire_type: WireType::Varint, value: 5, start: 5, end: 6 })
    );
    let bytes = [0x98, 0x80, 0x80, 0x80, 0x10, 0x05];
    let mut stream = protobuf::CodedInputStream::from_bytes(&bytes);
    let (number, _) = stream.read_tag_unpack().unwrap();
    assert_eq!(number, 3);
}

#[test]
fn read_field_errors() {
    assert_eq!(read_field(&[]), Err(DecodeError::Truncated));
    assert_eq!(read_field(&[0x80]), Err(DecodeError::Truncated));
    assert_eq!(read_field(&[0x18]), Err(DecodeError::Truncated));
    assert_eq!(read_field(&[0x0a, 2, 1]), Err(DecodeError::Truncated));
    assert_eq!(read_field(&[0x21, 1, 2, 3, 4, 5, 6, 7]), Err(DecodeError::Truncated));
    assert_eq!(read_field(&[0x25, 1, 2, 3]), Err(DecodeError::Truncated));
    assert_eq!(read_field(&[0xff; 10]), Err(DecodeError::MalformedVarint));
    assert_eq!(
        read_field(&[0x18, 0x80, 0x80, 0x80, 0x80, 0x80, 0x80, 0x80, 0x80, 0x80, 0x80]),
        Err(DecodeError::MalformedVarint)
    );
    assert_eq!(read_field(&[0x1b]), Err(DecodeError::InvalidWireType));
    assert_eq!(read_field(&[0x1c]), Err(DecodeError::InvalidWireType));
    assert_eq!(read_field(&[0x1e]), Err(DecodeError::InvalidWireType));
    assert_eq!(read_field(&[0x1f]), Err(DecodeError::InvalidWireType));
    assert_eq!(read_field(&[0x00, 0x00]), Err(DecodeError::InvalidFieldNumber));
    assert_eq!(read_field(&[0x05, 1, 2, 3, 4]), Err(DecodeError::InvalidFieldNumber));
    // the wire type is looked at before the field number
    assert_eq!(read_field(&[0x07]), Err(DecodeError::InvalidWireType));
}

#[test]
fn read_field_refuses_a_length_past_the_end() {
    assert_eq!(
        read_field(&[0x0a, 0xff, 0xff, 0xff, 0xff, 0xff, 0xff, 0xff, 0xff, 0xff, 0x01, 1, 2]),
        Err(DecodeError::Truncated)
    );
    assert_eq!(read_field(&[0x0a, 0x80, 0x80, 0x80, 0x80, 0x10]), Err(DecodeError::Truncated));
}
