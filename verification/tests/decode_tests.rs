use kaitai::compile;
use kaitai::decode::{Field, FieldValue, Record};
use kaitai::error::KaitaiError;

fn field<'a>(rec: &'a Record, id: &str) -> &'a FieldValue {
    for f in &rec.fields {
        if f.id == id {
            return &f.value;
        }
    }
    panic!("field {} not decoded", id);
}

#[test]
fn basic_big_endian() {
    let ty = compile(
        "
meta:
  id: basic
  endian: be
seq:
  - id: header
    type: u2
  - id: body
    type: s8
  - id: tail
    type: u4\0",
        "BasicBigEndian",
    )
    .unwrap();

    let bytes = vec![
        0x50, 0x4B, 0x03, 0x04, 0x14, 0x00, 0x02, 0x00, 0x00, 0x00, 0x02, 0x5D, 0x5E, 0x49,
    ];
    let file = ty.from_bytes(bytes).unwrap();
    assert_eq!(*field(&file, "header"), FieldValue::U16(0x50_4b));
    assert_eq!(*field(&file, "body"), FieldValue::I64(0x03_04_14_00_02_00_00_00));
    assert_eq!(*field(&file, "tail"), FieldValue::U32(0x02_5d_5e_49));
}

#[test]
fn basic_little_endian() {
    let ty = compile(
        "
meta:
  id: basic
  endian: le
seq:
  - id: header
    type: u2
  - id: body
    type: s8
  - id: tail
    type: u4\0",
        "BasicLittleEndian",
    )
    .unwrap();

    let bytes = vec![
        0x50, 0x4B, 0x03, 0x04, 0x14, 0x00, 0x02, 0x00, 0x00, 0x00, 0x02, 0x5D, 0x5E, 0x49,
    ];
    let file = ty.from_bytes(bytes).unwrap();
    assert_eq!(*field(&file, "header"), FieldValue::U16(0x4b_50));
    assert_eq!(*field(&file, "body"), FieldValue::I64(0x02_00_14_04_03));
    assert_eq!(*field(&file, "tail"), FieldValue::U32(0x49_5e_5d_02));
}

#[test]
fn main() {
    let ty = compile(
        "
meta:
  endian: be
seq:
  - id: protocol
    type: u2
    enum: ip_protocol
  - id: protocol2
    type: u2
    enum: ip_protocol
  - id: protocol3
    type: u2
    enum: ip_protocol
enums:
  ip_protocol:
    1: icmp
    6: tcp
    17: udp\0",
        "EnumsStruct",
    )
    .unwrap();

    let e = ty.from_bytes(vec![0, 1, 0, 6, 0, 17]).unwrap();
    assert_eq!(*field(&e, "protocol"), FieldValue::Enum("Icmp".to_owned()));
    assert_eq!(*field(&e, "protocol2"), FieldValue::Enum("Tcp".to_owned()));
    assert_eq!(*field(&e, "protocol3"), FieldValue::Enum("Udp".to_owned()));
}

#[test]
fn enum_without_match_aborts() {
    let ty = compile(
        "
meta:
  endian: be
seq:
  - id: protocol
    type: u2
    enum: ip_protocol
enums:
  ip_protocol:
    1: icmp
    6: tcp
    17: udp\0",
        "EnumsStruct",
    )
    .unwrap();

    let r = ty.from_bytes(vec![0, 2]);
    assert!(matches!(r, Err(KaitaiError::NoEnumMatch)));
}

#[test]
fn fixed_ok() {
    let ty = compile(
        "
meta:
  endian: be
seq:
  - contents: test string
  - contents: [171, 173, 186, 190]
  - id: variable
    type: u2\0",
        "Fixed",
    )
    .unwrap();

    let mut input: Vec<u8> = Vec::new();
    input.extend(b"test string");
    input.extend(&[0xab, 0xad, 0xba, 0xbe]);
    input.extend(&[0x12, 0x34]);

    let result = ty.from_bytes(input).unwrap();

    assert_eq!(*field(&result, "variable"), FieldValue::U16(0x1234));
}

#[test]
fn fixed_err() {
    let ty = compile(
        "
meta:
  endian: be
seq:
  - contents: test string
  - contents: [171, 173, 186, 190]
  - id: variable
    type: u2\0",
        "Fixed",
    )
    .unwrap();

    let mut input: Vec<u8> = Vec::new();
    input.extend(b"test_string");
    input.extend(&[0xab, 0xad, 0xba, 0xbe]);

    assert!(ty.from_bytes(input).is_err());

    let mut input: Vec<u8> = Vec::new();
    input.extend(b"test string");
    input.extend(&[0xbb, 0xad, 0xba, 0xbe]);

    assert!(ty.from_bytes(input).is_err());
}

#[test]
fn fixed_mismatch_carries_both_byte_runs() {
    let ty = compile(
        "
meta:
  endian: be
seq:
  - contents: [1, 2, 3]\0",
        "Fixed",
    )
    .unwrap();

    match ty.from_bytes(vec![1, 9, 3, 4]) {
        Err(KaitaiError::UnexpectedContents { actual, expected }) => {
            assert_eq!(actual, vec![1, 9, 3]);
            assert_eq!(expected, vec![1, 2, 3]);
        }
        other => panic!("expected a contents mismatch, got {:?}", other),
    }
}

#[test]
fn repeat_eos() {
    let ty = compile(
        "
meta:
  endian: le
seq:
  - id: pre_repeat
    type: u2
  - id: main
    type: temp
    repeat: eos
types:
  temp:
    seq:
      - id: header
        type: u2
      - id: body
        type: u4
      - id: tail
        type: u2\0",
        "Repeat",
    )
    .unwrap();

    let mut input = vec![0xde, 0xad];
    for i in 0..24 {
        input.push(i);
    }

    let result = ty.from_bytes(input).unwrap();

    assert_eq!(*field(&result, "pre_repeat"), FieldValue::U16(0xadde));
    match field(&result, "main") {
        FieldValue::List(items) => {
            assert_eq!(items.len(), 3);
            let expected = [
                (0x100u16, 0x5040302u32, 0x706u16),
                (0x908, 0xd0c0b0a, 0xf0e),
                (0x1110, 0x15141312, 0x1716),
            ];
            for (item, (h, b, t)) in items.iter().zip(expected.iter()) {
                match item {
                    FieldValue::Record(rec) => {
                        assert_eq!(*field(rec, "header"), FieldValue::U16(*h));
                        assert_eq!(*field(rec, "body"), FieldValue::U32(*b));
                        assert_eq!(*field(rec, "tail"), FieldValue::U16(*t));
                    }
                    other => panic!("expected a record, got {:?}", other),
                }
            }
        }
        other => panic!("expected a list, got {:?}", other),
    }
}

#[test]
fn repeat_eos_zero_repetitions() {
    let ty = compile(
        "
meta:
  endian: le
seq:
  - id: pre_repeat
    type: u2
  - id: main
    type: u4
    repeat: eos\0",
        "Repeat",
    )
    .unwrap();

    let result = ty.from_bytes(vec![0xde, 0xad]).unwrap();
    assert_eq!(*field(&result, "pre_repeat"), FieldValue::U16(0xadde));
    match field(&result, "main") {
        FieldValue::List(items) => assert_eq!(items.len(), 0),
        other => panic!("expected a list, got {:?}", other),
    }
}

#[test]
fn user_type() {
    let ty = compile(
        "
meta:
  endian: be
seq:
  - id: header
    type: header
  - id: body
    type: body
  - id: tail
    type: tail
types:
  header:
    seq:
      - id: seq_1
        type: u4
      - id: seq_2
        type: u8
  body:
    seq:
      - id: seq_1
        type: u8
      - id: seq_2
        type: u8
  tail:
    seq:
      - id: seq_1
        type: u4
      - id: seq_2
        type: u8\0",
        "UserTypeBigEndian",
    )
    .unwrap();

    let mut input: Vec<u8> = Vec::new();
    input.extend(&[0x89, 0x50, 0x4E, 0x47]);
    input.extend(&[0x0D, 0x0A, 0x1A, 0x0A, 0x00, 0x00, 0x00, 0x0D]);
    input.extend(&[0x49, 0x48, 0x44, 0x52, 0x00, 0x00, 0x01, 0x2C]);
    input.extend(&[0x00, 0x00, 0x00, 0x00, 0x00, 0x00, 0x00, 0x00]);
    input.extend(&[0x01, 0x2C, 0x08, 0x02]);
    input.extend(&[0x00, 0x00, 0x00, 0xF6, 0x1F, 0x19, 0x22, 0x00]);

    let file = ty.from_bytes(input).unwrap();

    let header = match field(&file, "header") {
        FieldValue::Record(rec) => rec,
        other => panic!("expected a record, got {:?}", other),
    };
    assert_eq!(*field(header, "seq_1"), FieldValue::U32(0x89504E47));
    assert_eq!(*field(header, "seq_2"), FieldValue::U64(0xd0a1a0a0000000d));

    let body = match field(&file, "body") {
        FieldValue::Record(rec) => rec,
        other => panic!("expected a record, got {:?}", other),
    };
    assert_eq!(*field(body, "seq_1"), FieldValue::U64(0x494844520000012c));
    assert_eq!(*field(body, "seq_2"), FieldValue::U64(0x0));

    let tail = match field(&file, "tail") {
        FieldValue::Record(rec) => rec,
        other => panic!("expected a record, got {:?}", other),
    };
    assert_eq!(*field(tail, "seq_1"), FieldValue::U32(0x12c0802));
    assert_eq!(*field(tail, "seq_2"), FieldValue::U64(0xf61f192200));
}

#[test]
fn sized_byte_reads() {
    let ty = compile(
        "
meta:
  endian: le
seq:
  - id: fixed_run
    size: 3
  - id: rest
    size-eos: true\0",
        "Sized",
    )
    .unwrap();

    let result = ty.from_bytes(vec![1, 2, 3, 4, 5]).unwrap();
    assert_eq!(*field(&result, "fixed_run"), FieldValue::Bytes(vec![1, 2, 3]));
    assert_eq!(*field(&result, "rest"), FieldValue::Bytes(vec![4, 5]));
}

#[test]
fn truncated_stream_aborts_decode() {
    let ty = compile(
        "
meta:
  endian: be
seq:
  - id: a
    type: u4\0",
        "Short",
    )
    .unwrap();

    assert!(matches!(ty.from_bytes(vec![1, 2]), Err(KaitaiError::Eof)));
}

#[test]
fn float_bit_patterns() {
    let ty = compile(
        "
meta:
  endian: le
seq:
  - id: x
    type: f4
  - id: y
    type: f8\0",
        "Floats",
    )
    .unwrap();

    let mut input: Vec<u8> = vec![0, 0, 128, 62];
    input.extend(&[0, 0, 0, 0, 0, 0, 208, 63]);
    let result = ty.from_bytes(input).unwrap();
    match field(&result, "x") {
        FieldValue::F32Bits(bits) => assert_eq!(f32::from_bits(*bits), 0.25),
        other => panic!("expected float bits, got {:?}", other),
    }
    match field(&result, "y") {
        FieldValue::F64Bits(bits) => assert_eq!(f64::from_bits(*bits), 0.25),
        other => panic!("expected float bits, got {:?}", other),
    }
}

#[test]
fn stored_fields_keep_declaration_order() {
    let ty = compile(
        "
meta:
  endian: be
seq:
  - id: first
    type: u1
  - contents: [9]
  - id: second
    type: u1\0",
        "Ordered",
    )
    .unwrap();

    let result = ty.from_bytes(vec![1, 9, 2]).unwrap();
    let ids: Vec<&str> = result.fields.iter().map(|f| f.id.as_str()).collect();
    assert_eq!(ids, vec!["first", "second"]);
    match result.fields.as_slice() {
        [Field { value: FieldValue::U8(1), .. }, Field { value: FieldValue::U8(2), .. }] => {}
        other => panic!("unexpected fields {:?}", other),
    }
}
