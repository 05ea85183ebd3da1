use mini_cluster_worker::fixtures::{craft_file_message, craft_op_message, craft_workload_message};
use mini_cluster_worker::workload::{File, Op, Workload};

/// What the `protobuf` crate writes for a file with these fields.
fn reference_file(id: i32, path: &str) -> Vec<u8> {
    let mut bytes: Vec<u8> = Vec::new();
    {
        let mut stream = protobuf::CodedOutputStream::vec(&mut bytes);
        if id != 0 {
            stream.write_int32(1, id).unwrap();
        }
        if !path.is_empty() {
            stream.write_string(2, path).unwrap();
        }
        stream.flush().unwrap();
    }
    bytes
}

/// What the `protobuf` crate writes for an operation with these fields.
fn reference_op(statement: &str, number: i32, targets: &[(i32, &str)]) -> Vec<u8> {
    let mut bytes: Vec<u8> = Vec::new();
    {
        let mut stream = protobuf::CodedOutputStream::vec(&mut bytes);
        if !statement.is_empty() {
            stream.write_string(1, statement).unwrap();
        }
        if number != 0 {
            stream.write_int32(2, number).unwrap();
        }
        for (id, path) in targets {
            stream.write_bytes(3, &reference_file(*id, path)).unwrap();
        }
        stream.flush().unwrap();
    }
    bytes
}

#[test]
fn file_encoding_has_the_exact_bytes() {
    let file = craft_file_message(Some(1), Some("s3://foo/bar".to_owned()));
    let mut expected: Vec<u8> = vec![0x08, 0x01, 0x12, 0x0c];
    expected.extend_from_slice(b"s3://foo/bar");
    assert_eq!(file.write_to_bytes(), expected);
}

#[test]
fn zero_and_empty_fields_are_not_written() {
    assert_eq!(File::new().write_to_bytes(), Vec::<u8>::new());
    assert_eq!(Op::new().write_to_bytes(), Vec::<u8>::new());
    assert_eq!(Workload::new().write_to_bytes(), Vec::<u8>::new());
    let file = craft_file_message(Some(0), Some("a".to_owned()));
    assert_eq!(file.write_to_bytes(), vec![0x12, 0x01, b'a']);
    let file = craft_file_message(Some(5), Some(String::new()));
    assert_eq!(file.write_to_bytes(), vec![0x08, 0x05]);
}

#[test]
fn numbers_take_as_many_bytes_as_their_seven_bit_groups() {
    let file = craft_file_message(Some(127), Some(String::new()));
    assert_eq!(file.write_to_bytes(), vec![0x08, 0x7f]);
    let file = craft_file_message(Some(128), Some(String::new()));
    assert_eq!(file.write_to_bytes(), vec![0x08, 0x80, 0x01]);
    let file = craft_file_message(Some(300), Some(String::new()));
    assert_eq!(file.write_to_bytes(), vec![0x08, 0xac, 0x02]);
    let file = craft_file_message(Some(i32::MAX), Some(String::new()));
    assert_eq!(file.write_to_bytes(), vec![0x08, 0xff, 0xff, 0xff, 0xff, 0x07]);
}

#[test]
fn negative_numbers_are_sign_extended_to_ten_bytes() {
    let file = craft_file_message(Some(-1), Some(String::new()));
    assert_eq!(
        file.write_to_bytes(),
        vec![0x08, 0xff, 0xff, 0xff, 0xff, 0xff, 0xff, 0xff, 0xff, 0xff, 0x01]
    );
    let file = craft_file_message(Some(i32::MIN), Some(String::new()));
    assert_eq!(
        file.write_to_bytes(),
        vec![0x08, 0x80, 0x80, 0x80, 0x80, 0xf8, 0xff, 0xff, 0xff, 0xff, 0x01]
    );
}

#[test]
fn encoding_agrees_with_the_protobuf_crate() {
    for (id, path) in [
        (1, "s3://foo/bar"),
        (0, ""),
        (-1, "x"),
        (i32::MIN, "s3://b/\u{00e9}\u{4e2d}\u{1f600}"),
        (i32::MAX, "s3://bucket/key/with/slashes"),
        (16384, "a"),
    ] {
        let file = craft_file_message(Some(id), Some(path.to_owned()));
        assert_eq!(file.write_to_bytes(), reference_file(id, path));
    }
    let long = "s".repeat(300);
    let op = craft_op_message(
        Some(vec![
            craft_file_message(Some(7), Some("s3://a/b".to_owned())),
            craft_file_message(Some(-7), Some(long.clone())),
        ]),
        Some("SELECT 1 + 1".to_owned()),
        Some(-3),
    );
    assert_eq!(
        op.write_to_bytes(),
        reference_op("SELECT 1 + 1", -3, &[(7, "s3://a/b"), (-7, &long)])
    );
}

#[test]
fn decoding_gives_back_what_was_encoded() {
    for id in [0, 1, -1, 127, 128, 16383, 16384, i32::MAX, i32::MIN, -123456] {
        for path in ["", "s3://foo/bar", "\u{00e9}\u{4e2d}\u{1f600}"] {
            let file = craft_file_message(Some(id), Some(path.to_owned()));
            let decoded = File::parse_from_bytes(&file.write_to_bytes());
            assert_eq!(decoded, Some(file));
        }
    }
    let op = craft_op_message(
        Some(vec![
            craft_file_message(Some(7), Some("s3://a/b".to_owned())),
            craft_file_message(Some(-7), Some("s".repeat(300))),
            craft_file_message(Some(0), Some(String::new())),
        ]),
        Some("SELECT 1 + 1".to_owned()),
        Some(-3),
    );
    let decoded = Op::parse_from_bytes(&op.write_to_bytes());
    assert_eq!(decoded, Some(op));
    let workload = craft_workload_message(Some(vec![
        craft_op_message(None, None, None),
        craft_op_message(Some(vec![]), Some(String::new()), Some(0)),
        craft_op_message(None, Some("x".repeat(20000)), Some(2)),
    ]));
    let decoded = Workload::parse_from_bytes(&workload.write_to_bytes());
    assert_eq!(decoded, Some(workload));
}

#[test]
fn decoding_agrees_with_what_the_protobuf_crate_writes() {
    let bytes = reference_op("SELECT * FROM t", 4, &[(1, "s3://a/b"), (2, "s3://c/d")]);
    let expected = craft_op_message(
        Some(vec![
            craft_file_message(Some(1), Some("s3://a/b".to_owned())),
            craft_file_message(Some(2), Some("s3://c/d".to_owned())),
        ]),
        Some("SELECT * FROM t".to_owned()),
        Some(4),
    );
    assert_eq!(Op::parse_from_bytes(&bytes), Some(expected));
}

#[test]
fn empty_bytes_decode_to_the_empty_message() {
    assert_eq!(File::parse_from_bytes(&[]), Some(File::new()));
    assert_eq!(Op::parse_from_bytes(&[]), Some(Op::new()));
    assert_eq!(Workload::parse_from_bytes(&[]), Some(Workload::new()));
}

#[test]
fn unknown_fields_are_skipped() {
    // Field 9 as a number, field 10 as eight bytes, field 11 as bytes,
    // field 12 as four bytes, around a known identifier.
    let mut bytes: Vec<u8> = vec![0x48, 0x96, 0x01];
    bytes.extend_from_slice(&[0x51, 1, 2, 3, 4, 5, 6, 7, 8]);
    bytes.extend_from_slice(&[0x08, 0x2a]);
    bytes.extend_from_slice(&[0x5a, 0x03, 0xff, 0xfe, 0xfd]);
    bytes.extend_from_slice(&[0x65, 1, 2, 3, 4]);
    let expected = craft_file_message(Some(42), Some(String::new()));
    assert_eq!(File::parse_from_bytes(&bytes), Some(expected));
}

#[test]
fn the_last_value_of_a_repeated_field_wins() {
    let bytes: Vec<u8> = vec![0x08, 0x01, 0x12, 0x01, b'a', 0x08, 0x02, 0x12, 0x01, b'b'];
    let expected = craft_file_message(Some(2), Some("b".to_owned()));
    assert_eq!(File::parse_from_bytes(&bytes), Some(expected));
}

#[test]
fn only_the_low_thirty_two_bits_of_a_number_count() {
    // 2^32 + 5 reads as 5.
    let bytes: Vec<u8> = vec![0x08, 0x85, 0x80, 0x80, 0x80, 0x10];
    let expected = craft_file_message(Some(5), Some(String::new()));
    assert_eq!(File::parse_from_bytes(&bytes), Some(expected));
}

#[test]
fn malformed_bytes_are_rejected() {
    // A key without a value.
    assert_eq!(File::parse_from_bytes(&[0x08]), None);
    // A number that never ends.
    assert_eq!(File::parse_from_bytes(&[0x08, 0x80]), None);
    // A number of eleven bytes.
    assert_eq!(File::parse_from_bytes(&[0x08, 0x80, 0x80, 0x80, 0x80, 0x80, 0x80, 0x80, 0x80, 0x80, 0x80, 0x01]), None);
    // A text shorter than its length.
    assert_eq!(File::parse_from_bytes(&[0x12, 0x05, b'a']), None);
    // A text that is not UTF-8.
    assert_eq!(File::parse_from_bytes(&[0x12, 0x02, 0xc3, 0x28]), None);
    // Field number zero.
    assert_eq!(File::parse_from_bytes(&[0x00, 0x01]), None);
    // Wire types 3, 4, 6 and 7.
    assert_eq!(File::parse_from_bytes(&[0x4b]), None);
    assert_eq!(File::parse_from_bytes(&[0x4c]), None);
    assert_eq!(File::parse_from_bytes(&[0x4e, 0x00]), None);
    assert_eq!(File::parse_from_bytes(&[0x4f, 0x00]), None);
    // Eight bytes and four bytes cut short.
    assert_eq!(File::parse_from_bytes(&[0x51, 1, 2, 3]), None);
    assert_eq!(File::parse_from_bytes(&[0x65, 1, 2, 3]), None);
}

#[test]
fn a_known_field_of_the_wrong_shape_is_rejected() {
    // The identifier as bytes, the address as a number.
    assert_eq!(File::parse_from_bytes(&[0x0a, 0x01, b'a']), None);
    assert_eq!(File::parse_from_bytes(&[0x10, 0x01]), None);
    // The statement as a number, the sequence number as bytes, a target as
    // a number.
    assert_eq!(Op::parse_from_bytes(&[0x08, 0x01]), None);
    assert_eq!(Op::parse_from_bytes(&[0x12, 0x01, b'a']), None);
    assert_eq!(Op::parse_from_bytes(&[0x18, 0x01]), None);
    // An operation as a number.
    assert_eq!(Workload::parse_from_bytes(&[0x08, 0x01]), None);
}

#[test]
fn a_malformed_nested_message_fails_the_whole() {
    // A target whose address is not UTF-8.
    assert_eq!(Op::parse_from_bytes(&[0x1a, 0x04, 0x12, 0x02, 0xc3, 0x28]), None);
    // An operation that holds such a target.
    assert_eq!(
        Workload::parse_from_bytes(&[0x0a, 0x06, 0x1a, 0x04, 0x12, 0x02, 0xc3, 0x28]),
        None
    );
}

#[test]
fn data_model_setters_change_one_field() {
    let mut file = File::new();
    file.set_id(3);
    file.set_path("s3://a/b".to_owned());
    assert_eq!(file, craft_file_message(Some(3), Some("s3://a/b".to_owned())));
    assert_eq!(file.duplicate(), file);
    let mut op = Op::new();
    op.set_statement("SELECT 1".to_owned());
    op.set_op_sequence_num(9);
    op.set_targets(vec![file.duplicate()]);
    assert_eq!(op.get_statement(), "SELECT 1");
    assert_eq!(op.get_op_sequence_num(), 9);
    assert_eq!(op.get_targets(), &vec![file]);
    let mut workload = Workload::new();
    assert!(workload.get_ops().is_empty());
    workload.set_ops(vec![op]);
    assert_eq!(workload.get_ops().len(), 1);
}

#[test]
fn list_order_is_checked_against_sequence_order() {
    let ops = |numbers: &[i32]| -> Workload {
        craft_workload_message(Some(
            numbers.iter().map(|n| craft_op_message(None, None, Some(*n))).collect(),
        ))
    };
    assert!(ops(&[]).is_sequenced());
    assert!(ops(&[5]).is_sequenced());
    assert!(ops(&[1, 2, 3]).is_sequenced());
    assert!(ops(&[1, 1, 2]).is_sequenced());
    assert!(!ops(&[2, 1]).is_sequenced());
    assert!(!ops(&[1, 3, 2, 4]).is_sequenced());
}

#[test]
fn only_the_low_thirty_two_bits_of_a_key_count() {
    // The key 2^32 + 8 reads as field 1 with a number for a value.
    let bytes: Vec<u8> = vec![0x88, 0x80, 0x80, 0x80, 0x10, 0x05];
    let mut stream = protobuf::CodedInputStream::from_bytes(&bytes);
    let (number, _) = stream.read_tag_unpack().unwrap();
    assert_eq!(number, 1);
    assert_eq!(stream.read_int32().unwrap(), 5);
    let expected = craft_file_message(Some(5), Some(String::new()));
    assert_eq!(File::parse_from_bytes(&bytes), Some(expected));
    // The key 2^32 alone has field number zero and is rejected by both.
    let bytes: Vec<u8> = vec![0x80, 0x80, 0x80, 0x80, 0x10, 0x05];
    assert!(protobuf::CodedInputStream::from_bytes(&bytes).read_tag_unpack().is_err());
    assert_eq!(File::parse_from_bytes(&bytes), None);
}
