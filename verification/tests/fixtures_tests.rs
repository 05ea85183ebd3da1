use mini_cluster_worker::fixtures::{
    craft_file_message, craft_op_message, craft_workload_buffer, craft_workload_message,
};
use mini_cluster_worker::protocol::{FrameReader, Step};

/// Asserts that the default workload buffer created by our test fixture has correct bytes.
#[test]
fn test_workload_buffer_default_size() {
    let buffer = craft_workload_buffer(None);
    assert_eq!(buffer[0], 1);
    assert_eq!(buffer[1], 0);
    assert_eq!(buffer[2], 43);
    assert_eq!(buffer.len(), 46);
}

/// Asserts that a non-default workload buffer created by our test fixture has correct bytes.
#[test]
fn test_workload_buffer_nondefault_size() {
    let file = craft_file_message(Some(42), Some(String::from("s3://hello/world")));
    let op = craft_op_message(
        Some(vec![file]),
        Some(String::from(
            "This is just a really long string, not even valid SQL, that I'm creating here \n                     to push the size of the buffer overall over 256 bytes, so that the second \n                     byte of the size bytes in the buffer metadata actually gets used.",
        )),
        Some(1),
    );
    let workload = craft_workload_message(Some(vec![op]));
    let buffer = craft_workload_buffer(Some(workload));
    assert_eq!(buffer[0], 1);
    assert_eq!(buffer[1], 1);
    assert_eq!(buffer[2], 35);
}

#[test]
fn default_fixtures_have_the_documented_values() {
    let file = craft_file_message(None, None);
    assert_eq!(file.get_id(), 1);
    assert_eq!(file.get_path(), "s3://foo/bar");
    let op = craft_op_message(None, None, None);
    assert_eq!(op.get_statement(), "SELECT * FROM table");
    assert_eq!(op.get_op_sequence_num(), 1);
    assert_eq!(op.get_targets(), &vec![craft_file_message(None, None)]);
    let workload = craft_workload_message(None);
    assert_eq!(workload.get_ops(), &vec![craft_op_message(None, None, None)]);
}

#[test]
fn given_values_override_the_defaults() {
    let file = craft_file_message(Some(-5), Some("s3://x/y".to_owned()));
    assert_eq!(file.get_id(), -5);
    assert_eq!(file.get_path(), "s3://x/y");
    let op = craft_op_message(Some(vec![]), Some("DROP TABLE t".to_owned()), Some(7));
    assert!(op.get_targets().is_empty());
    assert_eq!(op.get_statement(), "DROP TABLE t");
    assert_eq!(op.get_op_sequence_num(), 7);
    let workload = craft_workload_message(Some(vec![]));
    assert!(workload.get_ops().is_empty());
}

#[test]
fn default_buffer_has_the_exact_bytes() {
    let mut expected: Vec<u8> = vec![1, 0, 43];
    // One operation, 41 bytes.
    expected.extend_from_slice(&[0x0a, 41]);
    // Its statement.
    expected.extend_from_slice(&[0x0a, 19]);
    expected.extend_from_slice(b"SELECT * FROM table");
    // Its sequence number.
    expected.extend_from_slice(&[0x10, 1]);
    // Its one target, 16 bytes: identifier and address.
    expected.extend_from_slice(&[0x1a, 16, 0x08, 1, 0x12, 12]);
    expected.extend_from_slice(b"s3://foo/bar");
    assert_eq!(craft_workload_buffer(None), expected);
}

#[test]
fn buffer_of_the_empty_workload_is_a_bare_header() {
    let buffer = craft_workload_buffer(Some(craft_workload_message(Some(vec![]))));
    assert_eq!(buffer, vec![1, 0, 0]);
}

#[test]
fn length_bytes_hold_the_low_sixteen_bits_of_the_length() {
    let statement = "x".repeat(70000);
    let op = craft_op_message(Some(vec![]), Some(statement), Some(0));
    let workload = craft_workload_message(Some(vec![op]));
    let buffer = craft_workload_buffer(Some(workload));
    let payload = buffer.len() - 3;
    assert_eq!(payload, 70000 + 4 + 4);
    assert_eq!(buffer[1] as usize, (payload / 256) % 256);
    assert_eq!(buffer[2] as usize, payload % 256);
}

#[test]
fn a_crafted_buffer_is_read_back_as_its_workload() {
    let file = craft_file_message(Some(42), Some(String::from("s3://hello/world")));
    let op1 = craft_op_message(Some(vec![file]), Some("INSERT INTO t VALUES (1)".to_owned()), Some(1));
    let op2 = craft_op_message(None, Some("SELECT * FROM t".to_owned()), Some(2));
    let buffer = craft_workload_buffer(Some(craft_workload_message(Some(vec![op1, op2]))));

    let file = craft_file_message(Some(42), Some(String::from("s3://hello/world")));
    let op1 = craft_op_message(Some(vec![file]), Some("INSERT INTO t VALUES (1)".to_owned()), Some(1));
    let op2 = craft_op_message(None, Some("SELECT * FROM t".to_owned()), Some(2));
    let expected = craft_workload_message(Some(vec![op1, op2]));

    let mut reader = FrameReader::new();
    assert_eq!(reader.feed(&buffer), Step::Work(expected));
}
