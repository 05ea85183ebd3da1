use mini_cluster_worker::err::{ErrKind, WorkerError};
use mini_cluster_worker::scheduler::SchedulerError;
use mini_cluster_worker::text::{chars_of, decimal_string, find_char, join_strings};

#[test]
fn each_kind_builds_its_own_variant() {
    assert_eq!(
        WorkerError::new(ErrKind::NetworkError, "m"),
        WorkerError::NetworkError("m".to_owned())
    );
    assert_eq!(WorkerError::new(ErrKind::AWSError, "m"), WorkerError::AWSError("m".to_owned()));
    assert_eq!(
        WorkerError::new(ErrKind::DatabaseError, "m"),
        WorkerError::DatabaseError("m".to_owned())
    );
    assert_eq!(
        WorkerError::new(ErrKind::SchemaError, "m"),
        WorkerError::SchemaError("m".to_owned())
    );
    assert_eq!(
        WorkerError::new(ErrKind::ProtocolError, "m"),
        WorkerError::ProtocolError("m".to_owned())
    );
}

#[test]
fn kind_and_message_are_read_back() {
    for kind in [
        ErrKind::NetworkError,
        ErrKind::AWSError,
        ErrKind::DatabaseError,
        ErrKind::SchemaError,
        ErrKind::ProtocolError,
    ] {
        let error = WorkerError::new(kind, "Error: path is not an S3 path.");
        assert_eq!(error.kind(), kind);
        assert_eq!(error.message(), "Error: path is not an S3 path.");
    }
}

#[test]
fn log_lines_name_the_kind() {
    assert_eq!(
        WorkerError::new(ErrKind::NetworkError, "refused").to_string(),
        "NetworkError when trying to connect to the scheduler: refused"
    );
    assert_eq!(
        WorkerError::new(ErrKind::AWSError, "gone").to_string(),
        "AWSError when trying to communicate with AWS: gone"
    );
    assert_eq!(
        WorkerError::new(ErrKind::DatabaseError, "locked").to_string(),
        "DatabaseError when trying to communicate with the DB: locked"
    );
    assert_eq!(
        WorkerError::new(ErrKind::SchemaError, "no header").to_string(),
        "SchemaError when reading a table header: no header"
    );
    assert_eq!(
        WorkerError::new(ErrKind::ProtocolError, "bad signal").to_string(),
        "ProtocolError when reading a request: bad signal"
    );
}

#[test]
fn scheduler_errors_carry_their_message() {
    let error = SchedulerError::new(
        mini_cluster_worker::scheduler::ErrKind::NetworkError,
        "Cannot close a connection that is not currently open.",
    );
    assert_eq!(
        error,
        SchedulerError::NetworkError(
            "Cannot close a connection that is not currently open.".to_owned()
        )
    );
    assert_eq!(error.message(), "Cannot close a connection that is not currently open.");
    assert_eq!(
        error.to_string(),
        "NetworkError when trying to connect to the worker: Cannot close a connection that is not currently open."
    );
}

#[test]
fn integers_render_in_decimal() {
    assert_eq!(decimal_string(0), "0");
    assert_eq!(decimal_string(7), "7");
    assert_eq!(decimal_string(10), "10");
    assert_eq!(decimal_string(-1), "-1");
    assert_eq!(decimal_string(1234567890), "1234567890");
    assert_eq!(decimal_string(i64::MAX), "9223372036854775807");
    assert_eq!(decimal_string(i64::MIN), "-9223372036854775808");
    for n in [-1000i64, -99, -10, -9, 9, 99, 100, 101, 4096, 65535] {
        assert_eq!(decimal_string(n), n.to_string());
    }
}

#[test]
fn characters_are_found_by_position() {
    let chars = chars_of("a_b_c");
    assert_eq!(chars, vec!['a', '_', 'b', '_', 'c']);
    assert_eq!(find_char(&chars, '_'), Some(1));
    assert_eq!(find_char(&chars, 'a'), Some(0));
    assert_eq!(find_char(&chars, 'c'), Some(4));
    assert_eq!(find_char(&chars, 'z'), None);
    assert_eq!(find_char(&chars_of(""), '_'), None);
    assert_eq!(chars_of("\u{00e9}\u{4e2d}").len(), 2);
}

#[test]
fn pieces_are_joined_with_the_separator_between_them() {
    assert_eq!(join_strings(&vec![], ", "), "");
    assert_eq!(join_strings(&vec!["a".to_owned()], ", "), "a");
    assert_eq!(
        join_strings(&vec!["a".to_owned(), "".to_owned(), "c".to_owned()], ", "),
        "a, , c"
    );
}
