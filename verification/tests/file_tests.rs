use std::collections::HashSet;

use mini_cluster_worker::err::ErrKind;
use mini_cluster_worker::file::{
    get_bucket_cache_dir, get_cache_dir, get_cache_dirs, get_workload_files, localize_files_plan,
    localize_plan, parse_file_path, ObjectRequest, WorkerS3ClientAdapter, WorkerS3ClientMock,
    WorkerS3ClientTrait,
};
use mini_cluster_worker::fixtures::{craft_file_message, craft_op_message, craft_workload_message};

/// Tests getting the file list from the complete buffer.
#[test]
fn test_get_workload_files() {
    // One Op, one File.
    let workload = craft_workload_message(None);

    let files = get_workload_files(&workload);

    assert_eq!(files.len(), 1);
    assert_eq!(files[0].get_path(), "s3://foo/bar");

    // Two Ops referencing different Files.
    let file1 = craft_file_message(Some(1), Some(String::from("s3://foo")));
    let file2 = craft_file_message(Some(2), Some(String::from("s3://bar")));
    let op1 = craft_op_message(Some(vec![file1]), None, Some(1));
    let op2 = craft_op_message(Some(vec![file2]), None, Some(2));
    let workload = craft_workload_message(Some(vec![op1, op2]));

    let files = get_workload_files(&workload);

    let mut expected: HashSet<&str> = HashSet::new();
    expected.insert("s3://foo");
    expected.insert("s3://bar");
    assert_eq!(files.len(), 2);
    assert_eq!(
        files.into_iter().map(|file| file.get_path()).collect::<HashSet<&str>>(),
        expected
    );

    // Two Ops referencing the same File.
    let op1 = craft_op_message(None, None, Some(1));
    let op2 = craft_op_message(None, None, Some(2));
    let workload = craft_workload_message(Some(vec![op1, op2]));

    let files = get_workload_files(&workload);

    assert_eq!(files.len(), 1);
}

/// Test the S3 file path parsing behavior.
#[test]
fn test_parse_file_path() {
    // Valid S3 path.
    let result = parse_file_path("s3://foo/bar/baz.csv");
    assert!(result.is_ok());
    let result = result.unwrap();

    let bucket = result.get("bucket");
    assert!(bucket.is_some());
    let bucket = bucket.unwrap();

    let object = result.get("object");
    assert!(object.is_some());
    let object = object.unwrap();

    assert_eq!(bucket, "foo");
    assert_eq!(object, "bar/baz.csv");

    // Invalid non-S3 path.
    let result = parse_file_path("not_s3!");
    assert!(result.is_err());

    // Invalid S3 path with no object component (e.g. a bucket).
    let result = parse_file_path("s3://foo");
    assert!(result.is_err());
}

/// Test the S3 file getter against the fixed-response port: the plan is
/// made and the port hands its bytes over.
#[test]
fn file_test_localize_file() {
    let file = craft_file_message(None, None);
    let client_mock = WorkerS3ClientMock {};
    let client_adapter = WorkerS3ClientAdapter { client: client_mock };
    let result = localize_plan(&file);

    assert!(result.is_ok());
    let plan = result.unwrap();
    let fetched = client_adapter.get_object(&plan.request);
    assert!(fetched.is_ok());
    assert_eq!(fetched.unwrap(), vec![1, 2, 3]);
}

/// Test the S3 file getter wrapper.
#[test]
fn test_localize_files() {
    let file1 = craft_file_message(Some(1), Some("s3://foo/bar".to_owned()));
    let file2 = craft_file_message(Some(2), Some("s3://foo/baz".to_owned()));
    let op1 = craft_op_message(Some(vec![file1]), None, None);
    let op2 = craft_op_message(Some(vec![file2]), None, None);
    let workload = craft_workload_message(Some(vec![op1, op2]));

    let result = localize_files_plan(&workload);

    assert!(result.failure.is_none());
    assert_eq!(result.files.len(), 2);
    assert_eq!(result.plans.len(), 2);
    assert_eq!(result.plans[0].destination, "/tmp/mini-cluster-worker/cache/foo/bar");
    assert_eq!(result.plans[1].destination, "/tmp/mini-cluster-worker/cache/foo/baz");
}

#[test]
fn parse_file_path_keeps_later_slashes_in_the_key() {
    let address = parse_file_path("s3://bucket/key/with/slashes").unwrap();
    assert_eq!(address.bucket, "bucket");
    assert_eq!(address.object, "key/with/slashes");
    assert_eq!(address.get("bucket"), Some(&"bucket".to_owned()));
    assert_eq!(address.get("object"), Some(&"key/with/slashes".to_owned()));
    assert_eq!(address.get("other"), None);
}

#[test]
fn parse_file_path_accepts_empty_bucket_and_empty_key() {
    let address = parse_file_path("s3:///").unwrap();
    assert_eq!(address.bucket, "");
    assert_eq!(address.object, "");
    let address = parse_file_path("s3://b/").unwrap();
    assert_eq!(address.bucket, "b");
    assert_eq!(address.object, "");
}

#[test]
fn parse_file_path_reports_a_missing_scheme() {
    for path in ["", "s3:/", "S3://foo/bar", "http://foo/bar", " s3://foo/bar", "not_s3!"] {
        let error = parse_file_path(path).unwrap_err();
        assert_eq!(error.kind(), ErrKind::AWSError);
        assert_eq!(error.message(), "Error: path is not an S3 path.");
    }
}

#[test]
fn parse_file_path_reports_a_missing_key() {
    let error = parse_file_path("s3://foo").unwrap_err();
    assert_eq!(error.kind(), ErrKind::AWSError);
    assert_eq!(
        error.message(),
        "Illegal S3 target foo: path must point to a bucket object!"
    );
    let error = parse_file_path("s3://").unwrap_err();
    assert_eq!(
        error.message(),
        "Illegal S3 target : path must point to a bucket object!"
    );
}

#[test]
fn parse_file_path_counts_characters_not_bytes() {
    let address = parse_file_path("s3://b\u{00fc}cket/k\u{00e9}y/\u{4e2d}").unwrap();
    assert_eq!(address.bucket, "b\u{00fc}cket");
    assert_eq!(address.object, "k\u{00e9}y/\u{4e2d}");
}

#[test]
fn workload_files_come_once_each_in_first_seen_order() {
    let op1 = craft_op_message(
        Some(vec![
            craft_file_message(Some(3), Some("s3://b/three".to_owned())),
            craft_file_message(Some(1), Some("s3://b/one".to_owned())),
            craft_file_message(Some(3), Some("s3://b/three-again".to_owned())),
        ]),
        None,
        Some(1),
    );
    let op2 = craft_op_message(Some(vec![]), None, Some(2));
    let op3 = craft_op_message(
        Some(vec![
            craft_file_message(Some(1), Some("s3://b/one-again".to_owned())),
            craft_file_message(Some(2), Some("s3://b/two".to_owned())),
            craft_file_message(Some(-7), Some("s3://b/minus".to_owned())),
        ]),
        None,
        Some(3),
    );
    let workload = craft_workload_message(Some(vec![op1, op2, op3]));
    let files = get_workload_files(&workload);
    let ids: Vec<i32> = files.iter().map(|file| file.get_id()).collect();
    assert_eq!(ids, vec![3, 1, 2, -7]);
    let paths: Vec<&str> = files.iter().map(|file| file.get_path()).collect();
    assert_eq!(paths, vec!["s3://b/three", "s3://b/one", "s3://b/two", "s3://b/minus"]);
}

#[test]
fn workload_without_operations_has_no_files() {
    let workload = craft_workload_message(Some(vec![]));
    assert!(get_workload_files(&workload).is_empty());
    let plan = localize_files_plan(&workload);
    assert!(plan.files.is_empty());
    assert!(plan.plans.is_empty());
    assert!(plan.failure.is_none());
}

#[test]
fn cache_directories_are_nested_outermost_first() {
    assert_eq!(get_cache_dir(), "/tmp/mini-cluster-worker/cache/");
    assert_eq!(get_bucket_cache_dir("foo"), "/tmp/mini-cluster-worker/cache/foo");
    assert_eq!(
        get_cache_dirs("foo"),
        vec![
            "/tmp/mini-cluster-worker/".to_owned(),
            "/tmp/mini-cluster-worker/cache/".to_owned(),
            "/tmp/mini-cluster-worker/cache/foo".to_owned(),
        ]
    );
}

#[test]
fn localizing_the_same_file_twice_plans_the_same_path() {
    let file = craft_file_message(Some(9), Some("s3://mini-cluster-tests/simple-csv.csv".to_owned()));
    let first = localize_plan(&file).unwrap();
    let second = localize_plan(&file).unwrap();
    assert_eq!(first, second);
    assert_eq!(
        first.destination,
        "/tmp/mini-cluster-worker/cache/mini-cluster-tests/simple-csv.csv"
    );
    assert_eq!(first.request.bucket, "mini-cluster-tests");
    assert_eq!(first.request.key, "simple-csv.csv");
    assert_eq!(first.directories, get_cache_dirs("mini-cluster-tests"));
}

#[test]
fn localize_plan_rejects_what_parse_file_path_rejects() {
    let file = craft_file_message(Some(1), Some("s3://foo".to_owned()));
    let error = localize_plan(&file).unwrap_err();
    assert_eq!(error.kind(), ErrKind::AWSError);
    assert_eq!(
        error.message(),
        "Illegal S3 target foo: path must point to a bucket object!"
    );
}

#[test]
fn one_bad_address_fails_the_whole_after_the_files_before_it() {
    let op = craft_op_message(
        Some(vec![
            craft_file_message(Some(1), Some("s3://foo/a".to_owned())),
            craft_file_message(Some(2), Some("nowhere".to_owned())),
            craft_file_message(Some(3), Some("s3://foo/c".to_owned())),
        ]),
        None,
        None,
    );
    let workload = craft_workload_message(Some(vec![op]));
    let plan = localize_files_plan(&workload);
    assert_eq!(plan.files.len(), 3);
    assert_eq!(plan.plans.len(), 1);
    assert_eq!(plan.plans[0].destination, "/tmp/mini-cluster-worker/cache/foo/a");
    let error = plan.failure.unwrap();
    assert_eq!(error.kind(), ErrKind::AWSError);
    assert_eq!(error.message(), "Error: path is not an S3 path.");
}

#[test]
fn the_fixed_response_port_answers_every_request_alike() {
    let port = WorkerS3ClientMock {};
    let one = ObjectRequest { bucket: "a".to_owned(), key: "b".to_owned() };
    let two = ObjectRequest { bucket: "".to_owned(), key: "".to_owned() };
    assert_eq!(port._get_object(&one), Ok(vec![1, 2, 3]));
    assert_eq!(port._get_object(&two), Ok(vec![1, 2, 3]));
}
