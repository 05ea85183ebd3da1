use mini_cluster_worker::fixtures::{craft_file_message, craft_op_message, craft_workload_message};
use mini_cluster_worker::err::ErrKind;
use mini_cluster_worker::job::{BuildStep, Job, Mode, Statement};

#[test]
fn test_create_new_job() {
    let workload = craft_workload_message(None);
    let job = Job::new(workload);
    assert_eq!(job.workload, craft_workload_message(None));
}

#[test]
fn tables_are_named_after_the_file_identifier() {
    let file = craft_file_message(Some(1), None);
    let table = Job::table_for(&file, "/tmp/mini-cluster-worker/cache/foo/bar");
    assert_eq!(table.name(), "dataset_1");
    assert_eq!(table.source(), "/tmp/mini-cluster-worker/cache/foo/bar");
    let file = craft_file_message(Some(-42), None);
    assert_eq!(Job::table_for(&file, "p").name(), "dataset_-42");
    let file = craft_file_message(Some(0), None);
    assert_eq!(Job::table_for(&file, "p").name(), "dataset_0");
    let file = craft_file_message(Some(i32::MIN), None);
    assert_eq!(Job::table_for(&file, "p").name(), "dataset_-2147483648");
}

#[test]
fn build_drops_each_table_right_before_loading_it() {
    let f1 = craft_file_message(Some(1), Some("s3://foo/bar".to_owned()));
    let f2 = craft_file_message(Some(2), Some("s3://foo/baz".to_owned()));
    let workload = craft_workload_message(Some(vec![
        craft_op_message(Some(vec![f1]), None, Some(1)),
        craft_op_message(Some(vec![f2]), None, Some(2)),
    ]));
    let job = Job::new(workload);
    let plan = job.localize_plan();
    assert!(plan.failure.is_none());
    let steps = Job::build_steps(&plan);
    assert_eq!(steps.len(), 4);
    assert_eq!(steps[0], BuildStep::Drop("DROP TABLE IF EXISTS dataset_1".to_owned()));
    match &steps[1] {
        BuildStep::Load(table) => {
            assert_eq!(table.name(), "dataset_1");
            assert_eq!(table.source(), "/tmp/mini-cluster-worker/cache/foo/bar");
        }
        other => panic!("unexpected step {:?}", other),
    }
    assert_eq!(steps[2], BuildStep::Drop("DROP TABLE IF EXISTS dataset_2".to_owned()));
    match &steps[3] {
        BuildStep::Load(table) => {
            assert_eq!(table.name(), "dataset_2");
            assert_eq!(table.source(), "/tmp/mini-cluster-worker/cache/foo/baz");
        }
        other => panic!("unexpected step {:?}", other),
    }
}

#[test]
fn build_makes_one_table_for_a_file_that_two_operations_share() {
    let workload = craft_workload_message(Some(vec![
        craft_op_message(None, Some("SELECT 1 + 1".to_owned()), Some(1)),
        craft_op_message(None, Some("SELECT * FROM dataset_1".to_owned()), Some(2)),
    ]));
    let job = Job::new(workload);
    let steps = Job::build_steps(&job.localize_plan());
    assert_eq!(steps.len(), 2);
    assert_eq!(steps[0], BuildStep::Drop("DROP TABLE IF EXISTS dataset_1".to_owned()));
}

#[test]
fn build_touches_no_table_when_a_file_cannot_be_localized() {
    let good = craft_file_message(Some(1), Some("s3://foo/bar".to_owned()));
    let bad = craft_file_message(Some(2), Some("s3://foo".to_owned()));
    let workload = craft_workload_message(Some(vec![craft_op_message(
        Some(vec![good, bad]),
        None,
        Some(1),
    )]));
    let job = Job::new(workload);
    let plan = job.localize_plan();
    assert!(plan.failure.is_some());
    assert_eq!(plan.plans.len(), 1);
    assert!(Job::build_steps(&plan).is_empty());
}

#[test]
fn build_of_a_workload_without_files_has_no_step() {
    let job = Job::new(craft_workload_message(Some(vec![])));
    assert!(Job::build_steps(&job.localize_plan()).is_empty());
}

#[test]
fn only_the_last_statement_is_a_query() {
    let workload = craft_workload_message(Some(vec![
        craft_op_message(None, Some("INSERT INTO t VALUES (1)".to_owned()), Some(1)),
        craft_op_message(None, Some("SELECT * FROM t".to_owned()), Some(2)),
    ]));
    let job = Job::new(workload);
    assert_eq!(
        job.run_plan(),
        Ok(vec![
            Statement { sql: "INSERT INTO t VALUES (1)".to_owned(), mode: Mode::Execute },
            Statement { sql: "SELECT * FROM t".to_owned(), mode: Mode::Query },
        ])
    );
}

#[test]
fn a_single_statement_is_a_query() {
    let job = Job::new(craft_workload_message(None));
    assert_eq!(
        job.run_plan(),
        Ok(vec![Statement { sql: "SELECT * FROM table".to_owned(), mode: Mode::Query }])
    );
}

#[test]
fn a_workload_without_operations_runs_nothing() {
    let job = Job::new(craft_workload_message(Some(vec![])));
    assert_eq!(job.run_plan(), Ok(vec![]));
}

#[test]
fn statements_run_in_list_order() {
    let statements = ["SELECT 1 + 1", "SELECT 2", "SELECT * FROM dataset_1"];
    let ops = statements
        .iter()
        .enumerate()
        .map(|(i, s)| craft_op_message(None, Some(s.to_string()), Some(i as i32 + 1)))
        .collect();
    let job = Job::new(craft_workload_message(Some(ops)));
    let plan = job.run_plan().unwrap();
    let sql: Vec<&str> = plan.iter().map(|s| s.sql.as_str()).collect();
    assert_eq!(sql, statements.to_vec());
    let modes: Vec<Mode> = plan.iter().map(|s| s.mode).collect();
    assert_eq!(modes, vec![Mode::Execute, Mode::Execute, Mode::Query]);
}

#[test]
fn operations_out_of_sequence_are_not_run() {
    let workload = craft_workload_message(Some(vec![
        craft_op_message(None, Some("SELECT * FROM t".to_owned()), Some(2)),
        craft_op_message(None, Some("INSERT INTO t VALUES (1)".to_owned()), Some(1)),
    ]));
    let error = Job::new(workload).run_plan().unwrap_err();
    assert_eq!(error.kind(), ErrKind::ProtocolError);
    assert_eq!(error.message(), "Error: operations are out of sequence.");
}

#[test]
fn operations_with_equal_sequence_numbers_run_in_list_order() {
    let workload = craft_workload_message(Some(vec![
        craft_op_message(None, Some("SELECT 1".to_owned()), Some(1)),
        craft_op_message(None, Some("SELECT 2".to_owned()), Some(1)),
    ]));
    let plan = Job::new(workload).run_plan().unwrap();
    assert_eq!(plan[0].sql, "SELECT 1");
    assert_eq!(plan[1].sql, "SELECT 2");
    assert_eq!(plan[1].mode, Mode::Query);
}
