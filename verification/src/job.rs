//! A job: a workload and the database it runs against.
//!
//! A job has two phases. Building localizes every file of the workload and
//! then, only if all of them could be localized, drops and loads one table
//! per file, named after the file's identifier. Running executes the
//! statements of the workload in the order of their sequence numbers and
//! keeps the rows of the last one. This module plans both; the caller does
//! the fetching, the writing and the talking to the store.

use crate::db::{drop_sql, Database, Table};
use crate::err::{ErrKind, WorkerError};
use crate::file::{all_targets, first_seen, localize_files_plan, ref_views, LocalizeAllPlan};
use crate::text::{decimal, decimal_string};
use crate::workload::{in_sequence, File, OpView, Workload};
use vstd::prelude::*;
use vstd::string::StringExecFns;

verus! {

/// How a statement is run.
#[derive(Debug, Clone, Copy, PartialEq, Eq, Structural)]
pub enum Mode {
    /// For its effect: no rows are expected.
    Execute,
    /// For its rows, which are the result of the job.
    Query,
}

/// A statement and how to run it.
#[derive(Debug, PartialEq, Eq)]
pub struct Statement {
    pub sql: String,
    pub mode: Mode,
}

/// The name of the table that holds the file with the identifier `id`.
pub open spec fn table_name(id: int) -> Seq<char> {
    "dataset_"@ + decimal(id)
}

/// How the statement at position `i` of `ops` is run: the last one as a
/// query, every other one for its effect.
pub open spec fn mode_at(ops: Seq<OpView>, i: int) -> Mode {
    if i == ops.len() - 1 {
        Mode::Query
    } else {
        Mode::Execute
    }
}

/// True when `statements` are the statements of `ops`, in list order, each
/// with the mode of its position.
pub open spec fn runs(statements: Seq<Statement>, ops: Seq<OpView>) -> bool {
    &&& statements.len() == ops.len()
    &&& forall|i: int|
        0 <= i < ops.len() ==> (#[trigger] statements[i]).sql@ == ops[i].statement
            && statements[i].mode == mode_at(ops, i)
}

/// A run touches the store once per operation, so a workload without
/// operations does not touch it; and rows come from the last statement only.
pub proof fn lemma_runs(statements: Seq<Statement>, ops: Seq<OpView>)
    requires
        runs(statements, ops),
    ensures
        ops.len() == 0 ==> statements.len() == 0,
        forall|i: int|
            0 <= i < statements.len() ==> ((#[trigger] statements[i]).mode == Mode::Query <==> i
                == statements.len() - 1),
{
}

/// The message for a workload whose list order is not its sequence order.
pub open spec fn sequence_message() -> Seq<char> {
    "Error: operations are out of sequence."@
}

/// One step of a build.
#[derive(Debug, PartialEq, Eq)]
pub enum BuildStep {
    /// Run this statement, which drops a table if it exists.
    Drop(String),
    /// Load this table from its source. The step before it dropped the
    /// table, so the load finds no table and fills a new one.
    Load(Table),
}

/// The number of tables a build makes: none when localization fails, else
/// one per localized file.
pub open spec fn built_count(plan: &LocalizeAllPlan) -> int {
    if plan.failure is Some {
        0
    } else if plan.files@.len() <= plan.plans@.len() {
        plan.files@.len() as int
    } else {
        plan.plans@.len() as int
    }
}

/// The step that drops the table at position `i`.
pub open spec fn drop_step(steps: Seq<BuildStep>, i: int) -> BuildStep {
    steps[2 * i]
}

/// The step that loads the table at position `i`, right after its drop.
pub open spec fn load_step(steps: Seq<BuildStep>, i: int) -> BuildStep {
    steps[2 * i + 1]
}

/// True when `steps` build the tables of `plan`: for each localized file, in
/// the order of the files, the drop of its table directly followed by the
/// load of that table from the file's local path; and nothing at all when
/// localization fails.
pub open spec fn builds(steps: Seq<BuildStep>, plan: &LocalizeAllPlan) -> bool {
    &&& steps.len() == 2 * built_count(plan)
    &&& forall|i: int|
        0 <= i < built_count(plan) ==> (#[trigger] drop_step(steps, i) matches BuildStep::Drop(
            sql,
        ) && sql@ == drop_sql(table_name(plan.files@[i]@.id)))
    &&& forall|i: int|
        0 <= i < built_count(plan) ==> (#[trigger] load_step(steps, i) matches BuildStep::Load(
            table,
        ) && table.spec_name() == table_name(plan.files@[i]@.id) && table.spec_source()
            == plan.plans@[i].destination@)
}

/// A build of the plan of a workload touches no table when a file cannot be
/// localized, and otherwise drops and loads one table for every distinct
/// file of the workload.
pub proof fn lemma_builds(steps: Seq<BuildStep>, plan: &LocalizeAllPlan, workload: &Workload)
    requires
        plan.is_for(workload),
        builds(steps, plan),
    ensures
        plan.failure is Some ==> steps.len() == 0,
        plan.failure is None ==> steps.len() == 2 * first_seen(
            all_targets(workload@.ops),
        ).len(),
{
    assert(ref_views(plan.files@).len() == plan.files@.len());
}

/// A unit of work together with the database it runs against.
#[derive(Debug, PartialEq, Eq)]
pub struct Job {
    pub workload: Workload,
    pub database: Database,
}

impl Job {
    /// The job that runs `workload`.
    pub fn new(workload: Workload) -> (job: Job)
        ensures
            job.workload == workload,
    {
        Job { workload, database: Database {  } }
    }

    /// The table that holds `file`, loaded from the local copy at `path`.
    pub fn table_for(file: &File, path: &str) -> (table: Table)
        ensures
            table.spec_name() == table_name(file@.id),
            table.spec_source() == path@,
    {
        let mut name = String::from_str("dataset_");
        name.append(decimal_string(file.id as i64).as_str());
        Table::new(name.as_str(), path)
    }

    /// Plans the localization of the files of the workload, the first half
    /// of the build.
    pub fn localize_plan(&self) -> (plan: LocalizeAllPlan<'_>)
        ensures
            plan.is_for(&self.workload),
    {
        localize_files_plan(&self.workload)
    }

    /// Plans the second half of the build, given the plan of the first. When
    /// localization fails, no step is planned: no table is touched. Else,
    /// for each file in order, the drop of its table directly followed by
    /// its load, so that a build always loads afresh.
    pub fn build_steps(plan: &LocalizeAllPlan) -> (steps: Vec<BuildStep>)
        ensures
            builds(steps@, plan),
    {
        let mut steps: Vec<BuildStep> = Vec::new();
        if plan.failure.is_some() {
            return steps;
        }
        let mut i: usize = 0;
        while i < plan.files.len() && i < plan.plans.len()
            invariant
                plan.failure is None,
                i <= plan.files@.len(),
                i <= plan.plans@.len(),
                steps@.len() == 2 * i,
                forall|k: int|
                    0 <= k < i ==> (#[trigger] drop_step(steps@, k) matches BuildStep::Drop(sql)
                        && sql@ == drop_sql(table_name(plan.files@[k]@.id))),
                forall|k: int|
                    0 <= k < i ==> (#[trigger] load_step(steps@, k) matches BuildStep::Load(
                        table,
                    ) && table.spec_name() == table_name(plan.files@[k]@.id)
                        && table.spec_source() == plan.plans@[k].destination@),
            decreases plan.files@.len() - i,
        {
            let ghost before = steps@;
            let table = Job::table_for(plan.files[i], plan.plans[i].destination.as_str());
            steps.push(BuildStep::Drop(table.drop_statement()));
            steps.push(BuildStep::Load(table));
            proof {
                assert forall|k: int| 0 <= k < i + 1 implies (#[trigger] drop_step(
                    steps@,
                    k,
                ) matches BuildStep::Drop(sql) && sql@ == drop_sql(
                    table_name(plan.files@[k]@.id),
                )) by {
                    if k < i {
                        assert(drop_step(steps@, k) == drop_step(before, k));
                    }
                }
                assert forall|k: int| 0 <= k < i + 1 implies (#[trigger] load_step(
                    steps@,
                    k,
                ) matches BuildStep::Load(table) && table.spec_name() == table_name(
                    plan.files@[k]@.id,
                ) && table.spec_source() == plan.plans@[k].destination@) by {
                    if k < i {
                        assert(load_step(steps@, k) == load_step(before, k));
                    }
                }
            }
            i += 1;
        }
        steps
    }

    /// Plans the run. Fails with a `ProtocolError` exactly when the list
    /// order of the operations is not their sequence order. Else gives the
    /// statements in that order, the last as a query and the others for
    /// their effect. A workload without operations gives no statement, so
    /// the store is not touched.
    pub fn run_plan(&self) -> (r: Result<Vec<Statement>, WorkerError>)
        ensures
            match r {
                Ok(statements) => in_sequence(self.workload@.ops) && runs(
                    statements@,
                    self.workload@.ops,
                ),
                Err(e) => !in_sequence(self.workload@.ops) && e.has(
                    ErrKind::ProtocolError,
                    sequence_message(),
                ),
            },
    {
        if !self.workload.is_sequenced() {
            return Err(
                WorkerError::new(ErrKind::ProtocolError, "Error: operations are out of sequence."),
            );
        }
        let mut statements: Vec<Statement> = Vec::new();
        let count = self.workload.ops.len();
        let mut i: usize = 0;
        while i < count
            invariant
                i <= count,
                count == self.workload.ops@.len(),
                statements@.len() == i,
                forall|k: int|
                    0 <= k < i ==> (#[trigger] statements@[k]).sql@
                        == self.workload@.ops[k].statement && statements@[k].mode == mode_at(
                        self.workload@.ops,
                        k,
                    ),
            decreases count - i,
        {
            let mode = if i == count - 1 {
                Mode::Query
            } else {
                Mode::Execute
            };
            let sql = String::from_str(self.workload.ops[i].statement.as_str());
            statements.push(Statement { sql, mode });
            i += 1;
        }
        Ok(statements)
    }
}

} // verus!
