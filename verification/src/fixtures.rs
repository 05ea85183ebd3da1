//! Ready-made workloads and frames, for trying the worker out.

use crate::codec::{decode_workload, encode_workload};
use crate::protocol::{work_frame, WORK};
use crate::workload::{file_views, op_views, File, FileView, Op, OpView, Workload, WorkloadView};
use vstd::prelude::*;
use vstd::string::StringExecFns;

verus! {

/// The file used when none is given.
pub open spec fn default_file() -> FileView {
    FileView { id: 1, path: "s3://foo/bar"@ }
}

/// The operation used when none is given.
pub open spec fn default_op() -> OpView {
    OpView { statement: "SELECT * FROM table"@, op_sequence_num: 1, targets: seq![default_file()] }
}

/// The workload used when none is given.
pub open spec fn default_workload() -> WorkloadView {
    WorkloadView { ops: seq![default_op()] }
}

/// A file with the given identifier and address; identifier 1 and address
/// `s3://foo/bar` where none is given.
pub fn craft_file_message(id: Option<i32>, path: Option<String>) -> (file: File)
    ensures
        file@.id == match id {
            Some(id) => id as int,
            None => default_file().id,
        },
        file@.path == match path {
            Some(path) => path@,
            None => default_file().path,
        },
{
    let id = match id {
        Some(id) => id,
        None => 1,
    };
    let path = match path {
        Some(path) => path,
        None => String::from_str("s3://foo/bar"),
    };
    File { id, path }
}

/// An operation with the given targets, statement and sequence number; the
/// default file, `SELECT * FROM table` and 1 where none is given.
pub fn craft_op_message(
    targets: Option<Vec<File>>,
    statement: Option<String>,
    op_sequence_number: Option<i32>,
) -> (op: Op)
    ensures
        op@.targets == match targets {
            Some(targets) => file_views(targets@),
            None => default_op().targets,
        },
        op@.statement == match statement {
            Some(statement) => statement@,
            None => default_op().statement,
        },
        op@.op_sequence_num == match op_sequence_number {
            Some(number) => number as int,
            None => default_op().op_sequence_num,
        },
{
    let targets = match targets {
        Some(targets) => targets,
        None => {
            let mut targets: Vec<File> = Vec::new();
            targets.push(craft_file_message(None, None));
            assert(file_views(targets@) =~= default_op().targets);
            targets
        },
    };
    let statement = match statement {
        Some(statement) => statement,
        None => String::from_str("SELECT * FROM table"),
    };
    let op_sequence_num = match op_sequence_number {
        Some(number) => number,
        None => 1,
    };
    Op { statement, op_sequence_num, targets }
}

/// A workload with the given operations; the default operation alone where
/// none is given.
pub fn craft_workload_message(ops: Option<Vec<Op>>) -> (workload: Workload)
    ensures
        workload@.ops == match ops {
            Some(ops) => op_views(ops@),
            None => default_workload().ops,
        },
{
    let ops = match ops {
        Some(ops) => ops,
        None => {
            let mut ops: Vec<Op> = Vec::new();
            ops.push(craft_op_message(None, None, None));
            assert(op_views(ops@) =~= default_workload().ops);
            ops
        },
    };
    Workload { ops }
}

/// The work frame of a workload, the default one where none is given: the
/// work signal, the low sixteen bits of the payload's length, big-endian,
/// and the payload, which decodes to the workload.
pub fn craft_workload_buffer(workload: Option<Workload>) -> (buffer: Vec<u8>)
    ensures
        buffer@ == work_frame(
            encode_workload(
                match workload {
                    Some(workload) => workload@,
                    None => default_workload(),
                },
            ),
        ),
        decode_workload(buffer@.skip(3)) == Some(
            match workload {
                Some(workload) => workload@,
                None => default_workload(),
            },
        ),
{
    let workload = match workload {
        Some(workload) => workload,
        None => craft_workload_message(None),
    };
    let payload = workload.write_to_bytes();
    let size = payload.len();
    let mut buffer: Vec<u8> = Vec::new();
    buffer.push(WORK);
    buffer.push(((size / 256) % 256) as u8);
    buffer.push((size % 256) as u8);
    buffer.extend_from_slice(payload.as_slice());
    proof {
        assert(buffer@ =~= work_frame(payload@));
        assert(buffer@.skip(3) =~= payload@);
    }
    buffer
}

} // verus!
