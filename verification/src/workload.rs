//! The unit of work: an ordered list of operations, each a SQL statement with
//! a sequence number and the files it depends on.

use vstd::prelude::*;
use vstd::string::StringExecFns;

verus! {

/// A file reference: an identifier and an address in object storage.
#[derive(Debug, PartialEq, Eq)]
pub struct File {
    pub id: i32,
    pub path: String,
}

/// A file reference as plain values.
pub struct FileView {
    pub id: int,
    pub path: Seq<char>,
}

impl View for File {
    type V = FileView;

    open spec fn view(&self) -> FileView {
        FileView { id: self.id as int, path: self.path@ }
    }
}

/// One operation: a statement, its position in the sequence and its targets.
#[derive(Debug, PartialEq, Eq)]
pub struct Op {
    pub statement: String,
    pub op_sequence_num: i32,
    pub targets: Vec<File>,
}

/// An operation as plain values.
pub struct OpView {
    pub statement: Seq<char>,
    pub op_sequence_num: int,
    pub targets: Seq<FileView>,
}

/// The files of `files` as plain values.
pub open spec fn file_views(files: Seq<File>) -> Seq<FileView> {
    Seq::new(files.len(), |i: int| files[i]@)
}

impl View for Op {
    type V = OpView;

    open spec fn view(&self) -> OpView {
        OpView {
            statement: self.statement@,
            op_sequence_num: self.op_sequence_num as int,
            targets: file_views(self.targets@),
        }
    }
}

/// A unit of work: operations in execution order.
#[derive(Debug, PartialEq, Eq)]
pub struct Workload {
    pub ops: Vec<Op>,
}

/// A unit of work as plain values.
pub struct WorkloadView {
    pub ops: Seq<OpView>,
}

/// The operations of `ops` as plain values.
pub open spec fn op_views(ops: Seq<Op>) -> Seq<OpView> {
    Seq::new(ops.len(), |i: int| ops[i]@)
}

impl View for Workload {
    type V = WorkloadView;

    open spec fn view(&self) -> WorkloadView {
        WorkloadView { ops: op_views(self.ops@) }
    }
}

impl File {
    /// The file reference with identifier 0 and an empty address.
    pub fn new() -> (file: File)
        ensures
            file@ == (FileView { id: 0, path: Seq::empty() }),
    {
        File { id: 0, path: String::new() }
    }

    /// The identifier, which is the key by which files are told apart.
    pub fn get_id(&self) -> (id: i32)
        ensures
            id == self@.id,
    {
        self.id
    }

    /// The address in object storage.
    pub fn get_path(&self) -> (path: &str)
        ensures
            path@ == self@.path,
    {
        self.path.as_str()
    }

    /// Sets the identifier.
    pub fn set_id(&mut self, id: i32)
        ensures
            final(self)@ == (FileView { id: id as int, path: old(self)@.path }),
    {
        self.id = id;
    }

    /// Sets the address.
    pub fn set_path(&mut self, path: String)
        ensures
            final(self)@ == (FileView { id: old(self)@.id, path: path@ }),
    {
        self.path = path;
    }

    /// A copy of this file reference.
    pub fn duplicate(&self) -> (copy: File)
        ensures
            copy@ == self@,
    {
        File { id: self.id, path: String::from_str(self.path.as_str()) }
    }
}

impl Op {
    /// The operation with an empty statement, sequence number 0 and no target.
    pub fn new() -> (op: Op)
        ensures
            op@ == (OpView { statement: Seq::empty(), op_sequence_num: 0, targets: Seq::empty() }),
    {
        let op = Op { statement: String::new(), op_sequence_num: 0, targets: Vec::new() };
        assert(op@.targets =~= Seq::<FileView>::empty());
        op
    }

    /// The SQL statement.
    pub fn get_statement(&self) -> (statement: &str)
        ensures
            statement@ == self@.statement,
    {
        self.statement.as_str()
    }

    /// The position of the operation in the sequence.
    pub fn get_op_sequence_num(&self) -> (number: i32)
        ensures
            number == self@.op_sequence_num,
    {
        self.op_sequence_num
    }

    /// The files the operation depends on.
    pub fn get_targets(&self) -> (targets: &Vec<File>)
        ensures
            file_views(targets@) == self@.targets,
    {
        &self.targets
    }

    /// Sets the statement.
    pub fn set_statement(&mut self, statement: String)
        ensures
            final(self)@ == (OpView { statement: statement@, ..old(self)@ }),
    {
        self.statement = statement;
    }

    /// Sets the sequence number.
    pub fn set_op_sequence_num(&mut self, number: i32)
        ensures
            final(self)@ == (OpView { op_sequence_num: number as int, ..old(self)@ }),
    {
        self.op_sequence_num = number;
    }

    /// Sets the targets.
    pub fn set_targets(&mut self, targets: Vec<File>)
        ensures
            final(self)@ == (OpView { targets: file_views(targets@), ..old(self)@ }),
    {
        self.targets = targets;
    }
}

/// True when the sequence numbers of `ops` never go down along the list:
/// list order is then sequence order.
pub open spec fn in_sequence(ops: Seq<OpView>) -> bool {
    forall|i: int, j: int|
        0 <= i <= j < ops.len() ==> (#[trigger] ops[i]).op_sequence_num <= (
        #[trigger] ops[j]).op_sequence_num
}

impl Workload {
    /// The workload without operations.
    pub fn new() -> (workload: Workload)
        ensures
            workload@ == (WorkloadView { ops: Seq::empty() }),
    {
        let workload = Workload { ops: Vec::new() };
        assert(workload@.ops =~= Seq::<OpView>::empty());
        workload
    }

    /// The operations, in list order.
    pub fn get_ops(&self) -> (ops: &Vec<Op>)
        ensures
            op_views(ops@) == self@.ops,
    {
        &self.ops
    }

    /// Sets the operations.
    pub fn set_ops(&mut self, ops: Vec<Op>)
        ensures
            final(self)@ == (WorkloadView { ops: op_views(ops@) }),
    {
        self.ops = ops;
    }

    /// Tells whether list order agrees with sequence order, as it must for
    /// the operations to run in the order their sequence numbers give.
    pub fn is_sequenced(&self) -> (yes: bool)
        ensures
            yes == in_sequence(self@.ops),
    {
        let mut i: usize = 1;
        while i < self.ops.len()
            invariant
                1 <= i,
                forall|k: int|
                    1 <= k < i && k < self.ops@.len() ==> (#[trigger] self@.ops[k - 1]).op_sequence_num
                        <= self@.ops[k].op_sequence_num,
            decreases self.ops@.len() - i,
        {
            if self.ops[i - 1].op_sequence_num > self.ops[i].op_sequence_num {
                assert(self@.ops[i - 1].op_sequence_num > self@.ops[i as int].op_sequence_num);
                return false;
            }
            i += 1;
        }
        proof {
            let ops = self@.ops;
            assert forall|a: int, b: int| 0 <= a <= b < ops.len() implies (
            #[trigger] ops[a]).op_sequence_num <= (#[trigger] ops[b]).op_sequence_num by {
                lemma_steps(ops, a, b);
            }
        }
        true
    }
}

/// Sequence numbers that never go down from one operation to the next never
/// go down between any two.
proof fn lemma_steps(ops: Seq<OpView>, a: int, b: int)
    requires
        0 <= a <= b < ops.len(),
        forall|k: int|
            1 <= k < ops.len() ==> (#[trigger] ops[k - 1]).op_sequence_num
                <= ops[k].op_sequence_num,
    ensures
        ops[a].op_sequence_num <= ops[b].op_sequence_num,
    decreases b - a,
{
    if a < b {
        lemma_steps(ops, a, b - 1);
        assert(ops[b - 1].op_sequence_num <= ops[b].op_sequence_num);
    }
}

} // verus!
