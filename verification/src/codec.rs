//! The binary encoding of a workload.
//!
//! A message is a run of tagged fields. A file carries its identifier
//! (field 1, signed 32-bit) and its address (field 2, text). An operation
//! carries its statement (field 1, text), its sequence number (field 2,
//! signed 32-bit) and one nested file per target (field 3). A workload
//! carries one nested operation per field 1. Zero numbers and empty texts are
//! not written. A decoder skips fields whose number it does not know, takes
//! the last value of a field that comes more than once, and rejects a known
//! field whose value has the wrong shape.

use crate::wire::{
    bytes_field, int32_field, int32_of, lemma_low_int32, lemma_parse_bytes_field,
    lemma_parse_field_len, lemma_parse_varint_field, low_int32, parse_field, put_bytes,
    put_int32, put_string, read_field, sign_extended, string_field, string_from_utf8, text_of,
    varint_field, FieldValue, FieldView, WireValue,
};
use crate::workload::{file_views, op_views, File, FileView, Op, OpView, Workload, WorkloadView};
use vstd::prelude::*;
use vstd::slice::slice_subrange;
use vstd::slice::slice_to_vec;
use vstd::utf8::{encode_utf8, encode_utf8_decode_utf8, encode_utf8_valid_utf8};

verus! {

/// Field number of a file's identifier.
pub const FILE_ID: u32 = 1;

/// Field number of a file's address.
pub const FILE_PATH: u32 = 2;

/// Field number of an operation's statement.
pub const OP_STATEMENT: u32 = 1;

/// Field number of an operation's sequence number.
pub const OP_SEQUENCE: u32 = 2;

/// Field number of an operation's targets.
pub const OP_TARGETS: u32 = 3;

/// Field number of a workload's operations.
pub const WORKLOAD_OPS: u32 = 1;

/// The encoding of a file.
pub open spec fn encode_file(file: FileView) -> Seq<u8> {
    int32_field(FILE_ID as nat, file.id) + string_field(FILE_PATH as nat, file.path)
}

/// The file with no field set.
pub open spec fn empty_file() -> FileView {
    FileView { id: 0, path: Seq::empty() }
}

/// The file `acc` after reading `field`, or `None` if the field is rejected.
pub open spec fn file_with(acc: FileView, field: FieldView) -> Option<FileView> {
    if field.number == FILE_ID {
        match field.value {
            WireValue::Varint(v) => Some(FileView { id: low_int32(v), path: acc.path }),
            _ => None,
        }
    } else if field.number == FILE_PATH {
        match field.value {
            WireValue::Bytes(b) => match text_of(b) {
                Some(text) => Some(FileView { id: acc.id, path: text }),
                None => None,
            },
            _ => None,
        }
    } else {
        Some(acc)
    }
}

/// Reads the fields of `bytes` into `acc`, front to back.
pub open spec fn decode_file_from(bytes: Seq<u8>, acc: FileView) -> Option<FileView>
    decreases bytes.len(),
    via decode_file_from_decreases
{
    if bytes.len() == 0 {
        Some(acc)
    } else {
        match parse_field(bytes) {
            None => None,
            Some(field) => match file_with(acc, field) {
                None => None,
                Some(next) => decode_file_from(bytes.skip(field.len as int), next),
            },
        }
    }
}

#[via_fn]
proof fn decode_file_from_decreases(bytes: Seq<u8>, acc: FileView) {
    lemma_parse_field_len(bytes);
}

/// The file that `bytes` encode, or `None` if they encode none.
pub open spec fn decode_file(bytes: Seq<u8>) -> Option<FileView> {
    decode_file_from(bytes, empty_file())
}

/// True when the file can be written: its number fits 32 bits signed and
/// the length of its address fits 64 bits. This holds of every `File`.
pub open spec fn file_encodable(file: FileView) -> bool {
    &&& -0x8000_0000 <= file.id < 0x8000_0000
    &&& encode_utf8(file.path).len() <= u64::MAX
}

/// Reading a signed 32-bit field sets the number and goes on with the rest.
proof fn lemma_decode_file_id(id: int, rest: Seq<u8>, acc: FileView)
    requires
        -0x8000_0000 <= id < 0x8000_0000,
    ensures
        decode_file_from(int32_field(FILE_ID as nat, id) + rest, acc) == decode_file_from(
            rest,
            FileView { id: if id == 0 { acc.id } else { id }, path: acc.path },
        ),
{
    if id == 0 {
        assert(int32_field(FILE_ID as nat, id) + rest =~= rest);
    } else {
        let head = varint_field(FILE_ID as nat, sign_extended(id));
        lemma_parse_varint_field(FILE_ID as nat, sign_extended(id), rest);
        lemma_low_int32(id);
        lemma_parse_field_len(head + rest);
        assert((head + rest).skip(head.len() as int) =~= rest);
    }
}

/// Reading a text field sets the text and goes on with the rest.
proof fn lemma_decode_file_path(path: Seq<char>, rest: Seq<u8>, acc: FileView)
    requires
        encode_utf8(path).len() <= u64::MAX,
    ensures
        decode_file_from(string_field(FILE_PATH as nat, path) + rest, acc) == decode_file_from(
            rest,
            FileView { id: acc.id, path: if path.len() == 0 { acc.path } else { path } },
        ),
{
    if path.len() == 0 {
        assert(string_field(FILE_PATH as nat, path) + rest =~= rest);
    } else {
        let payload = encode_utf8(path);
        let head = bytes_field(FILE_PATH as nat, payload);
        lemma_parse_bytes_field(FILE_PATH as nat, payload, rest);
        encode_utf8_valid_utf8(path);
        encode_utf8_decode_utf8(path);
        lemma_parse_field_len(head + rest);
        assert((head + rest).skip(head.len() as int) =~= rest);
    }
}

/// Decoding the encoding of a file gives the file back.
pub proof fn lemma_file_round_trip(file: FileView)
    requires
        file_encodable(file),
    ensures
        decode_file(encode_file(file)) == Some(file),
{
    let tail = string_field(FILE_PATH as nat, file.path);
    lemma_decode_file_id(file.id, tail, empty_file());
    let mid = FileView { id: file.id, path: Seq::empty() };
    assert(tail =~= tail + Seq::<u8>::empty());
    lemma_decode_file_path(file.path, Seq::empty(), mid);
    assert(file.path.len() == 0 ==> file.path =~= Seq::<char>::empty());
}

impl File {
    /// Appends the encoding of this file to `out`.
    pub fn write_to(&self, out: &mut Vec<u8>)
        ensures
            final(out)@ == old(out)@ + encode_file(self@),
            file_encodable(self@),
    {
        put_int32(out, FILE_ID, self.id);
        put_string(out, FILE_PATH, self.path.as_str());
        assert(out@ =~= old(out)@ + encode_file(self@));
    }

    /// The encoding of this file, which decodes to this file.
    pub fn write_to_bytes(&self) -> (bytes: Vec<u8>)
        ensures
            bytes@ == encode_file(self@),
            decode_file(bytes@) == Some(self@),
            file_encodable(self@),
    {
        let mut bytes: Vec<u8> = Vec::new();
        self.write_to(&mut bytes);
        assert(bytes@ =~= encode_file(self@));
        proof {
            lemma_file_round_trip(self@);
        }
        bytes
    }

    /// Decodes a file. Gives `None` exactly when `bytes` encode no file.
    pub fn parse_from_bytes(bytes: &[u8]) -> (r: Option<File>)
        ensures
            match r {
                Some(file) => decode_file(bytes@) == Some(file@),
                None => decode_file(bytes@) is None,
            },
    {
        let mut file = File { id: 0, path: String::new() };
        let mut at: usize = 0;
        assert(bytes@.skip(0) =~= bytes@);
        assert(file@ == empty_file());
        while at < bytes.len()
            invariant
                at <= bytes@.len(),
                decode_file(bytes@) == decode_file_from(bytes@.skip(at as int), file@),
            decreases bytes@.len() - at,
        {
            let ghost rest = bytes@.skip(at as int);
            proof {
                lemma_parse_field_len(rest);
            }
            let field = match read_field(bytes, at) {
                Some(field) => field,
                None => {
                    return None;
                },
            };
            let ghost view = parse_field(rest)->0;
            if field.number == FILE_ID as u64 {
                match field.value {
                    FieldValue::Varint(v) => {
                        file.id = int32_of(v);
                    },
                    _ => {
                        return None;
                    },
                }
            } else if field.number == FILE_PATH as u64 {
                match field.value {
                    FieldValue::Bytes { start, end } => {
                        let payload = slice_to_vec(slice_subrange(bytes, start, end));
                        match string_from_utf8(payload) {
                            Some(text) => {
                                file.path = text;
                            },
                            None => {
                                return None;
                            },
                        }
                    },
                    _ => {
                        return None;
                    },
                }
            }
            assert(bytes@.skip(field.next as int) =~= rest.skip(view.len as int));
            at = field.next;
        }
        Some(file)
    }
}

/// The encodings of `files` as the targets of an operation, one field each.
pub open spec fn encode_targets(files: Seq<FileView>) -> Seq<u8>
    decreases files.len(),
{
    if files.len() == 0 {
        Seq::empty()
    } else {
        bytes_field(OP_TARGETS as nat, encode_file(files[0])) + encode_targets(files.skip(1))
    }
}

/// The encoding of an operation.
pub open spec fn encode_op(op: OpView) -> Seq<u8> {
    string_field(OP_STATEMENT as nat, op.statement) + int32_field(
        OP_SEQUENCE as nat,
        op.op_sequence_num,
    ) + encode_targets(op.targets)
}

/// The operation with no field set.
pub open spec fn empty_op() -> OpView {
    OpView { statement: Seq::empty(), op_sequence_num: 0, targets: Seq::empty() }
}

/// The operation `acc` after reading `field`, or `None` if the field is
/// rejected.
pub open spec fn op_with(acc: OpView, field: FieldView) -> Option<OpView> {
    if field.number == OP_STATEMENT {
        match field.value {
            WireValue::Bytes(b) => match text_of(b) {
                Some(text) => Some(OpView { statement: text, ..acc }),
                None => None,
            },
            _ => None,
        }
    } else if field.number == OP_SEQUENCE {
        match field.value {
            WireValue::Varint(v) => Some(OpView { op_sequence_num: low_int32(v), ..acc }),
            _ => None,
        }
    } else if field.number == OP_TARGETS {
        match field.value {
            WireValue::Bytes(b) => match decode_file(b) {
                Some(file) => Some(OpView { targets: acc.targets.push(file), ..acc }),
                None => None,
            },
            _ => None,
        }
    } else {
        Some(acc)
    }
}

/// Reads the fields of `bytes` into `acc`, front to back.
pub open spec fn decode_op_from(bytes: Seq<u8>, acc: OpView) -> Option<OpView>
    decreases bytes.len(),
    via decode_op_from_decreases
{
    if bytes.len() == 0 {
        Some(acc)
    } else {
        match parse_field(bytes) {
            None => None,
            Some(field) => match op_with(acc, field) {
                None => None,
                Some(next) => decode_op_from(bytes.skip(field.len as int), next),
            },
        }
    }
}

#[via_fn]
proof fn decode_op_from_decreases(bytes: Seq<u8>, acc: OpView) {
    lemma_parse_field_len(bytes);
}

/// The operation that `bytes` encode, or `None` if they encode none.
pub open spec fn decode_op(bytes: Seq<u8>) -> Option<OpView> {
    decode_op_from(bytes, empty_op())
}

/// True when each file can be written and the length of its encoding fits 64
/// bits.
pub open spec fn targets_encodable(files: Seq<FileView>) -> bool {
    forall|i: int|
        0 <= i < files.len() ==> file_encodable(#[trigger] files[i]) && encode_file(files[i]).len()
            <= u64::MAX
}

/// True when the operation can be written. This holds of every `Op` that
/// fits in memory.
pub open spec fn op_encodable(op: OpView) -> bool {
    &&& -0x8000_0000 <= op.op_sequence_num < 0x8000_0000
    &&& encode_utf8(op.statement).len() <= u64::MAX
    &&& targets_encodable(op.targets)
}

/// The targets of a longer list are those of the list, then the new one.
pub proof fn lemma_encode_targets_push(files: Seq<FileView>, file: FileView)
    ensures
        encode_targets(files.push(file)) == encode_targets(files) + bytes_field(
            OP_TARGETS as nat,
            encode_file(file),
        ),
    decreases files.len(),
{
    let longer = files.push(file);
    let one = bytes_field(OP_TARGETS as nat, encode_file(file));
    if files.len() == 0 {
        assert(longer.skip(1) =~= Seq::<FileView>::empty());
        assert(encode_targets(longer.skip(1)) =~= Seq::<u8>::empty());
        assert(encode_targets(longer) =~= one + Seq::<u8>::empty());
        assert(encode_targets(files) + one =~= one);
    } else {
        assert(longer.skip(1) =~= files.skip(1).push(file));
        lemma_encode_targets_push(files.skip(1), file);
        assert(encode_targets(longer) =~= encode_targets(files) + one);
    }
}

/// Reading the statement sets it and goes on with the rest.
proof fn lemma_decode_op_statement(text: Seq<char>, rest: Seq<u8>, acc: OpView)
    requires
        encode_utf8(text).len() <= u64::MAX,
    ensures
        decode_op_from(string_field(OP_STATEMENT as nat, text) + rest, acc) == decode_op_from(
            rest,
            OpView { statement: if text.len() == 0 { acc.statement } else { text }, ..acc },
        ),
{
    if text.len() == 0 {
        assert(string_field(OP_STATEMENT as nat, text) + rest =~= rest);
    } else {
        let payload = encode_utf8(text);
        let head = bytes_field(OP_STATEMENT as nat, payload);
        lemma_parse_bytes_field(OP_STATEMENT as nat, payload, rest);
        encode_utf8_valid_utf8(text);
        encode_utf8_decode_utf8(text);
        lemma_parse_field_len(head + rest);
        assert((head + rest).skip(head.len() as int) =~= rest);
    }
}

/// Reading the sequence number sets it and goes on with the rest.
proof fn lemma_decode_op_sequence(number: int, rest: Seq<u8>, acc: OpView)
    requires
        -0x8000_0000 <= number < 0x8000_0000,
    ensures
        decode_op_from(int32_field(OP_SEQUENCE as nat, number) + rest, acc) == decode_op_from(
            rest,
            OpView {
                op_sequence_num: if number == 0 { acc.op_sequence_num } else { number },
                ..acc
            },
        ),
{
    if number == 0 {
        assert(int32_field(OP_SEQUENCE as nat, number) + rest =~= rest);
    } else {
        let head = varint_field(OP_SEQUENCE as nat, sign_extended(number));
        lemma_parse_varint_field(OP_SEQUENCE as nat, sign_extended(number), rest);
        lemma_low_int32(number);
        lemma_parse_field_len(head + rest);
        assert((head + rest).skip(head.len() as int) =~= rest);
    }
}

/// Reading the targets appends them and goes on with the rest.
proof fn lemma_decode_op_targets(files: Seq<FileView>, rest: Seq<u8>, acc: OpView)
    requires
        targets_encodable(files),
    ensures
        decode_op_from(encode_targets(files) + rest, acc) == decode_op_from(
            rest,
            OpView { targets: acc.targets + files, ..acc },
        ),
    decreases files.len(),
{
    if files.len() == 0 {
        assert(encode_targets(files) + rest =~= rest);
        assert(acc.targets + files =~= acc.targets);
    } else {
        let payload = encode_file(files[0]);
        let head = bytes_field(OP_TARGETS as nat, payload);
        let tail = encode_targets(files.skip(1)) + rest;
        assert(encode_targets(files) + rest =~= head + tail);
        lemma_parse_bytes_field(OP_TARGETS as nat, payload, tail);
        lemma_file_round_trip(files[0]);
        lemma_parse_field_len(head + tail);
        assert((head + tail).skip(head.len() as int) =~= tail);
        let next = OpView { targets: acc.targets.push(files[0]), ..acc };
        assert forall|i: int| 0 <= i < files.skip(1).len() implies file_encodable(
            #[trigger] files.skip(1)[i],
        ) && encode_file(files.skip(1)[i]).len() <= u64::MAX by {
            assert(files.skip(1)[i] == files[i + 1]);
        }
        lemma_decode_op_targets(files.skip(1), rest, next);
        assert(next.targets + files.skip(1) =~= acc.targets + files);
    }
}

/// Decoding the encoding of an operation gives the operation back.
pub proof fn lemma_op_round_trip(op: OpView)
    requires
        op_encodable(op),
    ensures
        decode_op(encode_op(op)) == Some(op),
{
    let sequence = int32_field(OP_SEQUENCE as nat, op.op_sequence_num);
    let targets = encode_targets(op.targets);
    assert(encode_op(op) =~= string_field(OP_STATEMENT as nat, op.statement) + (sequence
        + targets));
    lemma_decode_op_statement(op.statement, sequence + targets, empty_op());
    let first = OpView { statement: op.statement, ..empty_op() };
    assert(op.statement.len() == 0 ==> op.statement =~= Seq::<char>::empty());
    lemma_decode_op_sequence(op.op_sequence_num, targets, first);
    let second = OpView { op_sequence_num: op.op_sequence_num, ..first };
    assert(targets =~= targets + Seq::<u8>::empty());
    lemma_decode_op_targets(op.targets, Seq::empty(), second);
    assert(second.targets + op.targets =~= op.targets);
}

impl Op {
    /// Appends the encoding of this operation to `out`.
    pub fn write_to(&self, out: &mut Vec<u8>)
        ensures
            final(out)@ == old(out)@ + encode_op(self@),
            op_encodable(self@),
    {
        put_string(out, OP_STATEMENT, self.statement.as_str());
        put_int32(out, OP_SEQUENCE, self.op_sequence_num);
        let ghost head = out@;
        let ghost all = file_views(self.targets@);
        let mut i: usize = 0;
        assert(all.take(0) =~= Seq::<FileView>::empty());
        assert(out@ =~= head + encode_targets(all.take(0)));
        while i < self.targets.len()
            invariant
                i <= self.targets@.len(),
                all == file_views(self.targets@),
                out@ == head + encode_targets(all.take(i as int)),
                targets_encodable(all.take(i as int)),
            decreases self.targets@.len() - i,
        {
            let payload = self.targets[i].write_to_bytes();
            put_bytes(out, OP_TARGETS, payload.as_slice());
            assert(payload@.len() == payload.len());
            proof {
                let before = all.take(i as int);
                lemma_encode_targets_push(before, all[i as int]);
                assert(all.take(i + 1) =~= before.push(all[i as int]));
                assert(out@ =~= head + encode_targets(all.take(i + 1)));
                assert forall|j: int| 0 <= j < i + 1 implies file_encodable(
                    #[trigger] all.take(i + 1)[j],
                ) && encode_file(all.take(i + 1)[j]).len() <= u64::MAX by {
                    if j < i {
                        assert(all.take(i + 1)[j] == before[j]);
                    } else {
                        assert(all.take(i + 1)[j] == self.targets@[i as int]@);
                    }
                }
            }
            i += 1;
        }
        proof {
            assert(all.take(self.targets@.len() as int) =~= all);
            assert(out@ =~= old(out)@ + encode_op(self@));
        }
    }

    /// The encoding of this operation, which decodes to this operation.
    pub fn write_to_bytes(&self) -> (bytes: Vec<u8>)
        ensures
            bytes@ == encode_op(self@),
            decode_op(bytes@) == Some(self@),
            op_encodable(self@),
    {
        let mut bytes: Vec<u8> = Vec::new();
        self.write_to(&mut bytes);
        assert(bytes@ =~= encode_op(self@));
        proof {
            lemma_op_round_trip(self@);
        }
        bytes
    }

    /// Decodes an operation. Gives `None` exactly when `bytes` encode none.
    pub fn parse_from_bytes(bytes: &[u8]) -> (r: Option<Op>)
        ensures
            match r {
                Some(op) => decode_op(bytes@) == Some(op@),
                None => decode_op(bytes@) is None,
            },
    {
        let mut op = Op { statement: String::new(), op_sequence_num: 0, targets: Vec::new() };
        let mut at: usize = 0;
        assert(bytes@.skip(0) =~= bytes@);
        assert(op@.targets =~= Seq::<FileView>::empty());
        assert(op@ == empty_op());
        while at < bytes.len()
            invariant
                at <= bytes@.len(),
                decode_op(bytes@) == decode_op_from(bytes@.skip(at as int), op@),
            decreases bytes@.len() - at,
        {
            let ghost rest = bytes@.skip(at as int);
            let ghost before = op@;
            proof {
                lemma_parse_field_len(rest);
            }
            let field = match read_field(bytes, at) {
                Some(field) => field,
                None => {
                    return None;
                },
            };
            let ghost view = parse_field(rest)->0;
            if field.number == OP_STATEMENT as u64 {
                match field.value {
                    FieldValue::Bytes { start, end } => {
                        let payload = slice_to_vec(slice_subrange(bytes, start, end));
                        match string_from_utf8(payload) {
                            Some(text) => {
                                op.statement = text;
                            },
                            None => {
                                return None;
                            },
                        }
                    },
                    _ => {
                        return None;
                    },
                }
            } else if field.number == OP_SEQUENCE as u64 {
                match field.value {
                    FieldValue::Varint(v) => {
                        op.op_sequence_num = int32_of(v);
                    },
                    _ => {
                        return None;
                    },
                }
            } else if field.number == OP_TARGETS as u64 {
                match field.value {
                    FieldValue::Bytes { start, end } => {
                        match File::parse_from_bytes(slice_subrange(bytes, start, end)) {
                            Some(file) => {
                                op.targets.push(file);
                                assert(op@.targets =~= before.targets.push(file@));
                            },
                            None => {
                                return None;
                            },
                        }
                    },
                    _ => {
                        return None;
                    },
                }
            }
            assert(op_with(before, view) == Some(op@));
            assert(bytes@.skip(field.next as int) =~= rest.skip(view.len as int));
            at = field.next;
        }
        Some(op)
    }
}

/// The encodings of `ops` as the operations of a workload, one field each.
pub open spec fn encode_ops(ops: Seq<OpView>) -> Seq<u8>
    decreases ops.len(),
{
    if ops.len() == 0 {
        Seq::empty()
    } else {
        bytes_field(WORKLOAD_OPS as nat, encode_op(ops[0])) + encode_ops(ops.skip(1))
    }
}

/// The encoding of a workload.
pub open spec fn encode_workload(workload: WorkloadView) -> Seq<u8> {
    encode_ops(workload.ops)
}

/// The workload without operations.
pub open spec fn empty_workload() -> WorkloadView {
    WorkloadView { ops: Seq::empty() }
}

/// The workload `acc` after reading `field`, or `None` if the field is
/// rejected.
pub open spec fn workload_with(acc: WorkloadView, field: FieldView) -> Option<WorkloadView> {
    if field.number == WORKLOAD_OPS {
        match field.value {
            WireValue::Bytes(b) => match decode_op(b) {
                Some(op) => Some(WorkloadView { ops: acc.ops.push(op) }),
                None => None,
            },
            _ => None,
        }
    } else {
        Some(acc)
    }
}

/// Reads the fields of `bytes` into `acc`, front to back.
pub open spec fn decode_workload_from(bytes: Seq<u8>, acc: WorkloadView) -> Option<WorkloadView>
    decreases bytes.len(),
    via decode_workload_from_decreases
{
    if bytes.len() == 0 {
        Some(acc)
    } else {
        match parse_field(bytes) {
            None => None,
            Some(field) => match workload_with(acc, field) {
                None => None,
                Some(next) => decode_workload_from(bytes.skip(field.len as int), next),
            },
        }
    }
}

#[via_fn]
proof fn decode_workload_from_decreases(bytes: Seq<u8>, acc: WorkloadView) {
    lemma_parse_field_len(bytes);
}

/// The workload that `bytes` encode, or `None` if they encode none.
pub open spec fn decode_workload(bytes: Seq<u8>) -> Option<WorkloadView> {
    decode_workload_from(bytes, empty_workload())
}

/// True when each operation can be written and the length of its encoding
/// fits 64 bits.
pub open spec fn ops_encodable(ops: Seq<OpView>) -> bool {
    forall|i: int|
        0 <= i < ops.len() ==> op_encodable(#[trigger] ops[i]) && encode_op(ops[i]).len()
            <= u64::MAX
}

/// True when the workload can be written. This holds of every `Workload`
/// that fits in memory.
pub open spec fn workload_encodable(workload: WorkloadView) -> bool {
    ops_encodable(workload.ops)
}

/// The operations of a longer list are those of the list, then the new one.
pub proof fn lemma_encode_ops_push(ops: Seq<OpView>, op: OpView)
    ensures
        encode_ops(ops.push(op)) == encode_ops(ops) + bytes_field(
            WORKLOAD_OPS as nat,
            encode_op(op),
        ),
    decreases ops.len(),
{
    let longer = ops.push(op);
    let one = bytes_field(WORKLOAD_OPS as nat, encode_op(op));
    if ops.len() == 0 {
        assert(longer.skip(1) =~= Seq::<OpView>::empty());
        assert(encode_ops(longer.skip(1)) =~= Seq::<u8>::empty());
        assert(encode_ops(longer) =~= one + Seq::<u8>::empty());
        assert(encode_ops(ops) + one =~= one);
    } else {
        assert(longer.skip(1) =~= ops.skip(1).push(op));
        lemma_encode_ops_push(ops.skip(1), op);
        assert(encode_ops(longer) =~= encode_ops(ops) + one);
    }
}

/// Reading the operations appends them and goes on with the rest.
proof fn lemma_decode_workload_ops(ops: Seq<OpView>, rest: Seq<u8>, acc: WorkloadView)
    requires
        ops_encodable(ops),
    ensures
        decode_workload_from(encode_ops(ops) + rest, acc) == decode_workload_from(
            rest,
            WorkloadView { ops: acc.ops + ops },
        ),
    decreases ops.len(),
{
    if ops.len() == 0 {
        assert(encode_ops(ops) + rest =~= rest);
        assert(acc.ops + ops =~= acc.ops);
    } else {
        let payload = encode_op(ops[0]);
        let head = bytes_field(WORKLOAD_OPS as nat, payload);
        let tail = encode_ops(ops.skip(1)) + rest;
        assert(encode_ops(ops) + rest =~= head + tail);
        lemma_parse_bytes_field(WORKLOAD_OPS as nat, payload, tail);
        lemma_op_round_trip(ops[0]);
        lemma_parse_field_len(head + tail);
        assert((head + tail).skip(head.len() as int) =~= tail);
        let next = WorkloadView { ops: acc.ops.push(ops[0]) };
        assert forall|i: int| 0 <= i < ops.skip(1).len() implies op_encodable(
            #[trigger] ops.skip(1)[i],
        ) && encode_op(ops.skip(1)[i]).len() <= u64::MAX by {
            assert(ops.skip(1)[i] == ops[i + 1]);
        }
        lemma_decode_workload_ops(ops.skip(1), rest, next);
        assert(next.ops + ops.skip(1) =~= acc.ops + ops);
    }
}

/// Decoding the encoding of a workload gives the workload back.
pub proof fn lemma_workload_round_trip(workload: WorkloadView)
    requires
        workload_encodable(workload),
    ensures
        decode_workload(encode_workload(workload)) == Some(workload),
{
    let bytes = encode_ops(workload.ops);
    assert(bytes =~= bytes + Seq::<u8>::empty());
    lemma_decode_workload_ops(workload.ops, Seq::empty(), empty_workload());
    assert(empty_workload().ops + workload.ops =~= workload.ops);
}

impl Workload {
    /// Appends the encoding of this workload to `out`.
    pub fn write_to(&self, out: &mut Vec<u8>)
        ensures
            final(out)@ == old(out)@ + encode_workload(self@),
            workload_encodable(self@),
    {
        let ghost head = out@;
        let ghost all = op_views(self.ops@);
        let mut i: usize = 0;
        assert(all.take(0) =~= Seq::<OpView>::empty());
        assert(out@ =~= head + encode_ops(all.take(0)));
        while i < self.ops.len()
            invariant
                i <= self.ops@.len(),
                all == op_views(self.ops@),
                out@ == head + encode_ops(all.take(i as int)),
                ops_encodable(all.take(i as int)),
            decreases self.ops@.len() - i,
        {
            let payload = self.ops[i].write_to_bytes();
            put_bytes(out, WORKLOAD_OPS, payload.as_slice());
            assert(payload@.len() == payload.len());
            proof {
                let before = all.take(i as int);
                lemma_encode_ops_push(before, all[i as int]);
                assert(all.take(i + 1) =~= before.push(all[i as int]));
                assert(out@ =~= head + encode_ops(all.take(i + 1)));
                assert forall|j: int| 0 <= j < i + 1 implies op_encodable(
                    #[trigger] all.take(i + 1)[j],
                ) && encode_op(all.take(i + 1)[j]).len() <= u64::MAX by {
                    if j < i {
                        assert(all.take(i + 1)[j] == before[j]);
                    } else {
                        assert(all.take(i + 1)[j] == self.ops@[i as int]@);
                    }
                }
            }
            i += 1;
        }
        proof {
            assert(all.take(self.ops@.len() as int) =~= all);
        }
    }

    /// The encoding of this workload, which decodes to this workload.
    pub fn write_to_bytes(&self) -> (bytes: Vec<u8>)
        ensures
            bytes@ == encode_workload(self@),
            decode_workload(bytes@) == Some(self@),
    {
        let mut bytes: Vec<u8> = Vec::new();
        self.write_to(&mut bytes);
        assert(bytes@ =~= encode_workload(self@));
        proof {
            lemma_workload_round_trip(self@);
        }
        bytes
    }

    /// Decodes a workload. Gives `None` exactly when `bytes` encode none.
    pub fn parse_from_bytes(bytes: &[u8]) -> (r: Option<Workload>)
        ensures
            match r {
                Some(workload) => decode_workload(bytes@) == Some(workload@),
                None => decode_workload(bytes@) is None,
            },
    {
        let mut workload = Workload { ops: Vec::new() };
        let mut at: usize = 0;
        assert(bytes@.skip(0) =~= bytes@);
        assert(workload@.ops =~= Seq::<OpView>::empty());
        assert(workload@ == empty_workload());
        while at < bytes.len()
            invariant
                at <= bytes@.len(),
                decode_workload(bytes@) == decode_workload_from(
                    bytes@.skip(at as int),
                    workload@,
                ),
            decreases bytes@.len() - at,
        {
            let ghost rest = bytes@.skip(at as int);
            let ghost before = workload@;
            proof {
                lemma_parse_field_len(rest);
            }
            let field = match read_field(bytes, at) {
                Some(field) => field,
                None => {
                    return None;
                },
            };
            let ghost view = parse_field(rest)->0;
            if field.number == WORKLOAD_OPS as u64 {
                match field.value {
                    FieldValue::Bytes { start, end } => {
                        match Op::parse_from_bytes(slice_subrange(bytes, start, end)) {
                            Some(op) => {
                                workload.ops.push(op);
                                assert(workload@.ops =~= before.ops.push(op@));
                            },
                            None => {
                                return None;
                            },
                        }
                    },
                    _ => {
                        return None;
                    },
                }
            }
            assert(workload_with(before, view) == Some(workload@));
            assert(bytes@.skip(field.next as int) =~= rest.skip(view.len as int));
            at = field.next;
        }
        Some(workload)
    }
}

} // verus!
