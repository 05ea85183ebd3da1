//! File localization: which files a workload needs, where each one lives in
//! object storage, and where it is cached on local disk.
//!
//! Nothing here touches the network or the disk. A plan says which object to
//! fetch, which directories must exist and where the bytes go; the caller
//! carries it out.

use crate::err::{ErrKind, WorkerError};
use crate::text::{chars_of, find_char, first_index, lemma_first_index, views};
use crate::workload::{File, FileView, OpView, Workload};
use std::collections::HashSet;
use vstd::prelude::*;
use vstd::string::StrSliceExecFns;
use vstd::string::StringExecFns;

verus! {

/// The targets of all of `ops`, operation by operation.
pub open spec fn all_targets(ops: Seq<OpView>) -> Seq<FileView>
    decreases ops.len(),
{
    if ops.len() == 0 {
        Seq::empty()
    } else {
        all_targets(ops.drop_last()) + ops.last().targets
    }
}

/// True when one of `files` has the identifier `id`.
pub open spec fn has_id(files: Seq<FileView>, id: int) -> bool {
    exists|i: int| 0 <= i < files.len() && (#[trigger] files[i]).id == id
}

/// `files` without the entries whose identifier an earlier entry has.
pub open spec fn first_seen(files: Seq<FileView>) -> Seq<FileView>
    decreases files.len(),
{
    if files.len() == 0 {
        Seq::empty()
    } else {
        let before = first_seen(files.drop_last());
        if has_id(before, files.last().id) {
            before
        } else {
            before.push(files.last())
        }
    }
}

/// The position of the first of `files` with the identifier `id`, or
/// `files.len()` when there is none.
pub open spec fn first_position(files: Seq<FileView>, id: int) -> int
    decreases files.len(),
{
    if files.len() == 0 || files[0].id == id {
        0
    } else {
        1 + first_position(files.skip(1), id)
    }
}

/// `first_position` is in range, points at a file with the identifier when
/// there is one, and no file before it has the identifier.
pub proof fn lemma_first_position(files: Seq<FileView>, id: int)
    ensures
        0 <= first_position(files, id) <= files.len(),
        first_position(files, id) < files.len() ==> files[first_position(files, id)].id == id,
        forall|j: int| 0 <= j < first_position(files, id) ==> (#[trigger] files[j]).id != id,
        first_position(files, id) < files.len() <==> has_id(files, id),
    decreases files.len(),
{
    if files.len() == 0 || files[0].id == id {
    } else {
        let rest = files.skip(1);
        lemma_first_position(rest, id);
        let k = first_position(rest, id);
        assert forall|j: int| 0 <= j < 1 + k implies (#[trigger] files[j]).id != id by {
            if j > 0 {
                assert(rest[j - 1] == files[j]);
            }
        }
        if k < rest.len() {
            assert(rest[k] == files[k + 1]);
        } else {
            if has_id(files, id) {
                let i = choose|i: int| 0 <= i < files.len() && (#[trigger] files[i]).id == id;
                assert(rest[i - 1].id == id);
            }
        }
    }
}

/// A position that holds the first file with the identifier `id` is
/// `first_position(files, id)`.
pub proof fn lemma_first_position_unique(files: Seq<FileView>, id: int, i: int)
    requires
        0 <= i < files.len(),
        files[i].id == id,
        forall|j: int| 0 <= j < i ==> (#[trigger] files[j]).id != id,
    ensures
        first_position(files, id) == i,
{
    lemma_first_position(files, id);
    let k = first_position(files, id);
    if k < i {
        assert(files[k].id != id);
    }
}

/// The files of `first_seen(files)` are the distinct identifiers of `files`,
/// each exactly once, each with the first file that carries it, in the order
/// in which the identifiers first occur.
pub proof fn lemma_first_seen(files: Seq<FileView>)
    ensures
        forall|id: int| has_id(files, id) <==> has_id(first_seen(files), id),
        forall|i: int, j: int|
            0 <= i < j < first_seen(files).len() ==> (#[trigger] first_seen(files)[i]).id != (
            #[trigger] first_seen(files)[j]).id,
        forall|k: int|
            0 <= k < first_seen(files).len() ==> first_position(
                files,
                (#[trigger] first_seen(files)[k]).id,
            ) < files.len() && files[first_position(files, first_seen(files)[k].id)] == first_seen(
                files,
            )[k],
        forall|i: int, j: int|
            0 <= i < j < first_seen(files).len() ==> first_position(
                files,
                (#[trigger] first_seen(files)[i]).id,
            ) < first_position(files, (#[trigger] first_seen(files)[j]).id),
    decreases files.len(),
{
    let r = first_seen(files);
    if files.len() == 0 {
        assert forall|id: int| has_id(files, id) <==> has_id(r, id) by {}
    } else {
        let init = files.drop_last();
        let last = files.last();
        let before = first_seen(init);
        lemma_first_seen(init);
        // Positions of identifiers already in `init` do not move.
        assert forall|id: int| has_id(init, id) implies first_position(files, id)
            == first_position(init, id) by {
            lemma_first_position(init, id);
            let p = first_position(init, id);
            assert(files[p] == init[p]);
            assert forall|j: int| 0 <= j < p implies (#[trigger] files[j]).id != id by {
                assert(files[j] == init[j]);
            }
            lemma_first_position_unique(files, id, p);
        }
        assert forall|id: int| has_id(files, id) <==> has_id(r, id) by {
            if has_id(files, id) {
                let i = choose|i: int| 0 <= i < files.len() && (#[trigger] files[i]).id == id;
                if i < init.len() {
                    assert(init[i].id == id);
                    assert(has_id(init, id));
                    assert(has_id(before, id));
                    let k = choose|k: int| 0 <= k < before.len() && (#[trigger] before[k]).id == id;
                    assert(r[k].id == id);
                } else {
                    if has_id(before, last.id) {
                    } else {
                        assert(r[before.len() as int].id == id);
                    }
                }
            }
            if has_id(r, id) {
                let k = choose|k: int| 0 <= k < r.len() && (#[trigger] r[k]).id == id;
                if k < before.len() {
                    assert(before[k].id == id);
                    assert(has_id(init, id));
                    let i = choose|i: int| 0 <= i < init.len() && (#[trigger] init[i]).id == id;
                    assert(files[i].id == id);
                } else {
                    assert(files[files.len() - 1].id == id);
                }
            }
        }
        if !has_id(before, last.id) {
            // The new identifier first occurs at the last position.
            assert(!has_id(init, last.id));
            assert forall|j: int| 0 <= j < init.len() implies (#[trigger] files[j]).id
                != last.id by {
                assert(init[j] == files[j]);
            }
            lemma_first_position_unique(files, last.id, files.len() - 1);
            assert forall|i: int, j: int| 0 <= i < j < r.len() implies (#[trigger] r[i]).id != (
            #[trigger] r[j]).id by {
                if j < before.len() {
                    assert(r[i] == before[i] && r[j] == before[j]);
                } else {
                    assert(r[i] == before[i]);
                }
            }
            assert forall|k: int| 0 <= k < r.len() implies first_position(
                files,
                (#[trigger] r[k]).id,
            ) < files.len() && files[first_position(files, r[k].id)] == r[k] by {
                if k < before.len() {
                    assert(r[k] == before[k]);
                    assert(has_id(before, before[k].id));
                    assert(has_id(init, before[k].id));
                    lemma_first_position(init, before[k].id);
                    let p = first_position(init, before[k].id);
                    assert(files[p] == init[p]);
                }
            }
            assert forall|i: int, j: int| 0 <= i < j < r.len() implies first_position(
                files,
                (#[trigger] r[i]).id,
            ) < first_position(files, (#[trigger] r[j]).id) by {
                assert(r[i] == before[i]);
                assert(has_id(before, before[i].id));
                assert(has_id(init, before[i].id));
                lemma_first_position(init, before[i].id);
                if j < before.len() {
                    assert(r[j] == before[j]);
                    assert(has_id(before, before[j].id));
                    assert(has_id(init, before[j].id));
                }
            }
        } else {
            assert forall|k: int| 0 <= k < r.len() implies first_position(
                files,
                (#[trigger] r[k]).id,
            ) < files.len() && files[first_position(files, r[k].id)] == r[k] by {
                assert(has_id(before, before[k].id));
                assert(has_id(init, before[k].id));
                lemma_first_position(init, before[k].id);
                let p = first_position(init, before[k].id);
                assert(files[p] == init[p]);
            }
            assert forall|i: int, j: int| 0 <= i < j < r.len() implies first_position(
                files,
                (#[trigger] r[i]).id,
            ) < first_position(files, (#[trigger] r[j]).id) by {
                assert(has_id(before, before[i].id));
                assert(has_id(before, before[j].id));
                assert(has_id(init, before[i].id));
                assert(has_id(init, before[j].id));
            }
        }
    }
}

/// The files behind `refs` as plain values.
pub open spec fn ref_views(refs: Seq<&File>) -> Seq<FileView> {
    Seq::new(refs.len(), |i: int| refs[i]@)
}

/// Returns every file of a workload once: of the files that share an
/// identifier, the first one, in the order in which the identifiers first
/// occur across the operations.
pub fn get_workload_files(workload: &Workload) -> (files: Vec<&File>)
    ensures
        ref_views(files@) == first_seen(all_targets(workload@.ops)),
{
    broadcast use vstd::std_specs::hash::group_hash_axioms;

    let mut files: Vec<&File> = Vec::new();
    let mut file_ids: HashSet<i32> = HashSet::new();
    let ghost ops = workload@.ops;
    let ghost mut seen: Seq<FileView> = Seq::empty();
    let mut i: usize = 0;
    assert(ops.take(0) =~= Seq::<OpView>::empty());
    assert(ref_views(files@) =~= first_seen(seen));
    while i < workload.ops.len()
        invariant
            i <= workload.ops@.len(),
            ops == workload@.ops,
            seen == all_targets(ops.take(i as int)),
            ref_views(files@) == first_seen(seen),
            forall|id: i32| file_ids@.contains(id) <==> has_id(first_seen(seen), id as int),
        decreases workload.ops@.len() - i,
    {
        let op = &workload.ops[i];
        let ghost targets = ops[i as int].targets;
        let ghost start = seen;
        let mut j: usize = 0;
        assert(start + targets.take(0) =~= start);
        while j < op.targets.len()
            invariant
                j <= op.targets@.len(),
                op == &workload.ops@[i as int],
                i < workload.ops@.len(),
                ops == workload@.ops,
                targets == ops[i as int].targets,
                targets.len() == op.targets@.len(),
                seen == start + targets.take(j as int),
                ref_views(files@) == first_seen(seen),
                forall|id: i32| file_ids@.contains(id) <==> has_id(first_seen(seen), id as int),
            decreases op.targets@.len() - j,
        {
            let file = &op.targets[j];
            let ghost longer = seen.push(file@);
            proof {
                assert(targets[j as int] == file@);
                assert(longer.drop_last() =~= seen);
                assert(longer =~= start + targets.take(j + 1));
            }
            if !file_ids.contains(&file.id) {
                files.push(file);
                file_ids.insert(file.id);
                proof {
                    assert(ref_views(files@) =~= first_seen(seen).push(file@));
                    let r = first_seen(longer);
                    assert forall|id: i32| file_ids@.contains(id) <==> has_id(
                        r,
                        id as int,
                    ) by {
                        if has_id(r, id as int) {
                            let k = choose|k: int| 0 <= k < r.len() && (#[trigger] r[k]).id == id;
                            if k < r.len() - 1 {
                                assert(first_seen(seen)[k].id == id);
                            }
                        }
                        if file_ids@.contains(id) {
                            if id == file.id {
                                assert(r[r.len() - 1].id == id);
                            } else {
                                let k = choose|k: int|
                                    0 <= k < first_seen(seen).len() && (#[trigger] first_seen(
                                        seen,
                                    )[k]).id == id;
                                assert(r[k].id == id);
                            }
                        }
                    }
                }
            }
            proof {
                seen = longer;
            }
            j += 1;
        }
        proof {
            assert(targets.take(targets.len() as int) =~= targets);
            assert(ops.take(i + 1).drop_last() =~= ops.take(i as int));
            assert(ops.take(i + 1).last() == ops[i as int]);
        }
        i += 1;
    }
    proof {
        assert(ops.take(workload.ops@.len() as int) =~= ops);
    }
    files
}

/// The root of the on-disk cache, with a trailing slash.
pub open spec fn cache_dir() -> Seq<char> {
    "/tmp/mini-cluster-worker/cache/"@
}

/// Returns the cache directory path. The directory need not exist yet.
pub fn get_cache_dir() -> (dir: String)
    ensures
        dir@ == cache_dir(),
{
    String::from_str("/tmp/mini-cluster-worker/cache/")
}

/// The prefix of every object address.
pub open spec fn scheme() -> Seq<char> {
    seq!['s', '3', ':', '/', '/']
}

/// True when `address` starts with the scheme.
pub open spec fn has_scheme(address: Seq<char>) -> bool {
    address.len() >= 5 && address.take(5) == scheme()
}

/// True when `address` is the scheme, a bucket, a `/` and a key: that is,
/// when a `/` follows the scheme somewhere.
pub open spec fn valid_address(address: Seq<char>) -> bool {
    has_scheme(address) && address.skip(5).contains('/')
}

/// The bucket of `address`: what stands between the scheme and the first
/// `/` after it.
pub open spec fn address_bucket(address: Seq<char>) -> Seq<char> {
    address.skip(5).take(first_index(address.skip(5), '/'))
}

/// The key of `address`: everything after the first `/` that follows the
/// scheme, later slashes included.
pub open spec fn address_key(address: Seq<char>) -> Seq<char> {
    address.skip(5).skip(first_index(address.skip(5), '/') + 1)
}

/// The message for an address without the scheme.
pub open spec fn scheme_message() -> Seq<char> {
    "Error: path is not an S3 path."@
}

/// The message for an address without a key.
pub open spec fn target_message(address: Seq<char>) -> Seq<char> {
    "Illegal S3 target "@ + address.skip(5) + ": path must point to a bucket object!"@
}

/// The error that rejects `address`, as its kind and message.
pub open spec fn address_error(address: Seq<char>) -> (ErrKind, Seq<char>) {
    if !has_scheme(address) {
        (ErrKind::AWSError, scheme_message())
    } else {
        (ErrKind::AWSError, target_message(address))
    }
}

/// The parts of an object address.
#[derive(Debug, PartialEq, Eq)]
pub struct ObjectAddress {
    pub bucket: String,
    pub object: String,
}

impl ObjectAddress {
    /// The part named `key`: `"bucket"` or `"object"`.
    pub fn get(&self, key: &str) -> (part: Option<&String>)
        ensures
            part == if key@ == "bucket"@ {
                Some(&self.bucket)
            } else if key@ == "object"@ {
                Some(&self.object)
            } else {
                None
            },
    {
        let name = String::from_str(key);
        if name == String::from_str("bucket") {
            Some(&self.bucket)
        } else if name == String::from_str("object") {
            Some(&self.object)
        } else {
            None
        }
    }
}

/// Splits an object address into bucket and key. Fails with an `AWSError`
/// exactly when the address lacks the scheme or has no `/` after the bucket.
pub fn parse_file_path(path: &str) -> (r: Result<ObjectAddress, WorkerError>)
    ensures
        match r {
            Ok(address) => valid_address(path@) && address.bucket@ == address_bucket(path@)
                && address.object@ == address_key(path@),
            Err(e) => !valid_address(path@) && (e.spec_kind(), e.spec_message()) == address_error(
                path@,
            ),
        },
{
    let chars = chars_of(path);
    let n = chars.len();
    if !(n >= 5 && chars[0] == 's' && chars[1] == '3' && chars[2] == ':' && chars[3] == '/'
        && chars[4] == '/') {
        proof {
            if path@.len() >= 5 {
                assert(path@.take(5)[0] == path@[0]);
                assert(path@.take(5)[1] == path@[1]);
                assert(path@.take(5)[2] == path@[2]);
                assert(path@.take(5)[3] == path@[3]);
                assert(path@.take(5)[4] == path@[4]);
            }
        }
        return Err(WorkerError::new(ErrKind::AWSError, "Error: path is not an S3 path."));
    }
    assert(path@.take(5) =~= scheme());
    let rest = path.substring_char(5, n);
    assert(rest@ == path@.skip(5)) by {
        assert(path@.subrange(5, n as int) =~= path@.skip(5));
    }
    let rest_chars = chars_of(rest);
    proof {
        lemma_first_index(rest@, '/');
    }
    match find_char(&rest_chars, '/') {
        None => {
            let mut message = String::from_str("Illegal S3 target ");
            message.append(rest);
            message.append(": path must point to a bucket object!");
            Err(WorkerError::new(ErrKind::AWSError, message.as_str()))
        },
        Some(at) => {
            let bucket = String::from_str(rest.substring_char(0, at));
            let object = String::from_str(rest.substring_char(at + 1, rest_chars.len()));
            proof {
                assert(rest@.subrange(0, at as int) =~= rest@.take(at as int));
                assert(rest@.subrange(at + 1, rest@.len() as int) =~= rest@.skip(at + 1));
            }
            Ok(ObjectAddress { bucket, object })
        },
    }
}

/// The base directory of the worker, with a trailing slash.
pub open spec fn base_dir() -> Seq<char> {
    "/tmp/mini-cluster-worker/"@
}

/// The cache directory of `bucket`.
pub open spec fn bucket_cache_dir(bucket: Seq<char>) -> Seq<char> {
    cache_dir() + bucket
}

/// The directories that must exist before an object of `bucket` is cached,
/// each one inside the one before it.
pub open spec fn cache_dirs(bucket: Seq<char>) -> Seq<Seq<char>> {
    seq![base_dir(), cache_dir(), bucket_cache_dir(bucket)]
}

/// The place in the cache of the object `key` of `bucket`.
pub open spec fn cache_path(bucket: Seq<char>, key: Seq<char>) -> Seq<char> {
    bucket_cache_dir(bucket) + "/"@ + key
}

/// The place in the cache of the object that `address` names.
pub open spec fn local_path(address: Seq<char>) -> Seq<char> {
    cache_path(address_bucket(address), address_key(address))
}

/// Returns the cache directory of `bucket`.
pub fn get_bucket_cache_dir(bucket: &str) -> (dir: String)
    ensures
        dir@ == bucket_cache_dir(bucket@),
{
    let mut dir = get_cache_dir();
    dir.append(bucket);
    dir
}

/// Returns the directories to create, outermost first, so that the cache
/// directory of `bucket` exists. Creating one that exists is skipped by the
/// caller, which makes the whole idempotent.
pub fn get_cache_dirs(bucket: &str) -> (dirs: Vec<String>)
    ensures
        views(dirs@) == cache_dirs(bucket@),
{
    let mut dirs: Vec<String> = Vec::new();
    dirs.push(String::from_str("/tmp/mini-cluster-worker/"));
    dirs.push(get_cache_dir());
    dirs.push(get_bucket_cache_dir(bucket));
    assert(views(dirs@) =~= cache_dirs(bucket@));
    dirs
}

/// What to ask of object storage: an object by bucket and key.
#[derive(Debug, PartialEq, Eq)]
pub struct ObjectRequest {
    pub bucket: String,
    pub key: String,
}

/// A request as plain values.
pub struct ObjectRequestView {
    pub bucket: Seq<char>,
    pub key: Seq<char>,
}

impl View for ObjectRequest {
    type V = ObjectRequestView;

    open spec fn view(&self) -> ObjectRequestView {
        ObjectRequestView { bucket: self.bucket@, key: self.key@ }
    }
}

/// How to localize one file: the object to fetch, the directories that must
/// exist, and the path to write the object's bytes to, replacing what is
/// there.
#[derive(Debug, PartialEq, Eq)]
pub struct LocalizePlan {
    pub request: ObjectRequest,
    pub directories: Vec<String>,
    pub destination: String,
}

impl LocalizePlan {
    /// True when this is the plan for the object at `address`.
    pub open spec fn is_for(&self, address: Seq<char>) -> bool {
        &&& self.request@.bucket == address_bucket(address)
        &&& self.request@.key == address_key(address)
        &&& views(self.directories@) == cache_dirs(address_bucket(address))
        &&& self.destination@ == local_path(address)
    }
}

/// Two plans for the same address fetch the same object and write it to the
/// same path: localizing a file again puts it where it was put before.
pub proof fn lemma_localize_again(first: LocalizePlan, second: LocalizePlan, address: Seq<char>)
    requires
        first.is_for(address),
        second.is_for(address),
    ensures
        first.destination@ == second.destination@,
        first.request@ == second.request@,
        views(first.directories@) == views(second.directories@),
{
}

/// Plans the localization of `file`. Fails, as `parse_file_path` does,
/// exactly when the file's address is not valid. The destination depends on
/// the address alone: the same file always goes to the same path.
pub fn localize_plan(file: &File) -> (r: Result<LocalizePlan, WorkerError>)
    ensures
        match r {
            Ok(plan) => valid_address(file@.path) && plan.is_for(file@.path),
            Err(e) => !valid_address(file@.path) && (e.spec_kind(), e.spec_message())
                == address_error(file@.path),
        },
{
    let address = match parse_file_path(file.path.as_str()) {
        Ok(address) => address,
        Err(e) => {
            return Err(e);
        },
    };
    let directories = get_cache_dirs(address.bucket.as_str());
    let mut destination = get_bucket_cache_dir(address.bucket.as_str());
    destination.append("/");
    destination.append(address.object.as_str());
    Ok(
        LocalizePlan {
            request: ObjectRequest { bucket: address.bucket, key: address.object },
            directories,
            destination,
        },
    )
}

/// The storage port: the one operation the worker needs of object storage.
pub trait WorkerS3ClientTrait {
    /// True when the port may answer `input` with `result`. A port that
    /// does not say otherwise may answer with anything.
    open spec fn may_return(
        &self,
        input: ObjectRequestView,
        result: Result<Vec<u8>, WorkerError>,
    ) -> bool {
        true
    }

    /// Fetches the bytes of an object, or fails with a storage error.
    fn _get_object(&self, input: &ObjectRequest) -> (result: Result<Vec<u8>, WorkerError>)
        ensures
            self.may_return(input@, result),
    ;
}

/// A storage port that answers every request with the same three bytes.
#[derive(Debug, PartialEq, Eq)]
pub struct WorkerS3ClientMock {}

impl WorkerS3ClientTrait for WorkerS3ClientMock {
    open spec fn may_return(
        &self,
        input: ObjectRequestView,
        result: Result<Vec<u8>, WorkerError>,
    ) -> bool {
        result matches Ok(bytes) && bytes@ == seq![1u8, 2u8, 3u8]
    }

    fn _get_object(&self, input: &ObjectRequest) -> (result: Result<Vec<u8>, WorkerError>) {
        let mut bytes: Vec<u8> = Vec::new();
        bytes.push(1);
        bytes.push(2);
        bytes.push(3);
        assert(bytes@ =~= seq![1u8, 2u8, 3u8]);
        Ok(bytes)
    }
}

/// Holds the storage port, so that a test double can stand in for the
/// network client.
pub struct WorkerS3ClientAdapter<T: WorkerS3ClientTrait> {
    pub client: T,
}

impl<T: WorkerS3ClientTrait> WorkerS3ClientAdapter<T> {
    /// Fetches an object through the port and hands back what the port
    /// answers.
    pub fn get_object(&self, req: &ObjectRequest) -> (result: Result<Vec<u8>, WorkerError>)
        ensures
            self.client.may_return(req@, result),
    {
        self.client._get_object(req)
    }
}

/// The number of leading `addresses` that are valid.
pub open spec fn valid_count(addresses: Seq<Seq<char>>) -> int
    decreases addresses.len(),
{
    if addresses.len() == 0 || !valid_address(addresses[0]) {
        0
    } else {
        1 + valid_count(addresses.skip(1))
    }
}

/// `valid_count` is in range, every address before it is valid, and the
/// address at it, if any, is not.
pub proof fn lemma_valid_count(addresses: Seq<Seq<char>>)
    ensures
        0 <= valid_count(addresses) <= addresses.len(),
        forall|j: int| 0 <= j < valid_count(addresses) ==> valid_address(#[trigger] addresses[j]),
        valid_count(addresses) < addresses.len() ==> !valid_address(
            addresses[valid_count(addresses)],
        ),
    decreases addresses.len(),
{
    if addresses.len() == 0 || !valid_address(addresses[0]) {
    } else {
        let rest = addresses.skip(1);
        lemma_valid_count(rest);
        let k = valid_count(rest);
        assert forall|j: int| 0 <= j < 1 + k implies valid_address(#[trigger] addresses[j]) by {
            if j > 0 {
                assert(rest[j - 1] == addresses[j]);
            }
        }
        if k < rest.len() {
            assert(rest[k] == addresses[k + 1]);
        }
    }
}

/// The addresses of `files`.
pub open spec fn addresses(files: Seq<FileView>) -> Seq<Seq<char>> {
    Seq::new(files.len(), |i: int| files[i].path)
}

/// How to localize all the files of a workload: the files, each once; one
/// plan for each file up to the first whose address is not valid; and the
/// error to report once those plans are carried out, if there is such a file.
pub struct LocalizeAllPlan<'a> {
    pub files: Vec<&'a File>,
    pub plans: Vec<LocalizePlan>,
    pub failure: Option<WorkerError>,
}

impl<'a> LocalizeAllPlan<'a> {
    /// True when this is the plan for `workload`.
    pub open spec fn is_for(&self, workload: &Workload) -> bool {
        let files = first_seen(all_targets(workload@.ops));
        let ready = valid_count(addresses(files));
        &&& ref_views(self.files@) == files
        &&& self.plans@.len() == ready
        &&& forall|i: int| 0 <= i < ready ==> (#[trigger] self.plans@[i]).is_for(files[i].path)
        &&& match self.failure {
            Some(e) => ready < files.len() && (e.spec_kind(), e.spec_message()) == address_error(
                files[ready].path,
            ),
            None => ready == files.len(),
        }
    }
}

/// Plans the localization of every file of `workload`, each file once, in
/// the order of `get_workload_files`. The local paths, in the same order as
/// the files, are the destinations of the plans. One file with an address
/// that is not valid fails the whole: the plan then ends with its error.
pub fn localize_files_plan<'a>(workload: &'a Workload) -> (plan: LocalizeAllPlan<'a>)
    ensures
        plan.is_for(workload),
{
    let files = get_workload_files(workload);
    let ghost listed = ref_views(files@);
    let ghost all = addresses(listed);
    let mut plans: Vec<LocalizePlan> = Vec::new();
    let mut failure: Option<WorkerError> = None;
    let mut i: usize = 0;
    while i < files.len()
        invariant_except_break
            failure is None,
        invariant
            i <= files@.len(),
            listed == ref_views(files@),
            all == addresses(listed),
            plans@.len() == i,
            forall|j: int| 0 <= j < i ==> valid_address(#[trigger] all[j]),
            forall|j: int| 0 <= j < i ==> (#[trigger] plans@[j]).is_for(listed[j].path),
        ensures
            i <= files@.len(),
            plans@.len() == i,
            forall|j: int| 0 <= j < i ==> valid_address(#[trigger] all[j]),
            forall|j: int| 0 <= j < i ==> (#[trigger] plans@[j]).is_for(listed[j].path),
            match failure {
                Some(e) => i < files@.len() && !valid_address(all[i as int]) && (
                    e.spec_kind(),
                    e.spec_message(),
                ) == address_error(listed[i as int].path),
                None => i == files@.len(),
            },
        decreases files@.len() - i,
    {
        assert(all[i as int] == files@[i as int]@.path);
        match localize_plan(files[i]) {
            Ok(plan) => {
                plans.push(plan);
            },
            Err(e) => {
                failure = Some(e);
                break ;
            },
        }
        i += 1;
    }
    proof {
        lemma_valid_count(all);
        let k = valid_count(all);
        if k < i {
            assert(valid_address(all[k]));
        }
        if i < k {
            assert(valid_address(all[i as int]));
        }
    }
    LocalizeAllPlan { files, plans, failure }
}

} // verus!
