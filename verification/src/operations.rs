//! Job trackers as long-running operations: the metadata, the outcome and
//! the name under which a tracked job is reported, and the lookup of a job
//! by that name.
use vstd::prelude::*;
use crate::task_id::{decimal, parse_usize, error_message, format_task_id, parse_task_id, IntParseError};

verus! {

/// The gRPC status code of a cancelled call.
pub const CODE_CANCELLED: i32 = 1;

/// The gRPC status code of an internal error.
pub const CODE_INTERNAL: i32 = 13;

/// The state of a tracked job, with the counts of the tasks it is made of.
#[derive(Debug, Clone, Copy, PartialEq, Eq, Structural)]
pub enum TaskStatus {
    /// The job is still being set up.
    Creating,
    /// Some of the job's tasks are still running.
    Running { total_count: usize, pending_count: usize, cpu_nanos: usize },
    /// All of the job's tasks have finished.
    Complete {
        total_count: usize,
        success_count: usize,
        error_count: usize,
        cancelled_count: usize,
        dropped_count: usize,
        cpu_nanos: usize,
        wall_nanos: usize,
    },
}

/// How a finished job ended.
#[derive(Debug, Clone, Copy, PartialEq, Eq, Structural)]
pub enum TaskResult {
    Success,
    Cancelled,
    Dropped,
    Error,
}

/// What a job tracker shows at one moment: the job's identifier, its status,
/// its result once it has one, and the description of the job.
pub struct TrackerSnapshot<J> {
    pub id: usize,
    pub status: TaskStatus,
    pub result: Option<TaskResult>,
    pub job: J,
}

/// The metadata of an operation: the counters of the job's tasks and the
/// description of the job. Counters that the status does not carry are 0.
pub struct OperationMetadata<J> {
    pub cpu_nanos: u64,
    pub total_count: u64,
    pub pending_count: u64,
    pub success_count: u64,
    pub error_count: u64,
    pub cancelled_count: u64,
    pub dropped_count: u64,
    pub wall_nanos: u64,
    pub job: Option<J>,
}

/// A message of any type, named by its type URL.
pub struct Any {
    pub type_url: String,
    pub value: Vec<u8>,
}

/// The status that an operation ended with when it did not succeed.
pub struct Status {
    pub code: i32,
    pub message: String,
    pub details: Vec<Any>,
}

/// The outcome of a finished operation.
pub enum OperationResult {
    Response(Any),
    Error(Status),
}

/// The metadata of an operation, named by the type URL of its message.
pub struct TypedMetadata<J> {
    pub type_url: String,
    pub value: OperationMetadata<J>,
}

/// A tracked job reported as a long-running operation.
pub struct Operation<J> {
    pub name: String,
    pub metadata: TypedMetadata<J>,
    pub done: bool,
    pub result: Option<OperationResult>,
}

/// Why an operation could not be found.
pub enum OperationError {
    /// The field `field` of the request is invalid.
    InvalidArgument { field: String, description: String },
    /// No resource of type `resource_type` is named `resource_name`.
    NotFound { resource_type: String, resource_name: String },
}

/// The prefix of the type URL of a protobuf message.
pub open spec fn type_url_prefix() -> Seq<char> {
    "type.googleapis.com/"@
}

/// The full name of the protobuf message of operation metadata.
pub open spec fn operation_metadata_type() -> Seq<char> {
    "influxdata.iox.management.v1.OperationMetadata"@
}

/// The metadata of a job with status `status`, described by `job`.
pub open spec fn metadata_of<J>(status: TaskStatus, job: J) -> OperationMetadata<J> {
    match status {
        TaskStatus::Creating => OperationMetadata {
            cpu_nanos: 0,
            total_count: 0,
            pending_count: 0,
            success_count: 0,
            error_count: 0,
            cancelled_count: 0,
            dropped_count: 0,
            wall_nanos: 0,
            job: Some(job),
        },
        TaskStatus::Running { total_count, pending_count, cpu_nanos } => OperationMetadata {
            cpu_nanos: cpu_nanos as u64,
            total_count: total_count as u64,
            pending_count: pending_count as u64,
            success_count: 0,
            error_count: 0,
            cancelled_count: 0,
            dropped_count: 0,
            wall_nanos: 0,
            job: Some(job),
        },
        TaskStatus::Complete {
            total_count,
            success_count,
            error_count,
            cancelled_count,
            dropped_count,
            cpu_nanos,
            wall_nanos,
        } => OperationMetadata {
            cpu_nanos: cpu_nanos as u64,
            total_count: total_count as u64,
            pending_count: 0,
            success_count: success_count as u64,
            error_count: error_count as u64,
            cancelled_count: cancelled_count as u64,
            dropped_count: dropped_count as u64,
            wall_nanos: wall_nanos as u64,
            job: Some(job),
        },
    }
}

/// The type URL of the empty message that a successful operation answers.
pub open spec fn empty_type_url() -> Seq<char> {
    "type.googleapis.com/google.protobuf.Empty"@
}

/// The status code and message that an unsuccessful job result is reported
/// with.
pub open spec fn failure_of(result: TaskResult) -> (i32, Seq<char>) {
    match result {
        TaskResult::Success => (0, Seq::empty()),
        TaskResult::Cancelled => (CODE_CANCELLED, "Job cancelled"@),
        TaskResult::Dropped => (CODE_INTERNAL, "Job did not run to completion, possible panic"@),
        TaskResult::Error => (CODE_INTERNAL, "Job returned an error"@),
    }
}

/// Whether `r` reports the job result `result`: no outcome while the job
/// has none; the empty message for a success; otherwise an error status with
/// the code and message of `failure_of` and no details.
pub open spec fn reports_result(r: Option<OperationResult>, result: Option<TaskResult>) -> bool {
    match result {
        None => r is None,
        Some(TaskResult::Success) => match r {
            Some(OperationResult::Response(any)) => any.type_url@ == empty_type_url()
                && any.value@ == Seq::<u8>::empty(),
            _ => false,
        },
        Some(res) => match r {
            Some(OperationResult::Error(status)) => status.code == failure_of(res).0
                && status.message@ == failure_of(res).1 && status.details@.len() == 0,
            _ => false,
        },
    }
}

/// A snapshot as a tracker takes it: a job has a result exactly when it is
/// complete.
pub open spec fn is_consistent<J>(t: TrackerSnapshot<J>) -> bool {
    t.result is Some <==> t.status is Complete
}

/// Whether `op` is the operation that reports the tracker snapshot `t`.
pub open spec fn reports_tracker<J>(op: Operation<J>, t: TrackerSnapshot<J>) -> bool {
    &&& op.name@ == decimal(t.id as nat)
    &&& op.metadata.type_url@ == type_url_prefix() + operation_metadata_type()
    &&& op.metadata.value == metadata_of(t.status, t.job)
    &&& op.done == t.result is Some
    &&& reports_result(op.result, t.result)
}

/// Whether `m` carries each counter of `status` in the field of the same
/// name, with 0 in the fields that the status has no counter for, and the
/// job's description.
pub open spec fn carries_counters<J>(status: TaskStatus, job: J, m: OperationMetadata<J>) -> bool {
    &&& m.job == Some(job)
    &&& status is Creating ==> m.cpu_nanos == 0 && m.total_count == 0 && m.pending_count == 0
        && m.success_count == 0 && m.error_count == 0 && m.cancelled_count == 0 && m.dropped_count
        == 0 && m.wall_nanos == 0
    &&& status matches TaskStatus::Running { total_count, pending_count, cpu_nanos } ==> m.total_count
        == total_count && m.pending_count == pending_count && m.cpu_nanos == cpu_nanos
        && m.success_count == 0 && m.error_count == 0 && m.cancelled_count == 0 && m.dropped_count
        == 0 && m.wall_nanos == 0
    &&& status matches TaskStatus::Complete {
        total_count,
        success_count,
        error_count,
        cancelled_count,
        dropped_count,
        cpu_nanos,
        wall_nanos,
    } ==> m.total_count == total_count && m.success_count == success_count && m.error_count
        == error_count && m.cancelled_count == cancelled_count && m.dropped_count == dropped_count
        && m.cpu_nanos == cpu_nanos && m.wall_nanos == wall_nanos && m.pending_count == 0
}

/// The metadata of a job carries each of the status's counters in the field
/// of the same name, unchanged, and 0 in every other counter.
pub proof fn lemma_metadata_carries_counters<J>(status: TaskStatus, job: J)
    ensures
        carries_counters(status, job, metadata_of(status, job)),
{
}

/// The metadata of a job with status `status`, described by `job`.
pub fn operation_metadata<J>(status: TaskStatus, job: J) -> (r: OperationMetadata<J>)
    ensures
        r == metadata_of(status, job),
        carries_counters(status, job, r),
{
    match status {
        TaskStatus::Creating => OperationMetadata {
            cpu_nanos: 0,
            total_count: 0,
            pending_count: 0,
            success_count: 0,
            error_count: 0,
            cancelled_count: 0,
            dropped_count: 0,
            wall_nanos: 0,
            job: Some(job),
        },
        TaskStatus::Running { total_count, pending_count, cpu_nanos } => OperationMetadata {
            cpu_nanos: cpu_nanos as u64,
            total_count: total_count as u64,
            pending_count: pending_count as u64,
            success_count: 0,
            error_count: 0,
            cancelled_count: 0,
            dropped_count: 0,
            wall_nanos: 0,
            job: Some(job),
        },
        TaskStatus::Complete {
            total_count,
            success_count,
            error_count,
            cancelled_count,
            dropped_count,
            cpu_nanos,
            wall_nanos,
        } => OperationMetadata {
            cpu_nanos: cpu_nanos as u64,
            total_count: total_count as u64,
            pending_count: 0,
            success_count: success_count as u64,
            error_count: error_count as u64,
            cancelled_count: cancelled_count as u64,
            dropped_count: dropped_count as u64,
            wall_nanos: wall_nanos as u64,
            job: Some(job),
        },
    }
}

/// An error status with code `code` and message `message`.
fn error_status(code: i32, message: &str) -> (r: OperationResult)
    ensures
        r matches OperationResult::Error(s) && s.code == code && s.message@ == message@
            && s.details@.len() == 0,
{
    OperationResult::Error(Status { code, message: String::from_str(message), details: Vec::new() })
}

/// The outcome that a job result is reported with.
pub fn operation_result(result: Option<TaskResult>) -> (r: Option<OperationResult>)
    ensures
        reports_result(r, result),
{
    match result {
        Some(TaskResult::Success) => {
            let url = "type.googleapis.com/google.protobuf.Empty";
            proof {
                reveal_strlit("type.googleapis.com/google.protobuf.Empty");
            }
            Some(OperationResult::Response(Any { type_url: String::from_str(url), value: Vec::new() }))
        },
        Some(TaskResult::Cancelled) => {
            let m = "Job cancelled";
            proof {
                reveal_strlit("Job cancelled");
            }
            Some(error_status(CODE_CANCELLED, m))
        },
        Some(TaskResult::Dropped) => {
            let m = "Job did not run to completion, possible panic";
            proof {
                reveal_strlit("Job did not run to completion, possible panic");
            }
            Some(error_status(CODE_INTERNAL, m))
        },
        Some(TaskResult::Error) => {
            let m = "Job returned an error";
            proof {
                reveal_strlit("Job returned an error");
            }
            Some(error_status(CODE_INTERNAL, m))
        },
        None => None,
    }
}

/// The type URL of the protobuf message with the full name `protobuf_type`.
pub fn protobuf_type_url(protobuf_type: &str) -> (r: String)
    ensures
        r@ == type_url_prefix() + protobuf_type@,
{
    let prefix = "type.googleapis.com/";
    proof {
        reveal_strlit("type.googleapis.com/");
    }
    let mut url = String::from_str(prefix);
    url.append(protobuf_type);
    url
}

/// The type URL of the message of operation metadata.
fn operation_metadata_type_url() -> (r: String)
    ensures
        r@ == type_url_prefix() + operation_metadata_type(),
{
    let name = "influxdata.iox.management.v1.OperationMetadata";
    proof {
        reveal_strlit("influxdata.iox.management.v1.OperationMetadata");
    }
    protobuf_type_url(name)
}

/// The operation that reports a tracked job: named by the job's identifier,
/// with the job's metadata, done once the job has a result, and with the
/// outcome that reports that result.
pub fn encode_tracker<J>(tracker: TrackerSnapshot<J>) -> (r: Operation<J>)
    requires
        is_consistent(tracker),
    ensures
        reports_tracker(r, tracker),
        r.done <==> tracker.status is Complete,
        carries_counters(tracker.status, tracker.job, r.metadata.value),
{
    let TrackerSnapshot { id, status, result, job } = tracker;
    let metadata = TypedMetadata {
        type_url: operation_metadata_type_url(),
        value: operation_metadata(status, job),
    };
    let result = operation_result(result);
    let done = result.is_some();
    proof {
        lemma_metadata_carries_counters(status, job);
    }
    Operation { name: format_task_id(id), metadata, done, result }
}

/// The operations that report the given trackers, in the same order.
pub fn list_operations<J>(trackers: Vec<TrackerSnapshot<J>>) -> (r: Vec<Operation<J>>)
    requires
        forall|i: int| 0 <= i < trackers.len() ==> is_consistent(#[trigger] trackers[i]),
    ensures
        r.len() == trackers.len(),
        forall|i: int| 0 <= i < r.len() ==> #[trigger] reports_tracker(r[i], trackers[i]),
{
    let ghost all = trackers@;
    let mut rest = trackers;
    let mut out: Vec<Operation<J>> = Vec::new();
    while rest.len() > 0
        invariant
            out.len() + rest.len() == all.len(),
            rest@ == all.subrange(out.len() as int, all.len() as int),
            forall|i: int| 0 <= i < all.len() ==> is_consistent(#[trigger] all[i]),
            forall|i: int| 0 <= i < out.len() ==> #[trigger] reports_tracker(out[i], all[i]),
        decreases rest.len(),
    {
        let t = rest.remove(0);
        let ghost k = out.len() as int;
        assert(t == all[k]);
        out.push(encode_tracker(t));
        assert(rest@ =~= all.subrange(out.len() as int, all.len() as int));
    }
    out
}

/// The error that an operation name is reported with when it does not read
/// as a job identifier.
pub open spec fn is_invalid_name_error(r: OperationError, e: IntParseError) -> bool {
    r matches OperationError::InvalidArgument { field, description } && field@ == "name"@
        && description@ == error_message(e)
}

/// The error that an operation name is reported with when no job has the
/// identifier it reads as.
pub open spec fn is_job_not_found(r: OperationError, name: Seq<char>) -> bool {
    r matches OperationError::NotFound { resource_type, resource_name } && resource_type@
        == "job"@ && resource_name@ == name
}

/// Reads the job identifier that an operation is named by.
pub fn parse_operation_name(name: &str) -> (r: Result<usize, OperationError>)
    ensures
        match parse_usize(name@) {
            Ok(v) => r matches Ok(id) && id == v,
            Err(e) => r matches Err(err) && is_invalid_name_error(err, e),
        },
{
    match parse_task_id(name) {
        Ok(id) => Ok(id),
        Err(e) => {
            let f = "name";
            proof {
                reveal_strlit("name");
            }
            Err(OperationError::InvalidArgument { field: String::from_str(f), description: e.description() })
        },
    }
}

/// The job that a lookup by name found, or the error that reports that no
/// job is named `name`.
pub fn found_job<T>(name: String, found: Option<T>) -> (r: Result<T, OperationError>)
    ensures
        match found {
            Some(t) => r matches Ok(x) && x == t,
            None => r matches Err(err) && is_job_not_found(err, name@),
        },
{
    match found {
        Some(t) => Ok(t),
        None => {
            let ty = "job";
            proof {
                reveal_strlit("job");
            }
            Err(OperationError::NotFound { resource_type: String::from_str(ty), resource_name: name })
        },
    }
}

/// Finds the job that the operation named `name` reports: the name must read
/// as a job identifier, and `lookup` must find a job with it.
pub fn get_tracker<T, F: Fn(usize) -> Option<T>>(name: String, lookup: F) -> (r: Result<
    T,
    OperationError,
>)
    requires
        forall|id: usize| lookup.requires((id,)),
    ensures
        match parse_usize(name@) {
            Err(e) => r matches Err(err) && is_invalid_name_error(err, e),
            Ok(v) => exists|found: Option<T>|
                #![trigger lookup.ensures((v as usize,), found)]
                lookup.ensures((v as usize,), found) && match found {
                    Some(t) => r matches Ok(x) && x == t,
                    None => r matches Err(err) && is_job_not_found(err, name@),
                },
        },
{
    let id = match parse_operation_name(name.as_str()) {
        Ok(id) => id,
        Err(e) => return Err(e),
    };
    let found = lookup(id);
    let r = found_job(name, found);
    assert(lookup.ensures((id,), found));
    assert(id == (id as int) as usize);
    r
}

} // verus!
