use iox_util::operations::{
    encode_tracker, found_job, get_tracker, list_operations, operation_metadata,
    operation_result, parse_operation_name, Operation, OperationError, OperationResult,
    TaskResult, TaskStatus, TrackerSnapshot, CODE_CANCELLED, CODE_INTERNAL,
};
use iox_util::task_id::{format_task_id, parse_task_id, IntParseError};

fn snapshot(id: usize, status: TaskStatus, result: Option<TaskResult>) -> TrackerSnapshot<&'static str> {
    TrackerSnapshot { id, status, result, job: "compact chunks" }
}

fn error_of(op: &Operation<&'static str>) -> (i32, String) {
    match &op.result {
        Some(OperationResult::Error(s)) => {
            assert!(s.details.is_empty());
            (s.code, s.message.clone())
        }
        _ => panic!("not an error"),
    }
}

#[test]
fn creating_job_has_no_counters_and_no_result() {
    let op = encode_tracker(snapshot(7, TaskStatus::Creating, None));
    assert_eq!(op.name, "7");
    assert_eq!(op.metadata.type_url, "type.googleapis.com/influxdata.iox.management.v1.OperationMetadata");
    assert!(!op.done);
    assert!(op.result.is_none());
    let m = &op.metadata.value;
    assert_eq!(
        (m.cpu_nanos, m.total_count, m.pending_count, m.success_count, m.error_count, m.cancelled_count, m.dropped_count, m.wall_nanos),
        (0, 0, 0, 0, 0, 0, 0, 0)
    );
    assert_eq!(m.job, Some("compact chunks"));
}

#[test]
fn running_job_reports_running_counters() {
    let status = TaskStatus::Running { total_count: 10, pending_count: 4, cpu_nanos: 1234 };
    let op = encode_tracker(snapshot(42, status, None));
    assert_eq!(op.name, "42");
    assert!(!op.done);
    let m = &op.metadata.value;
    assert_eq!((m.total_count, m.pending_count, m.cpu_nanos), (10, 4, 1234));
    assert_eq!((m.success_count, m.error_count, m.cancelled_count, m.dropped_count, m.wall_nanos), (0, 0, 0, 0, 0));
}

#[test]
fn complete_job_reports_all_counters() {
    let status = TaskStatus::Complete {
        total_count: 9,
        success_count: 5,
        error_count: 1,
        cancelled_count: 2,
        dropped_count: 1,
        cpu_nanos: 77,
        wall_nanos: 88,
    };
    let op = encode_tracker(snapshot(1000, status, Some(TaskResult::Dropped)));
    assert_eq!(op.name, "1000");
    assert!(op.done);
    let m = &op.metadata.value;
    assert_eq!(
        (m.total_count, m.success_count, m.error_count, m.cancelled_count, m.dropped_count, m.cpu_nanos, m.wall_nanos, m.pending_count),
        (9, 5, 1, 2, 1, 77, 88, 0)
    );
    assert_eq!(error_of(&op), (CODE_INTERNAL, "Job did not run to completion, possible panic".to_string()));
}

#[test]
fn results_become_responses_or_statuses() {
    match operation_result(Some(TaskResult::Success)) {
        Some(OperationResult::Response(any)) => {
            assert_eq!(any.type_url, "type.googleapis.com/google.protobuf.Empty");
            assert!(any.value.is_empty());
        }
        _ => panic!("success is a response"),
    }
    let complete = TaskStatus::Complete {
        total_count: 1,
        success_count: 0,
        error_count: 1,
        cancelled_count: 0,
        dropped_count: 0,
        cpu_nanos: 0,
        wall_nanos: 0,
    };
    let done = |r| encode_tracker(snapshot(1, complete, Some(r)));
    assert_eq!(error_of(&done(TaskResult::Cancelled)), (CODE_CANCELLED, "Job cancelled".to_string()));
    assert_eq!(error_of(&done(TaskResult::Error)), (CODE_INTERNAL, "Job returned an error".to_string()));
    assert!(operation_result(None).is_none());
}

#[test]
fn type_urls_name_the_message() {
    assert_eq!(
        iox_util::operations::protobuf_type_url("google.protobuf.Empty"),
        "type.googleapis.com/google.protobuf.Empty"
    );
}

#[test]
fn status_codes_are_the_grpc_codes() {
    assert_eq!(tonic::Code::Cancelled as i32, CODE_CANCELLED);
    assert_eq!(tonic::Code::Internal as i32, CODE_INTERNAL);
}

#[test]
fn metadata_of_each_status() {
    let m = operation_metadata(TaskStatus::Running { total_count: 1, pending_count: 1, cpu_nanos: 0 }, 5u8);
    assert_eq!((m.total_count, m.pending_count, m.job), (1, 1, Some(5u8)));
}

#[test]
fn list_keeps_the_order_of_trackers() {
    let ops = list_operations(vec![
        snapshot(3, TaskStatus::Creating, None),
        snapshot(
            1,
            TaskStatus::Complete {
                total_count: 1,
                success_count: 1,
                error_count: 0,
                cancelled_count: 0,
                dropped_count: 0,
                cpu_nanos: 5,
                wall_nanos: 6,
            },
            Some(TaskResult::Success),
        ),
        snapshot(2, TaskStatus::Creating, None),
    ]);
    let names: Vec<&str> = ops.iter().map(|o| o.name.as_str()).collect();
    assert_eq!(names, vec!["3", "1", "2"]);
    assert_eq!(ops.iter().map(|o| o.done).collect::<Vec<_>>(), vec![false, true, false]);
    assert!(list_operations::<u8>(vec![]).is_empty());
}

#[test]
fn task_ids_are_written_in_decimal() {
    for id in [0usize, 9, 10, 1234567890, usize::MAX] {
        assert_eq!(format_task_id(id), id.to_string());
        assert_eq!(parse_task_id(&format_task_id(id)), Ok(id));
    }
}

#[test]
fn task_ids_are_read_as_std_reads_them() {
    let cases = ["", "+", "-", "-1", "+12", "12", "0012", "1a", "a1", " 1", "1 ", "١",
        "18446744073709551615", "18446744073709551616", "99999999999999999999x", "x99999999999999999999"];
    for s in cases {
        let ours = parse_task_id(s);
        let std = s.parse::<usize>();
        match (ours, std) {
            (Ok(a), Ok(b)) => assert_eq!(a, b, "{:?}", s),
            (Err(e), Err(f)) => assert_eq!(e.description(), f.to_string(), "{:?}", s),
            (a, b) => panic!("{:?}: {:?} vs {:?}", s, a, b),
        }
    }
    assert_eq!(parse_task_id(""), Err(IntParseError::Empty));
    assert_eq!(parse_task_id("+"), Err(IntParseError::InvalidDigit));
    assert_eq!(parse_task_id("99999999999999999999x"), Err(IntParseError::PosOverflow));
}

#[test]
fn bad_operation_names_are_invalid_arguments() {
    match parse_operation_name("job-1") {
        Err(OperationError::InvalidArgument { field, description }) => {
            assert_eq!(field, "name");
            assert_eq!(description, "invalid digit found in string");
        }
        _ => panic!("expected an invalid argument"),
    }
    assert!(matches!(parse_operation_name("17"), Ok(17)));
}

#[test]
fn unknown_jobs_are_not_found() {
    match found_job::<u8>("5".to_string(), None) {
        Err(OperationError::NotFound { resource_type, resource_name }) => {
            assert_eq!(resource_type, "job");
            assert_eq!(resource_name, "5");
        }
        _ => panic!("expected not found"),
    }
    assert!(matches!(found_job("5".to_string(), Some(3u8)), Ok(3)));
}

#[test]
fn get_tracker_parses_then_looks_up() {
    let jobs = |id: usize| if id == 4 { Some("four") } else { None };
    assert!(matches!(get_tracker("4".to_string(), jobs), Ok("four")));
    assert!(matches!(get_tracker("5".to_string(), jobs), Err(OperationError::NotFound { .. })));
    assert!(matches!(get_tracker("".to_string(), jobs), Err(OperationError::InvalidArgument { .. })));
}
