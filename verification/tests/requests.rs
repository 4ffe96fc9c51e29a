use sched_model::array::{IntArray, IntRange};
use sched_model::defs::{
    ArrayDef, JobDef, PinMode, ResourceRequestDef, ResourceRequestDefs, TaskConfigDef, TaskDef,
};
use sched_model::error::ModelError;
use sched_model::human_time::{parse_human_time, resolve_human_time, Duration};
use sched_model::request::{
    deserialize_resource_entries, parse_allocation_request, AllocationRequest, IntOrString,
    ResourceRequestEntries,
};

fn error_text<T: std::fmt::Debug>(r: Result<T, ModelError>) -> String {
    match r {
        Ok(v) => panic!("accepted: {v:?}"),
        Err(e) => {
            assert!(matches!(e, ModelError::DeserializationError(_)));
            e.to_string()
        }
    }
}

fn config(command: &[&str]) -> TaskConfigDef {
    TaskConfigDef {
        command: command.iter().map(|s| s.to_string()).collect(),
        env: Vec::new(),
        request: ResourceRequestDefs::new(Vec::new()),
        stdout: None,
        stderr: None,
        cwd: None,
        pin: PinMode::default(),
        task_dir: false,
        time_limit: None,
        priority: 0,
        crash_limit: 0,
        stdin: None,
    }
}

fn job(tasks: Vec<TaskDef>, array: Option<ArrayDef>) -> JobDef {
    JobDef { name: "job".to_string(), max_fails: None, tasks, array, stream_log: None }
}

fn task() -> TaskDef {
    TaskDef { id: None, config: config(&["sleep", "1"]), deps: Vec::new() }
}

fn array(ids: Option<Vec<IntRange>>, entries: &[&str]) -> ArrayDef {
    ArrayDef {
        ids: ids.map(|ranges| IntArray::new(ranges).unwrap()),
        entries: entries.iter().map(|s| s.to_string()).collect(),
        config: config(&["sleep", "1"]),
    }
}

#[test]
fn test_pin_mode_into() {
    assert_eq!(PinMode::into(&PinMode::Unpinned), sched_model::messages::PinMode::Unpinned);
    assert_eq!(PinMode::into(&PinMode::TaskSet), sched_model::messages::PinMode::TaskSet);
    assert_eq!(PinMode::into(&PinMode::OpenMP), sched_model::messages::PinMode::OpenMP);
    assert_eq!(PinMode::default(), PinMode::Unpinned);
}

#[test]
fn test_parse_allocation_request() {
    assert_eq!(parse_allocation_request("4").unwrap(), AllocationRequest::Compact(4));
    assert_eq!(parse_allocation_request("0").unwrap(), AllocationRequest::Compact(0));
    assert_eq!(parse_allocation_request("007").unwrap(), AllocationRequest::Compact(7));
    assert_eq!(parse_allocation_request("12 compact").unwrap(), AllocationRequest::Compact(12));
    assert_eq!(
        parse_allocation_request("12 compact!").unwrap(),
        AllocationRequest::ForceCompact(12)
    );
    assert_eq!(parse_allocation_request("3 scatter").unwrap(), AllocationRequest::Scatter(3));
    assert_eq!(parse_allocation_request("all").unwrap(), AllocationRequest::All);
    assert_eq!(
        parse_allocation_request("18446744073709551615").unwrap(),
        AllocationRequest::Compact(u64::MAX)
    );
}

#[test]
fn test_parse_allocation_request_errors() {
    for text in [
        "", " ", "x", "all ", " all", "ALL", "4 ", " 4", "4  compact", "4 compactly", "4compact",
        "4 scatter!", "-1", "1.5", "18446744073709551616", "99999999999999999999999 scatter",
        "4 compact scatter", "４",
    ] {
        assert_eq!(
            error_text(parse_allocation_request(text)),
            format!("Invalid allocation request: {text}")
        );
    }
}

#[test]
fn test_deserialize_resource_entries() {
    let entries = deserialize_resource_entries(vec![
        ("cpus".to_string(), IntOrString::Int(4)),
        ("gpus".to_string(), IntOrString::String("2 scatter".to_string())),
        ("mem".to_string(), IntOrString::String("all".to_string())),
        ("fpga".to_string(), IntOrString::String("1".to_string())),
    ])
    .unwrap();
    assert_eq!(entries.len(), 4);
    let got = (0..4)
        .map(|i| {
            let e = entries.get(i).unwrap();
            (e.resource.clone(), e.policy)
        })
        .collect::<Vec<_>>();
    assert_eq!(
        got,
        vec![
            ("cpus".to_string(), AllocationRequest::Compact(4)),
            ("gpus".to_string(), AllocationRequest::Scatter(2)),
            ("mem".to_string(), AllocationRequest::All),
            ("fpga".to_string(), AllocationRequest::Compact(1)),
        ]
    );
    assert!(entries.get(4).is_none());
    let entries = deserialize_resource_entries(Vec::new()).unwrap();
    assert_eq!(entries.len(), 0);
    assert!(entries.get(0).is_none());
    assert_eq!(ResourceRequestEntries::new().len(), 0);
}

#[test]
fn test_deserialize_resource_entries_error_names_first_bad_text() {
    let r = deserialize_resource_entries(vec![
        ("cpus".to_string(), IntOrString::Int(4)),
        ("gpus".to_string(), IntOrString::String("two".to_string())),
        ("mem".to_string(), IntOrString::String("lots".to_string())),
    ]);
    assert_eq!(error_text(r), "Invalid allocation request: two");
}

#[test]
fn test_parse_human_time() {
    assert_eq!(parse_human_time("1h").unwrap(), Duration { secs: 3600, nanos: 0 });
    assert_eq!(parse_human_time("30m").unwrap(), Duration { secs: 1800, nanos: 0 });
    assert_eq!(parse_human_time("2h 37min").unwrap(), Duration { secs: 9420, nanos: 0 });
    assert_eq!(parse_human_time("32ms").unwrap(), Duration { secs: 0, nanos: 32_000_000 });
    assert_eq!(parse_human_time("0").unwrap(), Duration { secs: 0, nanos: 0 });
    assert_eq!(parse_human_time("1s 1500ms").unwrap(), Duration { secs: 2, nanos: 500_000_000 });
    assert_eq!(
        parse_human_time("99999999999s").unwrap(),
        Duration { secs: 99_999_999_999, nanos: 0 }
    );
    assert_eq!(Duration::default(), Duration { secs: 0, nanos: 0 });
    assert_eq!(Duration::zero(), Duration { secs: 0, nanos: 0 });
}

#[test]
fn test_parse_human_time_errors() {
    for text in ["", "h", "1", "1x", "one hour", "1h!", "100000000000s", "18446744073709551615s 1000000000ns"] {
        assert_eq!(
            error_text(parse_human_time(text)),
            format!("Invalid time specification: {text}")
        );
    }
}

#[test]
fn test_resolve_human_time() {
    let d = Duration { secs: 5, nanos: 6 };
    assert_eq!(resolve_human_time("5s 6ns", Some(d)).unwrap(), d);
    assert_eq!(
        error_text(resolve_human_time("soon", None)),
        "Invalid time specification: soon"
    );
}

#[test]
fn test_into_request() {
    let resources = deserialize_resource_entries(vec![
        ("cpus".to_string(), IntOrString::Int(2)),
        ("gpus".to_string(), IntOrString::String("1 compact!".to_string())),
    ])
    .unwrap();
    let def = ResourceRequestDef {
        n_nodes: 3,
        time_request: Duration { secs: 90, nanos: 5 },
        resources,
    };
    let request = def.into_request();
    assert_eq!(request.n_nodes, 3);
    assert_eq!(request.min_time, Duration { secs: 90, nanos: 5 });
    assert_eq!(request.resources.len(), 2);
    assert_eq!(request.resources.get(0).unwrap().resource, "cpus");
    assert_eq!(request.resources.get(0).unwrap().policy, AllocationRequest::Compact(2));
    assert_eq!(request.resources.get(1).unwrap().resource, "gpus");
    assert_eq!(request.resources.get(1).unwrap().policy, AllocationRequest::ForceCompact(1));
}

#[test]
fn test_into_requests_keeps_order() {
    let def = |n_nodes: u32| ResourceRequestDef {
        n_nodes,
        time_request: Duration { secs: n_nodes as u64, nanos: 0 },
        resources: ResourceRequestEntries::new(),
    };
    let defs = ResourceRequestDefs::new(vec![def(5), def(1), def(3)]);
    assert_eq!(defs.len(), 3);
    assert_eq!(defs.get(1).unwrap().n_nodes, 1);
    assert!(defs.get(3).is_none());
    let requests = defs.into_requests();
    assert_eq!(requests.iter().map(|r| r.n_nodes).collect::<Vec<_>>(), vec![5, 1, 3]);
    assert_eq!(requests.iter().map(|r| r.min_time.secs).collect::<Vec<_>>(), vec![5, 1, 3]);
    assert!(ResourceRequestDefs::new(Vec::new()).into_requests().is_empty());
}

#[test]
fn test_int_array() {
    let a = IntArray::new(vec![IntRange { start: 2, count: 1 }, IntRange { start: 10, count: 5 }])
        .unwrap();
    assert_eq!(a.id_count(), 6);
    assert_eq!(IntArray::new(Vec::new()).unwrap().id_count(), 0);
    assert_eq!(IntArray::new(vec![IntRange { start: 0, count: u32::MAX }]).unwrap().id_count(), u32::MAX);
    assert!(IntArray::new(vec![IntRange { start: 1, count: 0 }]).is_none());
    assert!(IntArray::new(vec![IntRange { start: u32::MAX, count: 2 }]).is_none());
    assert!(IntArray::new(vec![IntRange { start: u32::MAX, count: 1 }]).is_some());
    assert!(IntArray::new(vec![
        IntRange { start: 0, count: u32::MAX },
        IntRange { start: 0, count: 1 }
    ])
    .is_none());
}

#[test]
fn test_validate_job_shapes() {
    assert!(job(vec![task()], None).validate().is_ok());
    assert_eq!(error_text(job(Vec::new(), None).validate()), "No tasks defined");
    let three = || Some(vec![IntRange { start: 1, count: 3 }]);
    assert_eq!(
        error_text(job(vec![task()], Some(array(three(), &[]))).validate()),
        "Definition of array job and individual task cannot be mixed"
    );
    assert_eq!(
        error_text(job(Vec::new(), Some(array(None, &[]))).validate()),
        "One of attributes of array must be defined: 'ids', 'entries'"
    );
    assert_eq!(
        error_text(job(Vec::new(), Some(array(three(), &["a", "b"]))).validate()),
        "Items 'ids' and 'entries' does not match"
    );
    assert!(job(Vec::new(), Some(array(three(), &["a", "b", "c"]))).validate().is_ok());
    assert!(job(Vec::new(), Some(array(three(), &[]))).validate().is_ok());
    assert!(job(Vec::new(), Some(array(None, &["a"]))).validate().is_ok());
    assert!(job(Vec::new(), Some(array(Some(Vec::new()), &["a"]))).validate().is_err());
    assert!(job(Vec::new(), Some(array(Some(Vec::new()), &[]))).validate().is_ok());
}
