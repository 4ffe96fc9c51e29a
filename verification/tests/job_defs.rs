use bstr::BString;
use sched_model::array::{parse_array, IntArray, IntRange};
use sched_model::defs::{JobDef, PinMode};
use sched_model::document::{parse_document, Node};
use sched_model::error::ModelError;
use sched_model::human_time::Duration;
use sched_model::ids::JobTaskId;
use sched_model::request::AllocationRequest;

fn env_get<'a>(env: &'a [(BString, BString)], key: &str) -> Option<&'a BString> {
    env.iter().find(|(name, _)| name == &BString::from(key)).map(|(_, value)| value)
}

fn error_text(r: Result<JobDef, ModelError>) -> String {
    match r {
        Ok(job) => panic!("accepted: {job:?}"),
        Err(e) => {
            assert!(matches!(e, ModelError::DeserializationError(_)));
            e.to_string()
        }
    }
}

#[test]
fn test_read_minimal_def() {
    let jdef = JobDef::parse(
        r#"
        [[task]]
        command = ["sleep", "1"]
        "#,
    )
    .unwrap();
    assert!(jdef.name.is_empty());
    assert_eq!(jdef.tasks.len(), 1);
    assert!(jdef.tasks[0].id.is_none());
    assert_eq!(jdef.tasks[0].config.command, vec!["sleep".to_string(), "1".to_string()]);
}

#[test]
fn test_validate_no_task_def() {
    let r = JobDef::parse(
        r#"
        name = 'myjob'
        "#,
    );
    assert!(matches!(r, Err(ModelError::DeserializationError(_))))
}

#[test]
fn test_unknown_fields() {
    let r = JobDef::parse(
        r#"
        [[task]]
        command = ["sleep", "1"]
        some_unknown_field_xxx = "123"
        "#,
    );
    assert!(matches!(r, Err(ModelError::DeserializationError(_))))
}

#[test]
fn test_parse_env1() {
    let r = JobDef::parse(
        r#"
        [[task]]
        command = ["sleep", "1"]
        env = {"ABC" = "abc", "XYZ" = "55"}
        "#,
    )
    .unwrap();
    assert_eq!(r.tasks[0].config.env.len(), 2);
    assert_eq!(env_get(&r.tasks[0].config.env, "ABC").unwrap(), "abc");
    assert_eq!(env_get(&r.tasks[0].config.env, "XYZ").unwrap(), "55");
}

#[test]
fn test_parse_env2() {
    let r = JobDef::parse(
        r#"
        [[task]]
        command = ["sleep", "1"]
            [task.env]
            "ABC" = "abc"
            "XYZ" = "55"
        "#,
    )
    .unwrap();
    assert_eq!(r.tasks[0].config.env.len(), 2);
    assert_eq!(env_get(&r.tasks[0].config.env, "ABC").unwrap(), "abc");
    assert_eq!(env_get(&r.tasks[0].config.env, "XYZ").unwrap(), "55");
}

#[test]
fn test_validate_no_task_def_message() {
    assert_eq!(error_text(JobDef::parse("name = 'myjob'")), "No tasks defined");
    assert_eq!(error_text(JobDef::parse("")), "No tasks defined");
}

#[test]
fn test_unknown_fields_messages() {
    let text = r#"
        [[task]]
        command = ["sleep", "1"]
        some_unknown_field_xxx = "123"
        "#;
    assert_eq!(error_text(JobDef::parse(text)), "unknown field `some_unknown_field_xxx`");
    assert_eq!(error_text(JobDef::parse("nam = 'x'")), "unknown field `nam`");
    let text = r#"
        [[task]]
        command = ["sleep", "1"]
        [[task.request]]
        nodes = 2
        "#;
    assert_eq!(error_text(JobDef::parse(text)), "unknown field `nodes`");
    let text = r#"
        [array]
        ids = "1-3"
        command = ["sleep", "1"]
        deps = [1]
        "#;
    assert_eq!(error_text(JobDef::parse(text)), "unknown field `deps`");
}

#[test]
fn test_not_toml() {
    let r = JobDef::parse("[[task]\ncommand = ");
    assert!(matches!(r, Err(ModelError::DeserializationError(_))));
    assert!(parse_document("a = ").is_err());
    assert!(parse_document("a = 1\na = 2").is_err());
}

#[test]
fn test_parse_document() {
    let doc = parse_document(
        r#"
        b = "text"
        a = 5
        f = 1.5
        t = true
        d = 1979-05-27
        l = [1, "two", [3]]
        [z]
        k = -1
        "#,
    )
    .unwrap();
    let Node::Table(entries) = doc else { panic!("no table") };
    let keys = entries.iter().map(|(k, _)| k.as_str()).collect::<Vec<_>>();
    assert_eq!(keys, vec!["a", "b", "d", "f", "l", "t", "z"]);
    assert!(matches!(&entries[0].1, Node::Integer(5)));
    assert!(matches!(&entries[1].1, Node::String(s) if s == "text"));
    assert!(matches!(&entries[2].1, Node::Datetime));
    assert!(matches!(&entries[3].1, Node::Float));
    let Node::Array(items) = &entries[4].1 else { panic!("no array") };
    assert_eq!(items.len(), 3);
    assert!(matches!(&items[0], Node::Integer(1)));
    assert!(matches!(&items[1], Node::String(s) if s == "two"));
    assert!(matches!(&items[2], Node::Array(inner) if inner.len() == 1));
    assert!(matches!(&entries[5].1, Node::Boolean(true)));
    let Node::Table(inner) = &entries[6].1 else { panic!("no table") };
    assert!(matches!(&inner[0], (k, Node::Integer(-1)) if k == "k"));
}

#[test]
fn test_array_cardinality() {
    let two = r#"
        [array]
        ids = "1-3"
        entries = ["a", "b"]
        command = ["sleep", "1"]
        "#;
    assert_eq!(error_text(JobDef::parse(two)), "Items 'ids' and 'entries' does not match");
    let three = r#"
        [array]
        ids = "1-3"
        entries = ["a", "b", "c"]
        command = ["sleep", "1"]
        "#;
    let job = JobDef::parse(three).unwrap();
    let array = job.array.unwrap();
    assert_eq!(array.ids.unwrap().id_count(), 3);
    assert_eq!(array.entries, vec!["a", "b", "c"]);
    assert_eq!(array.config.command, vec!["sleep", "1"]);
    assert!(job.tasks.is_empty());
}

#[test]
fn test_array_shapes() {
    let text = r#"
        [array]
        command = ["sleep", "1"]
        "#;
    assert_eq!(
        error_text(JobDef::parse(text)),
        "One of attributes of array must be defined: 'ids', 'entries'"
    );
    let text = r#"
        [array]
        ids = "7,9"
        command = ["sleep", "1"]
        [[task]]
        command = ["sleep", "1"]
        "#;
    assert_eq!(
        error_text(JobDef::parse(text)),
        "Definition of array job and individual task cannot be mixed"
    );
    let text = r#"
        [array]
        ids = "1-x"
        command = ["sleep", "1"]
        "#;
    assert_eq!(error_text(JobDef::parse(text)), "Invalid array specification: 1-x");
    let text = r#"
        [array]
        ids = 5
        command = ["sleep", "1"]
        "#;
    assert_eq!(error_text(JobDef::parse(text)), "invalid value of field `ids`");
}

#[test]
fn test_parse_full_task() {
    let job = JobDef::parse(
        r#"
        name = "full"
        max_fails = 3
        stream_log = "/tmp/log"

        [[task]]
        id = 12
        deps = [1, 2]
        command = ["bash", "-c", "echo"]
        stdout = "out.txt"
        stderr = "err.txt"
        stdin = "in.txt"
        cwd = "/work"
        pin = "omp"
        task_dir = true
        time_limit = "2h 30min"
        priority = -7
        crash_limit = 4

        [[task.request]]
        n_nodes = 2
        time_request = "1h"
        resources = { "cpus" = 4, "gpus" = "2 scatter", "mem" = "all" }

        [[task.request]]
        resources = { "cpus" = "1 compact!" }

        [[task]]
        command = ["true"]
        pin = "taskset"
        "#,
    )
    .unwrap();
    assert_eq!(job.name, "full");
    assert_eq!(job.max_fails, Some(3));
    assert_eq!(job.stream_log.as_deref(), Some("/tmp/log"));
    assert!(job.array.is_none());
    assert_eq!(job.tasks.len(), 2);
    let task = &job.tasks[0];
    assert_eq!(task.id, Some(JobTaskId::new(12)));
    assert_eq!(task.deps, vec![JobTaskId::new(1), JobTaskId::new(2)]);
    let config = &task.config;
    assert_eq!(config.command, vec!["bash", "-c", "echo"]);
    assert_eq!(config.stdout.as_deref(), Some("out.txt"));
    assert_eq!(config.stderr.as_deref(), Some("err.txt"));
    assert_eq!(config.stdin.as_deref(), Some("in.txt"));
    assert_eq!(config.cwd.as_deref(), Some("/work"));
    assert_eq!(config.pin, PinMode::OpenMP);
    assert!(config.task_dir);
    assert_eq!(config.time_limit, Some(Duration { secs: 9000, nanos: 0 }));
    assert_eq!(config.priority, -7);
    assert_eq!(config.crash_limit, 4);
    assert!(config.env.is_empty());
    assert_eq!(config.request.len(), 2);
    let first = config.request.get(0).unwrap();
    assert_eq!(first.n_nodes, 2);
    assert_eq!(first.time_request, Duration { secs: 3600, nanos: 0 });
    let entries = (0..first.resources.len())
        .map(|i| {
            let e = first.resources.get(i).unwrap();
            (e.resource.as_str(), e.policy)
        })
        .collect::<Vec<_>>();
    assert_eq!(
        entries,
        vec![
            ("cpus", AllocationRequest::Compact(4)),
            ("gpus", AllocationRequest::Scatter(2)),
            ("mem", AllocationRequest::All),
        ]
    );
    let second = config.request.get(1).unwrap();
    assert_eq!(second.n_nodes, 0);
    assert_eq!(second.time_request, Duration { secs: 0, nanos: 0 });
    assert_eq!(second.resources.len(), 1);
    assert_eq!(second.resources.get(0).unwrap().policy, AllocationRequest::ForceCompact(1));
    let other = &job.tasks[1];
    assert!(other.id.is_none());
    assert!(other.deps.is_empty());
    assert_eq!(other.config.pin, PinMode::TaskSet);
    assert_eq!(other.config.request.len(), 0);
    assert_eq!(other.config.time_limit, None);
    assert_eq!(other.config.priority, 0);
    assert!(!other.config.task_dir);
}

#[test]
fn test_parse_field_errors() {
    let task = |line: &str| format!("[[task]]\ncommand = [\"x\"]\n{line}\n");
    let cases = [
        ("[[task]]\nid = 1\n".to_string(), "missing field `command`"),
        ("[[task]]\ncommand = \"sleep 1\"\n".to_string(), "invalid value of field `command`"),
        ("[[task]]\ncommand = [\"sleep\", 1]\n".to_string(), "invalid value of field `command`"),
        (task("pin = \"numa\""), "invalid value of field `pin`"),
        (task("pin = 1"), "invalid value of field `pin`"),
        (task("task_dir = \"yes\""), "invalid value of field `task_dir`"),
        (task("priority = 2147483648"), "invalid value of field `priority`"),
        (task("crash_limit = -1"), "invalid value of field `crash_limit`"),
        (task("crash_limit = 1.5"), "invalid value of field `crash_limit`"),
        (task("id = 4294967296"), "invalid value of field `id`"),
        (task("deps = [1, -2]"), "invalid value of field `deps`"),
        (task("time_limit = \"soon\""), "Invalid time specification: soon"),
        (task("time_limit = 10"), "invalid value of field `time_limit`"),
        (task("stdout = 1"), "invalid value of field `stdout`"),
        (task("env = {A = 1}"), "invalid value of field `env`"),
        (task("env = [\"A\"]"), "invalid value of field `env`"),
        (task("request = {n_nodes = 1}"), "invalid value of field `request`"),
        (task("request = [1]"), "invalid value of field `request`"),
        (task("request = [{n_nodes = -1}]"), "invalid value of field `n_nodes`"),
        (task("request = [{time_request = \"1 fortnight\"}]"), "Invalid time specification: 1 fortnight"),
        (task("request = [{resources = {cpus = \"many\"}}]"), "Invalid allocation request: many"),
        (task("request = [{resources = {cpus = -1}}]"), "invalid value of field `resources`"),
        (task("request = [{resources = {cpus = true}}]"), "invalid value of field `resources`"),
        (task("request = [{}, {resources = 3}]"), "invalid value of field `resources`"),
        ("task = 1\n".to_string(), "invalid value of field `task`"),
        ("task = [1]\n".to_string(), "invalid value of field `task`"),
        ("array = 1\n".to_string(), "invalid value of field `array`"),
        ("name = 1\n".to_string(), "invalid value of field `name`"),
        ("max_fails = -1\n".to_string(), "invalid value of field `max_fails`"),
        ("stream_log = false\n".to_string(), "invalid value of field `stream_log`"),
    ];
    for (text, message) in cases {
        assert_eq!(error_text(JobDef::parse(&text)), message, "for {text}");
    }
}

#[test]
fn test_first_error_in_order() {
    let text = r#"
        [[task]]
        command = ["x"]
        pin = "a"
        [[task]]
        command = ["x"]
        stdout = 5
        "#;
    assert_eq!(error_text(JobDef::parse(text)), "invalid value of field `pin`");
    let text = r#"
        [[task]]
        command = ["x"]
        stdout = 5
        zzz = 1
        "#;
    assert_eq!(error_text(JobDef::parse(text)), "unknown field `zzz`");
}

#[test]
fn test_from_document() {
    let command = Node::Array(vec![Node::String("sleep".to_string())]);
    let task = Node::Table(vec![("command".to_string(), command)]);
    let doc = Node::Table(vec![("task".to_string(), Node::Array(vec![task]))]);
    let job = JobDef::from_document(&doc).unwrap();
    assert_eq!(job.tasks.len(), 1);
    assert_eq!(job.tasks[0].config.command, vec!["sleep"]);
    let empty = Node::Table(Vec::new());
    assert!(JobDef::read(&empty).is_ok());
    assert_eq!(error_text(JobDef::from_document(&empty)), "No tasks defined");
    assert_eq!(error_text(JobDef::read(&Node::Integer(1))), "invalid value of field `job`");
}

#[test]
fn test_parse_array() {
    let ranges = |text: &str| {
        let a = parse_array(text).unwrap();
        (a.id_count(), format!("{a:?}"))
    };
    assert_eq!(ranges("5").0, 1);
    assert_eq!(ranges("1-10").0, 10);
    assert_eq!(ranges("1-3,8,20-29").0, 14);
    assert_eq!(ranges("7-7").0, 1);
    assert_eq!(ranges("0-4294967294").0, 4294967295);
    assert_eq!(
        ranges("2,10-14").1,
        format!(
            "{:?}",
            IntArray::new(vec![IntRange { start: 2, count: 1 }, IntRange { start: 10, count: 5 }])
                .unwrap()
        )
    );
    for text in [
        "", ",", "1,", ",1", "1,,2", "a", "1-", "-1", "3-1", "1-2-3", "1 - 2", "1, 2", "4294967296",
        "0-4294967295", "1-4294967296", "0-4294967294,5", "1:2",
    ] {
        match parse_array(text) {
            Ok(a) => panic!("accepted {text}: {a:?}"),
            Err(e) => assert_eq!(e.to_string(), format!("Invalid array specification: {text}")),
        }
    }
}
