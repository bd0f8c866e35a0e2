use serde_json::Value;
use super_core::event_hooks::{
    build_env, build_payload, matches_hook, matching_hooks, plan_dispatch, EventHook, SystemEvent,
};

fn hook(events: &[&str], programs: &[&str]) -> EventHook {
    EventHook {
        command: "true".into(),
        url: None,
        headers: vec![],
        events: events.iter().map(|s| s.to_string()).collect(),
        programs: programs.iter().map(|s| s.to_string()).collect(),
        run_async: true,
        timeout_secs: 5,
        id: None,
    }
}

fn fatal(id: u128, name: &str) -> SystemEvent {
    SystemEvent::ProcessFatal {
        program_id: id,
        program_name: name.into(),
        pid: None,
        uptime_secs: 0,
        exit_code: None,
        signal: None,
        msg: "x".into(),
        log_tail: None,
    }
}

#[test]
fn matches_event_and_program_filters() {
    let h = hook(&["process_fatal"], &["web"]);
    let id = uuid::Uuid::new_v4().as_u128();
    assert!(matches_hook(&h, &fatal(id, "web")));
    assert!(!matches_hook(&h, &fatal(id, "worker")));
}

#[test]
fn wildcards_and_system_events() {
    let any = hook(&["*"], &["*"]);
    assert!(matches_hook(&any, &SystemEvent::SystemShutdown));
    let named = hook(&["*"], &["web"]);
    assert!(!matches_hook(&named, &SystemEvent::SystemShutdown));
    let other = hook(&["process_backoff"], &["*"]);
    assert!(!matches_hook(&other, &fatal(1, "web")));
    let hooks = vec![named, any, other];
    assert_eq!(matching_hooks(&hooks, &SystemEvent::SystemShutdown), vec![1]);
    assert!(plan_dispatch(&vec![hook(&["x"], &["*"])], &SystemEvent::SystemShutdown, "t", "v").is_none());
    let d = plan_dispatch(&hooks, &fatal(1, "web"), "t", "v").unwrap();
    assert_eq!(d.hooks, vec![0, 1]);
}

fn obj(pairs: Vec<(&str, Value)>) -> Value {
    let mut m = serde_json::Map::new();
    for (k, v) in pairs {
        m.insert(k.to_string(), v);
    }
    Value::Object(m)
}

#[test]
fn payload_matches_serde_json_rendering() {
    let id = 0x0123_4567_89ab_cdef_0011_2233_4455_6677u128;
    let ev = SystemEvent::ProcessFatal {
        program_id: id,
        program_name: "we\"b\n".into(),
        pid: Some(42),
        uptime_secs: 7,
        exit_code: Some(-1),
        signal: None,
        msg: "bad\u{1}tab\t".into(),
        log_tail: Some("ü".into()),
    };
    let got = build_payload(&ev, "host", "2024-01-01T00:00:00+00:00", "1.2.3");
    let expected = obj(vec![
        ("event", Value::from("process_fatal")),
        ("timestamp", Value::from("2024-01-01T00:00:00+00:00")),
        ("hostname", Value::from("host")),
        ("version", Value::from("1.2.3")),
        (
            "program",
            obj(vec![
                ("id", Value::from(uuid::Uuid::from_u128(id).to_string())),
                ("name", Value::from("we\"b\n")),
                ("pid", Value::from(42u32)),
                ("uptime_secs", Value::from(7u64)),
            ]),
        ),
        (
            "payload",
            obj(vec![
                ("exit_code", Value::from(-1i32)),
                ("signal", Value::Null),
                ("msg", Value::from("bad\u{1}tab\t")),
                ("log_tail", Value::from("ü")),
            ]),
        ),
    ]);
    assert_eq!(got, serde_json::to_string(&expected).unwrap());
}

#[test]
fn started_payload_and_env() {
    let ev = SystemEvent::ProcessStarted { program_id: 2, program_name: "demo".into(), pid: 4242 };
    let body = build_payload(&ev, "h", "t", "v");
    assert!(body.contains("\"event\":\"process_started\""), "body={body}");
    assert!(body.contains("\"name\":\"demo\""), "body={body}");
    assert!(body.contains("4242"), "body={body}");
    assert!(body.contains("\"uptime_secs\":0"), "body={body}");
    let env = build_env(&ev, "h");
    let expected: Vec<(String, String)> = vec![
        ("SUPER_EVENT".into(), "process_started".into()),
        ("SUPER_HOSTNAME".into(), "h".into()),
        ("SUPER_ID".into(), "00000000-0000-0000-0000-000000000002".into()),
        ("SUPER_NAME".into(), "demo".into()),
        ("SUPER_PID".into(), "4242".into()),
    ];
    assert_eq!(env, expected);
}

#[test]
fn memory_pressure_env_and_shutdown_payload() {
    let ev = SystemEvent::MemoryPressure {
        program_id: 3,
        program_name: "m".into(),
        pid: None,
        usage_bytes: 10,
        limit_bytes: 20,
        warn_bytes: 15,
    };
    let env = build_env(&ev, "h");
    assert_eq!(env.len(), 7);
    assert_eq!(env[4], ("SUPER_USAGE_BYTES".to_string(), "10".to_string()));
    assert_eq!(env[6], ("SUPER_WARN_BYTES".to_string(), "15".to_string()));
    let body = build_payload(&SystemEvent::SystemShutdown, "h", "t", "v");
    assert_eq!(
        body,
        "{\"event\":\"system_shutdown\",\"hostname\":\"h\",\"payload\":{},\"program\":null,\"timestamp\":\"t\",\"version\":\"v\"}"
    );
    let b = SystemEvent::ProcessBackoff {
        program_id: 1,
        program_name: "b".into(),
        pid: Some(5),
        uptime_secs: 1,
        exit_code: Some(3),
        signal: Some(9),
        retry_count: 2,
    };
    let env = build_env(&b, "h");
    assert_eq!(env.last().unwrap(), &("SUPER_EXIT_CODE".to_string(), "3".to_string()));
    assert!(build_payload(&b, "h", "t", "v").contains("\"payload\":{\"exit_code\":3,\"retry_count\":2,\"signal\":9}"));
}
