use cronus::command::{Command, CommandResponse, ErrorKind};
use cronus::job::{Job, JobInfo};

fn text(b: &[u8]) -> String {
    String::from_utf8(b.to_vec()).unwrap()
}

fn sample_job() -> Job {
    Job::new_command("/bin/true".to_string(), vec![])
}

#[test]
fn encodes_unit_requests_as_quoted_names() {
    assert_eq!(text(&Command::ListJobs.to_bytes()), "\"ListJobs\"");
    assert_eq!(text(&Command::StopService.to_bytes()), "\"StopService\"");
    assert_eq!(text(&Command::PingService.to_bytes()), "\"PingService\"");
}

#[test]
fn encodes_add_job_request() {
    let c = Command::AddJob { cron: "0/1 * * * * *".to_string(), job: sample_job() };
    assert_eq!(
        text(&c.to_bytes()),
        "{\"AddJob\":{\"cron\":\"0/1 * * * * *\",\"job\":{\"Command\":[\"/bin/true\",[]]}}}"
    );
}

#[test]
fn encodes_scripts_and_arguments() {
    let c = Command::AddJob {
        cron: "* * * * * *".to_string(),
        job: Job::new_command("/bin/echo".to_string(), vec!["a".to_string(), "b c".to_string()]),
    };
    assert_eq!(
        text(&c.to_bytes()),
        "{\"AddJob\":{\"cron\":\"* * * * * *\",\"job\":{\"Command\":[\"/bin/echo\",[\"a\",\"b c\"]]}}}"
    );
    let r = Command::AddJob { cron: "x".to_string(), job: Job::new_rhai_script("1".to_string()) };
    assert_eq!(text(&r.to_bytes()), "{\"AddJob\":{\"cron\":\"x\",\"job\":{\"RhaiScript\":\"1\"}}}");
    let f = Command::AddJob { cron: "x".to_string(), job: Job::new_rhai_script_file("/a.rhai".to_string()) };
    assert_eq!(
        text(&f.to_bytes()),
        "{\"AddJob\":{\"cron\":\"x\",\"job\":{\"RhaiScriptFile\":\"/a.rhai\"}}}"
    );
}

#[test]
fn encodes_delete_request() {
    let c = Command::DeleteJob { id: "abc".to_string() };
    assert_eq!(text(&c.to_bytes()), "{\"DeleteJob\":{\"id\":\"abc\"}}");
}

#[test]
fn escapes_strings_as_serde_json_does() {
    let c = Command::DeleteJob { id: "q\"b\\n\nt\tc\u{1}é".to_string() };
    assert_eq!(
        text(&c.to_bytes()),
        "{\"DeleteJob\":{\"id\":\"q\\\"b\\\\n\\nt\\tc\\u0001é\"}}"
    );
    let v: serde_json::Value = serde_json::from_slice(&c.to_bytes()).unwrap();
    assert_eq!(v["DeleteJob"]["id"].as_str().unwrap(), "q\"b\\n\nt\tc\u{1}é");
}

#[test]
fn encodes_replies() {
    assert_eq!(text(&CommandResponse::JobAdded("id1".to_string()).to_bytes()), "{\"JobAdded\":\"id1\"}");
    assert_eq!(text(&CommandResponse::JobDeleted.to_bytes()), "\"JobDeleted\"");
    assert_eq!(text(&CommandResponse::ServiceStopped.to_bytes()), "\"ServiceStopped\"");
    assert_eq!(text(&CommandResponse::ServiceNotRunning.to_bytes()), "\"ServiceNotRunning\"");
    assert_eq!(text(&CommandResponse::Nothing.to_bytes()), "\"Nothing\"");
    assert_eq!(text(&CommandResponse::JobList(vec![]).to_bytes()), "{\"JobList\":[]}");
    assert_eq!(
        text(&CommandResponse::Error(ErrorKind::BadCron, "bad".to_string()).to_bytes()),
        "{\"Error\":[\"BadCron\",\"bad\"]}"
    );
}

#[test]
fn encodes_job_list_entries() {
    let info = JobInfo {
        id: "i".to_string(),
        cron: "c".to_string(),
        last_run: None,
        next_run: Some(1700000000),
        job: Job::new_rhai_script("1".to_string()),
    };
    assert_eq!(
        text(&CommandResponse::JobList(vec![info]).to_bytes()),
        "{\"JobList\":[{\"id\":\"i\",\"cron\":\"c\",\"last_run\":null,\"next_run\":1700000000,\"job\":{\"RhaiScript\":\"1\"}}]}"
    );
}

#[test]
fn decodes_requests() {
    let c = Command::from_bytes(b"{\"AddJob\":{\"cron\":\"0/1 * * * * *\",\"job\":{\"Command\":[\"/bin/true\",[]]}}}").unwrap();
    match c {
        Command::AddJob { cron, job } => {
            assert_eq!(cron, "0/1 * * * * *");
            match job {
                Job::Command(p, a) => {
                    assert_eq!(p, "/bin/true");
                    assert!(a.is_empty());
                }
                _ => panic!("wrong job"),
            }
        }
        _ => panic!("wrong request"),
    }
    assert!(matches!(Command::from_bytes(b"\"PingService\""), Ok(Command::PingService)));
    match Command::from_bytes(b"{\"DeleteJob\":{\"id\":\"a\\u0041\\/\"}}").unwrap() {
        Command::DeleteJob { id } => assert_eq!(id, "aA/"),
        _ => panic!("wrong request"),
    }
}

#[test]
fn rejects_malformed_frames() {
    for f in [
        &b""[..],
        b"\"Ping\"",
        b"\"PingService\" ",
        b"{\"AddJob\":{}}",
        b"{\"DeleteJob\":{\"id\":\"a}}",
        b"{\"DeleteJob\":{\"id\":\"\xff\"}}",
        b"{\"DeleteJob\":{\"id\":\"a\nb\"}}",
        b"\"JobDeleted\"",
    ] {
        assert!(matches!(Command::from_bytes(f), Err(ErrorKind::Malformed)));
    }
    assert!(matches!(CommandResponse::from_bytes(b"\"ListJobs\""), Err(ErrorKind::Malformed)));
    assert!(matches!(
        CommandResponse::from_bytes(b"{\"JobList\":[{\"id\":\"i\",\"cron\":\"c\",\"last_run\":null,\"next_run\":18446744073709551616,\"job\":{\"RhaiScript\":\"1\"}}]}"),
        Err(ErrorKind::Malformed)
    ));
}

#[test]
fn requests_round_trip() {
    let all = vec![
        Command::AddJob {
            cron: "0 0 * * * * 2030".to_string(),
            job: Job::new_command("/usr/bin/env".to_string(), vec!["x=\"1\"".to_string(), "é".to_string()]),
        },
        Command::ListJobs,
        Command::DeleteJob { id: "\u{7f}\\".to_string() },
        Command::StopService,
        Command::PingService,
    ];
    for c in all {
        let b = c.to_bytes();
        let d = Command::from_bytes(&b).unwrap();
        assert_eq!(d.to_bytes(), b);
        assert_eq!(format!("{:?}", d), format!("{:?}", c));
    }
}

#[test]
fn replies_round_trip() {
    let info = JobInfo {
        id: "5b2a3c1e-0000-4000-8000-000000000001".to_string(),
        cron: "0/5 * * * * *".to_string(),
        last_run: Some(18446744073709551615),
        next_run: Some(0),
        job: Job::new_command("/bin/sh".to_string(), vec!["-c".to_string(), "echo \"hi\"".to_string()]),
    };
    let all = vec![
        CommandResponse::JobAdded("x".to_string()),
        CommandResponse::JobList(vec![info]),
        CommandResponse::JobDeleted,
        CommandResponse::ServiceRunning,
        CommandResponse::ServiceStopping,
        CommandResponse::ServiceStopped,
        CommandResponse::ServiceNotRunning,
        CommandResponse::Nothing,
        CommandResponse::Error(ErrorKind::UnknownJob, "gone".to_string()),
    ];
    for r in all {
        let b = r.to_bytes();
        let d = CommandResponse::from_bytes(&b).unwrap();
        assert_eq!(d.to_bytes(), b);
        assert_eq!(format!("{:?}", d), format!("{:?}", r));
    }
}

#[test]
fn replies_match_serde_json_reading() {
    let info = JobInfo {
        id: "i".to_string(),
        cron: "c".to_string(),
        last_run: Some(3),
        next_run: None,
        job: Job::new_command("/bin/true".to_string(), vec!["a".to_string()]),
    };
    let b = CommandResponse::JobList(vec![info]).to_bytes();
    let v: serde_json::Value = serde_json::from_slice(&b).unwrap();
    let e = &v["JobList"][0];
    assert_eq!(e["id"].as_str(), Some("i"));
    assert_eq!(e["last_run"].as_u64(), Some(3));
    assert!(e["next_run"].is_null());
    assert_eq!(e["job"]["Command"][1][0].as_str(), Some("a"));
}

#[test]
fn prints_messages_for_replies() {
    assert_eq!(text(&CommandResponse::JobAdded("x".to_string()).to_json_msg().unwrap()), "{\"job_id\":\"x\"}");
    assert_eq!(text(&CommandResponse::JobDeleted.to_json_msg().unwrap()), "{\"message\":\"Job deleted\"}");
    assert_eq!(text(&CommandResponse::ServiceRunning.to_json_msg().unwrap()), "{\"message\":\"Service running\"}");
    assert_eq!(text(&CommandResponse::ServiceStopping.to_json_msg().unwrap()), "{\"message\":\"Service stopping\"}");
    assert_eq!(text(&CommandResponse::ServiceStopped.to_json_msg().unwrap()), "{\"message\":\"Service stopped\"}");
    assert_eq!(
        text(&CommandResponse::ServiceNotRunning.to_json_msg().unwrap()),
        "{\"message\":\"Service not running\"}"
    );
    assert!(CommandResponse::Nothing.to_json_msg().is_none());
    assert_eq!(text(&CommandResponse::JobList(vec![]).to_json_msg().unwrap()), "[]");
    assert_eq!(
        text(&CommandResponse::Error(ErrorKind::BadId, "bad \"id\"".to_string()).to_json_msg().unwrap()),
        "{\"error\":\"bad \\\"id\\\"\"}"
    );
    assert_eq!(text(&cronus::command::error_json("oops")), "{\"error\":\"oops\"}");
}

#[test]
fn ping_reply_confirms_running() {
    assert!(CommandResponse::ServiceRunning.confirms_running());
    assert!(!CommandResponse::ServiceNotRunning.confirms_running());
    assert!(Command::StopService.is_stop());
    assert!(!Command::PingService.is_stop());
}
