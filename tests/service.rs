use cronus::cli::{AddSubCommand, Command as CliCommand, Invocation};
use cronus::command::{Command, CommandResponse, ErrorKind};
use cronus::ident::{job_id_text, parse_job_id};
use cronus::job::Job;
use cronus::scheduler::{CronusScheduler, EngineAction, EngineOutcome, EntryMeta, Step};

const ID1: u128 = 0x5b2a3c1e_9f10_4d2b_8c7a_0123456789ab;
const ID2: u128 = 0x00000000_0000_4000_8000_000000000002;

fn add(s: &mut CronusScheduler, cron: &str, job: Job, outcome: EngineOutcome) -> CommandResponse {
    let frame = Command::AddJob { cron: cron.to_string(), job }.to_bytes();
    match s.receive(&frame) {
        Step::Engine(EngineAction::Register { cron: c, .. }) => assert_eq!(c, cron),
        other => panic!("unexpected step {:?}", other),
    }
    s.complete(outcome)
}

fn list(s: &mut CronusScheduler, metas: Vec<EntryMeta>) -> CommandResponse {
    match s.receive(&Command::ListJobs.to_bytes()) {
        Step::Engine(EngineAction::Snapshot) => {}
        other => panic!("unexpected step {:?}", other),
    }
    s.complete(EngineOutcome::Entries(metas))
}

fn meta(id: u128, cron: &str) -> EntryMeta {
    EntryMeta { id, cron: cron.to_string(), last_tick: None, next_tick: 1700000001 }
}

#[test]
fn identifier_text_is_canonical() {
    assert_eq!(job_id_text(ID1), "5b2a3c1e-9f10-4d2b-8c7a-0123456789ab");
    assert_eq!(job_id_text(0), "00000000-0000-0000-0000-000000000000");
    assert_eq!(parse_job_id("5b2a3c1e-9f10-4d2b-8c7a-0123456789ab"), Some(ID1));
    assert_eq!(parse_job_id("5B2A3C1E-9F10-4D2B-8C7A-0123456789AB"), Some(ID1));
    assert_eq!(parse_job_id("not-an-id"), None);
}

#[test]
fn add_list_delete() {
    let mut s = CronusScheduler::new();
    let r = add(&mut s, "0/1 * * * * *", Job::new_command("/bin/true".to_string(), vec![]), EngineOutcome::Registered(ID1));
    let id = match r {
        CommandResponse::JobAdded(id) => id,
        other => panic!("unexpected reply {:?}", other),
    };
    assert_eq!(id, "5b2a3c1e-9f10-4d2b-8c7a-0123456789ab");
    match list(&mut s, vec![meta(ID1, "0/1 * * * * *")]) {
        CommandResponse::JobList(v) => {
            assert_eq!(v.len(), 1);
            assert_eq!(v[0].id, id);
            assert_eq!(v[0].cron, "0/1 * * * * *");
            assert_eq!(v[0].last_run, None);
            assert_eq!(v[0].next_run, Some(1700000001));
            match &v[0].job {
                Job::Command(p, a) => {
                    assert_eq!(p, "/bin/true");
                    assert!(a.is_empty());
                }
                _ => panic!("wrong job"),
            }
        }
        other => panic!("unexpected reply {:?}", other),
    }
    match s.receive(&Command::DeleteJob { id: id.clone() }.to_bytes()) {
        Step::Engine(EngineAction::Deregister(x)) => assert_eq!(x, ID1),
        other => panic!("unexpected step {:?}", other),
    }
    assert!(matches!(s.complete(EngineOutcome::Deregistered), CommandResponse::JobDeleted));
    assert_eq!(s.len(), 0);
    match list(&mut s, vec![]) {
        CommandResponse::JobList(v) => assert!(v.is_empty()),
        other => panic!("unexpected reply {:?}", other),
    }
}

#[test]
fn bad_cron_adds_nothing() {
    let mut s = CronusScheduler::new();
    let r = add(&mut s, "not-a-cron", Job::new_rhai_script("1".to_string()), EngineOutcome::RejectedCron("bad cron".to_string()));
    assert!(matches!(r, CommandResponse::Error(ErrorKind::BadCron, ref m) if m == "bad cron"));
    assert_eq!(s.len(), 0);
    match list(&mut s, vec![]) {
        CommandResponse::JobList(v) => assert!(v.is_empty()),
        other => panic!("unexpected reply {:?}", other),
    }
}

#[test]
fn listing_skips_jobs_without_metadata() {
    let mut s = CronusScheduler::new();
    add(&mut s, "a", Job::new_rhai_script("1".to_string()), EngineOutcome::Registered(ID1));
    add(&mut s, "b", Job::new_rhai_script("2".to_string()), EngineOutcome::Registered(ID2));
    match list(&mut s, vec![meta(ID2, "b")]) {
        CommandResponse::JobList(v) => {
            assert_eq!(v.len(), 1);
            assert_eq!(v[0].id, job_id_text(ID2));
        }
        other => panic!("unexpected reply {:?}", other),
    }
}

#[test]
fn two_adds_get_distinct_ids_and_both_list() {
    let mut s = CronusScheduler::new();
    let a = add(&mut s, "a", Job::new_rhai_script("1".to_string()), EngineOutcome::Registered(ID1));
    let b = add(&mut s, "b", Job::new_rhai_script_file("/f".to_string()), EngineOutcome::Registered(ID2));
    let (a, b) = match (a, b) {
        (CommandResponse::JobAdded(a), CommandResponse::JobAdded(b)) => (a, b),
        _ => panic!("adds failed"),
    };
    assert_ne!(a, b);
    match list(&mut s, vec![meta(ID1, "a"), meta(ID2, "b")]) {
        CommandResponse::JobList(v) => {
            assert_eq!(v.len(), 2);
            assert_eq!(v[0].id, a);
            assert_eq!(v[1].id, b);
            assert_eq!(v[1].cron, "b");
        }
        other => panic!("unexpected reply {:?}", other),
    }
}

#[test]
fn re_registered_id_replaces_job() {
    let mut s = CronusScheduler::new();
    add(&mut s, "a", Job::new_rhai_script("1".to_string()), EngineOutcome::Registered(ID1));
    add(&mut s, "a", Job::new_rhai_script("2".to_string()), EngineOutcome::Registered(ID1));
    assert_eq!(s.len(), 1);
}

#[test]
fn ping_changes_nothing() {
    let mut s = CronusScheduler::new();
    add(&mut s, "a", Job::new_rhai_script("1".to_string()), EngineOutcome::Registered(ID1));
    match s.receive(&Command::PingService.to_bytes()) {
        Step::Reply(CommandResponse::ServiceRunning) => {}
        other => panic!("unexpected step {:?}", other),
    }
    assert!(!s.is_waiting());
    assert_eq!(s.len(), 1);
}

#[test]
fn delete_errors() {
    let mut s = CronusScheduler::new();
    match s.receive(&Command::DeleteJob { id: "nope".to_string() }.to_bytes()) {
        Step::Reply(CommandResponse::Error(ErrorKind::BadId, m)) => assert_eq!(m, "invalid job id"),
        other => panic!("unexpected step {:?}", other),
    }
    match s.receive(&Command::DeleteJob { id: job_id_text(ID2) }.to_bytes()) {
        Step::Reply(CommandResponse::Error(ErrorKind::UnknownJob, m)) => assert_eq!(m, "no job has this id"),
        other => panic!("unexpected step {:?}", other),
    }
    add(&mut s, "a", Job::new_rhai_script("1".to_string()), EngineOutcome::Registered(ID2));
    match s.receive(&Command::DeleteJob { id: job_id_text(ID2) }.to_bytes()) {
        Step::Engine(EngineAction::Deregister(x)) => assert_eq!(x, ID2),
        other => panic!("unexpected step {:?}", other),
    }
    match s.complete(EngineOutcome::DeregisterFailed("busy".to_string())) {
        CommandResponse::Error(ErrorKind::UnknownJob, m) => assert_eq!(m, "busy"),
        other => panic!("unexpected reply {:?}", other),
    }
    assert_eq!(s.len(), 1);
}

#[test]
fn malformed_frame_gets_error_reply() {
    let mut s = CronusScheduler::new();
    match s.receive(b"{\"Oops\":1}") {
        Step::Reply(CommandResponse::Error(ErrorKind::Malformed, m)) => assert_eq!(m, "malformed request"),
        other => panic!("unexpected step {:?}", other),
    }
    assert!(!s.is_waiting());
}

#[test]
fn mismatched_outcome_changes_nothing() {
    let mut s = CronusScheduler::new();
    s.receive(&Command::ListJobs.to_bytes());
    assert!(matches!(s.complete(EngineOutcome::Registered(ID1)), CommandResponse::Nothing));
    assert_eq!(s.len(), 0);
    assert!(!s.is_waiting());
}

#[test]
fn stop_ends_the_service() {
    let mut s = CronusScheduler::new();
    add(&mut s, "a", Job::new_rhai_script("1".to_string()), EngineOutcome::Registered(ID1));
    match s.receive(&Command::StopService.to_bytes()) {
        Step::Engine(EngineAction::Shutdown) => {}
        other => panic!("unexpected step {:?}", other),
    }
    assert!(!s.is_stopped());
    assert!(matches!(s.complete(EngineOutcome::ShutDown), CommandResponse::ServiceStopped));
    assert!(s.is_stopped());
    assert_eq!(s.len(), 0);
}

#[test]
fn cli_commands_become_requests() {
    let job = AddSubCommand::Cmd { cmd: "/bin/true".to_string(), args: vec!["x".to_string()] }.into_job();
    assert!(matches!(job, Job::Command(ref p, ref a) if p == "/bin/true" && a.len() == 1));
    assert!(matches!(AddSubCommand::Rhai { script: "1".to_string() }.into_job(), Job::RhaiScript(ref s) if s == "1"));
    assert!(matches!(
        AddSubCommand::RhaiFile { script_file: "/f".to_string() }.into_job(),
        Job::RhaiScriptFile(ref s) if s == "/f"
    ));
    let n = || "cronus".to_string();
    let p = || "/tmp".to_string();
    match (CliCommand::Status { name: n(), path: p() }).invocation() {
        Invocation::Send { name, path, request: Command::PingService } => {
            assert_eq!(name, "cronus");
            assert_eq!(path, "/tmp");
        }
        other => panic!("unexpected invocation {:?}", other),
    }
    assert!(matches!((CliCommand::Stop { name: n(), path: p() }).invocation(), Invocation::Send { request: Command::StopService, .. }));
    assert!(matches!((CliCommand::List { name: n(), path: p() }).invocation(), Invocation::Send { request: Command::ListJobs, .. }));
    assert!(matches!((CliCommand::Start { name: n(), path: p() }).invocation(), Invocation::Start { .. }));
    assert!(matches!((CliCommand::Run { name: n(), path: p() }).invocation(), Invocation::Run { .. }));
    let add = CliCommand::Add {
        name: n(),
        path: p(),
        cron: "0/1 * * * * *".to_string(),
        cmd: AddSubCommand::Rhai { script: "1".to_string() },
    };
    assert!(matches!(add.invocation(), Invocation::Send { request: Command::AddJob { ref cron, job: Job::RhaiScript(_) }, .. } if cron == "0/1 * * * * *"));
    match (CliCommand::Delete { name: n(), path: p(), id: "zz".to_string() }).invocation() {
        Invocation::Refuse(m) => assert_eq!(m, "invalid job id"),
        other => panic!("unexpected invocation {:?}", other),
    }
    let id = job_id_text(ID1);
    assert!(matches!(
        (CliCommand::Delete { name: n(), path: p(), id: id.clone() }).invocation(),
        Invocation::Send { request: Command::DeleteJob { id: ref x }, .. } if *x == id
    ));
}
