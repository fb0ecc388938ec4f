//! What the command-line client is asked to do, and what it makes of that.
use vstd::prelude::*;
use crate::command::{Command as Request, CommandView as RequestView};
use crate::ident::{job_id_of, parse_job_id};
use crate::job::{texts, Job, JobView};

verus! {

/// A kind of job, as the client's `add` command names it.
#[derive(Debug)]
pub enum AddSubCommand {
    /// An executable path and its arguments.
    Cmd { cmd: String, args: Vec<String> },
    /// The source of an inline script.
    Rhai { script: String },
    /// The path of a script file.
    RhaiFile { script_file: String },
}

impl AddSubCommand {
    /// The job that this command describes.
    pub fn into_job(self) -> (r: Job)
        ensures
            r@ == (match self {
                AddSubCommand::Cmd { cmd, args } => JobView::Command(cmd@, texts(args@)),
                AddSubCommand::Rhai { script } => JobView::RhaiScript(script@),
                AddSubCommand::RhaiFile { script_file } => JobView::RhaiScriptFile(script_file@),
            }),
    {
        match self {
            AddSubCommand::Cmd { cmd, args } => Job::new_command(cmd, args),
            AddSubCommand::Rhai { script } => Job::new_rhai_script(script),
            AddSubCommand::RhaiFile { script_file } => Job::new_rhai_script_file(script_file),
        }
    }
}

/// A command of the client. Each names the service by `name` and the
/// directory `path` of its endpoint.
#[derive(Debug)]
pub enum Command {
    /// Start the service unless it already runs.
    Start { name: String, path: String },
    /// Stop the service.
    Stop { name: String, path: String },
    /// Add a job under a cron expression.
    Add { name: String, path: String, cron: String, cmd: AddSubCommand },
    /// Delete the job with identifier `id`.
    Delete { name: String, path: String, id: String },
    /// List the jobs.
    List { name: String, path: String },
    /// Run the service in this process.
    Run { name: String, path: String },
    /// Ask whether the service runs.
    Status { name: String, path: String },
}

/// What the client does for a command.
#[derive(Debug)]
pub enum Invocation {
    /// Start the service named `name` under `path`, unless it already runs.
    Start { name: String, path: String },
    /// Run the service in this process.
    Run { name: String, path: String },
    /// Send `request` to the service and report its reply.
    Send { name: String, path: String, request: Request },
    /// Refuse the command, for the reason given.
    Refuse(String),
}

pub enum InvocationView {
    Start { name: Seq<char>, path: Seq<char> },
    Run { name: Seq<char>, path: Seq<char> },
    Send { name: Seq<char>, path: Seq<char>, request: RequestView },
    Refuse(Seq<char>),
}

impl View for Invocation {
    type V = InvocationView;

    open spec fn view(&self) -> InvocationView {
        match self {
            Invocation::Start { name, path } => InvocationView::Start { name: name@, path: path@ },
            Invocation::Run { name, path } => InvocationView::Run { name: name@, path: path@ },
            Invocation::Send { name, path, request } => InvocationView::Send {
                name: name@,
                path: path@,
                request: request@,
            },
            Invocation::Refuse(m) => InvocationView::Refuse(m@),
        }
    }
}

/// The job that an `add` command describes.
pub open spec fn sub_job(c: AddSubCommand) -> JobView {
    match c {
        AddSubCommand::Cmd { cmd, args } => JobView::Command(cmd@, texts(args@)),
        AddSubCommand::Rhai { script } => JobView::RhaiScript(script@),
        AddSubCommand::RhaiFile { script_file } => JobView::RhaiScriptFile(script_file@),
    }
}

/// What the client does for a command: start or run the service, or send
/// it the matching request. A delete whose identifier does not parse is
/// refused before anything is sent.
pub open spec fn invocation_of(c: Command) -> InvocationView {
    match c {
        Command::Start { name, path } => InvocationView::Start { name: name@, path: path@ },
        Command::Run { name, path } => InvocationView::Run { name: name@, path: path@ },
        Command::Stop { name, path } => InvocationView::Send {
            name: name@,
            path: path@,
            request: RequestView::StopService,
        },
        Command::Add { name, path, cron, cmd } => InvocationView::Send {
            name: name@,
            path: path@,
            request: RequestView::AddJob { cron: cron@, job: sub_job(cmd) },
        },
        Command::Delete { name, path, id } => if job_id_of(id@) is Some {
            InvocationView::Send {
                name: name@,
                path: path@,
                request: RequestView::DeleteJob { id: id@ },
            }
        } else {
            InvocationView::Refuse("invalid job id"@)
        },
        Command::List { name, path } => InvocationView::Send {
            name: name@,
            path: path@,
            request: RequestView::ListJobs,
        },
        Command::Status { name, path } => InvocationView::Send {
            name: name@,
            path: path@,
            request: RequestView::PingService,
        },
    }
}

impl Command {
    /// What the client does for this command.
    pub fn invocation(self) -> (r: Invocation)
        ensures
            r@ == invocation_of(self),
    {
        match self {
            Command::Start { name, path } => Invocation::Start { name, path },
            Command::Run { name, path } => Invocation::Run { name, path },
            Command::Stop { name, path } => Invocation::Send {
                name,
                path,
                request: Request::StopService,
            },
            Command::Add { name, path, cron, cmd } => Invocation::Send {
                name,
                path,
                request: Request::AddJob { cron, job: cmd.into_job() },
            },
            Command::Delete { name, path, id } => {
                if parse_job_id(id.as_str()).is_some() {
                    Invocation::Send { name, path, request: Request::DeleteJob { id } }
                } else {
                    Invocation::Refuse("invalid job id".to_owned())
                }
            },
            Command::List { name, path } => Invocation::Send {
                name,
                path,
                request: Request::ListJobs,
            },
            Command::Status { name, path } => Invocation::Send {
                name,
                path,
                request: Request::PingService,
            },
        }
    }
}

} // verus!
