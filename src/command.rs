//! The requests and replies of the control protocol.
use vstd::prelude::*;
use crate::job::{Job, JobInfo, JobInfoView, JobView};
use crate::json::{enc_text, push_text};
use crate::words::{key, push_key, push_quoted, quoted, word, Word, CLOSE_BRACE, OPEN_BRACE};
use crate::wire::{
    decode_command, decode_response, enc_command, enc_infos, enc_response, info_views, push_command,
    push_infos, push_response, read_command, read_response,
};

verus! {

/// A request to the service.
#[derive(Debug)]
pub enum Command {
    /// Schedule `job` under the cron expression `cron`.
    AddJob { cron: String, job: Job },
    /// List the scheduled jobs.
    ListJobs,
    /// Remove the job whose identifier is `id`.
    DeleteJob { id: String },
    /// Shut the service down.
    StopService,
    /// Ask whether the service is running.
    PingService,
}

/// The mathematical value of a [`Command`].
pub enum CommandView {
    AddJob { cron: Seq<char>, job: JobView },
    ListJobs,
    DeleteJob { id: Seq<char> },
    StopService,
    PingService,
}

impl View for Command {
    type V = CommandView;

    open spec fn view(&self) -> CommandView {
        match self {
            Command::AddJob { cron, job } => CommandView::AddJob { cron: cron@, job: job@ },
            Command::ListJobs => CommandView::ListJobs,
            Command::DeleteJob { id } => CommandView::DeleteJob { id: id@ },
            Command::StopService => CommandView::StopService,
            Command::PingService => CommandView::PingService,
        }
    }
}

/// Why a request could not be carried out.
#[derive(Clone, Copy, Debug, PartialEq, Eq, Structural)]
pub enum ErrorKind {
    /// The cron expression of a new job does not parse.
    BadCron,
    /// A job identifier is not a valid identifier.
    BadId,
    /// No job has the identifier.
    UnknownJob,
    /// A frame is not a valid request or reply.
    Malformed,
}

/// A reply of the service.
#[derive(Debug)]
pub enum CommandResponse {
    /// A job was scheduled under this identifier.
    JobAdded(String),
    /// The scheduled jobs.
    JobList(Vec<JobInfo>),
    JobDeleted,
    ServiceRunning,
    ServiceStopping,
    ServiceStopped,
    ServiceNotRunning,
    Nothing,
    /// A request failed, for this reason.
    Error(ErrorKind, String),
}

/// The mathematical value of a [`CommandResponse`].
pub enum CommandResponseView {
    JobAdded(Seq<char>),
    JobList(Seq<JobInfoView>),
    JobDeleted,
    ServiceRunning,
    ServiceStopping,
    ServiceStopped,
    ServiceNotRunning,
    Nothing,
    Error(ErrorKind, Seq<char>),
}

impl View for CommandResponse {
    type V = CommandResponseView;

    open spec fn view(&self) -> CommandResponseView {
        match self {
            CommandResponse::JobAdded(id) => CommandResponseView::JobAdded(id@),
            CommandResponse::JobList(v) => CommandResponseView::JobList(info_views(v@)),
            CommandResponse::JobDeleted => CommandResponseView::JobDeleted,
            CommandResponse::ServiceRunning => CommandResponseView::ServiceRunning,
            CommandResponse::ServiceStopping => CommandResponseView::ServiceStopping,
            CommandResponse::ServiceStopped => CommandResponseView::ServiceStopped,
            CommandResponse::ServiceNotRunning => CommandResponseView::ServiceNotRunning,
            CommandResponse::Nothing => CommandResponseView::Nothing,
            CommandResponse::Error(k, m) => CommandResponseView::Error(*k, m@),
        }
    }
}

impl Command {
    /// The frame that carries this request.
    pub fn to_bytes(&self) -> (r: Vec<u8>)
        ensures
            r@ == enc_command(self@),
    {
        let mut out: Vec<u8> = Vec::new();
        push_command(&mut out, self);
        proof {
            assert(out@ =~= enc_command(self@));
        }
        out
    }

    /// The request that the frame `cmd` carries; `Malformed` where the frame
    /// is not exactly one request.
    pub fn from_bytes(cmd: &[u8]) -> (r: Result<Command, ErrorKind>)
        ensures
            match r {
                Ok(c) => decode_command(cmd@) == Some(c@),
                Err(e) => decode_command(cmd@) is None && e == ErrorKind::Malformed,
            },
    {
        match read_command(cmd, 0) {
            Some((c, j)) => if j == cmd.len() {
                Ok(c)
            } else {
                Err(ErrorKind::Malformed)
            },
            None => Err(ErrorKind::Malformed),
        }
    }

    /// Whether this request asks the service to stop.
    pub fn is_stop(&self) -> (r: bool)
        ensures
            r == (self@ is StopService),
    {
        match self {
            Command::StopService => true,
            _ => false,
        }
    }
}

impl CommandResponse {
    /// The frame that carries this reply.
    pub fn to_bytes(&self) -> (r: Vec<u8>)
        ensures
            r@ == enc_response(self@),
    {
        let mut out: Vec<u8> = Vec::new();
        push_response(&mut out, self);
        proof {
            assert(out@ =~= enc_response(self@));
        }
        out
    }

    /// The reply that the frame `cmd` carries; `Malformed` where the frame is
    /// not exactly one reply.
    pub fn from_bytes(cmd: &[u8]) -> (r: Result<CommandResponse, ErrorKind>)
        ensures
            match r {
                Ok(c) => decode_response(cmd@) == Some(c@),
                Err(e) => decode_response(cmd@) is None && e == ErrorKind::Malformed,
            },
    {
        match read_response(cmd, 0) {
            Some((c, j)) => if j == cmd.len() {
                Ok(c)
            } else {
                Err(ErrorKind::Malformed)
            },
            None => Err(ErrorKind::Malformed),
        }
    }
}

/// `{"message":"<text>"}` for the fixed text `w`.
pub open spec fn message_object(w: Word) -> Seq<u8> {
    seq![OPEN_BRACE] + key(word(Word::MessageKey)) + quoted(word(w)) + seq![CLOSE_BRACE]
}

/// `{"<k>":<t>}` for the key `k` and the string `t`.
pub open spec fn text_object(k: Word, t: Seq<char>) -> Seq<u8> {
    seq![OPEN_BRACE] + key(word(k)) + enc_text(t) + seq![CLOSE_BRACE]
}

/// The JSON text that the client prints for a reply; nothing for `Nothing`.
pub open spec fn json_msg(r: CommandResponseView) -> Option<Seq<u8>> {
    match r {
        CommandResponseView::JobAdded(id) => Some(text_object(Word::JobIdKey, id)),
        CommandResponseView::JobList(vs) => Some(enc_infos(vs)),
        CommandResponseView::JobDeleted => Some(message_object(Word::JobDeletedText)),
        CommandResponseView::ServiceRunning => Some(message_object(Word::ServiceRunningText)),
        CommandResponseView::ServiceStopping => Some(message_object(Word::ServiceStoppingText)),
        CommandResponseView::ServiceStopped => Some(message_object(Word::ServiceStoppedText)),
        CommandResponseView::ServiceNotRunning => Some(
            message_object(Word::ServiceNotRunningText),
        ),
        CommandResponseView::Nothing => None,
        CommandResponseView::Error(_, m) => Some(text_object(Word::ErrorKey, m)),
    }
}

fn message_json(w: Word) -> (r: Vec<u8>)
    ensures
        r@ == message_object(w),
{
    let mut out: Vec<u8> = Vec::new();
    out.push(OPEN_BRACE);
    push_key(&mut out, Word::MessageKey);
    push_quoted(&mut out, w);
    out.push(CLOSE_BRACE);
    proof {
        assert(out@ =~= message_object(w));
    }
    out
}

fn text_json(k: Word, t: &str) -> (r: Vec<u8>)
    ensures
        r@ == text_object(k, t@),
{
    let mut out: Vec<u8> = Vec::new();
    out.push(OPEN_BRACE);
    push_key(&mut out, k);
    push_text(&mut out, t);
    out.push(CLOSE_BRACE);
    proof {
        assert(out@ =~= text_object(k, t@));
    }
    out
}

/// `{"error":"<msg>"}`: what the client prints when a command fails.
pub fn error_json(msg: &str) -> (r: Vec<u8>)
    ensures
        r@ == text_object(Word::ErrorKey, msg@),
{
    text_json(Word::ErrorKey, msg)
}

impl CommandResponse {
    /// The JSON text that the client prints for this reply, if any.
    pub fn to_json_msg(&self) -> (r: Option<Vec<u8>>)
        ensures
            match r {
                Some(v) => json_msg(self@) == Some(v@),
                None => json_msg(self@) is None,
            },
    {
        match self {
            CommandResponse::JobAdded(id) => Some(text_json(Word::JobIdKey, id.as_str())),
            CommandResponse::JobList(v) => {
                let mut out: Vec<u8> = Vec::new();
                push_infos(&mut out, v);
                proof {
                    assert(out@ =~= enc_infos(info_views(v@)));
                }
                Some(out)
            },
            CommandResponse::JobDeleted => Some(message_json(Word::JobDeletedText)),
            CommandResponse::ServiceRunning => Some(message_json(Word::ServiceRunningText)),
            CommandResponse::ServiceStopping => Some(message_json(Word::ServiceStoppingText)),
            CommandResponse::ServiceStopped => Some(message_json(Word::ServiceStoppedText)),
            CommandResponse::ServiceNotRunning => Some(message_json(Word::ServiceNotRunningText)),
            CommandResponse::Nothing => None,
            CommandResponse::Error(_, m) => Some(text_json(Word::ErrorKey, m.as_str())),
        }
    }

    /// Whether this reply to a ping says that the service runs.
    pub fn confirms_running(&self) -> (r: bool)
        ensures
            r == (self@ is ServiceRunning),
    {
        match self {
            CommandResponse::ServiceRunning => true,
            _ => false,
        }
    }
}

} // verus!
