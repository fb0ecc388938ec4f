//! The decisions of the service that keeps the jobs.
//!
//! The service owns a registry of jobs and a cron engine that fires them. A
//! request is handled in two steps: [`CronusScheduler::handle`] decides what the
//! engine must do, or answers at once; once the engine has done it,
//! [`CronusScheduler::complete`] takes its outcome, updates the registry and
//! gives the reply. The registry changes only in `complete`.
use vstd::prelude::*;
use crate::command::{Command, CommandResponse, CommandResponseView, CommandView, ErrorKind};
use crate::ident::{hyphenated, job_id_of, job_id_text, parse_job_id};
use crate::job::{Job, JobInfo, JobInfoView, JobView};
use crate::wire::{decode_command, info_views};

verus! {

/// What the cron engine reports of one live entry.
#[derive(Debug)]
pub struct EntryMeta {
    /// The entry's identifier.
    pub id: u128,
    /// The entry's cron expression.
    pub cron: String,
    /// When the entry last fired, in Unix seconds.
    pub last_tick: Option<u64>,
    /// When the entry fires next, in Unix seconds.
    pub next_tick: u64,
}

/// The mathematical value of an [`EntryMeta`].
pub struct EntryMetaView {
    pub id: u128,
    pub cron: Seq<char>,
    pub last_tick: Option<u64>,
    pub next_tick: u64,
}

impl View for EntryMeta {
    type V = EntryMetaView;

    open spec fn view(&self) -> EntryMetaView {
        EntryMetaView {
            id: self.id,
            cron: self.cron@,
            last_tick: self.last_tick,
            next_tick: self.next_tick,
        }
    }
}

/// What the service asks of the cron engine.
#[derive(Debug)]
pub enum EngineAction {
    /// Parse `cron` and start firing `job` on its schedule.
    Register { cron: String, job: Job },
    /// Report every live entry.
    Snapshot,
    /// Stop firing the entry with this identifier.
    Deregister(u128),
    /// Cancel every entry and stop.
    Shutdown,
}

/// What the cron engine reports back.
#[derive(Debug)]
pub enum EngineOutcome {
    /// The job was registered under this identifier.
    Registered(u128),
    /// The cron expression does not parse; the message says why.
    RejectedCron(String),
    /// The live entries whose metadata is at hand.
    Entries(Vec<EntryMeta>),
    /// The entry was removed.
    Deregistered,
    /// The entry could not be removed; the message says why.
    DeregisterFailed(String),
    /// The engine has stopped.
    ShutDown,
}

/// The next step after a request: a reply, or work for the engine.
#[derive(Debug)]
pub enum Step {
    Reply(CommandResponse),
    Engine(EngineAction),
}

pub enum EngineActionView {
    Register { cron: Seq<char>, job: JobView },
    Snapshot,
    Deregister(u128),
    Shutdown,
}

impl View for EngineAction {
    type V = EngineActionView;

    open spec fn view(&self) -> EngineActionView {
        match self {
            EngineAction::Register { cron, job } => EngineActionView::Register {
                cron: cron@,
                job: job@,
            },
            EngineAction::Snapshot => EngineActionView::Snapshot,
            EngineAction::Deregister(id) => EngineActionView::Deregister(*id),
            EngineAction::Shutdown => EngineActionView::Shutdown,
        }
    }
}

pub enum EngineOutcomeView {
    Registered(u128),
    RejectedCron(Seq<char>),
    Entries(Seq<EntryMetaView>),
    Deregistered,
    DeregisterFailed(Seq<char>),
    ShutDown,
}

/// The views of a list of metadata entries.
pub open spec fn meta_views(v: Seq<EntryMeta>) -> Seq<EntryMetaView> {
    v.map_values(|m: EntryMeta| m@)
}

impl View for EngineOutcome {
    type V = EngineOutcomeView;

    open spec fn view(&self) -> EngineOutcomeView {
        match self {
            EngineOutcome::Registered(id) => EngineOutcomeView::Registered(*id),
            EngineOutcome::RejectedCron(m) => EngineOutcomeView::RejectedCron(m@),
            EngineOutcome::Entries(v) => EngineOutcomeView::Entries(meta_views(v@)),
            EngineOutcome::Deregistered => EngineOutcomeView::Deregistered,
            EngineOutcome::DeregisterFailed(m) => EngineOutcomeView::DeregisterFailed(m@),
            EngineOutcome::ShutDown => EngineOutcomeView::ShutDown,
        }
    }
}

pub enum StepView {
    Reply(CommandResponseView),
    Engine(EngineActionView),
}

impl View for Step {
    type V = StepView;

    open spec fn view(&self) -> StepView {
        match self {
            Step::Reply(r) => StepView::Reply(r@),
            Step::Engine(a) => StepView::Engine(a@),
        }
    }
}

/// Where the service stands in its life.
#[derive(Clone, Copy, Debug, PartialEq, Eq, Structural)]
pub enum Phase {
    Running,
    Stopping,
    Stopped,
}

/// The request that waits for the engine's outcome.
#[derive(Debug)]
pub enum Pending {
    Add(Job),
    List,
    Delete(u128),
    Stop,
}

pub enum PendingView {
    Add(JobView),
    List,
    Delete(u128),
    Stop,
}

impl View for Pending {
    type V = PendingView;

    open spec fn view(&self) -> PendingView {
        match self {
            Pending::Add(j) => PendingView::Add(j@),
            Pending::List => PendingView::List,
            Pending::Delete(id) => PendingView::Delete(*id),
            Pending::Stop => PendingView::Stop,
        }
    }
}

/// The registry of a service: its jobs in the order they were added, each
/// under its identifier.
pub type Registry = Seq<(u128, JobView)>;

/// Whether some job of `s` has the identifier `id`.
pub open spec fn has_id(s: Registry, id: u128) -> bool {
    exists|k: int| 0 <= k < s.len() && (#[trigger] s[k]).0 == id
}

/// The identifiers of the jobs of `s`.
pub open spec fn ids(s: Registry) -> Set<u128> {
    Set::new(|id: u128| has_id(s, id))
}

/// No identifier stands twice in `s`.
pub open spec fn unique_ids(s: Registry) -> bool {
    forall|i: int, j: int| 0 <= i < j < s.len() ==> (#[trigger] s[i]).0 != (#[trigger] s[j]).0
}

/// Where the job with identifier `id` stands in `s`.
pub open spec fn index_of(s: Registry, id: u128) -> int {
    choose|k: int| 0 <= k < s.len() && (#[trigger] s[k]).0 == id
}

/// The registry after the engine registered `job` under `id`: the job is
/// added at the end, or takes the place of the job that had that identifier.
pub open spec fn after_add(s: Registry, id: u128, job: JobView) -> Registry {
    if has_id(s, id) {
        s.update(index_of(s, id), (id, job))
    } else {
        s.push((id, job))
    }
}

/// The registry after the job with identifier `id` was removed.
pub open spec fn after_delete(s: Registry, id: u128) -> Registry {
    if has_id(s, id) {
        s.remove(index_of(s, id))
    } else {
        s
    }
}

/// The metadata that `metas` holds for `id`: its first entry with that identifier.
pub open spec fn meta_for(metas: Seq<EntryMetaView>, id: u128) -> Option<EntryMetaView>
    decreases metas.len(),
{
    if metas.len() == 0 {
        None
    } else if metas[0].id == id {
        Some(metas[0])
    } else {
        meta_for(metas.drop_first(), id)
    }
}

/// The listing entry of a registered job and its metadata.
pub open spec fn info_of(id: u128, job: JobView, m: EntryMetaView) -> JobInfoView {
    JobInfoView {
        id: hyphenated(id),
        cron: m.cron,
        last_run: m.last_tick,
        next_run: Some(m.next_tick),
        job,
    }
}

/// The listing of a registry: one entry for each job whose metadata the
/// engine reported, in registry order.
pub open spec fn listing(s: Registry, metas: Seq<EntryMetaView>) -> Seq<JobInfoView>
    decreases s.len(),
{
    if s.len() == 0 {
        Seq::empty()
    } else {
        let (id, job) = s.last();
        let rest = listing(s.drop_last(), metas);
        match meta_for(metas, id) {
            Some(m) => rest.push(info_of(id, job, m)),
            None => rest,
        }
    }
}

/// The reply to a request that the service answers without the engine.
pub open spec fn immediate_reply(c: CommandView, s: Registry) -> Option<CommandResponseView> {
    match c {
        CommandView::PingService => Some(CommandResponseView::ServiceRunning),
        CommandView::DeleteJob { id } => match job_id_of(id) {
            None => Some(CommandResponseView::Error(ErrorKind::BadId, bad_id_message())),
            Some(x) => if has_id(s, x) {
                None
            } else {
                Some(CommandResponseView::Error(ErrorKind::UnknownJob, unknown_job_message()))
            },
        },
        _ => None,
    }
}

/// The step that a request leads to, in a registry `s`.
pub open spec fn planned_step(c: CommandView, s: Registry) -> StepView {
    match immediate_reply(c, s) {
        Some(r) => StepView::Reply(r),
        None => match c {
            CommandView::AddJob { cron, job } => StepView::Engine(
                EngineActionView::Register { cron, job },
            ),
            CommandView::ListJobs => StepView::Engine(EngineActionView::Snapshot),
            CommandView::DeleteJob { id } => StepView::Engine(
                EngineActionView::Deregister(job_id_of(id)->0),
            ),
            CommandView::StopService => StepView::Engine(EngineActionView::Shutdown),
            CommandView::PingService => StepView::Reply(CommandResponseView::ServiceRunning),
        },
    }
}

/// The request that waits after a request led to engine work.
pub open spec fn planned_pending(c: CommandView, s: Registry) -> Option<PendingView> {
    match immediate_reply(c, s) {
        Some(_) => None,
        None => match c {
            CommandView::AddJob { cron, job } => Some(PendingView::Add(job)),
            CommandView::ListJobs => Some(PendingView::List),
            CommandView::DeleteJob { id } => Some(PendingView::Delete(job_id_of(id)->0)),
            CommandView::StopService => Some(PendingView::Stop),
            CommandView::PingService => None,
        },
    }
}

/// The registry and the reply once the engine reported `o` for the waiting
/// request `p`. An outcome that does not answer the waiting request changes
/// nothing and gets no reply.
pub open spec fn completed(s: Registry, p: PendingView, o: EngineOutcomeView) -> (
    Registry,
    CommandResponseView,
) {
    match (p, o) {
        (PendingView::Add(job), EngineOutcomeView::Registered(id)) => (
            after_add(s, id, job),
            CommandResponseView::JobAdded(hyphenated(id)),
        ),
        (PendingView::Add(_), EngineOutcomeView::RejectedCron(m)) => (
            s,
            CommandResponseView::Error(ErrorKind::BadCron, m),
        ),
        (PendingView::List, EngineOutcomeView::Entries(metas)) => (
            s,
            CommandResponseView::JobList(listing(s, metas)),
        ),
        (PendingView::Delete(id), EngineOutcomeView::Deregistered) => (
            after_delete(s, id),
            CommandResponseView::JobDeleted,
        ),
        (PendingView::Delete(_), EngineOutcomeView::DeregisterFailed(m)) => (
            s,
            CommandResponseView::Error(ErrorKind::UnknownJob, m),
        ),
        (PendingView::Stop, EngineOutcomeView::ShutDown) => (
            Seq::empty(),
            CommandResponseView::ServiceStopped,
        ),
        _ => (s, CommandResponseView::Nothing),
    }
}

/// Whether the engine's outcome `o` shuts the service down for the waiting request `p`.
pub open spec fn stops(p: PendingView, o: EngineOutcomeView) -> bool {
    p is Stop && o is ShutDown
}

pub open spec fn malformed_message() -> Seq<char> {
    "malformed request"@
}

pub open spec fn bad_id_message() -> Seq<char> {
    "invalid job id"@
}

pub open spec fn unknown_job_message() -> Seq<char> {
    "no job has this id"@
}

/// A completed change of the job set: a job registered under an identifier,
/// or the job with an identifier removed.
pub enum JobOp {
    Add(u128, JobView),
    Delete(u128),
}

pub open spec fn adds(op: JobOp, id: u128) -> bool {
    match op {
        JobOp::Add(x, _) => x == id,
        JobOp::Delete(_) => false,
    }
}

pub open spec fn deletes(op: JobOp, id: u128) -> bool {
    match op {
        JobOp::Delete(x) => x == id,
        JobOp::Add(_, _) => false,
    }
}

/// The registry after the changes `ops`, made in order on an empty one.
pub open spec fn replay(ops: Seq<JobOp>) -> Registry
    decreases ops.len(),
{
    if ops.len() == 0 {
        Seq::empty()
    } else {
        let s = replay(ops.drop_last());
        match ops.last() {
            JobOp::Add(id, job) => after_add(s, id, job),
            JobOp::Delete(id) => after_delete(s, id),
        }
    }
}

/// The identifiers that `ops` added and did not delete afterwards.
pub open spec fn live(ops: Seq<JobOp>) -> Set<u128> {
    Set::new(
        |id: u128|
            exists|i: int|
                0 <= i < ops.len() && adds(#[trigger] ops[i], id) && forall|j: int|
                    i < j < ops.len() ==> !deletes(#[trigger] ops[j], id),
    )
}

proof fn lemma_after_add(s: Registry, id: u128, job: JobView)
    requires
        unique_ids(s),
    ensures
        unique_ids(after_add(s, id, job)),
        ids(after_add(s, id, job)) == ids(s).insert(id),
{
    let t = after_add(s, id, job);
    if has_id(s, id) {
        let k = index_of(s, id);
        assert forall|x: u128| has_id(t, x) <==> (has_id(s, x) || x == id) by {
            if has_id(s, x) {
                let m = choose|m: int| 0 <= m < s.len() && (#[trigger] s[m]).0 == x;
                assert(t[m].0 == x);
            }
            if has_id(t, x) {
                let m = choose|m: int| 0 <= m < t.len() && (#[trigger] t[m]).0 == x;
                assert(s[m].0 == x || m == k);
            }
        }
    } else {
        assert forall|x: u128| has_id(t, x) <==> (has_id(s, x) || x == id) by {
            if has_id(s, x) {
                let m = choose|m: int| 0 <= m < s.len() && (#[trigger] s[m]).0 == x;
                assert(t[m].0 == x);
            }
            if x == id {
                assert(t[s.len() as int].0 == x);
            }
            if has_id(t, x) {
                let m = choose|m: int| 0 <= m < t.len() && (#[trigger] t[m]).0 == x;
                if m < s.len() {
                    assert(s[m].0 == x);
                }
            }
        }
    }
    assert(ids(t) =~= ids(s).insert(id));
}

proof fn lemma_after_delete(s: Registry, id: u128)
    requires
        unique_ids(s),
    ensures
        unique_ids(after_delete(s, id)),
        ids(after_delete(s, id)) == ids(s).remove(id),
{
    let t = after_delete(s, id);
    if has_id(s, id) {
        let k = index_of(s, id);
        assert forall|i: int| 0 <= i < t.len() implies #[trigger] t[i] == s[if i < k {
            i
        } else {
            i + 1
        }] by {}
        assert forall|x: u128| has_id(t, x) <==> (has_id(s, x) && x != id) by {
            if has_id(s, x) && x != id {
                let m = choose|m: int| 0 <= m < s.len() && (#[trigger] s[m]).0 == x;
                if m < k {
                    assert(t[m].0 == x);
                } else {
                    assert(m != k);
                    assert(t[m - 1].0 == x);
                }
            }
            if has_id(t, x) {
                let m = choose|m: int| 0 <= m < t.len() && (#[trigger] t[m]).0 == x;
                let m0 = if m < k {
                    m
                } else {
                    m + 1
                };
                assert(s[m0].0 == x);
                assert(m0 != k);
                if m0 < k {
                    assert(s[m0].0 != s[k].0);
                } else {
                    assert(s[k].0 != s[m0].0);
                }
            }
        }
        assert forall|i: int, j: int| 0 <= i < j < t.len() implies (#[trigger] t[i]).0 != (
        #[trigger] t[j]).0 by {
            let i0 = if i < k {
                i
            } else {
                i + 1
            };
            let j0 = if j < k {
                j
            } else {
                j + 1
            };
            assert(s[i0].0 != s[j0].0);
        }
    }
    assert(ids(t) =~= ids(s).remove(id));
}

/// Whatever changes are made, no identifier is registered twice, and the
/// registry holds exactly the jobs that were added and not deleted since.
pub proof fn lemma_replay_keeps_live(ops: Seq<JobOp>)
    ensures
        unique_ids(replay(ops)),
        ids(replay(ops)) == live(ops),
    decreases ops.len(),
{
    if ops.len() == 0 {
        assert(ids(replay(ops)) =~= live(ops));
    } else {
        let prev = ops.drop_last();
        lemma_replay_keeps_live(prev);
        let s = replay(prev);
        let n = ops.len() - 1;
        assert forall|i: int| 0 <= i < n implies #[trigger] prev[i] == ops[i] by {}
        match ops.last() {
            JobOp::Add(id, job) => {
                lemma_after_add(s, id, job);
                assert forall|x: u128| live(ops).contains(x) <==> (live(prev).contains(x) || x
                    == id) by {
                    if x == id {
                        assert(adds(ops[n], x));
                    }
                    if live(prev).contains(x) {
                        let i = choose|i: int|
                            0 <= i < prev.len() && adds(#[trigger] prev[i], x) && forall|j: int|
                                i < j < prev.len() ==> !deletes(#[trigger] prev[j], x);
                        assert(adds(ops[i], x));
                        assert forall|j: int| i < j < ops.len() implies !deletes(
                            #[trigger] ops[j],
                            x,
                        ) by {
                            if j < n {
                                assert(prev[j] == ops[j]);
                            }
                        }
                    }
                    if live(ops).contains(x) && x != id {
                        let i = choose|i: int|
                            0 <= i < ops.len() && adds(#[trigger] ops[i], x) && forall|j: int|
                                i < j < ops.len() ==> !deletes(#[trigger] ops[j], x);
                        assert(i != n);
                        assert(adds(prev[i], x));
                        assert forall|j: int| i < j < prev.len() implies !deletes(
                            #[trigger] prev[j],
                            x,
                        ) by {
                            assert(!deletes(ops[j], x));
                        }
                    }
                }
                assert(live(ops) =~= live(prev).insert(id));
            },
            JobOp::Delete(id) => {
                lemma_after_delete(s, id);
                assert forall|x: u128| live(ops).contains(x) <==> (live(prev).contains(x) && x
                    != id) by {
                    if live(prev).contains(x) && x != id {
                        let i = choose|i: int|
                            0 <= i < prev.len() && adds(#[trigger] prev[i], x) && forall|j: int|
                                i < j < prev.len() ==> !deletes(#[trigger] prev[j], x);
                        assert(adds(ops[i], x));
                        assert forall|j: int| i < j < ops.len() implies !deletes(
                            #[trigger] ops[j],
                            x,
                        ) by {
                            if j < n {
                                assert(prev[j] == ops[j]);
                            }
                        }
                    }
                    if live(ops).contains(x) {
                        let i = choose|i: int|
                            0 <= i < ops.len() && adds(#[trigger] ops[i], x) && forall|j: int|
                                i < j < ops.len() ==> !deletes(#[trigger] ops[j], x);
                        assert(i != n);
                        if x == id {
                            assert(deletes(ops[n], x));
                        }
                        assert(adds(prev[i], x));
                        assert forall|j: int| i < j < prev.len() implies !deletes(
                            #[trigger] prev[j],
                            x,
                        ) by {
                            assert(!deletes(ops[j], x));
                        }
                    }
                }
                assert(live(ops) =~= live(prev).remove(id));
            },
        }
    }
}

/// Where the engine reports metadata for every job, the listing holds one
/// entry per job, in registry order, naming the job by its canonical text.
pub proof fn lemma_listing_complete(s: Registry, metas: Seq<EntryMetaView>)
    requires
        forall|k: int| 0 <= k < s.len() ==> meta_for(metas, (#[trigger] s[k]).0) is Some,
    ensures
        listing(s, metas).len() == s.len(),
        forall|k: int|
            0 <= k < s.len() ==> (#[trigger] listing(s, metas)[k]).id == hyphenated(s[k].0)
                && listing(s, metas)[k].job == s[k].1,
    decreases s.len(),
{
    if s.len() > 0 {
        let prev = s.drop_last();
        assert forall|k: int| 0 <= k < prev.len() implies meta_for(
            metas,
            (#[trigger] prev[k]).0,
        ) is Some by {
            assert(prev[k] == s[k]);
        }
        lemma_listing_complete(prev, metas);
        assert(meta_for(metas, s[s.len() - 1].0) is Some);
        assert forall|k: int| 0 <= k < s.len() implies (#[trigger] listing(s, metas)[k]).id
            == hyphenated(s[k].0) && listing(s, metas)[k].job == s[k].1 by {
            if k < prev.len() {
                assert(prev[k] == s[k]);
                assert(listing(s, metas)[k] == listing(prev, metas)[k]);
            }
        }
    }
}

/// The identifier texts that a listing names.
pub open spec fn listed_ids(l: Seq<JobInfoView>) -> Set<Seq<char>> {
    Set::new(|t: Seq<char>| exists|k: int| 0 <= k < l.len() && (#[trigger] l[k]).id == t)
}

/// The canonical texts of a set of identifiers.
pub open spec fn id_texts(ids: Set<u128>) -> Set<Seq<char>> {
    Set::new(|t: Seq<char>| exists|id: u128| #[trigger] ids.contains(id) && hyphenated(id) == t)
}

/// Listing at a quiescent point, where the engine reports metadata for every
/// live job, names exactly the jobs that were added and not deleted since.
pub proof fn lemma_listing_names_live_jobs(ops: Seq<JobOp>, metas: Seq<EntryMetaView>)
    requires
        forall|id: u128| #[trigger] live(ops).contains(id) ==> meta_for(metas, id) is Some,
    ensures
        listed_ids(listing(replay(ops), metas)) == id_texts(live(ops)),
{
    lemma_replay_keeps_live(ops);
    let s = replay(ops);
    let l = listing(s, metas);
    assert forall|k: int| 0 <= k < s.len() implies meta_for(metas, (#[trigger] s[k]).0) is Some by {
        assert(has_id(s, s[k].0));
        assert(ids(s).contains(s[k].0));
    }
    lemma_listing_complete(s, metas);
    assert forall|t: Seq<char>| #[trigger] listed_ids(l).contains(t) implies id_texts(
        live(ops),
    ).contains(t) by {
        let k = choose|k: int| 0 <= k < l.len() && (#[trigger] l[k]).id == t;
        assert(has_id(s, s[k].0));
        assert(ids(s).contains(s[k].0));
        assert(live(ops).contains(s[k].0));
    }
    assert forall|t: Seq<char>| #[trigger] id_texts(live(ops)).contains(t) implies listed_ids(
        l,
    ).contains(t) by {
        let id = choose|id: u128| #[trigger] live(ops).contains(id) && hyphenated(id) == t;
        assert(ids(s).contains(id));
        let k = choose|k: int| 0 <= k < s.len() && (#[trigger] s[k]).0 == id;
        assert(l[k].id == t);
    }
    assert(listed_ids(l) =~= id_texts(live(ops)));
}

/// The identifier that an add reports deletes the job it names: the delete
/// goes to the engine for that identifier, and once the engine removed it,
/// the reply is `JobDeleted` and the job is gone.
pub proof fn lemma_added_id_deletes(s: Registry, id: u128, job: JobView)
    requires
        unique_ids(s),
    ensures
        ({
            let (t, reply) = completed(s, PendingView::Add(job), EngineOutcomeView::Registered(id));
            let del = CommandView::DeleteJob { id: hyphenated(id) };
            &&& reply == CommandResponseView::JobAdded(hyphenated(id))
            &&& planned_step(del, t) == StepView::Engine(EngineActionView::Deregister(id))
            &&& planned_pending(del, t) == Some(PendingView::Delete(id))
            &&& completed(t, PendingView::Delete(id), EngineOutcomeView::Deregistered).1
                == CommandResponseView::JobDeleted
            &&& !ids(
                completed(t, PendingView::Delete(id), EngineOutcomeView::Deregistered).0,
            ).contains(id)
        }),
{
    crate::ident::lemma_job_id_of_hyphenated(id);
    lemma_after_add(s, id, job);
    let t = after_add(s, id, job);
    assert(ids(t).contains(id));
    lemma_after_delete(t, id);
}

/// An add whose cron expression the engine rejects leaves the jobs as they
/// were and reports the reason.
pub proof fn lemma_bad_cron_keeps_jobs(s: Registry, job: JobView, why: Seq<char>)
    ensures
        completed(s, PendingView::Add(job), EngineOutcomeView::RejectedCron(why)) == (
            s,
            CommandResponseView::Error(ErrorKind::BadCron, why),
        ),
{
}

/// A ping is answered at once with `ServiceRunning`, asks nothing of the
/// engine, and leaves nothing waiting.
pub proof fn lemma_ping_is_pure(s: Registry)
    ensures
        planned_step(CommandView::PingService, s) == StepView::Reply(
            CommandResponseView::ServiceRunning,
        ),
        planned_pending(CommandView::PingService, s) is None,
{
}

/// A stop asks the engine to shut down; once it has, the reply is
/// `ServiceStopped`, no job is left, and the service has stopped.
pub proof fn lemma_stop_ends_service(s: Registry)
    ensures
        planned_step(CommandView::StopService, s) == StepView::Engine(EngineActionView::Shutdown),
        planned_pending(CommandView::StopService, s) == Some(PendingView::Stop),
        completed(s, PendingView::Stop, EngineOutcomeView::ShutDown) == (
            Seq::<(u128, JobView)>::empty(),
            CommandResponseView::ServiceStopped,
        ),
        stops(PendingView::Stop, EngineOutcomeView::ShutDown),
{
}

/// The keeper of the jobs of a running service.
pub struct CronusScheduler {
    jobs: Vec<(u128, Job)>,
    pending: Option<Pending>,
    phase: Phase,
}

/// The mathematical value of a [`CronusScheduler`].
pub struct CronusSchedulerView {
    pub jobs: Registry,
    pub pending: Option<PendingView>,
    pub phase: Phase,
}

/// The registry that a vector of jobs holds.
pub open spec fn registry_of(v: Seq<(u128, Job)>) -> Registry {
    v.map_values(|e: (u128, Job)| (e.0, e.1@))
}

impl View for CronusScheduler {
    type V = CronusSchedulerView;

    closed spec fn view(&self) -> CronusSchedulerView {
        CronusSchedulerView {
            jobs: registry_of(self.jobs@),
            pending: match self.pending {
                Some(p) => Some(p@),
                None => None,
            },
            phase: self.phase,
        }
    }
}

impl CronusScheduler {
    /// The scheduler's invariant: no identifier is registered twice, and a
    /// stopped service keeps no jobs and waits for nothing.
    pub open spec fn wf(&self) -> bool {
        &&& unique_ids(self@.jobs)
        &&& (self@.phase == Phase::Stopped ==> self@.jobs.len() == 0 && self@.pending is None)
    }

    /// A running service with no jobs.
    pub fn new() -> (r: CronusScheduler)
        ensures
            r.wf(),
            r@.jobs == Seq::<(u128, JobView)>::empty(),
            r@.pending is None,
            r@.phase == Phase::Running,
    {
        let r = CronusScheduler { jobs: Vec::new(), pending: None, phase: Phase::Running };
        proof {
            assert(r@.jobs =~= Seq::<(u128, JobView)>::empty());
        }
        r
    }

    /// Where the job with identifier `id` stands, if it is registered.
    fn find(&self, id: u128) -> (r: Option<usize>)
        requires
            self.wf(),
        ensures
            match r {
                Some(k) => k < self@.jobs.len() && self@.jobs[k as int].0 == id && index_of(
                    self@.jobs,
                    id,
                ) == k,
                None => !has_id(self@.jobs, id),
            },
    {
        let mut k: usize = 0;
        while k < self.jobs.len()
            invariant
                self.wf(),
                k <= self.jobs@.len(),
                forall|m: int| 0 <= m < k ==> (#[trigger] self@.jobs[m]).0 != id,
            decreases self.jobs.len() - k,
        {
            if self.jobs[k].0 == id {
                proof {
                    assert(self@.jobs[k as int].0 == id);
                    let c = index_of(self@.jobs, id);
                    assert(has_id(self@.jobs, id));
                    assert(self@.jobs[c].0 == id);
                    assert(c == k) by {
                        if c < k {
                            assert(self@.jobs[c].0 != self@.jobs[k as int].0);
                        } else if c > k {
                            assert(self@.jobs[k as int].0 != self@.jobs[c].0);
                        }
                    }
                }
                return Some(k);
            }
            k = k + 1;
        }
        None
    }

    /// Decides what a request needs: a reply at once, or work for the engine.
    /// The registry does not change; a request that needs the engine waits.
    pub fn handle(&mut self, cmd: Command) -> (step: Step)
        requires
            old(self).wf(),
            old(self)@.phase == Phase::Running,
            old(self)@.pending is None,
        ensures
            final(self).wf(),
            final(self)@.jobs == old(self)@.jobs,
            step@ == planned_step(cmd@, old(self)@.jobs),
            final(self)@.pending == planned_pending(cmd@, old(self)@.jobs),
            final(self)@.phase == (if cmd@ is StopService {
                Phase::Stopping
            } else {
                Phase::Running
            }),
    {
        match cmd {
            Command::AddJob { cron, job } => {
                let copy = job.copied();
                self.pending = Some(Pending::Add(job));
                Step::Engine(EngineAction::Register { cron, job: copy })
            },
            Command::ListJobs => {
                self.pending = Some(Pending::List);
                Step::Engine(EngineAction::Snapshot)
            },
            Command::DeleteJob { id } => match parse_job_id(id.as_str()) {
                None => Step::Reply(
                    CommandResponse::Error(ErrorKind::BadId, "invalid job id".to_owned()),
                ),
                Some(x) => {
                    if self.contains(x) {
                        self.pending = Some(Pending::Delete(x));
                        Step::Engine(EngineAction::Deregister(x))
                    } else {
                        Step::Reply(
                            CommandResponse::Error(
                                ErrorKind::UnknownJob,
                                "no job has this id".to_owned(),
                            ),
                        )
                    }
                },
            },
            Command::StopService => {
                self.pending = Some(Pending::Stop);
                self.phase = Phase::Stopping;
                Step::Engine(EngineAction::Shutdown)
            },
            Command::PingService => Step::Reply(CommandResponse::ServiceRunning),
        }
    }

    /// Takes a frame from a client: a frame that is not a request gets a
    /// `Malformed` error reply at once; a request is handled.
    pub fn receive(&mut self, frame: &[u8]) -> (step: Step)
        requires
            old(self).wf(),
            old(self)@.phase == Phase::Running,
            old(self)@.pending is None,
        ensures
            final(self).wf(),
            final(self)@.jobs == old(self)@.jobs,
            match decode_command(frame@) {
                None => step@ == StepView::Reply(
                    CommandResponseView::Error(ErrorKind::Malformed, malformed_message()),
                ) && final(self)@.pending is None && final(self)@.phase == Phase::Running,
                Some(c) => step@ == planned_step(c, old(self)@.jobs) && final(self)@.pending
                    == planned_pending(c, old(self)@.jobs) && final(self)@.phase == (
                if c is StopService {
                    Phase::Stopping
                } else {
                    Phase::Running
                }),
            },
    {
        match Command::from_bytes(frame) {
            Ok(c) => self.handle(c),
            Err(_) => Step::Reply(
                CommandResponse::Error(ErrorKind::Malformed, "malformed request".to_owned()),
            ),
        }
    }

    /// Where the metadata of `id` stands in `metas`: its first entry.
    fn find_meta(metas: &Vec<EntryMeta>, id: u128) -> (r: Option<usize>)
        ensures
            match r {
                Some(m) => m < metas@.len() && meta_for(meta_views(metas@), id) == Some(
                    metas@[m as int]@,
                ),
                None => meta_for(meta_views(metas@), id) is None,
            },
    {
        let ghost mv = meta_views(metas@);
        let mut m: usize = 0;
        proof {
            assert(mv.subrange(0, mv.len() as int) =~= mv);
        }
        while m < metas.len()
            invariant
                m <= metas@.len(),
                mv == meta_views(metas@),
                meta_for(mv, id) == meta_for(mv.subrange(m as int, mv.len() as int), id),
            decreases metas.len() - m,
        {
            let ghost rest = mv.subrange(m as int, mv.len() as int);
            proof {
                assert(rest.drop_first() =~= mv.subrange(m + 1, mv.len() as int));
                assert(rest[0] == metas@[m as int]@);
            }
            if metas[m].id == id {
                return Some(m);
            }
            m = m + 1;
        }
        None
    }

    /// The listing of the registry against the engine's metadata.
    fn list(&self, metas: &Vec<EntryMeta>) -> (r: Vec<JobInfo>)
        ensures
            info_views(r@) == listing(self@.jobs, meta_views(metas@)),
    {
        let ghost s = self@.jobs;
        let ghost mv = meta_views(metas@);
        let mut out: Vec<JobInfo> = Vec::new();
        let mut k: usize = 0;
        proof {
            assert(info_views(out@) =~= listing(s.subrange(0, 0), mv));
        }
        while k < self.jobs.len()
            invariant
                k <= self.jobs@.len(),
                s == self@.jobs,
                mv == meta_views(metas@),
                info_views(out@) == listing(s.subrange(0, k as int), mv),
            decreases self.jobs.len() - k,
        {
            let ghost before = out@;
            let id = self.jobs[k].0;
            proof {
                let sub = s.subrange(0, k + 1);
                assert(sub.drop_last() =~= s.subrange(0, k as int));
                assert(sub.last() == s[k as int]);
                assert(s[k as int] == (self.jobs@[k as int].0, self.jobs@[k as int].1@));
            }
            match Self::find_meta(metas, id) {
                Some(m) => {
                    let info = JobInfo {
                        id: job_id_text(id),
                        cron: metas[m].cron.clone(),
                        last_run: metas[m].last_tick,
                        next_run: Some(metas[m].next_tick),
                        job: self.jobs[k].1.copied(),
                    };
                    out.push(info);
                    proof {
                        assert(info_views(out@) =~= info_views(before).push(info@));
                    }
                },
                None => {},
            }
            k = k + 1;
        }
        proof {
            assert(s.subrange(0, s.len() as int) =~= s);
        }
        out
    }

    /// Takes the engine's outcome for the waiting request, updates the
    /// registry and gives the reply.
    pub fn complete(&mut self, outcome: EngineOutcome) -> (r: CommandResponse)
        requires
            old(self).wf(),
            old(self)@.pending is Some,
        ensures
            final(self).wf(),
            final(self)@.pending is None,
            (final(self)@.jobs, r@) == completed(
                old(self)@.jobs,
                old(self)@.pending->0,
                outcome@,
            ),
            final(self)@.phase == (if stops(old(self)@.pending->0, outcome@) {
                Phase::Stopped
            } else {
                old(self)@.phase
            }),
    {
        let ghost s = self@.jobs;
        let pending = self.pending.take();
        match (pending, outcome) {
            (Some(Pending::Add(job)), EngineOutcome::Registered(id)) => {
                let ghost jv = job@;
                match self.find(id) {
                    Some(k) => {
                        self.jobs.remove(k);
                        self.jobs.insert(k, (id, job));
                        proof {
                            assert(self@.jobs =~= s.update(k as int, (id, jv)));
                            assert(unique_ids(self@.jobs)) by {
                                assert forall|i: int, j: int|
                                    0 <= i < j < self@.jobs.len() implies (
                                    #[trigger] self@.jobs[i]).0 != (#[trigger] self@.jobs[j]).0 by {
                                    assert(self@.jobs[i].0 == s[i].0);
                                    assert(self@.jobs[j].0 == s[j].0);
                                }
                            }
                        }
                    },
                    None => {
                        self.jobs.push((id, job));
                        proof {
                            assert(self@.jobs =~= s.push((id, jv)));
                            assert(unique_ids(self@.jobs)) by {
                                assert forall|i: int, j: int|
                                    0 <= i < j < self@.jobs.len() implies (
                                    #[trigger] self@.jobs[i]).0 != (#[trigger] self@.jobs[j]).0 by {
                                    if j == s.len() {
                                        assert(self@.jobs[i] == s[i]);
                                    } else {
                                        assert(self@.jobs[i] == s[i]);
                                        assert(self@.jobs[j] == s[j]);
                                    }
                                }
                            }
                        }
                    },
                }
                CommandResponse::JobAdded(job_id_text(id))
            },
            (Some(Pending::Add(_)), EngineOutcome::RejectedCron(m)) => CommandResponse::Error(
                ErrorKind::BadCron,
                m,
            ),
            (Some(Pending::List), EngineOutcome::Entries(metas)) => CommandResponse::JobList(
                self.list(&metas),
            ),
            (Some(Pending::Delete(id)), EngineOutcome::Deregistered) => {
                match self.find(id) {
                    Some(k) => {
                        self.jobs.remove(k);
                        proof {
                            assert(self@.jobs =~= s.remove(k as int));
                            assert(unique_ids(self@.jobs)) by {
                                assert forall|i: int, j: int|
                                    0 <= i < j < self@.jobs.len() implies (
                                    #[trigger] self@.jobs[i]).0 != (#[trigger] self@.jobs[j]).0 by {
                                    let i0 = if i < k {
                                        i
                                    } else {
                                        i + 1
                                    };
                                    let j0 = if j < k {
                                        j
                                    } else {
                                        j + 1
                                    };
                                    assert(self@.jobs[i] == s[i0]);
                                    assert(self@.jobs[j] == s[j0]);
                                }
                            }
                        }
                    },
                    None => {},
                }
                CommandResponse::JobDeleted
            },
            (Some(Pending::Delete(_)), EngineOutcome::DeregisterFailed(m)) => CommandResponse::Error(
                ErrorKind::UnknownJob,
                m,
            ),
            (Some(Pending::Stop), EngineOutcome::ShutDown) => {
                self.jobs = Vec::new();
                self.phase = Phase::Stopped;
                proof {
                    assert(self@.jobs =~= Seq::<(u128, JobView)>::empty());
                }
                CommandResponse::ServiceStopped
            },
            _ => CommandResponse::Nothing,
        }
    }

    /// Whether a job with identifier `id` is registered.
    pub fn contains(&self, id: u128) -> (r: bool)
        requires
            self.wf(),
        ensures
            r == has_id(self@.jobs, id),
    {
        self.find(id).is_some()
    }

    /// The identifiers of the registered jobs, in registry order.
    pub fn ids(&self) -> (r: Vec<u128>)
        ensures
            r@.len() == self@.jobs.len(),
            forall|k: int| 0 <= k < r@.len() ==> r@[k] == #[trigger] self@.jobs[k].0,
    {
        let mut r: Vec<u128> = Vec::new();
        let mut k: usize = 0;
        while k < self.jobs.len()
            invariant
                k <= self.jobs@.len(),
                r@.len() == k,
                forall|m: int| 0 <= m < k ==> r@[m] == #[trigger] self@.jobs[m].0,
            decreases self.jobs.len() - k,
        {
            r.push(self.jobs[k].0);
            k = k + 1;
        }
        r
    }

    /// The number of registered jobs.
    pub fn len(&self) -> (r: usize)
        ensures
            r == self@.jobs.len(),
    {
        self.jobs.len()
    }

    /// Whether the service has stopped.
    pub fn is_stopped(&self) -> (r: bool)
        ensures
            r == (self@.phase == Phase::Stopped),
    {
        self.phase == Phase::Stopped
    }

    /// Whether a request waits for the engine's outcome.
    pub fn is_waiting(&self) -> (r: bool)
        ensures
            r == (self@.pending is Some),
    {
        self.pending.is_some()
    }
}

} // verus!
