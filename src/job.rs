use vstd::prelude::*;

verus! {

/// What a scheduled job does when it fires.
///
/// Paths are held as text, in the form in which they travel over the wire.
#[derive(Debug)]
pub enum Job {
    /// An executable path and its ordered arguments.
    Command(String, Vec<String>),
    /// The source of a script in the embedded scripting language.
    RhaiScript(String),
    /// The path of a script file in the embedded scripting language.
    RhaiScriptFile(String),
}

/// The mathematical value of a [`Job`].
pub enum JobView {
    Command(Seq<char>, Seq<Seq<char>>),
    RhaiScript(Seq<char>),
    RhaiScriptFile(Seq<char>),
}

/// The text of each string of a vector.
pub open spec fn texts(v: Seq<String>) -> Seq<Seq<char>> {
    v.map_values(|s: String| s@)
}

impl View for Job {
    type V = JobView;

    open spec fn view(&self) -> JobView {
        match self {
            Job::Command(p, a) => JobView::Command(p@, texts(a@)),
            Job::RhaiScript(s) => JobView::RhaiScript(s@),
            Job::RhaiScriptFile(f) => JobView::RhaiScriptFile(f@),
        }
    }
}

/// A copy of every string of `v`, in order.
pub fn copy_strings(v: &Vec<String>) -> (r: Vec<String>)
    ensures
        r@ == v@,
{
    let mut r: Vec<String> = Vec::new();
    let mut i: usize = 0;
    while i < v.len()
        invariant
            i <= v.len(),
            r@ == v@.subrange(0, i as int),
        decreases v.len() - i,
    {
        r.push(v[i].clone());
        proof {
            assert(v@.subrange(0, i + 1) =~= v@.subrange(0, i as int).push(v@[i as int]));
        }
        i = i + 1;
    }
    proof {
        assert(v@.subrange(0, v@.len() as int) =~= v@);
    }
    r
}

impl Job {
    /// A job that runs the executable at `cmd_path` with `args`.
    pub fn new_command(cmd_path: String, args: Vec<String>) -> (r: Job)
        ensures
            r@ == JobView::Command(cmd_path@, texts(args@)),
    {
        Job::Command(cmd_path, args)
    }

    /// A job that runs the inline script `script`.
    pub fn new_rhai_script(script: String) -> (r: Job)
        ensures
            r@ == JobView::RhaiScript(script@),
    {
        Job::RhaiScript(script)
    }

    /// A job that runs the script stored at `file`.
    pub fn new_rhai_script_file(file: String) -> (r: Job)
        ensures
            r@ == JobView::RhaiScriptFile(file@),
    {
        Job::RhaiScriptFile(file)
    }

    /// A copy of this job.
    pub fn copied(&self) -> (r: Job)
        ensures
            r@ == self@,
    {
        match self {
            Job::Command(p, a) => Job::Command(p.clone(), copy_strings(a)),
            Job::RhaiScript(s) => Job::RhaiScript(s.clone()),
            Job::RhaiScriptFile(f) => Job::RhaiScriptFile(f.clone()),
        }
    }
}

/// A snapshot of one scheduled job, as a listing reports it.
#[derive(Debug)]
pub struct JobInfo {
    /// The job's identifier in hyphenated text form.
    pub id: String,
    /// The job's cron expression.
    pub cron: String,
    /// When the job last fired, in Unix seconds; none before its first firing.
    pub last_run: Option<u64>,
    /// When the job fires next, in Unix seconds.
    pub next_run: Option<u64>,
    /// What the job does.
    pub job: Job,
}

/// The mathematical value of a [`JobInfo`].
pub struct JobInfoView {
    pub id: Seq<char>,
    pub cron: Seq<char>,
    pub last_run: Option<u64>,
    pub next_run: Option<u64>,
    pub job: JobView,
}

impl View for JobInfo {
    type V = JobInfoView;

    open spec fn view(&self) -> JobInfoView {
        JobInfoView {
            id: self.id@,
            cron: self.cron@,
            last_run: self.last_run,
            next_run: self.next_run,
            job: self.job@,
        }
    }
}

} // verus!
