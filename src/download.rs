//! The supervisor: a registry of tasks in creation order, the admission
//! scheduler, and the handlers of every lifecycle event. Each handler
//! changes the registry and returns what the caller must do next.
use vstd::prelude::*;
use vstd::string::*;
use crate::parser::parse_line;
use crate::process::{opt_text, same_text, texts, MAX_CONCURRENT_DOWNLOADS};
use crate::registry::{
    children, count_active, first_queued, index_from, index_of, lemma_children_prefix,
    lemma_count_prefix, lemma_count_push, lemma_count_update, lemma_index_from, lemma_index_order,
    lemma_queued_from, lemma_replace, queued_from, registry_no_completion, registry_step,
    registry_wf,
};
use crate::status::{DownloadStatus, terminal};
use crate::task::{
    DownloadProgressPayload, DownloadTask, FULL_PROGRESS, TaskView, apply_shape, clone_opt,
    line_effect, line_emits, no_completion, payload_of, removal, removal_list, task_step,
    task_wf, transitioned,
};

verus! {

/// A task admitted to run: what the caller needs to start its downloader.
pub struct SpawnPlan {
    pub id: String,
    pub url: String,
    pub download_dir: Option<String>,
    pub format_spec: Option<String>,
    pub cookies: Option<String>,
}

/// The plan carries the task's identity and its download options.
pub open spec fn plan_of(p: SpawnPlan, t: TaskView) -> bool {
    &&& p.id@ == t.id
    &&& p.url@ == t.url
    &&& opt_text(p.download_dir) == t.download_dir
    &&& opt_text(p.format_spec) == t.format_spec
    &&& opt_text(p.cookies) == t.cookies
}

/// A finished step: the event to emit and the files to remove. The caller
/// then persists the registry and pumps the queue.
pub struct Settlement {
    pub payload: DownloadProgressPayload,
    pub remove_files: Vec<String>,
}

/// What to do once a downloader has exited.
pub enum Termination {
    /// Probe the artifact at this path, then report with `on_verified`.
    Verify(String),
    Settled(Settlement),
    /// Nothing to do: the task is unknown or already finished.
    Ignored,
}

/// Answer to a successful spawn.
pub enum SpawnAck {
    /// The task runs; emit this event.
    Proceed(DownloadProgressPayload),
    /// The task no longer wants the process: kill it and remove these files.
    Abort(Vec<String>),
}

/// Effect of a cancel request on a known task.
pub struct Cancellation {
    /// Process to terminate, with its group.
    pub kill: Option<u32>,
    /// No downloader exit and no verdict will follow: persist and pump now.
    pub settle_now: bool,
    pub remove_files: Vec<String>,
    pub payload: DownloadProgressPayload,
}

/// Why a pause or resume request was refused.
#[derive(Clone, Copy, Debug, PartialEq, Eq, Structural)]
pub enum ControlError {
    NotFound,
    /// The task is not in the status the request starts from.
    WrongState,
    /// The platform has no job-control signals.
    Unsupported,
    NoProcess,
}

#[derive(Clone, Copy, Debug, PartialEq, Eq, Structural)]
pub enum StartError {
    DuplicateId,
}

pub open spec fn views(s: Seq<DownloadTask>) -> Seq<TaskView> {
    s.map_values(|t: DownloadTask| t@)
}

/// The task with id `id` in `s`.
pub open spec fn task_at(s: Seq<TaskView>, id: Seq<char>) -> TaskView {
    s[index_of(s, id)]
}

/// One pump of the scheduler: when a slot is free and a task is queued,
/// the oldest queued task moves to Preparing and is handed out.
pub open spec fn pumped(
    before: Seq<TaskView>,
    max: nat,
    after: Seq<TaskView>,
    plan: Option<SpawnPlan>,
) -> bool {
    if count_active(before) < max && first_queued(before) >= 0 {
        let q = first_queued(before);
        &&& after == before.update(q, TaskView { status: DownloadStatus::Preparing, ..before[q] })
        &&& plan matches Some(p) && plan_of(p, before[q])
    } else {
        after == before && plan is None
    }
}

/// A new queued task with its download options.
pub open spec fn queued_task(
    id: Seq<char>,
    url: Seq<char>,
    title: Seq<char>,
    dir: Option<Seq<char>>,
    format: Option<Seq<char>>,
    cookies: Option<Seq<char>>,
) -> TaskView {
    TaskView {
        id,
        url,
        title,
        status: DownloadStatus::Queued,
        progress: 0,
        speed: None,
        eta: None,
        total_size: None,
        downloaded_bytes: None,
        child: None,
        final_path: None,
        error_message: None,
        download_dir: dir,
        format_spec: format,
        cookies,
        cookie_file: None,
    }
}

pub open spec fn spawned(t: TaskView, pid: u32, cookie_file: Option<Seq<char>>) -> TaskView {
    if t.status == DownloadStatus::Preparing {
        TaskView {
            status: DownloadStatus::Downloading,
            child: Some(pid),
            cookie_file,
            ..t
        }
    } else {
        t
    }
}

pub open spec fn spawn_failed(t: TaskView) -> TaskView {
    if t.status == DownloadStatus::Preparing {
        TaskView {
            status: DownloadStatus::Error,
            child: None,
            cookie_file: None,
            error_message: Some("Failed to start process"@),
            ..t
        }
    } else {
        t
    }
}

/// The downloader exited with `code`. A successful run that named its
/// artifact waits for verification; any other run of a live task fails.
pub open spec fn terminated(t: TaskView, code: Option<i32>) -> TaskView {
    if terminal(t.status) {
        t
    } else if code == Some(0i32) && t.final_path is Some {
        TaskView { child: None, ..t }
    } else {
        let t2 = transitioned(
            TaskView { child: None, cookie_file: None, ..t },
            DownloadStatus::Error,
        );
        if t2.status == DownloadStatus::Error {
            TaskView { error_message: Some("Download failed"@), ..t2 }
        } else {
            t2
        }
    }
}

/// The verifier's verdict arrived: `ok` for a task whose downloader has
/// exited and which has an artifact completes it; anything else fails it
/// with `msg`.
pub open spec fn verified(t: TaskView, ok: bool, msg: Seq<char>) -> TaskView {
    if terminal(t.status) {
        t
    } else {
        let t1 = TaskView { child: None, cookie_file: None, ..t };
        if ok && t.final_path is Some && t.child is None {
            let t2 = transitioned(t1, DownloadStatus::Completed);
            if t2.status == DownloadStatus::Completed {
                TaskView { progress: FULL_PROGRESS, ..t2 }
            } else {
                t2
            }
        } else {
            let t2 = transitioned(t1, DownloadStatus::Error);
            if t2.status == DownloadStatus::Error {
                TaskView { error_message: Some(msg), ..t2 }
            } else {
                t2
            }
        }
    }
}

pub open spec fn cancelled(t: TaskView) -> TaskView {
    if terminal(t.status) {
        t
    } else {
        TaskView { status: DownloadStatus::Cancelled, child: None, cookie_file: None, ..t }
    }
}

pub open spec fn with_child_taken(t: TaskView) -> TaskView {
    TaskView { child: None, ..t }
}

pub open spec fn verdict_message(v: Result<(), String>) -> Seq<char> {
    match v {
        Ok(_) => "Download failed"@,
        Err(m) => m@,
    }
}

/// Cancelling settles at once when no downloader exit and no verdict will
/// follow: the task is live, holds no process, and is not between the
/// exit of its downloader and the verdict (Downloading or Merging).
pub open spec fn settles_on_cancel(t: TaskView) -> bool {
    t.child is None && (t.status == DownloadStatus::Queued || t.status == DownloadStatus::Preparing
        || t.status == DownloadStatus::Paused)
}

/// A run that exited successfully and named its artifact waits for the verifier.
pub open spec fn awaits_verification(t: TaskView, code: Option<i32>) -> bool {
    !terminal(t.status) && code == Some(0i32) && t.final_path is Some
}

/// Files to remove once a verdict arrives: fragments unless the task
/// completes, and the cookies file.
pub open spec fn verdict_removal(t: TaskView, ok: bool) -> Seq<Seq<char>> {
    if ok && t.final_path is Some && t.child is None && !terminal(t.status) {
        removal(None, t.cookie_file)
    } else {
        removal(t.final_path, t.cookie_file)
    }
}

/// Why pausing (`resume` false) or resuming (`resume` true) task `id` is
/// refused, if it is.
pub open spec fn control_error(s: Seq<TaskView>, id: Seq<char>, job_control: bool, resume: bool) -> Option<
    ControlError,
> {
    let from = if resume {
        DownloadStatus::Paused
    } else {
        DownloadStatus::Downloading
    };
    if index_of(s, id) < 0 {
        Some(ControlError::NotFound)
    } else if task_at(s, id).status != from {
        Some(ControlError::WrongState)
    } else if !job_control {
        Some(ControlError::Unsupported)
    } else if task_at(s, id).child is None {
        Some(ControlError::NoProcess)
    } else {
        None
    }
}

fn step_spawned(t: &mut DownloadTask, pid: u32, cookie_file: Option<String>) -> (r: bool)
    requires
        task_wf(old(t)@),
    ensures
        final(t)@ == spawned(old(t)@, pid, opt_text(cookie_file)),
        r == (old(t).status == DownloadStatus::Preparing),
{
    if t.status == DownloadStatus::Preparing {
        t.status = DownloadStatus::Downloading;
        t.child = Some(pid);
        t.cookie_file = cookie_file;
        true
    } else {
        false
    }
}

fn step_spawn_failed(t: &mut DownloadTask)
    ensures
        final(t)@ == spawn_failed(old(t)@),
{
    if t.status == DownloadStatus::Preparing {
        t.status = DownloadStatus::Error;
        t.child = None;
        t.cookie_file = None;
        t.error_message = Some(String::from_str("Failed to start process"));
    }
}

fn step_terminated(t: &mut DownloadTask, code: Option<i32>)
    ensures
        final(t)@ == terminated(old(t)@, code),
{
    if t.status.is_terminal() {
        return;
    }
    let success = match code {
        Some(c) => c == 0,
        None => false,
    };
    if success && t.final_path.is_some() {
        t.child = None;
        return;
    }
    t.child = None;
    t.cookie_file = None;
    t.transition(DownloadStatus::Error);
    if t.status == DownloadStatus::Error {
        t.error_message = Some(String::from_str("Download failed"));
    }
}

fn step_verified(t: &mut DownloadTask, verdict: &Result<(), String>)
    ensures
        final(t)@ == verified(old(t)@, verdict is Ok, verdict_message(*verdict)),
{
    if t.status.is_terminal() {
        return;
    }
    let exited = t.child.is_none();
    t.child = None;
    t.cookie_file = None;
    let ok = verdict.is_ok();
    if ok && t.final_path.is_some() && exited {
        t.transition(DownloadStatus::Completed);
        if t.status == DownloadStatus::Completed {
            t.progress = FULL_PROGRESS;
        }
    } else {
        t.transition(DownloadStatus::Error);
        if t.status == DownloadStatus::Error {
            t.error_message = Some(
                match verdict {
                    Ok(_) => String::from_str("Download failed"),
                    Err(m) => m.clone(),
                },
            );
        }
    }
}

fn step_cancelled(t: &mut DownloadTask)
    ensures
        final(t)@ == cancelled(old(t)@),
{
    if !t.status.is_terminal() {
        t.status = DownloadStatus::Cancelled;
        t.child = None;
        t.cookie_file = None;
    }
}

/// Relies on `uuid::Uuid::new_v4` with its `Display`: a random version-4
/// UUID in hyphenated form, which is 36 characters long.
#[verifier::external_body]
fn new_task_id() -> (r: String)
    ensures
        r@.len() == 36,
{
    uuid::Uuid::new_v4().to_string()
}

/// The registry of tasks and the concurrency limit.
pub struct DownloadManager {
    pub tasks: Vec<DownloadTask>,
    pub max_concurrent: usize,
}

impl DownloadManager {
    pub open spec fn model(&self) -> Seq<TaskView> {
        views(self.tasks@)
    }

    pub open spec fn wf(&self) -> bool {
        registry_wf(self.model(), self.max_concurrent as nat)
    }

    /// A step that keeps every id keeps the position of `id`.
    proof fn lemma_index_kept(&self, m0: Seq<TaskView>, id: Seq<char>)
        requires
            self.model().len() == m0.len(),
            forall|j: int| 0 <= j < m0.len() ==> (#[trigger] self.model()[j]).id == m0[j].id,
        ensures
            index_of(self.model(), id) == index_of(m0, id),
    {
        lemma_index_from(m0, id, 0);
        lemma_index_from(self.model(), id, 0);
        let a = index_of(m0, id);
        let b = index_of(self.model(), id);
        if a >= 0 && b >= 0 {
            assert(m0[b].id == id);
            if a < b {
                lemma_index_order(self.model(), id, 0, a);
            } else if b < a {
                lemma_index_order(m0, id, 0, b);
            }
        } else if a >= 0 {
            assert(self.model()[a].id == id);
        } else if b >= 0 {
            assert(m0[b].id == id);
        }
    }

    /// An empty registry with the system's concurrency limit.
    pub fn new() -> (r: DownloadManager)
        ensures
            r.wf(),
            r.model() == Seq::<TaskView>::empty(),
            r.max_concurrent == MAX_CONCURRENT_DOWNLOADS,
    {
        let r = DownloadManager { tasks: Vec::new(), max_concurrent: MAX_CONCURRENT_DOWNLOADS };
        proof {
            assert(r.model() =~= Seq::<TaskView>::empty());
        }
        r
    }

    /// Position of the task with id `id`.
    pub fn find_index(&self, id: &str) -> (r: Option<usize>)
        ensures
            match r {
                Some(i) => i as int == index_of(self.model(), id@) && i < self.model().len(),
                None => index_of(self.model(), id@) < 0,
            },
    {
        let ghost m = self.model();
        let mut i: usize = 0;
        while i < self.tasks.len()
            invariant
                m == self.model(),
                m.len() == self.tasks@.len(),
                i <= self.tasks@.len(),
                index_of(m, id@) == index_from(m, id@, i as int),
            decreases self.tasks@.len() - i,
        {
            if same_text(self.tasks[i].id.as_str(), id) {
                return Some(i);
            }
            i = i + 1;
        }
        None
    }

    /// The task with id `id`.
    pub fn task(&self, id: &str) -> (r: Option<&DownloadTask>)
        ensures
            match r {
                Some(t) => index_of(self.model(), id@) >= 0 && t@ == task_at(self.model(), id@),
                None => index_of(self.model(), id@) < 0,
            },
    {
        match self.find_index(id) {
            Some(i) => Some(&self.tasks[i]),
            None => None,
        }
    }

    /// Number of tasks holding a downloader slot.
    pub fn active_count(&self) -> (r: usize)
        ensures
            r == count_active(self.model()),
    {
        let ghost m = self.model();
        let mut n: usize = 0;
        let mut i: usize = 0;
        while i < self.tasks.len()
            invariant
                m == self.model(),
                m.len() == self.tasks@.len(),
                i <= self.tasks@.len(),
                n == count_active(m.subrange(0, i as int)),
                n <= i,
            decreases self.tasks@.len() - i,
        {
            proof {
                lemma_count_prefix(m, i as int);
            }
            if self.tasks[i].status.is_active() {
                n = n + 1;
            }
            i = i + 1;
        }
        proof {
            assert(m.subrange(0, i as int) =~= m);
        }
        n
    }

    fn first_queued_index(&self) -> (r: Option<usize>)
        ensures
            match r {
                Some(i) => i as int == first_queued(self.model()) && i < self.model().len(),
                None => first_queued(self.model()) < 0,
            },
    {
        let ghost m = self.model();
        let mut i: usize = 0;
        while i < self.tasks.len()
            invariant
                m == self.model(),
                m.len() == self.tasks@.len(),
                i <= self.tasks@.len(),
                first_queued(m) == queued_from(m, i as int),
            decreases self.tasks@.len() - i,
        {
            if self.tasks[i].status == DownloadStatus::Queued {
                return Some(i);
            }
            i = i + 1;
        }
        None
    }

    /// Scheduler pump: admits the oldest queued task when a slot is free.
    pub fn process_queue(&mut self) -> (r: Option<SpawnPlan>)
        requires
            old(self).wf(),
        ensures
            final(self).wf(),
            final(self).max_concurrent == old(self).max_concurrent,
            pumped(old(self).model(), old(self).max_concurrent as nat, final(self).model(), r),
            registry_step(old(self).model(), final(self).model()),
            registry_no_completion(old(self).model(), final(self).model()),
    {
        let ghost m0 = self.model();
        let n = self.active_count();
        if n >= self.max_concurrent {
            return None;
        }
        let q = match self.first_queued_index() {
            Some(q) => q,
            None => return None,
        };
        proof {
            lemma_queued_from(m0, 0);
        }
        self.tasks[q].status = DownloadStatus::Preparing;
        let t = &self.tasks[q];
        let plan = SpawnPlan {
            id: t.id.clone(),
            url: t.url.clone(),
            download_dir: clone_opt(&t.download_dir),
            format_spec: clone_opt(&t.format_spec),
            cookies: clone_opt(&t.cookies),
        };
        proof {
            let nt = TaskView { status: DownloadStatus::Preparing, ..m0[q as int] };
            assert(self.model() =~= m0.update(q as int, nt));
            lemma_count_update(m0, q as int, nt);
            let u = m0.update(q as int, nt);
            assert forall|a: int, b: int| 0 <= a < b < u.len() implies u[a].id != u[b].id by {
                assert(m0[a].id != m0[b].id);
            }
            assert forall|j: int| 0 <= j < u.len() implies task_wf(#[trigger] u[j]) by {
                if j != q {
                    assert(task_wf(m0[j]));
                }
            }
            assert forall|j: int| 0 <= j < m0.len() implies task_step(m0[j], #[trigger] u[j]) by {
                if j != q {
                    assert(crate::status::step_allowed(m0[j].status, m0[j].status));
                }
            }
        }
        Some(plan)
    }

    /// Registers a queued task under `id`, then pumps the scheduler.
    /// Fails, changing nothing, when `id` is taken.
    pub fn start_download(
        &mut self,
        url: String,
        id: String,
        title: String,
        path: Option<String>,
        format_spec: Option<String>,
        cookies: Option<String>,
    ) -> (r: Result<Option<SpawnPlan>, StartError>)
        requires
            old(self).wf(),
        ensures
            final(self).wf(),
            final(self).max_concurrent == old(self).max_concurrent,
            registry_step(old(self).model(), final(self).model()),
            registry_no_completion(old(self).model(), final(self).model()),
            index_of(old(self).model(), id@) >= 0 ==> r == Err::<Option<SpawnPlan>, StartError>(
                StartError::DuplicateId,
            ) && final(self).model() == old(self).model(),
            index_of(old(self).model(), id@) < 0 ==> (r matches Ok(plan) && pumped(
                old(self).model().push(
                    queued_task(
                        id@,
                        url@,
                        title@,
                        opt_text(path),
                        opt_text(format_spec),
                        opt_text(cookies),
                    ),
                ),
                old(self).max_concurrent as nat,
                final(self).model(),
                plan,
            )),
    {
        let ghost m0 = self.model();
        if self.find_index(id.as_str()).is_some() {
            return Err(StartError::DuplicateId);
        }
        proof {
            lemma_index_from(m0, id@, 0);
        }
        let mut t = DownloadTask::new(id, url, title);
        t.download_dir = path;
        t.format_spec = format_spec;
        t.cookies = cookies;
        self.tasks.push(t);
        let ghost m1 = self.model();
        proof {
            assert(m1 =~= m0.push(t@));
            lemma_count_push(m0, t@);
            assert forall|a: int, b: int| 0 <= a < b < m1.len() implies m1[a].id != m1[b].id by {
                if b < m0.len() {
                    assert(m0[a].id != m0[b].id);
                }
            }
            assert forall|j: int| 0 <= j < m1.len() implies task_wf(#[trigger] m1[j]) by {
                if j < m0.len() {
                    assert(task_wf(m0[j]));
                }
            }
        }
        let plan = self.process_queue();
        proof {
            let m2 = self.model();
            lemma_queued_from(m1, 0);
            assert(m2.len() == m1.len());
            assert forall|j: int| 0 <= j < m0.len() implies task_step(m0[j], #[trigger] m2[j]) by {
                assert(task_step(m1[j], m2[j]));
            }
            assert forall|j: int| m0.len() <= j < m2.len() implies crate::status::step_allowed(
                DownloadStatus::Queued,
                #[trigger] m2[j].status,
            ) by {
                assert(m1[j].status == DownloadStatus::Queued);
                assert(task_step(m1[j], m2[j]));
            }
            assert forall|j: int| 0 <= j < m0.len() implies no_completion(m0[j], #[trigger] m2[j]) by {
                assert(no_completion(m1[j], m2[j]));
            }
        }
        Ok(plan)
    }

    /// The downloader of a Preparing task started as process `pid`, with
    /// its cookies in `cookie_file`: the task is now Downloading. A task
    /// that is unknown or no longer Preparing (it was cancelled) refuses
    /// the process, and the cookies file is to be removed.
    pub fn on_spawned(&mut self, id: &str, pid: u32, cookie_file: Option<String>) -> (r: SpawnAck)
        requires
            old(self).wf(),
        ensures
            final(self).wf(),
            final(self).max_concurrent == old(self).max_concurrent,
            registry_step(old(self).model(), final(self).model()),
            registry_no_completion(old(self).model(), final(self).model()),
            index_of(old(self).model(), id@) < 0 ==> final(self).model() == old(self).model(),
            index_of(old(self).model(), id@) >= 0 ==> final(self).model() == old(self).model().update(
                index_of(old(self).model(), id@),
                spawned(task_at(old(self).model(), id@), pid, opt_text(cookie_file)),
            ),
            match r {
                SpawnAck::Proceed(p) => index_of(old(self).model(), id@) >= 0 && task_at(
                    old(self).model(),
                    id@,
                ).status == DownloadStatus::Preparing && p@ == payload_of(
                    task_at(final(self).model(), id@),
                ),
                SpawnAck::Abort(files) => !(index_of(old(self).model(), id@) >= 0 && task_at(
                    old(self).model(),
                    id@,
                ).status == DownloadStatus::Preparing) && texts(files@) == removal(
                    None,
                    opt_text(cookie_file),
                ),
            },
    {
        let ghost m0 = self.model();
        let i = match self.find_index(id) {
            Some(i) => i,
            None => return SpawnAck::Abort(removal_list(&None, &cookie_file)),
        };
        proof {
            lemma_index_from(m0, id@, 0);
        }
        if self.tasks[i].status != DownloadStatus::Preparing {
            return SpawnAck::Abort(removal_list(&None, &cookie_file));
        }
        step_spawned(&mut self.tasks[i], pid, cookie_file);
        proof {
            assert(self.model() =~= m0.update(i as int, self.tasks@[i as int]@));
            lemma_replace(m0, i as int, self.tasks@[i as int]@, self.max_concurrent as nat);
            lemma_index_from(self.model(), id@, 0);
            self.lemma_index_kept(m0, id@);
        }
        SpawnAck::Proceed(self.tasks[i].payload())
    }

    /// The downloader of task `id` could not be started: a Preparing task
    /// fails; the cookies file written for it is to be removed.
    pub fn on_spawn_failed(&mut self, id: &str, cookie_file: Option<String>) -> (r: Option<
        Settlement,
    >)
        requires
            old(self).wf(),
        ensures
            final(self).wf(),
            final(self).max_concurrent == old(self).max_concurrent,
            registry_step(old(self).model(), final(self).model()),
            registry_no_completion(old(self).model(), final(self).model()),
            index_of(old(self).model(), id@) < 0 ==> final(self).model() == old(self).model()
                && r is None,
            index_of(old(self).model(), id@) >= 0 ==> final(self).model() == old(self).model().update(
                index_of(old(self).model(), id@),
                spawn_failed(task_at(old(self).model(), id@)),
            ),
            r matches Some(st) ==> st.payload@ == payload_of(task_at(final(self).model(), id@))
                && texts(st.remove_files@) == removal(None, opt_text(cookie_file)),
            index_of(old(self).model(), id@) >= 0 ==> r is Some,
    {
        let ghost m0 = self.model();
        let i = match self.find_index(id) {
            Some(i) => i,
            None => return None,
        };
        proof {
            lemma_index_from(m0, id@, 0);
        }
        step_spawn_failed(&mut self.tasks[i]);
        proof {
            assert(self.model() =~= m0.update(i as int, self.tasks@[i as int]@));
            lemma_replace(m0, i as int, self.tasks@[i as int]@, self.max_concurrent as nat);
            self.lemma_index_kept(m0, id@);
        }
        Some(
            Settlement {
                payload: self.tasks[i].payload(),
                remove_files: removal_list(&None, &cookie_file),
            },
        )
    }

    /// Feeds one stdout line of task `id`'s downloader; returns the event
    /// to emit, if the line calls for one.
    pub fn apply_line(&mut self, id: &str, line: &str) -> (r: Option<DownloadProgressPayload>)
        requires
            old(self).wf(),
        ensures
            final(self).wf(),
            final(self).max_concurrent == old(self).max_concurrent,
            registry_step(old(self).model(), final(self).model()),
            registry_no_completion(old(self).model(), final(self).model()),
            index_of(old(self).model(), id@) < 0 ==> final(self).model() == old(self).model()
                && r is None,
            index_of(old(self).model(), id@) >= 0 ==> final(self).model() == old(self).model().update(
                index_of(old(self).model(), id@),
                line_effect(task_at(old(self).model(), id@), crate::parser::line_shape(line@)),
            ) && (r is Some <==> line_emits(
                task_at(old(self).model(), id@),
                crate::parser::line_shape(line@),
            )),
            r matches Some(p) ==> p@ == payload_of(task_at(final(self).model(), id@)),
    {
        let ghost m0 = self.model();
        let i = match self.find_index(id) {
            Some(i) => i,
            None => return None,
        };
        proof {
            lemma_index_from(m0, id@, 0);
        }
        let ev = parse_line(line);
        let emit = apply_shape(&mut self.tasks[i], ev);
        proof {
            assert(self.model() =~= m0.update(i as int, self.tasks@[i as int]@));
            lemma_replace(m0, i as int, self.tasks@[i as int]@, self.max_concurrent as nat);
            self.lemma_index_kept(m0, id@);
        }
        if emit {
            Some(self.tasks[i].payload())
        } else {
            None
        }
    }

    /// The downloader of task `id` exited with `exit_code`. A cancelled
    /// task settles with its fragments removed; a successful run with a
    /// known artifact is handed to the verifier; any other run of a live
    /// task fails. Exits of unknown or finished tasks are ignored.
    pub fn on_terminated(&mut self, id: &str, exit_code: Option<i32>) -> (r: Termination)
        requires
            old(self).wf(),
        ensures
            final(self).wf(),
            final(self).max_concurrent == old(self).max_concurrent,
            registry_step(old(self).model(), final(self).model()),
            registry_no_completion(old(self).model(), final(self).model()),
            index_of(old(self).model(), id@) < 0 ==> final(self).model() == old(self).model()
                && r is Ignored,
            index_of(old(self).model(), id@) >= 0 ==> final(self).model() == old(self).model().update(
                index_of(old(self).model(), id@),
                terminated(task_at(old(self).model(), id@), exit_code),
            ),
            r matches Termination::Verify(p) ==> index_of(old(self).model(), id@) >= 0
                && awaits_verification(task_at(old(self).model(), id@), exit_code) && Some(p@)
                == task_at(old(self).model(), id@).final_path,
            r matches Termination::Settled(st) ==> index_of(old(self).model(), id@) >= 0 && (
            task_at(old(self).model(), id@).status == DownloadStatus::Cancelled || !terminal(
                task_at(old(self).model(), id@).status,
            )) && !awaits_verification(task_at(old(self).model(), id@), exit_code)
                && st.payload@ == payload_of(task_at(final(self).model(), id@)) && texts(
                st.remove_files@,
            ) == removal(
                task_at(old(self).model(), id@).final_path,
                task_at(old(self).model(), id@).cookie_file,
            ),
            r is Ignored ==> index_of(old(self).model(), id@) < 0 || (terminal(
                task_at(old(self).model(), id@).status,
            ) && task_at(old(self).model(), id@).status != DownloadStatus::Cancelled),
    {
        let ghost m0 = self.model();
        let i = match self.find_index(id) {
            Some(i) => i,
            None => return Termination::Ignored,
        };
        proof {
            lemma_index_from(m0, id@, 0);
        }
        let was_cancelled = self.tasks[i].status == DownloadStatus::Cancelled;
        let was_terminal = self.tasks[i].status.is_terminal();
        let removal_files = removal_list(&self.tasks[i].final_path, &self.tasks[i].cookie_file);
        step_terminated(&mut self.tasks[i], exit_code);
        proof {
            assert(self.model() =~= m0.update(i as int, self.tasks@[i as int]@));
            lemma_replace(m0, i as int, self.tasks@[i as int]@, self.max_concurrent as nat);
            self.lemma_index_kept(m0, id@);
        }
        if was_terminal && !was_cancelled {
            return Termination::Ignored;
        }
        if !was_terminal {
            let success = match exit_code {
                Some(c) => c == 0,
                None => false,
            };
            if success {
                if let Some(p) = &self.tasks[i].final_path {
                    return Termination::Verify(p.clone());
                }
            }
        }
        Termination::Settled(Settlement { payload: self.tasks[i].payload(), remove_files: removal_files })
    }

    /// The verifier judged the artifact of task `id`. `Ok` completes a live
    /// task whose downloader has exited and which has an artifact;
    /// anything else fails it with the
    /// verifier's message. A task cancelled meanwhile settles with its
    /// fragments removed. Returns `None` for unknown or finished tasks.
    pub fn on_verified(&mut self, id: &str, verdict: Result<(), String>) -> (r: Option<Settlement>)
        requires
            old(self).wf(),
        ensures
            final(self).wf(),
            final(self).max_concurrent == old(self).max_concurrent,
            registry_step(old(self).model(), final(self).model()),
            index_of(old(self).model(), id@) < 0 ==> final(self).model() == old(self).model()
                && r is None,
            index_of(old(self).model(), id@) >= 0 ==> final(self).model() == old(self).model().update(
                index_of(old(self).model(), id@),
                verified(
                    task_at(old(self).model(), id@),
                    verdict is Ok,
                    verdict_message(verdict),
                ),
            ) && (r is Some <==> (task_at(old(self).model(), id@).status
                == DownloadStatus::Cancelled || !terminal(task_at(old(self).model(), id@).status))),
            r matches Some(st) ==> st.payload@ == payload_of(task_at(final(self).model(), id@))
                && texts(st.remove_files@) == verdict_removal(
                task_at(old(self).model(), id@),
                verdict is Ok,
            ),
            index_of(old(self).model(), id@) >= 0 && task_at(final(self).model(), id@).status
                == DownloadStatus::Completed && task_at(old(self).model(), id@).status
                != DownloadStatus::Completed ==> verdict is Ok && task_at(
                old(self).model(),
                id@,
            ).final_path is Some && task_at(old(self).model(), id@).child is None,
    {
        let ghost m0 = self.model();
        let i = match self.find_index(id) {
            Some(i) => i,
            None => return None,
        };
        proof {
            lemma_index_from(m0, id@, 0);
        }
        let was_cancelled = self.tasks[i].status == DownloadStatus::Cancelled;
        let was_terminal = self.tasks[i].status.is_terminal();
        let completes = verdict.is_ok() && self.tasks[i].final_path.is_some()
            && self.tasks[i].child.is_none() && !was_terminal;
        let removal_files = if completes {
            removal_list(&None, &self.tasks[i].cookie_file)
        } else {
            removal_list(&self.tasks[i].final_path, &self.tasks[i].cookie_file)
        };
        step_verified(&mut self.tasks[i], &verdict);
        proof {
            assert(self.model() =~= m0.update(i as int, self.tasks@[i as int]@));
            lemma_replace(m0, i as int, self.tasks@[i as int]@, self.max_concurrent as nat);
            self.lemma_index_kept(m0, id@);
        }
        if was_terminal && !was_cancelled {
            return None;
        }
        Some(Settlement { payload: self.tasks[i].payload(), remove_files: removal_files })
    }

    /// Cancels task `id`: a live task becomes Cancelled at once, giving up
    /// its process (to be terminated) and its cookies file (to be removed).
    /// A finished task is left as it is. `None` when the id is unknown.
    pub fn cancel_download(&mut self, id: &str) -> (r: Option<Cancellation>)
        requires
            old(self).wf(),
        ensures
            final(self).wf(),
            final(self).max_concurrent == old(self).max_concurrent,
            registry_step(old(self).model(), final(self).model()),
            registry_no_completion(old(self).model(), final(self).model()),
            index_of(old(self).model(), id@) < 0 ==> final(self).model() == old(self).model()
                && r is None,
            index_of(old(self).model(), id@) >= 0 ==> final(self).model() == old(self).model().update(
                index_of(old(self).model(), id@),
                cancelled(task_at(old(self).model(), id@)),
            ) && r is Some,
            r matches Some(c) ==> c.kill == task_at(old(self).model(), id@).child && c.settle_now
                == settles_on_cancel(task_at(old(self).model(), id@)) && texts(c.remove_files@) == removal(
                None,
                task_at(old(self).model(), id@).cookie_file,
            ) && c.payload@ == payload_of(task_at(final(self).model(), id@)),
    {
        let ghost m0 = self.model();
        let i = match self.find_index(id) {
            Some(i) => i,
            None => return None,
        };
        proof {
            lemma_index_from(m0, id@, 0);
        }
        let kill = self.tasks[i].child;
        let settle_now = self.tasks[i].child.is_none() && (self.tasks[i].status
            == DownloadStatus::Queued || self.tasks[i].status == DownloadStatus::Preparing
            || self.tasks[i].status == DownloadStatus::Paused);
        let remove_files = removal_list(&None, &self.tasks[i].cookie_file);
        step_cancelled(&mut self.tasks[i]);
        proof {
            assert(self.model() =~= m0.update(i as int, self.tasks@[i as int]@));
            lemma_replace(m0, i as int, self.tasks@[i as int]@, self.max_concurrent as nat);
            self.lemma_index_kept(m0, id@);
        }
        Some(Cancellation { kill, settle_now, remove_files, payload: self.tasks[i].payload() })
    }

    /// Pauses a downloading task whose process can be stopped: returns the
    /// process id to send the stop signal to, with its group.
    pub fn pause_download(&mut self, id: &str, job_control: bool) -> (r: Result<u32, ControlError>)
        requires
            old(self).wf(),
        ensures
            final(self).wf(),
            final(self).max_concurrent == old(self).max_concurrent,
            registry_step(old(self).model(), final(self).model()),
            registry_no_completion(old(self).model(), final(self).model()),
            match control_error(old(self).model(), id@, job_control, false) {
                Some(e) => r == Err::<u32, ControlError>(e) && final(self).model() == old(self).model(),
                None => r is Ok && Some(r->Ok_0) == task_at(old(self).model(), id@).child && final(self).model() == old(self).model().update(
                    index_of(old(self).model(), id@),
                    (TaskView { status: DownloadStatus::Paused, ..task_at(old(self).model(), id@) }),
                ),
            },
    {
        self.signal_step(id, job_control, false)
    }

    /// Resumes a paused task: returns the process id to send the continue
    /// signal to, with its group.
    pub fn resume_download(&mut self, id: &str, job_control: bool) -> (r: Result<u32, ControlError>)
        requires
            old(self).wf(),
        ensures
            final(self).wf(),
            final(self).max_concurrent == old(self).max_concurrent,
            registry_step(old(self).model(), final(self).model()),
            registry_no_completion(old(self).model(), final(self).model()),
            match control_error(old(self).model(), id@, job_control, true) {
                Some(e) => r == Err::<u32, ControlError>(e) && final(self).model() == old(self).model(),
                None => r is Ok && Some(r->Ok_0) == task_at(old(self).model(), id@).child && final(self).model() == old(self).model().update(
                    index_of(old(self).model(), id@),
                    (TaskView {
                        status: DownloadStatus::Downloading,
                        ..task_at(old(self).model(), id@)
                    }),
                ),
            },
    {
        self.signal_step(id, job_control, true)
    }

    fn signal_step(&mut self, id: &str, job_control: bool, resume: bool) -> (r: Result<
        u32,
        ControlError,
    >)
        requires
            old(self).wf(),
        ensures
            final(self).wf(),
            final(self).max_concurrent == old(self).max_concurrent,
            registry_step(old(self).model(), final(self).model()),
            registry_no_completion(old(self).model(), final(self).model()),
            match control_error(old(self).model(), id@, job_control, resume) {
                Some(e) => r == Err::<u32, ControlError>(e) && final(self).model() == old(self).model(),
                None => r is Ok && Some(r->Ok_0) == task_at(old(self).model(), id@).child && final(self).model() == old(self).model().update(
                    index_of(old(self).model(), id@),
                    (TaskView {
                        status: if resume {
                            DownloadStatus::Downloading
                        } else {
                            DownloadStatus::Paused
                        },
                        ..task_at(old(self).model(), id@)
                    }),
                ),
            },
    {
        let ghost m0 = self.model();
        let i = match self.find_index(id) {
            Some(i) => i,
            None => return Err(ControlError::NotFound),
        };
        proof {
            lemma_index_from(m0, id@, 0);
        }
        let from = if resume {
            DownloadStatus::Paused
        } else {
            DownloadStatus::Downloading
        };
        if self.tasks[i].status != from {
            return Err(ControlError::WrongState);
        }
        if !job_control {
            return Err(ControlError::Unsupported);
        }
        let pid = match self.tasks[i].child {
            Some(p) => p,
            None => return Err(ControlError::NoProcess),
        };
        self.tasks[i].status = if resume {
            DownloadStatus::Downloading
        } else {
            DownloadStatus::Paused
        };
        proof {
            assert(self.model() =~= m0.update(i as int, self.tasks@[i as int]@));
            lemma_replace(m0, i as int, self.tasks@[i as int]@, self.max_concurrent as nat);
        }
        Ok(pid)
    }

    /// Shutdown: every task gives up its live process; returns their ids,
    /// in registry order, to be terminated with their groups.
    pub fn cleanup_all(&mut self) -> (r: Vec<u32>)
        requires
            old(self).wf(),
        ensures
            final(self).wf(),
            final(self).max_concurrent == old(self).max_concurrent,
            registry_step(old(self).model(), final(self).model()),
            registry_no_completion(old(self).model(), final(self).model()),
            final(self).model().len() == old(self).model().len(),
            forall|j: int|
                0 <= j < old(self).model().len() ==> #[trigger] final(self).model()[j]
                    == with_child_taken(old(self).model()[j]),
            r@ == children(old(self).model()),
    {
        let ghost m0 = self.model();
        let mut pids: Vec<u32> = Vec::new();
        let mut i: usize = 0;
        while i < self.tasks.len()
            invariant
                self.wf(),
                self.max_concurrent == old(self).max_concurrent,
                m0 == old(self).model(),
                self.model().len() == m0.len(),
                self.tasks@.len() == m0.len(),
                i <= m0.len(),
                forall|j: int| 0 <= j < i ==> #[trigger] self.model()[j] == with_child_taken(m0[j]),
                forall|j: int| i <= j < m0.len() ==> #[trigger] self.model()[j] == m0[j],
                pids@ == children(m0.subrange(0, i as int)),
            decreases m0.len() - i,
        {
            let ghost mi = self.model();
            proof {
                lemma_children_prefix(m0, i as int);
            }
            let c = self.tasks[i].child;
            self.tasks[i].child = None;
            if let Some(p) = c {
                pids.push(p);
            }
            proof {
                assert(self.model() =~= mi.update(i as int, self.tasks@[i as int]@));
                lemma_replace(mi, i as int, self.tasks@[i as int]@, self.max_concurrent as nat);
            }
            i = i + 1;
        }
        proof {
            assert(m0.subrange(0, i as int) =~= m0);
            let m1 = self.model();
            assert forall|j: int| 0 <= j < m0.len() implies task_step(m0[j], #[trigger] m1[j]) by {
                assert(task_wf(m0[j]));
            }
        }
        pids
    }

    /// The event of every task, in registry order.
    pub fn get_tasks(&self) -> (r: Vec<DownloadProgressPayload>)
        ensures
            r@.len() == self.model().len(),
            forall|j: int| 0 <= j < r@.len() ==> (#[trigger] r@[j])@ == payload_of(self.model()[j]),
    {
        let mut out: Vec<DownloadProgressPayload> = Vec::new();
        let mut i: usize = 0;
        while i < self.tasks.len()
            invariant
                i <= self.tasks@.len(),
                out@.len() == i,
                forall|j: int| 0 <= j < i ==> (#[trigger] out@[j])@ == payload_of(self.model()[j]),
            decreases self.tasks@.len() - i,
        {
            out.push(self.tasks[i].payload());
            i = i + 1;
        }
        out
    }

    /// The event of task `id`.
    pub fn payload_for(&self, id: &str) -> (r: Option<DownloadProgressPayload>)
        ensures
            index_of(self.model(), id@) < 0 ==> r is None,
            index_of(self.model(), id@) >= 0 ==> (r matches Some(p) && p@ == payload_of(
                task_at(self.model(), id@),
            )),
    {
        match self.find_index(id) {
            Some(i) => Some(self.tasks[i].payload()),
            None => None,
        }
    }

    /// Creates a queued task under a fresh random id, then pumps the
    /// scheduler; returns the id and the admitted task, if any. Fails,
    /// changing nothing, only in the unlikely event that the id is taken,
    /// so it succeeds whenever no task holds an id of a fresh id's length.
    pub fn create_download(
        &mut self,
        url: String,
        title: String,
        path: Option<String>,
        format_spec: Option<String>,
        cookies: Option<String>,
    ) -> (r: Result<(String, Option<SpawnPlan>), StartError>)
        requires
            old(self).wf(),
        ensures
            final(self).wf(),
            final(self).max_concurrent == old(self).max_concurrent,
            registry_step(old(self).model(), final(self).model()),
            registry_no_completion(old(self).model(), final(self).model()),
            r is Err ==> final(self).model() == old(self).model(),
            (forall|j: int|
                0 <= j < old(self).model().len() ==> (#[trigger] old(self).model()[j]).id.len()
                    != 36) ==> r is Ok,
            r matches Ok((id, plan)) ==> id@.len() == 36 && index_of(old(self).model(), id@) < 0
                && pumped(
                old(self).model().push(
                    queued_task(
                        id@,
                        url@,
                        title@,
                        opt_text(path),
                        opt_text(format_spec),
                        opt_text(cookies),
                    ),
                ),
                old(self).max_concurrent as nat,
                final(self).model(),
                plan,
            ),
    {
        let id = new_task_id();
        proof {
            lemma_index_from(self.model(), id@, 0);
        }
        let key = id.clone();
        match self.start_download(url, id, title, path, format_spec, cookies) {
            Ok(plan) => Ok((key, plan)),
            Err(e) => Err(e),
        }
    }

    /// Pumps the scheduler until no slot is free or nothing is queued;
    /// returns the admitted tasks in admission order.
    pub fn pump_all(&mut self) -> (r: Vec<SpawnPlan>)
        requires
            old(self).wf(),
        ensures
            final(self).wf(),
            final(self).max_concurrent == old(self).max_concurrent,
            registry_step(old(self).model(), final(self).model()),
            registry_no_completion(old(self).model(), final(self).model()),
            final(self).model().len() == old(self).model().len(),
            count_active(final(self).model()) >= final(self).max_concurrent || first_queued(
                final(self).model(),
            ) < 0,
            count_active(final(self).model()) == count_active(old(self).model()) + r@.len(),
            forall|k: int|
                0 <= k < r@.len() ==> exists|j: int|
                    0 <= j < old(self).model().len() && old(self).model()[j].status
                        == DownloadStatus::Queued && #[trigger] final(self).model()[j].status
                        == DownloadStatus::Preparing && final(self).model()[j].id == (
                    #[trigger] r@[k]).id@,
    {
        let ghost m0 = self.model();
        let mut plans: Vec<SpawnPlan> = Vec::new();
        let mut more = true;
        while more
            invariant
                self.wf(),
                self.max_concurrent == old(self).max_concurrent,
                m0 == old(self).model(),
                registry_step(m0, self.model()),
                registry_no_completion(m0, self.model()),
                self.model().len() == m0.len(),
                count_active(self.model()) == count_active(m0) + plans@.len(),
                !more ==> !(count_active(self.model()) < self.max_concurrent && first_queued(
                    self.model(),
                ) >= 0),
                forall|k: int|
                    0 <= k < plans@.len() ==> exists|j: int|
                        0 <= j < m0.len() && m0[j].status == DownloadStatus::Queued
                            && #[trigger] self.model()[j].status == DownloadStatus::Preparing
                            && self.model()[j].id == (#[trigger] plans@[k]).id@,
            decreases (if more {
                self.max_concurrent - count_active(self.model()) + 1
            } else {
                0
            }),
        {
            let ghost m1 = self.model();
            match self.process_queue() {
                Some(p) => {
                    proof {
                        let m2 = self.model();
                        let q = first_queued(m1);
                        lemma_queued_from(m1, 0);
                        lemma_count_update(
                            m1,
                            q,
                            TaskView { status: DownloadStatus::Preparing, ..m1[q] },
                        );
                        assert(task_step(m0[q], m1[q]));
                        assert(m0[q].status == DownloadStatus::Queued);
                        assert forall|j: int| 0 <= j < m0.len() implies task_step(
                            m0[j],
                            #[trigger] m2[j],
                        ) by {
                            assert(task_step(m0[j], m1[j]));
                        }
                        assert forall|j: int| 0 <= j < m0.len() implies no_completion(
                            m0[j],
                            #[trigger] m2[j],
                        ) by {
                            assert(no_completion(m0[j], m1[j]));
                        }
                        assert forall|k: int| 0 <= k < plans@.len() implies exists|j: int|
                            0 <= j < m0.len() && m0[j].status == DownloadStatus::Queued
                                && #[trigger] m2[j].status == DownloadStatus::Preparing
                                && m2[j].id == (#[trigger] plans@[k]).id@ by {
                            let j = choose|j: int|
                                0 <= j < m0.len() && m0[j].status == DownloadStatus::Queued
                                    && #[trigger] m1[j].status == DownloadStatus::Preparing
                                    && m1[j].id == plans@[k].id@;
                            assert(m2[j] == m1[j]);
                        }
                        assert(m2[q].status == DownloadStatus::Preparing);
                        assert(m2[q].id == p.id@);
                    }
                    plans.push(p);
                },
                None => {
                    more = false;
                },
            }
        }
        plans
    }
}

} // verus!
