//! A download task, its abstract view, and the effect of each lifecycle
//! event on one task.
use vstd::prelude::*;
use vstd::string::*;
use crate::parser::{LineShape, ProgressUpdate};
use crate::process::{fragment_files_of, opt_text, texts, fragment_files, IPC_VERSION};
use crate::status::{DownloadStatus, active, permitted, step_allowed, terminal};

verus! {

/// Progress is kept in hundredths of a percent; this is 100%.
pub const FULL_PROGRESS: u64 = 10000;

/// One download. `progress` is in hundredths of a percent; `child` is the
/// process id of the live downloader; `cookie_file` is the temporary
/// cookies file while it exists.
pub struct DownloadTask {
    pub id: String,
    pub url: String,
    pub title: String,
    pub status: DownloadStatus,
    pub progress: u64,
    pub speed: Option<u64>,
    pub eta: Option<u64>,
    pub total_size: Option<u64>,
    pub downloaded_bytes: Option<u64>,
    pub child: Option<u32>,
    pub final_path: Option<String>,
    pub error_message: Option<String>,
    pub download_dir: Option<String>,
    pub format_spec: Option<String>,
    pub cookies: Option<String>,
    pub cookie_file: Option<String>,
}

/// A task with its texts as character sequences.
pub struct TaskView {
    pub id: Seq<char>,
    pub url: Seq<char>,
    pub title: Seq<char>,
    pub status: DownloadStatus,
    pub progress: u64,
    pub speed: Option<u64>,
    pub eta: Option<u64>,
    pub total_size: Option<u64>,
    pub downloaded_bytes: Option<u64>,
    pub child: Option<u32>,
    pub final_path: Option<Seq<char>>,
    pub error_message: Option<Seq<char>>,
    pub download_dir: Option<Seq<char>>,
    pub format_spec: Option<Seq<char>>,
    pub cookies: Option<Seq<char>>,
    pub cookie_file: Option<Seq<char>>,
}

impl View for DownloadTask {
    type V = TaskView;

    open spec fn view(&self) -> TaskView {
        TaskView {
            id: self.id@,
            url: self.url@,
            title: self.title@,
            status: self.status,
            progress: self.progress,
            speed: self.speed,
            eta: self.eta,
            total_size: self.total_size,
            downloaded_bytes: self.downloaded_bytes,
            child: self.child,
            final_path: opt_text(self.final_path),
            error_message: opt_text(self.error_message),
            download_dir: opt_text(self.download_dir),
            format_spec: opt_text(self.format_spec),
            cookies: opt_text(self.cookies),
            cookie_file: opt_text(self.cookie_file),
        }
    }
}

/// The event sent to the user interface about a task.
pub struct DownloadProgressPayload {
    pub id: String,
    /// Hundredths of a percent.
    pub progress: u64,
    pub speed: Option<u64>,
    pub eta: Option<u64>,
    pub status: DownloadStatus,
    pub total_size: Option<u64>,
    pub downloaded_bytes: Option<u64>,
    pub can_retry: Option<bool>,
    pub error_message: Option<String>,
    pub final_path: Option<String>,
    pub version: u32,
}

pub struct PayloadView {
    pub id: Seq<char>,
    pub progress: u64,
    pub speed: Option<u64>,
    pub eta: Option<u64>,
    pub status: DownloadStatus,
    pub total_size: Option<u64>,
    pub downloaded_bytes: Option<u64>,
    pub can_retry: Option<bool>,
    pub error_message: Option<Seq<char>>,
    pub final_path: Option<Seq<char>>,
    pub version: u32,
}

impl View for DownloadProgressPayload {
    type V = PayloadView;

    open spec fn view(&self) -> PayloadView {
        PayloadView {
            id: self.id@,
            progress: self.progress,
            speed: self.speed,
            eta: self.eta,
            status: self.status,
            total_size: self.total_size,
            downloaded_bytes: self.downloaded_bytes,
            can_retry: self.can_retry,
            error_message: opt_text(self.error_message),
            final_path: opt_text(self.final_path),
            version: self.version,
        }
    }
}

/// What is reported of a task; a retry is offered exactly for failed tasks.
pub open spec fn payload_of(t: TaskView) -> PayloadView {
    PayloadView {
        id: t.id,
        progress: t.progress,
        speed: t.speed,
        eta: t.eta,
        status: t.status,
        total_size: t.total_size,
        downloaded_bytes: t.downloaded_bytes,
        can_retry: Some(t.status == DownloadStatus::Error),
        error_message: t.error_message,
        final_path: t.final_path,
        version: IPC_VERSION,
    }
}

/// Invariant of one task: progress at most 100%, a live process only in
/// an active status, and a finished task holds neither process nor
/// cookies file.
pub open spec fn task_wf(t: TaskView) -> bool {
    &&& t.progress <= FULL_PROGRESS
    &&& t.child is Some ==> active(t.status)
    &&& terminal(t.status) ==> t.child is None && t.cookie_file is None
}

/// A change of one task that may be observed: identity kept, status moved
/// along the permitted graph, progress not lowered, finished tasks frozen.
pub open spec fn task_step(a: TaskView, b: TaskView) -> bool {
    &&& b.id == a.id
    &&& b.url == a.url
    &&& b.title == a.title
    &&& step_allowed(a.status, b.status)
    &&& a.progress <= b.progress
    &&& terminal(a.status) ==> b == a
}

/// The step leaves no task newly completed.
pub open spec fn no_completion(a: TaskView, b: TaskView) -> bool {
    b.status == DownloadStatus::Completed ==> a.status == DownloadStatus::Completed
}

pub open spec fn transitioned(t: TaskView, next: DownloadStatus) -> TaskView {
    if step_allowed(t.status, next) {
        TaskView { status: next, ..t }
    } else {
        t
    }
}

/// Share of `total` that `downloaded` makes, in hundredths of a percent,
/// capped at 100%; 0 while the total is unknown.
pub open spec fn percent_of(downloaded: u64, total: u64) -> u64 {
    if total == 0 {
        0
    } else if downloaded >= total {
        FULL_PROGRESS
    } else {
        ((downloaded as int) * (FULL_PROGRESS as int) / (total as int)) as u64
    }
}

pub open spec fn max_u64(a: u64, b: u64) -> u64 {
    if a >= b {
        a
    } else {
        b
    }
}

/// Counters of a progress line applied to a downloading task.
pub open spec fn with_progress(t: TaskView, u: ProgressUpdate) -> TaskView {
    TaskView {
        progress: max_u64(t.progress, percent_of(u.downloaded, u.total)),
        speed: u.speed,
        eta: u.eta,
        total_size: if u.total > 0 {
            Some(u.total)
        } else {
            None
        },
        downloaded_bytes: Some(u.downloaded),
        ..t
    }
}

/// Effect of one stdout line on its task. Finished tasks are not touched;
/// counters apply only while downloading.
pub open spec fn line_effect(t: TaskView, shape: LineShape) -> TaskView {
    if terminal(t.status) {
        t
    } else {
        match shape {
            LineShape::SetDestination(p) => TaskView { final_path: Some(p), ..t },
            LineShape::BeginMerging(p) => {
                let t1 = match p {
                    Some(q) => TaskView { final_path: Some(q), ..t },
                    None => t,
                };
                let t2 = transitioned(t1, DownloadStatus::Merging);
                if t2.status == DownloadStatus::Merging {
                    TaskView { progress: FULL_PROGRESS, ..t2 }
                } else {
                    t2
                }
            },
            LineShape::Progress(u) => if t.status == DownloadStatus::Downloading {
                with_progress(t, u)
            } else {
                t
            },
            LineShape::Ignore => t,
        }
    }
}

/// Whether a line yields an event for the user interface: a progress line
/// while downloading, and a merger line when the task may merge.
pub open spec fn line_emits(t: TaskView, shape: LineShape) -> bool {
    !terminal(t.status) && match shape {
        LineShape::BeginMerging(_) => step_allowed(t.status, DownloadStatus::Merging),
        LineShape::Progress(_) => t.status == DownloadStatus::Downloading,
        _ => false,
    }
}

/// The files to remove: the fragments beside an artifact, then a cookies file.
pub open spec fn removal(artifact: Option<Seq<char>>, cookie_file: Option<Seq<char>>) -> Seq<Seq<char>> {
    (match artifact {
        Some(p) => fragment_files_of(p),
        None => seq![],
    }) + match cookie_file {
        Some(c) => seq![c],
        None => seq![],
    }
}

pub fn clone_opt(o: &Option<String>) -> (r: Option<String>)
    ensures
        opt_text(r) == opt_text(*o),
{
    match o {
        Some(s) => Some(s.clone()),
        None => None,
    }
}

/// The list of files named by `removal`.
pub fn removal_list(artifact: &Option<String>, cookie_file: &Option<String>) -> (r: Vec<String>)
    ensures
        texts(r@) == removal(opt_text(*artifact), opt_text(*cookie_file)),
{
    let mut v: Vec<String> = match artifact {
        Some(p) => fragment_files(p.as_str()),
        None => Vec::new(),
    };
    let ghost first = texts(v@);
    if let Some(c) = cookie_file {
        v.push(c.clone());
    }
    proof {
        assert(texts(v@) =~= removal(opt_text(*artifact), opt_text(*cookie_file)));
    }
    v
}

impl DownloadTask {
    /// A fresh queued task.
    pub fn new(id: String, url: String, title: String) -> (r: DownloadTask)
        ensures
            r@ == (TaskView {
                id: id@,
                url: url@,
                title: title@,
                status: DownloadStatus::Queued,
                progress: 0,
                speed: None,
                eta: None,
                total_size: None,
                downloaded_bytes: None,
                child: None,
                final_path: None,
                error_message: None,
                download_dir: None,
                format_spec: None,
                cookies: None,
                cookie_file: None,
            }),
    {
        DownloadTask {
            id,
            url,
            title,
            status: DownloadStatus::Queued,
            progress: 0,
            speed: None,
            eta: None,
            total_size: None,
            downloaded_bytes: None,
            child: None,
            final_path: None,
            error_message: None,
            download_dir: None,
            format_spec: None,
            cookies: None,
            cookie_file: None,
        }
    }

    /// Moves to `next` if the graph permits it or it is the current status;
    /// otherwise changes nothing and fails.
    pub fn transition(&mut self, next: DownloadStatus) -> (r: bool)
        ensures
            r == step_allowed(old(self).status, next),
            final(self)@ == transitioned(old(self)@, next),
    {
        if self.status.can_transition_to(&next) || self.status == next {
            self.status = next;
            true
        } else {
            false
        }
    }

    /// Snapshot of the download for the user interface.
    pub fn payload(&self) -> (r: DownloadProgressPayload)
        ensures
            r@ == payload_of(self@),
    {
        DownloadProgressPayload {
            id: self.id.clone(),
            progress: self.progress,
            speed: self.speed,
            eta: self.eta,
            status: self.status,
            total_size: self.total_size,
            downloaded_bytes: self.downloaded_bytes,
            can_retry: Some(self.status == DownloadStatus::Error),
            error_message: clone_opt(&self.error_message),
            final_path: clone_opt(&self.final_path),
            version: IPC_VERSION,
        }
    }
}

/// Progress in hundredths of a percent for `downloaded` of `total` bytes.
pub fn percent(downloaded: u64, total: u64) -> (r: u64)
    ensures
        r == percent_of(downloaded, total),
        r <= FULL_PROGRESS,
{
    if total == 0 {
        0
    } else if downloaded >= total {
        FULL_PROGRESS
    } else {
        let d = downloaded as u128;
        assert(d * 10000 <= u64::MAX as u128 * 10000) by (nonlinear_arith)
            requires
                d <= u64::MAX as u128,
        ;
        let wide = d * (FULL_PROGRESS as u128) / (total as u128);
        proof {
            assert((downloaded as int) * 10000 / (total as int) <= 10000) by (nonlinear_arith)
                requires
                    downloaded < total,
                    total > 0,
            ;
        }
        wide as u64
    }
}

/// Applies the meaning of one stdout line to a task; returns whether an
/// event is due.
pub fn apply_shape(t: &mut DownloadTask, ev: crate::parser::LineEvent) -> (r: bool)
    requires
        task_wf(old(t)@),
    ensures
        final(t)@ == line_effect(old(t)@, ev@),
        r == line_emits(old(t)@, ev@),
        task_wf(final(t)@),
        task_step(old(t)@, final(t)@),
        no_completion(old(t)@, final(t)@),
{
    if t.status.is_terminal() {
        return false;
    }
    match ev {
        crate::parser::LineEvent::SetDestination(p) => {
            t.final_path = Some(p);
            false
        },
        crate::parser::LineEvent::BeginMerging(p) => {
            if let Some(q) = p {
                t.final_path = Some(q);
            }
            let merging = t.transition(DownloadStatus::Merging);
            if merging {
                t.progress = FULL_PROGRESS;
            }
            merging
        },
        crate::parser::LineEvent::Progress(u) => {
            if t.status == DownloadStatus::Downloading {
                let p = percent(u.downloaded, u.total);
                if p > t.progress {
                    t.progress = p;
                }
                t.speed = u.speed;
                t.eta = u.eta;
                t.total_size = if u.total > 0 {
                    Some(u.total)
                } else {
                    None
                };
                t.downloaded_bytes = Some(u.downloaded);
                true
            } else {
                false
            }
        },
        crate::parser::LineEvent::Ignore => false,
    }
}

} // verus!
