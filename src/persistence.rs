//! The persisted subset of the registry: what a snapshot holds, how a
//! loaded snapshot becomes a registry again, and where it lives.
use vstd::prelude::*;
use vstd::string::*;
use crate::download::DownloadManager;
use crate::process::opt_text;
use crate::registry::{
    count_active, index_of, lemma_count_push, lemma_count_update, lemma_index_from,
};
use crate::status::{DownloadStatus, active, terminal};
use crate::task::{DownloadTask, FULL_PROGRESS, TaskView, clone_opt, task_wf};

verus! {

/// Schema version of the snapshot file.
pub const PERSIST_VERSION: u32 = 1;

/// The six fields kept of a task; `download_dir` holds its artifact path.
pub struct PersistedTask {
    pub id: String,
    pub url: String,
    pub status: DownloadStatus,
    pub title: String,
    /// Hundredths of a percent.
    pub progress: u64,
    pub download_dir: Option<String>,
}

pub struct PersistedView {
    pub id: Seq<char>,
    pub url: Seq<char>,
    pub status: DownloadStatus,
    pub title: Seq<char>,
    pub progress: u64,
    pub download_dir: Option<Seq<char>>,
}

impl View for PersistedTask {
    type V = PersistedView;

    open spec fn view(&self) -> PersistedView {
        PersistedView {
            id: self.id@,
            url: self.url@,
            status: self.status,
            title: self.title@,
            progress: self.progress,
            download_dir: opt_text(self.download_dir),
        }
    }
}

/// A versioned snapshot.
pub struct PersistenceData {
    pub version: u32,
    pub tasks: Vec<PersistedTask>,
}

/// Where snapshots are written.
pub struct PersistenceManager {
    path: String,
}

pub open spec fn persisted_views(s: Seq<PersistedTask>) -> Seq<PersistedView> {
    s.map_values(|p: PersistedTask| p@)
}

/// What a snapshot keeps of a task.
pub open spec fn persisted_of(t: TaskView) -> PersistedView {
    PersistedView {
        id: t.id,
        url: t.url,
        status: t.status,
        title: t.title,
        progress: t.progress,
        download_dir: t.final_path,
    }
}

/// Status after a restart: work in flight when the process stopped is lost.
pub open spec fn recovered_status(s: DownloadStatus) -> DownloadStatus {
    if terminal(s) {
        s
    } else {
        DownloadStatus::Error
    }
}

/// A task rebuilt from its persisted fields.
pub open spec fn recovered(p: PersistedView) -> TaskView {
    TaskView {
        id: p.id,
        url: p.url,
        title: p.title,
        status: recovered_status(p.status),
        progress: if p.progress <= FULL_PROGRESS {
            p.progress
        } else {
            FULL_PROGRESS
        },
        speed: None,
        eta: None,
        total_size: None,
        downloaded_bytes: None,
        child: None,
        final_path: p.download_dir,
        error_message: if terminal(p.status) {
            None
        } else {
            Some("interrupted"@)
        },
        download_dir: None,
        format_spec: None,
        cookies: None,
        cookie_file: None,
    }
}

/// The registry rebuilt from loaded entries in order; a later entry with
/// an id already seen replaces the earlier one in its place.
pub open spec fn restored(s: Seq<PersistedView>) -> Seq<TaskView>
    decreases s.len(),
{
    if s.len() == 0 {
        seq![]
    } else {
        let r = restored(s.drop_last());
        let i = index_of(r, s.last().id);
        if i >= 0 {
            r.update(i, recovered(s.last()))
        } else {
            r.push(recovered(s.last()))
        }
    }
}

/// A task as it reads after a save and a restart.
pub open spec fn projected(t: TaskView) -> TaskView {
    recovered(persisted_of(t))
}

/// Loaded entries: the versioned snapshot when its version is known,
/// otherwise the bare list of entries, otherwise nothing.
pub open spec fn loaded_choice(
    versioned: Option<PersistenceData>,
    bare: Option<Vec<PersistedTask>>,
) -> Option<Vec<PersistedTask>> {
    match versioned {
        Some(d) if d.version == PERSIST_VERSION => Some(d.tasks),
        _ => bare,
    }
}

pub open spec fn joined(dir: Seq<char>, name: Seq<char>) -> Seq<char> {
    if dir.len() == 0 {
        name
    } else if dir.last() == '/' {
        dir + name
    } else {
        dir + "/"@ + name
    }
}

impl PersistenceManager {
    pub closed spec fn path_view(&self) -> Seq<char> {
        self.path@
    }

    /// Snapshots live in `tasks.json` inside `app_dir`.
    pub fn new(app_dir: String) -> (r: PersistenceManager)
        ensures
            r.path_view() == joined(app_dir@, "tasks.json"@),
    {
        let n = app_dir.as_str().unicode_len();
        let path = if n == 0 {
            String::from_str("tasks.json")
        } else if app_dir.as_str().get_char(n - 1) == '/' {
            app_dir.concat("tasks.json")
        } else {
            app_dir.concat("/").concat("tasks.json")
        };
        PersistenceManager { path }
    }

    /// The snapshot file.
    pub fn path(&self) -> (r: String)
        ensures
            r@ == self.path_view(),
    {
        self.path.clone()
    }

    /// The file a snapshot is written to before it is renamed over the
    /// snapshot file.
    pub fn temp_path(&self) -> (r: String)
        ensures
            r@ == self.path_view() + ".tmp"@,
    {
        self.path.clone().concat(".tmp")
    }

    /// The snapshot of a registry: the persisted fields of every task, in
    /// registry order, under the current version.
    pub fn snapshot_tasks(manager: &DownloadManager) -> (r: PersistenceData)
        ensures
            r.version == PERSIST_VERSION,
            persisted_views(r.tasks@) == manager.model().map_values(|t: TaskView| persisted_of(t)),
    {
        let mut out: Vec<PersistedTask> = Vec::new();
        let mut i: usize = 0;
        while i < manager.tasks.len()
            invariant
                i <= manager.tasks@.len(),
                out@.len() == i,
                forall|j: int|
                    0 <= j < i ==> (#[trigger] out@[j])@ == persisted_of(manager.model()[j]),
            decreases manager.tasks@.len() - i,
        {
            let t = &manager.tasks[i];
            out.push(
                PersistedTask {
                    id: t.id.clone(),
                    url: t.url.clone(),
                    status: t.status,
                    title: t.title.clone(),
                    progress: t.progress,
                    download_dir: clone_opt(&t.final_path),
                },
            );
            i = i + 1;
        }
        proof {
            assert(persisted_views(out@) =~= manager.model().map_values(
                |t: TaskView| persisted_of(t),
            ));
        }
        PersistenceData { version: PERSIST_VERSION, tasks: out }
    }

    /// Picks the entries to restore from the two readings of a snapshot
    /// file: the versioned one, and the bare list of entries of older files.
    pub fn choose_loaded(
        versioned: Option<PersistenceData>,
        bare: Option<Vec<PersistedTask>>,
    ) -> (r: Option<Vec<PersistedTask>>)
        ensures
            r == loaded_choice(versioned, bare),
    {
        match versioned {
            Some(d) => {
                if d.version == PERSIST_VERSION {
                    Some(d.tasks)
                } else {
                    bare
                }
            },
            None => bare,
        }
    }

    /// Whether a versioned reading needs the fallback reading.
    pub fn needs_fallback(versioned: &Option<PersistenceData>) -> (r: bool)
        ensures
            r == !(versioned matches Some(d) && d.version == PERSIST_VERSION),
    {
        match versioned {
            Some(d) => d.version != PERSIST_VERSION,
            None => true,
        }
    }
}

/// Rebuilds one task from its persisted fields.
pub fn recover_task(p: PersistedTask) -> (r: DownloadTask)
    ensures
        r@ == recovered(p@),
{
    let finished = p.status.is_terminal();
    let mut t = DownloadTask::new(p.id, p.url, p.title);
    t.status = if finished {
        p.status
    } else {
        DownloadStatus::Error
    };
    t.progress = if p.progress <= FULL_PROGRESS {
        p.progress
    } else {
        FULL_PROGRESS
    };
    t.final_path = p.download_dir;
    if !finished {
        t.error_message = Some(String::from_str("interrupted"));
    }
    t
}

proof fn lemma_recovered_finished(p: PersistedView)
    ensures
        task_wf(recovered(p)),
        !active(recovered(p).status),
{
}

fn copy_persisted(p: &PersistedTask) -> (r: PersistedTask)
    ensures
        r@ == p@,
{
    PersistedTask {
        id: p.id.clone(),
        url: p.url.clone(),
        status: p.status,
        title: p.title.clone(),
        progress: p.progress,
        download_dir: clone_opt(&p.download_dir),
    }
}

impl DownloadManager {
    /// The registry after a restart, from the loaded snapshot entries.
    pub fn from_persisted(loaded: Vec<PersistedTask>) -> (r: DownloadManager)
        ensures
            r.wf(),
            r.max_concurrent == crate::process::MAX_CONCURRENT_DOWNLOADS,
            r.model() == restored(persisted_views(loaded@)),
    {
        let ghost all = persisted_views(loaded@);
        let mut m = DownloadManager::new();
        let mut i: usize = 0;
        while i < loaded.len()
            invariant
                all == persisted_views(loaded@),
                i <= loaded@.len(),
                m.wf(),
                m.max_concurrent == crate::process::MAX_CONCURRENT_DOWNLOADS,
                m.model() == restored(all.subrange(0, i as int)),
                count_active(m.model()) == 0,
            decreases loaded@.len() - i,
        {
            let ghost m0 = m.model();
            let t = recover_task(copy_persisted(&loaded[i]));
            proof {
                assert(all.subrange(0, i + 1).drop_last() =~= all.subrange(0, i as int));
                assert(all.subrange(0, i + 1).last() == all[i as int]);
                lemma_recovered_finished(all[i as int]);
                lemma_index_from(m0, t@.id, 0);
            }
            match m.find_index(t.id.as_str()) {
                Some(j) => {
                    m.tasks.set(j, t);
                    proof {
                        assert(m.model() =~= m0.update(j as int, t@));
                        lemma_count_update(m0, j as int, t@);
                        let u = m.model();
                        assert forall|a: int, b: int| 0 <= a < b < u.len() implies u[a].id
                            != u[b].id by {
                            assert(m0[a].id != m0[b].id);
                        }
                        assert forall|a: int| 0 <= a < u.len() implies task_wf(#[trigger] u[a]) by {
                            if a != j {
                                assert(task_wf(m0[a]));
                            }
                        }
                    }
                },
                None => {
                    m.tasks.push(t);
                    proof {
                        assert(m.model() =~= m0.push(t@));
                        lemma_count_push(m0, t@);
                        let u = m.model();
                        assert forall|a: int, b: int| 0 <= a < b < u.len() implies u[a].id
                            != u[b].id by {
                            if b < m0.len() {
                                assert(m0[a].id != m0[b].id);
                            }
                        }
                        assert forall|a: int| 0 <= a < u.len() implies task_wf(#[trigger] u[a]) by {
                            if a < m0.len() {
                                assert(task_wf(m0[a]));
                            }
                        }
                    }
                },
            }
            i = i + 1;
        }
        proof {
            assert(all.subrange(0, i as int) =~= all);
        }
        m
    }
}

} // verus!
