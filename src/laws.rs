//! Properties that relate several operations, proved over their contracts.
use vstd::prelude::*;
use crate::download::{
    DownloadManager, SpawnPlan, awaits_verification, plan_of, pumped, spawn_failed, terminated,
    verdict_removal, verified,
};
use crate::parser::{LineShape, line_shape};
use crate::process::integrity_ok;
use crate::persistence::{PersistedView, persisted_of, projected, recovered, restored};
use crate::registry::{
    count_active, first_queued, index_of, lemma_count_update, lemma_index_from,
    lemma_queued_from, queued_from, registry_wf,
};
use crate::status::{DownloadStatus, active, terminal};
use crate::task::{TaskView, line_effect, line_emits, removal, task_wf};

verus! {

proof fn lemma_restored_distinct(s: Seq<PersistedView>)
    requires
        forall|i: int, j: int| 0 <= i < j < s.len() ==> s[i].id != s[j].id,
    ensures
        restored(s) == s.map_values(|p: PersistedView| recovered(p)),
    decreases s.len(),
{
    if s.len() > 0 {
        let pre = s.drop_last();
        lemma_restored_distinct(pre);
        let r = restored(pre);
        lemma_index_from(r, s.last().id, 0);
        if index_of(r, s.last().id) >= 0 {
            let k = index_of(r, s.last().id);
            assert(r[k].id == pre[k].id);
            assert(s[k].id != s[s.len() - 1].id);
        }
        assert(restored(s) =~= s.map_values(|p: PersistedView| recovered(p)));
    }
}

/// Saving a well-formed registry and restoring the snapshot yields every
/// task, in order, projected onto the persisted fields, with work that
/// was in flight rewritten to Error.
pub proof fn lemma_persistence_round_trip(m: DownloadManager)
    requires
        m.wf(),
    ensures
        restored(m.model().map_values(|t: TaskView| persisted_of(t))) == m.model().map_values(
            |t: TaskView| projected(t),
        ),
{
    let s = m.model().map_values(|t: TaskView| persisted_of(t));
    assert forall|i: int, j: int| 0 <= i < j < s.len() implies s[i].id != s[j].id by {
        assert(m.model()[i].id != m.model()[j].id);
    }
    lemma_restored_distinct(s);
    assert(s.map_values(|p: PersistedView| recovered(p)) =~= m.model().map_values(
        |t: TaskView| projected(t),
    ));
}

/// Scheduler liveness: when a task is queued and a slot is free, one pump
/// hands out a queued task, which is now Preparing.
pub proof fn lemma_pump_admits(
    before: Seq<TaskView>,
    max: nat,
    after: Seq<TaskView>,
    plan: Option<SpawnPlan>,
    queued: int,
)
    requires
        pumped(before, max, after, plan),
        count_active(before) < max,
        0 <= queued < before.len(),
        before[queued].status == DownloadStatus::Queued,
    ensures
        plan is Some,
        exists|q: int|
            0 <= q < before.len() && before[q].status == DownloadStatus::Queued
                && #[trigger] after[q].status == DownloadStatus::Preparing && plan->Some_0.id@
                == before[q].id,
{
    lemma_queued_from(before, 0);
    let q = first_queued(before);
    assert(after[q].status == DownloadStatus::Preparing);
}

/// The removal list names the `.part` and `.ytdl` siblings of the
/// artifact, if known, and the cookies file, if any.
pub open spec fn removal_covers(
    files: Seq<Seq<char>>,
    artifact: Option<Seq<char>>,
    cookie_file: Option<Seq<char>>,
) -> bool {
    &&& artifact matches Some(p) ==> files.contains(p + ".part"@) && files.contains(p + ".ytdl"@)
    &&& cookie_file matches Some(c) ==> files.contains(c)
}

proof fn lemma_removal_covers(artifact: Option<Seq<char>>, cookie_file: Option<Seq<char>>)
    ensures
        removal_covers(removal(artifact, cookie_file), artifact, cookie_file),
{
    let files = removal(artifact, cookie_file);
    if let Some(p) = artifact {
        assert(files[0] == p + ".part"@);
        assert(files[1] == p + ".ytdl"@);
    }
    if let Some(c) = cookie_file {
        assert(files[files.len() - 1] == c);
    }
}

/// A task completes only after its running downloader exited with code 0
/// having named its artifact, and only when that artifact exists, is not
/// empty, and passed the probe without a word on stderr.
pub proof fn lemma_completion_requires_verified_artifact(
    t: TaskView,
    code: Option<i32>,
    exists: bool,
    len: u64,
    probe_success: bool,
    stderr: Seq<char>,
    msg: Seq<char>,
)
    requires
        task_wf(t),
        t.child is Some,
    ensures
        verified(terminated(t, code), integrity_ok(exists, len, probe_success, stderr), msg).status
            == DownloadStatus::Completed ==> code == Some(0i32) && t.final_path is Some && exists
            && len > 0 && probe_success && stderr.len() == 0,
{
}

/// A run that ends in Error or Cancelled when its downloader exits holds
/// no process and no cookies file, and the files handed back for removal
/// are the artifact's fragments and the cookies file.
pub proof fn lemma_failed_exit_cleans_up(t: TaskView, code: Option<i32>)
    requires
        task_wf(t),
        !terminal(t.status) || t.status == DownloadStatus::Cancelled,
        !awaits_verification(t, code),
    ensures
        terminated(t, code).status == DownloadStatus::Error || terminated(t, code).status
            == DownloadStatus::Cancelled ==> terminated(t, code).child is None && terminated(
            t,
            code,
        ).cookie_file is None,
        removal_covers(removal(t.final_path, t.cookie_file), t.final_path, t.cookie_file),
{
    lemma_removal_covers(t.final_path, t.cookie_file);
}

/// A rejected artifact leaves its task in Error without process or cookies
/// file, and hands back the fragments and the cookies file for removal.
pub proof fn lemma_rejected_artifact_cleans_up(t: TaskView, ok: bool, msg: Seq<char>)
    requires
        task_wf(t),
        !terminal(t.status) || t.status == DownloadStatus::Cancelled,
    ensures
        verified(t, ok, msg).status == DownloadStatus::Error || verified(t, ok, msg).status
            == DownloadStatus::Cancelled ==> verified(t, ok, msg).child is None && verified(
            t,
            ok,
            msg,
        ).cookie_file is None && removal_covers(verdict_removal(t, ok), t.final_path, t.cookie_file),
{
    lemma_removal_covers(t.final_path, t.cookie_file);
}

/// A failed spawn leaves no process and no cookies file, and the cookies
/// file written for it is handed back for removal.
pub proof fn lemma_failed_spawn_cleans_up(t: TaskView, cookie_file: Option<Seq<char>>)
    requires
        t.status == DownloadStatus::Preparing,
    ensures
        spawn_failed(t).status == DownloadStatus::Error,
        spawn_failed(t).child is None && spawn_failed(t).cookie_file is None,
        removal_covers(removal(None, cookie_file), None, cookie_file),
{
    lemma_removal_covers(None, cookie_file);
}

proof fn lemma_queued_from_update(s: Seq<TaskView>, a: int, t: TaskView, k: int)
    requires
        0 <= a < s.len(),
        0 <= k,
        s[a].status != DownloadStatus::Queued,
        t.status != DownloadStatus::Queued,
    ensures
        queued_from(s.update(a, t), k) == queued_from(s, k),
    decreases s.len() - k,
{
    if k < s.len() {
        lemma_queued_from_update(s, a, t, k + 1);
    }
}

/// When an active task reaches a final status in a registry whose slots
/// were all taken, the next pump admits the oldest queued task, with its
/// own download options, and changes nothing else.
pub proof fn lemma_freed_slot_admits_oldest_queued(
    s: Seq<TaskView>,
    max: nat,
    a: int,
    t: TaskView,
    after: Seq<TaskView>,
    plan: Option<SpawnPlan>,
)
    requires
        registry_wf(s, max),
        0 <= a < s.len(),
        active(s[a].status),
        terminal(t.status),
        first_queued(s) >= 0,
        pumped(s.update(a, t), max, after, plan),
    ensures
        plan matches Some(p) && plan_of(p, s[first_queued(s)]),
        after.len() == s.len(),
        after[first_queued(s)].status == DownloadStatus::Preparing,
        forall|j: int|
            0 <= j < s.len() && j != first_queued(s) ==> #[trigger] after[j] == s.update(a, t)[j],
{
    lemma_count_update(s, a, t);
    lemma_queued_from_update(s, a, t, 0);
    lemma_queued_from(s, 0);
}

/// A paused task reports nothing: no line yields an event for it while it
/// stays paused, and progress lines leave it unchanged.
pub proof fn lemma_paused_task_reports_no_progress(t: TaskView, line: Seq<char>)
    requires
        t.status == DownloadStatus::Paused,
    ensures
        !line_emits(t, line_shape(line)),
        line_effect(t, line_shape(line)).status == DownloadStatus::Paused,
        line_shape(line) is Progress ==> line_effect(t, line_shape(line)) == t,
{
}

} // verus!
