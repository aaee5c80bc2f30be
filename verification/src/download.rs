use vstd::prelude::*;
use vstd::multiset::Multiset;
use vstd::string::*;

use crate::clock::{new_token, url_path_of, parse_url_path};
use crate::errors::TransferError;

verus! {

broadcast use vstd::string::group_string_axioms, vstd::seq_lib::group_to_multiset_ensures;

// ---------------------------------------------------------------------------
// Remote-fetch tasks and their state machine.
//
// A task is created `Pending`, its worker moves it to `Downloading` and
// then to `Completed` or `Failed`; `cancel_task` moves an active task to
// `Cancelled`. Every worker-driven transition leaves a terminal task
// alone, so a cancelled task can never be revived.
// ---------------------------------------------------------------------------

#[derive(Clone, Copy, Debug, PartialEq, Eq, Structural)]
pub enum DownloadStatus {
    Pending,
    Downloading,
    Completed,
    Failed,
    Cancelled,
}

/// A status no worker transition leaves.
pub open spec fn is_terminal(s: DownloadStatus) -> bool {
    s == DownloadStatus::Completed || s == DownloadStatus::Failed || s == DownloadStatus::Cancelled
}

/// A task still owned by its worker.
pub open spec fn is_active(s: DownloadStatus) -> bool {
    s == DownloadStatus::Pending || s == DownloadStatus::Downloading
}

/// One remote-fetch task: source URL, destination directory and file name,
/// progress, and the status of its worker.
pub struct RemoteDownloadTask {
    pub id: String,
    pub url: String,
    pub path: String,
    pub name: String,
    pub size: Option<i64>,
    pub downloaded: i64,
    pub status: DownloadStatus,
    pub created_at: i64,
    pub error: Option<String>,
}

/// The mathematical model of a task.
pub ghost struct TaskModel {
    pub id: Seq<char>,
    pub url: Seq<char>,
    pub path: Seq<char>,
    pub name: Seq<char>,
    pub size: Option<i64>,
    pub downloaded: i64,
    pub status: DownloadStatus,
    pub created_at: i64,
    pub error: Option<Seq<char>>,
}

impl View for RemoteDownloadTask {
    type V = TaskModel;

    open spec fn view(&self) -> TaskModel {
        TaskModel {
            id: self.id@,
            url: self.url@,
            path: self.path@,
            name: self.name@,
            size: self.size,
            downloaded: self.downloaded,
            status: self.status,
            created_at: self.created_at,
            error: match self.error {
                Some(e) => Some(e@),
                None => None,
            },
        }
    }
}

/// The read-only snapshot of a task that `get_tasks` hands out, with the
/// status rendered as its wire label.
pub struct RemoteDownloadTaskDto {
    pub id: String,
    pub url: String,
    pub path: String,
    pub name: String,
    pub size: Option<i64>,
    pub downloaded: i64,
    pub status: String,
    pub created_at: i64,
    pub error: Option<String>,
}

pub ghost struct DtoModel {
    pub id: Seq<char>,
    pub url: Seq<char>,
    pub path: Seq<char>,
    pub name: Seq<char>,
    pub size: Option<i64>,
    pub downloaded: i64,
    pub status: Seq<char>,
    pub created_at: i64,
    pub error: Option<Seq<char>>,
}

impl View for RemoteDownloadTaskDto {
    type V = DtoModel;

    open spec fn view(&self) -> DtoModel {
        DtoModel {
            id: self.id@,
            url: self.url@,
            path: self.path@,
            name: self.name@,
            size: self.size,
            downloaded: self.downloaded,
            status: self.status@,
            created_at: self.created_at,
            error: match self.error {
                Some(e) => Some(e@),
                None => None,
            },
        }
    }
}

/// The wire label of a status.
pub open spec fn status_label(s: DownloadStatus) -> Seq<char> {
    match s {
        DownloadStatus::Pending => "pending"@,
        DownloadStatus::Downloading => "downloading"@,
        DownloadStatus::Completed => "completed"@,
        DownloadStatus::Failed => "failed"@,
        DownloadStatus::Cancelled => "cancelled"@,
    }
}

/// The snapshot of a task.
pub open spec fn dto_of(t: TaskModel) -> DtoModel {
    DtoModel {
        id: t.id,
        url: t.url,
        path: t.path,
        name: t.name,
        size: t.size,
        downloaded: t.downloaded,
        status: status_label(t.status),
        created_at: t.created_at,
        error: t.error,
    }
}

// ---------------------------------------------------------------------------
// Worker transitions, at the model level.
// ---------------------------------------------------------------------------

/// The worker starts: a pending task begins downloading; any other status
/// is left alone.
pub open spec fn spec_start(m: TaskModel) -> TaskModel {
    if m.status == DownloadStatus::Pending {
        TaskModel { status: DownloadStatus::Downloading, ..m }
    } else {
        m
    }
}

/// The response headers arrived: record the advertised total size, unless
/// the task has already reached a terminal status.
pub open spec fn spec_set_size(m: TaskModel, size: Option<i64>) -> TaskModel {
    if is_terminal(m.status) {
        m
    } else {
        TaskModel { size: size, ..m }
    }
}

/// Bytes were appended: update the running count of a task still
/// downloading; a cancelled or otherwise terminal task is left alone.
pub open spec fn spec_progress(m: TaskModel, downloaded: i64) -> TaskModel {
    if m.status == DownloadStatus::Downloading {
        TaskModel { downloaded: downloaded, ..m }
    } else {
        m
    }
}

/// The stream ended: a task still downloading completes with its exact
/// byte count; a task cancelled mid-stream stays cancelled.
pub open spec fn spec_complete_task(m: TaskModel, downloaded: i64) -> TaskModel {
    if m.status == DownloadStatus::Downloading {
        TaskModel { status: DownloadStatus::Completed, downloaded: downloaded, ..m }
    } else {
        m
    }
}

/// The fetch failed: an active task records the error; a terminal task --
/// in particular a cancelled one -- is left alone.
pub open spec fn spec_fail(m: TaskModel, error: Seq<char>) -> TaskModel {
    if is_terminal(m.status) {
        m
    } else {
        TaskModel { status: DownloadStatus::Failed, error: Some(error), ..m }
    }
}

// ---------------------------------------------------------------------------
// Laws of the state machine.
// ---------------------------------------------------------------------------

/// Cancellation is final: once a task is `Cancelled`, no worker transition
/// -- starting, recording the size or progress, completing, or failing --
/// moves it to any other state.
pub proof fn lemma_cancelled_is_final(
    m: TaskModel,
    size: Option<i64>,
    downloaded: i64,
    error: Seq<char>,
)
    requires
        m.status == DownloadStatus::Cancelled,
    ensures
        spec_start(m) == m,
        spec_set_size(m, size) == m,
        spec_progress(m, downloaded) == m,
        spec_complete_task(m, downloaded) == m,
        spec_fail(m, error) == m,
{
}

/// Dismissing is complete: when a terminal task is removed -- as
/// `cancel_task` removes it -- no task under its identifier remains in the
/// table, so no listing can show it again.
pub proof fn lemma_dismissed_task_leaves_the_table(s: Seq<TaskModel>, i: int)
    requires
        tasks_inv(s),
        0 <= i < s.len(),
    ensures
        !has_task(s.remove(i), s[i].id),
{
    let t = s.remove(i);
    assert forall|j: int| 0 <= j < t.len() implies (#[trigger] t[j].id) != s[i].id by {
        if j < i {
            assert(s[j].id != s[i].id);
        } else {
            assert(s[i].id != s[j + 1].id);
        }
    }
}

/// A task with this identifier is in the table.
pub open spec fn has_task(s: Seq<TaskModel>, id: Seq<char>) -> bool {
    exists|i: int| 0 <= i < s.len() && (#[trigger] s[i].id) == id
}

/// No two tasks share an identifier.
pub open spec fn task_ids_distinct(s: Seq<TaskModel>) -> bool {
    forall|i: int, j: int| 0 <= i < j < s.len() ==> (#[trigger] s[i].id) != (#[trigger] s[j].id)
}

/// The orchestrator's invariant.
pub open spec fn tasks_inv(s: Seq<TaskModel>) -> bool {
    task_ids_distinct(s)
}

/// The orchestrator: the shared table of remote-fetch tasks. The
/// surrounding runtime performs the network transfers and drives each
/// task's transitions through the methods here; all decisions about what a
/// transition may change are made -- and proved -- in this table.
pub struct DownloadManager {
    tasks: Vec<RemoteDownloadTask>,
}

impl View for DownloadManager {
    type V = Seq<TaskModel>;

    closed spec fn view(&self) -> Seq<TaskModel> {
        self.tasks@.map_values(|t: RemoteDownloadTask| t@)
    }
}

proof fn lemma_task_unique_index(s: Seq<TaskModel>, id: Seq<char>, i: int)
    requires
        tasks_inv(s),
        0 <= i < s.len(),
        s[i].id == id,
    ensures
        forall|j: int| 0 <= j < s.len() && (#[trigger] s[j].id) == id ==> j == i,
{
    assert forall|j: int| 0 <= j < s.len() && (#[trigger] s[j].id) == id implies j == i by {
        if j < i {
            assert(s[j].id != s[i].id);
        } else if j > i {
            assert(s[i].id != s[j].id);
        }
    }
}

proof fn lemma_tasks_inv_remove(s: Seq<TaskModel>, i: int)
    requires
        tasks_inv(s),
        0 <= i < s.len(),
    ensures
        tasks_inv(s.remove(i)),
{
    let t = s.remove(i);
    assert forall|a: int, b: int| 0 <= a < b < t.len() implies (#[trigger] t[a].id)
        != (#[trigger] t[b].id) by {
        let a0 = if a < i {
            a
        } else {
            a + 1
        };
        let b0 = if b < i {
            b
        } else {
            b + 1
        };
        assert(s[a0].id != s[b0].id);
    }
}

impl DownloadManager {
    /// An empty orchestrator.
    pub fn new() -> (s: Self)
        ensures
            s@ == Seq::<TaskModel>::empty(),
            tasks_inv(s@),
    {
        let s = DownloadManager { tasks: Vec::new() };
        proof {
            assert(s@ =~= Seq::<TaskModel>::empty());
        }
        s
    }

    fn find_task(&self, id: &String) -> (r: Option<usize>)
        ensures
            match r {
                Some(i) => i < self@.len() && self@[i as int].id == id@,
                None => forall|i: int| 0 <= i < self@.len() ==> (#[trigger] self@[i].id) != id@,
            },
    {
        let mut i: usize = 0;
        while i < self.tasks.len()
            invariant
                i <= self@.len(),
                self@.len() == self.tasks@.len(),
                forall|j: int| 0 <= j < i ==> (#[trigger] self@[j].id) != id@,
            decreases self@.len() - i,
        {
            if self.tasks[i].id == *id {
                return Some(i);
            }
            i += 1;
        }
        None
    }

    /// Append one freshly created `Pending` task. Rejected only when the
    /// identifier is already taken.
    pub fn enqueue_task(
        &mut self,
        id: String,
        url: String,
        dir_path: String,
        name: String,
        now: i64,
    ) -> (r: Result<(), TransferError>)
        requires
            tasks_inv(old(self)@),
        ensures
            tasks_inv(final(self)@),
            r.is_ok() <==> !has_task(old(self)@, id@),
            match r {
                Ok(()) => final(self)@ == old(self)@.push(
                    TaskModel {
                        id: id@,
                        url: url@,
                        path: dir_path@,
                        name: name@,
                        size: None,
                        downloaded: 0,
                        status: DownloadStatus::Pending,
                        created_at: now,
                        error: None,
                    },
                ),
                Err(e) => final(self)@ == old(self)@ && e == TransferError::InvalidArgument,
            },
    {
        if self.find_task(&id).is_some() {
            return Err(TransferError::InvalidArgument);
        }
        let ghost id_view = id@;
        let task = RemoteDownloadTask {
            id,
            url,
            path: dir_path,
            name,
            size: None,
            downloaded: 0,
            status: DownloadStatus::Pending,
            created_at: now,
            error: None,
        };
        let ghost model = task@;
        self.tasks.push(task);
        proof {
            assert(self@ =~= old(self)@.push(model));
            let sv = self@;
            assert forall|a: int, b: int| 0 <= a < b < sv.len() implies (#[trigger] sv[a].id)
                != (#[trigger] sv[b].id) by {
                if b == sv.len() - 1 {
                    assert(sv[a].id != id_view);
                }
            }
        }
        Ok(())
    }

    /// The worker's first step: `Pending` becomes `Downloading`. The status
    /// after the step comes back so the worker can tell whether the task
    /// was cancelled before it ever started; `None` means the task is gone.
    pub fn mark_downloading(&mut self, id: &String) -> (st: Option<DownloadStatus>)
        requires
            tasks_inv(old(self)@),
        ensures
            tasks_inv(final(self)@),
            match st {
                Some(s) => exists|i: int|
                    {
                        &&& 0 <= i < old(self)@.len()
                        &&& (#[trigger] old(self)@[i].id) == id@
                        &&& final(self)@ == old(self)@.update(i, spec_start(old(self)@[i]))
                        &&& s == spec_start(old(self)@[i]).status
                    },
                None => final(self)@ == old(self)@ && !has_task(old(self)@, id@),
            },
    {
        let idx = match self.find_task(id) {
            None => {
                return None;
            },
            Some(i) => i,
        };
        let ghost pre = self@;
        let mut task = self.tasks.remove(idx);
        proof {
            assert(task@ == pre[idx as int]);
        }
        if matches!(task.status, DownloadStatus::Pending) {
            task.status = DownloadStatus::Downloading;
        }
        let st = task.status;
        self.tasks.insert(idx, task);
        proof {
            assert(self@ =~= pre.update(idx as int, spec_start(pre[idx as int])));
            lemma_update_same_id(pre, idx as int, spec_start(pre[idx as int]));
        }
        Some(st)
    }

    /// Record the advertised total size once the response headers arrive.
    pub fn set_task_size(&mut self, id: &String, size: Option<i64>) -> (found: bool)
        requires
            tasks_inv(old(self)@),
        ensures
            tasks_inv(final(self)@),
            found <==> has_task(old(self)@, id@),
            found ==> exists|i: int|
                {
                    &&& 0 <= i < old(self)@.len()
                    &&& (#[trigger] old(self)@[i].id) == id@
                    &&& final(self)@ == old(self)@.update(i, spec_set_size(old(self)@[i], size))
                },
            !found ==> final(self)@ == old(self)@,
    {
        let idx = match self.find_task(id) {
            None => {
                return false;
            },
            Some(i) => i,
        };
        let ghost pre = self@;
        let mut task = self.tasks.remove(idx);
        proof {
            assert(task@ == pre[idx as int]);
        }
        let terminal = matches!(
            task.status,
            DownloadStatus::Completed | DownloadStatus::Failed | DownloadStatus::Cancelled
        );
        if !terminal {
            task.size = size;
        }
        self.tasks.insert(idx, task);
        proof {
            assert(self@ =~= pre.update(idx as int, spec_set_size(pre[idx as int], size)));
            lemma_update_same_id(pre, idx as int, spec_set_size(pre[idx as int], size));
        }
        true
    }

    /// Publish the running byte count of a task still downloading. The
    /// returned status lets the worker stop at the next chunk boundary when
    /// the task was cancelled; `None` means the task is gone.
    pub fn record_progress(&mut self, id: &String, downloaded: i64) -> (st: Option<
        DownloadStatus,
    >)
        requires
            tasks_inv(old(self)@),
        ensures
            tasks_inv(final(self)@),
            match st {
                Some(s) => exists|i: int|
                    {
                        &&& 0 <= i < old(self)@.len()
                        &&& (#[trigger] old(self)@[i].id) == id@
                        &&& final(self)@ == old(self)@.update(
                            i,
                            spec_progress(old(self)@[i], downloaded),
                        )
                        &&& s == old(self)@[i].status
                    },
                None => final(self)@ == old(self)@ && !has_task(old(self)@, id@),
            },
    {
        let idx = match self.find_task(id) {
            None => {
                return None;
            },
            Some(i) => i,
        };
        let ghost pre = self@;
        let mut task = self.tasks.remove(idx);
        proof {
            assert(task@ == pre[idx as int]);
        }
        let st = task.status;
        if matches!(task.status, DownloadStatus::Downloading) {
            task.downloaded = downloaded;
        }
        self.tasks.insert(idx, task);
        proof {
            assert(self@ =~= pre.update(idx as int, spec_progress(pre[idx as int], downloaded)));
            lemma_update_same_id(pre, idx as int, spec_progress(pre[idx as int], downloaded));
        }
        Some(st)
    }

    /// The stream is exhausted: complete the task with its exact final byte
    /// count -- unless it was cancelled mid-stream, in which case it stays
    /// `Cancelled`.
    pub fn mark_completed(&mut self, id: &String, downloaded: i64) -> (st: Option<
        DownloadStatus,
    >)
        requires
            tasks_inv(old(self)@),
        ensures
            tasks_inv(final(self)@),
            match st {
                Some(s) => exists|i: int|
                    {
                        &&& 0 <= i < old(self)@.len()
                        &&& (#[trigger] old(self)@[i].id) == id@
                        &&& final(self)@ == old(self)@.update(
                            i,
                            spec_complete_task(old(self)@[i], downloaded),
                        )
                        &&& s == spec_complete_task(old(self)@[i], downloaded).status
                    },
                None => final(self)@ == old(self)@ && !has_task(old(self)@, id@),
            },
    {
        let idx = match self.find_task(id) {
            None => {
                return None;
            },
            Some(i) => i,
        };
        let ghost pre = self@;
        let mut task = self.tasks.remove(idx);
        proof {
            assert(task@ == pre[idx as int]);
        }
        if matches!(task.status, DownloadStatus::Downloading) {
            task.status = DownloadStatus::Completed;
            task.downloaded = downloaded;
        }
        let st = task.status;
        self.tasks.insert(idx, task);
        proof {
            assert(self@ =~= pre.update(
                idx as int,
                spec_complete_task(pre[idx as int], downloaded),
            ));
            lemma_update_same_id(pre, idx as int, spec_complete_task(pre[idx as int], downloaded));
        }
        Some(st)
    }

    /// A network or filesystem error: an active task becomes `Failed` and
    /// keeps the message; a terminal task -- in particular a cancelled one
    /// -- is left alone.
    pub fn mark_failed(&mut self, id: &String, error: String) -> (st: Option<DownloadStatus>)
        requires
            tasks_inv(old(self)@),
        ensures
            tasks_inv(final(self)@),
            match st {
                Some(s) => exists|i: int|
                    {
                        &&& 0 <= i < old(self)@.len()
                        &&& (#[trigger] old(self)@[i].id) == id@
                        &&& final(self)@ == old(self)@.update(i, spec_fail(old(self)@[i], error@))
                        &&& s == spec_fail(old(self)@[i], error@).status
                    },
                None => final(self)@ == old(self)@ && !has_task(old(self)@, id@),
            },
    {
        let idx = match self.find_task(id) {
            None => {
                return None;
            },
            Some(i) => i,
        };
        let ghost pre = self@;
        let mut task = self.tasks.remove(idx);
        proof {
            assert(task@ == pre[idx as int]);
        }
        let terminal = matches!(
            task.status,
            DownloadStatus::Completed | DownloadStatus::Failed | DownloadStatus::Cancelled
        );
        if !terminal {
            task.status = DownloadStatus::Failed;
            task.error = Some(error);
        }
        let st = task.status;
        self.tasks.insert(idx, task);
        proof {
            assert(self@ =~= pre.update(idx as int, spec_fail(pre[idx as int], error@)));
            lemma_update_same_id(pre, idx as int, spec_fail(pre[idx as int], error@));
        }
        Some(st)
    }

    /// Cancel by identifier. An active task is moved to `Cancelled` and
    /// stays in the table for the client to see; a task already terminal is
    /// dismissed -- removed from the table. Cancelling an unknown
    /// identifier does nothing.
    pub fn cancel_task(&mut self, id: &String) -> (cancelled: bool)
        requires
            tasks_inv(old(self)@),
        ensures
            tasks_inv(final(self)@),
            cancelled <==> exists|i: int|
                0 <= i < old(self)@.len() && (#[trigger] old(self)@[i].id) == id@ && is_active(
                    old(self)@[i].status,
                ),
            cancelled ==> exists|i: int|
                {
                    &&& 0 <= i < old(self)@.len()
                    &&& (#[trigger] old(self)@[i].id) == id@
                    &&& final(self)@ == old(self)@.update(
                        i,
                        TaskModel { status: DownloadStatus::Cancelled, ..old(self)@[i] },
                    )
                },
            !cancelled && has_task(old(self)@, id@) ==> exists|i: int|
                {
                    &&& 0 <= i < old(self)@.len()
                    &&& (#[trigger] old(self)@[i].id) == id@
                    &&& is_terminal(old(self)@[i].status)
                    &&& final(self)@ == old(self)@.remove(i)
                },
            !has_task(old(self)@, id@) ==> final(self)@ == old(self)@ && !cancelled,
    {
        let idx = match self.find_task(id) {
            None => {
                return false;
            },
            Some(i) => i,
        };
        let ghost pre = self@;
        proof {
            lemma_task_unique_index(pre, id@, idx as int);
        }
        let mut task = self.tasks.remove(idx);
        proof {
            assert(task@ == pre[idx as int]);
        }
        let active = matches!(
            task.status,
            DownloadStatus::Pending | DownloadStatus::Downloading
        );
        if active {
            task.status = DownloadStatus::Cancelled;
            let ghost model = TaskModel { status: DownloadStatus::Cancelled, ..pre[idx as int] };
            self.tasks.insert(idx, task);
            proof {
                assert(self@ =~= pre.update(idx as int, model));
                lemma_update_same_id(pre, idx as int, model);
            }
            true
        } else {
            proof {
                assert(self@ =~= pre.remove(idx as int));
                lemma_tasks_inv_remove(pre, idx as int);
            }
            false
        }
    }
}

proof fn lemma_update_same_id(s: Seq<TaskModel>, i: int, m: TaskModel)
    requires
        tasks_inv(s),
        0 <= i < s.len(),
        m.id == s[i].id,
    ensures
        tasks_inv(s.update(i, m)),
{
    let t = s.update(i, m);
    assert forall|a: int, b: int| 0 <= a < b < t.len() implies (#[trigger] t[a].id)
        != (#[trigger] t[b].id) by {
        assert(s[a].id != s[b].id);
    }
}

// ---------------------------------------------------------------------------
// Destination file names.
// ---------------------------------------------------------------------------

/// Everything after the last `/` of a path; the whole path when it has no
/// separator, empty when it ends with one.
pub open spec fn tail_segment(p: Seq<char>) -> Seq<char>
    decreases p.len(),
{
    if p.len() == 0 {
        Seq::empty()
    } else if p.last() == '/' {
        Seq::empty()
    } else {
        tail_segment(p.drop_last()).push(p.last())
    }
}

/// A segment usable as a file name: non-empty and carrying an extension
/// dot.
pub open spec fn good_segment(s: Seq<char>) -> bool {
    s.len() > 0 && exists|i: int| 0 <= i < s.len() && s[i] == '.'
}

/// The shape of a generated destination name: `download_`, eight
/// characters of a fresh random identifier, `.bin`.
pub open spec fn is_generated_name(n: Seq<char>) -> bool {
    &&& n.len() == "download_"@.len() + 8 + ".bin"@.len()
    &&& n.subrange(0, "download_"@.len() as int) == "download_"@
    &&& n.subrange(n.len() - ".bin"@.len(), n.len() as int) == ".bin"@
}

/// How a destination file name relates to its source URL: the final path
/// segment when that segment is non-empty and has an extension; otherwise
/// a generated `download_<id>.bin` name.
pub open spec fn filename_matches(name: Seq<char>, url: Seq<char>) -> bool {
    match url_path_of(url) {
        Some(p) => if good_segment(tail_segment(p)) {
            name == tail_segment(p)
        } else {
            is_generated_name(name)
        },
        None => is_generated_name(name),
    }
}

proof fn lemma_tail_segment_skip(p: Seq<char>, k: int)
    requires
        0 <= k <= p.len(),
        k > 0 ==> p[k - 1] == '/',
        forall|m: int| k <= m < p.len() ==> p[m] != '/',
    ensures
        tail_segment(p) == p.skip(k),
    decreases p.len(),
{
    if k == p.len() {
        if k > 0 {
            assert(p.last() == '/');
        }
        assert(tail_segment(p) =~= p.skip(k));
    } else {
        assert(p.last() != '/');
        if k > 0 {
            assert(p.drop_last()[k - 1] == p[k - 1]);
        }
        lemma_tail_segment_skip(p.drop_last(), k);
        assert(tail_segment(p) == p.drop_last().skip(k).push(p.last()));
        assert(p.drop_last().skip(k).push(p.last()) =~= p.skip(k));
    }
}

fn contains_dot_char(s: &str) -> (r: bool)
    ensures
        r == (exists|i: int| 0 <= i < s@.len() && s@[i] == '.'),
{
    let n = s.unicode_len();
    let mut i: usize = 0;
    while i < n
        invariant
            i <= n,
            n == s@.len(),
            forall|j: int| 0 <= j < i ==> s@[j] != '.',
        decreases n - i,
    {
        if s.get_char(i) == '.' {
            return true;
        }
        i += 1;
    }
    false
}

fn last_path_segment(p: &str) -> (r: &str)
    ensures
        r@ == tail_segment(p@),
{
    let n = p.unicode_len();
    let mut k: usize = n;
    while k > 0
        invariant_except_break
            k <= n,
            n == p@.len(),
            forall|m: int| k <= m < p@.len() ==> p@[m] != '/',
        ensures
            k <= n,
            n == p@.len(),
            forall|m: int| k <= m < p@.len() ==> p@[m] != '/',
            k > 0 ==> p@[k - 1] == '/',
        decreases k,
    {
        if p.get_char(k - 1) == '/' {
            break ;
        }
        k -= 1;
    }
    let r = p.substring_char(k, n);
    proof {
        lemma_tail_segment_skip(p@, k as int);
        assert(r@ =~= p@.skip(k as int));
    }
    r
}

fn fallback_name() -> (name: String)
    ensures
        is_generated_name(name@),
{
    let token = new_token();
    let mut name = "download_".to_owned();
    let middle = token.as_str().substring_char(0, 8);
    name.append(middle);
    name.append(".bin");
    proof {
        let a = "download_"@;
        let b = ".bin"@;
        assert(name@ == a + middle@ + b);
        assert(name@.subrange(0, a.len() as int) =~= a);
        assert(name@.subrange(name@.len() - b.len(), name@.len() as int) =~= b);
    }
    name
}

/// Derive a destination file name from a URL: its final path segment, or a
/// generated one when the URL does not parse or the segment is empty or
/// extensionless.
pub fn extract_filename(url: &str) -> (name: String)
    ensures
        filename_matches(name@, url@),
{
    match parse_url_path(url) {
        Some(path) => {
            let seg = last_path_segment(path.as_str());
            if seg.unicode_len() > 0 && contains_dot_char(seg) {
                seg.to_owned()
            } else {
                fallback_name()
            }
        },
        None => fallback_name(),
    }
}

// ---------------------------------------------------------------------------
// Bulk enqueue, clearing, and the sorted listing.
// ---------------------------------------------------------------------------

pub struct CreateDownloadRequest {
    pub urls: Vec<String>,
    pub directory_id: String,
    pub target_path: Option<String>,
}

pub struct DownloadListQuery {
    pub status: Option<String>,
    pub directory_id: Option<String>,
}

/// A task as `create_download_tasks` enqueues it, its drawn identifier
/// aside.
pub open spec fn task_created_for(t: TaskModel, url: Seq<char>, dir: Seq<char>, now: i64) -> bool {
    &&& t.url == url
    &&& t.path == dir
    &&& filename_matches(t.name, url)
    &&& t.size is None
    &&& t.downloaded == 0
    &&& t.status == DownloadStatus::Pending
    &&& t.created_at == now
    &&& t.error is None
}

/// A task as `create_download_tasks` enqueues it.
pub open spec fn task_created(
    t: TaskModel,
    id: Seq<char>,
    url: Seq<char>,
    dir: Seq<char>,
    now: i64,
) -> bool {
    t.id == id && task_created_for(t, url, dir, now)
}

/// The status filter of a listing: an unrecognised label matches every
/// task, as does an absent one.
pub open spec fn status_filter_matches(q: Option<String>, st: DownloadStatus) -> bool {
    match q {
        None => true,
        Some(s) => if s@ == "pending"@ {
            st == DownloadStatus::Pending
        } else if s@ == "downloading"@ {
            st == DownloadStatus::Downloading
        } else if s@ == "completed"@ {
            st == DownloadStatus::Completed
        } else if s@ == "failed"@ {
            st == DownloadStatus::Failed
        } else if s@ == "cancelled"@ {
            st == DownloadStatus::Cancelled
        } else {
            true
        },
    }
}

pub open spec fn dir_filter_matches(q: Option<String>, path: Seq<char>) -> bool {
    match q {
        None => true,
        Some(d) => d@ == path,
    }
}

pub open spec fn query_matches(query: DownloadListQuery, t: TaskModel) -> bool {
    status_filter_matches(query.status, t.status) && dir_filter_matches(
        query.directory_id,
        t.path,
    )
}

/// The views of a row of snapshots.
pub open spec fn dtos_view(s: Seq<RemoteDownloadTaskDto>) -> Seq<DtoModel> {
    s.map_values(|d: RemoteDownloadTaskDto| d@)
}

fn status_string(s: DownloadStatus) -> (r: String)
    ensures
        r@ == status_label(s),
{
    match s {
        DownloadStatus::Pending => "pending".to_owned(),
        DownloadStatus::Downloading => "downloading".to_owned(),
        DownloadStatus::Completed => "completed".to_owned(),
        DownloadStatus::Failed => "failed".to_owned(),
        DownloadStatus::Cancelled => "cancelled".to_owned(),
    }
}

fn dto_from_task(t: &RemoteDownloadTask) -> (r: RemoteDownloadTaskDto)
    ensures
        r@ == dto_of(t@),
{
    RemoteDownloadTaskDto {
        id: t.id.clone(),
        url: t.url.clone(),
        path: t.path.clone(),
        name: t.name.clone(),
        size: t.size,
        downloaded: t.downloaded,
        status: status_string(t.status),
        created_at: t.created_at,
        error: match &t.error {
            Some(e) => Some(e.clone()),
            None => None,
        },
    }
}

fn matches_query(query: &DownloadListQuery, task: &RemoteDownloadTask) -> (r: bool)
    ensures
        r == query_matches(*query, task@),
{
    let status_ok = match &query.status {
        None => true,
        Some(s) => {
            if *s == "pending".to_owned() {
                matches!(task.status, DownloadStatus::Pending)
            } else if *s == "downloading".to_owned() {
                matches!(task.status, DownloadStatus::Downloading)
            } else if *s == "completed".to_owned() {
                matches!(task.status, DownloadStatus::Completed)
            } else if *s == "failed".to_owned() {
                matches!(task.status, DownloadStatus::Failed)
            } else if *s == "cancelled".to_owned() {
                matches!(task.status, DownloadStatus::Cancelled)
            } else {
                true
            }
        },
    };
    let dir_ok = match &query.directory_id {
        None => true,
        Some(d) => *d == task.path,
    };
    status_ok && dir_ok
}

fn sort_dtos_desc(input: Vec<RemoteDownloadTaskDto>) -> (r: Vec<RemoteDownloadTaskDto>)
    ensures
        dtos_view(r@).to_multiset() == dtos_view(input@).to_multiset(),
        forall|a: int, b: int|
            0 <= a < b < r@.len() ==> (#[trigger] r@[a]).created_at
                >= (#[trigger] r@[b]).created_at,
{
    let mut rest = input;
    let mut out: Vec<RemoteDownloadTaskDto> = Vec::new();
    proof {
        assert(dtos_view(out@) =~= Seq::<DtoModel>::empty());
        assert(dtos_view(out@).to_multiset().add(dtos_view(rest@).to_multiset()) =~= dtos_view(
            input@,
        ).to_multiset());
    }
    while rest.len() > 0
        invariant
            dtos_view(out@).to_multiset().add(dtos_view(rest@).to_multiset()) == dtos_view(
                input@,
            ).to_multiset(),
            forall|a: int, b: int|
                0 <= a < b < out@.len() ==> (#[trigger] out@[a]).created_at
                    >= (#[trigger] out@[b]).created_at,
        decreases rest@.len(),
    {
        let ghost rest_pre = rest@;
        let x = rest.pop().unwrap();
        proof {
            assert(rest_pre =~= rest@.push(x));
            assert(dtos_view(rest_pre) =~= dtos_view(rest@).push(x@));
            assert(dtos_view(rest_pre).to_multiset() =~= dtos_view(rest@).to_multiset().insert(
                x@,
            ));
        }
        let mut p: usize = 0;
        while p < out.len() && out[p].created_at >= x.created_at
            invariant
                p <= out@.len(),
                forall|j: int| 0 <= j < p ==> (#[trigger] out@[j]).created_at >= x.created_at,
            decreases out@.len() - p,
        {
            p += 1;
        }
        let ghost out_pre = out@;
        out.insert(p, x);
        proof {
            assert(dtos_view(out@).remove(p as int) =~= dtos_view(out_pre));
            assert(dtos_view(out@)[p as int] == x@);
            assert(dtos_view(out@).contains(x@));
            assert(dtos_view(out@).to_multiset().count(x@) > 0);
            assert(dtos_view(out@).remove(p as int).to_multiset() =~= dtos_view(
                out@,
            ).to_multiset().remove(x@));
            assert(dtos_view(out@).to_multiset() =~= dtos_view(out_pre).to_multiset().insert(
                x@,
            ));
            assert(dtos_view(out@).to_multiset().add(dtos_view(rest@).to_multiset()) =~= dtos_view(
                out_pre,
            ).to_multiset().add(dtos_view(rest_pre).to_multiset()));
        }
    }
    proof {
        assert forall|a: DtoModel| dtos_view(rest@).to_multiset().count(a) == 0 by {
            assert(!dtos_view(rest@).contains(a));
        }
        assert(dtos_view(rest@).to_multiset() =~= Multiset::<DtoModel>::empty());
        assert(dtos_view(out@).to_multiset().add(Multiset::<DtoModel>::empty()) =~= dtos_view(
            out@,
        ).to_multiset());
    }
    out
}

impl DownloadManager {
    /// Enqueue one task per URL, newest last, each `Pending` with zero
    /// bytes downloaded and a destination name derived from its URL.
    ///
    /// The whole batch succeeds exactly when every URL parses; the first
    /// URL that does not stops the batch with `InvalidArgument`, and the
    /// tasks created for the URLs before it -- exactly one each -- stay,
    /// with nothing retried. The returned identifiers are the new tasks',
    /// in URL order. `Internal` reports the one failure the random
    /// identifier source cannot rule out: a drawn identifier colliding
    /// with an existing task.
    pub fn create_download_tasks(
        &mut self,
        request: CreateDownloadRequest,
        dir_path: String,
        now: i64,
    ) -> (r: Result<Vec<String>, TransferError>)
        requires
            tasks_inv(old(self)@),
        ensures
            tasks_inv(final(self)@),
            old(self)@.is_prefix_of(final(self)@),
            match r {
                Ok(ids) => {
                    &&& ids@.len() == request.urls@.len()
                    &&& final(self)@.len() == old(self)@.len() + ids@.len()
                    &&& forall|k: int|
                        0 <= k < request.urls@.len() ==> url_path_of(
                            #[trigger] request.urls@[k]@,
                        ) is Some
                    &&& forall|j: int|
                        0 <= j < ids@.len() ==> task_created(
                            #[trigger] final(self)@[old(self)@.len() + j],
                            ids@[j]@,
                            request.urls@[j]@,
                            dir_path@,
                            now,
                        )
                },
                Err(e) => {
                    &&& (e == TransferError::InvalidArgument || e == TransferError::Internal)
                    &&& (e == TransferError::InvalidArgument ==> exists|k: int|
                        {
                            &&& 0 <= k < request.urls@.len()
                            &&& url_path_of(#[trigger] request.urls@[k]@) is None
                            &&& forall|j: int|
                                0 <= j < k ==> url_path_of(
                                    #[trigger] request.urls@[j]@,
                                ) is Some
                            &&& final(self)@.len() == old(self)@.len() + k
                            &&& forall|j: int|
                                0 <= j < k ==> task_created_for(
                                    #[trigger] final(self)@[old(self)@.len() + j],
                                    request.urls@[j]@,
                                    dir_path@,
                                    now,
                                )
                        })
                    &&& (e == TransferError::Internal ==> exists|m: int|
                        {
                            &&& 0 <= m < request.urls@.len()
                            &&& url_path_of(#[trigger] request.urls@[m]@) is Some
                            &&& forall|j: int|
                                0 <= j < m ==> url_path_of(
                                    #[trigger] request.urls@[j]@,
                                ) is Some
                            &&& final(self)@.len() == old(self)@.len() + m
                            &&& forall|j: int|
                                0 <= j < m ==> task_created_for(
                                    #[trigger] final(self)@[old(self)@.len() + j],
                                    request.urls@[j]@,
                                    dir_path@,
                                    now,
                                )
                        })
                },
            },
    {
        let ghost base = old(self)@;
        let mut ids: Vec<String> = Vec::new();
        let mut i: usize = 0;
        while i < request.urls.len()
            invariant
                base == old(self)@,
                tasks_inv(self@),
                i <= request.urls@.len(),
                ids@.len() == i,
                self@.len() == base.len() + i,
                base.is_prefix_of(self@),
                forall|j: int|
                    0 <= j < i ==> url_path_of(#[trigger] request.urls@[j]@) is Some,
                forall|j: int|
                    0 <= j < i ==> task_created(
                        #[trigger] self@[base.len() + j],
                        ids@[j]@,
                        request.urls@[j]@,
                        dir_path@,
                        now,
                    ),
            decreases request.urls@.len() - i,
        {
            let url = &request.urls[i];
            if parse_url_path(url.as_str()).is_none() {
                proof {
                    assert(url_path_of(request.urls@[i as int]@) is None);
                    assert(self@.len() == old(self)@.len() + i as int);
                    assert forall|j: int| 0 <= j < i as int implies task_created_for(
                        #[trigger] self@[old(self)@.len() + j],
                        request.urls@[j]@,
                        dir_path@,
                        now,
                    ) by {
                        assert(task_created(
                            self@[base.len() + j],
                            ids@[j]@,
                            request.urls@[j]@,
                            dir_path@,
                            now,
                        ));
                    }
                }
                return Err(TransferError::InvalidArgument);
            }
            let name = extract_filename(url.as_str());
            let id = new_token();
            let id_for_list = id.clone();
            let ghost pre = self@;
            match self.enqueue_task(id, url.clone(), dir_path.clone(), name, now) {
                Ok(()) => {},
                Err(_) => {
                    proof {
                        assert(url_path_of(request.urls@[i as int]@) is Some);
                        assert(self@.len() == old(self)@.len() + i as int);
                        assert forall|j: int| 0 <= j < i as int implies task_created_for(
                            #[trigger] self@[old(self)@.len() + j],
                            request.urls@[j]@,
                            dir_path@,
                            now,
                        ) by {
                            assert(task_created(
                                self@[base.len() + j],
                                ids@[j]@,
                                request.urls@[j]@,
                                dir_path@,
                                now,
                            ));
                        }
                    }
                    return Err(TransferError::Internal);
                },
            }
            ids.push(id_for_list);
            i += 1;
            proof {
                assert(base.is_prefix_of(self@)) by {
                    assert(self@.take(base.len() as int) =~= pre.take(base.len() as int));
                }
            }
        }
        Ok(ids)
    }

    /// Remove every task whose worker is done -- `Completed`, `Failed` or
    /// `Cancelled` -- and report how many went. `Pending` and `Downloading`
    /// tasks always stay.
    pub fn clear_completed_tasks(&mut self) -> (cleared: usize)
        requires
            tasks_inv(old(self)@),
        ensures
            tasks_inv(final(self)@),
            final(self)@ == old(self)@.filter(|t: TaskModel| is_active(t.status)),
            cleared == old(self)@.len() - final(self)@.len(),
    {
        let ghost orig = self@;
        let ghost keep = |t: TaskModel| is_active(t.status);
        let before = self.tasks.len();
        let mut i: usize = 0;
        let ghost mut k: int = 0;
        proof {
            assert(orig.take(0) =~= Seq::<TaskModel>::empty());
            reveal_with_fuel(Seq::<_>::filter, 2);
            assert(orig.take(0).filter(keep) =~= Seq::<TaskModel>::empty());
            assert(self@ =~= orig.take(0).filter(keep) + orig.skip(0));
        }
        while i < self.tasks.len()
            invariant
                0 <= k <= orig.len(),
                keep == (|t: TaskModel| is_active(t.status)),
                i == orig.take(k).filter(keep).len(),
                self@ == orig.take(k).filter(keep) + orig.skip(k),
                self@.len() == self.tasks@.len(),
            decreases orig.len() - k,
        {
            proof {
                assert(self@[i as int] == orig.skip(k)[0]);
                assert(orig.skip(k)[0] == orig[k]);
            }
            let active = {
                let t = &self.tasks[i];
                matches!(t.status, DownloadStatus::Pending | DownloadStatus::Downloading)
            };
            let ghost pre = self@;
            if !active {
                self.tasks.remove(i);
                proof {
                    reveal_with_fuel(Seq::<_>::filter, 2);
                    assert(orig.take(k + 1).drop_last() =~= orig.take(k));
                    assert(orig.take(k + 1).last() == orig[k]);
                    assert(orig.take(k + 1).filter(keep) == orig.take(k).filter(keep));
                    assert(self@ =~= pre.remove(i as int));
                    assert(orig.skip(k).drop_first() =~= orig.skip(k + 1));
                    assert(pre.remove(i as int) =~= orig.take(k).filter(keep) + orig.skip(k + 1));
                    assert(self@ =~= orig.take(k + 1).filter(keep) + orig.skip(k + 1));
                    k = k + 1;
                }
            } else {
                i += 1;
                proof {
                    reveal_with_fuel(Seq::<_>::filter, 2);
                    assert(orig.take(k + 1).drop_last() =~= orig.take(k));
                    assert(orig.take(k + 1).last() == orig[k]);
                    assert(orig.take(k + 1).filter(keep) == orig.take(k).filter(keep).push(
                        orig[k],
                    ));
                    assert(orig.skip(k).drop_first() =~= orig.skip(k + 1));
                    assert(pre =~= orig.take(k).filter(keep).push(orig[k]) + orig.skip(k + 1));
                    assert(self@ =~= orig.take(k + 1).filter(keep) + orig.skip(k + 1));
                    k = k + 1;
                }
            }
        }
        proof {
            assert(orig.take(orig.len() as int) =~= orig);
            assert(orig.skip(orig.len() as int) =~= Seq::<TaskModel>::empty());
            assert(self@ =~= orig.filter(keep));
            lemma_tasks_inv_filter(orig, keep);
            orig.lemma_filter_len(keep);
        }
        let after = self.tasks.len();
        before - after
    }

    /// A read-only snapshot of the table: the tasks matching the query --
    /// by status label and destination directory -- sorted newest first.
    pub fn get_tasks(&self, query: &DownloadListQuery) -> (r: Vec<RemoteDownloadTaskDto>)
        requires
            tasks_inv(self@),
        ensures
            dtos_view(r@).to_multiset() == self@.filter(
                |t: TaskModel| query_matches(*query, t),
            ).map_values(|t: TaskModel| dto_of(t)).to_multiset(),
            forall|a: int, b: int|
                0 <= a < b < r@.len() ==> (#[trigger] r@[a]).created_at
                    >= (#[trigger] r@[b]).created_at,
    {
        let ghost pred = |t: TaskModel| query_matches(*query, t);
        let mut picked: Vec<RemoteDownloadTaskDto> = Vec::new();
        let mut i: usize = 0;
        proof {
            assert(self@.take(0) =~= Seq::<TaskModel>::empty());
            reveal_with_fuel(Seq::<_>::filter, 2);
            assert(self@.take(0).filter(pred) =~= Seq::<TaskModel>::empty());
            assert(dtos_view(picked@) =~= self@.take(0).filter(pred).map_values(
                |t: TaskModel| dto_of(t),
            ));
        }
        while i < self.tasks.len()
            invariant
                i <= self@.len(),
                self@.len() == self.tasks@.len(),
                pred == (|t: TaskModel| query_matches(*query, t)),
                dtos_view(picked@) == self@.take(i as int).filter(pred).map_values(
                    |t: TaskModel| dto_of(t),
                ),
            decreases self@.len() - i,
        {
            let ghost pre_picked = picked@;
            let task = &self.tasks[i];
            let keep_it = matches_query(query, task);
            if keep_it {
                picked.push(dto_from_task(task));
            }
            i += 1;
            proof {
                reveal_with_fuel(Seq::<_>::filter, 2);
                let t1 = self@.take(i as int);
                assert(t1.drop_last() =~= self@.take(i as int - 1));
                assert(t1.last() == self@[i as int - 1]);
                if keep_it {
                    assert(t1.filter(pred) == self@.take(i as int - 1).filter(pred).push(
                        self@[i as int - 1],
                    ));
                    assert(dtos_view(picked@) =~= dtos_view(pre_picked).push(
                        dto_of(self@[i as int - 1]),
                    ));
                    assert(dtos_view(picked@) =~= t1.filter(pred).map_values(
                        |t: TaskModel| dto_of(t),
                    ));
                } else {
                    assert(t1.filter(pred) == self@.take(i as int - 1).filter(pred));
                    assert(dtos_view(picked@) =~= t1.filter(pred).map_values(
                        |t: TaskModel| dto_of(t),
                    ));
                }
            }
        }
        proof {
            assert(self@.take(self@.len() as int) =~= self@);
        }
        sort_dtos_desc(picked)
    }
}

proof fn lemma_task_filter_membership(s: Seq<TaskModel>, pred: spec_fn(TaskModel) -> bool)
    ensures
        forall|x: TaskModel| #[trigger] s.filter(pred).contains(x) ==> s.contains(x),
    decreases s.len(),
{
    reveal_with_fuel(Seq::<_>::filter, 2);
    if s.len() > 0 {
        let rest = s.drop_last();
        lemma_task_filter_membership(rest, pred);
        assert forall|x: TaskModel| #[trigger] s.filter(pred).contains(x) implies s.contains(
            x,
        ) by {
            if rest.filter(pred).contains(x) {
                let j = choose|j: int| 0 <= j < rest.len() && rest[j] == x;
                assert(s[j] == x);
            } else {
                assert(x == s.last());
                assert(s[s.len() - 1] == x);
            }
        }
    }
}

proof fn lemma_tasks_inv_filter(s: Seq<TaskModel>, pred: spec_fn(TaskModel) -> bool)
    requires
        tasks_inv(s),
    ensures
        tasks_inv(s.filter(pred)),
    decreases s.len(),
{
    reveal_with_fuel(Seq::<_>::filter, 2);
    if s.len() == 0 {
        assert(s.filter(pred) =~= Seq::<TaskModel>::empty());
    } else {
        let rest = s.drop_last();
        assert forall|a: int, b: int| 0 <= a < b < rest.len() implies (#[trigger] rest[a].id)
            != (#[trigger] rest[b].id) by {
            assert(s[a].id != s[b].id);
        }
        lemma_tasks_inv_filter(rest, pred);
        lemma_task_filter_membership(rest, pred);
        let f = s.filter(pred);
        let fr = rest.filter(pred);
        if pred(s.last()) {
            assert(f == fr.push(s.last()));
            assert forall|a: int, b: int| 0 <= a < b < f.len() implies (#[trigger] f[a].id)
                != (#[trigger] f[b].id) by {
                if b == f.len() - 1 {
                    assert(fr.contains(fr[a]));
                    assert(rest.contains(fr[a]));
                    let j = choose|j: int| 0 <= j < rest.len() && rest[j] == fr[a];
                    assert(s[j].id != s[s.len() - 1].id);
                } else {
                    assert(fr[a].id != fr[b].id);
                }
            }
        } else {
            assert(f == fr);
        }
    }
}

} // verus!
