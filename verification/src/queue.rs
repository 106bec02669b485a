//! The download queue: tasks keyed by id in a `DashMap`, their status and
//! progress, the pause / resume / cancel protocol and its cancellation flags.
//!
//! The queue decides; it does not talk to other threads. What it would
//! broadcast (task events), what it hands to workers (task ids) and what it
//! does to cancellation tokens are recorded, in order, for the caller to carry
//! out (`take_events`, `take_work`, `take_token_actions`).
use vstd::prelude::*;
use crate::clock::{now_micros, Timestamp, Uid, MAX_TIMESTAMP_MICROS};
use crate::task::{DownloadTask, EventView, TaskEvent, TaskProgress, TaskStatus, TaskView};

verus! {

/// Events broadcast from the queue.
pub type QueueEvent = TaskEvent;

/// Errors of the core crate that the queue can give.
#[derive(Debug)]
pub enum NexDLError {
    TaskNotFound(Uid),
    AddonError(String),
    AccountError(String),
    CaptchaRequired(String),
}

/// What the caller is to do to the cancellation token of a task.
#[derive(Debug, PartialEq, Eq, Clone, Copy, Structural)]
pub enum TokenAction {
    /// Make a new, untriggered token for the task (replacing any other).
    Fresh(Uid),
    /// Trigger the task's token.
    Cancel(Uid),
    /// Drop the task's token.
    Forget(Uid),
}

/// Counts of tasks by status.
#[derive(Debug, Clone, Copy, PartialEq, Eq, Structural)]
pub struct QueueStats {
    pub total: usize,
    pub queued: usize,
    pub active: usize,
    pub completed: usize,
    pub failed: usize,
    pub paused: usize,
    pub cancelled: usize,
    pub captcha_required: usize,
}

pub open spec fn task_views(s: Seq<DownloadTask>) -> Seq<TaskView> {
    s.map_values(|t: DownloadTask| t@)
}

pub open spec fn event_views(s: Seq<TaskEvent>) -> Seq<EventView> {
    s.map_values(|e: TaskEvent| e@)
}

/// Index of the last token entry with this id, or -1.
pub open spec fn find_token(s: Seq<(Uid, bool)>, id: Uid) -> int
    decreases s.len(),
{
    if s.len() == 0 {
        -1
    } else if s.last().0 == id {
        s.len() - 1
    } else {
        find_token(s.drop_last(), id)
    }
}

pub open spec fn ids_unique(s: Seq<TaskView>) -> bool {
    forall|i: int, j: int| 0 <= i < j < s.len() ==> (#[trigger] s[i]).id != (#[trigger] s[j]).id
}

pub open spec fn token_ids_unique(s: Seq<(Uid, bool)>) -> bool {
    forall|i: int, j: int| 0 <= i < j < s.len() ==> (#[trigger] s[i]).0 != (#[trigger] s[j]).0
}

/// The task with this id, if the queue holds one.
pub open spec fn task_of(m: Map<Uid, TaskView>, id: Uid) -> Option<TaskView> {
    if m.dom().contains(id) {
        Some(m[id])
    } else {
        None
    }
}

/// The token entries with `id` set to `cancelled`.
pub open spec fn token_set(s: Seq<(Uid, bool)>, id: Uid, cancelled: bool) -> Seq<(Uid, bool)> {
    let i = find_token(s, id);
    if i >= 0 {
        s.update(i, (id, cancelled))
    } else {
        s.push((id, cancelled))
    }
}

/// The token entries without the one for `id`.
pub open spec fn token_remove(s: Seq<(Uid, bool)>, id: Uid) -> Seq<(Uid, bool)> {
    let i = find_token(s, id);
    if i >= 0 {
        s.remove(i)
    } else {
        s
    }
}

/// The token entries with the one for `id` triggered, if there is one.
pub open spec fn token_trigger(s: Seq<(Uid, bool)>, id: Uid) -> Seq<(Uid, bool)> {
    let i = find_token(s, id);
    if i >= 0 {
        s.update(i, (id, true))
    } else {
        s
    }
}

pub open spec fn token_triggered(s: Seq<(Uid, bool)>, id: Uid) -> bool {
    let i = find_token(s, id);
    i >= 0 && s[i].1
}

/// The task after its status is set at instant `now`: it is updated then;
/// it finishes then if the status is terminal; it starts then if it begins
/// downloading or processing and had not started.
pub open spec fn with_status(t: TaskView, status: TaskStatus, now: Timestamp) -> TaskView {
    TaskView {
        status,
        updated_at: now,
        finished_at: if status.spec_is_terminal() {
            Some(now)
        } else {
            t.finished_at
        },
        started_at: if (status is Downloading || status is Processing) && t.started_at is None {
            Some(now)
        } else {
            t.started_at
        },
        ..t
    }
}

/// The whole state of a queue, as plain values.
pub struct QueueView {
    pub tasks: Map<Uid, TaskView>,
    pub tokens: Seq<(Uid, bool)>,
    pub events: Seq<EventView>,
    pub work: Seq<Uid>,
    pub token_actions: Seq<TokenAction>,
    pub work_capacity: usize,
}

/// The queue after setting the status of the task `id` at instant `now`
/// (which the queue holds).
pub open spec fn status_applied(q: QueueView, id: Uid, status: TaskStatus, now: Timestamp) -> QueueView {
    QueueView {
        tasks: q.tasks.insert(id, with_status(q.tasks[id], status, now)),
        tokens: if status.spec_is_terminal() {
            token_remove(q.tokens, id)
        } else {
            q.tokens
        },
        events: q.events.push(EventView::StatusChanged(id, status)),
        token_actions: if status.spec_is_terminal() && find_token(q.tokens, id) >= 0 {
            q.token_actions.push(TokenAction::Forget(id))
        } else {
            q.token_actions
        },
        ..q
    }
}

/// The queue after setting the progress of the task `id` at instant `now`
/// (which the queue holds).
pub open spec fn progress_applied(q: QueueView, id: Uid, progress: TaskProgress, now: Timestamp) -> QueueView {
    QueueView {
        tasks: q.tasks.insert(id, TaskView { progress, updated_at: now, ..q.tasks[id] }),
        events: q.events.push(EventView::ProgressUpdated(id, progress)),
        ..q
    }
}

/// Whether `a` comes no later than `b` in a listing: higher priority first,
/// then earlier creation first.
pub open spec fn listed_no_later(a: TaskView, b: TaskView) -> bool {
    a.priority.spec_rank() > b.priority.spec_rank() || (a.priority.spec_rank()
        == b.priority.spec_rank() && a.created_at <= b.created_at)
}

pub open spec fn listing_sorted(s: Seq<TaskView>) -> bool {
    forall|i: int, j: int| 0 <= i < j < s.len() ==> listed_no_later(#[trigger] s[i], #[trigger] s[j])
}

/// `s` lists the tasks of `m`, each once.
pub open spec fn enumerates(m: Map<Uid, TaskView>, s: Seq<TaskView>) -> bool {
    &&& ids_unique(s)
    &&& forall|i: int| 0 <= i < s.len() ==> m.dom().contains((#[trigger] s[i]).id) && m[s[i].id] == s[i]
    &&& forall|k: Uid| #[trigger] m.dom().contains(k) ==> exists|i: int| 0 <= i < s.len() && s[i].id == k
}

/// The sum of `w` over the tasks of a finite map.
pub open spec fn map_sum(m: Map<Uid, TaskView>, w: spec_fn(TaskView) -> nat) -> nat
    decreases m.dom().len(),
    when m.dom().finite()
{
    if m.dom().len() == 0 {
        0
    } else {
        let k = m.dom().choose();
        w(m[k]) + map_sum(m.remove(k), w)
    }
}

/// Taking any one task out of the sum.
pub proof fn lemma_map_sum_remove(m: Map<Uid, TaskView>, w: spec_fn(TaskView) -> nat, k: Uid)
    requires
        m.dom().finite(),
        m.dom().contains(k),
    ensures
        map_sum(m, w) == w(m[k]) + map_sum(m.remove(k), w),
    decreases m.dom().len(),
{
    let j = m.dom().choose();
    assert(m.dom().len() != 0);
    if j != k {
        lemma_map_sum_remove(m.remove(j), w, k);
        lemma_map_sum_remove(m.remove(k), w, j);
        assert(m.remove(j).remove(k) =~= m.remove(k).remove(j));
    }
}

/// A task's speed counts when it is active (processing, downloading or post-processing).
pub open spec fn speed_weight() -> spec_fn(TaskView) -> nat {
    |t: TaskView| if t.status.spec_is_active() { t.progress.speed_bps as nat } else { 0 }
}

/// A task counts once under the class of its status.
pub open spec fn class_weight(c: StatusClass) -> spec_fn(TaskView) -> nat {
    |t: TaskView| if class_of(t.status) == c { 1nat } else { 0 }
}

/// Bytes per second of the active tasks, summed.
pub open spec fn active_speed(m: Map<Uid, TaskView>) -> nat {
    map_sum(m, speed_weight())
}

/// The class a status is counted under in the statistics.
pub enum StatusClass {
    Queued,
    Active,
    Completed,
    Failed,
    Paused,
    Cancelled,
    CaptchaRequired,
}

pub open spec fn class_of(st: TaskStatus) -> StatusClass {
    match st {
        TaskStatus::Queued => StatusClass::Queued,
        TaskStatus::Processing | TaskStatus::Downloading | TaskStatus::PostProcessing => StatusClass::Active,
        TaskStatus::Completed { .. } => StatusClass::Completed,
        TaskStatus::Failed { .. } => StatusClass::Failed,
        TaskStatus::Paused => StatusClass::Paused,
        TaskStatus::Cancelled => StatusClass::Cancelled,
        TaskStatus::CaptchaRequired { .. } => StatusClass::CaptchaRequired,
    }
}

/// How many tasks have a status of class `c`.
pub open spec fn count_class(m: Map<Uid, TaskView>, c: StatusClass) -> nat {
    map_sum(m, class_weight(c))
}

/// `r` counts the tasks of `m`: all of them, and those of each status class.
pub open spec fn stats_of(r: QueueStats, m: Map<Uid, TaskView>) -> bool {
    &&& r.total == m.dom().len()
    &&& r.queued == count_class(m, StatusClass::Queued)
    &&& r.active == count_class(m, StatusClass::Active)
    &&& r.completed == count_class(m, StatusClass::Completed)
    &&& r.failed == count_class(m, StatusClass::Failed)
    &&& r.paused == count_class(m, StatusClass::Paused)
    &&& r.cancelled == count_class(m, StatusClass::Cancelled)
    &&& r.captcha_required == count_class(m, StatusClass::CaptchaRequired)
}

/// Every task is counted under exactly one class: the class counts add up to the total.
pub proof fn lemma_stats_partition(m: Map<Uid, TaskView>)
    requires
        m.dom().finite(),
    ensures
        count_class(m, StatusClass::Queued) + count_class(m, StatusClass::Active) + count_class(
            m,
            StatusClass::Completed,
        ) + count_class(m, StatusClass::Failed) + count_class(m, StatusClass::Paused)
            + count_class(m, StatusClass::Cancelled) + count_class(m, StatusClass::CaptchaRequired)
            == m.dom().len(),
    decreases m.dom().len(),
{
    if m.dom().len() != 0 {
        let k = m.dom().choose();
        lemma_stats_partition(m.remove(k));
    }
}

/// The map without the tasks of the listed ids.
pub open spec fn remove_all(m: Map<Uid, TaskView>, ks: Seq<Uid>) -> Map<Uid, TaskView>
    decreases ks.len(),
{
    if ks.len() == 0 {
        m
    } else {
        remove_all(m, ks.drop_last()).remove(ks.last())
    }
}

proof fn lemma_remove_all(m: Map<Uid, TaskView>, ks: Seq<Uid>)
    requires
        m.dom().finite(),
    ensures
        remove_all(m, ks).dom().finite(),
        forall|k: Uid| #[trigger] remove_all(m, ks).dom().contains(k) <==> m.dom().contains(k) && !ks.contains(k),
        forall|k: Uid| #[trigger] remove_all(m, ks).dom().contains(k) ==> remove_all(m, ks)[k] == m[k],
    decreases ks.len(),
{
    if ks.len() > 0 {
        lemma_remove_all(m, ks.drop_last());
        assert forall|k: Uid| ks.contains(k) <==> (ks.drop_last().contains(k) || k == ks.last()) by {
            if ks.contains(k) && k != ks.last() {
                let i = ks.index_of(k);
                assert(ks.drop_last()[i] == k);
            }
            if ks.drop_last().contains(k) {
                let i = ks.drop_last().index_of(k);
                assert(ks[i] == k);
            }
        }
    }
}

/// One step of summing over the ids in the order listed: the rest of the
/// sum before id `i` is that task's weight plus the rest after it.
proof fn lemma_sum_step(m: Map<Uid, TaskView>, ks: Seq<Uid>, i: int, w: spec_fn(TaskView) -> nat)
    requires
        m.dom().finite(),
        ks.no_duplicates(),
        ks.to_set() == m.dom(),
        0 <= i < ks.len(),
    ensures
        map_sum(remove_all(m, ks.subrange(0, i)), w) == w(m[ks[i]]) + map_sum(
            remove_all(m, ks.subrange(0, i + 1)),
            w,
        ),
{
    let pre = ks.subrange(0, i);
    lemma_remove_all(m, pre);
    assert(ks.subrange(0, i + 1).drop_last() == pre);
    assert(ks.subrange(0, i + 1).last() == ks[i]);
    assert(ks.to_set().contains(ks[i]));
    assert(!pre.contains(ks[i])) by {
        if pre.contains(ks[i]) {
            let t = pre.index_of(ks[i]);
            assert(ks[t] == ks[i]);
        }
    }
    lemma_map_sum_remove(remove_all(m, pre), w, ks[i]);
}

/// Summing over every listed id leaves nothing.
proof fn lemma_sum_done(m: Map<Uid, TaskView>, ks: Seq<Uid>, w: spec_fn(TaskView) -> nat)
    requires
        m.dom().finite(),
        ks.to_set() == m.dom(),
    ensures
        map_sum(remove_all(m, ks), w) == 0,
{
    lemma_remove_all(m, ks);
    let r = remove_all(m, ks);
    assert(r.dom() =~= Set::<Uid>::empty()) by {
        assert forall|k: Uid| !r.dom().contains(k) by {
            if m.dom().contains(k) {
                assert(ks.to_set().contains(k));
            }
        }
    }
}

/// After a task is put in, looking up its id gives that task, and every
/// other id gives what it gave before.
pub proof fn lemma_insert_then_get(m: Map<Uid, TaskView>, t: TaskView, other: Uid)
    ensures
        task_of(m.insert(t.id, t), t.id) == Some(t),
        other != t.id ==> task_of(m.insert(t.id, t), other) == task_of(m, other),
{
}

/// After a task is taken out, its id is found no more, and every other id
/// gives what it gave before.
pub proof fn lemma_remove_then_get(m: Map<Uid, TaskView>, id: Uid, other: Uid)
    ensures
        task_of(m.remove(id), id) is None,
        other != id ==> task_of(m.remove(id), other) == task_of(m, other),
{
}

/// The queue after resuming the paused task `id` at instant `now`: a fresh
/// untriggered token, the task queued again, its id handed to the workers.
pub open spec fn resumed(q: QueueView, id: Uid, now: Timestamp) -> QueueView {
    let q1 = QueueView {
        tokens: token_set(q.tokens, id, false),
        token_actions: q.token_actions.push(TokenAction::Fresh(id)),
        ..q
    };
    let q2 = status_applied(q1, id, TaskStatus::Queued, now);
    QueueView { work: q2.work.push(id), ..q2 }
}

/// The queue after the token of `id`, if there is one, is triggered.
pub open spec fn token_cancelled(q: QueueView, id: Uid) -> QueueView {
    QueueView {
        tokens: token_trigger(q.tokens, id),
        token_actions: if find_token(q.tokens, id) >= 0 {
            q.token_actions.push(TokenAction::Cancel(id))
        } else {
            q.token_actions
        },
        ..q
    }
}

/// The queue's tasks, keyed by id.
pub type TaskMap = dashmap::DashMap<Uid, DownloadTask>;

/// What a map of tasks holds: each id with its task.
pub uninterp spec fn task_map(m: TaskMap) -> Map<Uid, TaskView>;

pub open spec fn no_tasks() -> Map<Uid, TaskView> {
    Map::empty()
}

pub open spec fn opt_task_view(o: Option<DownloadTask>) -> Option<TaskView> {
    match o {
        Some(t) => Some(t@),
        None => None,
    }
}

/// `DashMap::new`: an empty map.
#[verifier::external_body]
fn tasks_new() -> (r: TaskMap)
    ensures
        task_map(r) == no_tasks(),
{
    dashmap::DashMap::new()
}

/// `DashMap::insert`: the id now maps to the task, in place of any it had;
/// the other ids keep theirs.
#[verifier::external_body]
fn tasks_insert(m: &mut TaskMap, k: Uid, v: DownloadTask)
    ensures
        task_map(*final(m)) == task_map(*old(m)).insert(k, v@),
{
    m.insert(k, v);
}

/// `DashMap::remove`: takes out the id's task, if it has one.
#[verifier::external_body]
fn tasks_remove(m: &mut TaskMap, k: Uid) -> (r: Option<DownloadTask>)
    ensures
        task_map(*final(m)) == task_map(*old(m)).remove(k),
        opt_task_view(r) == (if task_map(*old(m)).dom().contains(k) {
            Some(task_map(*old(m))[k])
        } else {
            None
        }),
{
    m.remove(&k).map(|(_, t)| t)
}

/// `DashMap::get`, the task cloned out of the guard it comes in.
#[verifier::external_body]
fn tasks_get(m: &TaskMap, k: Uid) -> (r: Option<DownloadTask>)
    ensures
        opt_task_view(r) == (if task_map(*m).dom().contains(k) {
            Some(task_map(*m)[k])
        } else {
            None
        }),
{
    m.get(&k).map(|t| t.clone())
}

/// `DashMap::iter`, keeping the ids: each id of the map once, in an order
/// that the map does not fix.
#[verifier::external_body]
fn tasks_ids(m: &TaskMap) -> (r: Vec<Uid>)
    ensures
        r@.no_duplicates(),
        r@.to_set() == task_map(*m).dom(),
{
    m.iter().map(|e| *e.key()).collect()
}

/// The download queue.
#[derive(Debug)]
pub struct DownloadQueue {
    tasks: TaskMap,
    cancel_tokens: Vec<(Uid, bool)>,
    events: Vec<TaskEvent>,
    work: Vec<Uid>,
    token_actions: Vec<TokenAction>,
    work_capacity: usize,
}

impl View for DownloadQueue {
    type V = QueueView;

    closed spec fn view(&self) -> QueueView {
        QueueView {
            tasks: task_map(self.tasks),
            tokens: self.cancel_tokens@,
            events: event_views(self.events@),
            work: self.work@,
            token_actions: self.token_actions@,
            work_capacity: self.work_capacity,
        }
    }
}

proof fn lemma_find_token(s: Seq<(Uid, bool)>, id: Uid)
    ensures
        -1 <= find_token(s, id) < s.len(),
        find_token(s, id) >= 0 ==> s[find_token(s, id)].0 == id,
        find_token(s, id) == -1 ==> forall|i: int| 0 <= i < s.len() ==> (#[trigger] s[i]).0 != id,
    decreases s.len(),
{
    if s.len() > 0 {
        lemma_find_token(s.drop_last(), id);
        assert forall|i: int| 0 <= i < s.len() - 1 implies s.drop_last()[i] == s[i] by {}
    }
}

proof fn lemma_tokens_unique_after(s: Seq<(Uid, bool)>, id: Uid, b: bool)
    requires
        token_ids_unique(s),
    ensures
        token_ids_unique(token_set(s, id, b)),
        token_ids_unique(token_remove(s, id)),
        token_ids_unique(token_trigger(s, id)),
{
    lemma_find_token(s, id);
    let k = find_token(s, id);
    let t = token_set(s, id, b);
    assert forall|i: int, j: int| 0 <= i < j < t.len() implies (#[trigger] t[i]).0 != (#[trigger] t[j]).0 by {
        if k < 0 && j == s.len() {
            assert(s[i].0 != id);
        }
    }
    let r = token_remove(s, id);
    assert forall|i: int, j: int| 0 <= i < j < r.len() implies (#[trigger] r[i]).0 != (#[trigger] r[j]).0 by {
        if k >= 0 {
            let i2 = if i < k { i } else { i + 1 };
            let j2 = if j < k { j } else { j + 1 };
            assert(r[i] == s[i2]);
            assert(r[j] == s[j2]);
        }
    }
}

/// Where the token entry for `id` stands, if any.
fn token_position(tokens: &Vec<(Uid, bool)>, id: Uid) -> (r: Option<usize>)
    ensures
        match r {
            Some(i) => find_token(tokens@, id) == i as int && i < tokens@.len(),
            None => find_token(tokens@, id) == -1,
        },
{
    let ghost s = tokens@;
    let n = tokens.len();
    let mut i: usize = n;
    assert(s.subrange(0, n as int) == s);
    while i > 0
        invariant
            i <= n,
            n == tokens@.len(),
            s == tokens@,
            find_token(s, id) == find_token(s.subrange(0, i as int), id),
        decreases i,
    {
        let ghost u = s.subrange(0, i as int);
        assert(u.last() == s[i - 1]);
        assert(u.drop_last() == s.subrange(0, i - 1));
        if tokens[i - 1].0 == id {
            return Some(i - 1);
        }
        i = i - 1;
    }
    assert(s.subrange(0, 0).len() == 0);
    proof {
        lemma_find_token(s, id);
    }
    None
}

impl DownloadQueue {
    /// Each task is kept under its own id, the tasks are finitely many, and
    /// token entries occur once per id.
    pub open spec fn wf(&self) -> bool {
        &&& self@.tasks.dom().finite()
        &&& forall|k: Uid| self@.tasks.dom().contains(k) ==> (#[trigger] self@.tasks[k]).id == k
        &&& token_ids_unique(self@.tokens)
    }

    /// An empty queue whose work channel holds four ids per worker.
    pub fn new(concurrency: usize) -> (q: DownloadQueue)
        requires
            0 < concurrency <= usize::MAX / 4,
        ensures
            q.wf(),
            q@.tasks == no_tasks(),
            q@.tokens.len() == 0,
            q@.events.len() == 0,
            q@.work.len() == 0,
            q@.token_actions.len() == 0,
            q@.work_capacity == concurrency * 4,
    {
        DownloadQueue {
            tasks: tasks_new(),
            cancel_tokens: Vec::new(),
            events: Vec::new(),
            work: Vec::new(),
            token_actions: Vec::new(),
            work_capacity: concurrency * 4,
        }
    }

    /// How many task ids the work channel holds.
    pub fn work_capacity(&self) -> (n: usize)
        ensures
            n == self@.work_capacity,
    {
        self.work_capacity
    }

    /// The events recorded so far, oldest first; the record is emptied.
    pub fn take_events(&mut self) -> (r: Vec<TaskEvent>)
        ensures
            event_views(r@) == old(self)@.events,
            final(self)@ == (QueueView { events: Seq::empty(), ..old(self)@ }),
            final(self).wf() == old(self).wf(),
    {
        let mut r = Vec::new();
        std::mem::swap(&mut r, &mut self.events);
        assert(event_views(self.events@) =~= Seq::<EventView>::empty());
        r
    }

    /// The task ids to hand to workers, oldest first; the record is emptied.
    pub fn take_work(&mut self) -> (r: Vec<Uid>)
        ensures
            r@ == old(self)@.work,
            final(self)@ == (QueueView { work: Seq::empty(), ..old(self)@ }),
            final(self).wf() == old(self).wf(),
    {
        let mut r = Vec::new();
        std::mem::swap(&mut r, &mut self.work);
        assert(self.work@ =~= Seq::<Uid>::empty());
        r
    }

    /// The token actions to carry out, oldest first; the record is emptied.
    pub fn take_token_actions(&mut self) -> (r: Vec<TokenAction>)
        ensures
            r@ == old(self)@.token_actions,
            final(self)@ == (QueueView { token_actions: Seq::empty(), ..old(self)@ }),
            final(self).wf() == old(self).wf(),
    {
        let mut r = Vec::new();
        std::mem::swap(&mut r, &mut self.token_actions);
        assert(self.token_actions@ =~= Seq::<TokenAction>::empty());
        r
    }

    /// Add a task (replacing a task with the same id), announce it, and
    /// record its id as work for the workers. The queue itself does not wait:
    /// handing the recorded ids to the work channel, which waits for room in
    /// it, is the caller's part (see `take_work`).
    pub fn enqueue(&mut self, task: DownloadTask) -> (r: Result<Uid, NexDLError>)
        requires
            old(self).wf(),
        ensures
            r matches Ok(id) && id == task.id,
            final(self).wf(),
            final(self)@ == (QueueView {
                tasks: old(self)@.tasks.insert(task.id, task@),
                events: old(self)@.events.push(EventView::Added(task@)),
                work: old(self)@.work.push(task.id),
                ..old(self)@
            }),
    {
        let id = task.id;
        let ghost old_q = self@;
        let event = TaskEvent::Added { task: Box::new(task.clone()) };
        tasks_insert(&mut self.tasks, id, task);
        self.events.push(event);
        self.work.push(id);
        assert(self@.events =~= old_q.events.push(EventView::Added(task@)));
        assert forall|k: Uid| self@.tasks.dom().contains(k) implies (#[trigger] self@.tasks[k]).id == k by {
            if k != id {
                assert(old_q.tasks.dom().contains(k));
            }
        }
        Ok(id)
    }

    /// Set the status of a task at instant `now`.
    pub fn update_status_at(&mut self, id: Uid, status: TaskStatus, now: Timestamp) -> (r: Result<
        (),
        NexDLError,
    >)
        requires
            old(self).wf(),
        ensures
            final(self).wf(),
            task_of(old(self)@.tasks, id) is None ==> (r matches Err(NexDLError::TaskNotFound(x))
                && x == id && final(self)@ == old(self)@),
            task_of(old(self)@.tasks, id) is Some ==> r is Ok && final(self)@ == status_applied(
                old(self)@,
                id,
                status,
                now,
            ),
    {
        let ghost old_q = self@;
        proof {
            lemma_find_token(old_q.tokens, id);
            lemma_tokens_unique_after(old_q.tokens, id, false);
        }
        match tasks_get(&self.tasks, id) {
            None => Err(NexDLError::TaskNotFound(id)),
            Some(mut t) => {
                let terminal = status.is_terminal();
                let starts = match status {
                    TaskStatus::Downloading | TaskStatus::Processing => true,
                    _ => false,
                };
                let event = TaskEvent::StatusChanged { id, status: status.clone() };
                t.status = status;
                t.updated_at = now;
                if terminal {
                    t.finished_at = Some(now);
                    match token_position(&self.cancel_tokens, id) {
                        Some(k) => {
                            self.cancel_tokens.remove(k);
                            self.token_actions.push(TokenAction::Forget(id));
                        },
                        None => {},
                    }
                }
                if starts && t.started_at.is_none() {
                    t.started_at = Some(now);
                }
                assert(t@ == with_status(old_q.tasks[id], status, now));
                tasks_insert(&mut self.tasks, id, t);
                self.events.push(event);
                assert(self@.events =~= old_q.events.push(EventView::StatusChanged(id, status)));
                assert(self@.tokens =~= status_applied(old_q, id, status, now).tokens);
                assert forall|k: Uid| self@.tasks.dom().contains(k) implies (#[trigger] self@.tasks[k]).id
                    == k by {
                    if k != id {
                        assert(old_q.tasks.dom().contains(k));
                    }
                }
                Ok(())
            },
        }
    }

    /// Set the status of a task, timed by the wall clock.
    pub fn update_status(&mut self, id: Uid, status: TaskStatus) -> (r: Result<(), NexDLError>)
        requires
            old(self).wf(),
        ensures
            final(self).wf(),
            task_of(old(self)@.tasks, id) is None ==> (r matches Err(NexDLError::TaskNotFound(x))
                && x == id && final(self)@ == old(self)@),
            task_of(old(self)@.tasks, id) is Some ==> r is Ok && exists|now: Timestamp|
                0 <= now <= MAX_TIMESTAMP_MICROS && final(self)@ == status_applied(
                    old(self)@,
                    id,
                    status,
                    now,
                ),
    {
        let now = now_micros();
        self.update_status_at(id, status, now)
    }

    /// Set the progress of a task at instant `now`.
    pub fn update_progress_at(&mut self, id: Uid, progress: TaskProgress, now: Timestamp) -> (r:
        Result<(), NexDLError>)
        requires
            old(self).wf(),
        ensures
            final(self).wf(),
            task_of(old(self)@.tasks, id) is None ==> (r matches Err(NexDLError::TaskNotFound(x))
                && x == id && final(self)@ == old(self)@),
            task_of(old(self)@.tasks, id) is Some ==> r is Ok && final(self)@ == progress_applied(old(self)@, id, progress, now),
    {
        let ghost old_q = self@;
        match tasks_get(&self.tasks, id) {
            None => Err(NexDLError::TaskNotFound(id)),
            Some(mut t) => {
                let event = TaskEvent::ProgressUpdated { id, progress: progress.clone() };
                t.progress = progress;
                t.updated_at = now;
                assert(t@ == TaskView { progress, updated_at: now, ..old_q.tasks[id] });
                tasks_insert(&mut self.tasks, id, t);
                self.events.push(event);
                assert(self@.events =~= old_q.events.push(EventView::ProgressUpdated(id, progress)));
                assert forall|k: Uid| self@.tasks.dom().contains(k) implies (#[trigger] self@.tasks[k]).id
                    == k by {
                    if k != id {
                        assert(old_q.tasks.dom().contains(k));
                    }
                }
                Ok(())
            },
        }
    }

    /// Set the progress of a task, timed by the wall clock.
    pub fn update_progress(&mut self, id: Uid, progress: TaskProgress) -> (r: Result<
        (),
        NexDLError,
    >)
        requires
            old(self).wf(),
        ensures
            final(self).wf(),
            task_of(old(self)@.tasks, id) is None ==> (r matches Err(NexDLError::TaskNotFound(x))
                && x == id && final(self)@ == old(self)@),
            task_of(old(self)@.tasks, id) is Some ==> r is Ok && exists|now: Timestamp|
                0 <= now <= MAX_TIMESTAMP_MICROS && final(self)@ == progress_applied(old(self)@, id, progress, now),
    {
        let now = now_micros();
        self.update_progress_at(id, progress, now)
    }

    /// A copy of the task with this id.
    pub fn get(&self, id: Uid) -> (r: Option<DownloadTask>)
        ensures
            match r {
                Some(t) => task_of(self@.tasks, id) == Some(t@),
                None => task_of(self@.tasks, id) is None,
            },
    {
        tasks_get(&self.tasks, id)
    }

    /// All tasks, highest priority first and, within a priority, oldest
    /// first; tasks that tie come in the map's order, which it does not fix.
    pub fn list(&self) -> (r: Vec<DownloadTask>)
        requires
            self.wf(),
        ensures
            enumerates(self@.tasks, task_views(r@)),
            listing_sorted(task_views(r@)),
    {
        let ghost m = self@.tasks;
        let ids = tasks_ids(&self.tasks);
        let ghost ks = ids@;
        let mut r: Vec<DownloadTask> = Vec::new();
        let mut i: usize = 0;
        assert(task_views(r@) =~= Seq::<TaskView>::empty());
        while i < ids.len()
            invariant
                self.wf(),
                m == self@.tasks,
                ks == ids@,
                ks.no_duplicates(),
                ks.to_set() == m.dom(),
                i <= ks.len(),
                ids_unique(task_views(r@)),
                forall|j: int|
                    0 <= j < r@.len() ==> m.dom().contains((#[trigger] task_views(r@)[j]).id) && m[task_views(
                        r@,
                    )[j].id] == task_views(r@)[j],
                forall|j: int|
                    0 <= j < r@.len() ==> ks.subrange(0, i as int).contains((#[trigger] task_views(r@)[j]).id),
                forall|t: int|
                    0 <= t < i ==> exists|j: int| 0 <= j < r@.len() && task_views(r@)[j].id == #[trigger] ks[t],
                listing_sorted(task_views(r@)),
            decreases ks.len() - i,
        {
            let k = ids[i];
            assert(ks.to_set().contains(k));
            let t = match tasks_get(&self.tasks, k) {
                Some(t) => t,
                None => {
                    assert(false);
                    return r;
                },
            };
            let tr = t.priority.rank();
            let mut p: usize = 0;
            while p < r.len() && !(tr > r[p].priority.rank() || (tr == r[p].priority.rank()
                && t.created_at < r[p].created_at))
                invariant
                    p <= r@.len(),
                    tr == t@.priority.spec_rank(),
                    forall|q: int| 0 <= q < p ==> listed_no_later(#[trigger] task_views(r@)[q], t@),
                decreases r@.len() - p,
            {
                p = p + 1;
            }
            let ghost rv = task_views(r@);
            let ghost tv = t@;
            let ghost pre = ks.subrange(0, i as int);
            let ghost pre1 = ks.subrange(0, i + 1);
            r.insert(p, t);
            proof {
                let n = task_views(r@);
                assert(n =~= rv.insert(p as int, tv));
                assert(tv.id == k);
                assert(pre1 == pre.push(k));
                assert forall|j: int| 0 <= j < rv.len() implies rv[j].id != k by {
                    assert(pre.contains(rv[j].id));
                    let t0 = pre.index_of(rv[j].id);
                    assert(ks[t0] == rv[j].id);
                    if rv[j].id == k {
                        assert(ks[t0] == ks[i as int]);
                    }
                }
                assert forall|a: int, b: int| 0 <= a < b < n.len() implies (#[trigger] n[a]).id != (
                #[trigger] n[b]).id by {
                    if a < p && b < p {
                    } else if a < p && b == p {
                    } else if a < p {
                        assert(n[b] == rv[b - 1]);
                    } else if a == p {
                        assert(n[b] == rv[b - 1]);
                    } else {
                        assert(n[a] == rv[a - 1]);
                        assert(n[b] == rv[b - 1]);
                    }
                }
                assert forall|j: int| 0 <= j < n.len() implies m.dom().contains((#[trigger] n[j]).id)
                    && m[n[j].id] == n[j] && pre1.contains(n[j].id) by {
                    if j < p {
                        assert(n[j] == rv[j]);
                        assert(pre.contains(rv[j].id));
                        let t0 = pre.index_of(rv[j].id);
                        assert(pre1[t0] == rv[j].id);
                    } else if j == p {
                        assert(pre1[i as int] == k);
                    } else {
                        assert(n[j] == rv[j - 1]);
                        assert(pre.contains(rv[j - 1].id));
                        let t0 = pre.index_of(rv[j - 1].id);
                        assert(pre1[t0] == rv[j - 1].id);
                    }
                }
                assert forall|u: int| 0 <= u < i + 1 implies exists|j: int|
                    0 <= j < n.len() && n[j].id == #[trigger] ks[u] by {
                    if u == i {
                        assert(n[p as int].id == ks[u]);
                    } else {
                        let j0 = choose|j: int| 0 <= j < rv.len() && rv[j].id == ks[u];
                        if j0 < p {
                            assert(n[j0] == rv[j0]);
                        } else {
                            assert(n[j0 + 1] == rv[j0]);
                        }
                    }
                }
                assert forall|a: int, b: int| 0 <= a < b < n.len() implies listed_no_later(
                    #[trigger] n[a],
                    #[trigger] n[b],
                ) by {
                    if b < p {
                    } else if a > p {
                        assert(n[a] == rv[a - 1]);
                        assert(n[b] == rv[b - 1]);
                    } else if a == p {
                        assert(n[b] == rv[b - 1]);
                        assert(listed_no_later(tv, rv[p as int]));
                    } else if b == p {
                    } else {
                        assert(n[b] == rv[b - 1]);
                    }
                }
            }
            i = i + 1;
        }
        proof {
            let n = task_views(r@);
            assert forall|k: Uid| #[trigger] m.dom().contains(k) implies exists|j: int|
                0 <= j < n.len() && n[j].id == k by {
                assert(ks.to_set().contains(k));
                let u = ks.index_of(k);
                assert(ks[u] == k);
            }
        }
        r
    }

    /// Trigger the token of `id`, if it has one, then mark the task paused.
    pub fn pause(&mut self, id: Uid) -> (r: Result<(), NexDLError>)
        requires
            old(self).wf(),
        ensures
            final(self).wf(),
            task_of(old(self)@.tasks, id) is None ==> (r matches Err(NexDLError::TaskNotFound(x))
                && x == id && final(self)@ == token_cancelled(old(self)@, id)),
            task_of(old(self)@.tasks, id) is Some ==> r is Ok && exists|now: Timestamp|
                0 <= now <= MAX_TIMESTAMP_MICROS && final(self)@ == status_applied(
                    token_cancelled(old(self)@, id),
                    id,
                    TaskStatus::Paused,
                    now,
                ),
    {
        self.trigger_token(id);
        self.update_status(id, TaskStatus::Paused)
    }

    /// Trigger the token of `id`, if it has one, then mark the task cancelled.
    pub fn cancel(&mut self, id: Uid) -> (r: Result<(), NexDLError>)
        requires
            old(self).wf(),
        ensures
            final(self).wf(),
            task_of(old(self)@.tasks, id) is None ==> (r matches Err(NexDLError::TaskNotFound(x))
                && x == id && final(self)@ == token_cancelled(old(self)@, id)),
            task_of(old(self)@.tasks, id) is Some ==> r is Ok && exists|now: Timestamp|
                0 <= now <= MAX_TIMESTAMP_MICROS && final(self)@ == status_applied(
                    token_cancelled(old(self)@, id),
                    id,
                    TaskStatus::Cancelled,
                    now,
                ),
    {
        self.trigger_token(id);
        self.update_status(id, TaskStatus::Cancelled)
    }

    fn trigger_token(&mut self, id: Uid)
        requires
            old(self).wf(),
        ensures
            final(self).wf(),
            final(self)@ == token_cancelled(old(self)@, id),
    {
        let ghost old_q = self@;
        proof {
            lemma_tokens_unique_after(old_q.tokens, id, true);
        }
        match token_position(&self.cancel_tokens, id) {
            Some(k) => {
                self.cancel_tokens.set(k, (id, true));
                self.token_actions.push(TokenAction::Cancel(id));
                assert(self@.tokens =~= token_trigger(old_q.tokens, id));
            },
            None => {},
        }
    }

    /// Re-queue a paused task with a fresh token and hand it to the workers;
    /// a task that is not paused is left as it is.
    pub fn resume(&mut self, id: Uid) -> (r: Result<(), NexDLError>)
        requires
            old(self).wf(),
        ensures
            final(self).wf(),
            task_of(old(self)@.tasks, id) is None ==> (r matches Err(NexDLError::TaskNotFound(x))
                && x == id && final(self)@ == old(self)@),
            task_of(old(self)@.tasks, id) matches Some(t) && !(t.status is Paused) ==> r is Ok
                && final(self)@ == old(self)@,
            task_of(old(self)@.tasks, id) matches Some(t) && t.status is Paused ==> r is Ok
                && exists|now: Timestamp|
                0 <= now <= MAX_TIMESTAMP_MICROS && final(self)@ == resumed(old(self)@, id, now),
    {
        let ghost old_q = self@;
        let paused = match tasks_get(&self.tasks, id) {
            None => {
                return Err(NexDLError::TaskNotFound(id));
            },
            Some(t) => match t.status {
                TaskStatus::Paused => true,
                _ => false,
            },
        };
        if !paused {
            return Ok(());
        }
        proof {
            lemma_tokens_unique_after(old_q.tokens, id, false);
            lemma_find_token(old_q.tokens, id);
        }
        match token_position(&self.cancel_tokens, id) {
            Some(k) => {
                self.cancel_tokens.set(k, (id, false));
            },
            None => {
                self.cancel_tokens.push((id, false));
            },
        }
        self.token_actions.push(TokenAction::Fresh(id));
        let ghost mid = self@;
        assert(mid.tokens =~= token_set(old_q.tokens, id, false));
        assert(task_of(mid.tasks, id) is Some);
        let r = self.update_status(id, TaskStatus::Queued);
        self.work.push(id);
        proof {
            let now = choose|now: Timestamp|
                0 <= now <= MAX_TIMESTAMP_MICROS && status_applied(
                    mid,
                    id,
                    TaskStatus::Queued,
                    now,
                ) == (QueueView { work: old_q.work, ..self@ });
            assert(self@ == resumed(old_q, id, now));
        }
        r
    }

    /// Take a task out of the queue, with its token.
    pub fn remove(&mut self, id: Uid) -> (r: Result<(), NexDLError>)
        requires
            old(self).wf(),
        ensures
            final(self).wf(),
            task_of(old(self)@.tasks, id) is None ==> (r matches Err(NexDLError::TaskNotFound(x))
                && x == id && final(self)@ == old(self)@),
            task_of(old(self)@.tasks, id) is Some ==> r is Ok && final(self)@ == (QueueView {
                tasks: old(self)@.tasks.remove(id),
                tokens: token_remove(old(self)@.tokens, id),
                events: old(self)@.events.push(EventView::Removed(id)),
                token_actions: if find_token(old(self)@.tokens, id) >= 0 {
                    old(self)@.token_actions.push(TokenAction::Forget(id))
                } else {
                    old(self)@.token_actions
                },
                ..old(self)@
            }),
    {
        let ghost old_q = self@;
        proof {
            lemma_find_token(old_q.tokens, id);
            lemma_tokens_unique_after(old_q.tokens, id, false);
        }
        match tasks_remove(&mut self.tasks, id) {
            None => {
                assert(self@.tasks =~= old_q.tasks);
                Err(NexDLError::TaskNotFound(id))
            },
            Some(_) => {
                match token_position(&self.cancel_tokens, id) {
                    Some(k) => {
                        self.cancel_tokens.remove(k);
                        self.token_actions.push(TokenAction::Forget(id));
                    },
                    None => {},
                }
                self.events.push(TaskEvent::Removed { id });
                assert(self@.events =~= old_q.events.push(EventView::Removed(id)));
                assert forall|k: Uid| self@.tasks.dom().contains(k) implies (#[trigger] self@.tasks[k]).id
                    == k by {
                    assert(old_q.tasks.dom().contains(k));
                }
                Ok(())
            },
        }
    }

    /// Whether the task's token has been triggered, making an untriggered
    /// token for it first if it has none.
    pub fn get_cancel_token(&mut self, id: Uid) -> (cancelled: bool)
        requires
            old(self).wf(),
        ensures
            final(self).wf(),
            find_token(old(self)@.tokens, id) >= 0 ==> final(self)@ == old(self)@ && cancelled
                == token_triggered(old(self)@.tokens, id),
            find_token(old(self)@.tokens, id) < 0 ==> !cancelled && final(self)@ == (QueueView {
                tokens: old(self)@.tokens.push((id, false)),
                token_actions: old(self)@.token_actions.push(TokenAction::Fresh(id)),
                ..old(self)@
            }),
    {
        let ghost old_q = self@;
        proof {
            lemma_find_token(old_q.tokens, id);
            lemma_tokens_unique_after(old_q.tokens, id, false);
        }
        match token_position(&self.cancel_tokens, id) {
            Some(k) => self.cancel_tokens[k].1,
            None => {
                self.cancel_tokens.push((id, false));
                self.token_actions.push(TokenAction::Fresh(id));
                assert(self@.tokens == token_set(old_q.tokens, id, false));
                false
            },
        }
    }

    /// Whether the task's token has been triggered (false if it has none).
    pub fn is_cancelled(&self, id: Uid) -> (r: bool)
        ensures
            r == token_triggered(self@.tokens, id),
    {
        match token_position(&self.cancel_tokens, id) {
            Some(k) => self.cancel_tokens[k].1,
            None => false,
        }
    }

    /// Bytes per second of all active tasks together.
    pub fn total_speed(&self) -> (r: u64)
        requires
            self.wf(),
            active_speed(self@.tasks) <= u64::MAX,
        ensures
            r == active_speed(self@.tasks),
    {
        let ghost m = self@.tasks;
        let ghost w = speed_weight();
        let ids = tasks_ids(&self.tasks);
        let ghost ks = ids@;
        let mut acc: u64 = 0;
        let mut i: usize = 0;
        assert(ks.subrange(0, 0).len() == 0);
        while i < ids.len()
            invariant
                self.wf(),
                m == self@.tasks,
                w == speed_weight(),
                ks == ids@,
                ks.no_duplicates(),
                ks.to_set() == m.dom(),
                i <= ks.len(),
                map_sum(m, w) <= u64::MAX,
                acc + map_sum(remove_all(m, ks.subrange(0, i as int)), w) == map_sum(m, w),
            decreases ks.len() - i,
        {
            let k = ids[i];
            assert(ks.to_set().contains(k));
            let t = match tasks_get(&self.tasks, k) {
                Some(t) => t,
                None => {
                    assert(false);
                    return acc;
                },
            };
            proof {
                lemma_sum_step(m, ks, i as int, w);
            }
            if t.status.is_active() {
                acc = acc + t.progress.speed_bps;
            }
            i = i + 1;
        }
        proof {
            assert(ks.subrange(0, ks.len() as int) == ks);
            lemma_sum_done(m, ks, w);
        }
        acc
    }

    /// Counts of tasks by status: each task is counted under exactly one
    /// status class, so the counts add up to the total.
    pub fn stats(&self) -> (r: QueueStats)
        requires
            self.wf(),
        ensures
            stats_of(r, self@.tasks),
            r.total == r.queued + r.active + r.completed + r.failed + r.paused + r.cancelled
                + r.captcha_required,
    {
        let ghost m = self@.tasks;
        let ids = tasks_ids(&self.tasks);
        let ghost ks = ids@;
        proof {
            ks.unique_seq_to_set();
            lemma_stats_partition(m);
        }
        let mut st = QueueStats {
            total: 0,
            queued: 0,
            active: 0,
            completed: 0,
            failed: 0,
            paused: 0,
            cancelled: 0,
            captcha_required: 0,
        };
        let mut i: usize = 0;
        assert(ks.subrange(0, 0).len() == 0);
        while i < ids.len()
            invariant
                self.wf(),
                m == self@.tasks,
                ks == ids@,
                ks.no_duplicates(),
                ks.to_set() == m.dom(),
                ks.len() == m.dom().len(),
                i <= ks.len(),
                count_class(m, StatusClass::Queued) + count_class(m, StatusClass::Active) + count_class(
                    m,
                    StatusClass::Completed,
                ) + count_class(m, StatusClass::Failed) + count_class(m, StatusClass::Paused)
                    + count_class(m, StatusClass::Cancelled) + count_class(m, StatusClass::CaptchaRequired)
                    == m.dom().len(),
                ({
                    let rest = remove_all(m, ks.subrange(0, i as int));
                    &&& st.queued + count_class(rest, StatusClass::Queued) == count_class(m, StatusClass::Queued)
                    &&& st.active + count_class(rest, StatusClass::Active) == count_class(m, StatusClass::Active)
                    &&& st.completed + count_class(rest, StatusClass::Completed) == count_class(m, StatusClass::Completed)
                    &&& st.failed + count_class(rest, StatusClass::Failed) == count_class(m, StatusClass::Failed)
                    &&& st.paused + count_class(rest, StatusClass::Paused) == count_class(m, StatusClass::Paused)
                    &&& st.cancelled + count_class(rest, StatusClass::Cancelled) == count_class(m, StatusClass::Cancelled)
                    &&& st.captcha_required + count_class(rest, StatusClass::CaptchaRequired) == count_class(
                        m,
                        StatusClass::CaptchaRequired,
                    )
                }),
                st.total == 0,
            decreases ks.len() - i,
        {
            let k = ids[i];
            assert(ks.to_set().contains(k));
            let t = match tasks_get(&self.tasks, k) {
                Some(t) => t,
                None => {
                    assert(false);
                    return st;
                },
            };
            proof {
                lemma_sum_step(m, ks, i as int, class_weight(StatusClass::Queued));
                lemma_sum_step(m, ks, i as int, class_weight(StatusClass::Active));
                lemma_sum_step(m, ks, i as int, class_weight(StatusClass::Completed));
                lemma_sum_step(m, ks, i as int, class_weight(StatusClass::Failed));
                lemma_sum_step(m, ks, i as int, class_weight(StatusClass::Paused));
                lemma_sum_step(m, ks, i as int, class_weight(StatusClass::Cancelled));
                lemma_sum_step(m, ks, i as int, class_weight(StatusClass::CaptchaRequired));
            }
            match &t.status {
                TaskStatus::Queued => st.queued = st.queued + 1,
                TaskStatus::Processing | TaskStatus::Downloading | TaskStatus::PostProcessing => {
                    st.active = st.active + 1;
                },
                TaskStatus::Completed { .. } => st.completed = st.completed + 1,
                TaskStatus::Failed { .. } => st.failed = st.failed + 1,
                TaskStatus::Paused => st.paused = st.paused + 1,
                TaskStatus::Cancelled => st.cancelled = st.cancelled + 1,
                TaskStatus::CaptchaRequired { .. } => st.captcha_required = st.captcha_required + 1,
            }
            i = i + 1;
        }
        st.total = ids.len();
        proof {
            assert(ks.subrange(0, ks.len() as int) == ks);
            lemma_sum_done(m, ks, class_weight(StatusClass::Queued));
            lemma_sum_done(m, ks, class_weight(StatusClass::Active));
            lemma_sum_done(m, ks, class_weight(StatusClass::Completed));
            lemma_sum_done(m, ks, class_weight(StatusClass::Failed));
            lemma_sum_done(m, ks, class_weight(StatusClass::Paused));
            lemma_sum_done(m, ks, class_weight(StatusClass::Cancelled));
            lemma_sum_done(m, ks, class_weight(StatusClass::CaptchaRequired));
        }
        st
    }
}

} // verus!
