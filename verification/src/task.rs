//! Download tasks: their priority, status, progress and the events a queue
//! reports about them.
use vstd::prelude::*;
use crate::clock::{new_uid, now_micros, Timestamp, Uid, MAX_TIMESTAMP_MICROS};
use crate::text::{clone_opt_string, opt_view, string_from_str};

verus! {

/// `serde_json::Value`, carried through opaque (task options, scheduled actions).
#[verifier::external_type_specification]
#[verifier::external_body]
pub struct ExJsonValue(serde_json::Value);

/// `<serde_json::Value as Clone>::clone`.
///
/// Claimed: the copy is the same JSON value (serde_json derives `Clone` for `Value`).
#[verifier::external_body]
pub(crate) fn clone_json(v: &serde_json::Value) -> (r: serde_json::Value)
    ensures
        r == *v,
{
    v.clone()
}

/// Priority of a download task, from lowest to highest.
#[derive(Debug, Clone, Copy, PartialEq, Eq, PartialOrd, Ord, Structural)]
pub enum TaskPriority {
    Low,
    Normal,
    High,
    Critical,
}

impl TaskPriority {
    /// The priority's place in the order Low < Normal < High < Critical.
    pub open spec fn spec_rank(self) -> u8 {
        match self {
            TaskPriority::Low => 0,
            TaskPriority::Normal => 1,
            TaskPriority::High => 2,
            TaskPriority::Critical => 3,
        }
    }

    #[verifier::when_used_as_spec(spec_rank)]
    pub fn rank(self) -> (r: u8)
        ensures
            r == self.spec_rank(),
    {
        match self {
            TaskPriority::Low => 0,
            TaskPriority::Normal => 1,
            TaskPriority::High => 2,
            TaskPriority::Critical => 3,
        }
    }
}

impl Default for TaskPriority {
    fn default() -> (p: Self)
        ensures
            p == TaskPriority::Normal,
    {
        TaskPriority::Normal
    }
}

/// Status of a download task.
#[derive(Debug, PartialEq, Eq)]
pub enum TaskStatus {
    /// Waiting in queue
    Queued,
    /// Being processed by an addon (URL extraction, login, ...)
    Processing,
    /// Actively downloading
    Downloading,
    /// Post-processing (reup, transcode, ...)
    PostProcessing,
    /// Waiting for captcha resolution
    CaptchaRequired { url: String },
    /// Paused by the user
    Paused,
    /// Completed successfully
    Completed { output_path: String },
    /// Failed with an error
    Failed { error: String, retries: u32 },
    /// Cancelled by the user
    Cancelled,
}

impl Clone for TaskStatus {
    fn clone(&self) -> (r: Self)
        ensures
            r == *self,
    {
        match self {
            TaskStatus::Queued => TaskStatus::Queued,
            TaskStatus::Processing => TaskStatus::Processing,
            TaskStatus::Downloading => TaskStatus::Downloading,
            TaskStatus::PostProcessing => TaskStatus::PostProcessing,
            TaskStatus::CaptchaRequired { url } => TaskStatus::CaptchaRequired { url: url.clone() },
            TaskStatus::Paused => TaskStatus::Paused,
            TaskStatus::Completed { output_path } => TaskStatus::Completed {
                output_path: output_path.clone(),
            },
            TaskStatus::Failed { error, retries } => TaskStatus::Failed {
                error: error.clone(),
                retries: *retries,
            },
            TaskStatus::Cancelled => TaskStatus::Cancelled,
        }
    }
}

impl TaskStatus {
    pub open spec fn spec_is_terminal(&self) -> bool {
        self is Completed || self is Failed || self is Cancelled
    }

    pub open spec fn spec_is_active(&self) -> bool {
        self is Processing || self is Downloading || self is PostProcessing
    }

    /// Completed, failed or cancelled: the task will not run again by itself.
    #[verifier::when_used_as_spec(spec_is_terminal)]
    pub fn is_terminal(&self) -> (r: bool)
        ensures
            r == self.spec_is_terminal(),
    {
        match self {
            TaskStatus::Completed { .. } | TaskStatus::Failed { .. } | TaskStatus::Cancelled => true,
            _ => false,
        }
    }

    /// Processing, downloading or post-processing.
    #[verifier::when_used_as_spec(spec_is_active)]
    pub fn is_active(&self) -> (r: bool)
        ensures
            r == self.spec_is_active(),
    {
        match self {
            TaskStatus::Processing | TaskStatus::Downloading | TaskStatus::PostProcessing => true,
            _ => false,
        }
    }
}

/// No status is both terminal and active.
pub proof fn lemma_terminal_not_active(status: TaskStatus)
    ensures
        !(status.spec_is_terminal() && status.spec_is_active()),
{
}

/// Progress information for an active download.
#[derive(Debug)]
pub struct TaskProgress {
    /// Downloaded bytes
    pub downloaded: u64,
    /// Total bytes (0 if unknown)
    pub total: u64,
    /// Download speed in bytes/sec
    pub speed_bps: u64,
    /// Estimated time remaining in seconds (None if unknown)
    pub eta_secs: Option<u64>,
    /// Progress message from the addon
    pub message: String,
    /// Sub-tasks (e.g. album items)
    pub subtasks_done: u32,
    pub subtasks_total: u32,
}

impl Clone for TaskProgress {
    fn clone(&self) -> (r: Self)
        ensures
            r == *self,
    {
        TaskProgress {
            downloaded: self.downloaded,
            total: self.total,
            speed_bps: self.speed_bps,
            eta_secs: self.eta_secs,
            message: self.message.clone(),
            subtasks_done: self.subtasks_done,
            subtasks_total: self.subtasks_total,
        }
    }
}

impl Default for TaskProgress {
    fn default() -> (p: Self)
        ensures
            p.downloaded == 0,
            p.total == 0,
            p.speed_bps == 0,
            p.eta_secs is None,
            p.message@ == Seq::<char>::empty(),
            p.subtasks_done == 0,
            p.subtasks_total == 0,
    {
        TaskProgress {
            downloaded: 0,
            total: 0,
            speed_bps: 0,
            eta_secs: None,
            message: String::new(),
            subtasks_done: 0,
            subtasks_total: 0,
        }
    }
}

/// Metadata about the addon that handles a task.
#[derive(Debug)]
pub struct AddonMeta {
    pub name: String,
    pub version: String,
    pub addon_path: String,
}

impl Clone for AddonMeta {
    fn clone(&self) -> (r: Self)
        ensures
            r == *self,
    {
        AddonMeta {
            name: self.name.clone(),
            version: self.version.clone(),
            addon_path: self.addon_path.clone(),
        }
    }
}

fn clone_opt_addon(o: &Option<AddonMeta>) -> (r: Option<AddonMeta>)
    ensures
        r == *o,
{
    match o {
        Some(a) => Some(a.clone()),
        None => None,
    }
}

/// The main download task.
#[derive(Debug)]
pub struct DownloadTask {
    pub id: Uid,
    pub url: String,
    pub title: Option<String>,
    pub output_dir: String,
    pub filename_template: Option<String>,
    pub priority: TaskPriority,
    pub status: TaskStatus,
    pub progress: TaskProgress,
    pub addon: Option<AddonMeta>,
    pub account_id: Option<Uid>,
    /// Extra addon-specific options, one value per key
    pub options: Vec<(String, serde_json::Value)>,
    /// Tags for filtering and grouping
    pub tags: Vec<String>,
    pub created_at: Timestamp,
    pub updated_at: Timestamp,
    pub started_at: Option<Timestamp>,
    pub finished_at: Option<Timestamp>,
    pub max_retries: u32,
    pub retry_count: u32,
}

/// What a task is, as plain values.
pub struct TaskView {
    pub id: Uid,
    pub url: Seq<char>,
    pub title: Option<Seq<char>>,
    pub output_dir: Seq<char>,
    pub filename_template: Option<Seq<char>>,
    pub priority: TaskPriority,
    pub status: TaskStatus,
    pub progress: TaskProgress,
    pub addon: Option<AddonMeta>,
    pub account_id: Option<Uid>,
    pub options: Seq<(Seq<char>, serde_json::Value)>,
    pub tags: Seq<Seq<char>>,
    pub created_at: Timestamp,
    pub updated_at: Timestamp,
    pub started_at: Option<Timestamp>,
    pub finished_at: Option<Timestamp>,
    pub max_retries: u32,
    pub retry_count: u32,
}

/// Options as keys (by their text) and values.
pub open spec fn options_view(o: Seq<(String, serde_json::Value)>) -> Seq<(Seq<char>, serde_json::Value)> {
    o.map_values(|p: (String, serde_json::Value)| (p.0@, p.1))
}

impl View for DownloadTask {
    type V = TaskView;

    open spec fn view(&self) -> TaskView {
        TaskView {
            id: self.id,
            url: self.url@,
            title: opt_view(self.title),
            output_dir: self.output_dir@,
            filename_template: opt_view(self.filename_template),
            priority: self.priority,
            status: self.status,
            progress: self.progress,
            addon: self.addon,
            account_id: self.account_id,
            options: options_view(self.options@),
            tags: self.tags@.map_values(|t: String| t@),
            created_at: self.created_at,
            updated_at: self.updated_at,
            started_at: self.started_at,
            finished_at: self.finished_at,
            max_retries: self.max_retries,
            retry_count: self.retry_count,
        }
    }
}

/// Index of the last option under `key`, or -1.
pub open spec fn find_option(opts: Seq<(Seq<char>, serde_json::Value)>, key: Seq<char>) -> int
    decreases opts.len(),
{
    if opts.len() == 0 {
        -1
    } else if opts.last().0 == key {
        opts.len() - 1
    } else {
        find_option(opts.drop_last(), key)
    }
}

/// The options with `key` set to `value`: the entry under `key` is replaced,
/// or a new entry added at the end.
pub open spec fn option_insert(
    opts: Seq<(Seq<char>, serde_json::Value)>,
    key: Seq<char>,
    value: serde_json::Value,
) -> Seq<(Seq<char>, serde_json::Value)> {
    let i = find_option(opts, key);
    if i >= 0 {
        opts.update(i, (key, value))
    } else {
        opts.push((key, value))
    }
}

proof fn lemma_find_option(opts: Seq<(Seq<char>, serde_json::Value)>, key: Seq<char>)
    ensures
        -1 <= find_option(opts, key) < opts.len(),
        find_option(opts, key) >= 0 ==> opts[find_option(opts, key)].0 == key,
        find_option(opts, key) == -1 ==> forall|i: int| 0 <= i < opts.len() ==> (#[trigger] opts[i]).0 != key,
    decreases opts.len(),
{
    if opts.len() > 0 {
        lemma_find_option(opts.drop_last(), key);
        assert forall|i: int| 0 <= i < opts.len() - 1 implies opts.drop_last()[i] == opts[i] by {}
    }
}

/// Each option key occurs once.
pub open spec fn option_keys_unique(opts: Seq<(Seq<char>, serde_json::Value)>) -> bool {
    forall|i: int, j: int| 0 <= i < j < opts.len() ==> opts[i].0 != opts[j].0
}

/// A fresh task: queued, normal priority, no progress, three retries allowed,
/// created and updated at `now`.
pub open spec fn new_task(id: Uid, url: Seq<char>, output_dir: Seq<char>, now: Timestamp) -> TaskView {
    TaskView {
        id,
        url,
        title: None,
        output_dir,
        filename_template: None,
        priority: TaskPriority::Normal,
        status: TaskStatus::Queued,
        progress: TaskProgress {
            downloaded: 0,
            total: 0,
            speed_bps: 0,
            eta_secs: None,
            message: arbitrary(),
            subtasks_done: 0,
            subtasks_total: 0,
        },
        addon: None,
        account_id: None,
        options: Seq::empty(),
        tags: Seq::empty(),
        created_at: now,
        updated_at: now,
        started_at: None,
        finished_at: None,
        max_retries: 3,
        retry_count: 0,
    }
}

/// A fresh task, up to the (empty) progress message.
pub open spec fn is_new_task(t: TaskView, id: Uid, url: Seq<char>, output_dir: Seq<char>, now: Timestamp) -> bool {
    &&& t.progress.message@ == Seq::<char>::empty()
    &&& t == TaskView { progress: TaskProgress { message: t.progress.message, ..new_task(id, url, output_dir, now).progress }, ..new_task(id, url, output_dir, now) }
}

proof fn lemma_option_insert_unique(
    opts: Seq<(Seq<char>, serde_json::Value)>,
    key: Seq<char>,
    value: serde_json::Value,
)
    requires
        option_keys_unique(opts),
    ensures
        option_keys_unique(option_insert(opts, key, value)),
{
    lemma_find_option(opts, key);
    let t = option_insert(opts, key, value);
    let k = find_option(opts, key);
    assert forall|i: int, j: int| 0 <= i < j < t.len() implies t[i].0 != t[j].0 by {
        if k < 0 && j == opts.len() {
            assert(opts[i].0 != key);
        }
    }
}

impl Clone for DownloadTask {
    fn clone(&self) -> (r: Self)
        ensures
            r@ == self@,
    {
        let mut options: Vec<(String, serde_json::Value)> = Vec::new();
        let mut i: usize = 0;
        while i < self.options.len()
            invariant
                i <= self.options@.len(),
                options@.len() == i,
                forall|k: int|
                    0 <= k < i ==> (#[trigger] options@[k]).0@ == self.options@[k].0@
                        && options@[k].1 == self.options@[k].1,
            decreases self.options@.len() - i,
        {
            let (k, v) = &self.options[i];
            options.push((k.clone(), clone_json(v)));
            i = i + 1;
        }
        let mut tags: Vec<String> = Vec::new();
        let mut j: usize = 0;
        while j < self.tags.len()
            invariant
                j <= self.tags@.len(),
                tags@.len() == j,
                forall|k: int| 0 <= k < j ==> (#[trigger] tags@[k])@ == self.tags@[k]@,
            decreases self.tags@.len() - j,
        {
            tags.push(self.tags[j].clone());
            j = j + 1;
        }
        let r = DownloadTask {
            id: self.id,
            url: self.url.clone(),
            title: clone_opt_string(&self.title),
            output_dir: self.output_dir.clone(),
            filename_template: clone_opt_string(&self.filename_template),
            priority: self.priority,
            status: self.status.clone(),
            progress: self.progress.clone(),
            addon: clone_opt_addon(&self.addon),
            account_id: self.account_id,
            options,
            tags,
            created_at: self.created_at,
            updated_at: self.updated_at,
            started_at: self.started_at,
            finished_at: self.finished_at,
            max_retries: self.max_retries,
            retry_count: self.retry_count,
        };
        assert(r@.options =~= self@.options);
        assert(r@.tags =~= self@.tags);
        r
    }
}

/// Where the option under `key` stands, if any.
fn option_position(options: &Vec<(String, serde_json::Value)>, key: &String) -> (r: Option<usize>)
    ensures
        ({
            let opts = options_view(options@);
            r == (if find_option(opts, key@) >= 0 {
                Some(find_option(opts, key@) as usize)
            } else {
                None::<usize>
            })
        }),
{
    let ghost opts = options_view(options@);
    let n = options.len();
    let mut i: usize = n;
    assert(opts.subrange(0, n as int) == opts);
    while i > 0
        invariant
            i <= n,
            n == options@.len(),
            opts == options_view(options@),
            find_option(opts, key@) == find_option(opts.subrange(0, i as int), key@),
        decreases i,
    {
        let ghost u = opts.subrange(0, i as int);
        assert(u.last() == opts[i - 1]);
        assert(u.drop_last() == opts.subrange(0, i - 1));
        if options[i - 1].0 == *key {
            return Some(i - 1);
        }
        i = i - 1;
    }
    assert(opts.subrange(0, 0).len() == 0);
    None
}

impl DownloadTask {
    /// A fresh task with the given identity and creation instant.
    pub fn new_with(id: Uid, url: &str, output_dir: &str, now: Timestamp) -> (t: DownloadTask)
        ensures
            is_new_task(t@, id, url@, output_dir@, now),
    {
        let t = DownloadTask {
            id,
            url: string_from_str(url),
            title: None,
            output_dir: string_from_str(output_dir),
            filename_template: None,
            priority: TaskPriority::Normal,
            status: TaskStatus::Queued,
            progress: TaskProgress::default(),
            addon: None,
            account_id: None,
            options: Vec::new(),
            tags: Vec::new(),
            created_at: now,
            updated_at: now,
            started_at: None,
            finished_at: None,
            max_retries: 3,
            retry_count: 0,
        };
        assert(t@.options =~= Seq::<(Seq<char>, serde_json::Value)>::empty());
        assert(t@.tags =~= Seq::<Seq<char>>::empty());
        t
    }

    /// A fresh task with a random v4 identity, created now.
    pub fn new(url: &str, output_dir: &str) -> (t: DownloadTask)
        ensures
            exists|id: Uid, now: Timestamp|
                0 <= now <= MAX_TIMESTAMP_MICROS && is_new_task(t@, id, url@, output_dir@, now),
            (t.id >> 76u128) & 0xf == 4,
            (t.id >> 62u128) & 0x3 == 2,
    {
        let id = new_uid();
        let now = now_micros();
        DownloadTask::new_with(id, url, output_dir, now)
    }

    pub fn with_priority(self, priority: TaskPriority) -> (t: DownloadTask)
        ensures
            t@ == (TaskView { priority, ..self@ }),
    {
        let mut t = self;
        t.priority = priority;
        t
    }

    pub fn with_account(self, account_id: Uid) -> (t: DownloadTask)
        ensures
            t@ == (TaskView { account_id: Some(account_id), ..self@ }),
    {
        let mut t = self;
        t.account_id = Some(account_id);
        t
    }

    /// Set an option, replacing any earlier value under the same key.
    pub fn with_option(self, key: &str, value: serde_json::Value) -> (t: DownloadTask)
        requires
            option_keys_unique(self@.options),
        ensures
            t@ == (TaskView { options: option_insert(self@.options, key@, value), ..self@ }),
            option_keys_unique(t@.options),
    {
        proof {
            lemma_option_insert_unique(self@.options, key@, value);
        }
        let mut t = self;
        let ghost opts = t@.options;
        let k = string_from_str(key);
        let pos = option_position(&t.options, &k);
        assert(opts.len() == t.options.len());
        proof {
            lemma_find_option(opts, key@);
        }
        match pos {
            Some(i) => {
                assert(find_option(opts, key@) == i);
                assert(option_insert(opts, key@, value) == opts.update(i as int, (key@, value)));
                t.options.set(i, (k, value));
                assert(t@.options =~= opts.update(i as int, (key@, value)));
            },
            None => {
                assert(find_option(opts, key@) == -1);
                assert(option_insert(opts, key@, value) == opts.push((key@, value)));
                t.options.push((k, value));
                assert(t@.options =~= opts.push((key@, value)));
            },
        }
        assert(t@.options == option_insert(opts, key@, value));
        assert(t@.url == self@.url);
        assert(t@.tags == self@.tags);
        t
    }

    pub fn with_tag(self, tag: &str) -> (t: DownloadTask)
        ensures
            t@ == (TaskView { tags: self@.tags.push(tag@), ..self@ }),
    {
        let mut t = self;
        let ghost before = t@;
        t.tags.push(string_from_str(tag));
        assert(t@.tags =~= before.tags.push(tag@));
        t
    }
}

/// An event a queue reports about a task.
#[derive(Debug)]
pub enum TaskEvent {
    Added { task: Box<DownloadTask> },
    StatusChanged { id: Uid, status: TaskStatus },
    ProgressUpdated { id: Uid, progress: TaskProgress },
    Removed { id: Uid },
}

/// What an event is, as plain values.
pub enum EventView {
    Added(TaskView),
    StatusChanged(Uid, TaskStatus),
    ProgressUpdated(Uid, TaskProgress),
    Removed(Uid),
}

impl Clone for TaskEvent {
    fn clone(&self) -> (r: Self)
        ensures
            r@ == self@,
    {
        match self {
            TaskEvent::Added { task } => TaskEvent::Added { task: Box::new((**task).clone()) },
            TaskEvent::StatusChanged { id, status } => TaskEvent::StatusChanged {
                id: *id,
                status: status.clone(),
            },
            TaskEvent::ProgressUpdated { id, progress } => TaskEvent::ProgressUpdated {
                id: *id,
                progress: progress.clone(),
            },
            TaskEvent::Removed { id } => TaskEvent::Removed { id: *id },
        }
    }
}

impl View for TaskEvent {
    type V = EventView;

    open spec fn view(&self) -> EventView {
        match self {
            TaskEvent::Added { task } => EventView::Added(task@),
            TaskEvent::StatusChanged { id, status } => EventView::StatusChanged(*id, *status),
            TaskEvent::ProgressUpdated { id, progress } => EventView::ProgressUpdated(*id, *progress),
            TaskEvent::Removed { id } => EventView::Removed(*id),
        }
    }
}

} // verus!
