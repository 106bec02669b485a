//! The decisions of running a task through an addon or a direct download:
//! whether and how a task runs, where its files go, what its progress says,
//! how often extraction is retried and how long between tries, and the
//! status a run ends in. Fetching, extracting and post-processing are done
//! by the caller between these steps.
use vstd::prelude::*;
use crate::account::{AccountStore, serves};
use crate::addon::{last_segment, last_url_segment, AddonApiError, PyDownloadItem};
use crate::clock::{Uid, MAX_TIMESTAMP_MICROS};
use crate::cookie::cookie_header_text;
use crate::crypto::hex_digit;
use crate::task::{DownloadTask, TaskProgress, TaskStatus};
use crate::text::{
    dec, push_dec, split, split_chars, starts_with, string_from_str, string_push, string_push_str,
};
use crate::web::{spec_url_domain, spec_url_valid, url_domain, url_is_valid};
use vstd::arithmetic::power2::{pow2, lemma2_to64, lemma_pow2_unfold, lemma_pow2_strictly_increases};

verus! {

// ---------------------------------------------------------------------------
// task ids as text
// ---------------------------------------------------------------------------

/// The `i`-th hex digit (from the most significant) of a 128-bit id.
pub open spec fn nibble(id: u128, i: int) -> nat {
    ((id >> ((124 - 4 * i) as u128)) & 0xf) as nat
}

/// Which hex digit stands at position `p` of the hyphenated form.
pub open spec fn digit_index(p: int) -> int {
    if p < 8 {
        p
    } else if p < 13 {
        p - 1
    } else if p < 18 {
        p - 2
    } else if p < 23 {
        p - 3
    } else {
        p - 4
    }
}

pub open spec fn uuid_char(id: u128, p: int) -> char {
    if p == 8 || p == 13 || p == 18 || p == 23 {
        '-'
    } else {
        hex_digit(nibble(id, digit_index(p)))
    }
}

/// A UUID in its hyphenated lower-case form, 8-4-4-4-12 hex digits
/// (how `uuid::Uuid` displays).
pub open spec fn uuid_text(id: u128) -> Seq<char> {
    Seq::new(36, |p: int| uuid_char(id, p))
}

/// The hyphenated text of a task id.
pub fn uid_text(id: Uid) -> (s: String)
    ensures
        s@ == uuid_text(id),
{
    let mut s = String::new();
    let mut p: usize = 0;
    while p < 36
        invariant
            p <= 36,
            s@.len() == p,
            forall|q: int| 0 <= q < p ==> s@[q] == uuid_char(id, q),
        decreases 36 - p,
    {
        let ghost before = s@;
        if p == 8 || p == 13 || p == 18 || p == 23 {
            string_push(&mut s, '-');
        } else {
            let k: usize = if p < 8 {
                p
            } else if p < 13 {
                p - 1
            } else if p < 18 {
                p - 2
            } else if p < 23 {
                p - 3
            } else {
                p - 4
            };
            let shift: u128 = (124 - 4 * k) as u128;
            let v: u128 = (id >> shift) & 0xf;
            assert(v < 16) by (bit_vector)
                requires
                    v == (id >> shift) & 0xf,
            ;
            let c = if v < 10 {
                ((v as u8) + 48) as char
            } else {
                ((v as u8) + 87) as char
            };
            assert(c == hex_digit(nibble(id, digit_index(p as int))));
            string_push(&mut s, c);
        }
        assert(s@ == before.push(uuid_char(id, p as int)));
        p = p + 1;
    }
    assert(s@ =~= uuid_text(id));
    s
}

// ---------------------------------------------------------------------------
// paths and names
// ---------------------------------------------------------------------------

/// `Path::new(dir).join(name)`: an absolute name replaces the directory;
/// otherwise the name follows the directory, with a `/` between them unless
/// the directory is empty or already ends with one.
pub open spec fn path_join(dir: Seq<char>, name: Seq<char>) -> Seq<char> {
    if starts_with(name, seq!['/']) || dir.len() == 0 {
        name
    } else if dir.last() == '/' {
        dir + name
    } else {
        dir + seq!['/'] + name
    }
}

/// `Path::new(dir).join(name)`, as text.
pub fn join_path(dir: &str, name: &str) -> (p: String)
    ensures
        p@ == path_join(dir@, name@),
{
    let d = crate::text::chars_of(dir);
    let n = crate::text::chars_of(name);
    if (n.len() > 0 && n[0] == '/') || d.len() == 0 {
        proof {
            lemma_starts_with_char(name@, '/');
        }
        return string_from_str(name);
    }
    proof {
        lemma_starts_with_char(name@, '/');
    }
    let mut p = string_from_str(dir);
    if d[d.len() - 1] != '/' {
        string_push(&mut p, '/');
    }
    string_push_str(&mut p, name);
    p
}

proof fn lemma_starts_with_char(s: Seq<char>, c: char)
    ensures
        starts_with(s, seq![c]) == (s.len() > 0 && s[0] == c),
{
    if s.len() > 0 {
        assert(s.subrange(0, 1) =~= seq![s[0]]);
        if starts_with(s, seq![c]) {
            assert(s.subrange(0, 1)[0] == seq![c][0]);
        }
    }
}

/// The directory a task's files go to: its own, or the default when it names none.
pub fn resolve_output_dir(task_dir: &str, default_dir: &str) -> (d: String)
    ensures
        d@ == (if task_dir@.len() == 0 {
            default_dir@
        } else {
            task_dir@
        }),
{
    if task_dir.is_empty() {
        string_from_str(default_dir)
    } else {
        string_from_str(task_dir)
    }
}

pub open spec fn is_unsafe_file_char(c: char) -> bool {
    c == '<' || c == '>' || c == '"' || c == '/' || c == '\\' || c == '|' || c == ':' || c == '?'
        || c == '*'
}

pub open spec fn sanitize_char(c: char) -> char {
    if is_unsafe_file_char(c) {
        '_'
    } else {
        c
    }
}

pub open spec fn download_text() -> Seq<char> {
    seq!['d', 'o', 'w', 'n', 'l', 'o', 'a', 'd']
}

/// The file name of a direct download: the last piece of the URL's path,
/// before any `?`, with characters that are unsafe in file names replaced by
/// `_`; `download` when that leaves nothing.
pub open spec fn direct_filename(url: Seq<char>) -> Seq<char> {
    let name = split(last_segment(url), '?')[0];
    let clean = name.map_values(|c: char| sanitize_char(c));
    if clean.len() == 0 {
        download_text()
    } else {
        clean
    }
}

/// The file name of a direct download of `url`.
pub fn direct_download_filename(url: &str) -> (f: String)
    ensures
        f@ == direct_filename(url@),
{
    let seg = last_url_segment(url);
    let pieces = split_chars(&seg, '?');
    proof {
        crate::text::lemma_split_from_nonempty(seg@, '?', Seq::empty());
    }
    let name = &pieces[0];
    let ghost clean = name@.map_values(|c: char| sanitize_char(c));
    let mut out: Vec<char> = Vec::new();
    let mut i: usize = 0;
    while i < name.len()
        invariant
            i <= name@.len(),
            out@ == clean.subrange(0, i as int),
            clean == name@.map_values(|c: char| sanitize_char(c)),
        decreases name@.len() - i,
    {
        let c = name[i];
        let safe = if c == '<' || c == '>' || c == '"' || c == '/' || c == '\\' || c == '|' || c
            == ':' || c == '?' || c == '*' {
            '_'
        } else {
            c
        };
        out.push(safe);
        assert(clean.subrange(0, i + 1) == clean.subrange(0, i as int).push(clean[i as int]));
        i = i + 1;
    }
    assert(out@ =~= clean);
    if out.len() == 0 {
        proof {
            reveal_strlit("download");
        }
        string_from_str("download")
    } else {
        crate::text::string_from_chars(&out)
    }
}

/// Where an extracted item is saved: its own output path, or its file name
/// in the output directory when it gives none.
pub fn item_output_path(item_path: &str, output_dir: &str, filename: &str) -> (p: String)
    ensures
        p@ == (if item_path@.len() == 0 {
            path_join(output_dir@, filename@)
        } else {
            item_path@
        }),
{
    if item_path.is_empty() {
        join_path(output_dir, filename)
    } else {
        string_from_str(item_path)
    }
}

// ---------------------------------------------------------------------------
// messages and progress
// ---------------------------------------------------------------------------

pub open spec fn invalid_url_text(url: Seq<char>) -> Seq<char> {
    seq!['I', 'n', 'v', 'a', 'l', 'i', 'd', ' ', 'U', 'R', 'L', ':', ' '] + url
}

pub open spec fn not_found_text(id: Uid) -> Seq<char> {
    seq!['T', 'a', 's', 'k', ' '] + uuid_text(id) + seq![' ', 'n', 'o', 't', ' ', 'f', 'o', 'u', 'n', 'd']
}

pub open spec fn retry_text(attempt: nat, max: nat) -> Seq<char> {
    seq!['R', 'e', 't', 'r', 'y', ' '] + dec(attempt) + seq!['/'] + dec(max)
}

pub open spec fn item_title_text(title: Seq<char>) -> Seq<char> {
    seq!['D', 'o', 'w', 'n', 'l', 'o', 'a', 'd', 'i', 'n', 'g', ':', ' '] + title
}

pub open spec fn item_counter_text(i: nat, total: nat) -> Seq<char> {
    seq!['I', 't', 'e', 'm', ' '] + dec(i + 1) + seq!['/'] + dec(total)
}

pub open spec fn progress_with(message: Seq<char>, downloaded: u64, total: u64, done: u32, of: u32, p: TaskProgress) -> bool {
    &&& p.message@ == message
    &&& p.downloaded == downloaded
    &&& p.total == total
    &&& p.speed_bps == 0
    &&& p.eta_secs is None
    &&& p.subtasks_done == done
    &&& p.subtasks_total == of
}

fn literal(s: &str) -> (r: String)
    ensures
        r@ == s@,
{
    string_from_str(s)
}

/// The error of a run whose task the queue does not hold.
pub fn task_not_found(id: Uid) -> (e: AddonApiError)
    ensures
        e matches AddonApiError::Other(m) && m@ == not_found_text(id),
{
    let mut m = literal("Task ");
    let t = uid_text(id);
    string_push_str(&mut m, t.as_str());
    string_push_str(&mut m, " not found");
    proof {
        reveal_strlit("Task ");
        reveal_strlit(" not found");
        assert(m@ =~= not_found_text(id));
    }
    AddonApiError::Other(m)
}

/// The progress shown before retrying extraction.
pub fn retry_progress(attempt: u32, max_retries: u32) -> (p: TaskProgress)
    ensures
        progress_with(retry_text(attempt as nat, max_retries as nat), 0, 0, 0, 0, p),
{
    let mut m = literal("Retry ");
    push_dec(&mut m, attempt as u64);
    string_push(&mut m, '/');
    push_dec(&mut m, max_retries as u64);
    proof {
        reveal_strlit("Retry ");
        assert(m@ =~= retry_text(attempt as nat, max_retries as nat));
    }
    TaskProgress {
        downloaded: 0,
        total: 0,
        speed_bps: 0,
        eta_secs: None,
        message: m,
        subtasks_done: 0,
        subtasks_total: 0,
    }
}

/// The progress shown when item `i` of `total` starts downloading.
pub fn item_start_progress(i: u32, total: u32, title: &str) -> (p: TaskProgress)
    ensures
        progress_with(item_title_text(title@), 0, 0, i, total, p),
{
    let mut m = literal("Downloading: ");
    string_push_str(&mut m, title);
    proof {
        reveal_strlit("Downloading: ");
        assert(m@ =~= item_title_text(title@));
    }
    TaskProgress {
        downloaded: 0,
        total: 0,
        speed_bps: 0,
        eta_secs: None,
        message: m,
        subtasks_done: i,
        subtasks_total: total,
    }
}

/// The progress shown as bytes of item `i` of `total` arrive.
pub fn item_bytes_progress(i: u32, total: u32, downloaded: u64, total_bytes: u64) -> (p: TaskProgress)
    ensures
        progress_with(item_counter_text(i as nat, total as nat), downloaded, total_bytes, i, total, p),
{
    let mut m = literal("Item ");
    push_dec(&mut m, i as u64 + 1);
    string_push(&mut m, '/');
    push_dec(&mut m, total as u64);
    proof {
        reveal_strlit("Item ");
        assert(m@ =~= item_counter_text(i as nat, total as nat));
    }
    TaskProgress {
        downloaded,
        total: total_bytes,
        speed_bps: 0,
        eta_secs: None,
        message: m,
        subtasks_done: i,
        subtasks_total: total,
    }
}

/// The progress shown as bytes of a direct download arrive.
pub fn direct_bytes_progress(downloaded: u64, total_bytes: u64) -> (p: TaskProgress)
    ensures
        progress_with("Downloading..."@, downloaded, total_bytes, 0, 0, p),
{
    TaskProgress {
        downloaded,
        total: total_bytes,
        speed_bps: 0,
        eta_secs: None,
        message: literal("Downloading..."),
        subtasks_done: 0,
        subtasks_total: 0,
    }
}

/// The status a task gets when its addon extracts nothing.
pub fn no_items_status() -> (s: TaskStatus)
    ensures
        s matches TaskStatus::Failed { error, retries } && retries == 0 && error@
            == "Addon extracted 0 items. Try adding a logged-in account in the Accounts tab."@,
{
    TaskStatus::Failed {
        error: literal("Addon extracted 0 items. Try adding a logged-in account in the Accounts tab."),
        retries: 0,
    }
}

/// The status a download ends in: cancelled if the task's token was
/// triggered meanwhile, otherwise completed at `output_path`.
pub fn finished_status(cancelled: bool, output_path: &str) -> (s: TaskStatus)
    ensures
        cancelled ==> s is Cancelled,
        !cancelled ==> (s matches TaskStatus::Completed { output_path: p } && p@ == output_path@),
{
    if cancelled {
        TaskStatus::Cancelled
    } else {
        TaskStatus::Completed { output_path: string_from_str(output_path) }
    }
}

// ---------------------------------------------------------------------------
// starting a task
// ---------------------------------------------------------------------------

/// How a task is to run.
#[derive(Debug)]
pub enum TaskPlan {
    /// Nothing to do: the task was cancelled.
    Skip,
    /// The URL does not parse: the task fails with `status` and the run with `error`.
    Reject { status: TaskStatus, error: AddonApiError },
    /// Run it (through an addon, or directly), its files going to `output_dir`.
    Run { output_dir: String },
}

/// The plan for a task: skip it if cancelled; reject an unparseable URL;
/// otherwise run it into the task's output directory or the default one.
pub fn plan_task(task: &DownloadTask, token_cancelled: bool, default_dir: &str) -> (plan: TaskPlan)
    ensures
        token_cancelled || task.status is Cancelled ==> plan is Skip,
        !(token_cancelled || task.status is Cancelled) && !spec_url_valid(task.url@) ==> (
        plan matches TaskPlan::Reject { status, error } && (status matches TaskStatus::Failed {
            error: m,
            retries,
        } && retries == 0 && m@ == invalid_url_text(task.url@)) && (error matches AddonApiError::Execution(m) && m@ == invalid_url_text(task.url@))),
        !(token_cancelled || task.status is Cancelled) && spec_url_valid(task.url@) ==> (
        plan matches TaskPlan::Run { output_dir } && output_dir@ == (if task.output_dir@.len() == 0 {
            default_dir@
        } else {
            task.output_dir@
        })),
{
    let cancelled = match task.status {
        TaskStatus::Cancelled => true,
        _ => false,
    };
    if token_cancelled || cancelled {
        return TaskPlan::Skip;
    }
    if !url_is_valid(task.url.as_str()) {
        let mut m = literal("Invalid URL: ");
        string_push_str(&mut m, task.url.as_str());
        proof {
            reveal_strlit("Invalid URL: ");
            assert(m@ =~= invalid_url_text(task.url@));
        }
        let m2 = m.clone();
        return TaskPlan::Reject {
            status: TaskStatus::Failed { error: m, retries: 0 },
            error: AddonApiError::Execution(m2),
        };
    }
    TaskPlan::Run { output_dir: resolve_output_dir(task.output_dir.as_str(), default_dir) }
}

/// The domain a URL's cookies are chosen for: its host name, or the empty
/// text when it has none.
pub open spec fn cookie_domain(url: Seq<char>) -> Seq<char> {
    match spec_url_domain(url) {
        Some(d) => d,
        None => Seq::empty(),
    }
}

/// The `Cookie` header injected into a task's requests, for the URL's
/// domain: that of the account assigned to the task, when it names one (none
/// if the store does not hold it); otherwise that of the account that serves
/// the URL; none without a store or without such an account.
pub fn account_cookies(store: Option<&AccountStore>, account_id: Option<Uid>, url: &str) -> (r: Option<String>)
    requires
        store matches Some(s) ==> s.wf(),
    ensures
        store is None ==> r is None,
        store matches Some(s) ==> (account_id matches Some(a) ==> (s.accounts().dom().contains(a) ==> (r matches Some(
            h,
        ) && exists|now: int|
            0 <= now <= MAX_TIMESTAMP_MICROS && h@ == cookie_header_text(
                s.accounts()[a].cookies,
                cookie_domain(url@),
                now,
            )))),
        store matches Some(s) ==> (account_id matches Some(a) ==> (!s.accounts().dom().contains(a) ==> r is None)),
        store matches Some(s) ==> (account_id is None && spec_url_domain(url@) is None ==> r is None),
        store matches Some(s) ==> (account_id is None ==> (spec_url_domain(url@) matches Some(d)
            ==> match r {
            Some(h) => exists|acc: crate::account::AccountView, now: int|
                serves(s.accounts(), url@, d, acc) && 0 <= now <= MAX_TIMESTAMP_MICROS && h@
                    == cookie_header_text(acc.cookies, d, now),
            None => forall|k: Uid|
                #[trigger] s.accounts().dom().contains(k) ==> !crate::account::patterns_hit(
                    s.accounts()[k],
                    url@,
                    d,
                ) && !crate::account::site_hits(s.accounts()[k], d),
        })),
{
    let s = match store {
        None => {
            return None;
        },
        Some(s) => s,
    };
    let found = match account_id {
        Some(a) => s.get(a),
        None => s.find_for_url(url),
    };
    match found {
        None => None,
        Some(acc) => {
            let domain = match url_domain(url) {
                Some(d) => d,
                None => String::new(),
            };
            assert(domain@ == cookie_domain(url@));
            let h = acc.cookie_header(domain.as_str());
            proof {
                let now = choose|now: int|
                    0 <= now <= MAX_TIMESTAMP_MICROS && h@ == cookie_header_text(
                        acc@.cookies,
                        domain@,
                        now,
                    );
                assert(0 <= now <= MAX_TIMESTAMP_MICROS && h@ == cookie_header_text(
                    acc@.cookies,
                    cookie_domain(url@),
                    now,
                ));
            }
            Some(h)
        },
    }
}

// ---------------------------------------------------------------------------
// downloading the extracted items
// ---------------------------------------------------------------------------

/// What to do next while downloading the items an addon extracted.
#[derive(Debug)]
pub enum ItemStep {
    /// The token was triggered: the task is to be marked cancelled.
    Cancelled,
    /// Show `progress`, then download item `index` to `output_path`: through
    /// the addon's own `download` when `by_addon`, otherwise over HTTP.
    Download { index: usize, progress: TaskProgress, output_path: String, by_addon: bool },
    /// Post-process item `index`, which was just downloaded.
    PostProcess { index: usize },
    /// Every item is downloaded and post-processed: the task is completed
    /// at the output directory.
    Finish,
}

/// Where a run stands in the items an addon extracted: the next item, of
/// how many, whether the item before it still awaits post-processing, and
/// whether the addon downloads items itself.
#[derive(Debug)]
pub struct ItemsRun {
    next: usize,
    count: usize,
    pending: bool,
    by_addon: bool,
}

impl ItemsRun {
    pub closed spec fn next(&self) -> nat {
        self.next as nat
    }

    pub closed spec fn count(&self) -> nat {
        self.count as nat
    }

    pub closed spec fn pending(&self) -> bool {
        self.pending
    }

    pub closed spec fn by_addon(&self) -> bool {
        self.by_addon
    }

    pub open spec fn wf(&self) -> bool {
        &&& self.next() <= self.count()
        &&& self.pending() ==> self.next() >= 1
    }

    /// Start on the extracted items; `by_addon` tells whether the addon
    /// downloads items itself (it overrides `download`). With no items, the
    /// task fails with the status this gives instead.
    pub fn begin(items: &Vec<PyDownloadItem>, by_addon: bool) -> (r: Result<ItemsRun, TaskStatus>)
        ensures
            items@.len() == 0 ==> (r matches Err(TaskStatus::Failed { error, retries }) && retries
                == 0 && error@
                == "Addon extracted 0 items. Try adding a logged-in account in the Accounts tab."@),
            items@.len() > 0 ==> (r matches Ok(run) && run.wf() && run.next() == 0 && run.count()
                == items@.len() && !run.pending() && run.by_addon() == by_addon),
    {
        if items.len() == 0 {
            Err(no_items_status())
        } else {
            Ok(ItemsRun { next: 0, count: items.len(), pending: false, by_addon })
        }
    }

    /// The next step: post-process the item just downloaded; otherwise
    /// finish when no item is left, stop if cancelled, or download the next
    /// item, with its progress (item `i` of the count, both as `u32`) and
    /// where it is saved.
    pub fn next_step(&mut self, items: &Vec<PyDownloadItem>, output_dir: &str, cancelled: bool) -> (step: ItemStep)
        requires
            old(self).wf(),
            items@.len() == old(self).count(),
        ensures
            final(self).wf(),
            final(self).count() == old(self).count(),
            final(self).by_addon() == old(self).by_addon(),
            old(self).pending() ==> (step matches ItemStep::PostProcess { index } && index
                == old(self).next() - 1 && final(self).next() == old(self).next()
                && !final(self).pending()),
            !old(self).pending() && old(self).next() == old(self).count() ==> (step is Finish
                && final(self).next() == old(self).next() && !final(self).pending()),
            !old(self).pending() && old(self).next() < old(self).count() && cancelled ==> (
            step is Cancelled && final(self).next() == old(self).next() && !final(self).pending()),
            !old(self).pending() && old(self).next() < old(self).count() && !cancelled ==> ({
                let i = old(self).next() as int;
                let item = items@[i];
                &&& step matches ItemStep::Download { index, progress, output_path, by_addon }
                &&& index == i
                &&& by_addon == old(self).by_addon()
                &&& progress_with(
                    item_title_text(item.title@),
                    0,
                    0,
                    i as u32,
                    items@.len() as u32,
                    progress,
                )
                &&& output_path@ == (if item.output_path@.len() == 0 {
                    path_join(output_dir@, item.filename@)
                } else {
                    item.output_path@
                })
                &&& final(self).next() == old(self).next() + 1
                &&& final(self).pending()
            }),
    {
        if self.pending {
            self.pending = false;
            return ItemStep::PostProcess { index: self.next - 1 };
        }
        if self.next == self.count {
            return ItemStep::Finish;
        }
        if cancelled {
            return ItemStep::Cancelled;
        }
        let i = self.next;
        self.next = self.next + 1;
        self.pending = true;
        let item = &items[i];
        let total = items.len() as u32;
        ItemStep::Download {
            index: i,
            progress: item_start_progress(i as u32, total, item.title.as_str()),
            output_path: item_output_path(item.output_path.as_str(), output_dir, item.filename.as_str()),
            by_addon: self.by_addon,
        }
    }
}

// ---------------------------------------------------------------------------
// retrying extraction
// ---------------------------------------------------------------------------

/// What to do next in the retry loop of an addon run.
#[derive(Debug)]
pub enum RetryStep {
    /// The token was triggered: the task is to be marked cancelled.
    Cancelled,
    /// Try extraction (and download) once more, after showing `notice`
    /// as progress and waiting `wait_secs` seconds (none for the first try).
    Attempt { attempt: u32, wait_secs: u64, notice: Option<TaskProgress> },
    /// Every try failed: the task is to be marked with `status`.
    GiveUp { status: TaskStatus },
}

/// The retry loop of an addon run: tries 0 to `max_retries`, each after the
/// previous failed, the n-th retry preceded by a pause of 2^(n-1) seconds.
#[derive(Debug)]
pub struct RetryPlan {
    next_attempt: u64,
    max_retries: u32,
    last_error: String,
}

impl RetryPlan {
    pub closed spec fn next_attempt(&self) -> nat {
        self.next_attempt as nat
    }

    pub closed spec fn max_retries(&self) -> nat {
        self.max_retries as nat
    }

    pub closed spec fn last_error(&self) -> Seq<char> {
        self.last_error@
    }

    pub open spec fn wf(&self) -> bool {
        self.next_attempt() <= self.max_retries() + 1
    }

    /// No try made yet, no error recorded.
    pub fn new(max_retries: u32) -> (p: RetryPlan)
        ensures
            p.wf(),
            p.next_attempt() == 0,
            p.max_retries() == max_retries,
            p.last_error().len() == 0,
    {
        RetryPlan { next_attempt: 0, max_retries, last_error: String::new() }
    }

    /// Record the error of the try that just failed.
    pub fn failed(&mut self, error: &str)
        ensures
            final(self).next_attempt() == old(self).next_attempt(),
            final(self).max_retries() == old(self).max_retries(),
            final(self).last_error() == error@,
            final(self).wf() == old(self).wf(),
    {
        self.last_error = string_from_str(error);
    }

    /// The next step: give up once every try has failed; stop if cancelled;
    /// otherwise the next try.
    pub fn next_step(&mut self, cancelled: bool) -> (step: RetryStep)
        requires
            old(self).wf(),
            old(self).next_attempt() <= old(self).max_retries() ==> old(self).next_attempt() <= 64,
        ensures
            final(self).wf(),
            final(self).max_retries() == old(self).max_retries(),
            final(self).last_error() == old(self).last_error(),
            old(self).next_attempt() > old(self).max_retries() ==> (step matches RetryStep::GiveUp {
                status,
            } && (status matches TaskStatus::Failed { error, retries } && error@ == old(
                self,
            ).last_error() && retries == old(self).max_retries()) && final(self).next_attempt()
                == old(self).next_attempt()),
            old(self).next_attempt() <= old(self).max_retries() && cancelled ==> (step is Cancelled
                && final(self).next_attempt() == old(self).next_attempt()),
            old(self).next_attempt() <= old(self).max_retries() && !cancelled ==> (step matches RetryStep::Attempt { attempt, wait_secs, notice } && attempt == old(self).next_attempt()
                && final(self).next_attempt() == old(self).next_attempt() + 1 && (attempt == 0
                ==> wait_secs == 0 && notice is None) && (attempt > 0 ==> wait_secs == pow2(
                (attempt - 1) as nat,
            ) && (notice matches Some(p) && progress_with(
                retry_text(attempt as nat, old(self).max_retries()),
                0,
                0,
                0,
                0,
                p,
            )))),
    {
        if self.next_attempt > self.max_retries as u64 {
            return RetryStep::GiveUp {
                status: TaskStatus::Failed { error: self.last_error.clone(), retries: self.max_retries },
            };
        }
        if cancelled {
            return RetryStep::Cancelled;
        }
        let attempt = self.next_attempt as u32;
        self.next_attempt = self.next_attempt + 1;
        if attempt == 0 {
            return RetryStep::Attempt { attempt, wait_secs: 0, notice: None };
        }
        let wait = pow2_exec(attempt - 1);
        RetryStep::Attempt {
            attempt,
            wait_secs: wait,
            notice: Some(retry_progress(attempt, self.max_retries)),
        }
    }
}

fn pow2_exec(n: u32) -> (r: u64)
    requires
        n < 64,
    ensures
        r == pow2(n as nat),
{
    let mut r: u64 = 1;
    let mut i: u32 = 0;
    proof {
        lemma2_to64();
    }
    while i < n
        invariant
            i <= n < 64,
            r == pow2(i as nat),
        decreases n - i,
    {
        proof {
            lemma_pow2_unfold(i as nat + 1);
            lemma_pow2_strictly_increases(i as nat + 1, 64);
            lemma2_to64();
        }
        r = r * 2;
        i = i + 1;
    }
    r
}

} // verus!
