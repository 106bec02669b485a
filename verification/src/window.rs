//! What the main window shows of tasks, accounts, addons and schedule
//! entries: the texts of each row, and the log of a selected task.
use vstd::prelude::*;
use crate::account::Account;
use crate::addon::{site_views, AddonInfo};
use crate::clock::{secs_of, secs_of_instant, Timestamp};
use crate::display::{eta_text, format_eta, format_speed, speed_text};
use crate::runner::{uid_text, uuid_text};
use crate::scheduler::ScheduleEntry;
use crate::task::{DownloadTask, TaskStatus};
use crate::text::{dec, digit_char, join, push_dec, string_from_str, string_push, string_push_str};

verus! {

// ---------------------------------------------------------------------------
// small texts
// ---------------------------------------------------------------------------

/// The name a status is shown under.
pub open spec fn status_name(s: TaskStatus) -> Seq<char> {
    match s {
        TaskStatus::Queued => "queued"@,
        TaskStatus::Processing => "processing"@,
        TaskStatus::Downloading => "downloading"@,
        TaskStatus::PostProcessing => "post_processing"@,
        TaskStatus::Paused => "paused"@,
        TaskStatus::Completed { .. } => "completed"@,
        TaskStatus::Failed { .. } => "failed"@,
        TaskStatus::Cancelled => "cancelled"@,
        TaskStatus::CaptchaRequired { .. } => "captcha_required"@,
    }
}

/// The name a status is shown under.
pub fn status_label(s: &TaskStatus) -> (r: String)
    ensures
        r@ == status_name(*s),
{
    match s {
        TaskStatus::Queued => string_from_str("queued"),
        TaskStatus::Processing => string_from_str("processing"),
        TaskStatus::Downloading => string_from_str("downloading"),
        TaskStatus::PostProcessing => string_from_str("post_processing"),
        TaskStatus::Paused => string_from_str("paused"),
        TaskStatus::Completed { .. } => string_from_str("completed"),
        TaskStatus::Failed { .. } => string_from_str("failed"),
        TaskStatus::Cancelled => string_from_str("cancelled"),
        TaskStatus::CaptchaRequired { .. } => string_from_str("captcha_required"),
    }
}

pub open spec fn dashes() -> Seq<char> {
    seq!['-', '-']
}

/// A remaining time as shown: its text, or `--` when unknown.
pub open spec fn eta_shown(eta: Option<u64>) -> Seq<char> {
    match eta {
        Some(s) => eta_text(s as nat),
        None => dashes(),
    }
}

/// A remaining time as shown.
pub fn eta_label(eta: Option<u64>) -> (r: String)
    ensures
        r@ == eta_shown(eta),
{
    match eta {
        Some(s) => format_eta(s),
        None => {
            let mut r = String::new();
            string_push(&mut r, '-');
            string_push(&mut r, '-');
            r
        },
    }
}

/// A number below 100 written with two digits.
pub open spec fn two_digits(n: int) -> Seq<char> {
    seq![digit_char((n / 10) as nat), digit_char((n % 10) as nat)]
}

/// The UTC time of day of an instant (microseconds since the epoch) as
/// `HH:MM:SS`.
pub open spec fn time_of_day(t: int) -> Seq<char> {
    let d = secs_of(t) % 86400;
    two_digits(d / 3600) + seq![':'] + two_digits(d % 3600 / 60) + seq![':'] + two_digits(d % 60)
}

/// An optional instant as shown: its time of day, or `--`.
pub open spec fn clock_shown(t: Option<Timestamp>) -> Seq<char> {
    match t {
        Some(x) => time_of_day(x as int),
        None => dashes(),
    }
}

fn push_two_digits(s: &mut String, n: u64)
    requires
        n < 100,
    ensures
        final(s)@ == old(s)@ + two_digits(n as int),
{
    let ghost before = s@;
    if n < 10 {
        string_push(s, '0');
        push_dec(s, n);
        assert(s@ =~= before + two_digits(n as int));
    } else {
        push_dec(s, n);
        assert(dec(n as nat) == dec((n / 10) as nat).push(digit_char((n % 10) as nat)));
        assert(dec((n / 10) as nat) == seq![digit_char((n / 10) as nat)]);
        assert(s@ =~= before + two_digits(n as int));
    }
}

/// An optional instant as shown.
pub fn clock_label(t: Option<Timestamp>) -> (r: String)
    ensures
        r@ == clock_shown(t),
{
    match t {
        None => {
            let mut r = String::new();
            string_push(&mut r, '-');
            string_push(&mut r, '-');
            r
        },
        Some(x) => {
            let s = secs_of_instant(x);
            let shifted: i128 = s as i128 + 9_244_800_000_000_000i128;
            assert(shifted >= 0) by {
                assert(x >= i64::MIN);
                assert(secs_of(x as int) >= -9_223_372_036_855) by (nonlinear_arith)
                    requires
                        x >= -9223372036854775808i64,
                ;
            }
            let u: u64 = shifted as u64;
            let d: u64 = u % 86400;
            assert(d as int == secs_of(x as int) % 86400) by (nonlinear_arith)
                requires
                    u as int == s as int + 9_244_800_000_000_000,
                    s as int == secs_of(x as int),
                    d == u % 86400,
            ;
            let mut r = String::new();
            push_two_digits(&mut r, d / 3600);
            string_push(&mut r, ':');
            push_two_digits(&mut r, d % 3600 / 60);
            string_push(&mut r, ':');
            push_two_digits(&mut r, d % 60);
            assert(r@ =~= time_of_day(x as int));
            r
        },
    }
}

// ---------------------------------------------------------------------------
// rows
// ---------------------------------------------------------------------------

/// What the task list shows of a task (its percentage is left to the caller).
#[derive(Debug)]
pub struct TaskRow {
    pub id: String,
    pub title: String,
    pub url: String,
    pub status: String,
    pub speed: String,
    pub eta: String,
    pub addon_name: String,
    pub message: String,
    pub error: String,
}

/// The row of a task.
pub fn task_row(t: &DownloadTask) -> (r: TaskRow)
    ensures
        r.id@ == uuid_text(t.id),
        r.title@ == (match t.title {
            Some(x) => x@,
            None => Seq::<char>::empty(),
        }),
        r.url@ == t.url@,
        r.status@ == status_name(t.status),
        r.speed@ == speed_text(t.progress.speed_bps as nat),
        r.eta@ == eta_shown(t.progress.eta_secs),
        r.addon_name@ == (match t.addon {
            Some(a) => a.name@,
            None => Seq::<char>::empty(),
        }),
        r.message@ == t.progress.message@,
        r.error@ == (match t.status {
            TaskStatus::Failed { error, .. } => error@,
            _ => Seq::<char>::empty(),
        }),
{
    TaskRow {
        id: uid_text(t.id),
        title: match &t.title {
            Some(x) => x.clone(),
            None => String::new(),
        },
        url: t.url.clone(),
        status: status_label(&t.status),
        speed: format_speed(t.progress.speed_bps),
        eta: eta_label(t.progress.eta_secs),
        addon_name: match &t.addon {
            Some(a) => a.name.clone(),
            None => String::new(),
        },
        message: t.progress.message.clone(),
        error: match &t.status {
            TaskStatus::Failed { error, .. } => error.clone(),
            _ => String::new(),
        },
    }
}

/// What the accounts list shows of an account.
#[derive(Debug)]
pub struct AccountRow {
    pub id: String,
    pub label: String,
    pub site: String,
    pub username: String,
    pub cookie_count: usize,
}

/// The row of an account.
pub fn account_row(a: &Account) -> (r: AccountRow)
    ensures
        r.id@ == uuid_text(a.id),
        r.label@ == a.label@,
        r.site@ == a.site@,
        r.username@ == (match a.username {
            Some(u) => u@,
            None => Seq::<char>::empty(),
        }),
        r.cookie_count == a.cookies@.len(),
{
    AccountRow {
        id: uid_text(a.id),
        label: a.label.clone(),
        site: a.site.clone(),
        username: match &a.username {
            Some(u) => u.clone(),
            None => String::new(),
        },
        cookie_count: a.cookies.count(),
    }
}

/// What the addons list shows of an addon.
#[derive(Debug)]
pub struct AddonRow {
    pub name: String,
    pub version: String,
    pub description: String,
    pub author: String,
    pub enabled: bool,
    pub sites: String,
}

/// Texts joined with `, ` between them.
pub fn join_comma(parts: &Vec<String>) -> (r: String)
    ensures
        r@ == join(site_views(parts@), seq![',', ' ']),
{
    let ghost v = site_views(parts@);
    let mut r = String::new();
    let mut i: usize = 0;
    while i < parts.len()
        invariant
            i <= parts@.len(),
            v == site_views(parts@),
            r@ == join(v.subrange(0, i as int), seq![',', ' ']),
        decreases parts@.len() - i,
    {
        let ghost pre = v.subrange(0, i as int);
        assert(v.subrange(0, i + 1) == pre.push(v[i as int]));
        assert(v[i as int] == parts@[i as int]@);
        if i > 0 {
            string_push(&mut r, ',');
            string_push(&mut r, ' ');
            string_push_str(&mut r, parts[i].as_str());
            proof {
                crate::text::lemma_join_push(pre, v[i as int], seq![',', ' ']);
                assert(r@ =~= join(pre, seq![',', ' ']) + seq![',', ' '] + v[i as int]);
            }
        } else {
            string_push_str(&mut r, parts[i].as_str());
            proof {
                assert(pre.push(v[0]).len() == 1);
                assert(r@ =~= v[0]);
            }
        }
        i = i + 1;
    }
    assert(v.subrange(0, parts@.len() as int) == v);
    r
}

/// The row of an addon.
pub fn addon_row(a: &AddonInfo) -> (r: AddonRow)
    ensures
        r.name@ == a.name@,
        r.version@ == a.version@,
        r.description@ == a.description@,
        r.author@ == a.author@,
        r.enabled == a.enabled,
        r.sites@ == join(site_views(a.supported_sites@), seq![',', ' ']),
{
    AddonRow {
        name: a.name.clone(),
        version: a.version.clone(),
        description: a.description.clone(),
        author: a.author.clone(),
        enabled: a.enabled,
        sites: join_comma(&a.supported_sites),
    }
}

/// What the scheduler list shows of an entry, but for its trigger and
/// action, which are shown in their debug form.
#[derive(Debug)]
pub struct ScheduleRow {
    pub id: String,
    pub name: String,
    pub enabled: bool,
    pub last_run: String,
    pub next_run: String,
    pub run_count: u64,
}

/// The row of a schedule entry.
pub fn schedule_row(e: &ScheduleEntry) -> (r: ScheduleRow)
    ensures
        r.id@ == uuid_text(e.id),
        r.name@ == e.name@,
        r.enabled == e.enabled,
        r.last_run@ == clock_shown(e.last_run),
        r.next_run@ == clock_shown(e.next_run),
        r.run_count == e.run_count,
{
    ScheduleRow {
        id: uid_text(e.id),
        name: e.name.clone(),
        enabled: e.enabled,
        last_run: clock_label(e.last_run),
        next_run: clock_label(e.next_run),
        run_count: e.run_count,
    }
}

// ---------------------------------------------------------------------------
// the log of a selected task
// ---------------------------------------------------------------------------

/// The status line of a task's log; `debug` is the status in its debug form,
/// used for the statuses that have no line of their own.
pub open spec fn status_line(s: TaskStatus, debug: Seq<char>) -> Seq<char> {
    match s {
        TaskStatus::Downloading => "Status: Downloading..."@,
        TaskStatus::Completed { output_path } => "Status: Completed \u{2192} "@ + output_path@,
        TaskStatus::Failed { error, retries } => "Status: FAILED \u{2014} "@ + error@ + " ("@ + dec(
            retries as nat,
        ) + " retries)"@,
        TaskStatus::Paused => "Status: Paused"@,
        TaskStatus::Cancelled => "Status: Cancelled"@,
        _ => "Status: "@ + debug,
    }
}

/// The log of a task: its URL; its addon, if any; its progress message, if
/// any; the bytes downloaded of the total; its status. One line each,
/// joined by newlines.
pub open spec fn task_log_text(t: DownloadTask, debug: Seq<char>) -> Seq<char> {
    "URL: "@ + t.url@ + addon_part(t) + info_part(t) + "\nDownloaded: "@ + dec(t.progress.downloaded as nat)
        + " / "@ + dec(t.progress.total as nat) + seq!['\n'] + status_line(t.status, debug)
}

/// The addon line of a task's log, with the newline before it, if it has an addon.
pub open spec fn addon_part(t: DownloadTask) -> Seq<char> {
    match t.addon {
        Some(a) => "\nAddon: "@ + a.name@ + " v"@ + a.version@,
        None => Seq::<char>::empty(),
    }
}

/// The progress message line of a task's log, with the newline before it,
/// if the message is not empty.
pub open spec fn info_part(t: DownloadTask) -> Seq<char> {
    if t.progress.message@.len() > 0 {
        "\nInfo: "@ + t.progress.message@
    } else {
        Seq::<char>::empty()
    }
}

fn push_literal(s: &mut String, lit: &str)
    ensures
        final(s)@ == old(s)@ + lit@,
{
    string_push_str(s, lit);
}

fn push_status_line(s: &mut String, st: &TaskStatus, debug: &str)
    ensures
        final(s)@ == old(s)@ + status_line(*st, debug@),
{
    let ghost before = s@;
    match st {
        TaskStatus::Downloading => {
            push_literal(s, "Status: Downloading...");
        },
        TaskStatus::Completed { output_path } => {
            push_literal(s, "Status: Completed \u{2192} ");
            string_push_str(s, output_path.as_str());
            assert(s@ =~= before + status_line(*st, debug@));
        },
        TaskStatus::Failed { error, retries } => {
            push_literal(s, "Status: FAILED \u{2014} ");
            string_push_str(s, error.as_str());
            push_literal(s, " (");
            push_dec(s, *retries as u64);
            push_literal(s, " retries)");
            assert(s@ =~= before + status_line(*st, debug@));
        },
        TaskStatus::Paused => {
            push_literal(s, "Status: Paused");
        },
        TaskStatus::Cancelled => {
            push_literal(s, "Status: Cancelled");
        },
        _ => {
            push_literal(s, "Status: ");
            string_push_str(s, debug);
            assert(s@ =~= before + status_line(*st, debug@));
        },
    }
}

/// The log shown for a selected task; `status_debug` is its status in debug form.
pub fn task_log(t: &DownloadTask, status_debug: &str) -> (r: String)
    ensures
        r@ == task_log_text(*t, status_debug@),
{
    let mut r = String::new();
    push_literal(&mut r, "URL: ");
    string_push_str(&mut r, t.url.as_str());
    let ghost after_url = r@;
    match &t.addon {
        Some(a) => {
            push_literal(&mut r, "\nAddon: ");
            string_push_str(&mut r, a.name.as_str());
            push_literal(&mut r, " v");
            string_push_str(&mut r, a.version.as_str());
        },
        None => {},
    }
    let ghost after_addon = r@;
    if !t.progress.message.as_str().is_empty() {
        push_literal(&mut r, "\nInfo: ");
        string_push_str(&mut r, t.progress.message.as_str());
    }
    let ghost after_info = r@;
    push_literal(&mut r, "\nDownloaded: ");
    push_dec(&mut r, t.progress.downloaded);
    push_literal(&mut r, " / ");
    push_dec(&mut r, t.progress.total);
    string_push(&mut r, '\n');
    push_status_line(&mut r, &t.status, status_debug);
    proof {
        assert(after_addon =~= "URL: "@ + t.url@ + addon_part(*t));
        assert(after_info =~= "URL: "@ + t.url@ + addon_part(*t) + info_part(*t));
        assert(r@ =~= task_log_text(*t, status_debug@));
    }
    r
}

} // verus!
