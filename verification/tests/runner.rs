use deltegic::account::{Account, AccountStore};
use deltegic::addon::AddonApiError;
use deltegic::cookie::{CookieEntry, CookieJar};
use deltegic::runner::{
    account_cookies, direct_bytes_progress, direct_download_filename, finished_status, item_bytes_progress,
    item_output_path, item_start_progress, join_path, no_items_status, plan_task, resolve_output_dir,
    retry_progress, task_not_found, uid_text, ItemStep, ItemsRun, RetryPlan, RetryStep, TaskPlan,
};
use deltegic::addon::PyDownloadItem;
use deltegic::task::{DownloadTask, TaskStatus};

#[test]
fn ids_print_like_uuids() {
    for id in [0u128, 1, u128::MAX, 0x67e5_5044_10b1_426f_9247_bb68_0e5f_e0c8, 0x0123_4567_89ab_cdef_fedc_ba98_7654_3210] {
        assert_eq!(uid_text(id), uuid::Uuid::from_u128(id).to_string());
    }
}

#[test]
fn joins_paths_like_std() {
    for (d, n) in [("/out", "a.mp4"), ("/out/", "a.mp4"), ("", "a.mp4"), ("/out", "/abs/a"), ("rel", "x/y"), ("/", "f")] {
        let expected = std::path::Path::new(d).join(n).to_string_lossy().to_string();
        assert_eq!(join_path(d, n), expected, "{:?} {:?}", d, n);
    }
}

#[test]
fn output_dirs_and_paths() {
    assert_eq!(resolve_output_dir("", "/default"), "/default");
    assert_eq!(resolve_output_dir("/mine", "/default"), "/mine");
    assert_eq!(item_output_path("", "/out", "v.mp4"), "/out/v.mp4");
    assert_eq!(item_output_path("/given/p.mp4", "/out", "v.mp4"), "/given/p.mp4");
}

#[test]
fn direct_filenames() {
    assert_eq!(direct_download_filename("https://host/files/movie.mkv?token=1"), "movie.mkv");
    assert_eq!(direct_download_filename("https://host/files/"), "download");
    assert_eq!(direct_download_filename("https://host/a:b*c.txt"), "a_b_c.txt");
    assert_eq!(direct_download_filename("https://host/?q=1"), "download");
    assert_eq!(direct_download_filename("plain"), "plain");
}

#[test]
fn progress_messages() {
    let p = retry_progress(2, 3);
    assert_eq!(p.message, "Retry 2/3");
    assert_eq!((p.downloaded, p.total, p.speed_bps, p.eta_secs), (0, 0, 0, None));
    let p = item_start_progress(1, 4, "Clip");
    assert_eq!(p.message, "Downloading: Clip");
    assert_eq!((p.subtasks_done, p.subtasks_total), (1, 4));
    let p = item_bytes_progress(1, 4, 100, 200);
    assert_eq!(p.message, "Item 2/4");
    assert_eq!((p.downloaded, p.total), (100, 200));
    let p = direct_bytes_progress(5, 10);
    assert_eq!(p.message, "Downloading...");
    assert_eq!((p.downloaded, p.total, p.subtasks_total), (5, 10, 0));
}

#[test]
fn statuses() {
    assert_eq!(
        no_items_status(),
        TaskStatus::Failed {
            error: "Addon extracted 0 items. Try adding a logged-in account in the Accounts tab.".to_string(),
            retries: 0
        }
    );
    assert_eq!(finished_status(true, "/o"), TaskStatus::Cancelled);
    assert_eq!(finished_status(false, "/o"), TaskStatus::Completed { output_path: "/o".to_string() });
    match task_not_found(0x67e5_5044_10b1_426f_9247_bb68_0e5f_e0c8) {
        AddonApiError::Other(m) => assert_eq!(m, "Task 67e55044-10b1-426f-9247-bb680e5fe0c8 not found"),
        e => panic!("unexpected {:?}", e),
    }
}

#[test]
fn planning_tasks() {
    let t = DownloadTask::new_with(1, "https://example.com/v", "", 0);
    assert!(matches!(plan_task(&t, true, "/d"), TaskPlan::Skip));
    match plan_task(&t, false, "/d") {
        TaskPlan::Run { output_dir } => assert_eq!(output_dir, "/d"),
        p => panic!("unexpected {:?}", p),
    }
    let mut c = DownloadTask::new_with(2, "https://example.com/v", "/own", 0);
    match plan_task(&c, false, "/d") {
        TaskPlan::Run { output_dir } => assert_eq!(output_dir, "/own"),
        p => panic!("unexpected {:?}", p),
    }
    c.status = TaskStatus::Cancelled;
    assert!(matches!(plan_task(&c, false, "/d"), TaskPlan::Skip));
    let bad = DownloadTask::new_with(3, "not a url", "", 0);
    match plan_task(&bad, false, "/d") {
        TaskPlan::Reject { status, error } => {
            assert_eq!(status, TaskStatus::Failed { error: "Invalid URL: not a url".to_string(), retries: 0 });
            assert!(matches!(error, AddonApiError::Execution(m) if m == "Invalid URL: not a url"));
        }
        p => panic!("unexpected {:?}", p),
    }
    assert!(matches!(plan_task(&bad, true, "/d"), TaskPlan::Skip));
}

#[test]
fn cookies_for_a_url() {
    assert!(account_cookies(None, None, "https://example.com/").is_none());
    let mut store = AccountStore::new("p", None);
    assert!(account_cookies(Some(&store), None, "https://example.com/").is_none());
    let mut jar = CookieJar::new();
    jar.set(CookieEntry::new("sid", "1", ".example.com"));
    jar.set(CookieEntry::new("x", "2", "other.com"));
    store.add(Account::new_with(1, "a", "example.com", 0).with_cookies(jar));
    assert_eq!(account_cookies(Some(&store), None, "https://www.example.com/p").as_deref(), Some("sid=1"));
    assert!(account_cookies(Some(&store), None, "https://nothing.org/").is_none());
    assert!(account_cookies(Some(&store), None, "garbage").is_none());
    // the task's own account wins over URL matching
    let mut other = CookieJar::new();
    other.set(CookieEntry::new("tok", "9", "example.com"));
    store.add(Account::new_with(2, "b", "elsewhere.net", 0).with_cookies(other));
    assert_eq!(account_cookies(Some(&store), Some(2), "https://www.example.com/p").as_deref(), Some("tok=9"));
    assert_eq!(account_cookies(Some(&store), Some(1), "https://www.example.com/p").as_deref(), Some("sid=1"));
    assert_eq!(account_cookies(Some(&store), Some(2), "https://nothing.org/").as_deref(), Some(""));
    assert!(account_cookies(Some(&store), Some(7), "https://www.example.com/p").is_none());
}

#[test]
fn retry_schedule() {
    let mut plan = RetryPlan::new(3);
    match plan.next_step(false) {
        RetryStep::Attempt { attempt, wait_secs, notice } => {
            assert_eq!((attempt, wait_secs), (0, 0));
            assert!(notice.is_none());
        }
        s => panic!("unexpected {:?}", s),
    }
    plan.failed("boom 1");
    let mut waits = Vec::new();
    for expected in 1..=3u32 {
        match plan.next_step(false) {
            RetryStep::Attempt { attempt, wait_secs, notice } => {
                assert_eq!(attempt, expected);
                waits.push(wait_secs);
                assert_eq!(notice.unwrap().message, format!("Retry {}/3", expected));
            }
            s => panic!("unexpected {:?}", s),
        }
        plan.failed(&format!("boom {}", expected + 1));
    }
    assert_eq!(waits, vec![1, 2, 4]);
    match plan.next_step(false) {
        RetryStep::GiveUp { status } => {
            assert_eq!(status, TaskStatus::Failed { error: "boom 4".to_string(), retries: 3 })
        }
        s => panic!("unexpected {:?}", s),
    }
}

#[test]
fn retry_stops_when_cancelled() {
    let mut plan = RetryPlan::new(2);
    assert!(matches!(plan.next_step(false), RetryStep::Attempt { attempt: 0, .. }));
    assert!(matches!(plan.next_step(true), RetryStep::Cancelled));
    assert!(matches!(plan.next_step(false), RetryStep::Attempt { attempt: 1, wait_secs: 1, .. }));
    let mut none = RetryPlan::new(0);
    assert!(matches!(none.next_step(false), RetryStep::Attempt { attempt: 0, .. }));
    assert!(matches!(none.next_step(false), RetryStep::GiveUp { .. }));
}

#[test]
fn item_steps() {
    assert_eq!(
        ItemsRun::begin(&vec![], false).unwrap_err(),
        TaskStatus::Failed {
            error: "Addon extracted 0 items. Try adding a logged-in account in the Accounts tab.".to_string(),
            retries: 0
        }
    );
    let items = vec![
        PyDownloadItem::new("https://cdn/a.mp4", "First", "", ""),
        PyDownloadItem::new("https://cdn/b.mp4", "Second", "/elsewhere/b.mp4", ""),
    ];
    let mut run = ItemsRun::begin(&items, false).unwrap();
    match run.next_step(&items, "/out", false) {
        ItemStep::Download { index, progress, output_path, by_addon } => {
            assert_eq!(index, 0);
            assert_eq!(progress.message, "Downloading: First");
            assert_eq!((progress.subtasks_done, progress.subtasks_total), (0, 2));
            assert_eq!(output_path, "/out/a.mp4");
            assert!(!by_addon);
        }
        s => panic!("unexpected {:?}", s),
    }
    assert!(matches!(run.next_step(&items, "/out", true), ItemStep::PostProcess { index: 0 }));
    assert!(matches!(run.next_step(&items, "/out", true), ItemStep::Cancelled));
    match run.next_step(&items, "/out", false) {
        ItemStep::Download { index, output_path, .. } => {
            assert_eq!(index, 1);
            assert_eq!(output_path, "/elsewhere/b.mp4");
        }
        s => panic!("unexpected {:?}", s),
    }
    assert!(matches!(run.next_step(&items, "/out", false), ItemStep::PostProcess { index: 1 }));
    assert!(matches!(run.next_step(&items, "/out", false), ItemStep::Finish));
    assert!(matches!(run.next_step(&items, "/out", true), ItemStep::Finish));
    let mut own = ItemsRun::begin(&items, true).unwrap();
    assert!(matches!(own.next_step(&items, "/o", false), ItemStep::Download { by_addon: true, .. }));
}
