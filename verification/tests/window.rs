use deltegic::account::Account;
use deltegic::addon::AddonInfo;
use deltegic::cookie::{CookieEntry, CookieJar};
use deltegic::scheduler::{ScheduleEntry, ScheduledAction, TriggerSpec};
use deltegic::task::{AddonMeta, DownloadTask, TaskStatus};
use deltegic::window::{
    account_row, addon_row, clock_label, eta_label, join_comma, schedule_row, status_label, task_log, task_row,
};

#[test]
fn status_labels() {
    assert_eq!(status_label(&TaskStatus::Queued), "queued");
    assert_eq!(status_label(&TaskStatus::PostProcessing), "post_processing");
    assert_eq!(status_label(&TaskStatus::CaptchaRequired { url: "u".to_string() }), "captcha_required");
    assert_eq!(status_label(&TaskStatus::Failed { error: String::new(), retries: 0 }), "failed");
}

#[test]
fn eta_and_clock_labels() {
    assert_eq!(eta_label(None), "--");
    assert_eq!(eta_label(Some(125)), "2m 5s");
    assert_eq!(clock_label(None), "--");
    assert_eq!(clock_label(Some(0)), "00:00:00");
    assert_eq!(clock_label(Some((13 * 3600 + 4 * 60 + 9) * 1_000_000 + 999_999)), "13:04:09");
    assert_eq!(clock_label(Some(-1)), "23:59:59");
    for t in [1_700_000_000_123_456i64, -86_400_000_001, 9_000_000_000_000_000, i64::MIN, i64::MAX] {
        let expected = chrono::DateTime::from_timestamp_micros(t).map(|d| d.format("%H:%M:%S").to_string());
        if let Some(e) = expected {
            assert_eq!(clock_label(Some(t)), e, "instant {}", t);
        }
    }
}

#[test]
fn task_rows() {
    let mut t = DownloadTask::new_with(0x67e5_5044_10b1_426f_9247_bb68_0e5f_e0c8, "https://u", "", 0);
    t.progress.speed_bps = 2048;
    t.status = TaskStatus::Failed { error: "boom".to_string(), retries: 2 };
    t.addon = Some(AddonMeta { name: "yt".to_string(), version: "1".to_string(), addon_path: String::new() });
    let r = task_row(&t);
    assert_eq!(r.id, "67e55044-10b1-426f-9247-bb680e5fe0c8");
    assert_eq!(r.title, "");
    assert_eq!(r.url, "https://u");
    assert_eq!(r.status, "failed");
    assert_eq!(r.speed, "2.0 KB/s");
    assert_eq!(r.eta, "--");
    assert_eq!(r.addon_name, "yt");
    assert_eq!(r.error, "boom");
}

#[test]
fn other_rows() {
    let mut jar = CookieJar::new();
    jar.set(CookieEntry::new("a", "1", "x.com"));
    jar.set(CookieEntry::new("b", "2", "x.com"));
    let a = Account::new_with(1, "L", "x.com", 0).with_cookies(jar);
    let r = account_row(&a);
    assert_eq!(r.id, "00000000-0000-0000-0000-000000000001");
    assert_eq!((r.label.as_str(), r.site.as_str(), r.username.as_str(), r.cookie_count), ("L", "x.com", "", 2));
    let info = AddonInfo {
        name: "n".to_string(),
        version: "v".to_string(),
        description: "d".to_string(),
        author: "a".to_string(),
        supported_sites: vec!["a.com".to_string(), "b.com".to_string()],
        path: String::new(),
        enabled: false,
    };
    let r = addon_row(&info);
    assert_eq!(r.sites, "a.com, b.com");
    assert!(!r.enabled);
    assert_eq!(join_comma(&vec![]), "");
    assert_eq!(join_comma(&vec!["x".to_string()]), "x");
    let e = ScheduleEntry::new_with(
        2,
        "s",
        TriggerSpec::Interval { seconds: 60 },
        ScheduledAction::Cleanup { directory: String::new(), older_than_days: 1, pattern: String::new() },
        3_600_000_000,
    );
    let r = schedule_row(&e);
    assert_eq!((r.name.as_str(), r.last_run.as_str(), r.next_run.as_str(), r.run_count), ("s", "--", "01:01:00", 0));
}

#[test]
fn task_logs() {
    let mut t = DownloadTask::new_with(1, "https://u", "", 0);
    t.progress.downloaded = 5;
    t.progress.total = 10;
    assert_eq!(task_log(&t, "Queued"), "URL: https://u\nDownloaded: 5 / 10\nStatus: Queued");
    t.addon = Some(AddonMeta { name: "yt".to_string(), version: "2.1".to_string(), addon_path: String::new() });
    t.progress.message = "half".to_string();
    t.status = TaskStatus::Failed { error: "bad".to_string(), retries: 3 };
    assert_eq!(
        task_log(&t, "ignored"),
        "URL: https://u\nAddon: yt v2.1\nInfo: half\nDownloaded: 5 / 10\nStatus: FAILED \u{2014} bad (3 retries)"
    );
    t.status = TaskStatus::Completed { output_path: "/o".to_string() };
    assert!(task_log(&t, "").ends_with("Status: Completed \u{2192} /o"));
    t.status = TaskStatus::Downloading;
    assert!(task_log(&t, "").ends_with("Status: Downloading..."));
}
