use deltegic::queue::{DownloadQueue, NexDLError, QueueStats, TokenAction};
use deltegic::task::{DownloadTask, TaskEvent, TaskPriority, TaskProgress, TaskStatus};

fn task(id: u128, url: &str, now: i64) -> DownloadTask {
    DownloadTask::new_with(id, url, "/tmp/out", now)
}

#[test]
fn new_queue_is_empty() {
    let q = DownloadQueue::new(3);
    assert_eq!(q.work_capacity(), 12);
    assert!(q.list().is_empty());
    assert_eq!(q.stats(), QueueStats { total: 0, queued: 0, active: 0, completed: 0, failed: 0, paused: 0, cancelled: 0, captcha_required: 0 });
    assert_eq!(q.total_speed(), 0);
}

#[test]
fn enqueue_then_get() {
    let mut q = DownloadQueue::new(1);
    let id = q.enqueue(task(7, "https://a.example/x", 100)).unwrap();
    assert_eq!(id, 7);
    let t = q.get(7).unwrap();
    assert_eq!(t.url, "https://a.example/x");
    assert_eq!(t.status, TaskStatus::Queued);
    assert!(q.get(8).is_none());
    assert_eq!(q.take_work(), vec![7]);
    assert!(q.take_work().is_empty());
    let events = q.take_events();
    assert_eq!(events.len(), 1);
    assert!(matches!(&events[0], TaskEvent::Added { task } if task.id == 7));
}

#[test]
fn enqueue_replaces_same_id() {
    let mut q = DownloadQueue::new(1);
    q.enqueue(task(1, "https://first", 1)).unwrap();
    q.enqueue(task(1, "https://second", 2)).unwrap();
    assert_eq!(q.list().len(), 1);
    assert_eq!(q.get(1).unwrap().url, "https://second");
    assert_eq!(q.take_work(), vec![1, 1]);
}

#[test]
fn list_orders_by_priority_then_age() {
    let mut q = DownloadQueue::new(2);
    q.enqueue(task(1, "a", 30)).unwrap();
    q.enqueue(task(2, "b", 10).with_priority(TaskPriority::High)).unwrap();
    q.enqueue(task(3, "c", 20)).unwrap();
    q.enqueue(task(4, "d", 40).with_priority(TaskPriority::Critical)).unwrap();
    q.enqueue(task(5, "e", 5).with_priority(TaskPriority::Low)).unwrap();
    let ids: Vec<u128> = q.list().iter().map(|t| t.id).collect();
    assert_eq!(ids, vec![4, 2, 3, 1, 5]);
}

#[test]
fn status_updates_set_timestamps() {
    let mut q = DownloadQueue::new(1);
    q.enqueue(task(1, "u", 100)).unwrap();
    q.update_status_at(1, TaskStatus::Downloading, 200).unwrap();
    let t = q.get(1).unwrap();
    assert_eq!(t.started_at, Some(200));
    assert_eq!(t.updated_at, 200);
    assert!(t.finished_at.is_none());
    q.update_status_at(1, TaskStatus::Processing, 250).unwrap();
    assert_eq!(q.get(1).unwrap().started_at, Some(200));
    q.update_status_at(1, TaskStatus::Completed { output_path: "/o".to_string() }, 300).unwrap();
    let t = q.get(1).unwrap();
    assert_eq!(t.finished_at, Some(300));
    assert_eq!(t.status, TaskStatus::Completed { output_path: "/o".to_string() });
    assert!(matches!(q.update_status_at(9, TaskStatus::Queued, 1), Err(NexDLError::TaskNotFound(9))));
}

#[test]
fn progress_updates() {
    let mut q = DownloadQueue::new(1);
    q.enqueue(task(1, "u", 100)).unwrap();
    q.enqueue(task(2, "v", 100)).unwrap();
    let mut p = TaskProgress::default();
    p.downloaded = 10;
    p.speed_bps = 500;
    q.update_progress_at(1, p.clone(), 150).unwrap();
    assert_eq!(q.get(1).unwrap().progress.downloaded, 10);
    assert_eq!(q.get(1).unwrap().updated_at, 150);
    assert_eq!(q.total_speed(), 0);
    q.update_status_at(1, TaskStatus::Downloading, 160).unwrap();
    let mut p2 = TaskProgress::default();
    p2.speed_bps = 250;
    q.update_progress_at(2, p2, 170).unwrap();
    q.update_status_at(2, TaskStatus::Downloading, 180).unwrap();
    assert_eq!(q.total_speed(), 750);
    q.update_status_at(1, TaskStatus::Processing, 190).unwrap();
    q.update_status_at(2, TaskStatus::PostProcessing, 190).unwrap();
    assert_eq!(q.total_speed(), 750);
    q.update_status_at(2, TaskStatus::Paused, 200).unwrap();
    assert_eq!(q.total_speed(), 500);
    assert!(matches!(q.update_progress_at(3, p, 1), Err(NexDLError::TaskNotFound(3))));
}

#[test]
fn tokens_pause_resume_cancel() {
    let mut q = DownloadQueue::new(1);
    q.enqueue(task(1, "u", 100)).unwrap();
    q.take_work();
    assert!(!q.is_cancelled(1));
    assert!(!q.get_cancel_token(1));
    assert_eq!(q.take_token_actions(), vec![TokenAction::Fresh(1)]);
    assert!(!q.get_cancel_token(1));
    assert!(q.take_token_actions().is_empty());

    q.pause(1).unwrap();
    assert!(q.is_cancelled(1));
    assert_eq!(q.get(1).unwrap().status, TaskStatus::Paused);
    assert_eq!(q.take_token_actions(), vec![TokenAction::Cancel(1)]);

    q.resume(1).unwrap();
    assert!(!q.is_cancelled(1));
    assert_eq!(q.get(1).unwrap().status, TaskStatus::Queued);
    assert_eq!(q.take_token_actions(), vec![TokenAction::Fresh(1)]);
    assert_eq!(q.take_work(), vec![1]);

    q.resume(1).unwrap();
    assert!(q.take_work().is_empty());

    q.cancel(1).unwrap();
    assert_eq!(q.get(1).unwrap().status, TaskStatus::Cancelled);
    assert!(!q.is_cancelled(1));
    assert_eq!(q.take_token_actions(), vec![TokenAction::Cancel(1), TokenAction::Forget(1)]);
}

#[test]
fn unknown_ids() {
    let mut q = DownloadQueue::new(1);
    assert!(matches!(q.pause(5), Err(NexDLError::TaskNotFound(5))));
    assert!(matches!(q.cancel(5), Err(NexDLError::TaskNotFound(5))));
    assert!(matches!(q.resume(5), Err(NexDLError::TaskNotFound(5))));
    assert!(matches!(q.remove(5), Err(NexDLError::TaskNotFound(5))));
    assert!(q.take_events().is_empty());
}

#[test]
fn remove_then_get() {
    let mut q = DownloadQueue::new(1);
    q.enqueue(task(1, "u", 100)).unwrap();
    q.enqueue(task(2, "v", 100)).unwrap();
    q.get_cancel_token(1);
    q.take_token_actions();
    q.take_events();
    q.remove(1).unwrap();
    assert!(q.get(1).is_none());
    assert_eq!(q.get(2).unwrap().url, "v");
    assert_eq!(q.take_token_actions(), vec![TokenAction::Forget(1)]);
    let ev = q.take_events();
    assert!(matches!(ev[0], TaskEvent::Removed { id: 1 }));
    assert!(matches!(q.remove(1), Err(NexDLError::TaskNotFound(1))));
}

#[test]
fn stats_count_each_status_once() {
    let mut q = DownloadQueue::new(1);
    for i in 1..=8u128 {
        q.enqueue(task(i, "u", i as i64)).unwrap();
    }
    q.update_status_at(2, TaskStatus::Downloading, 1).unwrap();
    q.update_status_at(3, TaskStatus::Processing, 1).unwrap();
    q.update_status_at(4, TaskStatus::Completed { output_path: String::new() }, 1).unwrap();
    q.update_status_at(5, TaskStatus::Failed { error: "x".to_string(), retries: 1 }, 1).unwrap();
    q.update_status_at(6, TaskStatus::Paused, 1).unwrap();
    q.update_status_at(7, TaskStatus::Cancelled, 1).unwrap();
    q.update_status_at(8, TaskStatus::CaptchaRequired { url: "c".to_string() }, 1).unwrap();
    let s = q.stats();
    assert_eq!(s, QueueStats { total: 8, queued: 1, active: 2, completed: 1, failed: 1, paused: 1, cancelled: 1, captcha_required: 1 });
    assert_eq!(s.queued + s.active + s.completed + s.failed + s.paused + s.cancelled + s.captcha_required, s.total);
}

#[test]
fn wall_clock_updates() {
    let mut q = DownloadQueue::new(1);
    q.enqueue(task(1, "u", 0)).unwrap();
    q.update_status(1, TaskStatus::Downloading).unwrap();
    let t = q.get(1).unwrap();
    assert!(t.started_at.unwrap() > 0);
    q.update_progress(1, TaskProgress::default()).unwrap();
    assert!(q.get(1).unwrap().updated_at >= t.updated_at);
}

#[test]
fn task_builders() {
    let t = task(1, "u", 5)
        .with_account(9)
        .with_tag("music")
        .with_tag("live")
        .with_option("quality", serde_json::Value::String("720p".to_string()))
        .with_option("subs", serde_json::Value::Bool(true))
        .with_option("quality", serde_json::Value::String("1080p".to_string()));
    assert_eq!(t.account_id, Some(9));
    assert_eq!(t.tags, vec!["music".to_string(), "live".to_string()]);
    assert_eq!(t.options.len(), 2);
    assert_eq!(t.options[0].0, "quality");
    assert_eq!(t.options[0].1, serde_json::Value::String("1080p".to_string()));
    assert_eq!(t.options[1].1, serde_json::Value::Bool(true));
    assert_eq!(t.max_retries, 3);
    assert_eq!(t.priority, TaskPriority::Normal);
    assert_eq!(TaskPriority::default(), TaskPriority::Normal);
}

#[test]
fn status_classes() {
    let all = vec![
        TaskStatus::Queued,
        TaskStatus::Processing,
        TaskStatus::Downloading,
        TaskStatus::PostProcessing,
        TaskStatus::CaptchaRequired { url: String::new() },
        TaskStatus::Paused,
        TaskStatus::Completed { output_path: String::new() },
        TaskStatus::Failed { error: String::new(), retries: 0 },
        TaskStatus::Cancelled,
    ];
    let terminal: Vec<bool> = all.iter().map(|s| s.is_terminal()).collect();
    let active: Vec<bool> = all.iter().map(|s| s.is_active()).collect();
    assert_eq!(terminal, vec![false, false, false, false, false, false, true, true, true]);
    assert_eq!(active, vec![false, true, true, true, false, false, false, false, false]);
    assert!(all.iter().all(|s| !(s.is_terminal() && s.is_active())));
    assert_eq!(TaskPriority::Low.rank(), 0);
    assert!(TaskPriority::Critical > TaskPriority::High);
}

#[test]
fn fresh_ids_are_random_version_four() {
    let a = DownloadTask::new("https://a", "/o");
    let b = DownloadTask::new("https://b", "/o");
    assert_ne!(a.id, b.id);
    for id in [a.id, b.id] {
        let u = uuid::Uuid::from_u128(id);
        assert_eq!(u.get_version_num(), 4);
        assert_eq!(u.get_variant(), uuid::Variant::RFC4122);
    }
    assert!(a.created_at > 1_600_000_000_000_000);
    assert_eq!(a.created_at, a.updated_at);
}
