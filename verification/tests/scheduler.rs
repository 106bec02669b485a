use deltegic::scheduler::{compute_next, next_fits_exec, ScheduleEntry, ScheduledAction, Scheduler, TriggerSpec};

const SEC: i64 = 1_000_000;

fn cleanup() -> ScheduledAction {
    ScheduledAction::Cleanup { directory: "/tmp".to_string(), older_than_days: 7, pattern: "*.part".to_string() }
}

#[test]
fn next_run_of_each_trigger() {
    let now = 1_000 * SEC;
    assert_eq!(compute_next(&TriggerSpec::Once { at: now + 5 }, None, now), Some(now + 5));
    assert_eq!(compute_next(&TriggerSpec::Once { at: now }, None, now), None);
    assert_eq!(compute_next(&TriggerSpec::Interval { seconds: 30 }, None, now), Some(now + 30 * SEC));
    assert_eq!(compute_next(&TriggerSpec::Interval { seconds: 30 }, Some(now - 10 * SEC), now), Some(now + 20 * SEC));
    assert_eq!(compute_next(&TriggerSpec::Cron { expression: "* * * * *".to_string() }, None, now), Some(1_020 * SEC));
    assert_eq!(compute_next(&TriggerSpec::Cron { expression: "* * * *".to_string() }, None, now), None);
    assert_eq!(compute_next(&TriggerSpec::OnStartup, None, now), None);
}

#[test]
fn next_run_must_be_representable() {
    let now = 1_000 * SEC;
    assert!(!next_fits_exec(&TriggerSpec::Interval { seconds: u64::MAX / 2 }, None, now));
    assert!(next_fits_exec(&TriggerSpec::Interval { seconds: 60 }, None, now));
    // past i64::MAX seconds the interval wraps to a negative one, as `as i64` does
    assert!(next_fits_exec(&TriggerSpec::Interval { seconds: u64::MAX }, None, now));
    assert_eq!(compute_next(&TriggerSpec::Interval { seconds: u64::MAX }, None, now), Some(now - SEC));
    let last = 8_210_266_876_799 * SEC;
    assert!(next_fits_exec(&TriggerSpec::Cron { expression: String::new() }, None, last));
    // no minute after the latest representable one
    assert_eq!(compute_next(&TriggerSpec::Cron { expression: "* * * * *".to_string() }, None, last), None);
    assert!(next_fits_exec(&TriggerSpec::Once { at: 0 }, None, last));
    assert!(next_fits_exec(&TriggerSpec::OnStartup, Some(last), last));
    assert!(!next_fits_exec(&TriggerSpec::Interval { seconds: 1 }, Some(last), last));
}

#[test]
fn new_entries() {
    let e = ScheduleEntry::new_with(42, "nightly", TriggerSpec::Interval { seconds: 3600 }, cleanup(), 5 * SEC);
    assert_eq!(e.id, 42);
    assert_eq!(e.name, "nightly");
    assert_eq!(e.description, "");
    assert!(e.enabled);
    assert_eq!(e.last_run, None);
    assert_eq!(e.next_run, Some(5 * SEC + 3600 * SEC));
    assert_eq!(e.run_count, 0);
    assert_eq!(e.created_at, 5 * SEC);
    let w = ScheduleEntry::new("startup", TriggerSpec::OnStartup, cleanup()).unwrap();
    assert!(w.next_run.is_none());
    assert!(w.created_at > 0);
    let i = ScheduleEntry::new("every minute", TriggerSpec::Interval { seconds: 60 }, cleanup()).unwrap();
    assert_eq!(i.next_run, Some(i.created_at + 60 * SEC));
    assert!(ScheduleEntry::new("never", TriggerSpec::Interval { seconds: u64::MAX / 2 }, cleanup()).is_none());
}

#[test]
fn advance_and_due() {
    let mut e = ScheduleEntry::new_with(1, "e", TriggerSpec::Interval { seconds: 10 }, cleanup(), 0);
    assert!(!e.is_due_at(9 * SEC));
    assert!(e.is_due_at(10 * SEC));
    e.advance_at(12 * SEC);
    assert_eq!(e.last_run, Some(12 * SEC));
    assert_eq!(e.run_count, 1);
    assert_eq!(e.next_run, Some(22 * SEC));
    e.enabled = false;
    assert!(!e.is_due_at(100 * SEC));
    let mut once = ScheduleEntry::new_with(2, "o", TriggerSpec::Once { at: 50 }, cleanup(), 0);
    assert!(once.is_due_at(50));
    once.advance_at(50);
    assert_eq!(once.next_run, None);
    assert!(!once.is_due_at(i64::MAX));
    assert!(once.is_due() == false);
    let mut cron = ScheduleEntry::new_with(3, "c", TriggerSpec::Cron { expression: "* * * * *".to_string() }, cleanup(), 0);
    assert!(cron.advance());
    assert_eq!(cron.run_count, 1);
    let minute = 60 * SEC;
    assert_eq!(cron.next_run, Some((cron.last_run.unwrap() / minute + 1) * minute));
    let mut huge = ScheduleEntry::new_with(4, "h", TriggerSpec::Interval { seconds: 8_209_000_000_000 }, cleanup(), 0);
    assert!(!huge.advance());
    assert_eq!(huge.run_count, 0);
    assert!(huge.last_run.is_none());
}

#[test]
fn scheduler_add_remove_enable() {
    let mut s = Scheduler::new();
    let a = s.add(ScheduleEntry::new_with(1, "a", TriggerSpec::Interval { seconds: 10 }, cleanup(), 0));
    let b = s.add(ScheduleEntry::new_with(2, "b", TriggerSpec::OnStartup, cleanup(), 0));
    assert_eq!((a, b), (1, 2));
    assert_eq!(s.list().len(), 2);
    s.add(ScheduleEntry::new_with(1, "a2", TriggerSpec::Interval { seconds: 10 }, cleanup(), 0));
    let mut names: Vec<String> = s.list().iter().map(|e| e.name.clone()).collect();
    names.sort();
    assert_eq!(names, vec!["a2", "b"]);
    s.enable(1, false);
    let listed = s.list();
    assert!(!listed.iter().find(|e| e.id == 1).unwrap().enabled);
    assert!(listed.iter().find(|e| e.id == 2).unwrap().enabled);
    s.enable(99, false);
    let removed = s.remove(2).unwrap();
    assert_eq!(removed.name, "b");
    assert!(s.remove(2).is_none());
    assert_eq!(s.list().len(), 1);
}

#[test]
fn tick_fires_due_entries() {
    let mut s = Scheduler::new();
    s.add(ScheduleEntry::new_with(1, "fast", TriggerSpec::Interval { seconds: 10 }, cleanup(), 0));
    s.add(ScheduleEntry::new_with(2, "slow", TriggerSpec::Interval { seconds: 100 }, cleanup(), 0));
    s.add(ScheduleEntry::new_with(3, "boot", TriggerSpec::OnStartup, cleanup(), 0));
    s.tick_at(5 * SEC);
    assert!(s.take_events().is_empty());
    s.tick_at(10 * SEC);
    let ev = s.take_events();
    assert_eq!(ev.len(), 1);
    assert_eq!(ev[0].entry.id, 1);
    assert_eq!(ev[0].entry.run_count, 1);
    assert_eq!(ev[0].entry.next_run, Some(20 * SEC));
    s.tick_at(200 * SEC);
    let mut ids: Vec<u128> = s.take_events().iter().map(|e| e.entry.id).collect();
    ids.sort();
    assert_eq!(ids, vec![1, 2]);
    assert!(s.take_events().is_empty());
    let mut listed = s.list();
    listed.sort_by_key(|e| e.id);
    let counts: Vec<u64> = listed.iter().map(|e| e.run_count).collect();
    assert_eq!(counts, vec![2, 1, 0]);
    assert!(s.tick());
    assert!(s.take_events().len() == 2);
}

#[test]
fn wall_clock_tick_leaves_entries_it_cannot_advance() {
    let mut s = Scheduler::new();
    let mut e = ScheduleEntry::new_with(1, "maxed", TriggerSpec::Interval { seconds: 10 }, cleanup(), 0);
    e.run_count = u64::MAX;
    s.add(e);
    assert!(!s.tick());
    assert!(s.take_events().is_empty());
    assert_eq!(s.list()[0].run_count, u64::MAX);
    s.tick_at(5 * SEC);
    assert!(s.take_events().is_empty());
}

#[test]
fn entries_clone_with_their_actions() {
    let mut options = serde_json::Map::new();
    options.insert("quality".to_string(), serde_json::Value::String("best".to_string()));
    let action = ScheduledAction::Download {
        url: "https://u".to_string(),
        output_dir: "/o".to_string(),
        account_id: Some(3),
        options: serde_json::Value::Object(options.clone()),
    };
    let e = ScheduleEntry::new_with(9, "dl", TriggerSpec::Once { at: 10 }, action, 0);
    let c = e.clone();
    match c.action {
        ScheduledAction::Download { url, output_dir, account_id, options: o } => {
            assert_eq!((url.as_str(), output_dir.as_str(), account_id), ("https://u", "/o", Some(3)));
            assert_eq!(o, serde_json::Value::Object(options));
        }
        a => panic!("unexpected {:?}", a),
    }
    assert_eq!(c.next_run, Some(10));
}
