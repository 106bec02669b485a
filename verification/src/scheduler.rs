//! Scheduled actions: when each fires next, which are due, and what a tick
//! of the scheduler does to them.
use vstd::prelude::*;
use crate::clock::{in_time_range, new_uid, now_micros, Timestamp, Uid, MAX_TIMESTAMP_MICROS};
use crate::task::clone_json;
use crate::text::string_from_str;
use crate::cron::{cron_next, next_cron};

verus! {

pub type ScheduleId = Uid;

/// When a scheduled entry should trigger.
#[derive(Debug)]
pub enum TriggerSpec {
    /// Run once at a specific instant
    Once { at: Timestamp },
    /// Run at a fixed interval
    Interval { seconds: u64 },
    /// Simple cron expression (minute hour day month weekday); runs at the
    /// start of each minute it takes
    Cron { expression: String },
    /// Run on every app startup
    OnStartup,
}

impl Clone for TriggerSpec {
    fn clone(&self) -> (r: Self)
        ensures
            r == *self,
    {
        match self {
            TriggerSpec::Once { at } => TriggerSpec::Once { at: *at },
            TriggerSpec::Interval { seconds } => TriggerSpec::Interval { seconds: *seconds },
            TriggerSpec::Cron { expression } => TriggerSpec::Cron { expression: expression.clone() },
            TriggerSpec::OnStartup => TriggerSpec::OnStartup,
        }
    }
}

/// What a scheduled entry does.
#[derive(Debug)]
pub enum ScheduledAction {
    /// Download a URL via the addon system
    Download {
        url: String,
        output_dir: String,
        account_id: Option<Uid>,
        options: serde_json::Value,
    },
    /// Run a Python addon directly
    RunAddon { addon_name: String, method: String, args: serde_json::Value },
    /// Re-upload downloaded files somewhere
    Reup { source_dir: String, destination: String, addon_name: String },
    /// Clean up old files
    Cleanup { directory: String, older_than_days: u32, pattern: String },
}

impl Clone for ScheduledAction {
    fn clone(&self) -> (r: Self)
        ensures
            r == *self,
    {
        match self {
            ScheduledAction::Download { url, output_dir, account_id, options } => {
                ScheduledAction::Download {
                    url: url.clone(),
                    output_dir: output_dir.clone(),
                    account_id: *account_id,
                    options: clone_json(options),
                }
            },
            ScheduledAction::RunAddon { addon_name, method, args } => ScheduledAction::RunAddon {
                addon_name: addon_name.clone(),
                method: method.clone(),
                args: clone_json(args),
            },
            ScheduledAction::Reup { source_dir, destination, addon_name } => ScheduledAction::Reup {
                source_dir: source_dir.clone(),
                destination: destination.clone(),
                addon_name: addon_name.clone(),
            },
            ScheduledAction::Cleanup { directory, older_than_days, pattern } => {
                ScheduledAction::Cleanup {
                    directory: directory.clone(),
                    older_than_days: *older_than_days,
                    pattern: pattern.clone(),
                }
            },
        }
    }
}

/// A scheduled entry.
#[derive(Debug)]
pub struct ScheduleEntry {
    pub id: ScheduleId,
    pub name: String,
    pub description: String,
    pub trigger: TriggerSpec,
    pub action: ScheduledAction,
    pub enabled: bool,
    pub last_run: Option<Timestamp>,
    pub next_run: Option<Timestamp>,
    pub run_count: u64,
    pub created_at: Timestamp,
}

impl Clone for ScheduleEntry {
    fn clone(&self) -> (r: Self)
        ensures
            r == *self,
    {
        ScheduleEntry {
            id: self.id,
            name: self.name.clone(),
            description: self.description.clone(),
            trigger: self.trigger.clone(),
            action: self.action.clone(),
            enabled: self.enabled,
            last_run: self.last_run,
            next_run: self.next_run,
            run_count: self.run_count,
            created_at: self.created_at,
        }
    }
}

/// An interval's seconds as the signed count that is added to the clock
/// (`seconds as i64`: values past `i64::MAX` wrap to negative).
pub open spec fn interval_delta(seconds: u64) -> int {
    if seconds <= i64::MAX {
        seconds as int
    } else {
        seconds as int - 0x1_0000_0000_0000_0000
    }
}

/// Whether the next run can be computed: an interval added to the clock
/// must stay within the representable instants, and a cron expression is
/// searched from a representable instant.
pub open spec fn next_fits(trigger: TriggerSpec, last: Option<Timestamp>, now: Timestamp) -> bool {
    match trigger {
        TriggerSpec::Interval { seconds } => {
            let base = match last {
                Some(l) => l,
                None => now,
            };
            in_time_range(base + interval_delta(seconds) * 1_000_000)
        },
        TriggerSpec::Cron { .. } => in_time_range(now as int),
        _ => true,
    }
}

/// The next run after the last one (or from `now` if there was none):
/// a future one-off instant, the last run plus the interval, the first
/// minute after now that a cron expression takes, none for startup entries.
pub open spec fn next_run_of(trigger: TriggerSpec, last: Option<Timestamp>, now: Timestamp) -> Option<Timestamp> {
    match trigger {
        TriggerSpec::Once { at } => if at > now {
            Some(at)
        } else {
            None
        },
        TriggerSpec::Interval { seconds } => {
            let base = match last {
                Some(l) => l,
                None => now,
            };
            Some((base + interval_delta(seconds) * 1_000_000) as i64)
        },
        TriggerSpec::Cron { expression } => cron_next(expression@, now as int),
        TriggerSpec::OnStartup => None,
    }
}

/// The next run of `trigger` after `last`, at instant `now`.
pub fn compute_next(trigger: &TriggerSpec, last: Option<Timestamp>, now: Timestamp) -> (r: Option<Timestamp>)
    requires
        next_fits(*trigger, last, now),
    ensures
        r == next_run_of(*trigger, last, now),
{
    match trigger {
        TriggerSpec::Once { at } => if *at > now {
            Some(*at)
        } else {
            None
        },
        TriggerSpec::Interval { seconds } => {
            let base = match last {
                Some(l) => l,
                None => now,
            };
            let delta: i128 = if *seconds <= 0x7fff_ffff_ffff_ffff {
                *seconds as i128
            } else {
                *seconds as i128 - 0x1_0000_0000_0000_0000
            };
            let t: i128 = base as i128 + delta * 1_000_000;
            Some(t as i64)
        },
        TriggerSpec::Cron { expression } => next_cron(expression.as_str(), now),
        TriggerSpec::OnStartup => None,
    }
}

/// Whether the next run of `trigger` after `last` can be computed at `now`.
pub fn next_fits_exec(trigger: &TriggerSpec, last: Option<Timestamp>, now: Timestamp) -> (r: bool)
    requires
        in_time_range(now as int),
        last matches Some(l) ==> in_time_range(l as int),
    ensures
        r == next_fits(*trigger, last, now),
{
    match trigger {
        TriggerSpec::Interval { seconds } => {
            let base = match last {
                Some(l) => l,
                None => now,
            };
            let delta: i128 = if *seconds <= 0x7fff_ffff_ffff_ffff {
                *seconds as i128
            } else {
                *seconds as i128 - 0x1_0000_0000_0000_0000
            };
            let t: i128 = base as i128 + delta * 1_000_000;
            -8334601315200000000i128 <= t && t <= 8210266876799999999i128
        },
        _ => true,
    }
}

/// A fresh entry: enabled, never run, its next run computed from `now`.
pub open spec fn is_new_entry(
    e: ScheduleEntry,
    id: ScheduleId,
    name: Seq<char>,
    trigger: TriggerSpec,
    action: ScheduledAction,
    now: Timestamp,
) -> bool {
    &&& e.id == id
    &&& e.name@ == name
    &&& e.description@ == Seq::<char>::empty()
    &&& e.trigger == trigger
    &&& e.action == action
    &&& e.enabled
    &&& e.last_run is None
    &&& e.next_run == next_run_of(trigger, None, now)
    &&& e.run_count == 0
    &&& e.created_at == now
}

/// What making an entry at `now` gives: a fresh entry, or none where its
/// next run cannot be computed.
pub open spec fn made_at(
    r: Option<ScheduleEntry>,
    id: ScheduleId,
    name: Seq<char>,
    trigger: TriggerSpec,
    action: ScheduledAction,
    now: Timestamp,
) -> bool {
    if next_fits(trigger, None, now) {
        r matches Some(e) && is_new_entry(e, id, name, trigger, action, now)
    } else {
        r is None
    }
}

/// The entry after running at instant `now`.
pub open spec fn advanced(e: ScheduleEntry, now: Timestamp) -> ScheduleEntry {
    ScheduleEntry {
        last_run: Some(now),
        run_count: (e.run_count + 1) as u64,
        next_run: next_run_of(e.trigger, Some(now), now),
        ..e
    }
}

pub open spec fn due_at(e: ScheduleEntry, now: Timestamp) -> bool {
    e.enabled && match e.next_run {
        Some(t) => t <= now,
        None => false,
    }
}

/// An entry that is due at some instant stays due at every later one, and
/// an enabled entry whose next run lies after an instant is not due then.
pub proof fn lemma_due_monotone(e: ScheduleEntry, t1: Timestamp, t2: Timestamp)
    ensures
        due_at(e, t1) && t1 <= t2 ==> due_at(e, t2),
        e.next_run matches Some(n) && t1 < n ==> !due_at(e, t1),
        e.next_run is None || !e.enabled ==> !due_at(e, t1),
{
}

impl ScheduleEntry {
    /// A fresh entry with the given identity, created at `now`.
    pub fn new_with(id: ScheduleId, name: &str, trigger: TriggerSpec, action: ScheduledAction, now: Timestamp) -> (e: ScheduleEntry)
        requires
            in_time_range(now as int),
            next_fits(trigger, None, now),
        ensures
            is_new_entry(e, id, name@, trigger, action, now),
    {
        let next_run = compute_next(&trigger, None, now);
        ScheduleEntry {
            id,
            name: string_from_str(name),
            description: String::new(),
            trigger,
            action,
            enabled: true,
            last_run: None,
            next_run,
            run_count: 0,
            created_at: now,
        }
    }

    /// A fresh entry with a random v4 identity, created now; none where its
    /// next run would lie outside the representable instants.
    pub fn new(name: &str, trigger: TriggerSpec, action: ScheduledAction) -> (r: Option<ScheduleEntry>)
        ensures
            exists|id: ScheduleId, now: Timestamp|
                0 <= now <= MAX_TIMESTAMP_MICROS && #[trigger] made_at(r, id, name@, trigger, action, now),
            r matches Some(e) ==> (e.id >> 76u128) & 0xf == 4 && (e.id >> 62u128) & 0x3 == 2,
    {
        let id = new_uid();
        let now = now_micros();
        let ghost t = trigger;
        let ghost a = action;
        if next_fits_exec(&trigger, None, now) {
            let e = ScheduleEntry::new_with(id, name, trigger, action, now);
            assert(made_at(Some(e), id, name@, t, a, now));
            Some(e)
        } else {
            assert(made_at(None, id, name@, t, a, now));
            None
        }
    }

    /// Record a run at instant `now` and compute the next one from it.
    pub fn advance_at(&mut self, now: Timestamp)
        requires
            old(self).run_count < u64::MAX,
            in_time_range(now as int),
            next_fits(old(self).trigger, Some(now), now),
        ensures
            *final(self) == advanced(*old(self), now),
    {
        self.last_run = Some(now);
        self.run_count = self.run_count + 1;
        self.next_run = compute_next(&self.trigger, Some(now), now);
    }

    /// Record a run now and compute the next one; where the next run would
    /// lie outside the representable instants, the entry is left as it is
    /// and the answer is false.
    pub fn advance(&mut self) -> (done: bool)
        requires
            old(self).run_count < u64::MAX,
        ensures
            exists|now: Timestamp|
                0 <= now <= MAX_TIMESTAMP_MICROS && (next_fits(old(self).trigger, Some(now), now) ==> (
                done && *final(self) == advanced(*old(self), now))) && (!next_fits(
                    old(self).trigger,
                    Some(now),
                    now,
                ) ==> (!done && *final(self) == *old(self))),
    {
        let now = now_micros();
        let ghost before = *self;
        if next_fits_exec(&self.trigger, Some(now), now) {
            self.advance_at(now);
            assert(*self == advanced(before, now));
            true
        } else {
            assert(*self == before);
            false
        }
    }

    /// Whether the entry is enabled and its next run is not after `now`.
    pub fn is_due_at(&self, now: Timestamp) -> (r: bool)
        ensures
            r == due_at(*self, now),
    {
        if !self.enabled {
            return false;
        }
        match self.next_run {
            Some(t) => t <= now,
            None => false,
        }
    }

    /// Whether the entry is due by the wall clock.
    pub fn is_due(&self) -> (r: bool)
        ensures
            exists|now: Timestamp| 0 <= now <= MAX_TIMESTAMP_MICROS && r == due_at(*self, now),
    {
        let now = now_micros();
        self.is_due_at(now)
    }
}

/// Event when a scheduled entry fires.
#[derive(Debug)]
pub struct SchedulerEvent {
    pub entry: ScheduleEntry,
}

/// The scheduler's entries, keyed by id.
pub type EntryMap = dashmap::DashMap<ScheduleId, ScheduleEntry>;

/// What a map of entries holds: each key with its entry.
pub uninterp spec fn entry_map(m: EntryMap) -> Map<ScheduleId, ScheduleEntry>;

pub open spec fn no_entries() -> Map<ScheduleId, ScheduleEntry> {
    Map::empty()
}

/// `DashMap::new`: an empty map.
#[verifier::external_body]
fn entries_new() -> (r: EntryMap)
    ensures
        entry_map(r) == no_entries(),
{
    dashmap::DashMap::new()
}

/// `DashMap::insert`: the key now maps to the value, in place of any entry
/// it had; the other keys keep theirs.
#[verifier::external_body]
fn entries_insert(m: &mut EntryMap, k: ScheduleId, v: ScheduleEntry)
    ensures
        entry_map(*final(m)) == entry_map(*old(m)).insert(k, v),
{
    m.insert(k, v);
}

/// `DashMap::remove`: takes out the key's entry, if it has one.
#[verifier::external_body]
fn entries_remove(m: &mut EntryMap, k: ScheduleId) -> (r: Option<ScheduleEntry>)
    ensures
        entry_map(*final(m)) == entry_map(*old(m)).remove(k),
        r == (if entry_map(*old(m)).dom().contains(k) {
            Some(entry_map(*old(m))[k])
        } else {
            None
        }),
{
    m.remove(&k).map(|(_, e)| e)
}

/// `DashMap::get`, the entry cloned out of the guard it comes in.
#[verifier::external_body]
fn entries_get(m: &EntryMap, k: ScheduleId) -> (r: Option<ScheduleEntry>)
    ensures
        r == (if entry_map(*m).dom().contains(k) {
            Some(entry_map(*m)[k])
        } else {
            None
        }),
{
    m.get(&k).map(|e| e.clone())
}

/// `DashMap::iter`, keeping the keys: each key of the map once, in an order
/// that the map does not fix.
#[verifier::external_body]
fn entries_keys(m: &EntryMap) -> (r: Vec<ScheduleId>)
    ensures
        r@.no_duplicates(),
        r@.to_set() == entry_map(*m).dom(),
{
    m.iter().map(|e| *e.key()).collect()
}

/// The entries after a tick at `now`: every due entry advanced.
pub open spec fn ticked(m: Map<ScheduleId, ScheduleEntry>, now: Timestamp) -> Map<ScheduleId, ScheduleEntry> {
    m.map_values(|e: ScheduleEntry| if due_at(e, now) { advanced(e, now) } else { e })
}

/// Whether every entry that is due at `now` can be advanced then: its run
/// count can grow and its next run lies within the representable instants.
pub open spec fn can_tick(m: Map<ScheduleId, ScheduleEntry>, now: Timestamp) -> bool {
    forall|k: ScheduleId|
        m.dom().contains(k) && due_at(#[trigger] m[k], now) ==> m[k].run_count < u64::MAX && next_fits(
            m[k].trigger,
            Some(now),
            now,
        )
}

/// `q` is what a tick at `now` fires: each entry due then, once, as advanced.
pub open spec fn fires(m: Map<ScheduleId, ScheduleEntry>, now: Timestamp, q: Seq<ScheduleEntry>) -> bool {
    &&& forall|i: int, j: int| 0 <= i < j < q.len() ==> (#[trigger] q[i]).id != (#[trigger] q[j]).id
    &&& forall|i: int|
        0 <= i < q.len() ==> m.dom().contains((#[trigger] q[i]).id) && due_at(m[q[i].id], now) && q[i]
            == advanced(m[q[i].id], now)
    &&& forall|k: ScheduleId|
        m.dom().contains(k) && due_at(#[trigger] m[k], now) ==> exists|i: int| 0 <= i < q.len() && q[i].id == k
}

pub open spec fn event_entries(s: Seq<SchedulerEvent>) -> Seq<ScheduleEntry> {
    s.map_values(|e: SchedulerEvent| e.entry)
}

/// The scheduler: entries keyed by id, and the events of firings not yet handed out.
#[derive(Debug)]
pub struct Scheduler {
    entries: EntryMap,
    events: Vec<SchedulerEvent>,
}

impl Scheduler {
    pub closed spec fn entries(&self) -> Map<ScheduleId, ScheduleEntry> {
        entry_map(self.entries)
    }

    pub closed spec fn pending(&self) -> Seq<ScheduleEntry> {
        event_entries(self.events@)
    }

    /// Each entry is kept under its own id.
    pub open spec fn wf(&self) -> bool {
        forall|k: ScheduleId| self.entries().dom().contains(k) ==> (#[trigger] self.entries()[k]).id == k
    }

    pub fn new() -> (s: Scheduler)
        ensures
            s.entries() == no_entries(),
            s.pending().len() == 0,
            s.wf(),
    {
        Scheduler { entries: entries_new(), events: Vec::new() }
    }

    /// Add an entry, replacing the one with the same id.
    pub fn add(&mut self, entry: ScheduleEntry) -> (id: ScheduleId)
        requires
            old(self).wf(),
        ensures
            id == entry.id,
            final(self).wf(),
            final(self).pending() == old(self).pending(),
            final(self).entries() == old(self).entries().insert(entry.id, entry),
    {
        let id = entry.id;
        entries_insert(&mut self.entries, id, entry);
        id
    }

    /// Take out the entry with this id.
    pub fn remove(&mut self, id: ScheduleId) -> (r: Option<ScheduleEntry>)
        requires
            old(self).wf(),
        ensures
            final(self).wf(),
            final(self).pending() == old(self).pending(),
            final(self).entries() == old(self).entries().remove(id),
            r == (if old(self).entries().dom().contains(id) {
                Some(old(self).entries()[id])
            } else {
                None
            }),
    {
        entries_remove(&mut self.entries, id)
    }

    /// Copies of all entries, each once, in no particular order.
    pub fn list(&self) -> (r: Vec<ScheduleEntry>)
        requires
            self.wf(),
        ensures
            r@.len() == self.entries().dom().len(),
            forall|i: int, j: int| 0 <= i < j < r@.len() ==> (#[trigger] r@[i]).id != (#[trigger] r@[j]).id,
            forall|i: int|
                0 <= i < r@.len() ==> self.entries().dom().contains((#[trigger] r@[i]).id) && r@[i]
                    == self.entries()[r@[i].id],
            forall|k: ScheduleId|
                #[trigger] self.entries().dom().contains(k) ==> exists|i: int| 0 <= i < r@.len() && r@[i].id == k,
    {
        let keys = entries_keys(&self.entries);
        let ghost ks = keys@;
        proof {
            ks.unique_seq_to_set();
        }
        let mut r: Vec<ScheduleEntry> = Vec::new();
        let mut i: usize = 0;
        while i < keys.len()
            invariant
                self.wf(),
                ks == keys@,
                ks.no_duplicates(),
                ks.to_set() == self.entries().dom(),
                i <= ks.len(),
                r@.len() == i,
                forall|j: int| 0 <= j < i ==> (#[trigger] r@[j]).id == ks[j] && r@[j] == self.entries()[ks[j]],
            decreases ks.len() - i,
        {
            let k = keys[i];
            assert(ks.contains(k));
            let e = match entries_get(&self.entries, k) {
                Some(e) => e,
                None => {
                    assert(false);
                    return r;
                },
            };
            r.push(e);
            i = i + 1;
        }
        proof {
            ks.unique_seq_to_set();
            assert forall|k: ScheduleId| #[trigger] self.entries().dom().contains(k) implies exists|i: int|
                0 <= i < r@.len() && r@[i].id == k by {
                assert(ks.to_set().contains(k));
                let i = ks.index_of(k);
                assert(r@[i].id == k);
            }
            assert forall|a: int, b: int| 0 <= a < b < r@.len() implies (#[trigger] r@[a]).id != (
            #[trigger] r@[b]).id by {
                assert(r@[a].id == ks[a]);
                assert(r@[b].id == ks[b]);
            }
            assert forall|a: int| 0 <= a < r@.len() implies self.entries().dom().contains(
                (#[trigger] r@[a]).id,
            ) && r@[a] == self.entries()[r@[a].id] by {
                assert(r@[a].id == ks[a]);
                assert(ks.to_set().contains(ks[a]));
            }
        }
        r
    }

    /// Enable or disable the entry with this id, if there is one.
    pub fn enable(&mut self, id: ScheduleId, enabled: bool)
        requires
            old(self).wf(),
        ensures
            final(self).wf(),
            final(self).pending() == old(self).pending(),
            old(self).entries().dom().contains(id) ==> final(self).entries() == old(self).entries().insert(
                id,
                ScheduleEntry { enabled, ..old(self).entries()[id] },
            ),
            !old(self).entries().dom().contains(id) ==> final(self).entries() == old(self).entries(),
    {
        match entries_get(&self.entries, id) {
            Some(mut e) => {
                e.enabled = enabled;
                entries_insert(&mut self.entries, id, e);
            },
            None => {},
        }
    }

    /// The firings not yet handed out, oldest first; the record is emptied.
    pub fn take_events(&mut self) -> (r: Vec<SchedulerEvent>)
        ensures
            event_entries(r@) == old(self).pending(),
            final(self).pending().len() == 0,
            final(self).entries() == old(self).entries(),
    {
        let mut r = Vec::new();
        std::mem::swap(&mut r, &mut self.events);
        assert(event_entries(self.events@) =~= Seq::<ScheduleEntry>::empty());
        r
    }

    /// Fire every entry that is due at `now`: advance it and record a firing
    /// event holding the advanced entry. Entries fire in no particular order.
    pub fn tick_at(&mut self, now: Timestamp)
        requires
            old(self).wf(),
            in_time_range(now as int),
            can_tick(old(self).entries(), now),
        ensures
            final(self).wf(),
            final(self).entries() == ticked(old(self).entries(), now),
            final(self).pending().subrange(0, old(self).pending().len() as int) == old(self).pending(),
            fires(
                old(self).entries(),
                now,
                final(self).pending().subrange(
                    old(self).pending().len() as int,
                    final(self).pending().len() as int,
                ),
            ),
    {
        let ghost m = self.entries();
        let ghost p = self.pending();
        let keys = entries_keys(&self.entries);
        let ghost ks = keys@;
        let mut i: usize = 0;
        let ghost mut q: Seq<ScheduleEntry> = Seq::empty();
        while i < keys.len()
            invariant
                ks == keys@,
                ks.no_duplicates(),
                ks.to_set() == m.dom(),
                i <= ks.len(),
                in_time_range(now as int),
                can_tick(m, now),
                forall|k: ScheduleId| m.dom().contains(k) ==> (#[trigger] m[k]).id == k,
                self.entries().dom() == m.dom(),
                forall|k: ScheduleId| #[trigger] self.entries().dom().contains(k) ==> self.entries()[k] == (
                if ks.subrange(0, i as int).contains(k) && due_at(m[k], now) {
                    advanced(m[k], now)
                } else {
                    m[k]
                }),
                self.pending() == p + q,
                forall|a: int, b: int| 0 <= a < b < q.len() ==> (#[trigger] q[a]).id != (#[trigger] q[b]).id,
                forall|a: int|
                    0 <= a < q.len() ==> ks.subrange(0, i as int).contains((#[trigger] q[a]).id) && m.dom().contains(
                        q[a].id,
                    ) && due_at(m[q[a].id], now) && q[a] == advanced(m[q[a].id], now),
                forall|t: int|
                    0 <= t < i && due_at(m[ks[t]], now) ==> exists|a: int| 0 <= a < q.len() && #[trigger] q[a].id == ks[t],
            decreases ks.len() - i,
        {
            let k = keys[i];
            let ghost before = ks.subrange(0, i as int);
            let ghost q_before = q;
            assert(ks.subrange(0, i + 1) == before.push(k));
            assert(!before.contains(k)) by {
                if before.contains(k) {
                    let t = before.index_of(k);
                    assert(ks[t] == ks[i as int]);
                }
            }
            assert(ks.contains(k));
            let e0 = match entries_get(&self.entries, k) {
                Some(e) => e,
                None => {
                    assert(false);
                    return ;
                },
            };
            assert(e0 == m[k]);
            if e0.is_due_at(now) {
                let mut e = e0;
                e.advance_at(now);
                let fired_entry = e.clone();
                entries_insert(&mut self.entries, k, e);
                let ghost old_events = self.events@;
                self.events.push(SchedulerEvent { entry: fired_entry });
                proof {
                    assert(event_entries(self.events@) =~= event_entries(old_events).push(fired_entry));
                    assert forall|a: int| 0 <= a < q.len() implies (#[trigger] q[a]).id != k by {
                        assert(before.contains(q[a].id));
                    }
                    q = q.push(fired_entry);
                    assert(self.pending() =~= p + q);
                }
            }
            proof {
                assert forall|t: int|
                    0 <= t < i + 1 && due_at(m[ks[t]], now) implies exists|a: int|
                        0 <= a < q.len() && #[trigger] q[a].id == ks[t] by {
                    if t == i {
                        assert(q[q.len() - 1].id == ks[t]);
                    } else {
                        let a0 = choose|a: int| 0 <= a < q_before.len() && #[trigger] q_before[a].id == ks[t];
                        assert(q[a0] == q_before[a0]);
                    }
                }
                assert forall|a: int|
                    0 <= a < q.len() implies ks.subrange(0, i + 1).contains((#[trigger] q[a]).id) by {
                    if before.contains(q[a].id) {
                        let t = before.index_of(q[a].id);
                        assert(ks.subrange(0, i + 1)[t] == q[a].id);
                    } else {
                        assert(ks.subrange(0, i + 1)[i as int] == q[a].id);
                    }
                }
            }
            i = i + 1;
        }
        proof {
            assert(ks.subrange(0, ks.len() as int) == ks);
            assert(self.entries() =~= ticked(m, now));
            assert(self.pending().subrange(0, p.len() as int) =~= p);
            assert(self.pending().subrange(p.len() as int, self.pending().len() as int) =~= q);
            assert forall|k: ScheduleId| m.dom().contains(k) && due_at(#[trigger] m[k], now) implies exists|a: int|
                0 <= a < q.len() && q[a].id == k by {
                assert(ks.to_set().contains(k));
                let t = ks.index_of(k);
                assert(due_at(m[ks[t]], now));
            }
        }
    }

    /// Whether every entry due at `now` can be advanced then.
    fn can_tick_at(&self, now: Timestamp) -> (r: bool)
        requires
            in_time_range(now as int),
        ensures
            r == can_tick(self.entries(), now),
    {
        let keys = entries_keys(&self.entries);
        let ghost ks = keys@;
        let mut i: usize = 0;
        while i < keys.len()
            invariant
                ks == keys@,
                ks.to_set() == self.entries().dom(),
                i <= ks.len(),
                in_time_range(now as int),
                forall|t: int|
                    0 <= t < i && due_at(#[trigger] self.entries()[ks[t]], now) ==> self.entries()[ks[t]].run_count
                        < u64::MAX && next_fits(self.entries()[ks[t]].trigger, Some(now), now),
            decreases ks.len() - i,
        {
            let k = keys[i];
            assert(ks.contains(k));
            assert(ks.to_set().contains(k));
            let e = match entries_get(&self.entries, k) {
                Some(e) => e,
                None => {
                    assert(false);
                    return false;
                },
            };
            assert(e == self.entries()[k]);
            if e.is_due_at(now) {
                if e.run_count == u64::MAX {
                    return false;
                }
                if !next_fits_exec(&e.trigger, Some(now), now) {
                    return false;
                }
            }
            i = i + 1;
        }
        proof {
            assert forall|k: ScheduleId|
                self.entries().dom().contains(k) && due_at(#[trigger] self.entries()[k], now) implies self.entries()[k].run_count
                    < u64::MAX && next_fits(self.entries()[k].trigger, Some(now), now) by {
                assert(ks.to_set().contains(k));
                let t = ks.index_of(k);
                assert(ks[t] == k);
            }
        }
        true
    }

    /// Fire every entry that is due by the wall clock. Where one of them
    /// cannot be advanced then (its run count is at its limit, or its next
    /// run would lie outside the representable instants), nothing changes
    /// and the answer is false.
    pub fn tick(&mut self) -> (done: bool)
        requires
            old(self).wf(),
        ensures
            final(self).wf(),
            exists|now: Timestamp|
                0 <= now <= MAX_TIMESTAMP_MICROS && (can_tick(old(self).entries(), now) ==> (done
                    && final(self).entries() == ticked(old(self).entries(), now) && final(self).pending().subrange(
                    0,
                    old(self).pending().len() as int,
                ) == old(self).pending() && fires(
                    old(self).entries(),
                    now,
                    final(self).pending().subrange(
                        old(self).pending().len() as int,
                        final(self).pending().len() as int,
                    ),
                ))) && (!can_tick(old(self).entries(), now) ==> (!done && final(self).entries() == old(
                    self,
                ).entries() && final(self).pending() == old(self).pending())),
    {
        let now = now_micros();
        if self.can_tick_at(now) {
            self.tick_at(now);
            true
        } else {
            false
        }
    }
}

impl Default for Scheduler {
    fn default() -> (s: Self)
        ensures
            s.entries() == no_entries(),
            s.pending().len() == 0,
            s.wf(),
    {
        Scheduler::new()
    }
}

} // verus!
