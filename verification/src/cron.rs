//! Cron expressions (minute, hour, day of month, month, day of week): which
//! minutes they match, and the first matching minute after an instant.
//!
//! Each field is a comma-separated list of items; an item is `*`, a number
//! or a range `a-b`, optionally followed by `/step` (a number with a step
//! stands for the range from it to the field's end). Days of the week run
//! from 0 (Sunday) to 7 (Sunday again). As in classic cron, when both the
//! day-of-month and the day-of-week field are restricted (neither starts
//! with `*`), a day matches if either does. Times are UTC.
use vstd::prelude::*;
use crate::clock::{in_time_range, Timestamp, MAX_TIMESTAMP_MICROS};
use crate::text::{all_digits, digits_value, is_digit, split, split_chars, starts_with, chars_of, has_prefix, lemma_digits_value_push, lemma_split_from_nonempty};
use vstd::arithmetic::div_mod::{lemma_small_mod, lemma_fundamental_div_mod, lemma_fundamental_div_mod_converse, lemma_mod_multiples_vanish};

verus! {

// ---------------------------------------------------------------------------
// the fields of an expression
// ---------------------------------------------------------------------------

/// A number written in decimal digits.
pub open spec fn num_of(w: Seq<char>) -> Option<int> {
    if w.len() > 0 && all_digits(w) {
        Some(digits_value(w) as int)
    } else {
        None
    }
}

/// The first value, last value and step an item of a field stands for,
/// where it is well formed and lies within the field's bounds.
pub open spec fn item_range(item: Seq<char>, min: int, max: int) -> Option<(int, int, int)> {
    let parts = split(item, '/');
    let stepped = parts.len() == 2;
    let step = if stepped {
        num_of(parts[1])
    } else {
        Some(1int)
    };
    let ab = split(parts[0], '-');
    let range: Option<(int, int)> = if parts[0] == seq!['*'] {
        Some((min, max))
    } else if ab.len() == 1 {
        match num_of(ab[0]) {
            Some(a) => Some((a, if stepped { max } else { a })),
            None => None,
        }
    } else if ab.len() == 2 {
        match (num_of(ab[0]), num_of(ab[1])) {
            (Some(a), Some(b)) => Some((a, b)),
            _ => None,
        }
    } else {
        None
    };
    if parts.len() > 2 {
        None
    } else {
        match (range, step) {
            (Some(r), Some(s)) => if min <= r.0 && r.0 <= r.1 && r.1 <= max && s >= 1 {
                Some((r.0, r.1, s))
            } else {
                None
            },
            _ => None,
        }
    }
}

/// Whether a range with a step takes the value `v`.
pub open spec fn in_range(r: (int, int, int), v: int) -> bool {
    r.0 <= v <= r.1 && (v - r.0) % r.2 == 0
}

/// Whether every item is well formed.
pub open spec fn items_valid(items: Seq<Seq<char>>, min: int, max: int) -> bool
    decreases items.len(),
{
    if items.len() == 0 {
        true
    } else {
        items_valid(items.drop_last(), min, max) && item_range(items.last(), min, max) is Some
    }
}

/// Whether one of the items takes the value `v`.
pub open spec fn items_allow(items: Seq<Seq<char>>, min: int, max: int, v: int) -> bool
    decreases items.len(),
{
    if items.len() == 0 {
        false
    } else {
        items_allow(items.drop_last(), min, max, v) || (item_range(items.last(), min, max) matches Some(
            r,
        ) && in_range(r, v))
    }
}

pub open spec fn field_valid(f: Seq<char>, min: int, max: int) -> bool {
    items_valid(split(f, ','), min, max)
}

pub open spec fn field_allows(f: Seq<char>, min: int, max: int, v: int) -> bool {
    items_allow(split(f, ','), min, max, v)
}

/// The non-empty pieces, in order.
pub open spec fn nonempty_pieces(ps: Seq<Seq<char>>) -> Seq<Seq<char>>
    decreases ps.len(),
{
    if ps.len() == 0 {
        Seq::empty()
    } else if ps.last().len() > 0 {
        nonempty_pieces(ps.drop_last()).push(ps.last())
    } else {
        nonempty_pieces(ps.drop_last())
    }
}

/// The fields of an expression: its words, separated by spaces.
pub open spec fn cron_fields(expr: Seq<char>) -> Seq<Seq<char>> {
    nonempty_pieces(split(expr, ' '))
}

/// Five well-formed fields, each within its bounds.
pub open spec fn cron_valid(expr: Seq<char>) -> bool {
    let f = cron_fields(expr);
    &&& f.len() == 5
    &&& field_valid(f[0], 0, 59)
    &&& field_valid(f[1], 0, 23)
    &&& field_valid(f[2], 1, 31)
    &&& field_valid(f[3], 1, 12)
    &&& field_valid(f[4], 0, 7)
}

// ---------------------------------------------------------------------------
// the calendar
// ---------------------------------------------------------------------------

/// The length of the Gregorian cycle, in days (400 years; a whole number of weeks).
pub open spec fn cycle_days() -> int {
    146097
}

/// The day's place in its 400-year cycle counted from 0000-03-01, for a day
/// counted from 1970-01-01.
pub open spec fn day_of_cycle(day: int) -> int {
    (day + 719468) % 146097
}

/// The month (1 to 12) and day of month of the day at place `doe` in its
/// cycle (the proleptic Gregorian calendar, by H. Hinnant's civil-from-days).
pub open spec fn civil_md(doe: int) -> (int, int) {
    let yoe = (doe - doe / 1460 + doe / 36524 - doe / 146096) / 365;
    let doy = doe - (365 * yoe + yoe / 4 - yoe / 100);
    let mp = (5 * doy + 2) / 153;
    let d = doy - (153 * mp + 2) / 5 + 1;
    let m = if mp < 10 {
        mp + 3
    } else {
        mp - 9
    };
    (m, d)
}

/// The day of the week, 0 for Sunday (1970-01-01 was a Thursday).
pub open spec fn weekday(day: int) -> int {
    (day + 4) % 7
}

// ---------------------------------------------------------------------------
// matching
// ---------------------------------------------------------------------------

/// Whether the fields take a day (counted from 1970-01-01).
pub open spec fn day_matches(f: Seq<Seq<char>>, day: int) -> bool {
    let md = civil_md(day_of_cycle(day));
    let w = weekday(day);
    let dom_ok = field_allows(f[2], 1, 31, md.1);
    let dow_ok = field_allows(f[4], 0, 7, w) || (w == 0 && field_allows(f[4], 0, 7, 7));
    &&& field_allows(f[3], 1, 12, md.0)
    &&& if starts_with(f[2], seq!['*']) || starts_with(f[4], seq!['*']) {
        dom_ok && dow_ok
    } else {
        dom_ok || dow_ok
    }
}

/// Whether the fields take a minute of the day (0 to 1439).
pub open spec fn time_matches(f: Seq<Seq<char>>, mod_: int) -> bool {
    field_allows(f[0], 0, 59, mod_ % 60) && field_allows(f[1], 0, 23, mod_ / 60)
}

/// Whether the fields take the minute `m` (counted from the epoch).
pub open spec fn cron_matches(f: Seq<Seq<char>>, m: int) -> bool {
    day_matches(f, m / 1440) && time_matches(f, m % 1440)
}

pub open spec fn minute_micros() -> int {
    60_000_000
}

/// The first minute after the instant `now`.
pub open spec fn first_minute_after(now: int) -> int {
    now / minute_micros() + 1
}

/// `m` is the first representable minute after `now` that the expression takes.
pub open spec fn is_first_match(expr: Seq<char>, now: int, m: int) -> bool {
    &&& first_minute_after(now) <= m
    &&& m * minute_micros() <= MAX_TIMESTAMP_MICROS
    &&& cron_matches(cron_fields(expr), m)
    &&& forall|k: int| first_minute_after(now) <= k < m ==> !cron_matches(cron_fields(expr), k)
}

/// The next run of a cron expression after `now`: the start of the first
/// minute after it that the expression takes; none for an expression that
/// is not well formed, or that takes no representable minute after `now`.
pub open spec fn cron_next(expr: Seq<char>, now: int) -> Option<Timestamp> {
    if cron_valid(expr) && exists|m: int| is_first_match(expr, now, m) {
        Some(((choose|m: int| is_first_match(expr, now, m)) * minute_micros()) as i64)
    } else {
        None
    }
}

/// Days a whole number of 400-year cycles apart are alike.
pub proof fn lemma_day_cycle(f: Seq<Seq<char>>, day: int, k: int)
    ensures
        day_matches(f, day + cycle_days() * k) == day_matches(f, day),
{
    lemma_mod_multiples_vanish(k, day + 719468, 146097);
    assert(day + cycle_days() * k + 719468 == 146097 * k + (day + 719468)) by (nonlinear_arith);
    assert(146097 * k == 7 * (20871 * k)) by (nonlinear_arith);
    lemma_mod_multiples_vanish(20871 * k, day + 4, 7);
    assert(day + cycle_days() * k + 4 == 7 * (20871 * k) + (day + 4)) by (nonlinear_arith)
        requires
            146097 * k == 7 * (20871 * k),
    ;
}

/// Minutes a whole number of 400-year cycles apart are alike.
pub proof fn lemma_minute_cycle(f: Seq<Seq<char>>, m: int, k: int)
    ensures
        cron_matches(f, m + 1440 * cycle_days() * k) == cron_matches(f, m),
{
    let q = m / 1440;
    let r = m % 1440;
    lemma_fundamental_div_mod(m, 1440);
    assert(m + 1440 * cycle_days() * k == (q + cycle_days() * k) * 1440 + r) by (nonlinear_arith)
        requires
            m == q * 1440 + r,
    ;
    lemma_fundamental_div_mod_converse(m + 1440 * cycle_days() * k, 1440, q + cycle_days() * k, r);
    lemma_day_cycle(f, q, k);
}

// ---------------------------------------------------------------------------
// reading the fields
// ---------------------------------------------------------------------------

/// `n` stands for `v`: equal below 1000, 1000 for any value from 1000 up.
pub open spec fn capped(v: int, n: int) -> bool {
    (v < 1000 && n == v) || (v >= 1000 && n == 1000)
}

/// A decimal number, capped at 1000 (no field bound or useful step reaches it).
fn num_capped(w: &[char]) -> (r: Option<u64>)
    ensures
        r is Some <==> num_of(w@) is Some,
        r matches Some(n) ==> capped(num_of(w@)->0, n as int),
{
    if w.len() == 0 {
        return None;
    }
    let mut acc: u64 = 0;
    let mut i: usize = 0;
    while i < w.len()
        invariant
            i <= w@.len(),
            all_digits(w@.subrange(0, i as int)),
            capped(digits_value(w@.subrange(0, i as int)) as int, acc as int),
        decreases w@.len() - i,
    {
        let c = w[i];
        if !('0' <= c && c <= '9') {
            assert(!is_digit(w@[i as int]));
            return None;
        }
        let d: u64 = (c as u32 - '0' as u32) as u64;
        proof {
            assert(w@.subrange(0, i + 1) == w@.subrange(0, i as int).push(c));
            lemma_digits_value_push(w@.subrange(0, i as int), c);
        }
        if acc >= 1000 {
            acc = 1000;
        } else {
            acc = acc * 10 + d;
            if acc > 1000 {
                acc = 1000;
            }
        }
        i = i + 1;
    }
    assert(w@.subrange(0, w@.len() as int) == w@);
    Some(acc)
}

/// The range of an item, read with its numbers capped (see `capped`).
fn item_range_exec(item: &[char], min: u64, max: u64) -> (r: Option<(u64, u64, u64)>)
    requires
        min <= max <= 59,
    ensures
        r is Some <==> item_range(item@, min as int, max as int) is Some,
        r matches Some(t) ==> {
            let x = item_range(item@, min as int, max as int)->0;
            x.0 == t.0 && x.1 == t.1 && capped(x.2, t.2 as int)
        },
{
    let parts = split_chars(item, '/');
    proof {
        lemma_split_from_nonempty(item@, '/', Seq::empty());
    }
    if parts.len() > 2 {
        return None;
    }
    let stepped = parts.len() == 2;
    let step: u64 = if stepped {
        match num_capped(&parts[1]) {
            Some(s) => s,
            None => return None,
        }
    } else {
        1
    };
    let head = &parts[0];
    let ghost hv = head@;
    assert(hv == split(item@, '/')[0]);
    let ab = split_chars(head, '-');
    proof {
        lemma_split_from_nonempty(hv, '-', Seq::empty());
    }
    let (a, b): (u64, u64) = if head.len() == 1 && head[0] == '*' {
        assert(hv =~= seq!['*']);
        (min, max)
    } else {
        assert(hv != seq!['*']);
        if ab.len() == 1 {
            match num_capped(&ab[0]) {
                Some(a) => (a, if stepped { max } else { a }),
                None => return None,
            }
        } else if ab.len() == 2 {
            let a = match num_capped(&ab[0]) {
                Some(a) => a,
                None => return None,
            };
            match num_capped(&ab[1]) {
                Some(b) => (a, b),
                None => return None,
            }
        } else {
            return None;
        }
    };
    if min <= a && a <= b && b <= max && step >= 1 {
        Some((a, b, step))
    } else {
        None
    }
}

/// A step capped at 1000 takes the same values of a range within 0 to 59.
proof fn lemma_capped_step(x: (int, int, int), t: (int, int, int), v: int)
    requires
        x.0 == t.0,
        x.1 == t.1,
        capped(x.2, t.2),
        x.2 >= 1,
        0 <= x.0 <= x.1 <= 59,
    ensures
        in_range(x, v) == in_range(t, v),
{
    if x.2 >= 1000 && x.0 <= v <= x.1 {
        lemma_small_mod((v - x.0) as nat, x.2 as nat);
        lemma_small_mod((v - x.0) as nat, 1000);
    }
}

/// Every item of a valid list is well formed.
proof fn lemma_items_valid_index(items: Seq<Seq<char>>, min: int, max: int, k: int)
    requires
        items_valid(items, min, max),
        0 <= k < items.len(),
    ensures
        item_range(items[k], min, max) is Some,
    decreases items.len(),
{
    if k < items.len() - 1 {
        lemma_items_valid_index(items.drop_last(), min, max, k);
        assert(items.drop_last()[k] == items[k]);
    }
}

/// For each value from 0 to `max`, whether the field takes it; none for a
/// field that is not well formed.
fn field_table(f: &[char], min: u64, max: u64) -> (r: Option<Vec<bool>>)
    requires
        min <= max <= 59,
    ensures
        r is Some <==> field_valid(f@, min as int, max as int),
        r matches Some(t) ==> t@.len() == max + 1 && forall|v: int|
            0 <= v <= max ==> t@[v] == field_allows(f@, min as int, max as int, v),
{
    let items = split_chars(f, ',');
    let ghost iv = split(f@, ',');
    let mut table: Vec<bool> = Vec::new();
    let mut v: u64 = 0;
    while v <= max
        invariant
            v <= max + 1,
            max <= 59,
            table@.len() == v,
            forall|w: int| 0 <= w < v ==> !table@[w],
        decreases max + 1 - v,
    {
        table.push(false);
        v = v + 1;
    }
    let mut i: usize = 0;
    assert(iv.take(0) =~= Seq::<Seq<char>>::empty());
    while i < items.len()
        invariant
            min <= max <= 59,
            i <= items@.len(),
            items@.len() == iv.len(),
            forall|k: int| 0 <= k < items@.len() ==> #[trigger] items@[k]@ == iv[k],
            iv == split(f@, ','),
            items_valid(iv.take(i as int), min as int, max as int),
            table@.len() == max + 1,
            forall|w: int| 0 <= w <= max ==> table@[w] == items_allow(iv.take(i as int), min as int, max as int, w),
        decreases items@.len() - i,
    {
        assert(iv.take(i + 1).drop_last() =~= iv.take(i as int));
        assert(iv.take(i + 1).last() == iv[i as int]);
        let r = match item_range_exec(&items[i], min, max) {
            Some(r) => r,
            None => {
                proof {
                    if items_valid(iv, min as int, max as int) {
                        lemma_items_valid_index(iv, min as int, max as int, i as int);
                    }
                }
                return None;
            },
        };
        let ghost x = item_range(iv[i as int], min as int, max as int)->0;
        let mut v: u64 = 0;
        while v <= max
            invariant
                min <= max <= 59,
                v <= max + 1,
                i < iv.len(),
                table@.len() == max + 1,
                x.0 == r.0 && x.1 == r.1 && capped(x.2, r.2 as int),
                min <= x.0 <= x.1 <= max && x.2 >= 1,
                item_range(iv[i as int], min as int, max as int) == Some(x),
                iv.take(i + 1).drop_last() == iv.take(i as int),
                iv.take(i + 1).last() == iv[i as int],
                forall|w: int| 0 <= w < v ==> table@[w] == items_allow(iv.take(i + 1), min as int, max as int, w),
                forall|w: int| v <= w <= max ==> table@[w] == items_allow(iv.take(i as int), min as int, max as int, w),
            decreases max + 1 - v,
        {
            proof {
                lemma_capped_step(x, (r.0 as int, r.1 as int, r.2 as int), v as int);
                assert(items_allow(iv.take(i + 1), min as int, max as int, v as int) == (items_allow(
                    iv.take(i as int),
                    min as int,
                    max as int,
                    v as int,
                ) || in_range(x, v as int)));
            }
            if r.0 <= v && v <= r.1 && (v - r.0) % r.2 == 0 {
                table.set(v as usize, true);
            }
            v = v + 1;
        }
        i = i + 1;
    }
    assert(iv.take(iv.len() as int) =~= iv);
    Some(table)
}

/// The places of the non-empty pieces, in order.
fn nonempty_places(pieces: &Vec<Vec<char>>, Ghost(pv): Ghost<Seq<Seq<char>>>) -> (r: Vec<usize>)
    requires
        pieces@.len() == pv.len(),
        forall|k: int| 0 <= k < pv.len() ==> #[trigger] pieces@[k]@ == pv[k],
    ensures
        r@.len() == nonempty_pieces(pv).len(),
        forall|k: int| 0 <= k < r@.len() ==> #[trigger] r@[k] < pv.len() && pv[r@[k] as int] == nonempty_pieces(pv)[k],
{
    let mut r: Vec<usize> = Vec::new();
    let mut i: usize = 0;
    assert(pv.take(0) =~= Seq::<Seq<char>>::empty());
    while i < pieces.len()
        invariant
            i <= pv.len(),
            pieces@.len() == pv.len(),
            forall|k: int| 0 <= k < pv.len() ==> #[trigger] pieces@[k]@ == pv[k],
            r@.len() == nonempty_pieces(pv.take(i as int)).len(),
            forall|k: int| 0 <= k < r@.len() ==> #[trigger] r@[k] < i && pv[r@[k] as int] == nonempty_pieces(pv.take(i as int))[k],
        decreases pv.len() - i,
    {
        assert(pv.take(i + 1).drop_last() =~= pv.take(i as int));
        assert(pv.take(i + 1).last() == pv[i as int]);
        let ghost before = nonempty_pieces(pv.take(i as int));
        let ghost old_r = r@;
        assert(nonempty_pieces(pv.take(i + 1)) == if pv[i as int].len() > 0 {
            before.push(pv[i as int])
        } else {
            before
        });
        if pieces[i].len() > 0 {
            r.push(i);
        }
        assert forall|k: int| 0 <= k < r@.len() implies #[trigger] r@[k] < i + 1 && pv[r@[k] as int]
            == nonempty_pieces(pv.take(i + 1))[k] by {
            if k < old_r.len() {
                assert(old_r[k] == r@[k]);
                assert(pv[old_r[k] as int] == before[k]);
            }
        }
        i = i + 1;
    }
    assert(pv.take(pv.len() as int) =~= pv);
    assert forall|k: int| 0 <= k < r@.len() implies #[trigger] r@[k] < pv.len() && pv[r@[k] as int]
        == nonempty_pieces(pv)[k] by {
        assert(nonempty_pieces(pv.take(pv.len() as int))[k] == nonempty_pieces(pv)[k]);
    }
    r
}

/// An expression read into tables: for each field, which values it takes;
/// and whether the day-of-month and day-of-week fields start with `*`.
struct CronTables {
    minutes: Vec<bool>,
    hours: Vec<bool>,
    days: Vec<bool>,
    months: Vec<bool>,
    weekdays: Vec<bool>,
    dom_star: bool,
    dow_star: bool,
}

spec fn table_of(t: Seq<bool>, f: Seq<char>, min: int, max: int) -> bool {
    t.len() == max + 1 && forall|v: int| 0 <= v <= max ==> t[v] == field_allows(f, min, max, v)
}

spec fn tables_of(t: CronTables, f: Seq<Seq<char>>) -> bool {
    &&& f.len() == 5
    &&& table_of(t.minutes@, f[0], 0, 59)
    &&& table_of(t.hours@, f[1], 0, 23)
    &&& table_of(t.days@, f[2], 1, 31)
    &&& table_of(t.months@, f[3], 1, 12)
    &&& table_of(t.weekdays@, f[4], 0, 7)
    &&& t.dom_star == starts_with(f[2], seq!['*'])
    &&& t.dow_star == starts_with(f[4], seq!['*'])
}

/// Reads an expression; none where it is not well formed.
fn parse_cron(expr: &str) -> (r: Option<CronTables>)
    ensures
        r is Some <==> cron_valid(expr@),
        r matches Some(t) ==> tables_of(t, cron_fields(expr@)),
{
    let chars = chars_of(expr);
    let pieces = split_chars(&chars, ' ');
    let ghost pv = split(expr@, ' ');
    assert(chars@ == expr@);
    let places = nonempty_places(&pieces, Ghost(pv));
    let ghost f = cron_fields(expr@);
    if places.len() != 5 {
        return None;
    }
    proof {
        assert(f == nonempty_pieces(pv));
        assert forall|k: int| 0 <= k < 5 implies places@[k] < pieces@.len() && pieces@[places@[k] as int]@
            == f[k] by {
            assert(places@[k] < pv.len());
        }
    }
    let minutes = match field_table(&pieces[places[0]], 0, 59) {
        Some(t) => t,
        None => return None,
    };
    let hours = match field_table(&pieces[places[1]], 0, 23) {
        Some(t) => t,
        None => return None,
    };
    let days = match field_table(&pieces[places[2]], 1, 31) {
        Some(t) => t,
        None => return None,
    };
    let months = match field_table(&pieces[places[3]], 1, 12) {
        Some(t) => t,
        None => return None,
    };
    let weekdays = match field_table(&pieces[places[4]], 0, 7) {
        Some(t) => t,
        None => return None,
    };
    let star = vec!['*'];
    assert(star@ =~= seq!['*']);
    let dom_star = has_prefix(&pieces[places[2]], &star);
    let dow_star = has_prefix(&pieces[places[4]], &star);
    Some(CronTables { minutes, hours, days, months, weekdays, dom_star, dow_star })
}

// ---------------------------------------------------------------------------
// the search
// ---------------------------------------------------------------------------

/// The month and day of month at place `doe` of a 400-year cycle.
fn civil_md_exec(doe: u64) -> (r: (u64, u64))
    requires
        doe < 146097,
    ensures
        r.0 as int == civil_md(doe as int).0,
        r.1 as int == civil_md(doe as int).1,
        1 <= r.0 <= 12,
        1 <= r.1 <= 31,
{
    let a: u64 = doe / 1460;
    let b: u64 = doe / 36524;
    let c: u64 = doe / 146096;
    let yoe: u64 = (doe - a + b - c) / 365;
    let y: u64 = 365 * yoe + yoe / 4;
    assert(yoe / 100 <= y && y - yoe / 100 <= doe && doe - (y - yoe / 100) <= 365) by (nonlinear_arith)
        requires
            doe < 146097,
            a == doe / 1460,
            b == doe / 36524,
            c == doe / 146096,
            yoe == (doe - a + b - c) / 365,
            y == 365 * yoe + yoe / 4,
    ;
    let doy: u64 = doe - (y - yoe / 100);
    let mp: u64 = (5 * doy + 2) / 153;
    let e: u64 = (153 * mp + 2) / 5;
    assert(mp <= 11 && e <= doy && doy - e <= 30) by (nonlinear_arith)
        requires
            doy <= 365,
            mp == (5 * doy + 2) / 153,
            e == (153 * mp + 2) / 5,
    ;
    let d: u64 = doy - (153 * mp + 2) / 5 + 1;
    let m: u64 = if mp < 10 {
        mp + 3
    } else {
        mp - 9
    };
    (m, d)
}

/// Minutes are searched shifted by this many (a whole number of 400-year
/// cycles), so that every representable minute is counted from zero up.
const SHIFT_MINUTES: u64 = 147_265_776_000;

/// The shift in days.
const SHIFT_DAYS: u64 = 102_267_900;

/// The shift in microseconds.
const SHIFT_MICROS: u64 = 8_835_946_560_000_000_000;

/// The last minute whose start is representable.
const MAX_MINUTE: u64 = 136_837_781_279;

/// The minutes of a 400-year cycle.
const CYCLE_MINUTES: u64 = 210_379_680;

/// A shifted minute and the minute it stands for share their place in the day.
proof fn lemma_shifted_minute(s: int, m: int)
    requires
        m == s - SHIFT_MINUTES,
        s >= 0,
    ensures
        m / 1440 == s / 1440 - SHIFT_DAYS,
        m % 1440 == s % 1440,
{
    lemma_fundamental_div_mod(s, 1440);
    lemma_fundamental_div_mod_converse(m, 1440, s / 1440 - SHIFT_DAYS, s % 1440);
}

/// Whether the expression read into `t` takes the day `ds - SHIFT_DAYS`.
fn day_ok(t: &CronTables, ds: u64, Ghost(f): Ghost<Seq<Seq<char>>>) -> (r: bool)
    requires
        tables_of(*t, f),
        ds <= 1_000_000_000_000,
    ensures
        r == day_matches(f, ds - SHIFT_DAYS),
{
    let ghost day = ds - SHIFT_DAYS;
    let doe = (ds + 719468) % 146097;
    proof {
        lemma_mod_multiples_vanish(700, day + 719468, 146097);
        lemma_mod_multiples_vanish(14609700, day + 4, 7);
        assert(doe == day_of_cycle(day));
    }
    let (m, d) = civil_md_exec(doe);
    let w = (ds + 4) % 7;
    assert(w == weekday(day));
    let dom_ok = t.days[d as usize];
    let dow_ok = t.weekdays[w as usize] || (w == 0 && t.weekdays[7]);
    let mon_ok = t.months[m as usize];
    mon_ok && if t.dom_star || t.dow_star {
        dom_ok && dow_ok
    } else {
        dom_ok || dow_ok
    }
}

/// At most one minute is the first match.
proof fn lemma_first_match_unique(expr: Seq<char>, now: int, m1: int, m2: int)
    requires
        is_first_match(expr, now, m1),
        is_first_match(expr, now, m2),
    ensures
        m1 == m2,
{
    if m1 < m2 {
        assert(!cron_matches(cron_fields(expr), m1));
    } else if m2 < m1 {
        assert(!cron_matches(cron_fields(expr), m2));
    }
}

/// No minute at or after `first` matches when none of a whole cycle from it does.
proof fn lemma_no_match_after_cycle(f: Seq<Seq<char>>, first: int, m: int)
    requires
        first <= m,
        forall|k: int| first <= k < first + CYCLE_MINUTES ==> !cron_matches(f, k),
    ensures
        !cron_matches(f, m),
{
    let c = (m - first) / (CYCLE_MINUTES as int);
    let r = (m - first) % (CYCLE_MINUTES as int);
    lemma_fundamental_div_mod(m - first, CYCLE_MINUTES as int);
    assert(m == first + r + 1440 * cycle_days() * c);
    lemma_minute_cycle(f, first + r, c);
}

/// The next run of a cron expression after the instant `now`: the start of
/// the first minute after `now` that the expression takes (see `cron_next`).
pub fn next_cron(expr: &str, now: Timestamp) -> (r: Option<Timestamp>)
    requires
        in_time_range(now as int),
    ensures
        r == cron_next(expr@, now as int),
        r matches Some(t) ==> now < t && t % 60_000_000 == 0 && cron_matches(cron_fields(expr@), t / 60_000_000),
{
    let t = match parse_cron(expr) {
        Some(t) => t,
        None => return None,
    };
    let ghost f = cron_fields(expr@);
    let u: u64 = if now < 0 {
        SHIFT_MICROS - ((0 - now) as u64)
    } else {
        SHIFT_MICROS + (now as u64)
    };
    let ghost first = first_minute_after(now as int);
    proof {
        lemma_fundamental_div_mod(now as int, 60_000_000);
        lemma_fundamental_div_mod_converse(
            u as int,
            60_000_000,
            now as int / 60_000_000 + SHIFT_MINUTES,
            now as int % 60_000_000,
        );
    }
    let s0: u64 = u / 60_000_000 + 1;
    assert(s0 - SHIFT_MINUTES == first);
    let end: u64 = s0 + CYCLE_MINUTES;
    let mut s: u64 = s0;
    while s < end && s <= SHIFT_MINUTES + MAX_MINUTE
        invariant
            tables_of(t, f),
            f == cron_fields(expr@),
            s0 - SHIFT_MINUTES == first,
            first == first_minute_after(now as int),
            cron_valid(expr@),
            in_time_range(now as int),
            end == s0 + CYCLE_MINUTES,
            s0 <= 300_000_000_000,
            s0 <= s <= end + 1440,
            forall|k: int| first <= k < s - SHIFT_MINUTES ==> !cron_matches(f, k),
        decreases end + 1440 - s,
    {
        let ds = s / 1440;
        if !day_ok(&t, ds, Ghost(f)) {
            let next = (ds + 1) * 1440;
            proof {
                assert forall|k: int| first <= k < next - SHIFT_MINUTES implies !cron_matches(f, k) by {
                    if k >= s - SHIFT_MINUTES {
                        lemma_shifted_minute(k + SHIFT_MINUTES, k);
                        lemma_fundamental_div_mod_converse(k + SHIFT_MINUTES, 1440, ds as int, k
                            + SHIFT_MINUTES - ds * 1440);
                    }
                }
            }
            s = next;
        } else {
            let mod_ = s % 1440;
            proof {
                lemma_shifted_minute(s as int, s - SHIFT_MINUTES);
            }
            if t.minutes[(mod_ % 60) as usize] && t.hours[(mod_ / 60) as usize] {
                let ghost m = s - SHIFT_MINUTES;
                assert(cron_matches(f, m));
                assert(m * 60_000_000 <= MAX_TIMESTAMP_MICROS) by (nonlinear_arith)
                    requires
                        m <= MAX_MINUTE,
                ;
                assert(is_first_match(expr@, now as int, m));
                proof {
                    let c = choose|m2: int| is_first_match(expr@, now as int, m2);
                    lemma_first_match_unique(expr@, now as int, c, m);
                    lemma_fundamental_div_mod(now as int, 60_000_000);
                    assert(now < m * 60_000_000) by (nonlinear_arith)
                        requires
                            m >= now / 60_000_000 + 1,
                            now == 60_000_000 * (now / 60_000_000) + now % 60_000_000,
                            now % 60_000_000 < 60_000_000,
                    ;
                    lemma_fundamental_div_mod_converse(m * 60_000_000, 60_000_000, m, 0);
                }
                if s >= SHIFT_MINUTES {
                    let ts: u64 = (s - SHIFT_MINUTES) * 60_000_000;
                    return Some(ts as i64);
                } else {
                    let back: u64 = (SHIFT_MINUTES - s) * 60_000_000;
                    return Some(0 - (back as i64));
                }
            }
            s = s + 1;
        }
    }
    proof {
        assert forall|m: int| !is_first_match(expr@, now as int, m) by {
            if is_first_match(expr@, now as int, m) {
                if s >= end {
                    if m >= s - SHIFT_MINUTES {
                        lemma_no_match_after_cycle(f, first, m);
                    }
                } else {
                    assert(m <= MAX_MINUTE) by (nonlinear_arith)
                        requires
                            m * 60_000_000 <= MAX_TIMESTAMP_MICROS,
                    ;
                }
            }
        }
    }
    None
}

} // verus!
