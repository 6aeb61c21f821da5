//! Timetables and the resolution of the activity that is current at a time of day.

use crate::clock::{hm_parsed, parse_hh_mm, END_OF_DAY, SECONDS_PER_DAY};
use crate::config::Entry;
use vstd::prelude::*;

verus! {

/// A timetable entry (a time-of-day text `HH:MM` as its key, the label of
/// the activity that starts then as its value) whose time has been read: its start in seconds since midnight,
/// or `None` where its text is malformed.
pub struct Slot {
    pub start: Option<u32>,
    pub label: String,
}

/// A slot as a mathematical value: its start and its label.
pub type SlotView = (Option<u32>, Seq<char>);

impl View for Slot {
    type V = SlotView;

    open spec fn view(&self) -> SlotView {
        (self.start, self.label@)
    }
}

/// The activity that is current, with its window and the minutes on each side.
pub struct ActivityState {
    pub activity_name: String,
    /// Start of the current activity, in seconds since midnight.
    pub activity_time: u32,
    /// Start of the next activity, in seconds since midnight.
    pub next_activity_time: u32,
    /// Whole minutes since `activity_time`.
    pub time_done: u32,
    /// Whole minutes until `next_activity_time`.
    pub time_remaining: u32,
}

pub ghost struct ActivityView {
    pub name: Seq<char>,
    pub start: int,
    pub next: int,
    pub done: int,
    pub remaining: int,
}

impl View for ActivityState {
    type V = ActivityView;

    open spec fn view(&self) -> ActivityView {
        ActivityView {
            name: self.activity_name@,
            start: self.activity_time as int,
            next: self.next_activity_time as int,
            done: self.time_done as int,
            remaining: self.time_remaining as int,
        }
    }
}

/// The label used where no entry has started yet.
pub open spec fn unknown_label() -> Seq<char> {
    seq!['U', 'n', 'k', 'n', 'o', 'w', 'n']
}

pub open spec fn slot_of_entry(e: Entry) -> SlotView {
    (hm_parsed(e.key@), e.value@)
}

/// The slots that a timetable's entries read as, in the same order.
pub open spec fn entry_slots(t: Seq<Entry>) -> Seq<SlotView> {
    t.map_values(|e: Entry| slot_of_entry(e))
}

pub open spec fn slot_views(s: Seq<Slot>) -> Seq<SlotView> {
    s.map_values(|x: Slot| x@)
}

/// A slot without a start, or one that starts on a minute boundary within the day.
pub open spec fn slot_on_minute(x: SlotView) -> bool {
    x.0 matches Some(t) ==> t < SECONDS_PER_DAY && t % 60 == 0
}

/// Every slot is as a parsed `HH:MM` time leaves it.
pub open spec fn slots_on_minutes(s: Seq<SlotView>) -> bool {
    forall|k: int| 0 <= k < s.len() ==> slot_on_minute(#[trigger] s[k])
}

pub open spec fn start_of(x: SlotView) -> int {
    match x.0 {
        Some(t) => t as int,
        None => 0,
    }
}

/// The slot has a start, and it is not later than `now`.
pub open spec fn starts_by(x: SlotView, now: int) -> bool {
    x.0 is Some && start_of(x) <= now
}

/// The slot has a start, and it is later than `now`.
pub open spec fn starts_after(x: SlotView, now: int) -> bool {
    x.0 is Some && now < start_of(x)
}

/// Slot `i` is the current one: among the slots that have started by `now`
/// its start is the latest, and no earlier slot starts at the same time.
pub open spec fn is_active_at(s: Seq<SlotView>, now: int, i: int) -> bool {
    &&& 0 <= i < s.len()
    &&& starts_by(s[i], now)
    &&& forall|j: int|
        0 <= j < s.len() && starts_by(#[trigger] s[j], now) ==> start_of(s[j]) <= start_of(s[i])
    &&& forall|j: int| 0 <= j < i && starts_by(#[trigger] s[j], now) ==> start_of(s[j]) < start_of(s[i])
}

/// `v` is the next boundary after `now`: the earliest start later than `now`,
/// or the end of the day where that comes first or no such start exists.
pub open spec fn is_next_boundary(s: Seq<SlotView>, now: int, v: int) -> bool {
    &&& v <= END_OF_DAY
    &&& forall|j: int| 0 <= j < s.len() && starts_after(#[trigger] s[j], now) ==> v <= start_of(s[j])
    &&& (v == END_OF_DAY || exists|j: int|
        0 <= j < s.len() && starts_after(#[trigger] s[j], now) && start_of(s[j]) == v)
}

/// The state that a sequence of slots resolves to at the time of day `now`.
pub open spec fn resolution(s: Seq<SlotView>, now: int) -> ActivityView {
    let name = if exists|i: int| is_active_at(s, now, i) {
        s[choose|i: int| is_active_at(s, now, i)].1
    } else {
        unknown_label()
    };
    let start = if exists|i: int| is_active_at(s, now, i) {
        start_of(s[choose|i: int| is_active_at(s, now, i)])
    } else {
        0
    };
    let next = if exists|v: int| is_next_boundary(s, now, v) {
        choose|v: int| is_next_boundary(s, now, v)
    } else {
        END_OF_DAY as int
    };
    ActivityView { name, start, next, done: (now - start) / 60, remaining: (next - now) / 60 }
}

proof fn lemma_active_unique(s: Seq<SlotView>, now: int, i: int, k: int)
    requires
        is_active_at(s, now, i),
        is_active_at(s, now, k),
    ensures
        i == k,
{
    assert(starts_by(s[i], now) && starts_by(s[k], now));
}

proof fn lemma_next_unique(s: Seq<SlotView>, now: int, v: int, w: int)
    requires
        is_next_boundary(s, now, v),
        is_next_boundary(s, now, w),
    ensures
        v == w,
{
}

/// Resolves the current activity of `slots` at the time of day `now`.
pub fn resolve_slots(slots: &Vec<Slot>, now: u32) -> (r: ActivityState)
    requires
        now < SECONDS_PER_DAY,
    ensures
        r@ == resolution(slot_views(slots@), now as int),
{
    let ghost s = slot_views(slots@);
    let mut best: Option<usize> = None;
    let mut best_time: u32 = 0;
    let mut next: u32 = END_OF_DAY;
    let mut i: usize = 0;
    while i < slots.len()
        invariant
            0 <= i <= slots.len(),
            s == slot_views(slots@),
            s.len() == slots@.len(),
            now < SECONDS_PER_DAY,
            best matches Some(b) ==> {
                &&& b < i
                &&& starts_by(s[b as int], now as int)
                &&& best_time == start_of(s[b as int])
                &&& forall|j: int|
                    0 <= j < i && starts_by(#[trigger] s[j], now as int) ==> start_of(s[j])
                        <= best_time
                &&& forall|j: int|
                    0 <= j < b && starts_by(#[trigger] s[j], now as int) ==> start_of(s[j])
                        < best_time
            },
            best is None ==> best_time == 0,
            best is None ==> forall|j: int| 0 <= j < i ==> !starts_by(#[trigger] s[j], now as int),
            next <= END_OF_DAY,
            forall|j: int|
                0 <= j < i && starts_after(#[trigger] s[j], now as int) ==> next <= start_of(s[j]),
            next == END_OF_DAY || exists|j: int|
                0 <= j < i && starts_after(#[trigger] s[j], now as int) && start_of(s[j]) == next,
        decreases slots.len() - i,
    {
        assert(s[i as int] == slots@[i as int]@);
        if let Some(t) = slots[i].start {
            if t <= now && (best.is_none() || best_time < t) {
                best = Some(i);
                best_time = t;
            }
            if now < t && t < next {
                next = t;
            }
        }
        i = i + 1;
    }
    proof {
        if next != END_OF_DAY {
            let j = choose|j: int|
                0 <= j < i && starts_after(#[trigger] s[j], now as int) && start_of(s[j]) == next;
        }
        assert(is_next_boundary(s, now as int, next as int));
        let v = choose|v: int| is_next_boundary(s, now as int, v);
        lemma_next_unique(s, now as int, v, next as int);
    }
    let name = match best {
        Some(b) => {
            proof {
                assert(is_active_at(s, now as int, b as int));
                let k = choose|k: int| is_active_at(s, now as int, k);
                lemma_active_unique(s, now as int, k, b as int);
                assert(s[b as int] == slots@[b as int]@);
            }
            slots[b].label.clone()
        },
        None => {
            proof {
                reveal_strlit("Unknown");
                if exists|k: int| is_active_at(s, now as int, k) {
                    let k = choose|k: int| is_active_at(s, now as int, k);
                    assert(starts_by(s[k], now as int));
                }
            }
            String::from_str("Unknown")
        },
    };
    proof {
        if best is None {
            assert(name@ =~= unknown_label());
        }
    }
    ActivityState {
        activity_name: name,
        activity_time: best_time,
        next_activity_time: next,
        time_done: (now - best_time) / 60,
        time_remaining: (next - now) / 60,
    }
}

/// Reads the time of each entry of `timetable`, in order.
pub fn read_slots(timetable: &Vec<Entry>) -> (r: Vec<Slot>)
    ensures
        slot_views(r@) == entry_slots(timetable@),
        slots_on_minutes(entry_slots(timetable@)),
{
    let mut slots: Vec<Slot> = Vec::new();
    let mut i: usize = 0;
    while i < timetable.len()
        invariant
            0 <= i <= timetable.len(),
            slots@.len() == i,
            forall|k: int| 0 <= k < i ==> slot_on_minute(#[trigger] slot_views(slots@)[k]),
            slot_views(slots@) =~= entry_slots(timetable@).take(i as int),
        decreases timetable.len() - i,
    {
        let e = &timetable[i];
        let slot = Slot { start: parse_hh_mm(e.key.as_str()), label: e.value.clone() };
        assert(slot@ == slot_of_entry(timetable@[i as int]));
        let ghost prev = slots@;
        slots.push(slot);
        i = i + 1;
        assert forall|k: int| 0 <= k < i implies slot_views(slots@)[k] == entry_slots(
            timetable@,
        )[k] by {
            if k < i - 1 {
                assert(slots@[k] == prev[k]);
                assert(slot_views(prev)[k] == entry_slots(timetable@).take(i - 1)[k]);
            }
        }
        assert(slot_views(slots@) =~= entry_slots(timetable@).take(i as int));
    }
    assert(entry_slots(timetable@).take(i as int) =~= entry_slots(timetable@));
    assert forall|k: int| 0 <= k < i implies slot_on_minute(
        #[trigger] entry_slots(timetable@)[k],
    ) by {
        assert(slot_views(slots@)[k] == entry_slots(timetable@)[k]);
    }
    slots
}

/// The activity of `timetable` that is current at the time of day `now`
/// (seconds since midnight). Entries whose time is malformed are passed over;
/// of two entries with the same start, the one listed first is current.
pub fn resolve(timetable: &Vec<Entry>, now: u32) -> (r: ActivityState)
    requires
        now < SECONDS_PER_DAY,
    ensures
        r@ == resolution(entry_slots(timetable@), now as int),
        slots_on_minutes(entry_slots(timetable@)),
{
    let slots = read_slots(timetable);
    resolve_slots(&slots, now)
}

proof fn lemma_active_exists(s: Seq<SlotView>, now: int)
    requires
        exists|j: int| 0 <= j < s.len() && starts_by(#[trigger] s[j], now),
    ensures
        exists|i: int| is_active_at(s, now, i),
    decreases s.len(),
{
    let n = s.len() - 1;
    let p = s.drop_last();
    assert(forall|j: int| 0 <= j < p.len() ==> p[j] == s[j]);
    if exists|j: int| 0 <= j < p.len() && starts_by(#[trigger] p[j], now) {
        lemma_active_exists(p, now);
        let k = choose|k: int| is_active_at(p, now, k);
        if starts_by(s[n], now) && start_of(s[k]) < start_of(s[n]) {
            assert(is_active_at(s, now, n));
        } else {
            assert(is_active_at(s, now, k));
        }
    } else {
        let j = choose|j: int| 0 <= j < s.len() && starts_by(#[trigger] s[j], now);
        if j < n {
            assert(p[j] == s[j]);
        }
        assert(is_active_at(s, now, n));
    }
}

proof fn lemma_next_exists(s: Seq<SlotView>, now: int)
    ensures
        exists|v: int| is_next_boundary(s, now, v),
    decreases s.len(),
{
    if s.len() == 0 {
        assert(is_next_boundary(s, now, END_OF_DAY as int));
    } else {
        let n = s.len() - 1;
        let p = s.drop_last();
        assert(forall|j: int| 0 <= j < p.len() ==> p[j] == s[j]);
        lemma_next_exists(p, now);
        let v = choose|v: int| is_next_boundary(p, now, v);
        if starts_after(s[n], now) && start_of(s[n]) < v {
            assert(is_next_boundary(s, now, start_of(s[n])));
        } else {
            if v != END_OF_DAY {
                let j = choose|j: int|
                    0 <= j < p.len() && starts_after(#[trigger] p[j], now) && start_of(p[j]) == v;
                assert(s[j] == p[j]);
            }
            assert(is_next_boundary(s, now, v));
        }
    }
}

/// The facts that the resolved state owes to its definition: the current
/// activity is one that has started, the next boundary is the earliest later
/// start or the end of the day.
proof fn lemma_resolution_facts(s: Seq<SlotView>, now: int)
    requires
        0 <= now < SECONDS_PER_DAY,
    ensures
        is_next_boundary(s, now, resolution(s, now).next),
        now <= resolution(s, now).next,
        (exists|j: int| 0 <= j < s.len() && starts_by(#[trigger] s[j], now)) ==> exists|i: int|
            is_active_at(s, now, i) && resolution(s, now).name == s[i].1 && resolution(
                s,
                now,
            ).start == start_of(s[i]),
        !(exists|j: int| 0 <= j < s.len() && starts_by(#[trigger] s[j], now)) ==> resolution(
            s,
            now,
        ).name == unknown_label() && resolution(s, now).start == 0,
        0 <= resolution(s, now).start <= now,
{
    lemma_next_exists(s, now);
    let v = resolution(s, now).next;
    if v != END_OF_DAY {
        let j = choose|j: int| 0 <= j < s.len() && starts_after(#[trigger] s[j], now) && start_of(s[j]) == v;
    }
    if exists|j: int| 0 <= j < s.len() && starts_by(#[trigger] s[j], now) {
        lemma_active_exists(s, now);
        let i = choose|i: int| is_active_at(s, now, i);
        assert(starts_by(s[i], now));
    } else {
        if exists|i: int| is_active_at(s, now, i) {
            let i = choose|i: int| is_active_at(s, now, i);
            assert(starts_by(s[i], now));
        }
    }
}

/// At any time of day the current activity started no later than that time.
/// Where some entry of the timetable has started by then, the current activity
/// is such an entry, with the latest start; an empty timetable resolves to
/// `Unknown` from `00:00:00` to `23:59:59`.
pub proof fn lemma_current_started_by_now(timetable: Seq<Entry>, now: int)
    requires
        0 <= now < SECONDS_PER_DAY,
    ensures
        resolution(entry_slots(timetable), now).start <= now,
        (exists|j: int| 0 <= j < timetable.len() && starts_by(#[trigger] entry_slots(timetable)[j], now))
            ==> exists|i: int|
            0 <= i < timetable.len() && is_active_at(entry_slots(timetable), now, i)
                && resolution(entry_slots(timetable), now).name == timetable[i].value@
                && resolution(entry_slots(timetable), now).start == start_of(
                entry_slots(timetable)[i],
            ),
        timetable.len() == 0 ==> resolution(entry_slots(timetable), now) == (ActivityView {
            name: unknown_label(),
            start: 0,
            next: END_OF_DAY as int,
            done: now / 60,
            remaining: (END_OF_DAY - now) / 60,
        }),
{
    let s = entry_slots(timetable);
    lemma_resolution_facts(s, now);
    if timetable.len() == 0 {
        assert(is_next_boundary(s, now, END_OF_DAY as int));
        lemma_next_unique(s, now, END_OF_DAY as int, resolution(s, now).next);
    }
}

proof fn lemma_minute_split(a: int, now: int, next: int)
    requires
        0 <= a <= now <= next,
        a % 60 == 0,
        now % 60 == 0 || next % 60 == 59,
    ensures
        (now - a) / 60 + (next - now) / 60 == (next - a) / 60,
{
    let big_a = a / 60;
    let big_n = now / 60;
    let q = now % 60;
    let big_m = next / 60;
    let r = next % 60;
    vstd::arithmetic::div_mod::lemma_fundamental_div_mod(a, 60);
    vstd::arithmetic::div_mod::lemma_fundamental_div_mod(now, 60);
    vstd::arithmetic::div_mod::lemma_fundamental_div_mod(next, 60);
    vstd::arithmetic::div_mod::lemma_fundamental_div_mod_converse(
        now - a,
        60,
        big_n - big_a,
        q,
    );
    if q == 0 {
        vstd::arithmetic::div_mod::lemma_fundamental_div_mod_converse(
            next - now,
            60,
            big_m - big_n,
            r,
        );
    } else {
        vstd::arithmetic::div_mod::lemma_fundamental_div_mod_converse(
            next - now,
            60,
            big_m - big_n,
            59 - q,
        );
    }
    vstd::arithmetic::div_mod::lemma_fundamental_div_mod_converse(next - a, 60, big_m - big_a, r);
}

/// The minutes done and the minutes remaining add up to the whole minutes
/// between the current activity's start and the next boundary. This holds
/// whenever the clock stands on a minute boundary, and at any second when the
/// boundary is the end of the day; between a mid-minute clock and a later
/// entry the two floored counts lose one minute.
pub proof fn lemma_minutes_add_up(s: Seq<SlotView>, now: int)
    requires
        0 <= now < SECONDS_PER_DAY,
        slots_on_minutes(s),
        now % 60 == 0 || resolution(s, now).next == END_OF_DAY,
    ensures
        resolution(s, now).done + resolution(s, now).remaining == (resolution(s, now).next
            - resolution(s, now).start) / 60,
{
    lemma_resolution_facts(s, now);
    let r = resolution(s, now);
    if exists|j: int| 0 <= j < s.len() && starts_by(#[trigger] s[j], now) {
        let i = choose|i: int| is_active_at(s, now, i) && r.name == s[i].1 && r.start == start_of(s[i]);
        assert(slot_on_minute(s[i]));
    }
    if r.next != END_OF_DAY {
        let j = choose|j: int| 0 <= j < s.len() && starts_after(#[trigger] s[j], now) && start_of(s[j]) == r.next;
        assert(slot_on_minute(s[j]));
    }
    lemma_minute_split(r.start, now, r.next);
}

proof fn lemma_startless_slot_ignored(s: Seq<SlotView>, i: int, now: int)
    requires
        0 <= i < s.len(),
        s[i].0 is None,
    ensures
        resolution(s.remove(i), now) == resolution(s, now),
{
    let r = s.remove(i);
    assert forall|k: int| 0 <= k < r.len() implies #[trigger] r[k] == s[if k < i {
        k
    } else {
        k + 1
    }] by {}
    assert forall|k: int| #[trigger] is_active_at(r, now, k) implies is_active_at(
        s,
        now,
        if k < i {
            k
        } else {
            k + 1
        },
    ) by {
        let m = if k < i {
            k
        } else {
            k + 1
        };
        assert(r[k] == s[m]);
        assert forall|j: int| 0 <= j < s.len() && starts_by(#[trigger] s[j], now) implies start_of(
            s[j],
        ) <= start_of(s[m]) by {
            let jj = if j < i {
                j
            } else {
                j - 1
            };
            assert(r[jj] == s[j]);
        }
        assert forall|j: int| 0 <= j < m && starts_by(#[trigger] s[j], now) implies start_of(s[j])
            < start_of(s[m]) by {
            let jj = if j < i {
                j
            } else {
                j - 1
            };
            assert(r[jj] == s[j]);
        }
    }
    assert forall|m: int| #[trigger] is_active_at(s, now, m) implies is_active_at(
        r,
        now,
        if m < i {
            m
        } else {
            m - 1
        },
    ) by {
        let k = if m < i {
            m
        } else {
            m - 1
        };
        assert(r[k] == s[m]);
        assert forall|j: int| 0 <= j < r.len() && starts_by(#[trigger] r[j], now) implies start_of(
            r[j],
        ) <= start_of(r[k]) by {
            let jj = if j < i {
                j
            } else {
                j + 1
            };
            assert(r[j] == s[jj]);
        }
        assert forall|j: int| 0 <= j < k && starts_by(#[trigger] r[j], now) implies start_of(r[j])
            < start_of(r[k]) by {
            let jj = if j < i {
                j
            } else {
                j + 1
            };
            assert(r[j] == s[jj]);
        }
    }
    assert forall|v: int| #[trigger] is_next_boundary(r, now, v) implies is_next_boundary(
        s,
        now,
        v,
    ) by {
        assert forall|j: int| 0 <= j < s.len() && starts_after(#[trigger] s[j], now) implies v
            <= start_of(s[j]) by {
            let jj = if j < i {
                j
            } else {
                j - 1
            };
            assert(r[jj] == s[j]);
        }
        if v != END_OF_DAY {
            let k = choose|k: int|
                0 <= k < r.len() && starts_after(#[trigger] r[k], now) && start_of(r[k]) == v;
            let m = if k < i {
                k
            } else {
                k + 1
            };
            assert(r[k] == s[m]);
        }
    }
    assert forall|v: int| #[trigger] is_next_boundary(s, now, v) implies is_next_boundary(
        r,
        now,
        v,
    ) by {
        assert forall|j: int| 0 <= j < r.len() && starts_after(#[trigger] r[j], now) implies v
            <= start_of(r[j]) by {
            let jj = if j < i {
                j
            } else {
                j + 1
            };
            assert(r[j] == s[jj]);
        }
        if v != END_OF_DAY {
            let m = choose|m: int|
                0 <= m < s.len() && starts_after(#[trigger] s[m], now) && start_of(s[m]) == v;
            let k = if m < i {
                m
            } else {
                m - 1
            };
            assert(r[k] == s[m]);
        }
    }
    if exists|m: int| is_active_at(s, now, m) {
        let m = choose|m: int| is_active_at(s, now, m);
        let k = if m < i {
            m
        } else {
            m - 1
        };
        assert(is_active_at(r, now, k));
        let k2 = choose|k: int| is_active_at(r, now, k);
        let m2 = if k2 < i {
            k2
        } else {
            k2 + 1
        };
        assert(is_active_at(s, now, m2));
        lemma_active_unique(s, now, m2, m);
        assert(r[k2] == s[m2]);
    } else {
        if exists|k: int| is_active_at(r, now, k) {
            let k = choose|k: int| is_active_at(r, now, k);
            assert(is_active_at(s, now, if k < i { k } else { k + 1 }));
        }
    }
    lemma_next_exists(s, now);
    lemma_next_exists(r, now);
    let v = choose|v: int| is_next_boundary(s, now, v);
    let w = choose|v: int| is_next_boundary(r, now, v);
    assert(is_next_boundary(s, now, w));
    lemma_next_unique(s, now, v, w);
}

/// An entry whose time is malformed has no effect: the timetable resolves to
/// the same state, at every time of day, with that entry as without it.
pub proof fn lemma_malformed_entry_ignored(timetable: Seq<Entry>, i: int, now: int)
    requires
        0 <= i < timetable.len(),
        hm_parsed(timetable[i].key@) is None,
    ensures
        resolution(entry_slots(timetable.remove(i)), now) == resolution(entry_slots(timetable), now),
{
    assert(entry_slots(timetable.remove(i)) =~= entry_slots(timetable).remove(i));
    lemma_startless_slot_ignored(entry_slots(timetable), i, now);
}

/// On slots that a timetable reads as, the current activity starts on a
/// minute boundary, no later than `now`.
pub proof fn lemma_start_on_minute(s: Seq<SlotView>, now: int)
    requires
        0 <= now < SECONDS_PER_DAY,
        slots_on_minutes(s),
    ensures
        resolution(s, now).start % 60 == 0,
        0 <= resolution(s, now).start <= now,
{
    lemma_resolution_facts(s, now);
    let r = resolution(s, now);
    if exists|j: int| 0 <= j < s.len() && starts_by(#[trigger] s[j], now) {
        let i = choose|i: int| is_active_at(s, now, i) && r.name == s[i].1 && r.start == start_of(s[i]);
        assert(slot_on_minute(s[i]));
    }
}

} // verus!
