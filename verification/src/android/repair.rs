//! The repair of wall-clock times that run backward.

use crate::android::{
    Android, AndroidEvent, Clock, Duration, EventMonotonic, EventTime, NANOS_PER_SECOND,
};
use crate::android::repair_laws::{lemma_first_regression_stays, lemma_repaired_consistent};
use std::collections::HashMap;
use vstd::prelude::*;
use vstd::std_specs::hash::group_hash_axioms;

verus! {

/// The wall-clock time of an event in nanoseconds, where the event has
/// both the seconds and the nanoseconds of one.
pub open spec fn wall_time(e: AndroidEvent) -> Option<int> {
    match e.time.monotonic {
        Some(m) => match m.wall {
            Some(w) => match (w.secs, w.nanos) {
                (Some(secs), Some(nanos)) => Some(secs * NANOS_PER_SECOND + nanos),
                _ => None,
            },
            None => None,
        },
        None => None,
    }
}

/// The event with its wall-clock time, where it has one, replaced by `t`.
pub open spec fn with_wall_time(e: AndroidEvent, t: int) -> AndroidEvent {
    match e.time.monotonic {
        Some(m) => match m.wall {
            Some(w) => AndroidEvent {
                time: EventTime {
                    monotonic: Some(
                        EventMonotonic {
                            wall: Some(
                                Duration {
                                    secs: Some((t / NANOS_PER_SECOND as int) as u64),
                                    nanos: Some((t % NANOS_PER_SECOND as int) as u64),
                                },
                            ),
                            ..m
                        },
                    ),
                    ..e.time
                },
                ..e
            },
            None => e,
        },
        None => e,
    }
}

fn set_wall(e: &mut AndroidEvent, t: u64)
    ensures
        *final(e) == with_wall_time(*old(e), t as int),
{
    let time = e.time;
    match time.monotonic {
        Some(m) => match m.wall {
            Some(w) => {
                e.time = EventTime {
                    global: time.global,
                    monotonic: Some(
                        EventMonotonic {
                            wall: Some(
                                Duration {
                                    secs: Some(t / NANOS_PER_SECOND),
                                    nanos: Some(t % NANOS_PER_SECOND),
                                },
                            ),
                            cpu: m.cpu,
                        },
                    ),
                };
            },
            None => {},
        },
        None => {},
    }
}

/// What the scan remembers of each thread: the highest time seen so far
/// and the time of its latest event.
pub struct Trackers {
    pub max: Map<u64, int>,
    pub latest: Map<u64, int>,
}

/// The value kept for a thread, 0 where none is kept.
pub open spec fn kept(m: Map<u64, int>, thread_id: u64) -> int {
    if m.contains_key(thread_id) {
        m[thread_id]
    } else {
        0
    }
}

/// The map with the value of a thread raised to `t` where it was lower or
/// missing.
pub open spec fn raised(m: Map<u64, int>, thread_id: u64, t: int) -> Map<u64, int> {
    m.insert(
        thread_id,
        if m.contains_key(thread_id) && m[thread_id] > t {
            m[thread_id]
        } else {
            t
        },
    )
}

/// The trackers after the first `i` events have been read as they are.
pub open spec fn scanned(events: Seq<AndroidEvent>, i: int) -> Trackers
    decreases i,
{
    if i <= 0 {
        Trackers { max: Map::empty(), latest: Map::empty() }
    } else {
        let before = scanned(events, i - 1);
        match wall_time(events[i - 1]) {
            Some(t) => Trackers {
                max: raised(before.max, events[i - 1].thread_id, t),
                latest: before.latest.insert(events[i - 1].thread_id, t),
            },
            None => before,
        }
    }
}

/// The event at `i` is earlier than the latest event before it on the same
/// thread.
pub open spec fn regresses_at(events: Seq<AndroidEvent>, i: int) -> bool {
    &&& wall_time(events[i]) is Some
    &&& scanned(events, i).latest.contains_key(events[i].thread_id)
    &&& wall_time(events[i])->0 < scanned(events, i).latest[events[i].thread_id]
}

/// The first index below `n` at which a thread's time runs backward.
pub open spec fn first_regression(events: Seq<AndroidEvent>, n: int) -> Option<int>
    decreases n,
{
    if n <= 0 {
        None
    } else {
        match first_regression(events, n - 1) {
            Some(r) => Some(r),
            None => if regresses_at(events, n - 1) {
                Some(n - 1)
            } else {
                None
            },
        }
    }
}

/// The time given to an event that reads `current`, on a thread whose
/// highest time so far is `max` and whose latest event read `latest`. An
/// event that is behind both is put one second after the highest time; any
/// other keeps its distance from the latest event.
pub open spec fn adjusted_time(max: int, latest: int, current: int) -> int {
    if current < max && current < latest {
        max + NANOS_PER_SECOND
    } else {
        max + (current - latest)
    }
}

/// The trackers after the events from `r` up to `i` have been repaired.
pub open spec fn repaired_trackers(events: Seq<AndroidEvent>, r: int, i: int) -> Trackers
    decreases i - r,
{
    if i <= r {
        scanned(events, r)
    } else {
        let before = repaired_trackers(events, r, i - 1);
        match wall_time(events[i - 1]) {
            Some(current) => Trackers {
                max: raised(
                    before.max,
                    events[i - 1].thread_id,
                    adjusted_time(
                        kept(before.max, events[i - 1].thread_id),
                        kept(before.latest, events[i - 1].thread_id),
                        current,
                    ),
                ),
                latest: before.latest.insert(events[i - 1].thread_id, current),
            },
            None => before,
        }
    }
}

/// The time that the repair, starting at `r`, gives to the event at `i`.
pub open spec fn repaired_time(events: Seq<AndroidEvent>, r: int, i: int) -> int {
    adjusted_time(
        kept(repaired_trackers(events, r, i).max, events[i].thread_id),
        kept(repaired_trackers(events, r, i).latest, events[i].thread_id),
        wall_time(events[i])->0,
    )
}

/// The events after the repair: from the first regression on, every event
/// that has a wall-clock time gets its repaired time. Without a regression
/// nothing changes.
pub open spec fn repaired_events(events: Seq<AndroidEvent>) -> Seq<AndroidEvent> {
    match first_regression(events, events.len() as int) {
        None => events,
        Some(r) => Seq::new(
            events.len(),
            |i: int|
                if r <= i && wall_time(events[i]) is Some {
                    with_wall_time(events[i], repaired_time(events, r, i))
                } else {
                    events[i]
                },
        ),
    }
}

/// Every time that the repair reads or writes fits in 64 bits.
pub open spec fn repair_fits(events: Seq<AndroidEvent>) -> bool {
    &&& forall|i: int|
        0 <= i < events.len() && wall_time(#[trigger] events[i]) is Some ==> wall_time(events[i])->0
            <= u64::MAX
    &&& first_regression(events, events.len() as int) matches Some(r) ==> forall|i: int|
        r <= i < events.len() && wall_time(#[trigger] events[i]) is Some ==> repaired_time(
            events,
            r,
            i,
        ) <= u64::MAX
}

/// A clock that cannot run backward: its times are left alone.
pub open spec fn monotonic_clock(clock: Clock) -> bool {
    clock is Global || clock is Cpu
}

/// The trackers hold, for every thread, times that are not negative, and
/// no latest time above the highest.
pub open spec fn trackers_consistent(tr: Trackers) -> bool {
    &&& forall|k: u64| tr.max.contains_key(k) <==> tr.latest.contains_key(k)
    &&& forall|k: u64| #[trigger]
        tr.latest.contains_key(k) ==> 0 <= tr.latest[k] <= tr.max[k]
}

/// The map of the run holds what the map of the model holds.
pub open spec fn same_map(m: Map<u64, u64>, t: Map<u64, int>) -> bool {
    &&& forall|k: u64| m.contains_key(k) <==> t.contains_key(k)
    &&& forall|k: u64| #[trigger] m.contains_key(k) ==> m[k] as int == t[k]
}

// max_time_ns: the highest time (in nanoseconds) in the sequence so far
// latest_ns: the latest time value in ns (at time t-1) before it was updated
// current_ns: current value in ns (at time t) before it's updated.
pub fn get_adjusted_time(max_time_ns: u64, latest_ns: u64, current_ns: u64) -> (r: u64)
    requires
        current_ns < latest_ns ==> current_ns < max_time_ns,
        adjusted_time(max_time_ns as int, latest_ns as int, current_ns as int) <= u64::MAX,
    ensures
        r == adjusted_time(max_time_ns as int, latest_ns as int, current_ns as int),
{
    if current_ns < max_time_ns && current_ns < latest_ns {
        max_time_ns + NANOS_PER_SECOND
    } else {
        max_time_ns + (current_ns - latest_ns)
    }
}

/// The adjusted time where it fits in 64 bits.
pub fn checked_adjusted_time(max_time_ns: u64, latest_ns: u64, current_ns: u64) -> (r: Option<u64>)
    requires
        current_ns < latest_ns ==> current_ns < max_time_ns,
    ensures
        match r {
            Some(t) => t == adjusted_time(max_time_ns as int, latest_ns as int, current_ns as int),
            None => adjusted_time(max_time_ns as int, latest_ns as int, current_ns as int)
                > u64::MAX,
        },
{
    let step = if current_ns < max_time_ns && current_ns < latest_ns {
        NANOS_PER_SECOND
    } else {
        current_ns - latest_ns
    };
    if step <= u64::MAX - max_time_ns {
        Some(get_adjusted_time(max_time_ns, latest_ns, current_ns))
    } else {
        None
    }
}

/// The wall-clock time of an event where it has one that fits in 64 bits.
/// The outer `None` says that it has one that does not fit.
pub fn read_wall_time(e: &AndroidEvent) -> (r: Option<Option<u64>>)
    ensures
        match r {
            Some(Some(t)) => wall_time(*e) == Some(t as int),
            Some(None) => wall_time(*e) is None,
            None => wall_time(*e) is Some && wall_time(*e)->0 > u64::MAX,
        },
{
    let (secs, nanos) = match e.time.monotonic {
        Some(m) => match m.wall {
            Some(w) => (w.secs, w.nanos),
            None => (None, None),
        },
        None => (None, None),
    };
    match (secs, nanos) {
        (Some(secs), Some(nanos)) => {
            if secs > (u64::MAX - nanos) / NANOS_PER_SECOND {
                assert(secs * NANOS_PER_SECOND + nanos > u64::MAX) by (nonlinear_arith)
                    requires
                        secs > (u64::MAX - nanos) / (NANOS_PER_SECOND as int),
                        NANOS_PER_SECOND == 1_000_000_000,
                        0 <= nanos <= u64::MAX,
                ;
                None
            } else {
                assert(secs * NANOS_PER_SECOND + nanos <= u64::MAX) by (nonlinear_arith)
                    requires
                        0 <= secs <= (u64::MAX - nanos) / (NANOS_PER_SECOND as int),
                        NANOS_PER_SECOND == 1_000_000_000,
                        0 <= nanos <= u64::MAX,
                ;
                Some(Some(secs * NANOS_PER_SECOND + nanos))
            }
        },
        _ => Some(None),
    }
}

/// `t` is the wall-clock time `w`, or both are missing.
pub open spec fn same_time(t: Option<u64>, w: Option<int>) -> bool {
    match t {
        Some(x) => w == Some(x as int),
        None => w is None,
    }
}

/// `times` holds the wall-clock time of each event.
pub open spec fn times_of(times: Seq<Option<u64>>, events: Seq<AndroidEvent>) -> bool {
    &&& times.len() == events.len()
    &&& forall|i: int| 0 <= i < times.len() ==> same_time(#[trigger] times[i], wall_time(events[i]))
}

fn raw_times(events: &Vec<AndroidEvent>) -> (r: Option<Vec<Option<u64>>>)
    ensures
        match r {
            Some(times) => times_of(times@, events@),
            None => exists|i: int|
                0 <= i < events@.len() && wall_time(#[trigger] events@[i]) is Some && wall_time(
                    events@[i],
                )->0 > u64::MAX,
        },
{
    let mut times: Vec<Option<u64>> = Vec::new();
    let mut i: usize = 0;
    while i < events.len()
        invariant
            i <= events.len(),
            times@.len() == i,
            forall|k: int| 0 <= k < i ==> same_time(#[trigger] times@[k], wall_time(events@[k])),
        decreases events.len() - i,
    {
        match read_wall_time(&events[i]) {
            Some(t) => times.push(t),
            None => {
                return None;
            },
        }
        i += 1;
    }
    Some(times)
}

fn find_regression(events: &Vec<AndroidEvent>, times: &Vec<Option<u64>>) -> (r: (
    Option<usize>,
    HashMap<u64, u64>,
    HashMap<u64, u64>,
))
    requires
        times_of(times@, events@),
    ensures
        match r.0 {
            Some(i) => {
                &&& i < events@.len()
                &&& first_regression(events@, events@.len() as int) == Some(i as int)
                &&& same_map(r.1@, scanned(events@, i as int).max)
                &&& same_map(r.2@, scanned(events@, i as int).latest)
            },
            None => first_regression(events@, events@.len() as int) is None,
        },
{
    broadcast use group_hash_axioms;

    let mut max_ns: HashMap<u64, u64> = HashMap::new();
    let mut latest_ns: HashMap<u64, u64> = HashMap::new();
    let mut i: usize = 0;
    while i < events.len()
        invariant
            i <= events.len(),
            times_of(times@, events@),
            first_regression(events@, i as int) is None,
            same_map(max_ns@, scanned(events@, i as int).max),
            same_map(latest_ns@, scanned(events@, i as int).latest),
        decreases events.len() - i,
    {
        match times[i] {
            Some(current) => {
                let thread_id = events[i].thread_id;
                let regressed = match latest_ns.get(&thread_id) {
                    Some(latest) => current < *latest,
                    None => false,
                };
                assert(regressed == regresses_at(events@, i as int));
                if regressed {
                    proof {
                        lemma_first_regression_stays(events@, i + 1, events@.len() as int);
                    }
                    return (Some(i), max_ns, latest_ns);
                }
                latest_ns.insert(thread_id, current);
                let highest = match max_ns.get(&thread_id) {
                    Some(max) => if *max > current {
                        *max
                    } else {
                        current
                    },
                    None => current,
                };
                max_ns.insert(thread_id, highest);
            },
            None => {},
        }
        i += 1;
    }
    (None, max_ns, latest_ns)
}

fn repaired_times(
    events: &Vec<AndroidEvent>,
    times: &Vec<Option<u64>>,
    r: usize,
    max_ns: HashMap<u64, u64>,
    latest_ns: HashMap<u64, u64>,
) -> (out: Option<Vec<u64>>)
    requires
        r <= events@.len(),
        times_of(times@, events@),
        same_map(max_ns@, scanned(events@, r as int).max),
        same_map(latest_ns@, scanned(events@, r as int).latest),
    ensures
        match out {
            Some(v) => {
                &&& v@.len() == events@.len() - r
                &&& forall|i: int|
                    r <= i < events@.len() && wall_time(#[trigger] events@[i]) is Some ==> v@[i - r]
                        == repaired_time(events@, r as int, i)
            },
            None => exists|i: int|
                r <= i < events@.len() && wall_time(#[trigger] events@[i]) is Some && repaired_time(
                    events@,
                    r as int,
                    i,
                ) > u64::MAX,
        },
{
    broadcast use group_hash_axioms;

    let mut max_ns = max_ns;
    let mut latest_ns = latest_ns;
    let mut out: Vec<u64> = Vec::new();
    let mut i: usize = r;
    while i < events.len()
        invariant
            r <= i <= events.len(),
            times_of(times@, events@),
            out@.len() == i - r,
            forall|k: int|
                r <= k < i && wall_time(#[trigger] events@[k]) is Some ==> out@[k - r]
                    == repaired_time(events@, r as int, k),
            same_map(max_ns@, repaired_trackers(events@, r as int, i as int).max),
            same_map(latest_ns@, repaired_trackers(events@, r as int, i as int).latest),
        decreases events.len() - i,
    {
        proof {
            lemma_repaired_consistent(events@, r as int, i as int);
        }
        match times[i] {
            Some(current) => {
                let thread_id = events[i].thread_id;
                let max_time = match max_ns.get(&thread_id) {
                    Some(max) => *max,
                    None => 0,
                };
                let latest_time = match latest_ns.get(&thread_id) {
                    Some(latest) => *latest,
                    None => 0,
                };
                let ghost tr = repaired_trackers(events@, r as int, i as int);
                assert(max_time == kept(tr.max, thread_id));
                assert(latest_time == kept(tr.latest, thread_id));
                assert(latest_time <= max_time) by {
                    if tr.latest.contains_key(thread_id) {
                    }
                }
                let new_time = match checked_adjusted_time(max_time, latest_time, current) {
                    Some(t) => t,
                    None => {
                        return None;
                    },
                };
                let highest = match max_ns.get(&thread_id) {
                    Some(max) => if *max > new_time {
                        *max
                    } else {
                        new_time
                    },
                    None => new_time,
                };
                max_ns.insert(thread_id, highest);
                latest_ns.insert(thread_id, current);
                out.push(new_time);
            },
            None => {
                out.push(0);
            },
        }
        i += 1;
    }
    Some(out)
}

fn write_times(
    events: &mut Vec<AndroidEvent>,
    times: &Vec<Option<u64>>,
    r: usize,
    new_times: &Vec<u64>,
)
    requires
        r <= old(events)@.len(),
        times@.len() == old(events)@.len(),
        new_times@.len() == old(events)@.len() - r,
    ensures
        final(events)@.len() == old(events)@.len(),
        forall|i: int|
            0 <= i < old(events)@.len() ==> #[trigger] final(events)@[i] == if r <= i
                && times@[i] is Some {
                with_wall_time(old(events)@[i], new_times@[i - r] as int)
            } else {
                old(events)@[i]
            },
{
    let n = events.len();
    let mut i: usize = r;
    while i < n
        invariant
            r <= i <= n,
            n == events@.len(),
            n == old(events)@.len(),
            times@.len() == n,
            new_times@.len() == n - r,
            forall|k: int|
                0 <= k < n ==> #[trigger] events@[k] == if r <= k < i && times@[k] is Some {
                    with_wall_time(old(events)@[k], new_times@[k - r] as int)
                } else {
                    old(events)@[k]
                },
        decreases n - i,
    {
        if times[i].is_some() {
            set_wall(&mut events[i], new_times[i - r]);
        }
        i += 1;
    }
}

impl Android {
    /// Repairs the wall-clock times where they fit in 64 bits, and says
    /// whether they did. Where they do not, nothing is changed.
    pub fn try_fix_samples_time(&mut self) -> (ok: bool)
        ensures
            ok == (monotonic_clock(old(self).clock) || repair_fits(old(self).events@)),
            final(self).clock == old(self).clock,
            final(self).methods == old(self).methods,
            final(self).start_time == old(self).start_time,
            final(self).threads == old(self).threads,
            final(self).events@ == if ok && !monotonic_clock(old(self).clock) {
                repaired_events(old(self).events@)
            } else {
                old(self).events@
            },
    {
        match self.clock {
            Clock::Global | Clock::Cpu => {
                return true;
            },
            _ => {},
        }
        let ghost before = self.events@;
        let times = match raw_times(&self.events) {
            Some(times) => times,
            None => {
                return false;
            },
        };
        assert forall|i: int|
            0 <= i < before.len() && wall_time(#[trigger] before[i]) is Some implies wall_time(
            before[i],
        )->0 <= u64::MAX by {
            assert(same_time(times@[i], wall_time(before[i])));
        }
        let (regression, max_ns, latest_ns) = find_regression(&self.events, &times);
        let r = match regression {
            Some(r) => r,
            None => {
                return true;
            },
        };
        let new_times = match repaired_times(&self.events, &times, r, max_ns, latest_ns) {
            Some(v) => v,
            None => {
                return false;
            },
        };
        write_times(&mut self.events, &times, r, &new_times);
        proof {
            let want = repaired_events(before);
            assert forall|i: int| 0 <= i < before.len() implies self.events@[i] == want[i] by {
                assert(same_time(times@[i], wall_time(before[i])));
            }
            assert(self.events@ =~= want);
        }
        true
    }

    /// Wall-clock time is supposed to be monotonic; in a few rare cases it
    /// is not, and the sequence decreases at certain points. From the first
    /// such point on, every event is given a time that does not fall behind
    /// its thread. The times of a clock that cannot run backward are left
    /// alone.
    pub fn fix_samples_time(&mut self)
        requires
            monotonic_clock(old(self).clock) || repair_fits(old(self).events@),
        ensures
            final(self).clock == old(self).clock,
            final(self).methods == old(self).methods,
            final(self).start_time == old(self).start_time,
            final(self).threads == old(self).threads,
            final(self).events@ == if monotonic_clock(old(self).clock) {
                old(self).events@
            } else {
                repaired_events(old(self).events@)
            },
    {
        let _ = self.try_fix_samples_time();
    }
}

} // verus!
