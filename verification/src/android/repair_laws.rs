//! What holds of the repair of wall-clock times.

use crate::android::AndroidEvent;
use crate::android::repair::{
    adjusted_time, first_regression, kept, regresses_at, repair_fits, repaired_events,
    repaired_time, repaired_trackers, scanned, trackers_consistent, wall_time,
};
use vstd::prelude::*;

verus! {

/// The trackers of the scan are consistent.
pub proof fn lemma_scanned_consistent(events: Seq<AndroidEvent>, i: int)
    ensures
        trackers_consistent(scanned(events, i)),
    decreases i,
{
    if i > 0 {
        lemma_scanned_consistent(events, i - 1);
    }
}

/// The trackers of the repair are consistent.
pub proof fn lemma_repaired_consistent(events: Seq<AndroidEvent>, r: int, i: int)
    ensures
        trackers_consistent(repaired_trackers(events, r, i)),
    decreases i - r,
{
    if i <= r {
        lemma_scanned_consistent(events, r);
    } else {
        lemma_repaired_consistent(events, r, i - 1);
    }
}

/// A regression, once found, is the first for every longer prefix.
pub proof fn lemma_first_regression_stays(events: Seq<AndroidEvent>, n: int, later: int)
    requires
        n <= later,
        first_regression(events, n) is Some,
    ensures
        first_regression(events, later) == first_regression(events, n),
    decreases later - n,
{
    if n < later {
        lemma_first_regression_stays(events, n, later - 1);
    }
}

/// The time that the event at `i` has after a repair that starts at the
/// regression `r`: its own before `r`, its repaired time from `r` on.
pub open spec fn time_after(events: Seq<AndroidEvent>, r: int, i: int) -> int {
    if r <= i {
        repaired_time(events, r, i)
    } else {
        wall_time(events[i])->0
    }
}

/// The time that the event at `i` has after the repair.
pub open spec fn final_time(events: Seq<AndroidEvent>, i: int) -> int {
    match first_regression(events, events.len() as int) {
        Some(r) => time_after(events, r, i),
        None => wall_time(events[i])->0,
    }
}

/// The thread `thread_id` never runs backward: of two of its events the
/// later one is no earlier in time.
pub open spec fn thread_in_order(events: Seq<AndroidEvent>, thread_id: u64) -> bool {
    forall|i: int, j: int|
        0 <= i < j < events.len() && (#[trigger] events[i]).thread_id == thread_id && (
        #[trigger] events[j]).thread_id == thread_id && wall_time(events[i]) is Some && wall_time(
            events[j],
        ) is Some ==> wall_time(events[i])->0 <= wall_time(events[j])->0
}

/// The first regression lies below `n`, is one, and has none before it.
pub proof fn lemma_first_regression_is_first(events: Seq<AndroidEvent>, n: int)
    requires
        first_regression(events, n) is Some,
    ensures
        0 <= first_regression(events, n)->0 < n,
        regresses_at(events, first_regression(events, n)->0),
        first_regression(events, first_regression(events, n)->0) is None,
    decreases n,
{
    if n > 0 && first_regression(events, n - 1) is Some {
        lemma_first_regression_is_first(events, n - 1);
    }
}

/// No regression below `n` means none below any smaller bound.
pub proof fn lemma_no_regression_before(events: Seq<AndroidEvent>, n: int, m: int)
    requires
        m <= n,
        first_regression(events, n) is None,
    ensures
        first_regression(events, m) is None,
        0 <= m < n ==> !regresses_at(events, m),
    decreases n - m,
{
    if m < n {
        lemma_no_regression_before(events, n - 1, m);
    }
}

/// Before any regression, the latest time kept for a thread is the time of
/// one of its events, and none of its events so far is later.
pub proof fn lemma_scan_keeps_latest(events: Seq<AndroidEvent>, n: int)
    requires
        0 <= n <= events.len(),
        first_regression(events, n) is None,
    ensures
        forall|k: int|
            0 <= k < n && wall_time(#[trigger] events[k]) is Some ==> scanned(
                events,
                n,
            ).latest.contains_key(events[k].thread_id) && wall_time(events[k])->0 <= scanned(
                events,
                n,
            ).latest[events[k].thread_id],
        forall|t: u64| #[trigger]
            scanned(events, n).latest.contains_key(t) ==> exists|k: int|
                0 <= k < n && (#[trigger] events[k]).thread_id == t && wall_time(events[k])
                    == Some(scanned(events, n).latest[t]),
    decreases n,
{
    if n > 0 {
        lemma_no_regression_before(events, n, n - 1);
        lemma_scan_keeps_latest(events, n - 1);
        let before = scanned(events, n - 1);
        let after = scanned(events, n);
        let e = events[n - 1];
        assert forall|k: int| 0 <= k < n && wall_time(#[trigger] events[k]) is Some implies
            after.latest.contains_key(events[k].thread_id) && wall_time(events[k])->0
            <= after.latest[events[k].thread_id] by {
            if k < n - 1 {
                assert(before.latest.contains_key(events[k].thread_id));
            }
        }
        assert forall|t: u64| #[trigger] after.latest.contains_key(t) implies exists|k: int|
            0 <= k < n && (#[trigger] events[k]).thread_id == t && wall_time(events[k]) == Some(
                after.latest[t],
            ) by {
            if wall_time(e) is Some && e.thread_id == t {
                assert(events[n - 1].thread_id == t);
            } else {
                assert(before.latest.contains_key(t));
                let k = choose|k: int|
                    0 <= k < n - 1 && (#[trigger] events[k]).thread_id == t && wall_time(events[k])
                        == Some(before.latest[t]);
                assert(events[k].thread_id == t);
            }
        }
    }
}

/// An adjusted time is never below the highest time of its thread, given
/// that the latest time is not above the highest.
pub proof fn lemma_adjusted_time_not_below_max(max: int, latest: int, current: int)
    requires
        latest <= max,
    ensures
        adjusted_time(max, latest, current) >= max,
        adjusted_time(max, latest, current) >= current,
{
}

/// While the repair runs, the highest time kept for a thread is not below
/// the time that any of its events so far has after the repair.
pub proof fn lemma_repair_keeps_max(events: Seq<AndroidEvent>, r: int, n: int)
    requires
        0 <= r <= n <= events.len(),
        first_regression(events, r) is None,
    ensures
        forall|k: int|
            0 <= k < n && wall_time(#[trigger] events[k]) is Some ==> repaired_trackers(
                events,
                r,
                n,
            ).max.contains_key(events[k].thread_id) && time_after(events, r, k)
                <= repaired_trackers(events, r, n).max[events[k].thread_id],
    decreases n - r,
{
    if n == r {
        lemma_scan_keeps_latest(events, r);
        lemma_scanned_consistent(events, r);
        let tr = scanned(events, r);
        assert forall|k: int| 0 <= k < n && wall_time(#[trigger] events[k]) is Some implies
            tr.max.contains_key(events[k].thread_id) && time_after(events, r, k)
            <= tr.max[events[k].thread_id] by {
            assert(tr.latest.contains_key(events[k].thread_id));
        }
    } else {
        lemma_repair_keeps_max(events, r, n - 1);
        lemma_repaired_consistent(events, r, n - 1);
        let before = repaired_trackers(events, r, n - 1);
        let after = repaired_trackers(events, r, n);
        let e = events[n - 1];
        if wall_time(e) is Some {
            let t = e.thread_id;
            if before.latest.contains_key(t) {
                assert(kept(before.latest, t) <= kept(before.max, t));
            }
            lemma_adjusted_time_not_below_max(
                kept(before.max, t),
                kept(before.latest, t),
                wall_time(e)->0,
            );
        }
        assert forall|k: int| 0 <= k < n && wall_time(#[trigger] events[k]) is Some implies
            after.max.contains_key(events[k].thread_id) && time_after(events, r, k)
            <= after.max[events[k].thread_id] by {
            if k < n - 1 {
                assert(before.max.contains_key(events[k].thread_id));
            }
        }
    }
}

/// After the repair no thread runs backward: of two events of one thread,
/// the later one has a time that is not below the time of the earlier one.
pub proof fn lemma_repair_puts_threads_in_order(events: Seq<AndroidEvent>, i: int, j: int)
    requires
        0 <= i < j < events.len(),
        events[i].thread_id == events[j].thread_id,
        wall_time(events[i]) is Some,
        wall_time(events[j]) is Some,
    ensures
        final_time(events, i) <= final_time(events, j),
{
    let n = events.len() as int;
    match first_regression(events, n) {
        Some(r) => {
            lemma_first_regression_is_first(events, n);
            if j < r {
                lemma_no_regression_before(events, r, j);
                lemma_no_regression_before(events, r, j + 1);
                lemma_scan_keeps_latest(events, j);
            } else {
                lemma_repair_keeps_max(events, r, j);
                lemma_repaired_consistent(events, r, j);
                let tr = repaired_trackers(events, r, j);
                let t = events[j].thread_id;
                assert(tr.max.contains_key(t));
                assert(kept(tr.latest, t) <= kept(tr.max, t));
                lemma_adjusted_time_not_below_max(
                    kept(tr.max, t),
                    kept(tr.latest, t),
                    wall_time(events[j])->0,
                );
            }
        },
        None => {
            lemma_no_regression_before(events, n, j);
            lemma_no_regression_before(events, n, j + 1);
            lemma_scan_keeps_latest(events, j);
        },
    }
}

/// While the repair runs, a thread that never runs backward has the time
/// of its latest event as its highest time, and that is the time of one of
/// its events.
pub proof fn lemma_repair_tracks_ordered_thread(
    events: Seq<AndroidEvent>,
    r: int,
    n: int,
    thread_id: u64,
)
    requires
        0 <= r <= n <= events.len(),
        first_regression(events, r) is None,
        thread_in_order(events, thread_id),
    ensures
        kept(repaired_trackers(events, r, n).max, thread_id) == kept(
            repaired_trackers(events, r, n).latest,
            thread_id,
        ),
        repaired_trackers(events, r, n).latest.contains_key(thread_id) ==> exists|k: int|
            0 <= k < n && (#[trigger] events[k]).thread_id == thread_id && wall_time(events[k])
                == Some(repaired_trackers(events, r, n).latest[thread_id]),
        forall|k: int|
            r <= k < n && (#[trigger] events[k]).thread_id == thread_id && wall_time(events[k])
                is Some ==> repaired_time(events, r, k) == wall_time(events[k])->0,
    decreases n,
{
    if n == 0 {
    } else if n == r {
        lemma_no_regression_before(events, r, r - 1);
        lemma_repair_tracks_ordered_thread(events, r - 1, r - 1, thread_id);
        let before = scanned(events, r - 1);
        let e = events[r - 1];
        lemma_scanned_consistent(events, r - 1);
        lemma_scanned_consistent(events, r);
        if wall_time(e) is Some && e.thread_id == thread_id {
            if before.latest.contains_key(thread_id) {
                let k = choose|k: int|
                    0 <= k < r - 1 && (#[trigger] events[k]).thread_id == thread_id && wall_time(
                        events[k],
                    ) == Some(before.latest[thread_id]);
                assert(wall_time(events[k])->0 <= wall_time(events[r - 1])->0);
            }
            assert(events[r - 1].thread_id == thread_id);
        } else if scanned(events, r).latest.contains_key(thread_id) {
            assert(before.latest.contains_key(thread_id));
            let k = choose|k: int|
                0 <= k < r - 1 && (#[trigger] events[k]).thread_id == thread_id && wall_time(
                    events[k],
                ) == Some(before.latest[thread_id]);
            assert(events[k].thread_id == thread_id);
        }
    } else {
        lemma_repair_tracks_ordered_thread(events, r, n - 1, thread_id);
        lemma_repaired_consistent(events, r, n - 1);
        lemma_repaired_consistent(events, r, n);
        let before = repaired_trackers(events, r, n - 1);
        let after = repaired_trackers(events, r, n);
        let e = events[n - 1];
        if wall_time(e) is Some && e.thread_id == thread_id {
            if before.latest.contains_key(thread_id) {
                let k = choose|k: int|
                    0 <= k < n - 1 && (#[trigger] events[k]).thread_id == thread_id && wall_time(
                        events[k],
                    ) == Some(before.latest[thread_id]);
                assert(wall_time(events[k])->0 <= wall_time(events[n - 1])->0);
            }
            assert(repaired_time(events, r, n - 1) == wall_time(e)->0);
            assert(events[n - 1].thread_id == thread_id);
        } else if after.latest.contains_key(thread_id) {
            assert(before.latest.contains_key(thread_id));
            let k = choose|k: int|
                0 <= k < n - 1 && (#[trigger] events[k]).thread_id == thread_id && wall_time(
                    events[k],
                ) == Some(before.latest[thread_id]);
            assert(events[k].thread_id == thread_id);
        }
        assert forall|k: int|
            r <= k < n && (#[trigger] events[k]).thread_id == thread_id && wall_time(events[k])
                is Some implies repaired_time(events, r, k) == wall_time(events[k])->0 by {
            if k == n - 1 {
            }
        }
    }
}

/// The repair leaves the times of a thread that never runs backward as
/// they are, wherever another thread may regress.
pub proof fn lemma_repair_leaves_ordered_thread(events: Seq<AndroidEvent>, i: int)
    requires
        0 <= i < events.len(),
        wall_time(events[i]) is Some,
        thread_in_order(events, events[i].thread_id),
    ensures
        final_time(events, i) == wall_time(events[i])->0,
{
    let n = events.len() as int;
    if first_regression(events, n) is Some {
        let r = first_regression(events, n)->0;
        lemma_first_regression_is_first(events, n);
        if r <= i {
            lemma_repair_tracks_ordered_thread(events, r, i + 1, events[i].thread_id);
        }
    }
}

/// A stream without a regression is returned as it is.
pub proof fn lemma_repair_without_regression(events: Seq<AndroidEvent>)
    requires
        first_regression(events, events.len() as int) is None,
    ensures
        repaired_events(events) == events,
{
}

/// Where every time fits in 64 bits, the events after the repair carry the
/// times that the repair has given them.
pub proof fn lemma_repaired_events_carry_final_times(events: Seq<AndroidEvent>, i: int)
    requires
        repair_fits(events),
        0 <= i < events.len(),
        wall_time(events[i]) is Some,
    ensures
        wall_time(repaired_events(events)[i]) == Some(final_time(events, i)),
{
    let n = events.len() as int;
    if first_regression(events, n) is Some {
        let r = first_regression(events, n)->0;
        lemma_first_regression_is_first(events, n);
        if r <= i {
            let t = repaired_time(events, r, i);
            lemma_repair_keeps_max(events, r, i);
            lemma_repaired_consistent(events, r, i);
            let tr = repaired_trackers(events, r, i);
            let id = events[i].thread_id;
            if tr.latest.contains_key(id) {
                assert(kept(tr.latest, id) <= kept(tr.max, id));
            }
            lemma_adjusted_time_not_below_max(
                kept(tr.max, id),
                kept(tr.latest, id),
                wall_time(events[i])->0,
            );
            assert(0 <= t <= u64::MAX);
            assert((t / 1_000_000_000) * 1_000_000_000 + t % 1_000_000_000 == t);
        }
    }
}

} // verus!
