//! Flight sections of a track: the window scoring takes.
//!
//! Ground-speed detection runs per stretch of the track free of a long time gap; which stretches
//! those are, and which section is the longest, is decided here.

use vstd::prelude::*;

use crate::decode::fix::Fix;

verus! {

/// Longest time gap, in milliseconds, a flight may contain.
pub const MAX_GAP: u32 = 300_000;

/// One flight section, as fix indices into the track it was detected in.
#[derive(Debug, Clone, Copy, PartialEq, Eq)]
pub struct Flight {
    /// Takeoff, as an index into the track.
    pub start: usize,
    /// Landing, as an index into the track.
    pub stop: usize,
}

/// Fixes a section spans past its takeoff.
pub open spec fn flight_span(f: Flight) -> int {
    f.stop - f.start
}

/// Picking one section out of a detection result.
pub trait FlightSelection {
    spec fn spec_flights(&self) -> Seq<Flight>;

    /// Longest section by fix span, the last of them on a tie; `None` when there is none.
    fn longest(&self) -> (r: Option<&Flight>)
        requires
            forall|i: int|
                0 <= i < self.spec_flights().len() ==> (#[trigger] self.spec_flights()[i]).start
                    <= self.spec_flights()[i].stop,
        ensures
            r is None <==> self.spec_flights().len() == 0,
            r matches Some(f) ==> exists|i: int|
                #![trigger self.spec_flights()[i]]
                0 <= i < self.spec_flights().len() && *f == self.spec_flights()[i] && (forall|j: int|
                    0 <= j < self.spec_flights().len() ==> flight_span(
                        #[trigger] self.spec_flights()[j],
                    ) <= flight_span(self.spec_flights()[i])) && (forall|j: int|
                    i < j < self.spec_flights().len() ==> flight_span(
                        #[trigger] self.spec_flights()[j],
                    ) < flight_span(self.spec_flights()[i])),
    ;
}

impl FlightSelection for [Flight] {
    open spec fn spec_flights(&self) -> Seq<Flight> {
        self@
    }

    fn longest(&self) -> (r: Option<&Flight>) {
        assert(self.spec_flights() == self@);
        if self.len() == 0 {
            return None;
        }
        let mut best: usize = 0;
        let mut i: usize = 1;
        while i < self.len()
            invariant
                forall|k: int| 0 <= k < self@.len() ==> (#[trigger] self@[k]).start <= self@[k].stop,
                1 <= i <= self@.len(),
                best < i,
                forall|k: int|
                    0 <= k < i ==> flight_span(#[trigger] self@[k]) <= flight_span(
                        self@[best as int],
                    ),
                forall|k: int|
                    best < k < i ==> flight_span(#[trigger] self@[k]) < flight_span(
                        self@[best as int],
                    ),
            decreases self@.len() - i,
        {
            if self[i].stop - self[i].start >= self[best].stop - self[best].start {
                best = i;
            }
            i = i + 1;
        }
        let f = &self[best];
        assert(*f == self.spec_flights()[best as int]);
        Some(f)
    }
}

/// Whether the time from fix `i` to the next goes past `max_gap`.
pub open spec fn is_gap(track: Seq<Fix>, i: int, max_gap: u32) -> bool {
    track[i + 1].timestamp - track[i].timestamp > max_gap
}

/// The stretches of a track that detection runs on, as `[first, end)` ranges of the intervals
/// between consecutive fixes: cut at every interval longer than `max_gap`, which belongs to none,
/// the last one running to the final interval. Each stretch is free of such a gap, so neither a
/// speed nor a smoothing spans one.
pub open spec fn stretches_ok(track: Seq<Fix>, max_gap: u32, r: Seq<[usize; 2]>) -> bool {
    let n = track.len() - 1;
    &&& r.len() > 0
    &&& r[0]@[0] == 0
    &&& r.last()@[1] == n
    &&& forall|k: int|
        0 <= k < r.len() ==> (#[trigger] r[k])@[0] <= r[k]@[1] <= n && forall|i: int|
            r[k]@[0] <= i < r[k]@[1] ==> !is_gap(track, i, max_gap)
    &&& forall|k: int|
        0 <= k < r.len() - 1 ==> is_gap(track, (#[trigger] r[k])@[1] as int, max_gap) && r[k
            + 1]@[0] == r[k]@[1] + 1
}

/// Cuts a track into the stretches flight detection runs on; nothing for an empty track.
pub fn stretches(track: &[Fix], max_gap: u32) -> (r: Vec<[usize; 2]>)
    ensures
        track@.len() == 0 ==> r@.len() == 0,
        track@.len() > 0 ==> stretches_ok(track@, max_gap, r@),
{
    let mut r: Vec<[usize; 2]> = Vec::new();
    if track.len() == 0 {
        return r;
    }
    let n = track.len() - 1;
    let mut first: usize = 0;
    let mut i: usize = 0;
    while i < n
        invariant
            n == track@.len() - 1,
            first <= i <= n,
            forall|m: int| first <= m < i ==> !is_gap(track@, m, max_gap),
            r@.len() > 0 ==> r@[0]@[0] == 0,
            r@.len() == 0 ==> first == 0,
            r@.len() > 0 ==> first == r@.last()@[1] + 1,
            forall|k: int|
                0 <= k < r@.len() ==> (#[trigger] r@[k])@[0] <= r@[k]@[1] < n && forall|m: int|
                    r@[k]@[0] <= m < r@[k]@[1] ==> !is_gap(track@, m, max_gap),
            forall|k: int| 0 <= k < r@.len() ==> is_gap(track@, (#[trigger] r@[k])@[1] as int, max_gap),
            forall|k: int|
                0 <= k < r@.len() - 1 ==> r@[k + 1]@[0] == (#[trigger] r@[k])@[1] + 1,
        decreases n - i,
    {
        let gap = (track[i + 1].timestamp as i64) - (track[i].timestamp as i64);
        if gap > max_gap as i64 {
            r.push([first, i]);
            first = i + 1;
        }
        i = i + 1;
    }
    r.push([first, n]);
    r
}

// ============= Holding speed, and settling =============

/// The first run of fast readings whose intervals add up to `threshold`, scanned from `i` with
/// `held` accumulated since `start`: the time held and where that run started. A slow reading
/// resets the time held; the run starts again at the next fast one.
pub open spec fn hold_scan(
    fast: Seq<bool>,
    dt: Seq<i64>,
    threshold: i64,
    i: int,
    held: int,
    start: int,
) -> (int, int)
    decreases fast.len() - i,
{
    if i >= fast.len() || i < 0 {
        (held, start)
    } else if fast[i] {
        let s2 = if held == 0 {
            i
        } else {
            start
        };
        let h2 = held + dt[i];
        if h2 >= threshold {
            (h2, s2)
        } else {
            hold_scan(fast, dt, threshold, i + 1, h2, s2)
        }
    } else {
        hold_scan(fast, dt, threshold, i + 1, 0, start)
    }
}

/// From `i` on, where the readings last settle below the threshold: the first slow reading of the
/// final slow run, or the last fast reading when the track ends fast.
pub open spec fn settle_scan(fast: Seq<bool>, i: int, slow: bool, stop: int) -> int
    decreases fast.len() - i,
{
    if i >= fast.len() || i < 0 {
        stop
    } else if !fast[i] {
        settle_scan(fast, i + 1, true, if slow {
            stop
        } else {
            i
        })
    } else {
        settle_scan(fast, i + 1, false, i)
    }
}

/// Where flying starts and stops: `None` when no run of fast readings holds for `threshold`;
/// otherwise the start of the first run that does, and where the readings from there settle.
pub open spec fn spec_hold_and_settle(fast: Seq<bool>, dt: Seq<i64>, threshold: i64) -> Option<
    (int, int),
> {
    let (held, start) = hold_scan(fast, dt, threshold, 0, 0, 0);
    if held < threshold {
        None
    } else {
        Some((start, settle_scan(fast, start, false, start)))
    }
}

/// The intervals of readings `a` up to, not including, `b`, added up.
pub open spec fn dt_sum(dt: Seq<i64>, a: int, b: int) -> int
    decreases b - a,
{
    if b <= a {
        0
    } else {
        dt_sum(dt, a, b - 1) + dt[b - 1]
    }
}

/// Whether readings `a` through `k` are all fast and their intervals add up to `threshold`: a
/// run that held the speed long enough.
pub open spec fn held_run(fast: Seq<bool>, dt: Seq<i64>, threshold: i64, a: int, k: int) -> bool {
    &&& 0 <= a <= k < fast.len()
    &&& forall|j: int| a <= j <= k ==> #[trigger] fast[j]
    &&& dt_sum(dt, a, k + 1) >= threshold
}

proof fn lemma_hold_scan(fast: Seq<bool>, dt: Seq<i64>, threshold: i64, i: int, held: int, start: int)
    requires
        threshold > 0,
        fast.len() <= dt.len(),
        0 <= i <= fast.len(),
        held != 0 ==> 0 <= start < i && (forall|j: int| start <= j < i ==> #[trigger] fast[j])
            && held == dt_sum(dt, start, i),
    ensures
        hold_scan(fast, dt, threshold, i, held, start).0 >= threshold ==> exists|k: int|
            held_run(fast, dt, threshold, hold_scan(fast, dt, threshold, i, held, start).1, k),
    decreases fast.len() - i,
{
    if i < fast.len() {
        if fast[i] {
            let s2 = if held == 0 {
                i
            } else {
                start
            };
            let h2 = held + dt[i];
            assert(h2 == dt_sum(dt, s2, i + 1)) by {
                if held == 0 {
                    assert(dt_sum(dt, i, i) == 0);
                }
            }
            if h2 >= threshold {
                assert(hold_scan(fast, dt, threshold, i, held, start) == (h2, s2));
                assert(held_run(fast, dt, threshold, s2, i));
                assert(hold_scan(fast, dt, threshold, i, held, start).1 == s2);
            } else {
                assert(hold_scan(fast, dt, threshold, i, held, start) == hold_scan(
                    fast,
                    dt,
                    threshold,
                    i + 1,
                    h2,
                    s2,
                ));
                lemma_hold_scan(fast, dt, threshold, i + 1, h2, s2);
            }
        } else {
            assert(hold_scan(fast, dt, threshold, i, held, start) == hold_scan(
                fast,
                dt,
                threshold,
                i + 1,
                0,
                start,
            ));
            lemma_hold_scan(fast, dt, threshold, i + 1, 0, start);
        }
    } else if held >= threshold {
        assert(hold_scan(fast, dt, threshold, i, held, start) == (held, start));
        assert(held_run(fast, dt, threshold, start, i - 1));
        assert(hold_scan(fast, dt, threshold, i, held, start).1 == start);
    }
}

proof fn lemma_settle_scan(fast: Seq<bool>, a: int, i: int, slow: bool, stop: int)
    requires
        0 <= a <= stop < fast.len(),
        a < i <= fast.len(),
        fast[a],
        slow ==> a < stop && !fast[stop] && fast[stop - 1] && forall|j: int|
            stop <= j < i ==> !#[trigger] fast[j],
        !slow ==> stop == i - 1 && fast[stop],
    ensures
        ({
            let b = settle_scan(fast, i, slow, stop);
            &&& a <= b < fast.len()
            &&& forall|j: int| b < j < fast.len() ==> !#[trigger] fast[j]
            &&& fast[b] ==> b == fast.len() - 1
            &&& !fast[b] ==> a < b && fast[b - 1]
        }),
    decreases fast.len() - i,
{
    if i < fast.len() {
        if !fast[i] {
            let s2 = if slow {
                stop
            } else {
                i
            };
            lemma_settle_scan(fast, a, i + 1, true, s2);
        } else {
            lemma_settle_scan(fast, a, i + 1, false, i);
        }
    }
}

/// Takeoff is where a run of fast readings starts that held the speed for the whole threshold,
/// with no slow reading in it; landing is where the readings settle below the speed for good:
/// every reading after it is slow, and it is either the last reading, fast, or the first slow
/// one after a fast one.
pub proof fn lemma_takeoff_and_landing(fast: Seq<bool>, dt: Seq<i64>, threshold: i64)
    requires
        threshold > 0,
        fast.len() <= dt.len(),
    ensures
        spec_hold_and_settle(fast, dt, threshold) matches Some((a, b)) ==> {
            &&& exists|k: int| held_run(fast, dt, threshold, a, k)
            &&& a <= b < fast.len()
            &&& forall|j: int| b < j < fast.len() ==> !#[trigger] fast[j]
            &&& fast[b] ==> b == fast.len() - 1
            &&& !fast[b] ==> a < b && fast[b - 1]
        },
{
    lemma_hold_scan(fast, dt, threshold, 0, 0, 0);
    let (held, a) = hold_scan(fast, dt, threshold, 0, 0, 0);
    if held >= threshold {
        let k = choose|k: int| held_run(fast, dt, threshold, a, k);
        assert(fast[a]);
        // The scan from `a` starts by reading `a` itself, which is fast.
        assert(settle_scan(fast, a, false, a) == settle_scan(fast, a + 1, false, a));
        lemma_settle_scan(fast, a, a + 1, false, a);
    }
}

/// No flight is found when no run of fast readings holds the speed for the threshold.
pub proof fn lemma_no_takeoff_without_a_held_run(fast: Seq<bool>, dt: Seq<i64>, threshold: i64)
    requires
        threshold > 0,
        fast.len() <= dt.len(),
        forall|a: int, k: int| !held_run(fast, dt, threshold, a, k),
    ensures
        spec_hold_and_settle(fast, dt, threshold) is None,
{
    lemma_hold_scan(fast, dt, threshold, 0, 0, 0);
}

/// Whether reading `a` opens a run: the first reading, or one after a slow reading.
pub open spec fn opens_run(fast: Seq<bool>, a: int) -> bool {
    a == 0 || !fast[a - 1]
}

proof fn lemma_dt_sum_split(dt: Seq<i64>, a: int, m: int, b: int)
    requires
        a <= m <= b,
    ensures
        dt_sum(dt, a, b) == dt_sum(dt, a, m) + dt_sum(dt, m, b),
    decreases b - m,
{
    if m < b {
        lemma_dt_sum_split(dt, a, m, b - 1);
    }
}

proof fn lemma_dt_sum_positive(dt: Seq<i64>, a: int, b: int)
    requires
        forall|j: int| a <= j < b ==> #[trigger] dt[j] > 0,
    ensures
        dt_sum(dt, a, b) >= 0,
        a < b ==> dt_sum(dt, a, b) > 0,
    decreases b - a,
{
    if a < b {
        lemma_dt_sum_positive(dt, a, b - 1);
    }
}

proof fn lemma_hold_scan_first(
    fast: Seq<bool>,
    dt: Seq<i64>,
    threshold: i64,
    i: int,
    held: int,
    start: int,
)
    requires
        threshold > 0,
        fast.len() <= dt.len(),
        forall|j: int| 0 <= j < fast.len() ==> #[trigger] dt[j] > 0,
        0 <= i <= fast.len(),
        forall|a: int, k: int| k < i ==> !held_run(fast, dt, threshold, a, k),
        held < threshold,
        held == 0 ==> opens_run(fast, i),
        held != 0 ==> 0 <= start < i && opens_run(fast, start) && (forall|j: int|
            start <= j < i ==> #[trigger] fast[j]) && held == dt_sum(dt, start, i),
    ensures
        ({
            let (h, s) = hold_scan(fast, dt, threshold, i, held, start);
            &&& h >= threshold ==> opens_run(fast, s) && exists|k: int|
                held_run(fast, dt, threshold, s, k) && forall|a2: int, k2: int|
                    #[trigger] held_run(fast, dt, threshold, a2, k2) ==> k <= k2
            &&& h < threshold ==> forall|a2: int, k2: int| !held_run(fast, dt, threshold, a2, k2)
        }),
    decreases fast.len() - i,
{
    if i == fast.len() {
        assert(hold_scan(fast, dt, threshold, i, held, start) == (held, start));
        assert forall|a2: int, k2: int| !held_run(fast, dt, threshold, a2, k2) by {
            if held_run(fast, dt, threshold, a2, k2) {
                assert(k2 < i);
            }
        }
    } else if fast[i] {
        let s2 = if held == 0 {
            i
        } else {
            start
        };
        let h2 = held + dt[i];
        assert(h2 == dt_sum(dt, s2, i + 1)) by {
            if held == 0 {
                assert(dt_sum(dt, i, i) == 0);
            }
        }
        assert(opens_run(fast, s2));
        if h2 >= threshold {
            assert(hold_scan(fast, dt, threshold, i, held, start) == (h2, s2));
            assert(held_run(fast, dt, threshold, s2, i));
            assert forall|a2: int, k2: int| #[trigger] held_run(fast, dt, threshold, a2, k2) implies i
                <= k2 by {}
            assert(hold_scan(fast, dt, threshold, i, held, start).1 == s2);
            assert(exists|k: int|
                held_run(fast, dt, threshold, s2, k) && forall|a2: int, k2: int|
                    #[trigger] held_run(fast, dt, threshold, a2, k2) ==> k <= k2);
        } else {
            assert(hold_scan(fast, dt, threshold, i, held, start) == hold_scan(
                fast,
                dt,
                threshold,
                i + 1,
                h2,
                s2,
            ));
            assert forall|a: int, k: int| k < i + 1 implies !held_run(fast, dt, threshold, a, k) by {
                if k == i && held_run(fast, dt, threshold, a, k) {
                    // A run ending here starts no earlier than this one: the reading before this
                    // one's start is slow.
                    if a < s2 {
                        assert(fast[s2 - 1]);
                    }
                    lemma_dt_sum_split(dt, s2, a, i + 1);
                    lemma_dt_sum_positive(dt, s2, a);
                }
            }
            lemma_dt_sum_positive(dt, s2, i + 1);
            lemma_hold_scan_first(fast, dt, threshold, i + 1, h2, s2);
        }
    } else {
        assert(hold_scan(fast, dt, threshold, i, held, start) == hold_scan(
            fast,
            dt,
            threshold,
            i + 1,
            0,
            start,
        ));
        assert forall|a: int, k: int| k < i + 1 implies !held_run(fast, dt, threshold, a, k) by {
            if k == i && held_run(fast, dt, threshold, a, k) {
                assert(fast[i]);
            }
        }
        lemma_hold_scan_first(fast, dt, threshold, i + 1, 0, start);
    }
}

/// With every interval positive, takeoff is at the first run that holds: a flight is found
/// whenever some run of fast readings holds the speed for the threshold; the run found opens
/// after a slow reading (or at the first one); and no run reaches the threshold before it does.
pub proof fn lemma_takeoff_is_first_held_run(fast: Seq<bool>, dt: Seq<i64>, threshold: i64)
    requires
        threshold > 0,
        fast.len() <= dt.len(),
        forall|j: int| 0 <= j < fast.len() ==> #[trigger] dt[j] > 0,
    ensures
        (exists|a: int, k: int| held_run(fast, dt, threshold, a, k)) ==> spec_hold_and_settle(
            fast,
            dt,
            threshold,
        ) is Some,
        spec_hold_and_settle(fast, dt, threshold) is Some ==> opens_run(
            fast,
            spec_hold_and_settle(fast, dt, threshold).unwrap().0,
        ) && exists|k: int|
            held_run(fast, dt, threshold, spec_hold_and_settle(fast, dt, threshold).unwrap().0, k)
                && forall|a2: int, k2: int|
                #[trigger] held_run(fast, dt, threshold, a2, k2) ==> k <= k2,
{
    lemma_hold_scan_first(fast, dt, threshold, 0, 0, 0);
    let (held, a) = hold_scan(fast, dt, threshold, 0, 0, 0);
    if held >= threshold {
        assert(spec_hold_and_settle(fast, dt, threshold) == Some((a, settle_scan(fast, a, false, a))));
        let k = choose|k: int|
            held_run(fast, dt, threshold, a, k) && forall|a2: int, k2: int|
                #[trigger] held_run(fast, dt, threshold, a2, k2) ==> k <= k2;
        assert(held_run(fast, dt, threshold, a, k));
        assert(forall|a2: int, k2: int|
            #[trigger] held_run(fast, dt, threshold, a2, k2) ==> k <= k2);
        assert(opens_run(fast, a));
        assert(exists|k2: int|
            held_run(fast, dt, threshold, a, k2) && forall|a3: int, k3: int|
                #[trigger] held_run(fast, dt, threshold, a3, k3) ==> k2 <= k3);
        let t = spec_hold_and_settle(fast, dt, threshold).unwrap().0;
        assert(t == a);
        assert(opens_run(fast, t));
        assert(held_run(fast, dt, threshold, t, k));
        assert(exists|k2: int|
            held_run(fast, dt, threshold, t, k2) && forall|a3: int, k3: int|
                #[trigger] held_run(fast, dt, threshold, a3, k3) ==> k2 <= k3);
    } else {
        assert(spec_hold_and_settle(fast, dt, threshold) is None);
    }
}

/// Where flying starts and stops, from whether each (smoothed) reading is fast and the interval
/// in milliseconds each one spans.
pub fn hold_and_settle(fast: &[bool], dt: &[i64], threshold: i64) -> (r: Option<(usize, usize)>)
    requires
        fast@.len() <= dt@.len(),
    ensures
        match r {
            Some((a, b)) => spec_hold_and_settle(fast@, dt@, threshold) == Some((a as int, b as int)),
            None => spec_hold_and_settle(fast@, dt@, threshold) is None,
        },
{
    let n = fast.len();
    let ghost target = hold_scan(fast@, dt@, threshold, 0, 0, 0);
    let mut i: usize = 0;
    let mut held: i128 = 0;
    let mut start: usize = 0;
    let mut reached = false;
    while i < n && !reached
        invariant
            n == fast@.len(),
            n <= dt@.len(),
            i <= n,
            start <= i,
            start < n || n == 0 || start == 0,
            -(i as int) * 0x8000_0000_0000_0000 <= held <= (i as int) * 0x8000_0000_0000_0000,
            reached ==> (held as int, start as int) == target && held >= threshold,
            !reached ==> hold_scan(fast@, dt@, threshold, i as int, held as int, start as int)
                == target,
        decreases n - i,
    {
        if fast[i] {
            if held == 0 {
                start = i;
            }
            held = held + dt[i] as i128;
            if held >= threshold as i128 {
                reached = true;
            }
        } else {
            held = 0;
        }
        i = i + 1;
    }
    if !reached {
        assert(hold_scan(fast@, dt@, threshold, i as int, held as int, start as int) == (
        held as int, start as int));
    }
    if held < threshold as i128 {
        return None;
    }
    let mut slow = false;
    let mut stop = start;
    let mut j = start;
    while j < n
        invariant
            n == fast@.len(),
            start <= j <= n,
            stop < n || n == 0,
            settle_scan(fast@, j as int, slow, stop as int) == settle_scan(
                fast@,
                start as int,
                false,
                start as int,
            ),
        decreases n - j,
    {
        if !fast[j] {
            if !slow {
                stop = j;
            }
            slow = true;
        } else {
            slow = false;
            stop = j;
        }
        j = j + 1;
    }
    Some((start, stop))
}

} // verus!
