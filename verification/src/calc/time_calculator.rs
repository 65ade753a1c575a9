use vstd::prelude::*;

verus! {

/// A start or end marker of one active interval.
#[derive(Debug, Clone, Copy, PartialEq, Eq)]
pub struct TimeEvent {
    /// Whether the marker opens an interval (otherwise it closes one).
    pub is_start: bool,
    /// Instant of the marker in milliseconds.
    pub timestamp: i64,
}

impl TimeEvent {
    pub fn new(is_start: bool, timestamp: i64) -> (event: TimeEvent)
        ensures
            event.is_start == is_start,
            event.timestamp == timestamp,
    {
        TimeEvent { is_start, timestamp }
    }
}

/// What a marker adds to the number of open intervals at instant `t`:
/// nothing while `t` lies before it, afterwards `+1` for a start and `-1` for an end.
pub open spec fn contribution(event: TimeEvent, t: int) -> int {
    if event.timestamp <= t {
        if event.is_start {
            1
        } else {
            -1
        }
    } else {
        0
    }
}

/// Number of intervals that are open at instant `t`: the starts at or before `t`
/// minus the ends at or before `t`.
pub open spec fn depth_at(markers: Seq<TimeEvent>, t: int) -> int
    decreases markers.len(),
{
    if markers.len() == 0 {
        0
    } else {
        depth_at(markers.drop_last(), t) + contribution(markers.last(), t)
    }
}

/// Number of instants `t` with `lo <= t < hi` at which at least one interval is open.
pub open spec fn covered(markers: Seq<TimeEvent>, lo: int, hi: int) -> int
    decreases hi - lo,
{
    if hi <= lo {
        0
    } else {
        covered(markers, lo, hi - 1) + if depth_at(markers, hi - 1) > 0 {
            1int
        } else {
            0int
        }
    }
}

/// Every end marker closes an interval that an earlier or simultaneous start opened,
/// and every start is closed again.
pub open spec fn well_formed_markers(markers: Seq<TimeEvent>) -> bool {
    &&& forall|t: int| depth_at(markers, t) >= 0
    &&& depth_at(markers, i64::MAX as int) == 0
}

/// Length of the union of the intervals that the markers describe.
pub open spec fn unique_total_time(markers: Seq<TimeEvent>) -> int {
    covered(markers, i64::MIN as int, i64::MAX as int)
}

/// The markers are in ascending order of their timestamps.
pub open spec fn sorted_by_timestamp(markers: Seq<TimeEvent>) -> bool {
    forall|i: int, j: int| 0 <= i < j < markers.len() ==> markers[i].timestamp
        <= markers[j].timestamp
}

/// Merges two sorted runs of markers into one; of markers with equal
/// timestamps those of the left run come first.
fn merge(left: &Vec<TimeEvent>, right: &Vec<TimeEvent>) -> (merged: Vec<TimeEvent>)
    requires
        sorted_by_timestamp(left@),
        sorted_by_timestamp(right@),
        left@.len() + right@.len() <= usize::MAX,
    ensures
        sorted_by_timestamp(merged@),
        merged@.len() == left@.len() + right@.len(),
        merged@.to_multiset() == left@.to_multiset().add(right@.to_multiset()),
{
    let mut merged: Vec<TimeEvent> = Vec::new();
    let mut i: usize = 0;
    let mut j: usize = 0;
    proof {
        broadcast use vstd::seq_lib::group_to_multiset_ensures;
        broadcast use vstd::multiset::group_multiset_axioms;

        assert(left@.take(0) =~= Seq::<TimeEvent>::empty());
        assert(right@.take(0) =~= Seq::<TimeEvent>::empty());
        assert(merged@.to_multiset() =~= left@.take(0).to_multiset().add(
            right@.take(0).to_multiset(),
        ));
    }
    while i < left.len() || j < right.len()
        invariant
            i <= left@.len(),
            j <= right@.len(),
            left@.len() + right@.len() <= usize::MAX,
            merged@.len() == i + j,
            sorted_by_timestamp(left@),
            sorted_by_timestamp(right@),
            sorted_by_timestamp(merged@),
            merged@.to_multiset() == left@.take(i as int).to_multiset().add(
                right@.take(j as int).to_multiset(),
            ),
            forall|k: int|
                0 <= k < merged@.len() && i < left@.len() ==> merged@[k].timestamp
                    <= left@[i as int].timestamp,
            forall|k: int|
                0 <= k < merged@.len() && j < right@.len() ==> merged@[k].timestamp
                    <= right@[j as int].timestamp,
        decreases left@.len() - i + (right@.len() - j),
    {
        let ghost before = merged@;
        let from_left: bool = j >= right.len() || (i < left.len() && left[i].timestamp
            <= right[j].timestamp);
        if from_left {
            merged.push(left[i]);
            proof {
                assert(left@.take(i + 1) =~= left@.take(i as int).push(left@[i as int]));
                vstd::seq_lib::to_multiset_build(left@.take(i as int), left@[i as int]);
                vstd::seq_lib::to_multiset_build(before, left@[i as int]);
                assert(merged@.to_multiset() =~= left@.take(i + 1).to_multiset().add(
                    right@.take(j as int).to_multiset(),
                ));
                if i + 1 < left@.len() {
                    assert(left@[i as int].timestamp <= left@[i + 1].timestamp);
                }
            }
            i = i + 1;
        } else {
            merged.push(right[j]);
            proof {
                assert(right@.take(j + 1) =~= right@.take(j as int).push(right@[j as int]));
                vstd::seq_lib::to_multiset_build(right@.take(j as int), right@[j as int]);
                vstd::seq_lib::to_multiset_build(before, right@[j as int]);
                assert(merged@.to_multiset() =~= left@.take(i as int).to_multiset().add(
                    right@.take(j + 1).to_multiset(),
                ));
                if j + 1 < right@.len() {
                    assert(right@[j as int].timestamp <= right@[j + 1].timestamp);
                }
            }
            j = j + 1;
        }
    }
    proof {
        assert(left@.take(left@.len() as int) =~= left@);
        assert(right@.take(right@.len() as int) =~= right@);
    }
    merged
}

/// The markers between two positions in ascending order of their timestamps.
fn sorted_run(events: &[TimeEvent], from: usize, to: usize) -> (run: Vec<TimeEvent>)
    requires
        from <= to <= events@.len(),
    ensures
        sorted_by_timestamp(run@),
        run@.len() == to - from,
        run@.to_multiset() == events@.subrange(from as int, to as int).to_multiset(),
    decreases to - from,
{
    if to - from <= 1 {
        let mut run: Vec<TimeEvent> = Vec::new();
        if from < to {
            run.push(events[from]);
        }
        proof {
            assert(run@ =~= events@.subrange(from as int, to as int));
        }
        run
    } else {
        let middle: usize = from + (to - from) / 2;
        let left: Vec<TimeEvent> = sorted_run(events, from, middle);
        let right: Vec<TimeEvent> = sorted_run(events, middle, to);
        proof {
            let lower = events@.subrange(from as int, middle as int);
            let upper = events@.subrange(middle as int, to as int);
            assert(events@.subrange(from as int, to as int) =~= lower + upper);
            vstd::seq_lib::lemma_multiset_commutative(lower, upper);
        }
        merge(&left, &right)
    }
}

/// Sorts the markers in place by ascending timestamp.
fn sort_by_timestamp(events: &mut [TimeEvent])
    ensures
        sorted_by_timestamp(final(events)@),
        final(events)@.len() == old(events)@.len(),
        final(events)@.to_multiset() == old(events)@.to_multiset(),
        forall|t: int| depth_at(final(events)@, t) == depth_at(old(events)@, t),
{
    let ghost initial = events@;
    let n: usize = events.len();
    let sorted: Vec<TimeEvent> = sorted_run(events, 0, n);
    proof {
        assert(initial.subrange(0, n as int) =~= initial);
    }
    let mut i: usize = 0;
    while i < n
        invariant
            i <= n,
            events@.len() == n,
            sorted@.len() == n,
            forall|k: int| 0 <= k < i ==> events@[k] == sorted@[k],
        decreases n - i,
    {
        events[i] = sorted[i];
        i = i + 1;
    }
    proof {
        assert(events@ =~= sorted@);
        assert forall|t: int| depth_at(events@, t) == depth_at(initial, t) by {
            lemma_depth_order_independent(events@, initial, t);
        }
    }
}

/// Two instants that lie at or after every marker see the same depth.
proof fn lemma_depth_after_all(markers: Seq<TimeEvent>, t: int, u: int)
    requires
        forall|k: int| 0 <= k < markers.len() ==> markers[k].timestamp <= t,
        forall|k: int| 0 <= k < markers.len() ==> markers[k].timestamp <= u,
    ensures
        depth_at(markers, t) == depth_at(markers, u),
    decreases markers.len(),
{
    if markers.len() > 0 {
        lemma_depth_after_all(markers.drop_last(), t, u);
    }
}

/// At an instant that separates the first `i` markers from the rest, the depth is
/// the balance of starts and ends among those first `i` markers.
proof fn lemma_depth_prefix(markers: Seq<TimeEvent>, i: int, t: int)
    requires
        0 <= i <= markers.len(),
        forall|k: int| 0 <= k < i ==> markers[k].timestamp <= t,
        forall|k: int| i <= k < markers.len() ==> t < markers[k].timestamp,
    ensures
        depth_at(markers, t) == depth_at(markers.take(i), i64::MAX as int),
    decreases markers.len(),
{
    if markers.len() == i {
        assert(markers.take(i) =~= markers);
        lemma_depth_after_all(markers, t, i64::MAX as int);
    } else {
        lemma_depth_prefix(markers.drop_last(), i, t);
        assert(markers.drop_last().take(i) =~= markers.take(i));
    }
}

proof fn lemma_covered_bounds(markers: Seq<TimeEvent>, lo: int, hi: int)
    ensures
        0 <= covered(markers, lo, hi),
        lo <= hi ==> covered(markers, lo, hi) <= hi - lo,
    decreases hi - lo,
{
    if lo < hi {
        lemma_covered_bounds(markers, lo, hi - 1);
    }
}

proof fn lemma_covered_split(markers: Seq<TimeEvent>, lo: int, mid: int, hi: int)
    requires
        lo <= mid <= hi,
    ensures
        covered(markers, lo, hi) == covered(markers, lo, mid) + covered(markers, mid, hi),
    decreases hi - mid,
{
    if mid < hi {
        lemma_covered_split(markers, lo, mid, hi - 1);
    }
}

/// A stretch on which some interval is always open counts in full.
proof fn lemma_covered_open(markers: Seq<TimeEvent>, lo: int, hi: int)
    requires
        lo <= hi,
        forall|t: int| lo <= t < hi ==> depth_at(markers, t) > 0,
    ensures
        covered(markers, lo, hi) == hi - lo,
    decreases hi - lo,
{
    if lo < hi {
        lemma_covered_open(markers, lo, hi - 1);
    }
}

/// A stretch on which no interval is open counts nothing.
proof fn lemma_covered_idle(markers: Seq<TimeEvent>, lo: int, hi: int)
    requires
        forall|t: int| lo <= t < hi ==> depth_at(markers, t) <= 0,
    ensures
        covered(markers, lo, hi) == 0,
    decreases hi - lo,
{
    if lo < hi {
        lemma_covered_idle(markers, lo, hi - 1);
    }
}

proof fn lemma_covered_same_depth(a: Seq<TimeEvent>, b: Seq<TimeEvent>, lo: int, hi: int)
    requires
        forall|t: int| lo <= t < hi ==> depth_at(a, t) == depth_at(b, t),
    ensures
        covered(a, lo, hi) == covered(b, lo, hi),
    decreases hi - lo,
{
    if lo < hi {
        lemma_covered_same_depth(a, b, lo, hi - 1);
    }
}

proof fn lemma_depth_is_fold(markers: Seq<TimeEvent>, t: int)
    ensures
        depth_at(markers, t) == markers.fold_left(
            0int,
            |sum: int, event: TimeEvent| sum + contribution(event, t),
        ),
    decreases markers.len(),
{
    if markers.len() > 0 {
        lemma_depth_is_fold(markers.drop_last(), t);
    }
}

/// The depth at an instant depends on which markers there are, not on their order.
pub proof fn lemma_depth_order_independent(a: Seq<TimeEvent>, b: Seq<TimeEvent>, t: int)
    requires
        a.to_multiset() == b.to_multiset(),
    ensures
        depth_at(a, t) == depth_at(b, t),
{
    let step = |sum: int, event: TimeEvent| sum + contribution(event, t);
    lemma_depth_is_fold(a, t);
    lemma_depth_is_fold(b, t);
    vstd::seq_lib::lemma_fold_left_permutation(a, b, step, 0int);
}

/// The union duration is a function of the set of markers alone: two sequences
/// that hold the same markers, in whatever order, are well formed together and
/// have the same total.
pub proof fn lemma_unique_total_time_order_independent(a: Seq<TimeEvent>, b: Seq<TimeEvent>)
    requires
        a.to_multiset() == b.to_multiset(),
    ensures
        well_formed_markers(a) == well_formed_markers(b),
        unique_total_time(a) == unique_total_time(b),
{
    assert forall|t: int| depth_at(a, t) == depth_at(b, t) by {
        lemma_depth_order_independent(a, b, t);
    }
    lemma_covered_same_depth(a, b, i64::MIN as int, i64::MAX as int);
}

/// The start marker and the end marker of one interval.
pub open spec fn interval_markers(start: i64, end: i64) -> Seq<TimeEvent> {
    seq![
        TimeEvent { is_start: true, timestamp: start },
        TimeEvent { is_start: false, timestamp: end },
    ]
}

/// The depth of two marker sequences put together is the sum of their depths.
pub proof fn lemma_depth_concat(a: Seq<TimeEvent>, b: Seq<TimeEvent>, t: int)
    ensures
        depth_at(a + b, t) == depth_at(a, t) + depth_at(b, t),
    decreases b.len(),
{
    if b.len() == 0 {
        assert(a + b =~= a);
    } else {
        lemma_depth_concat(a, b.drop_last(), t);
        assert((a + b).drop_last() =~= a + b.drop_last());
    }
}

/// The markers of one interval add one to the depth at the instants of the
/// interval and nothing elsewhere.
pub proof fn lemma_depth_of_interval(start: i64, end: i64, t: int)
    requires
        start <= end,
    ensures
        depth_at(interval_markers(start, end), t) == if start <= t < end {
            1int
        } else {
            0int
        },
{
    let markers = interval_markers(start, end);
    let front = markers.drop_last();
    assert(front.len() == 1);
    assert(front.last() == markers[0]);
    assert(front.drop_last().len() == 0);
    assert(depth_at(front.drop_last(), t) == 0);
    assert(depth_at(front, t) == contribution(markers[0], t));
    assert(markers.last() == markers[1]);
}

/// Well-formed markers with the markers of one more interval are well formed.
pub proof fn lemma_interval_appended(markers: Seq<TimeEvent>, start: i64, end: i64)
    requires
        well_formed_markers(markers),
        start <= end,
    ensures
        well_formed_markers(markers + interval_markers(start, end)),
{
    let longer = markers + interval_markers(start, end);
    assert forall|t: int| depth_at(longer, t) >= 0 by {
        lemma_depth_concat(markers, interval_markers(start, end), t);
        lemma_depth_of_interval(start, end, t);
    }
    lemma_depth_concat(markers, interval_markers(start, end), i64::MAX as int);
    lemma_depth_of_interval(start, end, i64::MAX as int);
}

/// An interval that begins at or after every one of the markers lies apart
/// from what they cover, so it adds its whole length to their union.
pub proof fn lemma_interval_behind(markers: Seq<TimeEvent>, start: i64, end: i64)
    requires
        well_formed_markers(markers),
        start <= end,
        forall|k: int| 0 <= k < markers.len() ==> markers[k].timestamp <= start,
    ensures
        unique_total_time(markers + interval_markers(start, end)) == unique_total_time(markers) + (
        end - start),
{
    let longer = markers + interval_markers(start, end);
    let lo = i64::MIN as int;
    let hi = i64::MAX as int;
    assert forall|t: int| depth_at(longer, t) == depth_at(markers, t) + if start <= t < end {
        1int
    } else {
        0int
    } by {
        lemma_depth_concat(markers, interval_markers(start, end), t);
        lemma_depth_of_interval(start, end, t);
    }
    assert forall|t: int| start <= t implies depth_at(markers, t) == 0 by {
        if t <= hi {
            lemma_depth_after_all(markers, t, hi);
        } else {
            lemma_depth_after_all(markers, hi, t);
        }
    }
    lemma_covered_split(longer, lo, start as int, hi);
    lemma_covered_split(longer, start as int, end as int, hi);
    lemma_covered_split(markers, lo, start as int, hi);
    lemma_covered_same_depth(longer, markers, lo, start as int);
    lemma_covered_open(longer, start as int, end as int);
    lemma_covered_idle(longer, end as int, hi);
    lemma_covered_idle(markers, start as int, hi);
}

/// Two sets of well-formed markers taken together are well formed.
pub proof fn lemma_pooled_well_formed(a: Seq<TimeEvent>, b: Seq<TimeEvent>)
    requires
        well_formed_markers(a),
        well_formed_markers(b),
    ensures
        well_formed_markers(a + b),
{
    assert forall|t: int| depth_at(a + b, t) >= 0 by {
        lemma_depth_concat(a, b, t);
    }
    lemma_depth_concat(a, b, i64::MAX as int);
}

proof fn lemma_covered_pooled(a: Seq<TimeEvent>, b: Seq<TimeEvent>, lo: int, hi: int)
    requires
        well_formed_markers(a),
        well_formed_markers(b),
    ensures
        covered(a, lo, hi) <= covered(a + b, lo, hi) <= covered(a, lo, hi) + covered(b, lo, hi),
        covered(b, lo, hi) <= covered(a + b, lo, hi),
    decreases hi - lo,
{
    if lo < hi {
        lemma_covered_pooled(a, b, lo, hi - 1);
        lemma_depth_concat(a, b, hi - 1);
    }
}

/// Pooling counts no time twice and loses none: the union of two sets of
/// intervals is at least as long as either of them and at most as long as
/// both in sum.
pub proof fn lemma_union_bounds(a: Seq<TimeEvent>, b: Seq<TimeEvent>)
    requires
        well_formed_markers(a),
        well_formed_markers(b),
    ensures
        unique_total_time(a) <= unique_total_time(a + b),
        unique_total_time(b) <= unique_total_time(a + b),
        unique_total_time(a + b) <= unique_total_time(a) + unique_total_time(b),
{
    lemma_covered_pooled(a, b, i64::MIN as int, i64::MAX as int);
}

/// Markers that all lie at or after an instant cover nothing before it, so
/// their union is no longer than the time from that instant on.
pub proof fn lemma_total_within_span(markers: Seq<TimeEvent>, earliest: i64)
    requires
        forall|k: int| 0 <= k < markers.len() ==> earliest <= markers[k].timestamp,
    ensures
        0 <= unique_total_time(markers) <= i64::MAX - earliest,
{
    assert forall|t: int| i64::MIN <= t < earliest implies depth_at(markers, t) <= 0 by {
        lemma_depth_prefix(markers, 0, t);
        assert(markers.take(0) =~= Seq::<TimeEvent>::empty());
    }
    lemma_covered_idle(markers, i64::MIN as int, earliest as int);
    lemma_covered_split(markers, i64::MIN as int, earliest as int, i64::MAX as int);
    lemma_covered_bounds(markers, earliest as int, i64::MAX as int);
}

/// Timestamp of the marker handled last, or the earliest instant before any was handled.
spec fn last_seen(markers: Seq<TimeEvent>, i: int) -> int {
    if i <= 0 {
        i64::MIN as int
    } else {
        markers[i - 1].timestamp as int
    }
}

/// What the sweep knows after the first `i` markers of the sorted sequence.
spec fn sweep_state(
    markers: Seq<TimeEvent>,
    i: int,
    count: int,
    total: int,
    start: Option<i64>,
) -> bool {
    let seen = last_seen(markers, i);
    &&& count == depth_at(markers.take(i), i64::MAX as int)
    &&& -i <= count <= i
    &&& count >= 1 ==> {
        &&& start is Some
        &&& start->0 <= seen
        &&& total == covered(markers, i64::MIN as int, start->0 as int)
        &&& forall|t: int| start->0 <= t < seen ==> depth_at(markers, t) > 0
    }
    &&& count <= 0 ==> total == covered(markers, i64::MIN as int, seen)
}

/// Moving the sweep from the marker handled last up to the timestamp of the next
/// one keeps its state: in between, the depth is the running count.
proof fn lemma_sweep_advance(
    markers: Seq<TimeEvent>,
    i: int,
    count: int,
    total: int,
    start: Option<i64>,
)
    requires
        sorted_by_timestamp(markers),
        well_formed_markers(markers),
        0 <= i < markers.len(),
        sweep_state(markers, i, count, total, start),
    ensures
        last_seen(markers, i) <= markers[i].timestamp,
        count >= 1 ==> forall|t: int| start->0 <= t < markers[i].timestamp
            ==> depth_at(markers, t) > 0,
        count <= 0 ==> total == covered(markers, i64::MIN as int, markers[i].timestamp as int),
        count < 0 ==> last_seen(markers, i) == markers[i].timestamp,
{
    let seen = last_seen(markers, i);
    let next = markers[i].timestamp as int;
    if i > 0 {
        assert(markers[i - 1].timestamp <= markers[i].timestamp);
    }
    assert forall|t: int| seen <= t < next implies depth_at(markers, t) == count by {
        lemma_depth_prefix(markers, i, t);
    }
    if seen < next {
        assert(depth_at(markers, seen) == count);
    }
    if count <= 0 {
        lemma_covered_split(markers, i64::MIN as int, seen, next);
        lemma_covered_idle(markers, seen, next);
    }
}

/// Total time during which at least one interval is open, each instant counted
/// once however many intervals overlap there. The markers are sorted in place
/// by timestamp first, so the order in which they arrive does not matter.
pub fn calculate_unique_total_time(events: &mut [TimeEvent]) -> (total: i64)
    requires
        well_formed_markers(old(events)@),
        unique_total_time(old(events)@) <= i64::MAX,
    ensures
        total == unique_total_time(old(events)@),
        total >= 0,
        sorted_by_timestamp(final(events)@),
        final(events)@.to_multiset() == old(events)@.to_multiset(),
        well_formed_markers(final(events)@),
        unique_total_time(final(events)@) == total,
{
    sort_by_timestamp(events);
    let ghost sorted = events@;
    proof {
        lemma_covered_same_depth(sorted, old(events)@, i64::MIN as int, i64::MAX as int);
        assert(sorted.take(0) =~= Seq::<TimeEvent>::empty());
        lemma_covered_bounds(sorted, i64::MIN as int, i64::MIN as int);
    }
    let n: usize = events.len();
    let mut total_time: i64 = 0;
    let mut in_progress_count: i128 = 0;
    let mut start_timestamp: Option<i64> = None;
    let mut i: usize = 0;
    while i < n
        invariant
            events@ == sorted,
            sorted.len() == n,
            i <= n,
            sorted_by_timestamp(sorted),
            well_formed_markers(sorted),
            covered(sorted, i64::MIN as int, i64::MAX as int) <= i64::MAX,
            sweep_state(
                sorted,
                i as int,
                in_progress_count as int,
                total_time as int,
                start_timestamp,
            ),
        decreases n - i,
    {
        let event: TimeEvent = events[i];
        proof {
            lemma_sweep_advance(
                sorted,
                i as int,
                in_progress_count as int,
                total_time as int,
                start_timestamp,
            );
            assert(sorted.take(i + 1).drop_last() =~= sorted.take(i as int));
            assert(sorted.take(i + 1).last() == event);
        }
        if event.is_start {
            in_progress_count = in_progress_count + 1;

            if in_progress_count == 1 {
                start_timestamp = Some(event.timestamp);
            }
        } else {
            in_progress_count = in_progress_count - 1;

            if in_progress_count == 0 {
                let start: i64 = match start_timestamp {
                    Some(start) => start,
                    None => event.timestamp,
                };
                proof {
                    let lo = i64::MIN as int;
                    lemma_covered_open(sorted, start as int, event.timestamp as int);
                    lemma_covered_split(sorted, lo, start as int, event.timestamp as int);
                    lemma_covered_split(sorted, lo, event.timestamp as int, i64::MAX as int);
                    lemma_covered_bounds(sorted, event.timestamp as int, i64::MAX as int);
                    lemma_covered_bounds(sorted, lo, start as int);
                }
                total_time = total_time + (event.timestamp - start);
            }
        }
        i = i + 1;
    }
    proof {
        let seen = last_seen(sorted, n as int);
        assert(sorted.take(n as int) =~= sorted);
        assert forall|t: int| seen <= t < i64::MAX implies depth_at(sorted, t) <= 0 by {
            lemma_depth_prefix(sorted, n as int, t);
        }
        lemma_covered_split(sorted, i64::MIN as int, seen, i64::MAX as int);
        lemma_covered_idle(sorted, seen, i64::MAX as int);
        lemma_covered_bounds(sorted, i64::MIN as int, i64::MAX as int);
    }
    total_time
}

} // verus!
