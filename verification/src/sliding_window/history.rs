//! What a window holds after a history of writes, and the delta law over
//! the times of a query that follows from it.

use crate::counts::{differences, wrapping_difference, zeros};
use crate::layout::Layout;
use crate::sliding_window::{CommonView, WindowView};
use vstd::arithmetic::div_mod::{
    lemma_add_mod_noop, lemma_div_by_multiple, lemma_fundamental_div_mod,
    lemma_mod_add_multiples_vanish, lemma_mod_bound, lemma_small_mod,
};
use vstd::prelude::*;

verus! {

/// The window after the `events` were written in order, each a moment, a
/// value and a number of occurrences.
pub open spec fn run(window: WindowView, events: Seq<(nat, u64, u64)>) -> WindowView
    decreases events.len(),
{
    if events.len() == 0 {
        window
    } else {
        run(window, events.drop_last()).advanced(events.last().0).counted(
            events.last().1,
            events.last().2,
        )
    }
}

/// The events come in the order of their moments, and none misses a tick:
/// each comes before the end of the tick that begins next.
pub open spec fn in_step(window: WindowView, events: Seq<(nat, u64, u64)>) -> bool
    decreases events.len(),
{
    events.len() == 0 || {
        &&& in_step(window, events.drop_last())
        &&& events.last().0 < run(window, events.drop_last()).tick_at + window.common.resolution
        &&& events.len() >= 2 ==> events[events.len() - 2].0 <= events.last().0
    }
}

/// The number of occurrences that the events count in `bucket` at moments
/// from `from` up to, but not at, `to`.
pub open spec fn tally_between(
    layout: Layout,
    events: Seq<(nat, u64, u64)>,
    bucket: int,
    from: int,
    to: int,
) -> nat
    decreases events.len(),
{
    if events.len() == 0 {
        0
    } else {
        tally_between(layout, events.drop_last(), bucket, from, to) + if from <= events.last().0
            < to && events.last().1 < layout.limit() && layout.index_of(events.last().1 as nat)
            == bucket {
            events.last().2 as nat
        } else {
            0
        }
    }
}

/// The window is new: its first tick has not ended and nothing was
/// counted.
pub open spec fn fresh(window: WindowView) -> bool {
    &&& window.valid()
    &&& window.tick_at == window.common.tick_origin + window.common.resolution
    &&& window.live == zeros(window.layout.total_bins())
    &&& forall|place: int|
        0 <= place < window.snapshots.len() ==> (#[trigger] window.snapshots[place]) == zeros(
            window.layout.total_bins(),
        )
}

/// The moment at which the tick of the number `k` begins.
pub open spec fn boundary(common: CommonView, k: int) -> int {
    common.tick_origin + k * common.resolution
}

/// What the place of the ring holds that was written when the tick of the
/// number `k` ended.
pub open spec fn reading(window: WindowView, k: int, bucket: int) -> u64 {
    window.snapshots[(k + 1) % (window.common.num_slices as int)][bucket]
}

/// What a history leaves in a window: every event lies before the tick
/// that begins next, the live counters hold all events, and the places
/// that were written at the end of the last ticks, as many as the ring is
/// long, hold the events before the end of their tick.
pub open spec fn settled(start: WindowView, events: Seq<(nat, u64, u64)>) -> bool {
    let window = run(start, events);
    let ticks = window.ticks() as int;
    let places = window.common.num_slices as int;
    let bins = window.layout.total_bins() as int;
    &&& window.valid()
    &&& window.common == start.common
    &&& window.layout == start.layout
    &&& forall|k: int| 0 <= k < events.len() ==> (#[trigger] events[k]).0 < window.tick_at
    &&& ticks >= 2 ==> events.len() > 0 && events.last().0 >= window.tick_at
        - window.common.resolution
    &&& forall|bucket: int|
        0 <= bucket < bins ==> (#[trigger] window.live[bucket]) as int == tally_between(
            window.layout,
            events,
            bucket,
            0,
            window.tick_at as int,
        ) % 0x1_0000_0000_0000_0000
    &&& forall|k: int, bucket: int|
        1 <= k && places - 1 <= k <= ticks - 1 && k > ticks - 1 - places && 0 <= bucket < bins
            ==> (#[trigger] reading(window, k, bucket)) as int == tally_between(
            window.layout,
            events,
            bucket,
            0,
            boundary(window.common, k),
        ) % 0x1_0000_0000_0000_0000
}

/// Events before a moment are not counted from that moment on.
proof fn lemma_tally_upper(
    layout: Layout,
    events: Seq<(nat, u64, u64)>,
    bucket: int,
    from: int,
    to: int,
    further: int,
)
    requires
        to <= further,
        forall|k: int| 0 <= k < events.len() ==> (#[trigger] events[k]).0 < to,
    ensures
        tally_between(layout, events, bucket, from, to) == tally_between(
            layout,
            events,
            bucket,
            from,
            further,
        ),
    decreases events.len(),
{
    if events.len() > 0 {
        let front = events.drop_last();
        assert forall|k: int| 0 <= k < front.len() implies (#[trigger] front[k]).0 < to by {
            assert(front[k] == events[k]);
        }
        lemma_tally_upper(layout, front, bucket, from, to, further);
        assert(events.last() == events[events.len() - 1]);
    }
}

/// What is counted up to a moment is what is counted up to an earlier one
/// and what is counted between the two.
proof fn lemma_tally_split(
    layout: Layout,
    events: Seq<(nat, u64, u64)>,
    bucket: int,
    from: int,
    middle: int,
    to: int,
)
    requires
        from <= middle <= to,
    ensures
        tally_between(layout, events, bucket, from, to) == tally_between(
            layout,
            events,
            bucket,
            from,
            middle,
        ) + tally_between(layout, events, bucket, middle, to),
    decreases events.len(),
{
    if events.len() > 0 {
        lemma_tally_split(layout, events.drop_last(), bucket, from, middle, to);
    }
}

/// The ticks of a whole number of ticks.
proof fn lemma_ticks_of_boundary(common: CommonView, k: int)
    requires
        common.valid(),
        k >= 0,
    ensures
        boundary(common, k) >= common.tick_origin,
        (boundary(common, k) - common.tick_origin) / (common.resolution as int) == k,
        common.offset_ticks(boundary(common, k)) == k,
        common.slot(boundary(common, k)) == k % (common.num_slices as int),
{
    let d = common.resolution as int;
    lemma_div_by_multiple(k, d);
    assert(k * d >= 0) by (nonlinear_arith)
        requires
            k >= 0,
            d > 0,
    ;
    if k == 0 {
        assert(0 * d == 0) by (nonlinear_arith);
    } else {
        assert(k * d > 0) by (nonlinear_arith)
            requires
                k > 0,
                d > 0,
        ;
    }
}

/// Boundaries rise with their number.
proof fn lemma_boundary_rises(common: CommonView, j: int, k: int)
    requires
        common.valid(),
        j <= k,
    ensures
        boundary(common, j) <= boundary(common, k),
        boundary(common, k + 1) == boundary(common, k) + common.resolution,
{
    let d = common.resolution as int;
    assert(j * d <= k * d) by (nonlinear_arith)
        requires
            j <= k,
            d > 0,
    ;
    assert((k + 1) * d == k * d + d) by (nonlinear_arith);
}

/// The place that is overwritten when the tick of the number `k` ends.
proof fn lemma_place_of_rotation(common: CommonView, k: int)
    requires
        common.valid(),
        k >= 1,
    ensures
        k >= common.num_slices - 1 ==> common.rotation_slot(boundary(common, k) as nat) == (k + 1)
            % (common.num_slices as int),
{
    let d = common.resolution as int;
    let m = common.num_slices as int;
    lemma_ticks_of_boundary(common, k);
    if k >= m - 1 {
        let moment = boundary(common, k) + d - m * d;
        assert(moment == boundary(common, k + 1 - m)) by (nonlinear_arith)
            requires
                moment == common.tick_origin + k * d + d - m * d,
                boundary(common, k + 1 - m) == common.tick_origin + (k + 1 - m) * d,
        ;
        lemma_ticks_of_boundary(common, k + 1 - m);
        lemma_mod_add_multiples_vanish(k + 1 - m, m);
        assert(m + (k + 1 - m) == k + 1);
    }
}

/// Two ticks less than the length of the ring apart have different
/// places.
proof fn lemma_places_differ(m: int, j: int, k: int)
    requires
        m >= 1,
        0 <= j < k < j + m,
    ensures
        j % m != k % m,
        0 <= j % m < m,
        0 <= k % m < m,
{
    lemma_fundamental_div_mod(j, m);
    lemma_fundamental_div_mod(k, m);
    lemma_mod_bound(j, m);
    lemma_mod_bound(k, m);
    let qj = j / m;
    let qk = k / m;
    if j % m == k % m {
        assert(k - j == m * (qk - qj)) by (nonlinear_arith)
            requires
                j == m * qj + j % m,
                k == m * qk + k % m,
                j % m == k % m,
        ;
        if qk - qj <= 0 {
            assert(m * (qk - qj) <= 0) by (nonlinear_arith)
                requires
                    qk - qj <= 0,
                    m >= 1,
            ;
        } else {
            assert(m * (qk - qj) >= m) by (nonlinear_arith)
                requires
                    qk - qj >= 1,
                    m >= 1,
            ;
        }
    }
}

/// A history of events that come in step leaves a new window settled.
pub proof fn lemma_history(start: WindowView, events: Seq<(nat, u64, u64)>)
    requires
        fresh(start),
        in_step(start, events),
    ensures
        settled(start, events),
    decreases events.len(),
{
    let d = start.common.resolution as int;
    let m = start.common.num_slices as int;
    let bins = start.layout.total_bins() as int;
    let layout = start.layout;
    let common = start.common;
    if events.len() == 0 {
        start.lemma_ticks();
        lemma_div_by_multiple(1, d);
        assert(start.ticks() == 1);
        assert forall|bucket: int| 0 <= bucket < bins implies (#[trigger] start.live[bucket]) as int
            == tally_between(layout, events, bucket, 0, start.tick_at as int)
            % 0x1_0000_0000_0000_0000 by {}
    } else {
        let front = events.drop_last();
        let event = events.last();
        let before = run(start, front);
        lemma_history(start, front);
        before.lemma_ticks();
        before.lemma_advanced(event.0);
        let turned = before.advanced(event.0);
        turned.lemma_ticks();
        layout.lemma_value_in_bucket_if(event.1 as nat);
        let window = turned.counted(event.1, event.2);
        assert(window == run(start, events));
        let c1 = before.ticks() as int;
        let c = window.ticks() as int;
        assert(window.ticks() == turned.ticks());
        lemma_ticks_of_boundary(common, c1);
        lemma_ticks_of_boundary(common, c);
        assert(before.tick_at == boundary(common, c1));
        assert(window.tick_at == boundary(common, c));
        if event.0 >= before.tick_at {
            lemma_boundary_rises(common, c1, c1);
            assert(boundary(common, c1 + 1) == window.tick_at);
            lemma_ticks_of_boundary(common, c1 + 1);
            assert(c == c1 + 1);
        } else {
            assert(c == c1);
        }
        // every event lies before the tick that begins next
        assert forall|k: int| 0 <= k < events.len() implies (#[trigger] events[k]).0
            < window.tick_at by {
            if k < front.len() {
                assert(front[k] == events[k]);
            }
        }
        // the last event lies in the tick before
        if c >= 2 && event.0 < before.tick_at {
            assert(front.last() == events[events.len() - 2]);
        }
        // the live counters
        assert forall|bucket: int| 0 <= bucket < bins implies (#[trigger] window.live[bucket]) as int
            == tally_between(layout, events, bucket, 0, window.tick_at as int)
            % 0x1_0000_0000_0000_0000 by {
            assert(before.live[bucket] as int == tally_between(
                layout,
                front,
                bucket,
                0,
                before.tick_at as int,
            ) % 0x1_0000_0000_0000_0000);
            lemma_tally_upper(layout, front, bucket, 0, before.tick_at as int, window.tick_at as int);
            assert(turned.live == before.live);
        }
        // the places of the ring
        assert forall|k: int, bucket: int|
            1 <= k && m - 1 <= k <= c - 1 && k > c - 1 - m && 0 <= bucket < bins implies (
        #[trigger] reading(window, k, bucket)) as int == tally_between(
            layout,
            events,
            bucket,
            0,
            boundary(common, k),
        ) % 0x1_0000_0000_0000_0000 by {
            assert(window.snapshots == turned.snapshots);
            lemma_boundary_rises(common, k, c - 1);
            lemma_boundary_rises(common, c - 1, c - 1);
            // the last event is not before the end of the tick `k`
            assert(event.0 >= boundary(common, k));
            lemma_mod_bound(k + 1, m);
            if event.0 >= before.tick_at && k == c1 {
                lemma_place_of_rotation(common, c1);
                assert(before.rotation_slot() == (k + 1) % m);
                assert(turned.snapshots[(k + 1) % m] == before.live);
                assert(before.live[bucket] as int == tally_between(
                    layout,
                    front,
                    bucket,
                    0,
                    before.tick_at as int,
                ) % 0x1_0000_0000_0000_0000);
            } else {
                if event.0 >= before.tick_at {
                    if c1 >= m - 1 {
                        lemma_place_of_rotation(common, c1);
                        lemma_places_differ(m, k + 1, c1 + 1);
                    }
                    assert((k + 1) % m != before.rotation_slot());
                    assert(turned.snapshots[(k + 1) % m] == before.snapshots[(k + 1) % m]);
                }
                assert(reading(window, k, bucket) == reading(before, k, bucket));
            }
        }
    }
}

/// The delta law over the times of a query. In a new window that was
/// written to in step, what is read as counted from the beginning `from` of
/// one tick to the beginning `to` of a later one is, for every bucket, what
/// the events counted in it from one tick before `from` up to one tick
/// before `to`, modulo `2^64`: a place of the ring is written when a tick
/// has ended, so that a reading lags its moment by one tick.
///
/// Both ticks have ended, the earlier one later than the window's first
/// ticks, as many as the ring is long, and within as many ticks before the
/// one that begins next.
pub proof fn lemma_delta_over_query_times(
    start: WindowView,
    events: Seq<(nat, u64, u64)>,
    from: int,
    to: int,
    bucket: int,
)
    requires
        fresh(start),
        in_step(start, events),
        2 <= from <= to <= run(start, events).ticks(),
        start.common.num_slices <= from,
        from > run(start, events).ticks() - start.common.num_slices,
        0 <= bucket < start.layout.total_bins(),
    ensures
        run(start, events).delta(
            boundary(start.common, from),
            boundary(start.common, to),
        )[bucket] as int == tally_between(
            start.layout,
            events,
            bucket,
            boundary(start.common, from - 1),
            boundary(start.common, to - 1),
        ) % 0x1_0000_0000_0000_0000,
{
    let window = run(start, events);
    let common = start.common;
    let layout = start.layout;
    let d = common.resolution as int;
    let m = common.num_slices as int;
    let c = window.ticks() as int;
    lemma_history(start, events);
    lemma_ticks_of_boundary(common, from);
    lemma_ticks_of_boundary(common, to);
    lemma_boundary_rises(common, from, to);
    lemma_boundary_rises(common, from - 1, to - 1);
    lemma_boundary_rises(common, 0, from - 1);
    let s = boundary(common, from);
    let e = boundary(common, to);
    // the places that the two moments select
    assert(e - s == (to - from) * d) by (nonlinear_arith)
        requires
            s == common.tick_origin + from * d,
            e == common.tick_origin + to * d,
    ;
    lemma_div_by_multiple(to - from, d);
    assert(common.span == d * (m - 1));
    assert(d * (m - 1) == (m - 1) * d) by (nonlinear_arith);
    if e >= s + common.span {
        assert(to - from >= m - 1) by (nonlinear_arith)
            requires
                (to - from) * d >= (m - 1) * d,
                d > 0,
        ;
    }
    assert(common.interval_ticks(s, e) == to - from);
    lemma_add_mod_noop(from, to - from, m);
    lemma_mod_bound(from, m);
    lemma_mod_bound(to - from, m);
    lemma_mod_bound(to, m);
    if to - from < m {
        lemma_small_mod((to - from) as nat, m as nat);
    }
    let first = common.range(s, e).0 as int;
    let last = common.range(s, e).1 as int;
    assert(first == from % m);
    assert(last == to % m);
    // what the two places hold
    assert(reading(window, from - 1, bucket) == window.snapshots[first][bucket]);
    assert(reading(window, to - 1, bucket) == window.snapshots[last][bucket]);
    lemma_tally_split(
        layout,
        events,
        bucket,
        0,
        boundary(common, from - 1),
        boundary(common, to - 1),
    );
    assert(window.snapshots[last].len() == layout.total_bins());
    assert(differences(window.snapshots[last], window.snapshots[first])[bucket]
        == wrapping_difference(window.snapshots[last][bucket], window.snapshots[first][bucket]));
}

/// The law of the whole span. In a new window that was written to in
/// step, what is read as counted over the whole span is, for every bucket,
/// what the events counted in it in as many ticks as the window has slices,
/// up to one tick before the one that begins next, modulo `2^64`.
///
/// The ring was written all round: twice as many ticks have ended as the
/// ring is long, less one.
pub proof fn lemma_whole_over_history(
    start: WindowView,
    events: Seq<(nat, u64, u64)>,
    bucket: int,
)
    requires
        fresh(start),
        in_step(start, events),
        run(start, events).ticks() >= 2 * start.common.num_slices - 1,
        run(start, events).ticks() >= start.common.num_slices + 1,
        0 <= bucket < start.layout.total_bins(),
    ensures
        run(start, events).whole()[bucket] as int == tally_between(
            start.layout,
            events,
            bucket,
            boundary(start.common, run(start, events).ticks() - start.common.num_slices),
            boundary(start.common, run(start, events).ticks() - 1),
        ) % 0x1_0000_0000_0000_0000,
{
    let window = run(start, events);
    let common = start.common;
    let d = common.resolution as int;
    let m = common.num_slices as int;
    let c = window.ticks() as int;
    lemma_history(start, events);
    window.lemma_ticks();
    assert(boundary(common, c) == window.tick_at);
    assert(boundary(common, c - m + 1) == window.tick_at - common.span) by (nonlinear_arith)
        requires
            boundary(common, c - m + 1) == common.tick_origin + (c - m + 1) * d,
            window.tick_at == common.tick_origin + c * d,
            common.span == d * (m - 1),
    ;
    lemma_delta_over_query_times(start, events, c - m + 1, c, bucket);
}

/// The law of the last ticks. In a new window that was written to in step,
/// what is read as counted in the last `ticks` ticks up to the beginning of
/// the current one is, for every bucket, what the events counted in it in
/// as many ticks up to one tick before that, modulo `2^64`.
///
/// There are fewer ticks than the window has slices: the longest time that
/// is answered for is the span less one tick. The earlier of the two ticks
/// has ended later than the window's first ticks, as many as the ring is
/// long.
pub proof fn lemma_last_over_history(
    start: WindowView,
    events: Seq<(nat, u64, u64)>,
    ticks: nat,
    bucket: int,
)
    requires
        fresh(start),
        in_step(start, events),
        ticks + 1 < start.common.num_slices,
        run(start, events).ticks() - 1 - ticks >= start.common.num_slices,
        0 <= bucket < start.layout.total_bins(),
    ensures
        run(start, events).last(ticks * start.common.resolution)[bucket] as int == tally_between(
            start.layout,
            events,
            bucket,
            boundary(start.common, run(start, events).ticks() - 2 - ticks),
            boundary(start.common, run(start, events).ticks() - 2),
        ) % 0x1_0000_0000_0000_0000,
{
    let window = run(start, events);
    let common = start.common;
    let d = common.resolution as int;
    let c = window.ticks() as int;
    lemma_history(start, events);
    window.lemma_ticks();
    let end = window.tick_at - d;
    assert(boundary(common, c - 1) == end) by (nonlinear_arith)
        requires
            boundary(common, c - 1) == common.tick_origin + (c - 1) * d,
            end == common.tick_origin + c * d - d,
    ;
    assert(boundary(common, c - 1 - ticks) == end - ticks * d) by (nonlinear_arith)
        requires
            boundary(common, c - 1 - ticks) == common.tick_origin + (c - 1 - ticks) * d,
            end == common.tick_origin + c * d - d,
    ;
    lemma_delta_over_query_times(start, events, c - 1 - ticks, c - 1, bucket);
}

} // verus!
