//! Properties of whole runs of the session engine.
use vstd::prelude::*;
use crate::engine::{EngineView, EventView, PhaseView, RecordView, SnapshotView, next, close_time};
use crate::logfile::{max_id, resumed_id};

verus! {

/// Feeds `evs` (each an event and the time it was observed) to the engine
/// from state `s`; gives the final state and the records emitted, in order.
pub open spec fn run(s: EngineView, evs: Seq<(EventView, nat)>) -> (EngineView, Seq<RecordView>)
    decreases evs.len(),
{
    if evs.len() == 0 {
        (s, Seq::empty())
    } else {
        let (mid, rs) = run(s, evs.drop_last());
        let (s2, out) = next(mid, evs.last().0, evs.last().1);
        (
            s2,
            match out.record {
                Some(r) => rs.push(r),
                None => rs,
            },
        )
    }
}

pub open spec fn sum_durations(rs: Seq<RecordView>) -> int
    decreases rs.len(),
{
    if rs.len() == 0 {
        0
    } else {
        sum_durations(rs.drop_last()) + rs.last().duration()
    }
}

/// Observation times never go back, and none precedes `start`.
pub open spec fn timely(start: nat, evs: Seq<(EventView, nat)>) -> bool {
    &&& forall|i: int| 0 <= i < evs.len() ==> start <= #[trigger] evs[i].1
    &&& forall|i: int, j: int| 0 <= i <= j < evs.len() ==> #[trigger] evs[i].1 <= #[trigger] evs[j].1
}

pub open spec fn all_focus_changes(evs: Seq<(EventView, nat)>) -> bool {
    forall|i: int| 0 <= i < evs.len() ==> #[trigger] evs[i].0 is FocusChanged
}

pub open spec fn all_ticks(evs: Seq<(EventView, nat)>) -> bool {
    forall|i: int| 0 <= i < evs.len() ==> #[trigger] evs[i].0 is Tick
}

/// Every event is a tick whose token differs from `id`.
pub open spec fn all_stale_ticks(id: nat, evs: Seq<(EventView, nat)>) -> bool {
    forall|i: int|
        0 <= i < evs.len() ==> (#[trigger] evs[i].0 matches EventView::Tick(t) && t != id)
}

/// Running `a` then `b` is running their concatenation.
pub proof fn lemma_run_append(s: EngineView, a: Seq<(EventView, nat)>, b: Seq<(EventView, nat)>)
    ensures
        run(s, a + b) == (run(run(s, a).0, b).0, run(s, a).1 + run(run(s, a).0, b).1),
    decreases b.len(),
{
    if b.len() == 0 {
        assert(a + b =~= a);
        assert(run(s, a).1 + Seq::<RecordView>::empty() =~= run(s, a).1);
    } else {
        assert((a + b).drop_last() =~= a + b.drop_last());
        assert((a + b).last() == b.last());
        lemma_run_append(s, a, b.drop_last());
        let mid = run(run(s, a).0, b.drop_last());
        let (s2, out) = next(mid.0, b.last().0, b.last().1);
        match out.record {
            Some(r) => {
                assert(run(s, a).1 + mid.1.push(r) =~= (run(s, a).1 + mid.1).push(r));
            },
            None => {},
        }
    }
}

/// Starting with no session, a run of focus changes alone emits one record
/// fewer than it has events: the first one only opens a session.
pub proof fn lemma_focus_changes_emit_one_fewer(next_id: nat, evs: Seq<(EventView, nat)>)
    requires
        evs.len() >= 1,
        all_focus_changes(evs),
    ensures
        run(EngineView { next_id, phase: PhaseView::Idle }, evs).1.len() == evs.len() - 1,
        run(EngineView { next_id, phase: PhaseView::Idle }, evs).0.phase is Tracking,
    decreases evs.len(),
{
    let s = EngineView { next_id, phase: PhaseView::Idle };
    assert(evs.last().0 is FocusChanged);
    if evs.len() == 1 {
        assert(evs.drop_last().len() == 0);
    } else {
        assert forall|i: int| 0 <= i < evs.drop_last().len() implies #[trigger] evs.drop_last()[i].0 is FocusChanged by {
            assert(evs[i].0 is FocusChanged);
        }
        lemma_focus_changes_emit_one_fewer(next_id, evs.drop_last());
    }
}

/// Each emitted record takes the counter's value and the counter then moves
/// on by one: IDs run on from the starting counter with no gap or repeat.
pub proof fn lemma_ids_consecutive(s: EngineView, evs: Seq<(EventView, nat)>)
    ensures
        run(s, evs).0.next_id == s.next_id + run(s, evs).1.len(),
        forall|i: int| 0 <= i < run(s, evs).1.len() ==> #[trigger] run(s, evs).1[i].id == s.next_id + i,
    decreases evs.len(),
{
    if evs.len() > 0 {
        lemma_ids_consecutive(s, evs.drop_last());
    }
}

/// An engine resumed from earlier logs whose last IDs are `ids`, with
/// largest `n`, gives its records the IDs `n + 1`, `n + 2`, ... in order.
pub proof fn lemma_resumed_ids(ids: Seq<u64>, first: u64, evs: Seq<(EventView, nat)>)
    requires
        resumed_id(ids) == Some(first),
    ensures
        first == max_id(ids) + 1,
        forall|i: int|
            0 <= i < run(EngineView { next_id: first as nat, phase: PhaseView::Idle }, evs).1.len()
                ==> #[trigger] run(EngineView { next_id: first as nat, phase: PhaseView::Idle }, evs).1[i].id
                == max_id(ids) + 1 + i,
{
    lemma_ids_consecutive(EngineView { next_id: first as nat, phase: PhaseView::Idle }, evs);
}

/// Ticks whose token is not the current counter, however many, emit
/// nothing and leave the state as it was.
pub proof fn lemma_stale_ticks_change_nothing(s: EngineView, evs: Seq<(EventView, nat)>)
    requires
        all_stale_ticks(s.next_id, evs),
    ensures
        run(s, evs) == (s, Seq::<RecordView>::empty()),
    decreases evs.len(),
{
    if evs.len() > 0 {
        assert forall|i: int| 0 <= i < evs.drop_last().len() implies
            (#[trigger] evs.drop_last()[i].0 matches EventView::Tick(t) && t != s.next_id) by {
            assert(evs[i].0 matches EventView::Tick(t) && t != s.next_id);
        }
        lemma_stale_ticks_change_nothing(s, evs.drop_last());
        assert(evs[evs.len() - 1].0 matches EventView::Tick(t) && t != s.next_id);
    }
}

/// Once shutdown has been handled, nothing more is emitted or changed.
pub proof fn lemma_done_absorbs(s: EngineView, evs: Seq<(EventView, nat)>)
    requires
        s.phase is Done,
    ensures
        run(s, evs) == (s, Seq::<RecordView>::empty()),
    decreases evs.len(),
{
    if evs.len() > 0 {
        lemma_done_absorbs(s, evs.drop_last());
    }
}

/// Ticks alone, from an open session on `snap` since `start`: the session
/// stays on `snap`, and the records emitted cover exactly the time from
/// `start` to the current session's start.
proof fn lemma_ticks_cover(next_id: nat, snap: SnapshotView, start: nat, evs: Seq<(EventView, nat)>)
    requires
        all_ticks(evs),
        timely(start, evs),
    ensures
        ({
            let (f, rs) = run(EngineView { next_id, phase: PhaseView::Tracking { snapshot: snap, start } }, evs);
            &&& f.phase matches PhaseView::Tracking { snapshot, start: s1 }
            &&& snapshot == snap
            &&& start <= s1
            &&& (evs.len() > 0 ==> s1 <= evs.last().1)
            &&& sum_durations(rs) == s1 - start
            &&& forall|i: int| 0 <= i < rs.len() ==> #[trigger] rs[i].snapshot == snap
        }),
    decreases evs.len(),
{
    let s0 = EngineView { next_id, phase: PhaseView::Tracking { snapshot: snap, start } };
    if evs.len() > 0 {
        let p = evs.drop_last();
        assert forall|i: int| 0 <= i < p.len() implies #[trigger] p[i].0 is Tick by {
            assert(evs[i].0 is Tick);
        }
        assert forall|i: int| 0 <= i < p.len() implies start <= #[trigger] p[i].1 by {
            assert(start <= evs[i].1);
        }
        assert forall|i: int, j: int| 0 <= i <= j < p.len() implies #[trigger] p[i].1 <= #[trigger] p[j].1 by {
            assert(evs[i].1 <= evs[j].1);
        }
        lemma_ticks_cover(next_id, snap, start, p);
        assert(evs.last().0 is Tick);
        assert(start <= evs.last().1);
        if p.len() > 0 {
            assert(p.last().1 <= evs.last().1);
        }
        let (mid, rs) = run(s0, p);
        let (s2, out) = next(mid, evs.last().0, evs.last().1);
        if let Some(r) = out.record {
            lemma_sum_push(rs, r);
            assert forall|i: int| 0 <= i < rs.push(r).len() implies #[trigger] rs.push(r)[i].snapshot == snap by {
                if i < rs.len() {
                    assert(rs.push(r)[i] == rs[i]);
                }
            }
        }
    }
}

proof fn lemma_sum_push(rs: Seq<RecordView>, r: RecordView)
    ensures
        sum_durations(rs.push(r)) == sum_durations(rs) + r.duration(),
{
    assert(rs.push(r).drop_last() =~= rs);
}

/// One session on `snap`, open since `start` and split by any number of
/// ticks until a focus change or shutdown closes it: the records emitted
/// all name `snap`, and their durations add up to the time it held focus.
pub proof fn lemma_split_session_covers_focus_time(
    next_id: nat,
    snap: SnapshotView,
    start: nat,
    evs: Seq<(EventView, nat)>,
)
    requires
        evs.len() >= 1,
        all_ticks(evs.drop_last()),
        evs.last().0 is FocusChanged || evs.last().0 is Shutdown,
        timely(start, evs),
    ensures
        sum_durations(run(EngineView { next_id, phase: PhaseView::Tracking { snapshot: snap, start } }, evs).1)
            == evs.last().1 - start,
        forall|i: int|
            0 <= i < run(EngineView { next_id, phase: PhaseView::Tracking { snapshot: snap, start } }, evs).1.len()
                ==> #[trigger] run(EngineView { next_id, phase: PhaseView::Tracking { snapshot: snap, start } }, evs).1[i].snapshot == snap,
{
    let p = evs.drop_last();
    assert forall|i: int| 0 <= i < p.len() implies start <= #[trigger] p[i].1 by {
        assert(start <= evs[i].1);
    }
    assert forall|i: int, j: int| 0 <= i <= j < p.len() implies #[trigger] p[i].1 <= #[trigger] p[j].1 by {
        assert(evs[i].1 <= evs[j].1);
    }
    lemma_ticks_cover(next_id, snap, start, p);
    assert(start <= evs.last().1);
    if p.len() > 0 {
        assert(p.last().1 <= evs.last().1);
    }
    let s0 = EngineView { next_id, phase: PhaseView::Tracking { snapshot: snap, start } };
    let (mid, rs) = run(s0, p);
    let (s2, out) = next(mid, evs.last().0, evs.last().1);
    let r = out.record->Some_0;
    lemma_sum_push(rs, r);
    assert forall|i: int| 0 <= i < rs.push(r).len() implies #[trigger] rs.push(r)[i].snapshot == snap by {
        if i < rs.len() {
            assert(rs.push(r)[i] == rs[i]);
        }
    }
}

/// Shutdown with a session open emits exactly one record, for that
/// session, and no event queued behind it is processed.
pub proof fn lemma_shutdown_while_tracking(
    s: EngineView,
    now: nat,
    rest: Seq<(EventView, nat)>,
)
    requires
        s.phase is Tracking,
    ensures
        next(s, EventView::Shutdown, now).1.exit,
        ({
            let (f, rs) = run(s, seq![(EventView::Shutdown, now)] + rest);
            &&& f.phase is Done
            &&& rs.len() == 1
            &&& s.phase matches PhaseView::Tracking { snapshot, start }
            &&& rs[0] == (RecordView { id: s.next_id, snapshot, start, end: close_time(start, now) })
        }),
{
    let first = seq![(EventView::Shutdown, now)];
    assert(first.drop_last() =~= Seq::<(EventView, nat)>::empty());
    assert(run(s, first.drop_last()) == (s, Seq::<RecordView>::empty()));
    lemma_run_append(s, first, rest);
    assert(Seq::<RecordView>::empty() + run(run(s, first).0, rest).1 =~= run(run(s, first).0, rest).1);
    lemma_done_absorbs(run(s, first).0, rest);
}

/// Shutdown before any focus change emits nothing and ends the run.
pub proof fn lemma_shutdown_while_idle(next_id: nat, now: nat, rest: Seq<(EventView, nat)>)
    ensures
        next(EngineView { next_id, phase: PhaseView::Idle }, EventView::Shutdown, now).1.exit,
        run(EngineView { next_id, phase: PhaseView::Idle }, seq![(EventView::Shutdown, now)] + rest).0.phase is Done,
        run(EngineView { next_id, phase: PhaseView::Idle }, seq![(EventView::Shutdown, now)] + rest).1.len() == 0,
{
    let s = EngineView { next_id, phase: PhaseView::Idle };
    let first = seq![(EventView::Shutdown, now)];
    assert(first.drop_last() =~= Seq::<(EventView, nat)>::empty());
    assert(run(s, first.drop_last()) == (s, Seq::<RecordView>::empty()));
    lemma_run_append(s, first, rest);
    assert(Seq::<RecordView>::empty() + run(run(s, first).0, rest).1 =~= run(run(s, first).0, rest).1);
    lemma_done_absorbs(run(s, first).0, rest);
}

} // verus!
