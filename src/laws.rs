use vstd::prelude::*;

use crate::event::TraceEvent;
use crate::frame::FrameView;
use crate::registrar::delivered;
use crate::table::{closed, has_ident, index_of, opened, step, unique_idents, EntryView, EventOutcome};

verus! {

/// One event as a context observes it: its kind, the activation that
/// raised it, and the clock reading when it was handled.
pub struct Observed {
    pub event: TraceEvent,
    pub frame: FrameView,
    pub at: u64,
}

/// The table after handling every event of `tr`, in order, from `s`.
pub open spec fn run(s: Seq<EntryView>, tr: Seq<Observed>) -> Seq<EntryView>
    decreases tr.len(),
{
    if tr.len() == 0 {
        s
    } else {
        let o = tr.last();
        step(run(s, tr.drop_last()), o.event, o.frame, o.at).0
    }
}

/// A call on an activation that already has an entry is a resumption: the
/// table is left exactly as it was, so neither its start time nor its
/// sequence index changes and no index is used up.
pub proof fn lemma_resumption_keeps_table(s: Seq<EntryView>, f: FrameView, now: u64)
    requires
        has_ident(s, f.ident),
    ensures
        step(s, TraceEvent::Call, f, now) == (s, EventOutcome::Resumed),
{
}

/// A return from a paused, resumable activation closes nothing.
pub proof fn lemma_suspended_return_keeps_table(s: Seq<EntryView>, f: FrameView, now: u64)
    requires
        f.suspended,
    ensures
        step(s, TraceEvent::Return, f, now) == (s, EventOutcome::Suspended),
{
}

/// The only event that completes an open entry is a final (not suspended)
/// return of that same activation.
pub proof fn lemma_only_final_return_completes(
    s: Seq<EntryView>,
    event: TraceEvent,
    f: FrameView,
    now: u64,
    i: int,
)
    requires
        0 <= i < s.len(),
        s[i].end is None,
        step(s, event, f, now).0[i].end is Some,
    ensures
        event == TraceEvent::Return,
        !f.suspended,
        f.ident == s[i].ident,
{
    if event == TraceEvent::Return && !f.suspended && has_ident(s, f.ident) {
        let k = index_of(s, f.ident);
        if k != i {
            assert(step(s, event, f, now).0[i] == s[i]);
        }
    }
}

/// A final return of an activation whose entry is open closes that entry
/// at the time of the return, and changes nothing else.
pub proof fn lemma_final_return_completes(s: Seq<EntryView>, f: FrameView, now: u64, i: int)
    requires
        unique_idents(s),
        0 <= i < s.len(),
        s[i].ident == f.ident,
        s[i].end is None,
        !f.suspended,
    ensures
        step(s, TraceEvent::Return, f, now) == (
        s.update(i, closed(s[i], now)),
        EventOutcome::Closed,
        ),
{
    assert(s[index_of(s, f.ident)].ident == f.ident);
}

/// A return with no matching entry creates no entry and changes nothing;
/// it is reported, not failed.
pub proof fn lemma_dangling_return(s: Seq<EntryView>, f: FrameView, now: u64)
    requires
        !has_ident(s, f.ident),
    ensures
        step(s, TraceEvent::Return, f, now).0 == s,
        !f.suspended ==> step(s, TraceEvent::Return, f, now).1 == EventOutcome::Dangling,
{
}

/// The table after every event of `tr` has been raised with `selector`
/// while the hook is `hook`.
pub open spec fn deliver_all(
    hook: Option<usize>,
    selector: usize,
    s: Seq<EntryView>,
    tr: Seq<Observed>,
) -> Seq<EntryView>
    decreases tr.len(),
{
    if tr.len() == 0 {
        s
    } else {
        let o = tr.last();
        delivered(hook, selector, deliver_all(hook, selector, s, tr.drop_last()), o.event, o.frame, o.at).0
    }
}

/// Once the hook is uninstalled, no event changes a table: entries that
/// were open stay open.
pub proof fn lemma_uninstalled_is_inert(selector: usize, s: Seq<EntryView>, tr: Seq<Observed>)
    ensures
        deliver_all(None, selector, s, tr) == s,
    decreases tr.len(),
{
    if tr.len() > 0 {
        lemma_uninstalled_is_inert(selector, s, tr.drop_last());
    }
}

/// The events of an interleaved stream, tagged with the context they go
/// to, that belong to the context tagged `side`.
pub open spec fn routed(tr: Seq<(bool, Observed)>, side: bool) -> Seq<Observed>
    decreases tr.len(),
{
    if tr.len() == 0 {
        Seq::empty()
    } else {
        let p = routed(tr.drop_last(), side);
        if tr.last().0 == side {
            p.push(tr.last().1)
        } else {
            p
        }
    }
}

/// Two tables fed one interleaved stream, each event going to the table
/// that its tag names.
pub open spec fn run_pair(a: Seq<EntryView>, b: Seq<EntryView>, tr: Seq<(bool, Observed)>) -> (
    Seq<EntryView>,
    Seq<EntryView>,
)
    decreases tr.len(),
{
    if tr.len() == 0 {
        (a, b)
    } else {
        let (x, y) = run_pair(a, b, tr.drop_last());
        let o = tr.last().1;
        if tr.last().0 {
            (step(x, o.event, o.frame, o.at).0, y)
        } else {
            (x, step(y, o.event, o.frame, o.at).0)
        }
    }
}

/// Interleaving does not couple two contexts: each ends exactly as if it
/// had seen only its own events, with its own indices from its own start.
pub proof fn lemma_contexts_independent(
    a: Seq<EntryView>,
    b: Seq<EntryView>,
    tr: Seq<(bool, Observed)>,
)
    ensures
        run_pair(a, b, tr) == (run(a, routed(tr, true)), run(b, routed(tr, false))),
    decreases tr.len(),
{
    if tr.len() > 0 {
        lemma_contexts_independent(a, b, tr.drop_last());
        let o = tr.last().1;
        let p1 = routed(tr.drop_last(), true);
        let p2 = routed(tr.drop_last(), false);
        assert(p1.push(o).drop_last() =~= p1);
        assert(p2.push(o).drop_last() =~= p2);
    }
}

/// Positions in `tr` of its call events, in order.
pub open spec fn call_positions(tr: Seq<Observed>) -> Seq<int>
    decreases tr.len(),
{
    if tr.len() == 0 {
        Seq::empty()
    } else {
        let p = call_positions(tr.drop_last());
        if tr.last().event == TraceEvent::Call {
            p.push(tr.len() - 1)
        } else {
            p
        }
    }
}

/// Every event is a call or a return, and none comes from a paused
/// activation.
pub open spec fn plain_calls_and_returns(tr: Seq<Observed>) -> bool {
    forall|i: int|
        0 <= i < tr.len() ==> {
            &&& ((#[trigger] tr[i]).event == TraceEvent::Call || tr[i].event == TraceEvent::Return)
            &&& !tr[i].frame.suspended
        }
}

/// Clock readings never go backwards along the stream.
pub open spec fn monotone_times(tr: Seq<Observed>) -> bool {
    forall|i: int, j: int| 0 <= i <= j < tr.len() ==> (#[trigger] tr[i]).at <= (#[trigger] tr[j]).at
}

/// No two calls share an activation identity.
pub open spec fn calls_unique(tr: Seq<Observed>) -> bool {
    forall|i: int, j: int|
        0 <= i < tr.len() && 0 <= j < tr.len() && i != j && (#[trigger] tr[i]).event
            == TraceEvent::Call && (#[trigger] tr[j]).event == TraceEvent::Call
            ==> tr[i].frame.ident != tr[j].frame.ident
}

/// Every call is followed, later in the stream, by a return of the same
/// activation.
#[verifier::opaque]
pub open spec fn every_call_returns(tr: Seq<Observed>) -> bool {
    forall|i: int|
        0 <= i < tr.len() && (#[trigger] tr[i]).event == TraceEvent::Call ==> exists|j: int|
            i < j < tr.len() && (#[trigger] tr[j]).event == TraceEvent::Return && tr[j].frame.ident
                == tr[i].frame.ident
}

/// What holds of the table after a prefix of a stream of plain, uniquely
/// identified calls and returns, starting from an empty table.
spec fn prefix_inv(tr: Seq<Observed>, s: Seq<EntryView>, cp: Seq<int>) -> bool {
    &&& s.len() == cp.len()
    &&& cp.len() <= tr.len()
    &&& forall|k: int, l: int| 0 <= k < l < cp.len() ==> (#[trigger] cp[k]) < (#[trigger] cp[l])
    &&& forall|k: int|
        0 <= k < s.len() ==> {
            &&& 0 <= (#[trigger] cp[k]) < tr.len()
            &&& tr[cp[k]].event == TraceEvent::Call
            &&& s[k] == opened(tr[cp[k]].frame, tr[cp[k]].at) || {
                &&& s[k].ident == tr[cp[k]].frame.ident
                &&& s[k].file == tr[cp[k]].frame.file
                &&& s[k].func == tr[cp[k]].frame.func
                &&& s[k].start == tr[cp[k]].at
                &&& s[k].end is Some
                &&& s[k].end->Some_0 >= s[k].start
            }
        }
    &&& forall|k: int, j: int|
        0 <= k < s.len() && cp[k] < j < tr.len() && (#[trigger] s[k]).end is None ==> !(
        (#[trigger] tr[j]).event == TraceEvent::Return && tr[j].frame.ident == s[k].ident)
}

proof fn lemma_prefix(tr: Seq<Observed>)
    requires
        plain_calls_and_returns(tr),
        monotone_times(tr),
        calls_unique(tr),
        tr.len() < u64::MAX,
    ensures
        prefix_inv(tr, run(Seq::empty(), tr), call_positions(tr)),
    decreases tr.len(),
{
    reveal(prefix_inv);
    if tr.len() > 0 {
        let pre = tr.drop_last();
        assert forall|i: int| 0 <= i < pre.len() implies pre[i] == tr[i] by {}
        lemma_prefix(pre);
        let s0 = run(Seq::empty(), pre);
        let c0 = call_positions(pre);
        let s = run(Seq::empty(), tr);
        let cp = call_positions(tr);
        let n = tr.len() - 1;
        let o = tr[n];
        assert(o == tr.last());
        if o.event == TraceEvent::Call {
            assert forall|k: int| 0 <= k < s0.len() implies (#[trigger] s0[k]).ident != o.frame.ident by {
                assert(tr[c0[k]].event == TraceEvent::Call);
            }
            assert(!has_ident(s0, o.frame.ident));
            assert(s == s0.push(opened(o.frame, o.at)));
            assert(cp == c0.push(n));
        } else {
            assert(cp == c0);
            assert(!o.frame.suspended);
            if has_ident(s0, o.frame.ident) {
                let i = index_of(s0, o.frame.ident);
                if s0[i].end is None {
                    assert(s == s0.update(i, closed(s0[i], o.at)));
                    assert(tr[cp[i]].at <= o.at);
                    assert forall|k: int, j: int|
                        0 <= k < s.len() && cp[k] < j < tr.len() && (#[trigger] s[k]).end is None
                            implies !((#[trigger] tr[j]).event == TraceEvent::Return
                        && tr[j].frame.ident == s[k].ident) by {
                        if j < n {
                            assert(s0[k].end is None);
                        }
                    }
                }
            } else {
                assert forall|k: int, j: int|
                    0 <= k < s.len() && cp[k] < j < tr.len() && (#[trigger] s[k]).end is None
                        implies !((#[trigger] tr[j]).event == TraceEvent::Return
                    && tr[j].frame.ident == s[k].ident) by {
                    if j == n {
                        assert(s0[k].ident != o.frame.ident);
                    }
                }
            }
        }
    }
}

/// Entry `k` of the table after `tr` belongs to the `k`-th call of `tr`,
/// started at that call's time, and is closed no earlier than it started.
pub open spec fn closed_entry_of_call(tr: Seq<Observed>, k: int) -> bool {
    let s = run(Seq::empty(), tr);
    let cp = call_positions(tr);
    &&& tr[cp[k]].event == TraceEvent::Call
    &&& s[k].ident == tr[cp[k]].frame.ident
    &&& s[k].file == tr[cp[k]].frame.file
    &&& s[k].func == tr[cp[k]].frame.func
    &&& s[k].start == tr[cp[k]].at
    &&& s[k].end is Some
    &&& s[k].end->Some_0 >= s[k].start
}

proof fn lemma_entry_closed(tr: Seq<Observed>, k: int)
    requires
        every_call_returns(tr),
        prefix_inv(tr, run(Seq::empty(), tr), call_positions(tr)),
        0 <= k < run(Seq::empty(), tr).len(),
    ensures
        closed_entry_of_call(tr, k),
{
    reveal(prefix_inv);
    reveal(every_call_returns);
    let s = run(Seq::empty(), tr);
    let cp = call_positions(tr);
    let c = cp[k];
    assert(0 <= c < tr.len());
    assert(tr[c].event == TraceEvent::Call);
    let j = choose|j: int|
        c < j < tr.len() && (#[trigger] tr[j]).event == TraceEvent::Return && tr[j].frame.ident
            == tr[c].frame.ident;
    if s[k].end is None {
        assert(s[k] == opened(tr[c].frame, tr[c].at));
        assert(!(tr[j].event == TraceEvent::Return && tr[j].frame.ident == s[k].ident));
    }
}

proof fn lemma_inv_len(tr: Seq<Observed>)
    requires
        prefix_inv(tr, run(Seq::empty(), tr), call_positions(tr)),
    ensures
        run(Seq::empty(), tr).len() == call_positions(tr).len(),
{
    reveal(prefix_inv);
}

/// For a stream of plain calls and returns, with distinct activations,
/// clock readings that never go backwards and a later return for every
/// call (as a well-nested stream has), handled from an empty table: there
/// is one entry per call, entry `k` (sequence index `k`) belongs to the
/// `k`-th call and started at its time, and every entry is closed with an
/// end no earlier than its start.
pub proof fn lemma_nested_run_completes(tr: Seq<Observed>)
    requires
        plain_calls_and_returns(tr),
        monotone_times(tr),
        calls_unique(tr),
        every_call_returns(tr),
        tr.len() < u64::MAX,
    ensures
        run(Seq::empty(), tr).len() == call_positions(tr).len(),
        forall|k: int|
            0 <= k < run(Seq::empty(), tr).len() ==> #[trigger] closed_entry_of_call(tr, k),
{
    lemma_prefix(tr);
    lemma_inv_len(tr);
    assert forall|k: int| 0 <= k < run(Seq::empty(), tr).len() implies #[trigger] closed_entry_of_call(tr, k) by {
        lemma_entry_closed(tr, k);
    }
}

} // verus!
