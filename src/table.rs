use vstd::prelude::*;

use crate::event::TraceEvent;
use crate::frame::{FrameData, FrameView};
use std::collections::HashMap;

verus! {

/// The mathematical content of one entry. Its sequence index is its
/// position in the table's view.
pub struct EntryView {
    pub ident: usize,
    pub file: Seq<char>,
    pub func: Seq<char>,
    pub start: u64,
    pub end: Option<u64>,
}

/// What one event did to a table.
#[derive(Clone, Copy, Debug, PartialEq, Eq, Structural)]
pub enum EventOutcome {
    /// Neither a call nor a return: nothing was looked at.
    Ignored,
    /// A call on an unseen activation opened a new entry.
    Opened,
    /// A call on an activation that already has an entry: a resumption.
    Resumed,
    /// A return from a paused, resumable activation: it only yielded.
    Suspended,
    /// A final return closed the activation's open entry.
    Closed,
    /// A final return on an activation whose entry was already closed.
    AlreadyClosed,
    /// A return with no matching entry.
    Dangling,
    /// A call that could not be recorded because the counter ran out.
    Exhausted,
}

/// Whether some entry of the table belongs to the activation `id`.
pub open spec fn has_ident(s: Seq<EntryView>, id: usize) -> bool {
    exists|i: int| 0 <= i < s.len() && (#[trigger] s[i]).ident == id
}

/// No two entries belong to the same activation.
pub open spec fn unique_idents(s: Seq<EntryView>) -> bool {
    forall|i: int, j: int|
        0 <= i < s.len() && 0 <= j < s.len() && (#[trigger] s[i]).ident == (#[trigger] s[j]).ident
            ==> i == j
}

/// The position of the entry of activation `id`.
pub open spec fn index_of(s: Seq<EntryView>, id: usize) -> int
    recommends
        has_ident(s, id),
{
    choose|i: int| 0 <= i < s.len() && (#[trigger] s[i]).ident == id
}

/// The entry opened by a call of activation `f` at time `now`.
pub open spec fn opened(f: FrameView, now: u64) -> EntryView {
    EntryView { ident: f.ident, file: f.file, func: f.func, start: now, end: None }
}

/// The entry `e` closed at time `now`.
pub open spec fn closed(e: EntryView, now: u64) -> EntryView {
    EntryView { ident: e.ident, file: e.file, func: e.func, start: e.start, end: Some(now) }
}

/// The effect of one event on a table: its new content and the outcome.
pub open spec fn step(s: Seq<EntryView>, event: TraceEvent, f: FrameView, now: u64) -> (
    Seq<EntryView>,
    EventOutcome,
) {
    match event {
        TraceEvent::Call => {
            if has_ident(s, f.ident) {
                (s, EventOutcome::Resumed)
            } else if s.len() < u64::MAX {
                (s.push(opened(f, now)), EventOutcome::Opened)
            } else {
                (s, EventOutcome::Exhausted)
            }
        },
        TraceEvent::Return => {
            if f.suspended {
                (s, EventOutcome::Suspended)
            } else if has_ident(s, f.ident) {
                let i = index_of(s, f.ident);
                if s[i].end is None {
                    (s.update(i, closed(s[i], now)), EventOutcome::Closed)
                } else {
                    (s, EventOutcome::AlreadyClosed)
                }
            } else {
                (s, EventOutcome::Dangling)
            }
        },
        _ => (s, EventOutcome::Ignored),
    }
}

/// Nanoseconds from an entry's start to its end, if it has ended. A clock
/// that went backwards counts as zero.
pub open spec fn duration(e: EntryView) -> Option<u64> {
    match e.end {
        Some(t) => if t >= e.start {
            Some((t - e.start) as u64)
        } else {
            Some(0u64)
        },
        None => None,
    }
}

/// One recorded activation. `end` stays unset while the activation has
/// not returned for good.
pub struct ProfilerEntry {
    ident: usize,
    file_name: String,
    func_name: String,
    start: u64,
    end: Option<u64>,
    index: u64,
}

impl View for ProfilerEntry {
    type V = EntryView;

    closed spec fn view(&self) -> EntryView {
        EntryView {
            ident: self.ident,
            file: self.file_name@,
            func: self.func_name@,
            start: self.start,
            end: self.end,
        }
    }
}

/// The table of one logical context: its entries in call order, a map
/// from activation identity to position, and the next sequence index.
pub struct ProfilerContext {
    entries: Vec<ProfilerEntry>,
    positions: HashMap<usize, usize>,
    count: u64,
}

impl View for ProfilerContext {
    type V = Seq<EntryView>;

    closed spec fn view(&self) -> Seq<EntryView> {
        self.entries@.map_values(|e: ProfilerEntry| e@)
    }
}

impl ProfilerContext {
    /// The positions map and the counter agree with the entries.
    pub closed spec fn wf(&self) -> bool {
        &&& self.count as int == self.entries@.len()
        &&& forall|i: int|
            0 <= i < self.entries@.len() ==> (#[trigger] self.entries@[i]).index as int == i
        &&& forall|i: int|
            0 <= i < self.entries@.len() ==> {
                &&& self.positions@.contains_key((#[trigger] self.entries@[i]).ident)
                &&& self.positions@[self.entries@[i].ident] as int == i
            }
        &&& forall|id: usize| #[trigger]
            self.positions@.contains_key(id) ==> {
                &&& (self.positions@[id] as int) < self.entries@.len()
                &&& self.entries@[self.positions@[id] as int].ident == id
            }
    }

    /// Every well-formed table holds at most one entry per activation.
    pub proof fn lemma_unique(&self)
        requires
            self.wf(),
        ensures
            unique_idents(self@),
    {
        assert forall|i: int, j: int|
            0 <= i < self@.len() && 0 <= j < self@.len() && (#[trigger] self@[i]).ident == (
            #[trigger] self@[j]).ident implies i == j by {
            assert(self.positions@[self.entries@[i].ident] as int == i);
            assert(self.positions@[self.entries@[j].ident] as int == j);
        }
    }

    /// An empty table whose next sequence index is zero.
    pub fn new() -> (r: ProfilerContext)
        ensures
            r.wf(),
            r@ == Seq::<EntryView>::empty(),
    {
        let r = ProfilerContext { entries: Vec::new(), positions: HashMap::new(), count: 0 };
        assert(r@ =~= Seq::<EntryView>::empty());
        r
    }

    /// Applies one call or return event of activation `frame`, observed at
    /// time `now`, to the table; every other event is ignored.
    pub fn on_event(&mut self, event: TraceEvent, frame: FrameData, now: u64) -> (r: EventOutcome)
        requires
            old(self).wf(),
        ensures
            final(self).wf(),
            (final(self)@, r) == step(old(self)@, event, frame@, now),
    {
        match event {
            TraceEvent::Call => self.on_call(frame, now),
            TraceEvent::Return => self.on_return(frame, now),
            _ => EventOutcome::Ignored,
        }
    }

    fn on_call(&mut self, frame: FrameData, now: u64) -> (r: EventOutcome)
        requires
            old(self).wf(),
        ensures
            final(self).wf(),
            (final(self)@, r) == step(old(self)@, TraceEvent::Call, frame@, now),
    {
        let id = frame.identifier;
        if self.positions.contains_key(&id) {
            proof {
                let p = self.positions@[id] as int;
                assert(self@[p].ident == id);
            }
            return EventOutcome::Resumed;
        }
        proof {
            assert forall|i: int| 0 <= i < self@.len() implies (#[trigger] self@[i]).ident != id by {
                assert(self.positions@.contains_key(self.entries@[i].ident));
            }
        }
        if self.count == u64::MAX {
            return EventOutcome::Exhausted;
        }
        let pos = self.entries.len();
        let ghost before = self@;
        let entry = ProfilerEntry {
            ident: id,
            file_name: frame.file_name,
            func_name: frame.func_name,
            start: now,
            end: None,
            index: self.count,
        };
        self.entries.push(entry);
        self.positions.insert(id, pos);
        self.count = self.count + 1;
        proof {
            assert(self@ =~= before.push(opened(frame@, now)));
            assert forall|k: usize| #[trigger] self.positions@.contains_key(k) implies {
                &&& (self.positions@[k] as int) < self.entries@.len()
                &&& self.entries@[self.positions@[k] as int].ident == k
            } by {
                if k != id {
                    assert(old(self).positions@.contains_key(k));
                }
            }
        }
        EventOutcome::Opened
    }

    fn on_return(&mut self, frame: FrameData, now: u64) -> (r: EventOutcome)
        requires
            old(self).wf(),
        ensures
            final(self).wf(),
            (final(self)@, r) == step(old(self)@, TraceEvent::Return, frame@, now),
    {
        if frame.is_suspended_resumable {
            return EventOutcome::Suspended;
        }
        let id = frame.identifier;
        proof {
            self.lemma_unique();
        }
        match self.positions.get(&id) {
            None => {
                proof {
                    assert forall|i: int| 0 <= i < self@.len() implies (#[trigger] self@[i]).ident
                        != id by {
                        assert(self.positions@.contains_key(self.entries@[i].ident));
                    }
                }
                EventOutcome::Dangling
            },
            Some(p) => {
                let pos = *p;
                let ghost before = self@;
                proof {
                    assert(before[pos as int].ident == id);
                    assert(index_of(before, id) == pos as int);
                }
                if self.entries[pos].end.is_some() {
                    return EventOutcome::AlreadyClosed;
                }
                self.entries[pos].end = Some(now);
                proof {
                    assert(self@ =~= before.update(pos as int, closed(before[pos as int], now)));
                }
                EventOutcome::Closed
            },
        }
    }

    /// The recorded entries in call order, each as its file name, function
    /// name, duration in nanoseconds (absent while open) and sequence index.
    /// The table is left as it is.
    pub fn entries(&self) -> (r: Vec<(String, String, Option<u64>, u64)>)
        requires
            self.wf(),
        ensures
            r@.len() == self@.len(),
            forall|i: int|
                0 <= i < r@.len() ==> {
                    &&& (#[trigger] r@[i]).0@ == self@[i].file
                    &&& r@[i].1@ == self@[i].func
                    &&& r@[i].2 == duration(self@[i])
                    &&& r@[i].3 as int == i
                },
    {
        let mut out: Vec<(String, String, Option<u64>, u64)> = Vec::new();
        let n = self.entries.len();
        let mut i: usize = 0;
        while i < n
            invariant
                self.wf(),
                n == self.entries@.len(),
                0 <= i <= n,
                out@.len() == i,
                forall|k: int|
                    0 <= k < i ==> {
                        &&& (#[trigger] out@[k]).0@ == self@[k].file
                        &&& out@[k].1@ == self@[k].func
                        &&& out@[k].2 == duration(self@[k])
                        &&& out@[k].3 as int == k
                    },
            decreases n - i,
        {
            let e = &self.entries[i];
            let d: Option<u64> = match e.end {
                Some(t) => if t >= e.start {
                    Some(t - e.start)
                } else {
                    Some(0)
                },
                None => None,
            };
            out.push((e.file_name.clone(), e.func_name.clone(), d, e.index));
            i = i + 1;
        }
        out
    }

    /// Number of entries recorded so far, which is also the next sequence
    /// index.
    pub fn len(&self) -> (r: u64)
        requires
            self.wf(),
        ensures
            r as int == self@.len(),
    {
        self.count
    }
}

} // verus!
