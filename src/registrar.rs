use vstd::prelude::*;

use crate::event::TraceEvent;
use crate::frame::{FrameData, FrameView};
use crate::table::{step, EntryView, EventOutcome, ProfilerContext};

verus! {

/// The effect of an event raised while the hook is `hook` and carrying
/// `selector`: the table's new content, and the outcome if the event was
/// handled at all. Only the installed hook's own selector is handled.
pub open spec fn delivered(
    hook: Option<usize>,
    selector: usize,
    s: Seq<EntryView>,
    event: TraceEvent,
    f: FrameView,
    now: u64,
) -> (Seq<EntryView>, Option<EventOutcome>) {
    if hook == Some(selector) {
        let (t, o) = step(s, event, f, now);
        (t, Some(o))
    } else {
        (s, None)
    }
}

/// The process-wide profiling hook: absent, or installed with the selector
/// that finds the logical context of the running code. Installing again
/// replaces the previous selector; there is no stacking.
pub struct Registrar {
    hook: Option<usize>,
}

impl View for Registrar {
    type V = Option<usize>;

    closed spec fn view(&self) -> Option<usize> {
        self.hook
    }
}

impl Registrar {
    /// No hook installed.
    pub fn new() -> (r: Registrar)
        ensures
            r@ == None::<usize>,
    {
        Registrar { hook: None }
    }

    /// Installs the hook with `selector`, replacing any earlier one.
    pub fn install(&mut self, selector: usize)
        ensures
            final(self)@ == Some(selector),
    {
        self.hook = Some(selector);
    }

    /// Removes the hook. Tables are not touched: open entries stay open.
    pub fn uninstall(&mut self)
        ensures
            final(self)@ == None::<usize>,
    {
        self.hook = None;
    }

    /// The selector of the installed hook, if any.
    pub fn selector(&self) -> (r: Option<usize>)
        ensures
            r == self@,
    {
        self.hook
    }

    /// Whether a hook is installed.
    pub fn is_installed(&self) -> (r: bool)
        ensures
            r == (self@ is Some),
    {
        self.hook.is_some()
    }

    /// Hands an event raised with `selector` to `table`, the table of the
    /// context that the selector resolved to. An event from a hook that is
    /// not the installed one (or when none is) changes nothing.
    pub fn dispatch(
        &self,
        selector: usize,
        table: &mut ProfilerContext,
        event: TraceEvent,
        frame: FrameData,
        now: u64,
    ) -> (r: Option<EventOutcome>)
        requires
            old(table).wf(),
        ensures
            final(table).wf(),
            (final(table)@, r) == delivered(self@, selector, old(table)@, event, frame@, now),
    {
        match self.hook {
            Some(h) => if h == selector {
                Some(table.on_event(event, frame, now))
            } else {
                None
            },
            None => None,
        }
    }
}

} // verus!
