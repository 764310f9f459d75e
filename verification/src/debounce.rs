//! The debouncer: a timer and a latest-value cell.
//!
//! Bursts of "diagnostics needed" submissions coalesce into one publication:
//! each submission overwrites the pending workspace and resets the deadline;
//! a poll at or after the deadline delivers the pending workspace exactly
//! once. Time is the caller's clock, passed in as a tick count.

use vstd::prelude::*;
use crate::workspace::{Workspace, WorkspaceView};

verus! {

/// Addition that stops at the largest tick instead of wrapping.
pub open spec fn sat_add(a: u64, b: u64) -> u64 {
    if a + b > u64::MAX {
        u64::MAX
    } else {
        (a + b) as u64
    }
}

/// The spec-level image of a debouncer.
pub ghost struct DebouncerView {
    pub pending: Option<WorkspaceView>,
    pub deadline: u64,
}

/// What a submission leaves behind: the new workspace pending, the timer
/// reset to `now + delay`; whatever was pending in `d` is discarded.
pub open spec fn submit_spec(d: DebouncerView, w: WorkspaceView, now: u64, delay: u64) -> DebouncerView {
    DebouncerView { pending: Some(w), deadline: sat_add(now, delay) }
}

/// What a poll at `now` emits: the pending workspace, once the deadline has
/// passed; nothing otherwise.
pub open spec fn poll_emit_spec(d: DebouncerView, now: u64) -> Option<WorkspaceView> {
    if d.pending is Some && d.deadline <= now {
        d.pending
    } else {
        None
    }
}

/// The state a poll leaves behind: emptied if it emitted, untouched if not.
pub open spec fn poll_state_spec(d: DebouncerView, now: u64) -> DebouncerView {
    if d.pending is Some && d.deadline <= now {
        DebouncerView { pending: None, deadline: d.deadline }
    } else {
        d
    }
}

/// A submission supersedes every earlier one: two submissions in a row
/// leave exactly the state of the second alone.
pub proof fn lemma_submit_overwrites(
    d: DebouncerView,
    w1: WorkspaceView,
    t1: u64,
    dl1: u64,
    w2: WorkspaceView,
    t2: u64,
    dl2: u64,
)
    ensures
        submit_spec(submit_spec(d, w1, t1, dl1), w2, t2, dl2) == submit_spec(d, w2, t2, dl2),
{
}

/// Before the deadline a poll emits nothing and changes nothing.
pub proof fn lemma_no_early_emission(d: DebouncerView, now: u64)
    requires
        now < d.deadline,
    ensures
        poll_emit_spec(d, now) is None,
        poll_state_spec(d, now) == d,
{
}

/// After a burst of submissions, exactly one publication: the first poll at
/// or past the deadline emits the last submitted workspace, and every later
/// poll emits nothing until something new is submitted.
pub proof fn lemma_single_emission(d: DebouncerView, now1: u64, now2: u64)
    requires
        d.pending is Some,
        d.deadline <= now1,
    ensures
        poll_emit_spec(d, now1) == d.pending,
        poll_emit_spec(poll_state_spec(d, now1), now2) is None,
{
}

/// The debouncer: at most one pending workspace and its deadline.
pub struct Debouncer {
    pub pending: Option<Workspace>,
    pub deadline: u64,
}

impl View for Debouncer {
    type V = DebouncerView;

    open spec fn view(&self) -> DebouncerView {
        DebouncerView {
            pending: match self.pending {
                Some(ref w) => Some(w@),
                None => None,
            },
            deadline: self.deadline,
        }
    }
}

impl Debouncer {
    /// A debouncer with nothing pending.
    pub fn new() -> (d: Debouncer)
        ensures
            d@.pending is None,
    {
        Debouncer { pending: None, deadline: 0 }
    }

    /// Accepts a workspace snapshot: it replaces whatever was pending, and
    /// the quiet window restarts at `now`.
    pub fn submit(&mut self, w: Workspace, now: u64, delay: u64)
        ensures
            final(self)@ == submit_spec(old(self)@, w@, now, delay),
    {
        let deadline = if delay <= u64::MAX - now {
            now + delay
        } else {
            u64::MAX
        };
        self.pending = Some(w);
        self.deadline = deadline;
    }

    /// Delivers the pending workspace once the quiet window has passed.
    pub fn poll(&mut self, now: u64) -> (r: Option<Workspace>)
        ensures
            final(self)@ == poll_state_spec(old(self)@, now),
            match r {
                Some(w) => poll_emit_spec(old(self)@, now) == Some(w@),
                None => poll_emit_spec(old(self)@, now) is None,
            },
    {
        if self.deadline <= now {
            self.pending.take()
        } else {
            None
        }
    }
}

} // verus!
