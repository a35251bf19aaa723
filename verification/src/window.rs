//! Bounded-concurrency admission control for the fetch stage.
//!
//! At most [`IMAGE_GET_REQUESTS`] fetches may be in flight at once. The
//! driver of the fetch loop holds a [`FetchWindow`] and asks it for admission
//! before starting a fetch; when the window is full it must retire the
//! oldest in-flight fetch first. The window carries a ghost trace of its
//! start and retire events, and [`lemma_window_bounded`] states the bound:
//! along every valid trace the number of fetches in flight never exceeds the
//! cap.

use vstd::prelude::*;

verus! {

/// Cap on the number of fetches in flight at once.
pub const IMAGE_GET_REQUESTS: usize = 3;

/// One admission-control event: a fetch starts, or a fetch is retired.
#[derive(Clone, Copy, PartialEq, Eq, Structural, Debug)]
pub enum WindowEvent {
    Start,
    Retire,
}

/// Number of fetches in flight after a trace of events.
pub open spec fn in_flight_after(t: Seq<WindowEvent>) -> int
    decreases t.len(),
{
    if t.len() == 0 {
        0
    } else {
        match t.last() {
            WindowEvent::Start => in_flight_after(t.drop_last()) + 1,
            WindowEvent::Retire => in_flight_after(t.drop_last()) - 1,
        }
    }
}

/// A trace is valid when every start happens under the cap and every
/// retirement retires a fetch that is in flight.
pub open spec fn valid_trace(t: Seq<WindowEvent>) -> bool
    decreases t.len(),
{
    if t.len() == 0 {
        true
    } else {
        &&& valid_trace(t.drop_last())
        &&& (t.last() is Start ==> in_flight_after(t.drop_last()) < IMAGE_GET_REQUESTS)
        &&& (t.last() is Retire ==> in_flight_after(t.drop_last()) > 0)
    }
}

/// Along a valid trace, the number of fetches in flight never drops below
/// zero and never exceeds [`IMAGE_GET_REQUESTS`].
pub proof fn lemma_window_bounded(t: Seq<WindowEvent>)
    requires
        valid_trace(t),
    ensures
        0 <= in_flight_after(t) <= IMAGE_GET_REQUESTS,
    decreases t.len(),
{
    if t.len() > 0 {
        lemma_window_bounded(t.drop_last());
    }
}

/// Sliding-window admission control: counts the fetches in flight and keeps
/// them under the cap.
pub struct FetchWindow {
    in_flight: usize,
    trace: Ghost<Seq<WindowEvent>>,
}

impl FetchWindow {
    /// The event trace this window has gone through.
    pub closed spec fn trace(&self) -> Seq<WindowEvent> {
        self.trace@
    }

    /// Number of fetches currently in flight.
    pub closed spec fn count(&self) -> int {
        self.in_flight as int
    }

    /// The trace is valid and matches the count.
    pub closed spec fn wf(&self) -> bool {
        &&& valid_trace(self.trace@)
        &&& self.in_flight as int == in_flight_after(self.trace@)
    }

    /// An empty window: nothing in flight yet.
    pub fn new() -> (w: FetchWindow)
        ensures
            w.wf(),
            w.count() == 0,
            w.trace() == Seq::<WindowEvent>::empty(),
    {
        FetchWindow { in_flight: 0, trace: Ghost(Seq::empty()) }
    }

    /// Whether one more fetch may start without breaking the cap.
    pub fn has_capacity(&self) -> (b: bool)
        ensures
            b == (self.count() < IMAGE_GET_REQUESTS),
    {
        self.in_flight < IMAGE_GET_REQUESTS
    }

    /// Whether any fetch is in flight.
    pub fn is_empty(&self) -> (b: bool)
        ensures
            b == (self.count() == 0),
    {
        self.in_flight == 0
    }

    /// Number of fetches currently in flight.
    pub fn in_flight(&self) -> (n: usize)
        ensures
            n as int == self.count(),
    {
        self.in_flight
    }

    /// Starts one fetch; the caller must have checked the capacity first.
    pub fn start(&mut self)
        requires
            old(self).wf(),
            old(self).count() < IMAGE_GET_REQUESTS,
        ensures
            final(self).wf(),
            final(self).count() == old(self).count() + 1,
            final(self).count() <= IMAGE_GET_REQUESTS,
            final(self).trace() == old(self).trace().push(WindowEvent::Start),
    {
        proof {
            assert(self.trace@.push(WindowEvent::Start).drop_last() =~= self.trace@);
        }
        self.in_flight = self.in_flight + 1;
        self.trace = Ghost(self.trace@.push(WindowEvent::Start));
    }

    /// Retires one in-flight fetch once its work is done.
    pub fn retire(&mut self)
        requires
            old(self).wf(),
            old(self).count() > 0,
        ensures
            final(self).wf(),
            final(self).count() == old(self).count() - 1,
            final(self).trace() == old(self).trace().push(WindowEvent::Retire),
    {
        proof {
            assert(self.trace@.push(WindowEvent::Retire).drop_last() =~= self.trace@);
            lemma_window_bounded(self.trace@);
        }
        self.in_flight = self.in_flight - 1;
        self.trace = Ghost(self.trace@.push(WindowEvent::Retire));
    }
}

} // verus!
