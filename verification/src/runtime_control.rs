//! Requests to the running daemon, kept until its next cycle takes them.
use vstd::prelude::*;

verus! {

/// Requests that wait for the next tick.
#[derive(Debug, PartialEq, Eq)]
pub struct RuntimeControl {
    pause: Option<bool>,
    flush: bool,
    reconcile: bool,
}

/// The requests that wait.
pub struct RequestsView {
    /// To pause, or to resume; the later of the two counts.
    pub pause: Option<bool>,
    pub flush: bool,
    pub reconcile: bool,
}

impl View for RuntimeControl {
    type V = RequestsView;

    closed spec fn view(&self) -> RequestsView {
        RequestsView { pause: self.pause, flush: self.flush, reconcile: self.reconcile }
    }
}

impl Default for RuntimeControl {
    fn default() -> (r: RuntimeControl)
        ensures
            r@ == (RequestsView { pause: None, flush: false, reconcile: false }),
    {
        RuntimeControl::new()
    }
}

impl RuntimeControl {
    pub fn new() -> (r: RuntimeControl)
        ensures
            r@ == (RequestsView { pause: None, flush: false, reconcile: false }),
    {
        RuntimeControl { pause: None, flush: false, reconcile: false }
    }

    pub fn request_pause(&mut self)
        ensures
            final(self)@ == (RequestsView { pause: Some(true), ..old(self)@ }),
    {
        self.pause = Some(true);
    }

    pub fn request_resume(&mut self)
        ensures
            final(self)@ == (RequestsView { pause: Some(false), ..old(self)@ }),
    {
        self.pause = Some(false);
    }

    pub fn request_flush(&mut self)
        ensures
            final(self)@ == (RequestsView { flush: true, ..old(self)@ }),
    {
        self.flush = true;
    }

    pub fn request_reconcile(&mut self)
        ensures
            final(self)@ == (RequestsView { reconcile: true, ..old(self)@ }),
    {
        self.reconcile = true;
    }

    /// The request to pause or resume; it is taken once.
    pub fn take_pause_request(&mut self) -> (r: Option<bool>)
        ensures
            r == old(self)@.pause,
            final(self)@ == (RequestsView { pause: None, ..old(self)@ }),
    {
        self.pause.take()
    }

    /// Whether a flush was asked for; it is taken once.
    pub fn take_flush_request(&mut self) -> (r: bool)
        ensures
            r == old(self)@.flush,
            final(self)@ == (RequestsView { flush: false, ..old(self)@ }),
    {
        let asked = self.flush;
        self.flush = false;
        asked
    }

    /// Whether a reconcile was asked for; it is taken once.
    pub fn take_reconcile_request(&mut self) -> (r: bool)
        ensures
            r == old(self)@.reconcile,
            final(self)@ == (RequestsView { reconcile: false, ..old(self)@ }),
    {
        let asked = self.reconcile;
        self.reconcile = false;
        asked
    }
}

/// A request is taken once: what was asked for is there until it is taken, and
/// gone afterwards, and no request touches another.
pub proof fn law_a_request_is_taken_once(
    asked: &mut RuntimeControl,
    pausing: &mut RuntimeControl,
    taken: &mut RuntimeControl,
    flushed: &mut RuntimeControl,
    p: Option<bool>,
    f: bool,
)
    requires
        call_ensures(RuntimeControl::request_flush, (asked,), ()),
        call_ensures(RuntimeControl::request_pause, (pausing,), ()),
        call_ensures(RuntimeControl::take_pause_request, (taken,), p),
        call_ensures(RuntimeControl::take_flush_request, (flushed,), f),
    ensures
        final(asked)@.flush,
        final(asked)@.pause == old(asked)@.pause,
        final(asked)@.reconcile == old(asked)@.reconcile,
        final(pausing)@.pause == Some(true),
        final(pausing)@.flush == old(pausing)@.flush,
        final(pausing)@.reconcile == old(pausing)@.reconcile,
        p == old(taken)@.pause,
        final(taken)@.pause is None,
        final(taken)@.flush == old(taken)@.flush,
        final(taken)@.reconcile == old(taken)@.reconcile,
        f == old(flushed)@.flush,
        !final(flushed)@.flush,
        final(flushed)@.pause == old(flushed)@.pause,
        final(flushed)@.reconcile == old(flushed)@.reconcile,
{
}

} // verus!
