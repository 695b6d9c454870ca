//! Listening for the signal to shut down.

use tokio::sync::broadcast::Receiver;
use vstd::prelude::*;

verus! {

/// The shutdown signal as one task sees it: the receiver on which the
/// signal arrives, and whether it has arrived.
pub struct Shutdown {
    notify: Receiver<()>,
    is_shutdown: bool,
}

impl View for Shutdown {
    type V = bool;

    /// Whether the signal has arrived.
    closed spec fn view(&self) -> bool {
        self.is_shutdown
    }
}

impl Shutdown {
    /// The receiver on which the signal arrives.
    pub closed spec fn channel(&self) -> Receiver<()> {
        self.notify
    }

    /// A listener on `notify`, on which no signal has arrived yet.
    pub fn new(notify: Receiver<()>) -> (r: Shutdown)
        ensures
            !r@,
            r.channel() == notify,
    {
        Shutdown { notify, is_shutdown: false }
    }

    /// Whether the signal has arrived.
    pub fn is_shutdown(&self) -> (r: bool)
        ensures
            r == self@,
    {
        self.is_shutdown
    }

    /// The receiver to wait on, for as long as the signal has not arrived.
    /// It is the listener's own: what is done to it is done to the
    /// listener's receiver, and nothing else of the listener changes.
    pub fn receiver(&mut self) -> (r: &mut Receiver<()>)
        ensures
            *r == old(self).channel(),
            final(self).channel() == *final(r),
            final(self)@ == old(self)@,
    {
        &mut self.notify
    }

    /// Takes note that the signal has arrived. From then on it has arrived
    /// for good.
    pub fn received(&mut self)
        ensures
            final(self)@,
            final(self).channel() == old(self).channel(),
    {
        self.is_shutdown = true;
    }
}

} // verus!
