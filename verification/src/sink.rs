//! The delivery of events to the sink.
//!
//! The sink itself is outside this library. `Delivery` decides what is
//! done next and what a sink's answer means: events are emitted in their
//! order, an event the sink turned down is emitted again, and after more
//! failures in a row than the retry limit allows the delivery is fatal.

use vstd::prelude::*;

verus! {

/// What to do next.
#[derive(Clone, Copy, Debug, PartialEq, Eq, Structural)]
pub enum SinkAction {
    /// Emit the event at this place.
    Emit(usize),
    /// Every event was accepted.
    Done,
    /// The sink keeps failing: stop the engine.
    Halt,
}

/// The state of the delivery of one batch of events.
#[derive(Clone, Copy, Debug, PartialEq, Eq, Structural)]
pub struct Delivery {
    /// How many events the batch has.
    pub total: usize,
    /// How many of them the sink has accepted.
    pub delivered: usize,
    /// How often in a row the sink has turned the next event down.
    pub failures: u32,
    /// How many failures in a row are borne.
    pub max_retries: u32,
    /// Whether the delivery has been given up.
    pub fatal: bool,
}

impl Delivery {
    /// No more events are accepted than there are.
    pub open spec fn wf(self) -> bool {
        self.delivered <= self.total
    }

    /// The action that the state calls for.
    pub open spec fn spec_next(&self) -> SinkAction {
        if self.fatal {
            SinkAction::Halt
        } else if self.delivered >= self.total {
            SinkAction::Done
        } else {
            SinkAction::Emit(self.delivered)
        }
    }

    /// The state after the sink answered for the event that was due.
    pub open spec fn reported(self, accepted: bool) -> Delivery {
        if self.fatal || self.delivered >= self.total {
            self
        } else if accepted {
            Delivery { delivered: (self.delivered + 1) as usize, failures: 0, ..self }
        } else if self.failures >= self.max_retries {
            Delivery { fatal: true, ..self }
        } else {
            Delivery { failures: (self.failures + 1) as u32, ..self }
        }
    }

    /// The delivery of `total` events, none emitted yet.
    pub fn new(total: usize, max_retries: u32) -> (d: Delivery)
        ensures
            d == (Delivery { total, delivered: 0, failures: 0, max_retries, fatal: false }),
            d.wf(),
    {
        Delivery { total, delivered: 0, failures: 0, max_retries, fatal: false }
    }

    /// What to do next: emit the first event not yet accepted, or stop.
    #[verifier::when_used_as_spec(spec_next)]
    pub fn next(&self) -> (action: SinkAction)
        ensures
            action == self.spec_next(),
    {
        if self.fatal {
            SinkAction::Halt
        } else if self.delivered >= self.total {
            SinkAction::Done
        } else {
            SinkAction::Emit(self.delivered)
        }
    }

    /// Takes the sink's answer for the event that was due. An accepted
    /// event is never emitted again and none is skipped; a failure counts
    /// against the retry limit, and the failure after the last retry is
    /// fatal.
    pub fn report(&mut self, accepted: bool)
        requires
            old(self).wf(),
        ensures
            final(self).wf(),
            *final(self) == old(self).reported(accepted),
    {
        if self.fatal || self.delivered >= self.total {
        } else if accepted {
            self.delivered = self.delivered + 1;
            self.failures = 0;
        } else if self.failures >= self.max_retries {
            self.fatal = true;
        } else {
            self.failures = self.failures + 1;
        }
    }
}

} // verus!
