use vstd::prelude::*;
use crate::data_manipulation::anonymizable::Anonymizable;
use crate::publishing::publisher::{sink_event, Publisher, SinkEvent};

verus! {

/// A sink that drops everything it is handed; used to exercise the engine.
/// It still keeps the abstract history of its hand-offs, so that callers'
/// contracts about what reached the sink apply to it too.
pub struct DummyPublisher {
    history: Ghost<Seq<SinkEvent>>,
}

impl DummyPublisher {
    /// The hand-offs taken so far.
    pub closed spec fn taken(&self) -> Seq<SinkEvent> {
        self.history@
    }
}

impl<M: Anonymizable> Publisher<M> for DummyPublisher {
    closed spec fn sunk(&self) -> Seq<SinkEvent> {
        self.history@
    }

    fn publish(&mut self, value: M, uuid: u128, dr_nanos: u64) {
        self.history = Ghost(self.history@.push(sink_event(value, uuid, dr_nanos)));
    }
}

impl Default for DummyPublisher {
    fn default() -> (r: DummyPublisher)
        ensures
            r.taken() == Seq::<SinkEvent>::empty(),
    {
        DummyPublisher { history: Ghost(Seq::empty()) }
    }
}

} // verus!
