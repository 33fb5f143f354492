use vstd::prelude::*;
use crate::data_manipulation::anonymizable::{Anonymizable, QuasiIdentifierTypes, SensKey};

verus! {

/// One hand-off as the sink takes it: the released QI list, the record's
/// sensitive model and timestamp, the releasing cluster's identifier and the
/// disclosure-risk estimate in nanos.
pub type SinkEvent = (Seq<QuasiIdentifierTypes>, SensKey, u64, u128, u64);

/// The model of handing one record to a sink.
pub open spec fn sink_event<M: Anonymizable>(value: M, uuid: u128, dr_nanos: u64) -> SinkEvent {
    (value.qis(), value.sens(), value.ts(), uuid, dr_nanos)
}

/// Generic trait for publishing the anonymized data. The sink itself is
/// opaque — it may buffer, write or send — but every implementation keeps an
/// abstract history of the hand-offs it has taken, so that callers can state
/// exactly which records reached the sink, and how often.
pub trait Publisher<M: Anonymizable>: Sized {
    /// The history of hand-offs the sink has taken, oldest first.
    spec fn sunk(&self) -> Seq<SinkEvent>;

    /// hand one anonymized record to the sink, along with the releasing
    /// cluster's identifier and the current disclosure-risk estimate
    fn publish(&mut self, value: M, uuid: u128, dr_nanos: u64)
        ensures
            final(self).sunk() == old(self).sunk().push(sink_event(value, uuid, dr_nanos)),
    ;
}

} // verus!
