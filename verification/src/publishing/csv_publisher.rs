use vstd::prelude::*;
use crate::data_manipulation::anonymizable::Anonymizable;
use crate::publishing::publisher::{sink_event, Publisher, SinkEvent};
use crate::test::csv_exporter::CsvExporter;

verus! {

/// A sink that renders every record it is handed into a string row of its
/// exporter, one row per hand-off.
pub struct CsvPublisher {
    pub exporter: CsvExporter,
    history: Ghost<Seq<SinkEvent>>,
}

impl CsvPublisher {
    /// The hand-offs taken so far.
    pub closed spec fn taken(&self) -> Seq<SinkEvent> {
        self.history@
    }

    /// The rows collected so far.
    pub closed spec fn rows(&self) -> Seq<Vec<String>> {
        self.exporter.data@
    }

    /// a publisher writing rows into the given exporter
    pub fn new(exporter: CsvExporter) -> (r: CsvPublisher)
        ensures
            r.rows() == exporter.data@,
            r.taken() == Seq::<SinkEvent>::empty(),
    {
        CsvPublisher { exporter, history: Ghost(Seq::empty()) }
    }
}

impl<M: Anonymizable> Publisher<M> for CsvPublisher {
    closed spec fn sunk(&self) -> Seq<SinkEvent> {
        self.history@
    }

    fn publish(&mut self, value: M, uuid: u128, dr_nanos: u64) {
        let row = value.extract_string_values(uuid, dr_nanos);
        self.exporter.add(row);
        self.history = Ghost(self.history@.push(sink_event(value, uuid, dr_nanos)));
    }
}

} // verus!
