use vstd::prelude::*;
use crate::test::environment::Datasets;

verus! {

/// Collects the string rows of anonymized records; writing them out as a
/// CSV file is left to the surrounding program.
pub struct CsvExporter {
    pub data: Vec<Vec<String>>,
    pub path: String,
    pub dataset: Datasets,
}

impl CsvExporter {
    /// an empty exporter aimed at the given path
    pub fn new(path: String, dataset: Datasets) -> (r: CsvExporter)
        ensures
            r.data@.len() == 0,
            r.path@ == path@,
    {
        CsvExporter { path, data: Vec::new(), dataset }
    }

    /// append one row
    pub fn add(&mut self, value: Vec<String>)
        ensures
            final(self).data@ == old(self).data@.push(value),
            final(self).path == old(self).path,
            final(self).dataset == old(self).dataset,
    {
        self.data.push(value);
    }
}

} // verus!
