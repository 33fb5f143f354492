use vstd::prelude::*;

verus! {

/// Analyses the behaviour of creating and deleting the clusters throughout
/// the algorithm's lifetime.
pub struct ClusterAnalyser {
    pub delete_counter: i32,
    pub create_counter: i32,
}

impl ClusterAnalyser {
    /// count one cluster creation; the counter saturates at its type bound
    pub fn add_count(&mut self)
        ensures
            final(self).create_counter as int == if old(self).create_counter < i32::MAX {
                old(self).create_counter + 1
            } else {
                old(self).create_counter as int
            },
            final(self).delete_counter == old(self).delete_counter,
    {
        if self.create_counter < i32::MAX {
            self.create_counter = self.create_counter + 1;
        }
    }

    /// count one cluster deletion; the counter saturates at its type bound
    pub fn remove_count(&mut self)
        ensures
            final(self).delete_counter as int == if old(self).delete_counter < i32::MAX {
                old(self).delete_counter + 1
            } else {
                old(self).delete_counter as int
            },
            final(self).create_counter == old(self).create_counter,
    {
        if self.delete_counter < i32::MAX {
            self.delete_counter = self.delete_counter + 1;
        }
    }
}

impl Default for ClusterAnalyser {
    fn default() -> (r: ClusterAnalyser)
        ensures
            r.delete_counter == 0,
            r.create_counter == 0,
    {
        ClusterAnalyser { delete_counter: 0, create_counter: 0 }
    }
}

} // verus!
