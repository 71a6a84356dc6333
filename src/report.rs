use vstd::prelude::*;

verus! {

/// Outcome counters of a simulation: accesses that hit, accesses that
/// faulted, and faults that had to evict a resident page.
#[derive(Debug, PartialEq, Eq, Structural)]
pub struct PageReport {
    pub hits: u32,
    pub faults: u32,
    pub removed: u32,
}

impl PageReport {
    pub fn new() -> (r: PageReport)
        ensures
            r.hits == 0 && r.faults == 0 && r.removed == 0,
    {
        PageReport { faults: 0, hits: 0, removed: 0 }
    }

    /// The report with one more fault.
    pub fn fault(self) -> (r: PageReport)
        requires
            self.faults < u32::MAX,
        ensures
            r.hits == self.hits && r.faults == self.faults + 1 && r.removed == self.removed,
    {
        PageReport { hits: self.hits, faults: self.faults + 1, removed: self.removed }
    }

    /// The report with one more hit.
    pub fn hit(self) -> (r: PageReport)
        requires
            self.hits < u32::MAX,
        ensures
            r.hits == self.hits + 1 && r.faults == self.faults && r.removed == self.removed,
    {
        PageReport { hits: self.hits + 1, faults: self.faults, removed: self.removed }
    }

    /// The report with one more eviction.
    pub fn removed(self) -> (r: PageReport)
        requires
            self.removed < u32::MAX,
        ensures
            r.hits == self.hits && r.faults == self.faults && r.removed == self.removed + 1,
    {
        PageReport { hits: self.hits, faults: self.faults, removed: self.removed + 1 }
    }
}

} // verus!
