use vstd::prelude::*;

verus! {

/// Counters of a search: leaves, cut-offs, table hits and nodes, for the main search and
/// for quiescence.
pub struct Statistics {
    pub leafs: u64,
    pub qleafs: u64,
    pub beta_cutoffs: u64,
    pub qbeta_cutoffs: u64,
    pub tt_hits: u64,
    pub nodes: u64,
    pub qnodes: u64,
}

impl Statistics {
    /// All counters at zero.
    pub fn new() -> (r: Statistics)
        ensures
            r.leafs == 0 && r.qleafs == 0 && r.beta_cutoffs == 0 && r.qbeta_cutoffs == 0,
            r.tt_hits == 0 && r.nodes == 0 && r.qnodes == 0,
    {
        Statistics { leafs: 0, qleafs: 0, beta_cutoffs: 0, qbeta_cutoffs: 0, tt_hits: 0, nodes: 0, qnodes: 0 }
    }

    /// The nodes of the main search and of quiescence together.
    pub fn total_nodes(&self) -> (r: u64)
        requires
            self.nodes + self.qnodes <= u64::MAX,
        ensures
            r == self.nodes + self.qnodes,
    {
        self.nodes + self.qnodes
    }
}

} // verus!
