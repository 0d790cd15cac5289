use vstd::prelude::*;

verus! {

/// Immutable snapshot of one CPU, as queried from the machine: its dense
/// identifier, its base and maximum operational frequencies, and the
/// identifiers of the L2 and L3 cache groups it belongs to.
#[derive(Clone, Copy, Debug, PartialEq, Eq, Structural)]
pub struct Cpu {
    pub id: usize,
    pub base_freq: usize,
    pub max_freq: usize,
    pub l2_id: usize,
    pub l3_id: usize,
}

/// Immutable-per-query snapshot of the machine topology: the flat list of
/// online CPUs. It is queried fresh whenever a refresh needs it and never
/// mutated in place.
pub struct Topology {
    pub cpus: Vec<Cpu>,
}

impl Topology {
    /// Each CPU appears once (identifiers are distinct), and identifiers
    /// stay well below the machine word range so that bitmask widths and
    /// engine call arguments computed from them fit.
    pub open spec fn wf(&self) -> bool {
        &&& forall|j: int|
            0 <= j < self.cpus@.len() ==> (#[trigger] self.cpus@[j]).id <= 0x7fff_ffff
                && self.cpus@[j].id <= usize::MAX / 8
        &&& forall|j1: int, j2: int|
            0 <= j1 < j2 < self.cpus@.len() ==> (#[trigger] self.cpus@[j1]).id
                != (#[trigger] self.cpus@[j2]).id
    }

    /// Every CPU identifier lies below the machine's CPU id count.
    pub open spec fn ids_below(&self, nr: usize) -> bool {
        forall|j: int| 0 <= j < self.cpus@.len() ==> (#[trigger] self.cpus@[j]).id < nr
    }

    pub fn new(cpus: Vec<Cpu>) -> (r: Topology)
        ensures
            r.cpus@ == cpus@,
    {
        Topology { cpus }
    }

    pub fn is_empty(&self) -> (r: bool)
        ensures
            r == (self.cpus@.len() == 0),
    {
        self.cpus.len() == 0
    }
}

} // verus!
