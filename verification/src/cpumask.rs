use vstd::prelude::*;

verus! {

/// The set of CPU identifiers below `nr`: the full mask of a machine with
/// `nr` possible CPU ids.
pub open spec fn full_set(nr: usize) -> Set<usize> {
    Set::new(|i: usize| i < nr)
}

/// A set of CPU identifiers, held canonically as an unbounded-width bit
/// vector: slot `i` is true iff CPU `i` is a member. Trailing false slots
/// carry no information, so two masks with the same view denote the same
/// set of CPUs.
#[derive(Debug)]
pub struct Cpumask {
    bits: Vec<bool>,
}

impl View for Cpumask {
    type V = Set<usize>;

    closed spec fn view(&self) -> Set<usize> {
        Set::new(|i: usize| i < self.bits@.len() && self.bits@[i as int])
    }
}

impl Cpumask {
    /// The empty mask.
    pub fn new() -> (r: Cpumask)
        ensures
            r@ == Set::<usize>::empty(),
    {
        let r = Cpumask { bits: Vec::new() };
        proof {
            assert(r@ =~= Set::<usize>::empty());
        }
        r
    }

    /// The full mask of a machine with `nr` possible CPU ids: every CPU
    /// id below `nr` is a member.
    pub fn setall(nr: usize) -> (r: Cpumask)
        ensures
            r@ == full_set(nr),
    {
        let mut bits: Vec<bool> = Vec::new();
        let mut i: usize = 0;
        while i < nr
            invariant
                0 <= i <= nr,
                bits@.len() == i,
                forall|j: int| 0 <= j < i ==> bits@[j] == true,
            decreases nr - i,
        {
            bits.push(true);
            i = i + 1;
        }
        let r = Cpumask { bits };
        proof {
            assert(r@ =~= full_set(nr));
        }
        r
    }

    /// Add one CPU id to the mask, growing the bit vector as needed.
    pub fn set_cpu(&mut self, cpu: usize)
        requires
            cpu < usize::MAX,
        ensures
            final(self)@ == old(self)@.insert(cpu),
    {
        while self.bits.len() <= cpu
            invariant
                cpu < usize::MAX,
                self@ == old(self)@,
            decreases cpu + 1 - self.bits.len(),

        {
            let ghost prev = self@;
            self.bits.push(false);
            proof {
                assert(self@ =~= prev);
            }
        }
        let ghost prev = self@;
        self.bits.set(cpu, true);
        proof {
            assert(self@ =~= prev.insert(cpu));
        }
    }

    /// Whether the CPU id is a member of the mask.
    pub fn test_cpu(&self, cpu: usize) -> (r: bool)
        ensures
            r == self@.contains(cpu),
    {
        cpu < self.bits.len() && self.bits[cpu]
    }

    /// Whether no CPU id at all is a member.
    pub fn is_empty(&self) -> (r: bool)
        ensures
            r == (self@ == Set::<usize>::empty()),
    {
        let n: usize = self.bits.len();
        let mut i: usize = 0;
        while i < n
            invariant
                0 <= i <= n,
                n == self.bits@.len(),
                forall|j: int| 0 <= j < i ==> self.bits@[j] == false,
            decreases n - i,
        {
            if self.bits[i] {
                proof {
                    assert(self@.contains(i));
                }
                return false;
            }
            i = i + 1;
        }
        proof {
            assert(self@ =~= Set::<usize>::empty());
        }
        true
    }

    /// An equal mask denoting the same set of CPUs.
    pub fn clone_mask(&self) -> (r: Cpumask)
        ensures
            r@ == self@,
    {
        let mut bits: Vec<bool> = Vec::new();
        let n: usize = self.bits.len();
        let mut i: usize = 0;
        while i < n
            invariant
                0 <= i <= n,
                n == self.bits@.len(),
                bits@ == self.bits@.take(i as int),
            decreases n - i,
        {
            bits.push(self.bits[i]);
            proof {
                assert(self.bits@.take(i + 1) =~= self.bits@.take(i as int).push(
                    self.bits@[i as int],
                ));
            }
            i = i + 1;
        }
        proof {
            assert(self.bits@.take(n as int) =~= self.bits@);
        }
        let r = Cpumask { bits };
        proof {
            assert(r@ =~= self@);
        }
        r
    }
}

} // verus!
