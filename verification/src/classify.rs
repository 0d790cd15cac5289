use vstd::prelude::*;
use crate::topology::{Cpu, Topology};

verus! {

/// The performance tier a CPU can be classified into, from its base and
/// maximum operational frequencies.
#[derive(Clone, Copy, Debug, PartialEq, Eq, Structural)]
pub enum Powermode {
    Powersave,
    Performance,
    Turbo,
}

/// Smallest base frequency over all CPUs of the snapshot.
pub open spec fn min_base(cpus: Seq<Cpu>) -> usize
    decreases cpus.len(),
{
    if cpus.len() == 0 {
        usize::MAX
    } else if cpus.len() == 1 {
        cpus[0].base_freq
    } else {
        let rest = min_base(cpus.drop_last());
        if cpus.last().base_freq < rest {
            cpus.last().base_freq
        } else {
            rest
        }
    }
}

/// Highest maximum frequency over all CPUs of the snapshot.
pub open spec fn max_max(cpus: Seq<Cpu>) -> usize
    decreases cpus.len(),
{
    if cpus.len() == 0 {
        0
    } else if cpus.len() == 1 {
        cpus[0].max_freq
    } else {
        let rest = max_max(cpus.drop_last());
        if cpus.last().max_freq > rest {
            cpus.last().max_freq
        } else {
            rest
        }
    }
}

/// All CPUs report the same base frequency (homogeneous base clocks).
pub open spec fn homogeneous(cpus: Seq<Cpu>) -> bool {
    forall|j: int| 0 <= j < cpus.len() ==> (#[trigger] cpus[j]).base_freq == min_base(cpus)
}

/// Whether a CPU of the snapshot belongs to the requested tier:
/// - `Turbo`: its maximum frequency equals the highest maximum frequency;
/// - on homogeneous base clocks, or for `Powersave`: its base frequency
///   equals the smallest base frequency;
/// - otherwise (`Performance` on a heterogeneous system): its base
///   frequency is strictly greater than the smallest one.
pub open spec fn in_tier(cpus: Seq<Cpu>, mode: Powermode, c: Cpu) -> bool {
    if mode is Turbo {
        c.max_freq == max_max(cpus)
    } else if homogeneous(cpus) || mode is Powersave {
        c.base_freq == min_base(cpus)
    } else {
        c.base_freq > min_base(cpus)
    }
}

/// Some CPU of the snapshot carries this identifier and belongs to the tier.
pub open spec fn id_in_tier(cpus: Seq<Cpu>, mode: Powermode, id: usize) -> bool {
    exists|j: int|
        0 <= j < cpus.len() && (#[trigger] cpus[j]).id == id && in_tier(cpus, mode, cpus[j])
}

/// The set of identifiers of the CPUs of the snapshot that belong to the
/// tier.
pub open spec fn tier_id_set(cpus: Seq<Cpu>, mode: Powermode) -> Set<usize> {
    Set::new(|id: usize| id_in_tier(cpus, mode, id))
}

/// No CPU of the snapshot belongs to the tier.
pub open spec fn tier_empty(cpus: Seq<Cpu>, mode: Powermode) -> bool {
    forall|j: int| 0 <= j < cpus.len() ==> !in_tier(cpus, mode, #[trigger] cpus[j])
}

proof fn lemma_min_base_le(cpus: Seq<Cpu>, j: int)
    requires
        0 <= j < cpus.len(),
    ensures
        min_base(cpus) <= cpus[j].base_freq,
    decreases cpus.len(),
{
    if cpus.len() > 1 && j < cpus.len() - 1 {
        lemma_min_base_le(cpus.drop_last(), j);
    }
}

proof fn lemma_min_base_attained(cpus: Seq<Cpu>)
    requires
        cpus.len() > 0,
    ensures
        exists|j: int| 0 <= j < cpus.len() && (#[trigger] cpus[j]).base_freq == min_base(cpus),
    decreases cpus.len(),
{
    if cpus.len() == 1 {
        assert(cpus[0].base_freq == min_base(cpus));
    } else if cpus.last().base_freq < min_base(cpus.drop_last()) {
        assert(cpus[cpus.len() - 1].base_freq == min_base(cpus));
    } else {
        lemma_min_base_attained(cpus.drop_last());
        let j = choose|j: int|
            0 <= j < cpus.drop_last().len() && (#[trigger] cpus.drop_last()[j]).base_freq
                == min_base(cpus.drop_last());
        assert(cpus[j].base_freq == min_base(cpus));
    }
}

pub proof fn lemma_max_max_attained(cpus: Seq<Cpu>)
    requires
        cpus.len() > 0,
    ensures
        exists|j: int| 0 <= j < cpus.len() && (#[trigger] cpus[j]).max_freq == max_max(cpus),
    decreases cpus.len(),
{
    if cpus.len() == 1 {
        assert(cpus[0].max_freq == max_max(cpus));
    } else if cpus.last().max_freq > max_max(cpus.drop_last()) {
        assert(cpus[cpus.len() - 1].max_freq == max_max(cpus));
    } else {
        lemma_max_max_attained(cpus.drop_last());
        let j = choose|j: int|
            0 <= j < cpus.drop_last().len() && (#[trigger] cpus.drop_last()[j]).max_freq
                == max_max(cpus.drop_last());
        assert(cpus[j].max_freq == max_max(cpus));
    }
}

pub(crate) proof fn lemma_contains_push<A>(s: Seq<A>, x: A, y: A)
    ensures
        s.push(x).contains(y) <==> (s.contains(y) || y == x),
{
    if s.push(x).contains(y) {
        let i = choose|i: int| 0 <= i < s.push(x).len() && s.push(x)[i] == y;
        if i < s.len() {
            assert(s[i] == y);
        }
    }
    if s.contains(y) {
        let i = choose|i: int| 0 <= i < s.len() && s[i] == y;
        assert(s.push(x)[i] == y);
    }
    assert(s.push(x)[s.len() as int] == x);
}

/// Return the identifiers of every CPU of the snapshot that belongs to the
/// requested tier, each once. The result is empty only if no CPU
/// qualifies, which for a non-empty topology can happen for no tier at
/// all (some CPU always attains the extreme frequency).
pub fn get_primary_cpus(topo: &Topology, mode: Powermode) -> (r: Vec<usize>)
    requires
        topo.wf(),
    ensures
        forall|id: usize| #[trigger] r@.contains(id) <==> id_in_tier(topo.cpus@, mode, id),
        (r@.len() == 0) <==> tier_empty(topo.cpus@, mode),
        r@.no_duplicates(),
{
    let cpus = &topo.cpus;
    let n: usize = cpus.len();
    let mut r: Vec<usize> = Vec::new();
    if n == 0 {
        return r;
    }
    let whole = Ghost(cpus@);

    let mut minb: usize = cpus[0].base_freq;
    let mut i: usize = 1;
    proof {
        assert(whole@.take(1) =~= seq![whole@[0]]);
    }
    while i < n
        invariant
            1 <= i <= n,
            n == whole@.len(),
            cpus@ == whole@,
            minb == min_base(whole@.take(i as int)),
        decreases n - i,
    {
        proof {
            assert(whole@.take(i + 1).drop_last() =~= whole@.take(i as int));
            assert(whole@.take(i + 1).last() == whole@[i as int]);
        }
        if cpus[i].base_freq < minb {
            minb = cpus[i].base_freq;
        }
        i = i + 1;
    }
    proof {
        assert(whole@.take(n as int) =~= whole@);
    }

    let mut maxm: usize = cpus[0].max_freq;
    let mut i: usize = 1;
    proof {
        assert(whole@.take(1) =~= seq![whole@[0]]);
    }
    while i < n
        invariant
            1 <= i <= n,
            n == whole@.len(),
            cpus@ == whole@,
            maxm == max_max(whole@.take(i as int)),
        decreases n - i,
    {
        proof {
            assert(whole@.take(i + 1).drop_last() =~= whole@.take(i as int));
            assert(whole@.take(i + 1).last() == whole@[i as int]);
        }
        if cpus[i].max_freq > maxm {
            maxm = cpus[i].max_freq;
        }
        i = i + 1;
    }
    proof {
        assert(whole@.take(n as int) =~= whole@);
    }

    let mut all_min: bool = true;
    let mut i: usize = 0;
    while i < n
        invariant
            0 <= i <= n,
            n == whole@.len(),
            cpus@ == whole@,
            minb == min_base(whole@),
            all_min == (forall|j: int|
                0 <= j < i ==> (#[trigger] whole@[j]).base_freq == min_base(whole@)),
        decreases n - i,
    {
        if cpus[i].base_freq != minb {
            all_min = false;
        }
        i = i + 1;
    }

    let mut k: usize = 0;
    while k < n
        invariant
            0 <= k <= n,
            n == whole@.len(),
            cpus@ == whole@,
            topo.wf(),
            topo.cpus@ == whole@,
            minb == min_base(whole@),
            maxm == max_max(whole@),
            all_min == homogeneous(whole@),
            r@.no_duplicates(),
            forall|id: usize| #[trigger] r@.contains(id) <==> exists|j: int|
                0 <= j < k && (#[trigger] whole@[j]).id == id && in_tier(whole@, mode, whole@[j]),
        decreases n - k,
    {
        let c = cpus[k];
        let pick = if mode == Powermode::Turbo {
            c.max_freq == maxm
        } else if all_min || mode == Powermode::Powersave {
            c.base_freq == minb
        } else {
            c.base_freq > minb
        };
        proof {
            assert(pick == in_tier(whole@, mode, whole@[k as int]));
        }
        if pick {
            let ghost old_r = r@;
            r.push(c.id);
            proof {
                assert forall|id: usize| #[trigger] r@.contains(id) <==> (old_r.contains(id) || id
                    == whole@[k as int].id) by {
                    lemma_contains_push(old_r, whole@[k as int].id, id);
                }
                // The id pushed is fresh: an earlier occurrence would mean
                // two snapshot entries share an identifier.
                assert(!old_r.contains(whole@[k as int].id));
                assert forall|a: int, b: int|
                    0 <= a < r@.len() && 0 <= b < r@.len() && a != b implies r@[a] != r@[b] by {
                    if a < old_r.len() && b < old_r.len() {
                        assert(r@[a] == old_r[a] && r@[b] == old_r[b]);
                    } else if b == old_r.len() {
                        assert(old_r.contains(old_r[a]));
                    } else {
                        assert(old_r.contains(old_r[b]));
                    }
                }
            }
        }
        k = k + 1;
    }

    proof {
        if r@.len() > 0 {
            assert(r@.contains(r@[0]));
        }
        if !tier_empty(whole@, mode) {
            let j = choose|j: int|
                0 <= j < whole@.len() && in_tier(whole@, mode, #[trigger] whole@[j]);
            assert(r@.contains(whole@[j].id));
        }
    }
    r
}

/// Classifier coverage: on a non-empty topology no tier comes back
/// empty — so in particular the union of the three tier sets is
/// non-empty. Turbo is inhabited by a CPU attaining the highest maximum
/// frequency; powersave (and every tier under homogeneous base clocks)
/// by one attaining the smallest base frequency; performance on a
/// heterogeneous system by any CPU whose base clock differs from the
/// minimum.
pub proof fn lemma_classifier_coverage(cpus: Seq<Cpu>)
    requires
        cpus.len() > 0,
    ensures
        !tier_empty(cpus, Powermode::Turbo),
        !tier_empty(cpus, Powermode::Performance),
        !tier_empty(cpus, Powermode::Powersave),
        exists|j: int|
            0 <= j < cpus.len() && (in_tier(cpus, Powermode::Turbo, #[trigger] cpus[j]) || in_tier(
                cpus,
                Powermode::Performance,
                cpus[j],
            ) || in_tier(cpus, Powermode::Powersave, cpus[j])),
{
    lemma_max_max_attained(cpus);
    let j = choose|j: int|
        0 <= j < cpus.len() && (#[trigger] cpus[j]).max_freq == max_max(cpus);
    assert(in_tier(cpus, Powermode::Turbo, cpus[j]));
    lemma_min_base_attained(cpus);
    let k = choose|k: int|
        0 <= k < cpus.len() && (#[trigger] cpus[k]).base_freq == min_base(cpus);
    assert(in_tier(cpus, Powermode::Powersave, cpus[k]));
    if homogeneous(cpus) {
        assert(in_tier(cpus, Powermode::Performance, cpus[k]));
    } else {
        let m = choose|m: int|
            0 <= m < cpus.len() && (#[trigger] cpus[m]).base_freq != min_base(cpus);
        lemma_min_base_le(cpus, m);
        assert(in_tier(cpus, Powermode::Performance, cpus[m]));
    }
}

/// Homogeneous fallback: when every CPU reports the same base frequency,
/// no CPU sits strictly above the minimum (the strict performance set is
/// empty), and both the powersave tier and the performance tier fall back
/// to the full CPU set.
pub proof fn lemma_homogeneous_fallback(cpus: Seq<Cpu>)
    requires
        cpus.len() > 0,
        homogeneous(cpus),
    ensures
        forall|j: int| 0 <= j < cpus.len() ==> !((#[trigger] cpus[j]).base_freq > min_base(cpus)),
        forall|j: int| 0 <= j < cpus.len() ==> in_tier(cpus, Powermode::Powersave, #[trigger] cpus[j]),
        forall|j: int| 0 <= j < cpus.len() ==> in_tier(
            cpus,
            Powermode::Performance,
            #[trigger] cpus[j],
        ),
{
}

} // verus!
