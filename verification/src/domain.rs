use vstd::prelude::*;
use crate::classify::{get_primary_cpus, in_tier, tier_empty, tier_id_set, Powermode};
use crate::codec::{mask_from_cpus, seq_has, str_eq};
use crate::cpumask::{full_set, Cpumask};
use crate::topology::{Cpu, Topology};

verus! {

/// The classifier tier that the turbo domain derives from under an
/// energy profile: only `balance_power` selects the turbo tier; any
/// other profile leaves the turbo domain to the full-mask fallback.
pub open spec fn turbo_tier_for_profile(profile: Seq<char>) -> Option<Powermode> {
    if profile == "balance_power"@ {
        Some(Powermode::Turbo)
    } else {
        None
    }
}

/// The classifier tier that the primary domain derives from under an
/// energy profile: `power` selects the powersave tier; `balance_power`,
/// `balance_performance` and `performance` select the performance tier;
/// anything else leaves the primary domain to the full-mask fallback.
pub open spec fn primary_tier_for_profile(profile: Seq<char>) -> Option<Powermode> {
    if profile == "power"@ {
        Some(Powermode::Powersave)
    } else if profile == "balance_power"@ || profile == "balance_performance"@ || profile
        == "performance"@ {
        Some(Powermode::Performance)
    } else {
        None
    }
}

/// The CPU set a derived domain settles on: the selected tier's CPUs,
/// except that no tier at all, or an empty tier, falls back to every CPU
/// of the machine — a domain must never be empty at steady state.
pub open spec fn derived_domain_set(
    cpus: Seq<Cpu>,
    tier: Option<Powermode>,
    nr: usize,
) -> Set<usize> {
    match tier {
        Some(m) => if tier_empty(cpus, m) {
            full_set(nr)
        } else {
            tier_id_set(cpus, m)
        },
        None => full_set(nr),
    }
}

/// The CPU set a domain settles on: a non-empty override mask is taken
/// as is (sticky, never recomputed); an empty override means "derive
/// from the classifier tier the profile selects".
pub open spec fn domain_set(
    override_mask: Set<usize>,
    cpus: Seq<Cpu>,
    tier: Option<Powermode>,
    nr: usize,
) -> Set<usize> {
    if override_mask != Set::<usize>::empty() {
        override_mask
    } else {
        derived_domain_set(cpus, tier, nr)
    }
}

/// What the push batch of a domain looks like: one leading clear call
/// (the sentinel CPU id −1 empties the engine-side set), then one add
/// call per member CPU id below `nr`, in ascending order, and nothing
/// else.
pub open spec fn domain_plan_ok(plan: Seq<i32>, domain: Set<usize>, nr: usize) -> bool {
    &&& plan.len() >= 1
    &&& plan[0] == -1
    &&& forall|t: int|
        1 <= t < plan.len() ==> 0 <= #[trigger] plan[t] < nr && domain.contains(plan[t] as usize)
    &&& forall|t1: int, t2: int| 1 <= t1 < t2 < plan.len() ==> plan[t1] < plan[t2]
    &&& forall|cpu: usize| cpu < nr && domain.contains(cpu) ==> plan.contains(cpu as i32)
}

/// The push batch that replaces the engine-side copy of a domain: clear,
/// then add every member CPU id below `nr_cpu_ids`.
pub fn domain_push_plan(domain: &Cpumask, nr_cpu_ids: usize) -> (plan: Vec<i32>)
    requires
        nr_cpu_ids <= 0x7fff_ffff,
    ensures
        domain_plan_ok(plan@, domain@, nr_cpu_ids),
{
    let mut plan: Vec<i32> = Vec::new();
    plan.push(-1i32);
    let mut cpu: usize = 0;
    while cpu < nr_cpu_ids
        invariant
            0 <= cpu <= nr_cpu_ids <= 0x7fff_ffff,
            plan@.len() >= 1,
            plan@[0] == -1,
            forall|t: int|
                1 <= t < plan@.len() ==> 0 <= #[trigger] plan@[t] < cpu && domain@.contains(
                    plan@[t] as usize,
                ),
            forall|t1: int, t2: int| 1 <= t1 < t2 < plan@.len() ==> plan@[t1] < plan@[t2],
            forall|c: usize| c < cpu && domain@.contains(c) ==> plan@.contains(c as i32),
        decreases nr_cpu_ids - cpu,
    {
        if domain.test_cpu(cpu) {
            let ghost old_plan = plan@;
            plan.push(cpu as i32);
            proof {
                assert forall|c: usize|
                    c < cpu + 1 && domain@.contains(c) implies plan@.contains(c as i32) by {
                    crate::classify::lemma_contains_push(old_plan, cpu as i32, c as i32);
                }
            }
        }
        cpu = cpu + 1;
    }
    proof {
        assert forall|c: usize| c < nr_cpu_ids && domain@.contains(c) implies plan@.contains(
            c as i32,
        ) by {}
    }
    plan
}

/// The domain a selection settles on: the override mask when it is
/// non-empty, else the tier's CPUs with the full-mask fallback.
fn derive_domain(
    primary_domain: &Cpumask,
    topo: &Topology,
    tier: Option<Powermode>,
    nr_cpu_ids: usize,
) -> (m: Cpumask)
    requires
        topo.wf(),
        topo.ids_below(nr_cpu_ids),
    ensures
        m@ == domain_set(primary_domain@, topo.cpus@, tier, nr_cpu_ids),
        nr_cpu_ids > 0 ==> m@ != Set::<usize>::empty(),
        primary_domain@ == Set::<usize>::empty() ==> forall|i: usize|
            #[trigger] m@.contains(i) ==> i < nr_cpu_ids,
{
    let m = if primary_domain.is_empty() {
        match tier {
            None => Cpumask::setall(nr_cpu_ids),
            Some(mode) => {
                let cpus = get_primary_cpus(topo, mode);
                if cpus.len() == 0 {
                    Cpumask::setall(nr_cpu_ids)
                } else {
                    proof {
                        assert forall|j: int|
                            0 <= j < cpus@.len() implies #[trigger] cpus@[j] <= usize::MAX / 8
                            && cpus@[j] < nr_cpu_ids by {
                            assert(cpus@.contains(cpus@[j]));
                        }
                    }
                    let m = mask_from_cpus(&cpus, nr_cpu_ids);
                    proof {
                        assert forall|i: usize| m@.contains(i) <==> tier_id_set(
                            topo.cpus@,
                            mode,
                        ).contains(i) by {
                            assert(seq_has(cpus@, i as int) == cpus@.contains(i));
                        }
                        assert(m@ =~= tier_id_set(topo.cpus@, mode));
                        assert(cpus@.contains(cpus@[0]));
                        assert(m@.contains(cpus@[0]));
                    }
                    m
                }
            },
        }
    } else {
        primary_domain.clone_mask()
    };
    proof {
        if nr_cpu_ids > 0 {
            if m@ == full_set(nr_cpu_ids) {
                assert(m@.contains(0usize));
            }
            assert(m@ != Set::<usize>::empty());
        }
        if primary_domain@ == Set::<usize>::empty() {
            assert forall|i: usize| #[trigger] m@.contains(i) implies i < nr_cpu_ids by {
                if m@ != full_set(nr_cpu_ids) {
                    match tier {
                        Some(mode) => {
                            if m@ == tier_id_set(topo.cpus@, mode) {
                                let j = choose|j: int|
                                    0 <= j < topo.cpus@.len() && (#[trigger] topo.cpus@[j]).id == i
                                        && in_tier(topo.cpus@, mode, topo.cpus@[j]);
                                assert(topo.cpus@[j].id < nr_cpu_ids);
                            }
                        },
                        None => {},
                    }
                }
            }
        }
    }
    m
}

/// A well-formed push batch over a non-empty domain whose members all
/// lie below `nr` holds the clear call and at least one add call.
proof fn lemma_derived_plan_has_an_add(plan: Seq<i32>, domain: Set<usize>, nr: usize)
    requires
        nr > 0,
        nr <= 0x7fff_ffff,
        domain_plan_ok(plan, domain, nr),
        domain != Set::<usize>::empty(),
        forall|i: usize| #[trigger] domain.contains(i) ==> i < nr,
    ensures
        plan.len() >= 2,
{
    assert(!(domain =~= Set::<usize>::empty()));
    let i = choose|i: usize| domain.contains(i);
    assert(i < nr);
    assert(plan.contains(i as i32));
    let t = choose|t: int| 0 <= t < plan.len() && plan[t] == i as i32;
    assert(i as i32 >= 0);
    assert(plan[0] == -1);
    assert(t != 0);
}

/// Compute the turbo domain for the current selection and the push batch
/// that installs it. The domain is never empty on a machine with at
/// least one CPU id: an empty classifier result falls back to the full
/// mask.
pub fn init_turbo_domain(
    primary_domain: &Cpumask,
    energy_profile: &str,
    topo: &Topology,
    nr_cpu_ids: usize,
) -> (r: (Cpumask, Vec<i32>))
    requires
        topo.wf(),
        topo.ids_below(nr_cpu_ids),
        nr_cpu_ids <= 0x7fff_ffff,
    ensures
        r.0@ == domain_set(
            primary_domain@,
            topo.cpus@,
            turbo_tier_for_profile(energy_profile@),
            nr_cpu_ids,
        ),
        domain_plan_ok(r.1@, r.0@, nr_cpu_ids),
        nr_cpu_ids > 0 ==> r.0@ != Set::<usize>::empty(),
        nr_cpu_ids > 0 && primary_domain@ == Set::<usize>::empty() ==> r.1@.len() >= 2,
{
    let tier = if str_eq(energy_profile, "balance_power") {
        Some(Powermode::Turbo)
    } else {
        None
    };
    let domain = derive_domain(primary_domain, topo, tier, nr_cpu_ids);
    let plan = domain_push_plan(&domain, nr_cpu_ids);
    proof {
        if nr_cpu_ids > 0 && primary_domain@ == Set::<usize>::empty() {
            lemma_derived_plan_has_an_add(plan@, domain@, nr_cpu_ids);
        }
    }
    (domain, plan)
}

/// Compute the primary domain for the current selection and the push
/// batch that installs it. The domain is never empty on a machine with
/// at least one CPU id: an empty classifier result falls back to the
/// full mask.
pub fn init_energy_domain(
    primary_domain: &Cpumask,
    energy_profile: &str,
    topo: &Topology,
    nr_cpu_ids: usize,
) -> (r: (Cpumask, Vec<i32>))
    requires
        topo.wf(),
        topo.ids_below(nr_cpu_ids),
        nr_cpu_ids <= 0x7fff_ffff,
    ensures
        r.0@ == domain_set(
            primary_domain@,
            topo.cpus@,
            primary_tier_for_profile(energy_profile@),
            nr_cpu_ids,
        ),
        domain_plan_ok(r.1@, r.0@, nr_cpu_ids),
        nr_cpu_ids > 0 ==> r.0@ != Set::<usize>::empty(),
        nr_cpu_ids > 0 && primary_domain@ == Set::<usize>::empty() ==> r.1@.len() >= 2,
{
    let tier = if str_eq(energy_profile, "power") {
        Some(Powermode::Powersave)
    } else if str_eq(energy_profile, "balance_power") || str_eq(energy_profile, "balance_performance")
        || str_eq(energy_profile, "performance") {
        Some(Powermode::Performance)
    } else {
        None
    };
    let domain = derive_domain(primary_domain, topo, tier, nr_cpu_ids);
    let plan = domain_push_plan(&domain, nr_cpu_ids);
    proof {
        if nr_cpu_ids > 0 && primary_domain@ == Set::<usize>::empty() {
            lemma_derived_plan_has_an_add(plan@, domain@, nr_cpu_ids);
        }
    }
    (domain, plan)
}

} // verus!
