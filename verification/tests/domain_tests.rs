use scx_bpfland::batch::PushBatch;
use scx_bpfland::codec::parse_cpumask;
use scx_bpfland::cpumask::Cpumask;
use scx_bpfland::domain::{domain_push_plan, init_energy_domain, init_turbo_domain};
use scx_bpfland::topology::{Cpu, Topology};

fn cpu(id: usize, base: usize, max: usize) -> Cpu {
    Cpu { id, base_freq: base, max_freq: max, l2_id: 0, l3_id: 0 }
}

fn hetero() -> Topology {
    Topology::new(vec![
        cpu(0, 2000, 4000),
        cpu(1, 2000, 4000),
        cpu(2, 3000, 5500),
        cpu(3, 3000, 5500),
    ])
}

fn members(mask: &Cpumask, nr: usize) -> Vec<usize> {
    (0..nr).filter(|&i| mask.test_cpu(i)).collect()
}

#[test]
fn turbo_derives_only_under_balance_power() {
    let empty = Cpumask::new();
    let (mask, _) = init_turbo_domain(&empty, "balance_power", &hetero(), 4);
    assert_eq!(members(&mask, 4), vec![2, 3]);
    // Any other profile leaves the turbo domain at the full mask.
    let (mask, _) = init_turbo_domain(&empty, "performance", &hetero(), 4);
    assert_eq!(members(&mask, 4), vec![0, 1, 2, 3]);
}

#[test]
fn primary_profile_table() {
    let empty = Cpumask::new();
    let (mask, _) = init_energy_domain(&empty, "power", &hetero(), 4);
    assert_eq!(members(&mask, 4), vec![0, 1]);
    for profile in ["balance_power", "balance_performance", "performance"] {
        let (mask, _) = init_energy_domain(&empty, profile, &hetero(), 4);
        assert_eq!(members(&mask, 4), vec![2, 3]);
    }
    // An unknown profile (the read-failure sentinel included) falls back
    // to every CPU.
    for profile in ["none", "quiet", ""] {
        let (mask, _) = init_energy_domain(&empty, profile, &hetero(), 4);
        assert_eq!(members(&mask, 4), vec![0, 1, 2, 3]);
    }
}

#[test]
fn derived_domain_never_empty() {
    // An empty topology classifies every tier as empty, so every derived
    // domain falls back to the full mask.
    let empty_topo = Topology::new(Vec::new());
    let empty = Cpumask::new();
    let (turbo, _) = init_turbo_domain(&empty, "balance_power", &empty_topo, 4);
    assert!(!turbo.is_empty());
    assert_eq!(members(&turbo, 4), vec![0, 1, 2, 3]);
    let (primary, _) = init_energy_domain(&empty, "power", &empty_topo, 4);
    assert!(!primary.is_empty());
    assert_eq!(members(&primary, 4), vec![0, 1, 2, 3]);
}

#[test]
fn override_mask_is_taken_as_is() {
    let topo = hetero();
    let ovr = parse_cpumask("0x9", &topo, 4).unwrap();
    let (turbo, _) = init_turbo_domain(&ovr, "balance_power", &topo, 4);
    assert_eq!(members(&turbo, 4), vec![0, 3]);
    let (primary, _) = init_energy_domain(&ovr, "power", &topo, 4);
    assert_eq!(members(&primary, 4), vec![0, 3]);
}

#[test]
fn push_plan_clears_then_adds_in_order() {
    let mut mask = Cpumask::new();
    mask.set_cpu(1);
    mask.set_cpu(3);
    let plan = domain_push_plan(&mask, 4);
    assert_eq!(plan, vec![-1, 1, 3]);
}

#[test]
fn push_plan_ignores_members_beyond_nr_cpu_ids() {
    let mut mask = Cpumask::new();
    mask.set_cpu(1);
    mask.set_cpu(9);
    let plan = domain_push_plan(&mask, 4);
    assert_eq!(plan, vec![-1, 1]);
}

#[test]
fn push_plan_of_empty_mask_only_clears() {
    let plan = domain_push_plan(&Cpumask::new(), 4);
    assert_eq!(plan, vec![-1]);
}

#[test]
fn domain_push_failure_does_not_abort_batch() {
    // Four CPUs, and the add call for CPU 2 is forced to fail: CPUs 0, 1
    // and 3 are still pushed.
    let empty = Cpumask::new();
    let flat = Topology::new(vec![
        cpu(0, 2000, 4000),
        cpu(1, 2000, 4000),
        cpu(2, 2000, 4000),
        cpu(3, 2000, 4000),
    ]);
    let (_, plan) = init_energy_domain(&empty, "power", &flat, 4);
    assert_eq!(plan, vec![-1, 0, 1, 2, 3]);
    let mut batch = PushBatch::new(plan);
    let mut pushed: Vec<i32> = Vec::new();
    while let Some(call) = batch.next_call() {
        let ok = call != 2;
        if ok {
            pushed.push(call);
        }
        batch.record(ok);
    }
    assert_eq!(pushed, vec![-1, 0, 1, 3]);
    assert_eq!(batch.failures, 1);
}
