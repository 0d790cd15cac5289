use scx_bpfland::classify::{get_primary_cpus, Powermode};
use scx_bpfland::topology::{Cpu, Topology};

fn cpu(id: usize, base: usize, max: usize) -> Cpu {
    Cpu { id, base_freq: base, max_freq: max, l2_id: 0, l3_id: 0 }
}

fn hetero() -> Topology {
    Topology::new(vec![
        cpu(0, 2000, 4000),
        cpu(1, 2000, 4000),
        cpu(2, 3000, 5500),
        cpu(3, 3000, 5500),
    ])
}

#[test]
fn turbo_selects_highest_max_freq() {
    let ids = get_primary_cpus(&hetero(), Powermode::Turbo);
    assert_eq!(ids, vec![2, 3]);
}

#[test]
fn powersave_selects_lowest_base_freq() {
    let ids = get_primary_cpus(&hetero(), Powermode::Powersave);
    assert_eq!(ids, vec![0, 1]);
}

#[test]
fn performance_excludes_slow_tier() {
    let ids = get_primary_cpus(&hetero(), Powermode::Performance);
    assert_eq!(ids, vec![2, 3]);
}

#[test]
fn turbo_ignores_base_freq() {
    // The CPU with the highest peak has the lowest base clock.
    let topo = Topology::new(vec![cpu(0, 1000, 6000), cpu(1, 3000, 5000)]);
    let ids = get_primary_cpus(&topo, Powermode::Turbo);
    assert_eq!(ids, vec![0]);
}

#[test]
fn classifier_coverage_nonempty() {
    // Some tier is always inhabited on a non-empty topology.
    let topo = hetero();
    let turbo = get_primary_cpus(&topo, Powermode::Turbo);
    let perf = get_primary_cpus(&topo, Powermode::Performance);
    let save = get_primary_cpus(&topo, Powermode::Powersave);
    assert!(!turbo.is_empty() || !perf.is_empty() || !save.is_empty());
    assert!(!turbo.is_empty());
}

#[test]
fn homogeneous_fallback() {
    // Equal base clocks: the performance request falls back to every CPU,
    // and powersave covers the full set too.
    let topo = Topology::new(vec![
        cpu(0, 2500, 4000),
        cpu(1, 2500, 4100),
        cpu(2, 2500, 4200),
    ]);
    let perf = get_primary_cpus(&topo, Powermode::Performance);
    assert_eq!(perf, vec![0, 1, 2]);
    let save = get_primary_cpus(&topo, Powermode::Powersave);
    assert_eq!(save, vec![0, 1, 2]);
}

#[test]
fn empty_topology_gives_empty_tiers() {
    let topo = Topology::new(Vec::new());
    assert!(get_primary_cpus(&topo, Powermode::Turbo).is_empty());
    assert!(get_primary_cpus(&topo, Powermode::Performance).is_empty());
    assert!(get_primary_cpus(&topo, Powermode::Powersave).is_empty());
}
