use scx_bpfland::batch::PushBatch;
use scx_bpfland::cache::{
    build_cache_id_map, init_cache_domains, init_l2_cache_domains, init_l3_cache_domains,
    SiblingPush,
};
use scx_bpfland::topology::{Cpu, Topology};

fn cpu(id: usize, l2: usize, l3: usize) -> Cpu {
    Cpu { id, base_freq: 2000, max_freq: 4000, l2_id: l2, l3_id: l3 }
}

fn topo() -> Topology {
    // Two L2 pairs sharing one L3, plus a second L3 of its own.
    Topology::new(vec![
        cpu(0, 0, 0),
        cpu(1, 0, 0),
        cpu(2, 1, 0),
        cpu(3, 1, 0),
        cpu(4, 2, 1),
    ])
}

#[test]
fn grouping_by_l2() {
    let groups = build_cache_id_map(&topo(), 2);
    assert_eq!(groups.len(), 3);
    let find = |cid: usize| groups.iter().find(|g| g.cache_id == cid).unwrap();
    assert_eq!(find(0).cpus, vec![0, 1]);
    assert_eq!(find(1).cpus, vec![2, 3]);
    assert_eq!(find(2).cpus, vec![4]);
}

#[test]
fn grouping_by_l3() {
    let groups = build_cache_id_map(&topo(), 3);
    assert_eq!(groups.len(), 2);
    let find = |cid: usize| groups.iter().find(|g| g.cache_id == cid).unwrap();
    assert_eq!(find(0).cpus, vec![0, 1, 2, 3]);
    assert_eq!(find(1).cpus, vec![4]);
}

#[test]
fn every_cpu_is_its_own_sibling() {
    for lvl in [2i32, 3] {
        let plan = init_cache_domains(&topo(), lvl as usize);
        for id in 0..5i32 {
            assert!(plan.contains(&SiblingPush { lvl, cpu: id, sibling: id }));
        }
    }
}

#[test]
fn sibling_relation_is_symmetric() {
    for lvl in [2usize, 3] {
        let plan = init_cache_domains(&topo(), lvl);
        for p in &plan {
            assert!(plan.contains(&SiblingPush { lvl: p.lvl, cpu: p.sibling, sibling: p.cpu }));
        }
    }
}

#[test]
fn l2_plan_holds_exactly_the_group_pairs() {
    let plan = init_l2_cache_domains(&topo());
    // 2*2 + 2*2 + 1*1 ordered pairs.
    assert_eq!(plan.len(), 9);
    assert!(plan.contains(&SiblingPush { lvl: 2, cpu: 0, sibling: 1 }));
    assert!(!plan.contains(&SiblingPush { lvl: 2, cpu: 0, sibling: 2 }));
    assert!(!plan.contains(&SiblingPush { lvl: 2, cpu: 1, sibling: 4 }));
}

#[test]
fn l3_plan_crosses_l2_groups() {
    let plan = init_l3_cache_domains(&topo());
    // 4*4 + 1*1 ordered pairs.
    assert_eq!(plan.len(), 17);
    assert!(plan.contains(&SiblingPush { lvl: 3, cpu: 0, sibling: 3 }));
    assert!(!plan.contains(&SiblingPush { lvl: 3, cpu: 0, sibling: 4 }));
}

#[test]
fn sibling_push_failure_does_not_abort_batch() {
    // A failing push for CPU 2 must not stop the pushes that follow it.
    let flat = Topology::new(vec![cpu(0, 0, 0), cpu(1, 0, 0), cpu(2, 0, 0), cpu(3, 0, 0)]);
    let plan = init_l2_cache_domains(&flat);
    let total = plan.len();
    assert_eq!(total, 16);
    let mut batch = PushBatch::new(plan);
    let mut attempted: Vec<SiblingPush> = Vec::new();
    while let Some(call) = batch.next_call() {
        attempted.push(call);
        // The fake engine rejects every push naming CPU 2.
        let ok = call.cpu != 2 && call.sibling != 2;
        batch.record(ok);
    }
    assert_eq!(attempted.len(), total);
    assert_eq!(batch.failures, 7);
    for a in 0..4i32 {
        for b in 0..4i32 {
            assert!(attempted.contains(&SiblingPush { lvl: 2, cpu: a, sibling: b }));
        }
    }
}
