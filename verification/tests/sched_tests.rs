use scx_bpfland::config::engine_params;
use scx_bpfland::cpumask::Cpumask;
use scx_bpfland::metrics::{get_metrics, EngineCounters};
use scx_bpfland::sched::{ExitInfo, Scheduler};
use scx_bpfland::topology::{Cpu, Topology};

fn cpu(id: usize, base: usize, max: usize) -> Cpu {
    Cpu { id, base_freq: base, max_freq: max, l2_id: id / 2, l3_id: 0 }
}

fn hetero() -> Topology {
    Topology::new(vec![
        cpu(0, 2000, 4000),
        cpu(1, 2000, 4000),
        cpu(2, 3000, 5500),
        cpu(3, 3000, 5500),
    ])
}

fn members(mask: &Cpumask, nr: usize) -> Vec<usize> {
    (0..nr).filter(|&i| mask.test_cpu(i)).collect()
}

#[test]
fn init_computes_domains_and_cache_batches() {
    let (sched, domains, cache) = Scheduler::init(
        Cpumask::new(),
        false,
        false,
        4,
        String::from("power"),
        &hetero(),
    );
    assert_eq!(sched.cpu_hotplug_cnt, 0);
    assert_eq!(sched.energy_profile, "power");
    assert_eq!(members(&domains.primary_mask, 4), vec![0, 1]);
    assert_eq!(members(&domains.turbo_mask, 4), vec![0, 1, 2, 3]);
    assert_eq!(domains.turbo_plan[0], -1);
    assert_eq!(domains.primary_plan, vec![-1, 0, 1]);
    assert!(cache.l2.is_some());
    assert!(cache.l3.is_some());
}

#[test]
fn init_honors_cache_disable_toggles() {
    let (_, _, cache) = Scheduler::init(
        Cpumask::new(),
        true,
        false,
        4,
        String::from("none"),
        &hetero(),
    );
    assert!(cache.l2.is_none());
    assert!(cache.l3.is_some());
}

#[test]
fn hotplug_refresh_is_idempotent() {
    let (mut sched, _, _) = Scheduler::init(
        Cpumask::new(),
        false,
        false,
        4,
        String::from("power"),
        &hetero(),
    );
    // Unchanged generation: nothing to do.
    assert!(sched.refresh_cache_domains(0, &hetero()).is_none());
    // A bumped generation rebuilds the sibling batches once...
    let first = sched.refresh_cache_domains(5, &hetero());
    assert!(first.is_some());
    assert_eq!(sched.cpu_hotplug_cnt, 5);
    // ...and a second refresh with the same generation performs zero
    // further pushes.
    assert!(sched.refresh_cache_domains(5, &hetero()).is_none());
    assert_eq!(sched.cpu_hotplug_cnt, 5);
}

#[test]
fn energy_profile_switch_recomputes_primary_only_in_value() {
    let topo = hetero();
    let (mut sched, initial, _) = Scheduler::init(
        Cpumask::new(),
        false,
        false,
        4,
        String::from("power"),
        &topo,
    );
    assert_eq!(members(&initial.primary_mask, 4), vec![0, 1]);
    let turbo_before = members(&initial.turbo_mask, 4);

    // The profile flips between two ticks: both domains are re-derived
    // and re-pushed; the primary domain moves to the performance tier,
    // while the turbo domain keeps its value (balance_power was never
    // active, so it was and stays the full mask).
    let refresh = sched.refresh_sched_domain("performance", &topo).unwrap();
    assert_eq!(members(&refresh.primary_mask, 4), vec![2, 3]);
    assert_eq!(members(&refresh.turbo_mask, 4), turbo_before);
    assert_eq!(sched.energy_profile, "performance");

    // The same profile again: no further recomputation.
    assert!(sched.refresh_sched_domain("performance", &topo).is_none());
}

#[test]
fn override_mode_never_recomputes() {
    let topo = hetero();
    let mut ovr = Cpumask::new();
    ovr.set_cpu(1);
    ovr.set_cpu(2);
    let (mut sched, initial, _) = Scheduler::init(
        ovr,
        false,
        false,
        4,
        String::from("power"),
        &topo,
    );
    // The override is taken as is for both domains...
    assert_eq!(members(&initial.primary_mask, 4), vec![1, 2]);
    assert_eq!(members(&initial.turbo_mask, 4), vec![1, 2]);
    // ...and later profile changes trigger no refresh at all.
    assert!(sched.refresh_sched_domain("performance", &topo).is_none());
    assert!(sched.refresh_sched_domain("balance_power", &topo).is_none());
    assert_eq!(sched.energy_profile, "power");
}

#[test]
fn refresh_recovers_after_failed_initial_profile_read() {
    // The sentinel profile from a failed read matches no table entry, so
    // init falls back to the full mask; once a later read returns a real
    // profile, the domains are re-derived from it.
    let topo = hetero();
    let (mut sched, initial, _) = Scheduler::init(
        Cpumask::new(),
        false,
        false,
        4,
        String::from("none"),
        &topo,
    );
    assert_eq!(members(&initial.primary_mask, 4), vec![0, 1, 2, 3]);
    let refresh = sched.refresh_sched_domain("performance", &topo).unwrap();
    assert_eq!(members(&refresh.primary_mask, 4), vec![2, 3]);
    assert_eq!(sched.energy_profile, "performance");
    // The unchanged profile is then quiet again.
    assert!(sched.refresh_sched_domain("performance", &topo).is_none());
}

#[test]
fn shutdown_during_wait_stops_without_further_activity() {
    let topo = hetero();
    let (mut sched, _, _) = Scheduler::init(
        Cpumask::new(),
        false,
        false,
        4,
        String::from("power"),
        &topo,
    );
    let profile_before = sched.energy_profile.clone();
    // The shutdown flag was raised while the loop was blocked on the
    // tick wait: the tick stops at once, with no domain or metrics work,
    // even though a hotplug bump and a profile change are pending.
    let plan = sched.tick(true, false, 7, "performance", &topo, true);
    assert!(plan.stop);
    assert!(plan.cache.is_none());
    assert!(plan.domains.is_none());
    assert!(!plan.respond_metrics);
    assert_eq!(sched.cpu_hotplug_cnt, 0);
    assert_eq!(sched.energy_profile, profile_before);
}

#[test]
fn engine_exit_stops_the_loop_like_shutdown() {
    let topo = hetero();
    let (mut sched, _, _) = Scheduler::init(
        Cpumask::new(),
        false,
        false,
        4,
        String::from("power"),
        &topo,
    );
    assert!(sched.exited(64));
    assert!(!sched.exited(0));
    let plan = sched.tick(false, true, 0, "power", &topo, false);
    assert!(plan.stop);
}

#[test]
fn tick_runs_refreshes_in_order_and_services_metrics() {
    let topo = hetero();
    let (mut sched, _, _) = Scheduler::init(
        Cpumask::new(),
        false,
        false,
        4,
        String::from("power"),
        &topo,
    );
    let plan = sched.tick(false, false, 3, "performance", &topo, true);
    assert!(!plan.stop);
    assert!(plan.cache.is_some());
    assert!(plan.domains.is_some());
    assert!(plan.respond_metrics);
    assert_eq!(sched.cpu_hotplug_cnt, 3);
    assert_eq!(sched.energy_profile, "performance");
    // A quiet tick does nothing but offer the metrics exchange.
    let plan = sched.tick(false, false, 3, "performance", &topo, false);
    assert!(!plan.stop);
    assert!(plan.cache.is_none());
    assert!(plan.domains.is_none());
    assert!(!plan.respond_metrics);
}

#[test]
fn should_restart_needs_graceful_exit_and_restart_bit() {
    let unreg_bpf = 65;
    let unreg_kern = 66;
    let restart_bit: i64 = 1 << 48;
    assert!(ExitInfo { kind: 65, exit_code: restart_bit }.should_restart(
        unreg_bpf,
        unreg_kern,
        restart_bit
    ));
    assert!(ExitInfo { kind: 66, exit_code: restart_bit }.should_restart(
        unreg_bpf,
        unreg_kern,
        restart_bit
    ));
    // Graceful exit without the restart bit, or a non-graceful kind with
    // it, does not restart.
    assert!(!ExitInfo { kind: 65, exit_code: 0 }.should_restart(unreg_bpf, unreg_kern, restart_bit));
    assert!(
        !ExitInfo { kind: 1024, exit_code: restart_bit }.should_restart(
            unreg_bpf,
            unreg_kern,
            restart_bit
        )
    );
}

#[test]
fn engine_params_convert_microseconds() {
    let p = engine_params(0, 5000, 500, -250, true, false, 10, 5000, false, true);
    assert_eq!(p.slice_ns, 5_000_000);
    assert_eq!(p.slice_ns_min, 500_000);
    assert_eq!(p.slice_ns_lag, -250_000);
    assert_eq!(p.starvation_thresh_ns, 5_000_000);
    assert_eq!(p.nvcsw_max_thresh, 10);
    assert!(p.lowlatency);
    assert!(!p.local_kthreads);
    assert!(p.smt_enabled);
}

#[test]
fn metrics_copy_the_engine_counters() {
    let counters = EngineCounters {
        nr_running: 3,
        nr_online_cpus: 8,
        nr_interactive: 2,
        nr_waiting: 5,
        nvcsw_avg_thresh: 11,
        nr_direct_dispatches: 100,
        nr_prio_dispatches: 40,
        nr_shared_dispatches: 7,
    };
    let m = get_metrics(&counters);
    assert_eq!(m.nr_running, 3);
    assert_eq!(m.nr_cpus, 8);
    assert_eq!(m.nr_interactive, 2);
    assert_eq!(m.nr_waiting, 5);
    assert_eq!(m.nvcsw_avg_thresh, 11);
    assert_eq!(m.nr_direct_dispatches, 100);
    assert_eq!(m.nr_prio_dispatches, 40);
    assert_eq!(m.nr_shared_dispatches, 7);
}
