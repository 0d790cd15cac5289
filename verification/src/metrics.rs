use vstd::prelude::*;

verus! {

/// The block of live counters the engine exposes in its shared state,
/// readable at any time after load.
#[derive(Clone, Copy, Debug, PartialEq, Eq, Structural)]
pub struct EngineCounters {
    pub nr_running: u64,
    pub nr_online_cpus: u64,
    pub nr_interactive: u64,
    pub nr_waiting: u64,
    pub nvcsw_avg_thresh: u64,
    pub nr_direct_dispatches: u64,
    pub nr_prio_dispatches: u64,
    pub nr_shared_dispatches: u64,
}

/// The snapshot handed to the metrics subsystem in one request/response
/// exchange. The metrics thread only ever reads such a copied value,
/// never the live engine memory.
#[derive(Clone, Copy, Debug, PartialEq, Eq, Structural)]
pub struct Metrics {
    pub nr_running: u64,
    pub nr_cpus: u64,
    pub nr_interactive: u64,
    pub nr_waiting: u64,
    pub nvcsw_avg_thresh: u64,
    pub nr_direct_dispatches: u64,
    pub nr_prio_dispatches: u64,
    pub nr_shared_dispatches: u64,
}

/// Copy the engine's live counters out into one Metrics snapshot.
pub fn get_metrics(counters: &EngineCounters) -> (m: Metrics)
    ensures
        m.nr_running == counters.nr_running,
        m.nr_cpus == counters.nr_online_cpus,
        m.nr_interactive == counters.nr_interactive,
        m.nr_waiting == counters.nr_waiting,
        m.nvcsw_avg_thresh == counters.nvcsw_avg_thresh,
        m.nr_direct_dispatches == counters.nr_direct_dispatches,
        m.nr_prio_dispatches == counters.nr_prio_dispatches,
        m.nr_shared_dispatches == counters.nr_shared_dispatches,
{
    Metrics {
        nr_running: counters.nr_running,
        nr_cpus: counters.nr_online_cpus,
        nr_interactive: counters.nr_interactive,
        nr_waiting: counters.nr_waiting,
        nvcsw_avg_thresh: counters.nvcsw_avg_thresh,
        nr_direct_dispatches: counters.nr_direct_dispatches,
        nr_prio_dispatches: counters.nr_prio_dispatches,
        nr_shared_dispatches: counters.nr_shared_dispatches,
    }
}

} // verus!
