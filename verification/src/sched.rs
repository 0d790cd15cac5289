use vstd::prelude::*;
use crate::cache::{cache_plan_ok, init_l2_cache_domains, init_l3_cache_domains, SiblingPush};
use crate::codec::str_eq;
use crate::cpumask::Cpumask;
use crate::domain::{
    domain_plan_ok, domain_set, init_energy_domain, init_turbo_domain, primary_tier_for_profile,
    turbo_tier_for_profile,
};
use crate::topology::{Cpu, Topology};

verus! {

/// One recomputation of both scheduling domains: the masks the selection
/// settled on and the push batches that install them. The turbo batch is
/// pushed before the primary batch.
pub struct DomainRefresh {
    pub turbo_mask: Cpumask,
    pub turbo_plan: Vec<i32>,
    pub primary_mask: Cpumask,
    pub primary_plan: Vec<i32>,
}

/// One wholesale rebuild of the cache-sibling configuration: the sibling
/// batch of each enabled cache level (L2 first, then L3).
pub struct CacheRefresh {
    pub l2: Option<Vec<SiblingPush>>,
    pub l3: Option<Vec<SiblingPush>>,
}

/// Both domains recomputed for the given override, snapshot and profile,
/// with well-formed push batches; neither domain is empty on a machine
/// with at least one CPU id.
pub open spec fn domain_refresh_ok(
    r: DomainRefresh,
    override_mask: Set<usize>,
    cpus: Seq<Cpu>,
    profile: Seq<char>,
    nr: usize,
) -> bool {
    &&& r.turbo_mask@ == domain_set(override_mask, cpus, turbo_tier_for_profile(profile), nr)
    &&& domain_plan_ok(r.turbo_plan@, r.turbo_mask@, nr)
    &&& r.primary_mask@ == domain_set(override_mask, cpus, primary_tier_for_profile(profile), nr)
    &&& domain_plan_ok(r.primary_plan@, r.primary_mask@, nr)
    &&& nr > 0 ==> (r.turbo_mask@ != Set::<usize>::empty() && r.primary_mask@ != Set::<
        usize,
    >::empty())
    &&& nr > 0 && override_mask == Set::<usize>::empty() ==> (r.turbo_plan@.len() >= 2
        && r.primary_plan@.len() >= 2)
}

/// A sibling batch per cache level, present exactly for the levels that
/// are not disabled, each covering the snapshot wholesale.
pub open spec fn cache_refresh_ok(
    c: CacheRefresh,
    cpus: Seq<Cpu>,
    disable_l2: bool,
    disable_l3: bool,
) -> bool {
    &&& (c.l2 is Some <==> !disable_l2)
    &&& (c.l2 matches Some(p) ==> cache_plan_ok(p@, cpus, 2))
    &&& (c.l3 is Some <==> !disable_l3)
    &&& (c.l3 matches Some(p) ==> cache_plan_ok(p@, cpus, 3))
}

/// Everything the hotplug monitor promises of one refresh: an unchanged
/// generation is a strict no-op; a changed one hands back the sibling
/// batches of the enabled levels; either way the live generation is the
/// one cached afterwards and no other state moves.
pub open spec fn cache_refresh_post(
    pre: Scheduler,
    post: Scheduler,
    live: u64,
    r: Option<CacheRefresh>,
    cpus: Seq<Cpu>,
) -> bool {
    &&& (pre.cpu_hotplug_cnt == live ==> (r is None && post == pre))
    &&& (pre.cpu_hotplug_cnt != live ==> (r matches Some(c) && cache_refresh_ok(
        c,
        cpus,
        pre.disable_l2,
        pre.disable_l3,
    )))
    &&& post.cpu_hotplug_cnt == live
    &&& post.primary_domain == pre.primary_domain
    &&& post.disable_l2 == pre.disable_l2
    &&& post.disable_l3 == pre.disable_l3
    &&& post.nr_cpu_ids == pre.nr_cpu_ids
    &&& post.energy_profile == pre.energy_profile
}

/// The domain-refresh and hotplug-monitor state of the control plane:
/// the sticky override mask, the per-level disable toggles, the machine's
/// CPU id count, the last topology generation observed, and the last
/// energy profile observed.
pub struct Scheduler {
    pub primary_domain: Cpumask,
    pub disable_l2: bool,
    pub disable_l3: bool,
    pub nr_cpu_ids: usize,
    pub cpu_hotplug_cnt: u64,
    pub energy_profile: String,
}

/// What one supervisory tick decided: stop now, or run the refreshes
/// whose plans are given — hotplug-triggered cache rebuild first, then
/// the profile-triggered domain refresh, then at most one metrics
/// response.
pub struct TickPlan {
    pub stop: bool,
    pub cache: Option<CacheRefresh>,
    pub domains: Option<DomainRefresh>,
    pub respond_metrics: bool,
}

impl Scheduler {
    /// CPU ids must fit the engine's signed call argument.
    pub open spec fn wf(&self) -> bool {
        self.nr_cpu_ids <= 0x7fff_ffff
    }

    /// Whether a domain refresh is due: only a controller in derived
    /// mode (empty override mask) reacts, and only to a profile that
    /// differs from the cached one.
    pub open spec fn spec_refresh_due(&self, current_profile: Seq<char>) -> bool {
        self.primary_domain@ == Set::<usize>::empty() && current_profile != self.energy_profile@
    }

    /// The executable form of the refresh condition, for callers that
    /// want to skip gathering a fresh snapshot on a quiet tick.
    pub fn refresh_due(&self, current_profile: &str) -> (r: bool)
        ensures
            r == self.spec_refresh_due(current_profile@),
    {
        self.primary_domain.is_empty() && !str_eq(current_profile, self.energy_profile.as_str())
    }

    /// Set up the controller and compute the initial configuration: both
    /// scheduling domains and the sibling batches of the enabled cache
    /// levels. The caller pushes the batches (turbo, primary, then L2 and
    /// L3 siblings) before attaching the engine.
    pub fn init(
        primary_domain: Cpumask,
        disable_l2: bool,
        disable_l3: bool,
        nr_cpu_ids: usize,
        energy_profile: String,
        topo: &Topology,
    ) -> (r: (Scheduler, DomainRefresh, CacheRefresh))
        requires
            topo.wf(),
            topo.ids_below(nr_cpu_ids),
            nr_cpu_ids <= 0x7fff_ffff,
        ensures
            r.0.wf(),
            r.0.primary_domain@ == primary_domain@,
            r.0.disable_l2 == disable_l2,
            r.0.disable_l3 == disable_l3,
            r.0.nr_cpu_ids == nr_cpu_ids,
            r.0.cpu_hotplug_cnt == 0,
            r.0.energy_profile@ == energy_profile@,
            domain_refresh_ok(r.1, primary_domain@, topo.cpus@, energy_profile@, nr_cpu_ids),
            cache_refresh_ok(r.2, topo.cpus@, disable_l2, disable_l3),
    {
        let (turbo_mask, turbo_plan) = init_turbo_domain(
            &primary_domain,
            energy_profile.as_str(),
            topo,
            nr_cpu_ids,
        );
        let (primary_mask, primary_plan) = init_energy_domain(
            &primary_domain,
            energy_profile.as_str(),
            topo,
            nr_cpu_ids,
        );
        let domains = DomainRefresh { turbo_mask, turbo_plan, primary_mask, primary_plan };
        let l2 = if disable_l2 {
            None
        } else {
            Some(init_l2_cache_domains(topo))
        };
        let l3 = if disable_l3 {
            None
        } else {
            Some(init_l3_cache_domains(topo))
        };
        let cache = CacheRefresh { l2, l3 };
        let sched = Scheduler {
            primary_domain,
            disable_l2,
            disable_l3,
            nr_cpu_ids,
            cpu_hotplug_cnt: 0,
            energy_profile,
        };
        (sched, domains, cache)
    }

    /// Hotplug monitor: compare the engine's live topology generation
    /// against the last value observed. On a mismatch, rebuild the
    /// sibling batches of the enabled cache levels wholesale from the
    /// fresh snapshot and remember the new generation — whether or not
    /// the caller's pushes then all succeed. An unchanged generation is
    /// a no-op, so the check is cheap enough for every tick.
    pub fn refresh_cache_domains(&mut self, live_hotplug_cnt: u64, topo: &Topology) -> (r: Option<
        CacheRefresh,
    >)
        requires
            old(self).wf(),
            topo.wf(),
        ensures
            final(self).wf(),
            cache_refresh_post(*old(self), *final(self), live_hotplug_cnt, r, topo.cpus@),
    {
        if self.cpu_hotplug_cnt == live_hotplug_cnt {
            return None;
        }
        let l2 = if self.disable_l2 {
            None
        } else {
            Some(init_l2_cache_domains(topo))
        };
        let l3 = if self.disable_l3 {
            None
        } else {
            Some(init_l3_cache_domains(topo))
        };
        self.cpu_hotplug_cnt = live_hotplug_cnt;
        Some(CacheRefresh { l2, l3 })
    }

    /// Domain refresh controller: a no-op unless the controller is in
    /// derived mode and the supplied profile differs from the cached one;
    /// otherwise re-derive both domains from the fresh snapshot, cache
    /// the new profile, and hand back the push batches.
    pub fn refresh_sched_domain(&mut self, current_profile: &str, topo: &Topology) -> (r: Option<
        DomainRefresh,
    >)
        requires
            old(self).wf(),
            topo.wf(),
            topo.ids_below(old(self).nr_cpu_ids),
        ensures
            final(self).wf(),
            !old(self).spec_refresh_due(current_profile@) ==> (r is None && *final(self) == *old(
                self,
            )),
            old(self).spec_refresh_due(current_profile@) ==> (r matches Some(d)
                && domain_refresh_ok(
                d,
                old(self).primary_domain@,
                topo.cpus@,
                current_profile@,
                old(self).nr_cpu_ids,
            ) && final(self).energy_profile@ == current_profile@),
            final(self).primary_domain == old(self).primary_domain,
            final(self).disable_l2 == old(self).disable_l2,
            final(self).disable_l3 == old(self).disable_l3,
            final(self).nr_cpu_ids == old(self).nr_cpu_ids,
            final(self).cpu_hotplug_cnt == old(self).cpu_hotplug_cnt,
    {
        if self.primary_domain.is_empty() && !str_eq(
            current_profile,
            self.energy_profile.as_str(),
        ) {
            let (turbo_mask, turbo_plan) = init_turbo_domain(
                &self.primary_domain,
                current_profile,
                topo,
                self.nr_cpu_ids,
            );
            let (primary_mask, primary_plan) = init_energy_domain(
                &self.primary_domain,
                current_profile,
                topo,
                self.nr_cpu_ids,
            );
            self.energy_profile = current_profile.to_owned();
            Some(DomainRefresh { turbo_mask, turbo_plan, primary_mask, primary_plan })
        } else {
            None
        }
    }

    /// Whether the engine has reported an exit condition: its exit kind
    /// is non-zero.
    pub fn exited(&self, engine_exit_kind: i32) -> (r: bool)
        ensures
            r == (engine_exit_kind != 0),
    {
        engine_exit_kind != 0
    }

    /// One supervisory tick. When the shutdown flag or the engine exit
    /// condition is up, stop: nothing is refreshed, no metrics response
    /// is owed, and the controller state is left untouched, so that the
    /// caller can detach at once. Otherwise decide, in order: the
    /// hotplug-triggered cache rebuild, the profile-triggered domain
    /// refresh, and whether the single pending metrics request (if any)
    /// gets a response this tick.
    pub fn tick(
        &mut self,
        shutdown: bool,
        exited: bool,
        live_hotplug_cnt: u64,
        current_profile: &str,
        topo: &Topology,
        request_pending: bool,
    ) -> (r: TickPlan)
        requires
            old(self).wf(),
            topo.wf(),
            topo.ids_below(old(self).nr_cpu_ids),
        ensures
            final(self).wf(),
            r.stop == (shutdown || exited),
            r.stop ==> (*final(self) == *old(self) && r.cache is None && r.domains is None
                && !r.respond_metrics),
            !r.stop ==> {
                &&& r.respond_metrics == request_pending
                &&& (old(self).cpu_hotplug_cnt == live_hotplug_cnt <==> r.cache is None)
                &&& (r.cache matches Some(c) ==> cache_refresh_ok(
                    c,
                    topo.cpus@,
                    old(self).disable_l2,
                    old(self).disable_l3,
                ))
                &&& final(self).cpu_hotplug_cnt == live_hotplug_cnt
                &&& (!old(self).spec_refresh_due(current_profile@) <==> r.domains is None)
                &&& (r.domains matches Some(d) ==> domain_refresh_ok(
                    d,
                    old(self).primary_domain@,
                    topo.cpus@,
                    current_profile@,
                    old(self).nr_cpu_ids,
                ) && final(self).energy_profile@ == current_profile@)
                &&& (r.domains is None ==> final(self).energy_profile == old(self).energy_profile)
            },
            final(self).primary_domain == old(self).primary_domain,
            final(self).disable_l2 == old(self).disable_l2,
            final(self).disable_l3 == old(self).disable_l3,
            final(self).nr_cpu_ids == old(self).nr_cpu_ids,
    {
        if shutdown || exited {
            return TickPlan { stop: true, cache: None, domains: None, respond_metrics: false };
        }
        let cache = self.refresh_cache_domains(live_hotplug_cnt, topo);
        let domains = self.refresh_sched_domain(current_profile, topo);
        TickPlan { stop: false, cache, domains, respond_metrics: request_pending }
    }
}

/// Hotplug idempotence: two hotplug refreshes in a row against the same
/// unchanged live generation — whatever the first one did, the second is
/// a strict no-op: it hands back no batches and leaves the controller
/// exactly as the first left it.
pub proof fn lemma_hotplug_idempotent(
    s0: Scheduler,
    s1: Scheduler,
    s2: Scheduler,
    live: u64,
    r1: Option<CacheRefresh>,
    r2: Option<CacheRefresh>,
    cpus: Seq<Cpu>,
)
    requires
        cache_refresh_post(s0, s1, live, r1, cpus),
        cache_refresh_post(s1, s2, live, r2, cpus),
    ensures
        r2 is None,
        s2 == s1,
{
}

/// Override mode is sticky: a controller whose override mask is
/// non-empty is never due for a domain refresh, whatever profile the
/// ticks observe — so no refresh ever recomputes or re-pushes anything.
pub proof fn lemma_override_sticky(s: Scheduler, profile: Seq<char>)
    requires
        s.primary_domain@ != Set::<usize>::empty(),
    ensures
        !s.spec_refresh_due(profile),
{
}

/// The engine's exit report, as read from its shared state after the
/// loop detaches: the exit kind and the exit code the engine chose.
#[derive(Clone, Copy, Debug, PartialEq, Eq, Structural)]
pub struct ExitInfo {
    pub kind: i32,
    pub exit_code: i64,
}

impl ExitInfo {
    /// Whether the engine asked to be restarted rather than torn down
    /// for good: it exited gracefully (one of the two unregister kinds,
    /// whose values the kernel ABI supplies) and its exit code carries
    /// the restart-action bit.
    pub fn should_restart(&self, unreg_bpf_kind: i32, unreg_kern_kind: i32, restart_code: i64) -> (r:
        bool)
        ensures
            r == ((self.kind == unreg_bpf_kind || self.kind == unreg_kern_kind) && (self.exit_code
                & restart_code) != 0),
    {
        (self.kind == unreg_bpf_kind || self.kind == unreg_kern_kind) && (self.exit_code
            & restart_code) != 0
    }
}

} // verus!
