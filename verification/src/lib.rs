//! Control plane of an externally-executed, kernel-resident task scheduling
//! policy. The decision engine that dispatches tasks runs outside this
//! crate; this library classifies the machine's CPUs into performance
//! tiers, computes the primary/turbo/cache-sibling domain configuration to
//! push into the engine, keeps those domains correct across CPU hotplug
//! and energy-profile changes, and drives the supervisory tick loop.
//!
//! Everything here works on plain values: topology snapshots, cpumasks,
//! and explicit plans of engine configuration calls. Performing the calls
//! (and all file, BPF and channel I/O) is the caller's business.
pub mod batch;
pub mod cache;
pub mod classify;
pub mod config;
pub mod codec;
pub mod cpumask;
pub mod domain;
pub mod metrics;
pub mod sched;
pub mod topology;
