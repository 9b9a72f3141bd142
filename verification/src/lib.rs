//! FrostByte's watchdog core: detects runaway single-core loops, decides
//! when to clamp Turbo Boost, and keeps the immunity rules that protect
//! system processes from any intervention.
//!
//! Every reading of the machine (process and thread tables, CPU times,
//! thermal zones, `nvidia-smi`, the power status, the clock) and every
//! action on it (power scheme changes, job objects, termination) is made by
//! the caller; this crate computes from the readings and says which action
//! to take.
pub mod text;
pub mod safety;
pub mod types;
pub mod heuristics;
pub mod governor;
pub mod process;
pub mod thermal;
pub mod mitigation;

pub use heuristics::HeuristicEngine;
pub use process::ProcessWatcher;
pub use safety::SafetyEngine;
pub use thermal::ThermalProvider;
pub use types::{ProcessSample, RogueAlert, SystemSnapshot, ThermalSnapshot, ThreadSample};

use std::collections::HashMap;
use vstd::prelude::*;
use crate::heuristics::EvalProgress;
use crate::process::{ProcessReading, readings_view, sorted_by_cpu, tenths_of_percent};
use crate::thermal::{GpuMetrics, PowerStatus, thermal_snapshot_of};
use crate::types::{alerts_view, samples_view};

verus! {

/// One tick of telemetry and heuristics over the readings the caller took.
pub struct Watchdog {
    thermal: ThermalProvider,
    process: ProcessWatcher,
    heuristics: HeuristicEngine,
}

/// The first `n` samples, or all of them when there are fewer.
pub open spec fn first_samples<T>(s: Seq<T>, n: int) -> Seq<T> {
    if s.len() <= n {
        s
    } else {
        s.take(n)
    }
}

impl Watchdog {
    pub closed spec fn thermal_provider(&self) -> ThermalProvider {
        self.thermal
    }

    pub closed spec fn process_watcher(&self) -> ProcessWatcher {
        self.process
    }

    pub closed spec fn heuristic_engine(&self) -> HeuristicEngine {
        self.heuristics
    }

    /// The samples a tick computes from these readings, sorted by
    /// descending CPU share.
    pub open spec fn tick_samples(
        &self,
        processes: Seq<ProcessReading>,
        threads: Seq<(u32, u32)>,
        thread_times: Map<u32, (u64, u64)>,
        now: u64,
    ) -> Seq<types::ProcessSampleView> {
        sorted_by_cpu(self.process_watcher().sample_progress(readings_view(processes), threads, thread_times, now).samples)
    }

    /// The heuristic evaluation a tick runs on these readings.
    pub open spec fn tick_evaluation(
        &self,
        processes: Seq<ProcessReading>,
        threads: Seq<(u32, u32)>,
        thread_times: Map<u32, (u64, u64)>,
        now: u64,
    ) -> EvalProgress {
        self.heuristic_engine().fold(self.tick_samples(processes, threads, thread_times, now))
    }

    /// A watchdog with the default heuristics (80.0% for 5 ticks of 2 s).
    pub fn new(available_parallelism: Option<u32>) -> (r: Watchdog)
        requires
            available_parallelism matches Some(n) ==> n >= 1,
        ensures
            r.thermal_provider()@ == ThermalProvider::new_view(),
            r.process_watcher().cores() == match available_parallelism {
                Some(n) => n,
                None => 8,
            },
            r.process_watcher().process_baselines().is_empty(),
            r.process_watcher().thread_baselines().is_empty(),
            r.heuristic_engine().loads().is_empty(),
            r.heuristic_engine().config() == (heuristics::EvalConfig {
                safety: Set::<Seq<char>>::empty(),
                saturation_threshold_tenths: 800,
                min_consecutive_ticks: 5,
                tick_interval_secs: 2,
            }),
    {
        let thermal = ThermalProvider::new();
        let process = ProcessWatcher::new(available_parallelism);
        let heuristics = HeuristicEngine::default();
        let r = Watchdog { thermal, process, heuristics };
        assert(r.process_watcher().process_baselines() =~= Map::empty());
        r
    }

    /// A watchdog with the given saturation threshold (tenths of a
    /// percent), number of consecutive ticks and tick length.
    pub fn with_settings(
        available_parallelism: Option<u32>,
        saturation_threshold_tenths: u32,
        min_consecutive_ticks: u32,
        tick_interval_secs: u32,
    ) -> (r: Watchdog)
        requires
            available_parallelism matches Some(n) ==> n >= 1,
        ensures
            r.thermal_provider()@ == ThermalProvider::new_view(),
            r.process_watcher().cores() == match available_parallelism {
                Some(n) => n,
                None => 8,
            },
            r.process_watcher().process_baselines().is_empty(),
            r.process_watcher().thread_baselines().is_empty(),
            r.heuristic_engine().loads().is_empty(),
            r.heuristic_engine().config() == (heuristics::EvalConfig {
                safety: Set::<Seq<char>>::empty(),
                saturation_threshold_tenths,
                min_consecutive_ticks,
                tick_interval_secs,
            }),
    {
        let thermal = ThermalProvider::new();
        let process = ProcessWatcher::new(available_parallelism);
        let safety = SafetyEngine::new();
        let heuristics = HeuristicEngine::new(safety, saturation_threshold_tenths, min_consecutive_ticks, tick_interval_secs);
        Watchdog { thermal, process, heuristics }
    }

    /// The thermal settings, which say which sensors to read.
    pub fn thermal(&self) -> (r: &ThermalProvider)
        ensures
            *r == self.thermal_provider(),
    {
        &self.thermal
    }

    /// Records the outcome of probing for `nvidia-smi`.
    pub fn record_nvidia_smi_probe(&mut self, available: bool)
        ensures
            final(self).thermal_provider()@ == (thermal::ThermalProviderView {
                nvidia_smi_available: Some(available),
                ..old(self).thermal_provider()@
            }),
            final(self).process_watcher() == old(self).process_watcher(),
            final(self).heuristic_engine() == old(self).heuristic_engine(),
    {
        self.thermal.record_nvidia_smi_probe(available);
    }

    /// The threads whose CPU times the next tick needs.
    pub fn threads_to_inspect(&self, processes: &[ProcessReading], threads: &[(u32, u32)], now_100ns: u64) -> (r: Vec<u32>)
        ensures
            r@ == process::inspect_plan(
                self.process_watcher().process_baselines(),
                readings_view(processes@),
                threads@,
                now_100ns,
                self.process_watcher().cores(),
            ).1,
    {
        self.process.threads_to_inspect(processes, threads, now_100ns)
    }

    /// Executes one evaluation tick on the readings: combines the thermals,
    /// samples the processes, evaluates runaway heuristics and keeps the top
    /// 10 processes by CPU share. Returns `None`, with the heuristics
    /// unchanged, when the table is too long to account or a tick counter
    /// of the heuristics would leave the range of `u32`.
    pub fn tick(
        &mut self,
        timestamp_ms: i64,
        power: PowerStatus,
        gpu: GpuMetrics,
        cpu_zone_tenths: Option<i32>,
        processes: &[ProcessReading],
        threads: &[(u32, u32)],
        thread_times: &HashMap<u32, (u64, u64)>,
        now_100ns: u64,
    ) -> (r: Option<SystemSnapshot>)
        ensures
            ({
                let f = old(self).process_watcher().sample_progress(readings_view(processes@), threads@, thread_times@, now_100ns);
                let samples = old(self).tick_samples(processes@, threads@, thread_times@, now_100ns);
                let ev = old(self).tick_evaluation(processes@, threads@, thread_times@, now_100ns);
                &&& r is None <==> processes@.len() > u32::MAX || !ev.fits
                &&& final(self).thermal_provider() == old(self).thermal_provider()
                &&& r is None ==> final(self).heuristic_engine() == old(self).heuristic_engine()
                &&& processes@.len() <= u32::MAX ==> {
                    &&& final(self).process_watcher().process_baselines() == f.prev_procs.restrict(process::pids_of(readings_view(processes@)))
                    &&& final(self).process_watcher().thread_baselines() == f.prev_threads.restrict(f.refreshed_threads.to_set())
                }
                &&& r matches Some(snap) ==> {
                    &&& snap.timestamp_ms == timestamp_ms
                    &&& snap.thermals == thermal_snapshot_of(old(self).thermal_provider()@, power, gpu, cpu_zone_tenths)
                    &&& snap.total_cpu_tenths == if f.total_wall > 0 {
                        tenths_of_percent(f.total_delta, f.total_wall * old(self).process_watcher().cores())
                    } else {
                        0
                    }
                    &&& snap.logical_cores == old(self).process_watcher().cores()
                    &&& samples_view(snap.top_processes@) == first_samples(samples, 10)
                    &&& alerts_view(snap.rogue_alerts@) == ev.alerts
                    &&& final(self).heuristic_engine().loads() == ev.loads.restrict(ev.active.to_set())
                    &&& final(self).heuristic_engine().config() == old(self).heuristic_engine().config()
                    &&& !snap.is_turbo_boost_clamped && !snap.auto_tame_enabled && !snap.auto_cool_enabled
                    &&& snap.tamed_pids@.len() == 0
                    &&& snap.os_version@.len() == 0
                }
            }),
    {
        let thermals = self.thermal.sample(power, gpu, cpu_zone_tenths);
        if processes.len() > 0xffff_ffff {
            return None;
        }
        let (total_cpu_tenths, mut samples) = self.process.sample(processes, threads, thread_times, now_100ns);
        if !self.heuristics.evaluation_fits(samples.as_slice()) {
            return None;
        }
        let rogue_alerts = self.heuristics.evaluate(samples.as_slice());
        // Keep the top 10 processes by CPU
        samples.truncate(10);
        let logical_cores = self.process.logical_cores();
        Some(SystemSnapshot {
            timestamp_ms,
            thermals,
            total_cpu_tenths,
            logical_cores,
            is_turbo_boost_clamped: false,
            auto_tame_enabled: false,
            auto_cool_enabled: false,
            tamed_pids: Vec::new(),
            top_processes: samples,
            rogue_alerts,
            os_version: String::new(),
        })
    }

    pub fn logical_cores(&self) -> (r: u32)
        ensures
            r == self.process_watcher().cores(),
    {
        self.process.logical_cores()
    }
}

} // verus!
