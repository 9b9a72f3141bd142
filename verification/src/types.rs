//! Telemetry records exchanged between the samplers, the heuristics and the
//! front ends. Percentages are held in tenths of a percent, temperatures in
//! tenths of a degree Celsius, power in tenths of a watt.
use vstd::prelude::*;

verus! {

/// Thermal and power readings of one tick.
#[derive(Debug, Clone, Copy, PartialEq, Eq)]
pub struct ThermalSnapshot {
    pub cpu_package_temp_tenths: Option<i32>,
    pub max_core_temp_tenths: Option<i32>,
    pub gpu_temp_tenths: Option<i32>,
    pub gpu_power_tenths_w: Option<i32>,
    pub gpu_utilization_tenths: Option<i32>,
    pub gpu_clock_mhz: Option<u32>,
    pub is_ac_online: bool,
    pub battery_percent: Option<u8>,
}

impl Default for ThermalSnapshot {
    /// No readings, on battery.
    fn default() -> (r: ThermalSnapshot)
        ensures
            r.cpu_package_temp_tenths is None,
            r.max_core_temp_tenths is None,
            r.gpu_temp_tenths is None,
            r.gpu_power_tenths_w is None,
            r.gpu_utilization_tenths is None,
            r.gpu_clock_mhz is None,
            !r.is_ac_online,
            r.battery_percent is None,
    {
        ThermalSnapshot {
            cpu_package_temp_tenths: None,
            max_core_temp_tenths: None,
            gpu_temp_tenths: None,
            gpu_power_tenths_w: None,
            gpu_utilization_tenths: None,
            gpu_clock_mhz: None,
            is_ac_online: false,
            battery_percent: None,
        }
    }
}

/// CPU time of one thread between two samples.
#[derive(Debug, Clone, Copy, PartialEq, Eq)]
pub struct ThreadSample {
    pub thread_id: u32,
    pub process_id: u32,
    pub kernel_time_100ns: u64,
    pub user_time_100ns: u64,
    pub saturation_tenths: u32,
}

/// One process as seen in one tick.
#[derive(Debug, Clone)]
pub struct ProcessSample {
    pub pid: u32,
    pub ppid: u32,
    pub name: String,
    pub is_orphan: bool,
    pub total_cpu_tenths: u32,
    pub top_thread_saturation_tenths: u32,
    pub thread_count: usize,
}

/// A [`ProcessSample`] with its name as a character sequence.
pub struct ProcessSampleView {
    pub pid: u32,
    pub ppid: u32,
    pub name: Seq<char>,
    pub is_orphan: bool,
    pub total_cpu_tenths: u32,
    pub top_thread_saturation_tenths: u32,
    pub thread_count: usize,
}

impl View for ProcessSample {
    type V = ProcessSampleView;

    open spec fn view(&self) -> ProcessSampleView {
        ProcessSampleView {
            pid: self.pid,
            ppid: self.ppid,
            name: self.name@,
            is_orphan: self.is_orphan,
            total_cpu_tenths: self.total_cpu_tenths,
            top_thread_saturation_tenths: self.top_thread_saturation_tenths,
            thread_count: self.thread_count,
        }
    }
}

/// The views of a sequence of samples.
pub open spec fn samples_view(s: Seq<ProcessSample>) -> Seq<ProcessSampleView> {
    s.map_values(|p: ProcessSample| p@)
}

/// A confirmed runaway single-core loop.
#[derive(Debug, Clone)]
pub struct RogueAlert {
    pub pid: u32,
    pub ppid: u32,
    pub process_name: String,
    pub thread_id: u32,
    pub single_core_saturation_tenths: u32,
    pub total_process_cpu_tenths: u32,
    pub sustained_seconds: u32,
    pub is_orphan: bool,
    pub reason: String,
}

/// A [`RogueAlert`] with its strings as character sequences.
pub struct RogueAlertView {
    pub pid: u32,
    pub ppid: u32,
    pub process_name: Seq<char>,
    pub thread_id: u32,
    pub single_core_saturation_tenths: u32,
    pub total_process_cpu_tenths: u32,
    pub sustained_seconds: u32,
    pub is_orphan: bool,
    pub reason: Seq<char>,
}

impl View for RogueAlert {
    type V = RogueAlertView;

    open spec fn view(&self) -> RogueAlertView {
        RogueAlertView {
            pid: self.pid,
            ppid: self.ppid,
            process_name: self.process_name@,
            thread_id: self.thread_id,
            single_core_saturation_tenths: self.single_core_saturation_tenths,
            total_process_cpu_tenths: self.total_process_cpu_tenths,
            sustained_seconds: self.sustained_seconds,
            is_orphan: self.is_orphan,
            reason: self.reason@,
        }
    }
}

/// The views of a sequence of alerts.
pub open spec fn alerts_view(s: Seq<RogueAlert>) -> Seq<RogueAlertView> {
    s.map_values(|a: RogueAlert| a@)
}

/// Everything the front ends show for one tick. The timestamp is in
/// milliseconds since the Unix epoch, as the caller read the clock.
#[derive(Debug, Clone)]
pub struct SystemSnapshot {
    pub timestamp_ms: i64,
    pub thermals: ThermalSnapshot,
    pub total_cpu_tenths: u32,
    pub logical_cores: u32,
    pub is_turbo_boost_clamped: bool,
    pub auto_tame_enabled: bool,
    pub auto_cool_enabled: bool,
    pub tamed_pids: Vec<u32>,
    pub top_processes: Vec<ProcessSample>,
    pub rogue_alerts: Vec<RogueAlert>,
    pub os_version: String,
}

} // verus!
