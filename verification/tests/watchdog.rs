use std::collections::HashMap;
use frostbyte_core::process::ProcessReading;
use frostbyte_core::thermal::{GpuMetrics, PowerStatus};
use frostbyte_core::Watchdog;

const SEC: u64 = 10_000_000;

fn no_gpu() -> GpuMetrics {
    GpuMetrics { temp_tenths: None, power_tenths_w: None, utilization_tenths: None, clock_mhz: None }
}

#[test]
fn tick_reports_runaway_loop_and_top_ten() {
    let mut wd = Watchdog::with_settings(Some(16), 800, 3, 2);
    assert_eq!(wd.logical_cores(), 16);
    let threads: Vec<(u32, u32)> = (1..=12).map(|p| (p * 10, p)).collect();
    let power = PowerStatus { is_ac_online: true, battery_percent: None };
    let mut kernel = 0u64;
    let mut alerts_seen = Vec::new();
    for tick in 0..5u64 {
        let now = tick * 2 * SEC;
        let procs: Vec<ProcessReading> = (1..=12)
            .map(|p| ProcessReading {
                pid: p,
                ppid: 0,
                name: if p == 1 { "stuck_worker.exe".to_string() } else { format!("p{}.exe", p) },
                times: Some(if p == 1 { (kernel, 0) } else { (0, 0) }),
            })
            .collect();
        let plan = wd.threads_to_inspect(&procs, &threads, now);
        let mut times = HashMap::new();
        for tid in plan {
            times.insert(tid, (kernel, 0u64));
        }
        let snap = wd.tick(1_700_000_000_000 + tick as i64, power, no_gpu(), Some(900), &procs, &threads, &times, now).unwrap();
        assert_eq!(snap.top_processes.len(), 10);
        assert_eq!(snap.thermals.cpu_package_temp_tenths, Some(900));
        assert_eq!(snap.logical_cores, 16);
        alerts_seen.push(snap.rogue_alerts.len());
        kernel += 2 * SEC;
    }
    // tick 0 sets baselines, tick 1 sets thread baselines, ticks 2..4 saturate
    assert_eq!(alerts_seen, vec![0, 0, 0, 0, 1]);
}

#[test]
fn default_watchdog_settings() {
    let wd = Watchdog::new(None);
    assert_eq!(wd.logical_cores(), 8);
    assert!(wd.thermal().is_gpu_monitoring());
}

#[test]
fn tick_refuses_when_duration_overflows() {
    let mut wd = Watchdog::with_settings(Some(1), 800, 1, u32::MAX);
    let threads = vec![(10u32, 1u32)];
    let power = PowerStatus { is_ac_online: false, battery_percent: Some(50) };
    let mut results = Vec::new();
    for tick in 0..4u64 {
        let now = tick * SEC;
        let procs = vec![ProcessReading { pid: 1, ppid: 0, name: "spin.exe".to_string(), times: Some((tick * SEC, 0)) }];
        let mut times = HashMap::new();
        for tid in wd.threads_to_inspect(&procs, &threads, now) {
            times.insert(tid, (tick * SEC, 0u64));
        }
        let snap = wd.tick(0, power, no_gpu(), None, &procs, &threads, &times, now);
        results.push(snap.map(|s| s.rogue_alerts.len()));
    }
    // the saturated tick 2 alerts after u32::MAX seconds; tick 3 would need twice that
    assert_eq!(results, vec![Some(0), Some(0), Some(1), None]);
}
