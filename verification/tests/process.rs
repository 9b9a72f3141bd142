use std::collections::HashMap;
use frostbyte_core::process::ProcessReading;
use frostbyte_core::ProcessWatcher;

fn reading(pid: u32, ppid: u32, name: &str, times: Option<(u64, u64)>) -> ProcessReading {
    ProcessReading { pid, ppid, name: name.to_string(), times }
}

const SEC: u64 = 10_000_000;

#[test]
fn first_sample_only_sets_baselines() {
    let mut w = ProcessWatcher::new(Some(16));
    assert_eq!(w.logical_cores(), 16);
    let procs = vec![reading(100, 4, "a.exe", Some((0, 0))), reading(200, 100, "b.exe", Some((5, 5)))];
    let threads = vec![(1000, 100), (1001, 100), (2000, 200)];
    assert!(w.threads_to_inspect(&procs, &threads, SEC).is_empty());
    let (total, samples) = w.sample(&procs, &threads, &HashMap::new(), SEC);
    assert_eq!(total, 0);
    assert_eq!(samples.len(), 2);
    assert!(samples.iter().all(|s| s.total_cpu_tenths == 0 && s.top_thread_saturation_tenths == 0));
    assert_eq!(samples[0].pid, 100);
    assert_eq!(samples[0].thread_count, 2);
    assert_eq!(samples[1].thread_count, 1);
}

#[test]
fn single_core_loop_on_sixteen_cores() {
    let mut w = ProcessWatcher::new(Some(16));
    let threads = vec![(1000, 100), (1001, 100), (2000, 200), (3000, 300)];
    let first = vec![
        reading(100, 4, "worker.exe", Some((0, 0))),
        reading(200, 4, "idle.exe", Some((0, 0))),
        reading(300, 4, "locked.exe", None),
    ];
    w.sample(&first, &threads, &HashMap::new(), 0);
    // two seconds later worker.exe burned one full core
    let second = vec![
        reading(100, 4, "worker.exe", Some((0, 2 * SEC))),
        reading(200, 4, "idle.exe", Some((1, 1))),
        reading(300, 4, "locked.exe", None),
    ];
    let plan = w.threads_to_inspect(&second, &threads, 2 * SEC);
    assert_eq!(plan, vec![1000, 1001]);
    let mut times = HashMap::new();
    times.insert(1000u32, (0u64, 0u64));
    times.insert(1001u32, (0u64, 0u64));
    let (total, samples) = w.sample(&second, &threads, &times, 2 * SEC);
    assert_eq!(total, 62);
    assert_eq!(samples.len(), 2);
    assert_eq!(samples[0].pid, 100);
    assert_eq!(samples[0].total_cpu_tenths, 62);
    // thread baselines are new this tick, so no saturation yet
    assert_eq!(samples[0].top_thread_saturation_tenths, 0);
    assert_eq!(samples[1].pid, 200);
    assert_eq!(samples[1].total_cpu_tenths, 0);

    // one more tick: thread 1001 is the busy one
    let third = vec![
        reading(100, 4, "worker.exe", Some((0, 4 * SEC))),
        reading(200, 4, "idle.exe", Some((1, 1))),
    ];
    let mut times = HashMap::new();
    times.insert(1000u32, (0u64, 0u64));
    times.insert(1001u32, (SEC / 10, 19 * SEC / 10 - 30_000));
    let (_, samples) = w.sample(&third, &threads, &times, 4 * SEC);
    assert_eq!(samples[0].top_thread_saturation_tenths, 998);
    assert_eq!(samples[0].total_cpu_tenths, 62);
}

#[test]
fn orphans_are_detected() {
    let mut w = ProcessWatcher::new(None);
    assert_eq!(w.logical_cores(), 8);
    let procs = vec![
        reading(4, 0, "System", Some((0, 0))),
        reading(500, 999, "node.exe", Some((0, 0))),
        reading(600, 500, "child.exe", Some((0, 0))),
        reading(700, 999, "smss.exe", Some((0, 0))),
        reading(800, 0, "root.exe", Some((0, 0))),
    ];
    let (_, samples) = w.sample(&procs, &[], &HashMap::new(), 0);
    let orphan = |pid: u32| samples.iter().find(|s| s.pid == pid).unwrap().is_orphan;
    assert!(!orphan(4));
    assert!(orphan(500));
    assert!(!orphan(600));
    assert!(!orphan(700));
    assert!(!orphan(800));
}

#[test]
fn samples_sorted_descending_stable() {
    let mut w = ProcessWatcher::new(Some(1));
    let base: Vec<ProcessReading> = (1..=5).map(|p| reading(p, 0, "p.exe", Some((0, 0)))).collect();
    w.sample(&base, &[], &HashMap::new(), 0);
    let loads = [1u64, 30, 1, 50, 30];
    let next: Vec<ProcessReading> =
        (1..=5).map(|p| reading(p, 0, "p.exe", Some((0, loads[(p - 1) as usize] * SEC / 100)))).collect();
    let (total, samples) = w.sample(&next, &[], &HashMap::new(), SEC);
    let order: Vec<u32> = samples.iter().map(|s| s.pid).collect();
    assert_eq!(order, vec![4, 2, 5, 1, 3]);
    assert_eq!(samples[0].total_cpu_tenths, 500);
    assert_eq!(total, 1120);
}

#[test]
fn short_interval_gives_no_delta() {
    let mut w = ProcessWatcher::new(Some(4));
    let r = vec![reading(1, 0, "a.exe", Some((0, 0)))];
    w.sample(&r, &[], &HashMap::new(), 0);
    let r2 = vec![reading(1, 0, "a.exe", Some((SEC, SEC)))];
    // 10 ms is not enough
    let (total, samples) = w.sample(&r2, &[], &HashMap::new(), 100_000);
    assert_eq!(total, 0);
    assert_eq!(samples[0].total_cpu_tenths, 0);
}

#[test]
fn thread_saturation_is_measured_over_one_tick_only() {
    let mut w = ProcessWatcher::new(Some(16));
    let threads = vec![(1000, 100), (1001, 100)];
    let times_at = |busy: u64| {
        let mut t = HashMap::new();
        t.insert(1000u32, (0u64, 0u64));
        t.insert(1001u32, (0u64, busy));
        t
    };
    w.sample(&[reading(100, 4, "w.exe", Some((0, 0)))], &threads, &HashMap::new(), 0);
    // tick 2: busy, threads read
    let (_, s) = w.sample(&[reading(100, 4, "w.exe", Some((0, 2 * SEC)))], &threads, &times_at(2 * SEC), 2 * SEC);
    assert_eq!(s[0].total_cpu_tenths, 62);
    // tick 3: idle, under 0.5%: its threads are not read and their baselines go
    let (_, s) = w.sample(&[reading(100, 4, "w.exe", Some((0, 2 * SEC)))], &threads, &times_at(2 * SEC), 4 * SEC);
    assert_eq!(s[0].total_cpu_tenths, 0);
    // tick 4: busy again; no baseline from the previous tick, so no saturation
    let (_, s) = w.sample(&[reading(100, 4, "w.exe", Some((0, 4 * SEC)))], &threads, &times_at(4 * SEC), 6 * SEC);
    assert_eq!(s[0].top_thread_saturation_tenths, 0);
    // tick 5: one full core over the last tick
    let (_, s) = w.sample(&[reading(100, 4, "w.exe", Some((0, 6 * SEC)))], &threads, &times_at(6 * SEC), 8 * SEC);
    assert_eq!(s[0].top_thread_saturation_tenths, 1000);
}

#[test]
fn a_process_new_to_the_watcher_reports_no_cpu() {
    let mut w = ProcessWatcher::new(Some(2));
    w.sample(&[reading(1, 0, "old.exe", Some((0, 0)))], &[], &HashMap::new(), 0);
    let procs = vec![reading(1, 0, "old.exe", Some((0, SEC))), reading(2, 0, "new.exe", Some((0, 50 * SEC)))];
    let (_, s) = w.sample(&procs, &[], &HashMap::new(), SEC);
    let new = s.iter().find(|x| x.pid == 2).unwrap();
    assert_eq!(new.total_cpu_tenths, 0);
    assert_eq!(new.top_thread_saturation_tenths, 0);
    assert_eq!(s.iter().find(|x| x.pid == 1).unwrap().total_cpu_tenths, 500);
}

#[test]
fn a_repeated_pid_or_a_fresh_baseline_reports_no_cpu() {
    let mut w = ProcessWatcher::new(Some(1));
    w.sample(&[reading(1, 0, "a.exe", Some((0, 0)))], &[], &HashMap::new(), 0);
    // 5 ms later the baseline is too young to measure against
    let (_, s) = w.sample(&[reading(1, 0, "a.exe", Some((0, 50_000)))], &[], &HashMap::new(), 50_000);
    assert_eq!(s[0].total_cpu_tenths, 0);
    // a pid listed twice without a baseline reports nothing for either entry
    let twice = vec![reading(7, 0, "b.exe", Some((0, SEC))), reading(7, 0, "b.exe", Some((0, 2 * SEC)))];
    let (_, s) = w.sample(&twice, &[], &HashMap::new(), 2 * SEC);
    assert!(s.iter().filter(|x| x.pid == 7).all(|x| x.total_cpu_tenths == 0));
}
