use frostbyte_core::heuristics::HeuristicEngine;
use frostbyte_core::{ProcessSample, SafetyEngine};

fn sample(pid: u32, name: &str, is_orphan: bool, total_cpu_tenths: u32, saturation_tenths: u32) -> ProcessSample {
    ProcessSample {
        pid,
        ppid: 1234,
        name: name.to_string(),
        is_orphan,
        total_cpu_tenths,
        top_thread_saturation_tenths: saturation_tenths,
        thread_count: 2,
    }
}

#[test]
fn test_rogue_loop_detection() {
    let mut engine = HeuristicEngine::new(SafetyEngine::default(), 800, 3, 2);

    let rogue_proc = ProcessSample {
        pid: 9999,
        ppid: 1234,
        name: "stuck_worker.exe".to_string(),
        is_orphan: true,
        total_cpu_tenths: 63, // 1 core on 16 cores
        top_thread_saturation_tenths: 985,
        thread_count: 2,
    };

    // Tick 1
    let alerts = engine.evaluate(&[rogue_proc.clone()]);
    assert!(alerts.is_empty(), "Should not alert on first tick");

    // Tick 2
    let alerts = engine.evaluate(&[rogue_proc.clone()]);
    assert!(alerts.is_empty(), "Should not alert on second tick");

    // Tick 3: reaches threshold
    let alerts = engine.evaluate(&[rogue_proc.clone()]);
    assert_eq!(alerts.len(), 1, "Should alert after 3 consecutive high-load ticks");
    assert_eq!(alerts[0].pid, 9999);
    assert_eq!(alerts[0].process_name, "stuck_worker.exe");
    assert!(alerts[0].single_core_saturation_tenths >= 980);
    assert!(alerts[0].is_orphan);
}

#[test]
fn test_whitelisted_process_never_alerts() {
    let mut engine = HeuristicEngine::new(SafetyEngine::default(), 800, 1, 2);

    let system_proc = ProcessSample {
        pid: 100,
        ppid: 4,
        name: "explorer.exe".to_string(),
        is_orphan: false,
        total_cpu_tenths: 200,
        top_thread_saturation_tenths: 1000,
        thread_count: 30,
    };

    let alerts = engine.evaluate(&[system_proc]);
    assert!(alerts.is_empty(), "Whitelisted process explorer.exe must never trigger an alert");
}

#[test]
fn alert_reason_and_duration() {
    let mut engine = HeuristicEngine::new(SafetyEngine::new(), 800, 2, 2);
    let p = sample(42, "loop.exe", true, 63, 905);
    assert!(engine.evaluate(&[p.clone()]).is_empty());
    let q = sample(42, "loop.exe", true, 63, 985);
    let alerts = engine.evaluate(&[q]);
    assert_eq!(alerts.len(), 1);
    assert_eq!(alerts[0].sustained_seconds, 4);
    assert_eq!(alerts[0].single_core_saturation_tenths, 985);
    assert_eq!(alerts[0].total_process_cpu_tenths, 63);
    assert_eq!(alerts[0].ppid, 1234);
    assert_eq!(alerts[0].thread_id, 0);
    assert_eq!(
        alerts[0].reason,
        "Sustained single-core saturation: 98.5% for 4s | Orphaned background process (parent dead)"
    );
    // the peak is kept when the saturation drops but stays above threshold
    let alerts = engine.evaluate(&[sample(42, "loop.exe", false, 63, 850)]);
    assert_eq!(alerts[0].single_core_saturation_tenths, 985);
    assert_eq!(alerts[0].sustained_seconds, 6);
    assert_eq!(alerts[0].reason, "Sustained single-core saturation: 98.5% for 6s");
}

#[test]
fn calm_tick_resets_the_count() {
    let mut engine = HeuristicEngine::new(SafetyEngine::new(), 800, 2, 2);
    let hot = sample(7, "spin.exe", false, 60, 990);
    let calm = sample(7, "spin.exe", false, 10, 100);
    assert!(engine.evaluate(&[hot.clone()]).is_empty());
    assert!(engine.evaluate(&[calm]).is_empty());
    assert!(engine.evaluate(&[hot.clone()]).is_empty());
    assert_eq!(engine.evaluate(&[hot]).len(), 1);
}

#[test]
fn threshold_is_inclusive_and_settable() {
    let mut engine = HeuristicEngine::default();
    assert_eq!(engine.saturation_threshold(), 800);
    engine.set_saturation_threshold(500);
    assert_eq!(engine.saturation_threshold(), 500);
    let p = sample(5, "busy.exe", false, 40, 500);
    for _ in 0..4 {
        assert!(engine.evaluate(&[p.clone()]).is_empty());
    }
    let alerts = engine.evaluate(&[p]);
    assert_eq!(alerts.len(), 1);
    assert_eq!(alerts[0].sustained_seconds, 10);
    assert_eq!(alerts[0].reason, "Sustained single-core saturation: 50.0% for 10s");
}

#[test]
fn evaluation_fits_detects_duration_overflow() {
    let engine = HeuristicEngine::new(SafetyEngine::new(), 800, 1, u32::MAX);
    assert!(engine.evaluation_fits(&[sample(1, "a.exe", false, 0, 900)]));
    assert!(!engine.evaluation_fits(&[sample(1, "a.exe", false, 0, 900), sample(1, "a.exe", false, 0, 900)]));
    assert!(engine.evaluation_fits(&[sample(1, "a.exe", false, 0, 100), sample(1, "a.exe", false, 0, 100)]));
}

#[test]
fn streaks_of_several_processes_under_a_changing_threshold() {
    let mut engine = HeuristicEngine::new(SafetyEngine::new(), 800, 3, 2);
    let a = |sat: u32| sample(1, "a.exe", false, 60, sat);
    let b = |sat: u32| sample(2, "b.exe", false, 60, sat);
    let guard = sample(3, "csrss.exe", false, 60, 1000);
    let pids = |alerts: Vec<frostbyte_core::RogueAlert>| alerts.iter().map(|x| x.pid).collect::<Vec<u32>>();
    // tick 1: both hot
    assert!(engine.evaluate(&[a(900), b(900), guard.clone()]).is_empty());
    // tick 2: b calms down, its streak ends
    assert!(engine.evaluate(&[a(900), b(100), guard.clone()]).is_empty());
    // tick 3: a reaches three in a row; b starts again
    assert_eq!(pids(engine.evaluate(&[b(900), a(900), guard.clone()])), vec![1]);
    // tick 4: a is absent, which ends its streak
    assert!(engine.evaluate(&[b(900), guard.clone()]).is_empty());
    // tick 5: lowering the threshold makes 600 a high load; b has three in a row
    engine.set_saturation_threshold(600);
    let alerts = engine.evaluate(&[a(600), b(600), guard.clone()]);
    assert_eq!(pids(alerts.clone()), vec![2]);
    assert_eq!(alerts[0].sustained_seconds, 6);
    // tick 6: raising it again ends both streaks
    engine.set_saturation_threshold(800);
    assert!(engine.evaluate(&[a(700), b(700)]).is_empty());
    assert!(engine.evaluate(&[a(900), b(900)]).is_empty());
}

#[test]
fn alert_reports_peak_over_the_streak_and_its_duration() {
    let mut engine = HeuristicEngine::new(SafetyEngine::new(), 800, 3, 5);
    let p = |sat: u32, orphan: bool| sample(11, "hog.exe", orphan, 70, sat);
    // an earlier, higher peak that a calm tick ended does not count
    assert!(engine.evaluate(&[p(1000, false)]).is_empty());
    assert!(engine.evaluate(&[p(100, false)]).is_empty());
    assert!(engine.evaluate(&[p(850, false)]).is_empty());
    assert!(engine.evaluate(&[p(990, false)]).is_empty());
    let alerts = engine.evaluate(&[p(820, false)]);
    assert_eq!(alerts.len(), 1);
    assert_eq!(alerts[0].single_core_saturation_tenths, 990);
    assert_eq!(alerts[0].sustained_seconds, 15);
    assert_eq!(alerts[0].reason, "Sustained single-core saturation: 99.0% for 15s");
    let alerts = engine.evaluate(&[p(810, true)]);
    assert_eq!(alerts[0].sustained_seconds, 20);
    assert!(alerts[0].is_orphan);
    assert!(alerts[0].reason.ends_with("Orphaned background process (parent dead)"));
}
