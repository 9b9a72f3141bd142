use frostbyte_core::mitigation::{cpu_rate_for, JobRateLimiter, TamedJob};

#[test]
fn cpu_rate_is_clamped() {
    assert_eq!(cpu_rate_for(10), 1000);
    assert_eq!(cpu_rate_for(0), 100);
    assert_eq!(cpu_rate_for(250), 10_000);
}

#[test]
fn tame_and_revert_bookkeeping() {
    let mut l = JobRateLimiter::new();
    assert!(!l.is_tamed(42));
    assert_eq!(l.record_tamed(42, 7, Some(0x20)), None);
    assert!(l.is_tamed(42));
    // taming again replaces the job; the old handle is handed back to release
    assert_eq!(l.record_tamed(42, 9, Some(0x40)), Some(7));
    assert_eq!(l.record_tamed(43, 11, None), None);
    let mut pids = l.active_tamed_pids();
    pids.sort();
    assert_eq!(pids, vec![42, 43]);
    // the priority class from before the first taming is handed back
    assert_eq!(l.revert(42), Some(TamedJob { job_handle: 9, prior_priority_class: Some(0x20) }));
    assert_eq!(l.revert(42), None);
    assert!(!l.is_tamed(42));
    assert!(l.is_tamed(43));
    l.record_tamed(44, 13, Some(0x8000));
    let mut released: Vec<(u32, TamedJob)> = l.revert_all().into_iter().collect();
    released.sort_by_key(|(pid, _)| *pid);
    assert_eq!(
        released,
        vec![
            (43, TamedJob { job_handle: 11, prior_priority_class: None }),
            (44, TamedJob { job_handle: 13, prior_priority_class: Some(0x8000) }),
        ]
    );
    assert!(l.active_tamed_pids().is_empty());
    assert!(JobRateLimiter::default().revert_all().is_empty());
}
