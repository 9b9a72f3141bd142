//! Runaway-loop detection: a process whose top thread stays above the
//! single-core saturation threshold for enough consecutive ticks is flagged.
use vstd::prelude::*;
use std::collections::HashMap;
use crate::safety::SafetyEngine;
use crate::text::{decimal, one_decimal, push_decimal, push_one_decimal};
use crate::types::{ProcessSample, ProcessSampleView, RogueAlert, RogueAlertView, alerts_view, samples_view};

verus! {

broadcast use vstd::std_specs::hash::group_hash_axioms;

/// How long a (process, thread) pair has stayed above the threshold.
#[derive(Debug, Clone, Copy, PartialEq, Eq)]
pub struct TrackedHighLoad {
    pub consecutive_ticks: u32,
    pub peak_saturation_tenths: u32,
}

/// The map key of a (process, thread) pair.
pub open spec fn track_key(pid: u32, tid: u32) -> u64 {
    (pid as int * 0x1_0000_0000 + tid as int) as u64
}

fn make_key(pid: u32, tid: u32) -> (k: u64)
    ensures
        k == track_key(pid, tid),
{
    (pid as u64) * 0x1_0000_0000 + (tid as u64)
}

/// The text of an alert's reason.
pub open spec fn alert_reason(peak_tenths: u32, sustained_seconds: u32, is_orphan: bool) -> Seq<char> {
    let first = "Sustained single-core saturation: "@ + one_decimal(peak_tenths as nat) + "% for "@
        + decimal(sustained_seconds as nat) + "s"@;
    if is_orphan {
        first + " | "@ + "Orphaned background process (parent dead)"@
    } else {
        first
    }
}

/// The alert raised for process `p` at the given peak and duration.
pub open spec fn alert_for(p: ProcessSampleView, peak_tenths: u32, sustained_seconds: u32) -> RogueAlertView {
    RogueAlertView {
        pid: p.pid,
        ppid: p.ppid,
        process_name: p.name,
        thread_id: 0,
        single_core_saturation_tenths: peak_tenths,
        total_process_cpu_tenths: p.total_cpu_tenths,
        sustained_seconds,
        is_orphan: p.is_orphan,
        reason: alert_reason(peak_tenths, sustained_seconds, p.is_orphan),
    }
}

/// The state of an evaluation after some prefix of the processes.
pub struct EvalProgress {
    /// Tracking after the prefix, before calmed pairs are dropped.
    pub loads: Map<u64, TrackedHighLoad>,
    pub alerts: Seq<RogueAlertView>,
    /// Keys seen above the threshold, in order.
    pub active: Seq<u64>,
    /// Whether no tick count or duration so far left the range of `u32`.
    pub fits: bool,
}

/// The settings an evaluation reads.
pub struct EvalConfig {
    pub safety: Set<Seq<char>>,
    pub saturation_threshold_tenths: u32,
    pub min_consecutive_ticks: u32,
    pub tick_interval_secs: u32,
}

/// Whether a process is left alone because the safety rules protect it.
pub open spec fn protected(cfg: EvalConfig, p: ProcessSampleView) -> bool {
    crate::safety::immune_name(crate::safety::normalized(p.name), cfg.safety)
}

/// One process of an evaluation.
pub open spec fn eval_step(cfg: EvalConfig, st: EvalProgress, p: ProcessSampleView) -> EvalProgress {
    if protected(cfg, p) || p.top_thread_saturation_tenths < cfg.saturation_threshold_tenths {
        st
    } else {
        let key = track_key(p.pid, 0);
        let prev = if st.loads.contains_key(key) {
            st.loads[key]
        } else {
            TrackedHighLoad { consecutive_ticks: 0, peak_saturation_tenths: 0 }
        };
        let ticks: int = prev.consecutive_ticks + 1;
        let peak: u32 = if prev.peak_saturation_tenths >= p.top_thread_saturation_tenths {
            prev.peak_saturation_tenths
        } else {
            p.top_thread_saturation_tenths
        };
        let secs: int = ticks * cfg.tick_interval_secs;
        let entry = TrackedHighLoad { consecutive_ticks: ticks as u32, peak_saturation_tenths: peak };
        EvalProgress {
            loads: st.loads.insert(key, entry),
            alerts: if ticks >= cfg.min_consecutive_ticks {
                st.alerts.push(alert_for(p, peak, secs as u32))
            } else {
                st.alerts
            },
            active: st.active.push(key),
            fits: st.fits && ticks <= u32::MAX && secs <= u32::MAX,
        }
    }
}

/// An evaluation of `procs`, in order, from the given tracking.
pub open spec fn eval_fold(cfg: EvalConfig, loads: Map<u64, TrackedHighLoad>, procs: Seq<ProcessSampleView>) -> EvalProgress
    decreases procs.len(),
{
    if procs.len() == 0 {
        EvalProgress { loads, alerts: Seq::empty(), active: Seq::empty(), fits: true }
    } else {
        eval_step(cfg, eval_fold(cfg, loads, procs.drop_last()), procs.last())
    }
}

/// Evaluates process samples over consecutive ticks and reports confirmed
/// runaway loops.
pub struct HeuristicEngine {
    tracked_threads: HashMap<u64, TrackedHighLoad>,
    safety: SafetyEngine,
    saturation_threshold_tenths: u32,
    min_consecutive_ticks: u32,
    tick_interval_secs: u32,
}

impl HeuristicEngine {
    /// The (process, thread) pairs being loads.
    pub closed spec fn loads(&self) -> Map<u64, TrackedHighLoad> {
        self.tracked_threads@
    }

    /// The settings this engine evaluates with.
    pub closed spec fn config(&self) -> EvalConfig {
        EvalConfig {
            safety: self.safety@,
            saturation_threshold_tenths: self.saturation_threshold_tenths,
            min_consecutive_ticks: self.min_consecutive_ticks,
            tick_interval_secs: self.tick_interval_secs,
        }
    }

    /// The evaluation of `procs` from the current tracking.
    pub open spec fn fold(&self, procs: Seq<ProcessSampleView>) -> EvalProgress {
        eval_fold(self.config(), self.loads(), procs)
    }

    pub fn new(safety: SafetyEngine, saturation_threshold_tenths: u32, min_consecutive_ticks: u32, tick_interval_secs: u32) -> (r: HeuristicEngine)
        ensures
            r.loads() == Map::<u64, TrackedHighLoad>::empty(),
            r.config() == (EvalConfig {
                safety: safety@,
                saturation_threshold_tenths,
                min_consecutive_ticks,
                tick_interval_secs,
            }),
    {
        HeuristicEngine {
            tracked_threads: HashMap::new(),
            safety,
            saturation_threshold_tenths,
            min_consecutive_ticks,
            tick_interval_secs,
        }
    }

    /// Whether evaluating `processes` keeps every tick count and duration
    /// within `u32`.
    pub fn evaluation_fits(&self, processes: &[ProcessSample]) -> (r: bool)
        ensures
            r == self.fold(samples_view(processes@)).fits,
    {
        let ghost cfg = self.config();
        let ghost procs = samples_view(processes@);
        let mut scratch: HashMap<u64, TrackedHighLoad> = self.tracked_threads.clone();
        let mut i: usize = 0;
        proof {
            lemma_fold_fits_monotone(cfg, self.loads(), procs);
        }
        while i < processes.len()
            invariant
                i <= processes@.len(),
                procs == samples_view(processes@),
                cfg == self.config(),
                scratch@ == eval_fold(cfg, self.loads(), procs.take(i as int)).loads,
                eval_fold(cfg, self.loads(), procs.take(i as int)).fits,
                forall|j: int| 0 <= j <= procs.len() && eval_fold(cfg, self.loads(), procs).fits ==> #[trigger] eval_fold(cfg, self.loads(), procs.take(j)).fits,
            decreases processes@.len() - i,
        {
            let p = &processes[i];
            assert(procs.take(i + 1).drop_last() =~= procs.take(i as int));
            assert(procs.take(i + 1).last() == p@);
            if !self.safety.is_immune(p.name.as_str()) && p.top_thread_saturation_tenths >= self.saturation_threshold_tenths {
                let key = make_key(p.pid, 0);
                let prev = match scratch.get(&key) {
                    Some(e) => *e,
                    None => TrackedHighLoad { consecutive_ticks: 0, peak_saturation_tenths: 0 },
                };
                if prev.consecutive_ticks == u32::MAX {
                    assert(!eval_fold(cfg, self.loads(), procs.take(i + 1)).fits);
                    return false;
                }
                let ticks = prev.consecutive_ticks + 1;
                let interval = self.tick_interval_secs;
                assert((ticks as u64) * (interval as u64) <= u64::MAX) by (nonlinear_arith)
                    requires ticks <= u32::MAX, interval <= u32::MAX;
                if (ticks as u64) * (interval as u64) > u32::MAX as u64 {
                    assert(!eval_fold(cfg, self.loads(), procs.take(i + 1)).fits);
                    return false;
                }
                let peak = if prev.peak_saturation_tenths >= p.top_thread_saturation_tenths {
                    prev.peak_saturation_tenths
                } else {
                    p.top_thread_saturation_tenths
                };
                scratch.insert(key, TrackedHighLoad { consecutive_ticks: ticks, peak_saturation_tenths: peak });
            }
            i = i + 1;
        }
        assert(procs.take(processes@.len() as int) =~= procs);
        true
    }

    /// Evaluates current process samples and returns alerts for confirmed
    /// runaway loops. Pairs not above the threshold in this tick are forgotten.
    pub fn evaluate(&mut self, processes: &[ProcessSample]) -> (alerts: Vec<RogueAlert>)
        requires
            old(self).fold(samples_view(processes@)).fits,
        ensures
            alerts_view(alerts@) == old(self).fold(samples_view(processes@)).alerts,
            final(self).loads() == old(self).fold(samples_view(processes@)).loads.restrict(
                old(self).fold(samples_view(processes@)).active.to_set(),
            ),
            final(self).config() == old(self).config(),
    {
        let ghost cfg = self.config();
        let ghost start = self.loads();
        let ghost procs = samples_view(processes@);
        let mut alerts: Vec<RogueAlert> = Vec::new();
        let mut active_keys: Vec<u64> = Vec::new();
        let mut i: usize = 0;
        proof {
            lemma_fold_fits_monotone(cfg, start, procs);
        }
        while i < processes.len()
            invariant
                i <= processes@.len(),
                procs == samples_view(processes@),
                cfg == self.config(),
                eval_fold(cfg, start, procs).fits,
                forall|j: int| 0 <= j <= procs.len() ==> #[trigger] eval_fold(cfg, start, procs.take(j)).fits,
                self.loads() == eval_fold(cfg, start, procs.take(i as int)).loads,
                alerts_view(alerts@) == eval_fold(cfg, start, procs.take(i as int)).alerts,
                active_keys@ == eval_fold(cfg, start, procs.take(i as int)).active,
                forall|j: int| 0 <= j < active_keys@.len() ==> self.loads().contains_key(#[trigger] active_keys@[j]),
            decreases processes@.len() - i,
        {
            let p = &processes[i];
            let ghost before = eval_fold(cfg, start, procs.take(i as int));
            assert(procs.take(i + 1).drop_last() =~= procs.take(i as int));
            assert(procs.take(i + 1).last() == p@);
            assert(eval_fold(cfg, start, procs.take(i + 1)).fits);
            // Never flag immune system processes
            if !self.safety.is_immune(p.name.as_str()) && p.top_thread_saturation_tenths >= self.saturation_threshold_tenths {
                let key = make_key(p.pid, 0);
                active_keys.push(key);
                let prev = match self.tracked_threads.get(&key) {
                    Some(e) => *e,
                    None => TrackedHighLoad { consecutive_ticks: 0, peak_saturation_tenths: 0 },
                };
                let ticks = prev.consecutive_ticks + 1;
                let peak = if prev.peak_saturation_tenths >= p.top_thread_saturation_tenths {
                    prev.peak_saturation_tenths
                } else {
                    p.top_thread_saturation_tenths
                };
                let sustained_seconds = ticks * self.tick_interval_secs;
                self.tracked_threads.insert(key, TrackedHighLoad { consecutive_ticks: ticks, peak_saturation_tenths: peak });
                if ticks >= self.min_consecutive_ticks {
                    let reason = make_reason(peak, sustained_seconds, p.is_orphan);
                    let alert = RogueAlert {
                        pid: p.pid,
                        ppid: p.ppid,
                        process_name: p.name.clone(),
                        thread_id: 0,
                        single_core_saturation_tenths: peak,
                        total_process_cpu_tenths: p.total_cpu_tenths,
                        sustained_seconds,
                        is_orphan: p.is_orphan,
                        reason,
                    };
                    alerts.push(alert);
                    assert(alerts_view(alerts@) =~= before.alerts.push(alert_for(p@, peak, sustained_seconds)));
                }
            }
            i = i + 1;
        }
        assert(procs.take(processes@.len() as int) =~= procs);
        // Clean up pairs that have calmed down
        let ghost folded = self.loads();
        let mut kept: HashMap<u64, TrackedHighLoad> = HashMap::new();
        let mut k: usize = 0;
        while k < active_keys.len()
            invariant
                k <= active_keys@.len(),
                self.loads() == folded,
                cfg == self.config(),
                kept@ == folded.restrict(active_keys@.take(k as int).to_set()),
                forall|j: int| 0 <= j < active_keys@.len() ==> folded.contains_key(#[trigger] active_keys@[j]),
            decreases active_keys@.len() - k,
        {
            let key = active_keys[k];
            let v = *self.tracked_threads.get(&key).unwrap();
            kept.insert(key, v);
            proof {
                active_keys@.lemma_take_succ_push(k as int);
                active_keys@.take(k as int).lemma_push_to_set_commute(key);
            }
            assert(kept@ =~= folded.restrict(active_keys@.take(k + 1).to_set()));
            k = k + 1;
        }
        assert(active_keys@.take(active_keys@.len() as int) =~= active_keys@);
        self.tracked_threads = kept;
        alerts
    }

    pub fn set_saturation_threshold(&mut self, threshold_tenths: u32)
        ensures
            final(self).config() == (EvalConfig { saturation_threshold_tenths: threshold_tenths, ..old(self).config() }),
            final(self).loads() == old(self).loads(),
    {
        self.saturation_threshold_tenths = threshold_tenths;
    }

    pub fn saturation_threshold(&self) -> (r: u32)
        ensures
            r == self.config().saturation_threshold_tenths,
    {
        self.saturation_threshold_tenths
    }
}

impl Default for HeuristicEngine {
    /// Threshold 80.0%, 5 ticks of 2 seconds: 10 seconds of saturation.
    fn default() -> (r: HeuristicEngine)
        ensures
            r.loads() == Map::<u64, TrackedHighLoad>::empty(),
            r.config() == (EvalConfig {
                safety: Set::<Seq<char>>::empty(),
                saturation_threshold_tenths: 800,
                min_consecutive_ticks: 5,
                tick_interval_secs: 2,
            }),
    {
        HeuristicEngine::new(SafetyEngine::new(), 800, 5, 2)
    }
}

/// Builds the reason text of an alert.
fn make_reason(peak_tenths: u32, sustained_seconds: u32, is_orphan: bool) -> (r: String)
    ensures
        r@ == alert_reason(peak_tenths, sustained_seconds, is_orphan),
{
    let mut s = String::new();
    s.append("Sustained single-core saturation: ");
    push_one_decimal(&mut s, peak_tenths);
    s.append("% for ");
    push_decimal(&mut s, sustained_seconds);
    s.append("s");
    if is_orphan {
        s.append(" | ");
        s.append("Orphaned background process (parent dead)");
    }
    assert(s@ =~= alert_reason(peak_tenths, sustained_seconds, is_orphan));
    s
}

/// Once an evaluation leaves the range of `u32`, it stays out of it.
proof fn lemma_fold_fits_monotone(cfg: EvalConfig, loads: Map<u64, TrackedHighLoad>, procs: Seq<ProcessSampleView>)
    ensures
        forall|j: int| 0 <= j <= procs.len() && eval_fold(cfg, loads, procs).fits ==> #[trigger] eval_fold(cfg, loads, procs.take(j)).fits,
    decreases procs.len(),
{
    if procs.len() > 0 {
        lemma_fold_fits_monotone(cfg, loads, procs.drop_last());
        assert forall|j: int| 0 <= j <= procs.len() && eval_fold(cfg, loads, procs).fits implies #[trigger] eval_fold(cfg, loads, procs.take(j)).fits by {
            if j == procs.len() {
                assert(procs.take(j) =~= procs);
            } else {
                assert(procs.drop_last().take(j) =~= procs.take(j));
            }
        }
    } else {
        assert forall|j: int| 0 <= j <= procs.len() implies #[trigger] eval_fold(cfg, loads, procs.take(j)).fits by {
            assert(procs.take(j) =~= procs);
        }
    }
}


/// Every alert of an evaluation is for an unprotected process whose top
/// thread was at or above the threshold in this tick; it reports a peak at
/// or above the threshold and a duration of at least
/// `min_consecutive_ticks * tick_interval_secs` seconds.
pub proof fn law_alerts_are_sound(cfg: EvalConfig, loads: Map<u64, TrackedHighLoad>, procs: Seq<ProcessSampleView>)
    requires
        eval_fold(cfg, loads, procs).fits,
    ensures
        forall|k: int| 0 <= k < eval_fold(cfg, loads, procs).alerts.len() ==> {
            let a = #[trigger] eval_fold(cfg, loads, procs).alerts[k];
            &&& !crate::safety::immune_name(crate::safety::normalized(a.process_name), cfg.safety)
            &&& a.single_core_saturation_tenths >= cfg.saturation_threshold_tenths
            &&& a.sustained_seconds >= cfg.min_consecutive_ticks * cfg.tick_interval_secs
            &&& exists|i: int| 0 <= i < procs.len() && (#[trigger] procs[i]).pid == a.pid
                && procs[i].name == a.process_name
                && procs[i].top_thread_saturation_tenths >= cfg.saturation_threshold_tenths
        },
    decreases procs.len(),
{
    if procs.len() > 0 {
        let rest = procs.drop_last();
        let p = procs.last();
        lemma_fold_fits_monotone(cfg, loads, procs);
        assert(procs.take(rest.len() as int) =~= rest);
        law_alerts_are_sound(cfg, loads, rest);
        let before = eval_fold(cfg, loads, rest);
        let after = eval_fold(cfg, loads, procs);
        assert forall|k: int| 0 <= k < after.alerts.len() implies {
            let a = #[trigger] after.alerts[k];
            &&& !crate::safety::immune_name(crate::safety::normalized(a.process_name), cfg.safety)
            &&& a.single_core_saturation_tenths >= cfg.saturation_threshold_tenths
            &&& a.sustained_seconds >= cfg.min_consecutive_ticks * cfg.tick_interval_secs
            &&& exists|i: int| 0 <= i < procs.len() && (#[trigger] procs[i]).pid == a.pid
                && procs[i].name == a.process_name
                && procs[i].top_thread_saturation_tenths >= cfg.saturation_threshold_tenths
        } by {
            if k < before.alerts.len() {
                let a = before.alerts[k];
                assert(after.alerts[k] == a);
                let i = choose|i: int| 0 <= i < rest.len() && (#[trigger] rest[i]).pid == a.pid
                    && rest[i].name == a.process_name
                    && rest[i].top_thread_saturation_tenths >= cfg.saturation_threshold_tenths;
                assert(procs[i] == rest[i]);
            } else {
                let key = track_key(p.pid, 0);
                let prev = if before.loads.contains_key(key) {
                    before.loads[key]
                } else {
                    TrackedHighLoad { consecutive_ticks: 0, peak_saturation_tenths: 0 }
                };
                let ticks: int = prev.consecutive_ticks + 1;
                let m = cfg.min_consecutive_ticks as int;
                let d = cfg.tick_interval_secs as int;
                assert(ticks * d >= m * d) by (nonlinear_arith)
                    requires ticks >= m, d >= 0;
                assert(procs[procs.len() - 1] == p);
            }
        }
    }
}

/// Whether an evaluation under `cfg` counts the sample `p` as a high load:
/// an unprotected process whose top thread is at or above the threshold.
pub open spec fn high_load(cfg: EvalConfig, p: ProcessSampleView) -> bool {
    !protected(cfg, p) && p.top_thread_saturation_tenths >= cfg.saturation_threshold_tenths
}

/// Whether the table `procs` holds a high-load sample of process `pid`.
pub open spec fn high_load_in(cfg: EvalConfig, procs: Seq<ProcessSampleView>, pid: u32) -> bool {
    exists|i: int| 0 <= i < procs.len() && (#[trigger] procs[i]).pid == pid && high_load(cfg, procs[i])
}

/// Whether no two samples of `procs` share a pid.
pub open spec fn distinct_pids(procs: Seq<ProcessSampleView>) -> bool {
    forall|i: int, j: int| 0 <= i < j < procs.len() ==> (#[trigger] procs[i]).pid != (#[trigger] procs[j]).pid
}

/// The ticks tracked for process `pid` before an evaluation (0 if untracked).
pub open spec fn prior_ticks(loads: Map<u64, TrackedHighLoad>, pid: u32) -> int {
    if loads.contains_key(track_key(pid, 0)) {
        loads[track_key(pid, 0)].consecutive_ticks as int
    } else {
        0
    }
}

/// Whether `alerts` holds an alert for process `pid`.
pub open spec fn has_alert_for(alerts: Seq<RogueAlertView>, pid: u32) -> bool {
    exists|k: int| 0 <= k < alerts.len() && (#[trigger] alerts[k]).pid == pid
}

/// The tracking after a history of evaluations, each with the settings in
/// force at its call and the table it saw, starting from no tracking.
pub open spec fn history_loads(history: Seq<(EvalConfig, Seq<ProcessSampleView>)>) -> Map<u64, TrackedHighLoad>
    decreases history.len(),
{
    if history.len() == 0 {
        Map::empty()
    } else {
        let r = eval_fold(history.last().0, history_loads(history.drop_last()), history.last().1);
        r.loads.restrict(r.active.to_set())
    }
}

/// The last evaluation of a non-empty history.
pub open spec fn last_evaluation(history: Seq<(EvalConfig, Seq<ProcessSampleView>)>) -> EvalProgress {
    eval_fold(history.last().0, history_loads(history.drop_last()), history.last().1)
}

/// Whether every evaluation of a history kept its counts within `u32`.
pub open spec fn history_fits(history: Seq<(EvalConfig, Seq<ProcessSampleView>)>) -> bool
    decreases history.len(),
{
    history.len() == 0 || (history_fits(history.drop_last()) && last_evaluation(history).fits)
}

/// How many evaluations in a row, ending with the last, saw process `pid`
/// as a high load.
pub open spec fn streak(history: Seq<(EvalConfig, Seq<ProcessSampleView>)>, pid: u32) -> nat
    decreases history.len(),
{
    if history.len() == 0 {
        0
    } else if high_load_in(history.last().0, history.last().1, pid) {
        streak(history.drop_last(), pid) + 1
    } else {
        0
    }
}

proof fn lemma_track_key_injective(a: u32, b: u32)
    ensures
        track_key(a, 0) == track_key(b, 0) ==> a == b,
{
    assert(0 <= a as int * 0x1_0000_0000 <= 0xffff_ffff_ffff_ffff);
    assert(0 <= b as int * 0x1_0000_0000 <= 0xffff_ffff_ffff_ffff);
}

/// One evaluation of a table with distinct pids, seen from one process.
proof fn lemma_eval_fold_for_pid(cfg: EvalConfig, loads: Map<u64, TrackedHighLoad>, procs: Seq<ProcessSampleView>, pid: u32)
    requires
        distinct_pids(procs),
        eval_fold(cfg, loads, procs).fits,
    ensures
        eval_fold(cfg, loads, procs).active.contains(track_key(pid, 0)) <==> high_load_in(cfg, procs, pid),
        high_load_in(cfg, procs, pid) ==> eval_fold(cfg, loads, procs).loads.contains_key(track_key(pid, 0))
            && eval_fold(cfg, loads, procs).loads[track_key(pid, 0)].consecutive_ticks == prior_ticks(loads, pid) + 1,
        !high_load_in(cfg, procs, pid) ==> eval_fold(cfg, loads, procs).loads.contains_key(track_key(pid, 0))
            == loads.contains_key(track_key(pid, 0)) && (loads.contains_key(track_key(pid, 0))
            ==> eval_fold(cfg, loads, procs).loads[track_key(pid, 0)] == loads[track_key(pid, 0)]),
        has_alert_for(eval_fold(cfg, loads, procs).alerts, pid) <==> high_load_in(cfg, procs, pid)
            && prior_ticks(loads, pid) + 1 >= cfg.min_consecutive_ticks,
    decreases procs.len(),
{
    let key = track_key(pid, 0);
    let r = eval_fold(cfg, loads, procs);
    if procs.len() == 0 {
        assert(!high_load_in(cfg, procs, pid));
        assert(!r.active.contains(key));
        assert(!has_alert_for(r.alerts, pid));
    } else {
        let rest = procs.drop_last();
        let p = procs.last();
        let q = p.pid;
        let n = procs.len() - 1;
        assert(procs[n] == p);
        assert forall|i: int, j: int| 0 <= i < j < rest.len() implies (#[trigger] rest[i]).pid != (#[trigger] rest[j]).pid by {
            assert(rest[i] == procs[i] && rest[j] == procs[j]);
        }
        let st = eval_fold(cfg, loads, rest);
        assert(r == eval_step(cfg, st, p));
        assert(st.fits);
        lemma_eval_fold_for_pid(cfg, loads, rest, pid);
        lemma_eval_fold_for_pid(cfg, loads, rest, q);
        lemma_track_key_injective(pid, q);
        assert(!high_load_in(cfg, rest, q)) by {
            if high_load_in(cfg, rest, q) {
                let i = choose|i: int| 0 <= i < rest.len() && (#[trigger] rest[i]).pid == q && high_load(cfg, rest[i]);
                assert(procs[i] == rest[i]);
                assert(procs[i].pid != procs[n].pid);
            }
        }
        assert(high_load_in(cfg, procs, pid) <==> high_load_in(cfg, rest, pid) || (q == pid && high_load(cfg, p))) by {
            if high_load_in(cfg, procs, pid) {
                let i = choose|i: int| 0 <= i < procs.len() && (#[trigger] procs[i]).pid == pid && high_load(cfg, procs[i]);
                if i < n {
                    assert(rest[i] == procs[i]);
                }
            }
            if high_load_in(cfg, rest, pid) {
                let i = choose|i: int| 0 <= i < rest.len() && (#[trigger] rest[i]).pid == pid && high_load(cfg, rest[i]);
                assert(procs[i] == rest[i]);
            }
        }
        if high_load(cfg, p) {
            let kq = track_key(q, 0);
            assert(r.active == st.active.push(kq));
            assert(r.active.contains(key) <==> st.active.contains(key) || key == kq) by {
                if r.active.contains(key) {
                    let j = choose|j: int| 0 <= j < r.active.len() && r.active[j] == key;
                    if j < st.active.len() {
                        assert(st.active[j] == key);
                    }
                }
                if st.active.contains(key) {
                    let j = choose|j: int| 0 <= j < st.active.len() && st.active[j] == key;
                    assert(r.active[j] == key);
                }
                if key == kq {
                    assert(r.active[st.active.len() as int] == kq);
                }
            }
            assert(has_alert_for(r.alerts, pid) <==> has_alert_for(st.alerts, pid)
                || (q == pid && prior_ticks(loads, q) + 1 >= cfg.min_consecutive_ticks)) by {
                if has_alert_for(r.alerts, pid) {
                    let k = choose|k: int| 0 <= k < r.alerts.len() && (#[trigger] r.alerts[k]).pid == pid;
                    if k < st.alerts.len() {
                        assert(r.alerts[k] == st.alerts[k]);
                    }
                }
                if has_alert_for(st.alerts, pid) {
                    let k = choose|k: int| 0 <= k < st.alerts.len() && (#[trigger] st.alerts[k]).pid == pid;
                    if prior_ticks(loads, q) + 1 >= cfg.min_consecutive_ticks {
                        assert(r.alerts[k] == st.alerts[k]);
                    }
                }
                if q == pid && prior_ticks(loads, q) + 1 >= cfg.min_consecutive_ticks {
                    assert(r.alerts[st.alerts.len() as int].pid == q);
                }
            }
        } else {
            assert(r == st);
        }
    }
}

/// An evaluation of a table with distinct pids raises at most one alert per
/// process.
proof fn lemma_eval_alerts_distinct(cfg: EvalConfig, loads: Map<u64, TrackedHighLoad>, procs: Seq<ProcessSampleView>)
    requires
        distinct_pids(procs),
        eval_fold(cfg, loads, procs).fits,
    ensures
        forall|a: int, b: int| 0 <= a < b < eval_fold(cfg, loads, procs).alerts.len()
            ==> (#[trigger] eval_fold(cfg, loads, procs).alerts[a]).pid != (#[trigger] eval_fold(cfg, loads, procs).alerts[b]).pid,
    decreases procs.len(),
{
    if procs.len() > 0 {
        let rest = procs.drop_last();
        let p = procs.last();
        let q = p.pid;
        let n = procs.len() - 1;
        assert(procs[n] == p);
        assert forall|i: int, j: int| 0 <= i < j < rest.len() implies (#[trigger] rest[i]).pid != (#[trigger] rest[j]).pid by {
            assert(rest[i] == procs[i] && rest[j] == procs[j]);
        }
        let st = eval_fold(cfg, loads, rest);
        let r = eval_fold(cfg, loads, procs);
        assert(r == eval_step(cfg, st, p));
        assert(st.fits);
        lemma_eval_alerts_distinct(cfg, loads, rest);
        lemma_eval_fold_for_pid(cfg, loads, rest, q);
        assert(!high_load_in(cfg, rest, q)) by {
            if high_load_in(cfg, rest, q) {
                let i = choose|i: int| 0 <= i < rest.len() && (#[trigger] rest[i]).pid == q && high_load(cfg, rest[i]);
                assert(procs[i] == rest[i]);
                assert(procs[i].pid != procs[n].pid);
            }
        }
        assert forall|a: int, b: int| 0 <= a < b < r.alerts.len() implies (#[trigger] r.alerts[a]).pid != (#[trigger] r.alerts[b]).pid by {
            if b < st.alerts.len() {
                assert(r.alerts[a] == st.alerts[a] && r.alerts[b] == st.alerts[b]);
            } else {
                assert(r.alerts[a] == st.alerts[a]);
                assert(r.alerts[b].pid == q);
                if st.alerts[a].pid == q {
                    assert(has_alert_for(st.alerts, q));
                }
            }
        }
    }
}

/// Runaway detection over any history of evaluations, each of a table in
/// which no pid occurs twice: process `pid` is tracked exactly while its
/// streak of consecutive high-load evaluations is running, with that streak
/// as its tick count, and the last evaluation raises an alert for it
/// exactly when it is a high load there and the streak has reached
/// `min_consecutive_ticks`, never more than one alert per process.
pub proof fn law_alert_exactly_after_min_consecutive_ticks(
    history: Seq<(EvalConfig, Seq<ProcessSampleView>)>,
    pid: u32,
)
    requires
        forall|k: int| 0 <= k < history.len() ==> distinct_pids(#[trigger] history[k].1),
        history_fits(history),
    ensures
        history_loads(history).contains_key(track_key(pid, 0)) <==> streak(history, pid) > 0,
        history_loads(history).contains_key(track_key(pid, 0))
            ==> history_loads(history)[track_key(pid, 0)].consecutive_ticks == streak(history, pid),
        history.len() > 0 ==> (has_alert_for(last_evaluation(history).alerts, pid)
            <==> high_load_in(history.last().0, history.last().1, pid)
            && streak(history, pid) >= history.last().0.min_consecutive_ticks),
        history.len() > 0 ==> forall|a: int, b: int| 0 <= a < b < last_evaluation(history).alerts.len()
            ==> (#[trigger] last_evaluation(history).alerts[a]).pid != (#[trigger] last_evaluation(history).alerts[b]).pid,
    decreases history.len(),
{
    if history.len() > 0 {
        let rest = history.drop_last();
        assert forall|k: int| 0 <= k < rest.len() implies distinct_pids(#[trigger] rest[k].1) by {
            assert(rest[k] == history[k]);
        }
        law_alert_exactly_after_min_consecutive_ticks(rest, pid);
        let (cfg, procs) = history.last();
        assert(distinct_pids(history[history.len() - 1].1));
        let prev = history_loads(rest);
        let r = eval_fold(cfg, prev, procs);
        lemma_eval_fold_for_pid(cfg, prev, procs, pid);
        lemma_eval_alerts_distinct(cfg, prev, procs);
        let key = track_key(pid, 0);
        assert(r.active.to_set().contains(key) <==> r.active.contains(key));
        assert(prior_ticks(prev, pid) == streak(rest, pid));
    }
}

/// The high-load sample of process `pid` in `procs`, when there is one.
pub open spec fn high_load_sample(cfg: EvalConfig, procs: Seq<ProcessSampleView>, pid: u32) -> ProcessSampleView {
    procs[choose|i: int| 0 <= i < procs.len() && (#[trigger] procs[i]).pid == pid && high_load(cfg, procs[i])]
}

/// The peak tracked for process `pid` before an evaluation (0 if untracked).
pub open spec fn prior_peak(loads: Map<u64, TrackedHighLoad>, pid: u32) -> u32 {
    if loads.contains_key(track_key(pid, 0)) {
        loads[track_key(pid, 0)].peak_saturation_tenths
    } else {
        0
    }
}

/// The larger of two saturations.
pub open spec fn max_u32(a: u32, b: u32) -> u32 {
    if a >= b {
        a
    } else {
        b
    }
}

proof fn lemma_high_load_sample_unique(cfg: EvalConfig, procs: Seq<ProcessSampleView>, i: int)
    requires
        distinct_pids(procs),
        0 <= i < procs.len(),
        high_load(cfg, procs[i]),
    ensures
        high_load_sample(cfg, procs, procs[i].pid) == procs[i],
{
    let pid = procs[i].pid;
    assert(procs[i].pid == pid && high_load(cfg, procs[i]));
    let j = choose|j: int| 0 <= j < procs.len() && (#[trigger] procs[j]).pid == pid && high_load(cfg, procs[j]);
    if j < i {
        assert(procs[j].pid != procs[i].pid);
    } else if i < j {
        assert(procs[i].pid != procs[j].pid);
    }
}

/// One evaluation of a table with distinct pids: the peak tracked for a
/// high-load process and every alert for it.
proof fn lemma_eval_fold_alert_fields(cfg: EvalConfig, loads: Map<u64, TrackedHighLoad>, procs: Seq<ProcessSampleView>, pid: u32)
    requires
        distinct_pids(procs),
        eval_fold(cfg, loads, procs).fits,
    ensures
        high_load_in(cfg, procs, pid) ==> eval_fold(cfg, loads, procs).loads[track_key(pid, 0)].peak_saturation_tenths
            == max_u32(prior_peak(loads, pid), high_load_sample(cfg, procs, pid).top_thread_saturation_tenths),
        forall|k: int| 0 <= k < eval_fold(cfg, loads, procs).alerts.len()
            && (#[trigger] eval_fold(cfg, loads, procs).alerts[k]).pid == pid ==> {
                &&& (prior_ticks(loads, pid) + 1) * cfg.tick_interval_secs <= u32::MAX
                &&& eval_fold(cfg, loads, procs).alerts[k] == alert_for(
                    high_load_sample(cfg, procs, pid),
                    max_u32(prior_peak(loads, pid), high_load_sample(cfg, procs, pid).top_thread_saturation_tenths),
                    ((prior_ticks(loads, pid) + 1) * cfg.tick_interval_secs) as u32,
                )
            },
    decreases procs.len(),
{
    let key = track_key(pid, 0);
    let r = eval_fold(cfg, loads, procs);
    if procs.len() > 0 {
        let rest = procs.drop_last();
        let p = procs.last();
        let q = p.pid;
        let n = procs.len() - 1;
        assert(procs[n] == p);
        assert forall|i: int, j: int| 0 <= i < j < rest.len() implies (#[trigger] rest[i]).pid != (#[trigger] rest[j]).pid by {
            assert(rest[i] == procs[i] && rest[j] == procs[j]);
        }
        let st = eval_fold(cfg, loads, rest);
        assert(r == eval_step(cfg, st, p));
        assert(st.fits);
        lemma_eval_fold_alert_fields(cfg, loads, rest, pid);
        lemma_eval_fold_for_pid(cfg, loads, rest, pid);
        lemma_eval_fold_for_pid(cfg, loads, rest, q);
        lemma_eval_fold_for_pid(cfg, loads, procs, pid);
        lemma_track_key_injective(pid, q);
        assert(!high_load_in(cfg, rest, q)) by {
            if high_load_in(cfg, rest, q) {
                let i = choose|i: int| 0 <= i < rest.len() && (#[trigger] rest[i]).pid == q && high_load(cfg, rest[i]);
                assert(procs[i] == rest[i]);
                assert(procs[i].pid != procs[n].pid);
            }
        }
        if high_load_in(cfg, rest, pid) {
            let i = choose|i: int| 0 <= i < rest.len() && (#[trigger] rest[i]).pid == pid && high_load(cfg, rest[i]);
            assert(procs[i] == rest[i]);
            lemma_high_load_sample_unique(cfg, rest, i);
            lemma_high_load_sample_unique(cfg, procs, i);
        }
        if high_load(cfg, p) {
            lemma_high_load_sample_unique(cfg, procs, n);
            if pid == q {
                assert(!has_alert_for(st.alerts, q));
                assert forall|k: int| 0 <= k < r.alerts.len() && (#[trigger] r.alerts[k]).pid == pid implies k == st.alerts.len() by {
                    if k < st.alerts.len() {
                        assert(r.alerts[k] == st.alerts[k]);
                        assert(has_alert_for(st.alerts, q));
                    }
                }
            } else {
                assert forall|k: int| 0 <= k < r.alerts.len() && (#[trigger] r.alerts[k]).pid == pid implies k < st.alerts.len()
                    && r.alerts[k] == st.alerts[k] by {
                    if k >= st.alerts.len() {
                        assert(r.alerts[k].pid == q);
                    }
                }
                if high_load_in(cfg, procs, pid) {
                    assert(high_load_in(cfg, rest, pid));
                }
            }
        } else {
            if high_load_in(cfg, procs, pid) {
                let i = choose|i: int| 0 <= i < procs.len() && (#[trigger] procs[i]).pid == pid && high_load(cfg, procs[i]);
                assert(i != n);
                assert(rest[i] == procs[i]);
                assert(high_load_in(cfg, rest, pid));
            }
        }
    }
}

/// The peak saturation of process `pid` over its current streak of
/// high-load evaluations (0 when there is none).
pub open spec fn streak_peak(history: Seq<(EvalConfig, Seq<ProcessSampleView>)>, pid: u32) -> u32
    decreases history.len(),
{
    if history.len() == 0 {
        0
    } else if high_load_in(history.last().0, history.last().1, pid) {
        max_u32(streak_peak(history.drop_last(), pid), high_load_sample(history.last().0, history.last().1, pid).top_thread_saturation_tenths)
    } else {
        0
    }
}

/// What an alert reports over a history of evaluations, each of a table in
/// which no pid occurs twice: the process as the last table shows it, the
/// highest saturation over its current streak, and a duration of the
/// streak's length times the tick interval of the last evaluation; its
/// reason is `alert_reason` of these, which names the orphan only for an
/// orphan.
pub proof fn law_alert_reports_streak_peak_and_duration(
    history: Seq<(EvalConfig, Seq<ProcessSampleView>)>,
    pid: u32,
)
    requires
        forall|k: int| 0 <= k < history.len() ==> distinct_pids(#[trigger] history[k].1),
        history_fits(history),
    ensures
        history_loads(history).contains_key(track_key(pid, 0))
            ==> history_loads(history)[track_key(pid, 0)].peak_saturation_tenths == streak_peak(history, pid),
        history.len() > 0 ==> forall|k: int| 0 <= k < last_evaluation(history).alerts.len()
            && (#[trigger] last_evaluation(history).alerts[k]).pid == pid ==> {
                &&& streak(history, pid) * history.last().0.tick_interval_secs <= u32::MAX
                &&& last_evaluation(history).alerts[k] == alert_for(
                    high_load_sample(history.last().0, history.last().1, pid),
                    streak_peak(history, pid),
                    (streak(history, pid) * history.last().0.tick_interval_secs) as u32,
                )
            },
    decreases history.len(),
{
    if history.len() > 0 {
        let rest = history.drop_last();
        assert forall|k: int| 0 <= k < rest.len() implies distinct_pids(#[trigger] rest[k].1) by {
            assert(rest[k] == history[k]);
        }
        law_alert_reports_streak_peak_and_duration(rest, pid);
        law_alert_exactly_after_min_consecutive_ticks(rest, pid);
        let (cfg, procs) = history.last();
        assert(distinct_pids(history[history.len() - 1].1));
        let prev = history_loads(rest);
        let r = eval_fold(cfg, prev, procs);
        lemma_eval_fold_for_pid(cfg, prev, procs, pid);
        lemma_eval_fold_alert_fields(cfg, prev, procs, pid);
        let key = track_key(pid, 0);
        assert(r.active.to_set().contains(key) <==> r.active.contains(key));
        assert(prior_ticks(prev, pid) == streak(rest, pid));
        if !prev.contains_key(key) {
            assert(streak(rest, pid) == 0);
            assert(streak_peak(rest, pid) == 0);
        }
        assert(prior_peak(prev, pid) == streak_peak(rest, pid));
    }
}

/// An alert's reason ends with the orphan note exactly for an orphan.
pub proof fn law_alert_reason_names_orphans_only(peak_tenths: u32, sustained_seconds: u32, is_orphan: bool)
    ensures
        ({
            let r = alert_reason(peak_tenths, sustained_seconds, is_orphan);
            let o = "Orphaned background process (parent dead)"@;
            r.len() >= o.len() && r.subrange(r.len() - o.len(), r.len() as int) == o
        }) <==> is_orphan,
{
    reveal_strlit("Orphaned background process (parent dead)");
    reveal_strlit("s");
    let r = alert_reason(peak_tenths, sustained_seconds, is_orphan);
    let o = "Orphaned background process (parent dead)"@;
    let first = "Sustained single-core saturation: "@ + one_decimal(peak_tenths as nat) + "% for "@
        + decimal(sustained_seconds as nat) + "s"@;
    if is_orphan {
        assert(r == first + " | "@ + o);
        assert(r.subrange(r.len() - o.len(), r.len() as int) =~= o);
    } else {
        assert(r == first);
        assert(r.last() == 's');
        if r.len() >= o.len() && r.subrange(r.len() - o.len(), r.len() as int) == o {
            assert(r.subrange(r.len() - o.len(), r.len() as int)[o.len() - 1] == r.last());
            assert(o[o.len() - 1] == ')');
        }
    }
}

} // verus!
