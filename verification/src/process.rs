//! CPU accounting over consecutive snapshots of the process and thread
//! tables: per-process CPU share, single-core saturation of the busiest
//! thread, orphan detection.
//!
//! Reading the tables and the CPU times is the caller's work. A tick goes:
//! read the process table with each process's times, then ask
//! `threads_to_inspect` which threads' times are needed, read those, and
//! hand everything to `sample`. Times are in units of 100 ns; the clock is
//! any monotonic clock in the same units. Percentages are in tenths of a
//! percent; one that would not fit in `u32` is reported as `u32::MAX`.
use vstd::prelude::*;
use std::collections::HashMap;
use crate::text::str_eq;
use crate::types::{ProcessSample, ProcessSampleView, samples_view};

verus! {

broadcast use vstd::std_specs::hash::group_hash_axioms;

/// A process as the process table lists it, with its kernel and user CPU
/// times if they could be read.
#[derive(Debug, Clone)]
pub struct ProcessReading {
    pub pid: u32,
    pub ppid: u32,
    pub name: String,
    pub times: Option<(u64, u64)>,
}

pub struct ProcessReadingView {
    pub pid: u32,
    pub ppid: u32,
    pub name: Seq<char>,
    pub times: Option<(u64, u64)>,
}

impl View for ProcessReading {
    type V = ProcessReadingView;

    open spec fn view(&self) -> ProcessReadingView {
        ProcessReadingView { pid: self.pid, ppid: self.ppid, name: self.name@, times: self.times }
    }
}

pub open spec fn readings_view(s: Seq<ProcessReading>) -> Seq<ProcessReadingView> {
    s.map_values(|r: ProcessReading| r@)
}

/// The CPU times of a process at its last sample.
#[derive(Debug, Clone, Copy, PartialEq, Eq)]
pub struct ProcessPrevTimes {
    pub kernel: u64,
    pub user: u64,
    pub timestamp_100ns: u64,
}

/// The CPU times of a thread at its inspection in the previous sample, and
/// when they were read.
#[derive(Debug, Clone, Copy, PartialEq, Eq)]
pub struct ThreadPrevTimes {
    pub kernel: u64,
    pub user: u64,
    pub timestamp_100ns: u64,
}

/// `a - b`, or 0 when `b > a`.
pub open spec fn sat_diff(a: u64, b: u64) -> int {
    if a >= b {
        a - b
    } else {
        0
    }
}

/// `num / den` in tenths of a percent, rounded down, capped at `u32::MAX`.
pub open spec fn tenths_of_percent(num: int, den: int) -> u32 {
    let q = num * 1000 / den;
    if q > u32::MAX {
        u32::MAX
    } else {
        q as u32
    }
}

/// The thread ids of process `pid`, in table order.
pub open spec fn tids_of(threads: Seq<(u32, u32)>, pid: u32) -> Seq<u32>
    decreases threads.len(),
{
    if threads.len() == 0 {
        Seq::empty()
    } else if threads.last().1 == pid {
        tids_of(threads.drop_last(), pid).push(threads.last().0)
    } else {
        tids_of(threads.drop_last(), pid)
    }
}

/// The number of threads the table lists for `pid`, or 1 when it lists none.
pub open spec fn thread_count_of(threads: Seq<(u32, u32)>, pid: u32) -> usize {
    if tids_of(threads, pid).len() == 0 {
        1
    } else {
        tids_of(threads, pid).len() as usize
    }
}

/// Whether a process's parent is gone: it names a parent that is not in the
/// table, and it is neither the System process (pid 4) nor `smss.exe`.
pub open spec fn orphaned(r: ProcessReadingView, pids: Set<u32>) -> bool {
    r.ppid > 0 && !pids.contains(r.ppid) && r.pid != 4 && r.name != "smss.exe"@
}

/// The pids of a process table.
pub open spec fn pids_of(procs: Seq<ProcessReadingView>) -> Set<u32> {
    procs.map_values(|r: ProcessReadingView| r.pid).to_set()
}

/// For a process with times and a baseline older than 10 ms: its CPU time
/// since the baseline and the wall time elapsed.
pub open spec fn cpu_delta(prev: Map<u32, ProcessPrevTimes>, r: ProcessReadingView, now: u64) -> Option<(int, int)> {
    if r.times is Some && prev.contains_key(r.pid) && sat_diff(now, prev[r.pid].timestamp_100ns) > 100_000 {
        let p = prev[r.pid];
        Some((sat_diff((r.times->0).0, p.kernel) + sat_diff((r.times->0).1, p.user), sat_diff(now, p.timestamp_100ns)))
    } else {
        None
    }
}

/// The CPU share of a process across all cores, when it has a delta.
pub open spec fn cpu_share(prev: Map<u32, ProcessPrevTimes>, r: ProcessReadingView, now: u64, cores: u32) -> u32 {
    match cpu_delta(prev, r, now) {
        Some((delta, wall)) => tenths_of_percent(delta, wall * cores),
        None => 0,
    }
}

/// Whether the threads of a process are inspected: it has a delta and burns
/// at least 0.5% of the machine.
pub open spec fn inspects_threads(prev: Map<u32, ProcessPrevTimes>, r: ProcessReadingView, now: u64, cores: u32) -> bool {
    cpu_delta(prev, r, now) is Some && cpu_share(prev, r, now, cores) >= 5
}

/// The outcome of inspecting some threads.
pub struct ThreadInspection {
    /// Thread baselines afterwards.
    pub baselines: Map<u32, ThreadPrevTimes>,
    /// The highest single-core saturation seen.
    pub top: u32,
    /// The threads whose times were read, in order.
    pub refreshed: Seq<u32>,
}

/// Inspection of the threads `tids` at time `now`. A thread's saturation is
/// its CPU time since its baseline over the time elapsed since that
/// baseline was read.
pub open spec fn thread_fold(
    prev: Map<u32, ThreadPrevTimes>,
    tids: Seq<u32>,
    times: Map<u32, (u64, u64)>,
    now: u64,
) -> ThreadInspection
    decreases tids.len(),
{
    if tids.len() == 0 {
        ThreadInspection { baselines: prev, top: 0, refreshed: Seq::empty() }
    } else {
        let st = thread_fold(prev, tids.drop_last(), times, now);
        let pt = st.baselines;
        let tid = tids.last();
        if times.contains_key(tid) {
            let (k, u) = times[tid];
            let top2 = if pt.contains_key(tid) && sat_diff(now, pt[tid].timestamp_100ns) > 0 {
                let sat = tenths_of_percent(
                    sat_diff(k, pt[tid].kernel) + sat_diff(u, pt[tid].user),
                    sat_diff(now, pt[tid].timestamp_100ns),
                );
                if sat > st.top {
                    sat
                } else {
                    st.top
                }
            } else {
                st.top
            };
            ThreadInspection {
                baselines: pt.insert(tid, ThreadPrevTimes { kernel: k, user: u, timestamp_100ns: now }),
                top: top2,
                refreshed: st.refreshed.push(tid),
            }
        } else {
            st
        }
    }
}

/// The saturation of thread `tid` against its baseline in `prev`: its CPU
/// time since the baseline over the time elapsed since it, in tenths of a
/// percent; 0 when it has no times, no baseline, or no time has elapsed.
pub open spec fn thread_saturation(prev: Map<u32, ThreadPrevTimes>, times: Map<u32, (u64, u64)>, now: u64, tid: u32) -> u32 {
    if times.contains_key(tid) && prev.contains_key(tid) && sat_diff(now, prev[tid].timestamp_100ns) > 0 {
        tenths_of_percent(
            sat_diff(times[tid].0, prev[tid].kernel) + sat_diff(times[tid].1, prev[tid].user),
            sat_diff(now, prev[tid].timestamp_100ns),
        )
    } else {
        0
    }
}

/// The highest saturation among the threads `tids`, 0 when there is none.
pub open spec fn max_thread_saturation(prev: Map<u32, ThreadPrevTimes>, times: Map<u32, (u64, u64)>, now: u64, tids: Seq<u32>) -> u32
    decreases tids.len(),
{
    if tids.len() == 0 {
        0
    } else {
        let m = max_thread_saturation(prev, times, now, tids.drop_last());
        let x = thread_saturation(prev, times, now, tids.last());
        if x > m {
            x
        } else {
            m
        }
    }
}

/// Whether thread `t` is read during an inspection of `tids`.
pub open spec fn read_in(tids: Seq<u32>, times: Map<u32, (u64, u64)>, t: u32) -> bool {
    tids.contains(t) && times.contains_key(t)
}

proof fn lemma_thread_fold_max(prev: Map<u32, ThreadPrevTimes>, tids: Seq<u32>, times: Map<u32, (u64, u64)>, now: u64)
    ensures
        ({
            let f = thread_fold(prev, tids, times, now);
            &&& f.top == max_thread_saturation(prev, times, now, tids)
            &&& forall|t: u32| #[trigger] tids.contains(t) ==> thread_saturation(prev, times, now, t) <= f.top
            &&& forall|t: u32| !read_in(tids, times, t) ==> (#[trigger] f.baselines.contains_key(t) == prev.contains_key(t)
                && (prev.contains_key(t) ==> f.baselines[t] == prev[t]))
            &&& forall|t: u32| #[trigger] read_in(tids, times, t) ==> f.baselines.contains_key(t)
                && f.baselines[t].timestamp_100ns == now
        }),
    decreases tids.len(),
{
    if tids.len() > 0 {
        let rest = tids.drop_last();
        let tid = tids.last();
        lemma_thread_fold_max(prev, rest, times, now);
        let st = thread_fold(prev, rest, times, now);
        let f = thread_fold(prev, tids, times, now);
        assert forall|t: u32| #[trigger] tids.contains(t) <==> rest.contains(t) || t == tid by {
            if tids.contains(t) {
                let j = choose|j: int| 0 <= j < tids.len() && tids[j] == t;
                if j < rest.len() {
                    assert(rest[j] == t);
                }
            }
            if rest.contains(t) {
                let j = choose|j: int| 0 <= j < rest.len() && rest[j] == t;
                assert(tids[j] == t);
            }
            if t == tid {
                assert(tids[tids.len() - 1] == t);
            }
        }
        assert forall|t: u32| read_in(tids, times, t) <==> read_in(rest, times, t) || (t == tid && times.contains_key(t)) by {
            assert(tids.contains(t) <==> rest.contains(t) || t == tid);
        }
        if times.contains_key(tid) && read_in(rest, times, tid) {
            assert(rest.contains(tid));
            assert(thread_saturation(prev, times, now, tid) <= st.top);
        }
        if times.contains_key(tid) && !read_in(rest, times, tid) {
            assert(st.baselines.contains_key(tid) == prev.contains_key(tid));
        }
    }
}

/// The state of a sample after some prefix of the process table.
pub struct SampleProgress {
    pub prev_procs: Map<u32, ProcessPrevTimes>,
    pub prev_threads: Map<u32, ThreadPrevTimes>,
    /// The threads whose times were read in this sample.
    pub refreshed_threads: Seq<u32>,
    pub samples: Seq<ProcessSampleView>,
    pub total_delta: int,
    pub total_wall: int,
}

/// What a sample reads besides the process table.
pub struct SampleInput {
    pub pids: Set<u32>,
    pub threads: Seq<(u32, u32)>,
    pub thread_times: Map<u32, (u64, u64)>,
    pub now: u64,
    pub cores: u32,
}

/// One process of a sample.
pub open spec fn sample_step(inp: SampleInput, st: SampleProgress, r: ProcessReadingView) -> SampleProgress {
    match r.times {
        None => st,
        Some(t) => {
            let (k, u) = t;
            let share = cpu_share(st.prev_procs, r, inp.now, inp.cores);
            let (ins, total_delta, total_wall) = match cpu_delta(st.prev_procs, r, inp.now) {
                Some((delta, wall)) => {
                    let ins = if share >= 5 {
                        thread_fold(st.prev_threads, tids_of(inp.threads, r.pid), inp.thread_times, inp.now)
                    } else {
                        ThreadInspection { baselines: st.prev_threads, top: 0, refreshed: Seq::empty() }
                    };
                    (ins, st.total_delta + delta, if wall > st.total_wall { wall } else { st.total_wall })
                },
                None => (
                    ThreadInspection { baselines: st.prev_threads, top: 0, refreshed: Seq::empty() },
                    st.total_delta,
                    st.total_wall,
                ),
            };
            let top = ins.top;
            let sample = ProcessSampleView {
                pid: r.pid,
                ppid: r.ppid,
                name: r.name,
                is_orphan: orphaned(r, inp.pids),
                total_cpu_tenths: share,
                top_thread_saturation_tenths: top,
                thread_count: thread_count_of(inp.threads, r.pid),
            };
            SampleProgress {
                prev_procs: st.prev_procs.insert(r.pid, ProcessPrevTimes { kernel: k, user: u, timestamp_100ns: inp.now }),
                prev_threads: ins.baselines,
                refreshed_threads: st.refreshed_threads + ins.refreshed,
                samples: st.samples.push(sample),
                total_delta,
                total_wall,
            }
        },
    }
}

/// A sample of the processes `procs`, in table order.
pub open spec fn sample_fold(
    inp: SampleInput,
    prev_procs: Map<u32, ProcessPrevTimes>,
    prev_threads: Map<u32, ThreadPrevTimes>,
    procs: Seq<ProcessReadingView>,
) -> SampleProgress
    decreases procs.len(),
{
    if procs.len() == 0 {
        SampleProgress { prev_procs, prev_threads, refreshed_threads: Seq::empty(), samples: Seq::empty(), total_delta: 0, total_wall: 0 }
    } else {
        sample_step(inp, sample_fold(inp, prev_procs, prev_threads, procs.drop_last()), procs.last())
    }
}

/// The threads whose times a sample of `procs` looks up, in order, and the
/// process baselines afterwards.
pub open spec fn inspect_plan(
    prev_procs: Map<u32, ProcessPrevTimes>,
    procs: Seq<ProcessReadingView>,
    threads: Seq<(u32, u32)>,
    now: u64,
    cores: u32,
) -> (Map<u32, ProcessPrevTimes>, Seq<u32>)
    decreases procs.len(),
{
    if procs.len() == 0 {
        (prev_procs, Seq::empty())
    } else {
        let (pp, tids) = inspect_plan(prev_procs, procs.drop_last(), threads, now, cores);
        let r = procs.last();
        match r.times {
            None => (pp, tids),
            Some(t) => {
                let pp2 = pp.insert(r.pid, ProcessPrevTimes { kernel: t.0, user: t.1, timestamp_100ns: now });
                if inspects_threads(pp, r, now, cores) {
                    (pp2, tids + tids_of(threads, r.pid))
                } else {
                    (pp2, tids)
                }
            },
        }
    }
}

/// Where `s` is sorted by descending CPU share: the position at which a
/// sample with share `key` goes, after every sample with a share at least
/// as high.
pub open spec fn insert_position(s: Seq<ProcessSampleView>, key: u32) -> int
    decreases s.len(),
{
    if s.len() == 0 {
        0
    } else if s[0].total_cpu_tenths < key {
        0
    } else {
        1 + insert_position(s.drop_first(), key)
    }
}

/// `s` sorted by descending CPU share, samples with equal shares kept in
/// their order in `s`.
pub open spec fn sorted_by_cpu(s: Seq<ProcessSampleView>) -> Seq<ProcessSampleView>
    decreases s.len(),
{
    if s.len() == 0 {
        s
    } else {
        let rest = sorted_by_cpu(s.drop_last());
        rest.insert(insert_position(rest, s.last().total_cpu_tenths), s.last())
    }
}

/// Samples and processes over consecutive ticks.
pub struct ProcessWatcher {
    logical_cores: u32,
    prev_processes: HashMap<u32, ProcessPrevTimes>,
    prev_threads: HashMap<u32, ThreadPrevTimes>,
}

impl ProcessWatcher {
    #[verifier::type_invariant]
    closed spec fn has_cores(&self) -> bool {
        self.logical_cores >= 1
    }

    /// The number of logical processors the shares are normalised to.
    pub closed spec fn cores(&self) -> u32 {
        self.logical_cores
    }

    /// The process baselines kept from earlier samples.
    pub closed spec fn process_baselines(&self) -> Map<u32, ProcessPrevTimes> {
        self.prev_processes@
    }

    /// The thread baselines kept from earlier samples.
    pub closed spec fn thread_baselines(&self) -> Map<u32, ThreadPrevTimes> {
        self.prev_threads@
    }

    /// A watcher with no baselines. `available_parallelism` is the number
    /// of logical processors std reports, if it could tell; 8 is assumed
    /// otherwise.
    pub fn new(available_parallelism: Option<u32>) -> (r: ProcessWatcher)
        requires
            available_parallelism matches Some(n) ==> n >= 1,
        ensures
            r.cores() == match available_parallelism {
                Some(n) => n,
                None => 8,
            },
            r.process_baselines() == Map::<u32, ProcessPrevTimes>::empty(),
            r.thread_baselines() == Map::<u32, ThreadPrevTimes>::empty(),
    {
        let logical_cores = match available_parallelism {
            Some(n) => n,
            None => 8,
        };
        ProcessWatcher { logical_cores, prev_processes: HashMap::new(), prev_threads: HashMap::new() }
    }

    pub fn logical_cores(&self) -> (r: u32)
        ensures
            r == self.cores(),
            r >= 1,
    {
        proof {
            use_type_invariant(self);
        }
        self.logical_cores
    }

    /// The CPU time of process `r` since its baseline and the wall time
    /// elapsed, when it has times and a baseline older than 10 ms.
    fn delta_of(&self, baselines: &HashMap<u32, ProcessPrevTimes>, r: &ProcessReading, now_100ns: u64) -> (d: Option<(u128, u64)>)
        ensures
            d matches Some(x) ==> cpu_delta(baselines@, r@, now_100ns) == Some((x.0 as int, x.1 as int)),
            d is None ==> cpu_delta(baselines@, r@, now_100ns) is None,
    {
        match r.times {
            None => None,
            Some(t) => match baselines.get(&r.pid) {
                None => None,
                Some(p) => {
                    let elapsed = if now_100ns >= p.timestamp_100ns {
                        now_100ns - p.timestamp_100ns
                    } else {
                        0
                    };
                    if elapsed > 100_000 {
                        let dk: u128 = if t.0 >= p.kernel {
                            (t.0 - p.kernel) as u128
                        } else {
                            0
                        };
                        let du: u128 = if t.1 >= p.user {
                            (t.1 - p.user) as u128
                        } else {
                            0
                        };
                        Some((dk + du, elapsed))
                    } else {
                        None
                    }
                },
            },
        }
    }

    /// The threads whose CPU times `sample` needs for these readings, in the
    /// order it looks them up.
    pub fn threads_to_inspect(&self, processes: &[ProcessReading], threads: &[(u32, u32)], now_100ns: u64) -> (r: Vec<u32>)
        ensures
            r@ == inspect_plan(self.process_baselines(), readings_view(processes@), threads@, now_100ns, self.cores()).1,
    {
        proof {
            use_type_invariant(self);
        }
        let ghost procs = readings_view(processes@);
        let mut baselines = self.prev_processes.clone();
        let mut plan: Vec<u32> = Vec::new();
        let mut i: usize = 0;
        while i < processes.len()
            invariant
                i <= processes@.len(),
                procs == readings_view(processes@),
                self.logical_cores >= 1,
                (baselines@, plan@) == inspect_plan(self.process_baselines(), procs.take(i as int), threads@, now_100ns, self.cores()),
            decreases processes@.len() - i,
        {
            let r = &processes[i];
            assert(procs.take(i + 1).drop_last() =~= procs.take(i as int));
            assert(procs.take(i + 1).last() == r@);
            if let Some(t) = r.times {
                let d = self.delta_of(&baselines, r, now_100ns);
                if let Some((delta, wall)) = d {
                    let share = share_tenths(delta, wall, self.logical_cores);
                    if share >= 5 {
                        let tids = tids_for(threads, r.pid);
                        let mut k: usize = 0;
                        let ghost base = plan@;
                        while k < tids.len()
                            invariant
                                k <= tids@.len(),
                                plan@ == base + tids@.take(k as int),
                            decreases tids@.len() - k,
                        {
                            plan.push(tids[k]);
                            assert(tids@.take(k + 1) =~= tids@.take(k as int).push(tids@[k as int]));
                            k = k + 1;
                        }
                        assert(tids@.take(tids@.len() as int) =~= tids@);
                    }
                }
                baselines.insert(r.pid, ProcessPrevTimes { kernel: t.0, user: t.1, timestamp_100ns: now_100ns });
            }
            i = i + 1;
        }
        assert(procs.take(processes@.len() as int) =~= procs);
        plan
    }
}

/// Inspects the threads `tids` at time `now`: updates their baselines,
/// appends the threads whose times were read to `refreshed`, and returns the
/// highest single-core saturation seen.
fn inspect_threads(
    baselines: &mut HashMap<u32, ThreadPrevTimes>,
    refreshed: &mut Vec<u32>,
    tids: &Vec<u32>,
    times: &HashMap<u32, (u64, u64)>,
    now: u64,
) -> (top: u32)
    ensures
        ({
            let ins = thread_fold(old(baselines)@, tids@, times@, now);
            &&& final(baselines)@ == ins.baselines
            &&& top == ins.top
            &&& final(refreshed)@ == old(refreshed)@ + ins.refreshed
        }),
{
    let mut top: u32 = 0;
    let mut k: usize = 0;
    while k < tids.len()
        invariant
            k <= tids@.len(),
            ({
                let ins = thread_fold(old(baselines)@, tids@.take(k as int), times@, now);
                &&& baselines@ == ins.baselines
                &&& top == ins.top
                &&& refreshed@ == old(refreshed)@ + ins.refreshed
            }),
        decreases tids@.len() - k,
    {
        let tid = tids[k];
        assert(tids@.take(k + 1).drop_last() =~= tids@.take(k as int));
        assert(tids@.take(k + 1).last() == tid);
        let ghost before = refreshed@;
        match times.get(&tid) {
            Some(t) => {
                let (tk, tu) = *t;
                match baselines.get(&tid) {
                    Some(p) => {
                        if now > p.timestamp_100ns {
                            let elapsed = now - p.timestamp_100ns;
                            let dk: u128 = if tk >= p.kernel { (tk - p.kernel) as u128 } else { 0 };
                            let du: u128 = if tu >= p.user { (tu - p.user) as u128 } else { 0 };
                            let sat = ratio_tenths(dk + du, elapsed as u128);
                            if sat > top {
                                top = sat;
                            }
                        }
                    },
                    None => {},
                }
                baselines.insert(tid, ThreadPrevTimes { kernel: tk, user: tu, timestamp_100ns: now });
                refreshed.push(tid);
                proof {
                    let ins = thread_fold(old(baselines)@, tids@.take(k as int), times@, now);
                    assert(refreshed@ =~= old(refreshed)@ + ins.refreshed.push(tid));
                }
            },
            None => {},
        }
        k = k + 1;
    }
    assert(tids@.take(tids@.len() as int) =~= tids@);
    top
}

/// Whether the table lists a process with this pid.
fn table_has_pid(processes: &[ProcessReading], pid: u32) -> (r: bool)
    ensures
        r == pids_of(readings_view(processes@)).contains(pid),
{
    let ghost procs = readings_view(processes@);
    let ghost pids = procs.map_values(|r: ProcessReadingView| r.pid);
    let mut i: usize = 0;
    while i < processes.len()
        invariant
            i <= processes@.len(),
            procs == readings_view(processes@),
            pids == procs.map_values(|r: ProcessReadingView| r.pid),
            forall|j: int| 0 <= j < i ==> pids[j] != pid,
        decreases processes@.len() - i,
    {
        if processes[i].pid == pid {
            assert(pids[i as int] == pid);
            assert(pids.contains(pid));
            return true;
        }
        i = i + 1;
    }
    assert(!pids.contains(pid));
    false
}

/// The position at which a sample with share `key` goes in `sorted`.
fn find_insert_position(sorted: &Vec<ProcessSample>, key: u32) -> (j: usize)
    ensures
        j == insert_position(samples_view(sorted@), key),
        j <= sorted@.len(),
{
    let ghost sv = samples_view(sorted@);
    let mut j: usize = 0;
    assert(sv.skip(0) =~= sv);
    while j < sorted.len() && sorted[j].total_cpu_tenths >= key
        invariant
            j <= sorted@.len(),
            sv == samples_view(sorted@),
            insert_position(sv, key) == j + insert_position(sv.skip(j as int), key),
        decreases sorted@.len() - j,
    {
        assert(sv.skip(j as int).drop_first() =~= sv.skip(j + 1));
        assert(sv.skip(j as int)[0] == sv[j as int]);
        j = j + 1;
    }
    if j < sorted.len() {
        assert(sv.skip(j as int)[0] == sv[j as int]);
    }
    j
}

impl ProcessWatcher {
    /// What a sample of these readings computes, before the baselines of
    /// vanished processes and threads are dropped.
    pub open spec fn sample_progress(
        &self,
        procs: Seq<ProcessReadingView>,
        threads: Seq<(u32, u32)>,
        thread_times: Map<u32, (u64, u64)>,
        now: u64,
    ) -> SampleProgress {
        sample_fold(
            SampleInput { pids: pids_of(procs), threads, thread_times, now, cores: self.cores() },
            self.process_baselines(),
            self.thread_baselines(),
            procs,
        )
    }

    /// Computes a sample from one tick's readings: the whole machine's CPU
    /// share and one sample per process whose times could be read, sorted by
    /// descending CPU share. `thread_times` holds the times of the threads
    /// that `threads_to_inspect` named and that could be read. The baselines
    /// of processes and threads that left the tables are dropped.
    pub fn sample(
        &mut self,
        processes: &[ProcessReading],
        threads: &[(u32, u32)],
        thread_times: &HashMap<u32, (u64, u64)>,
        now_100ns: u64,
    ) -> (r: (u32, Vec<ProcessSample>))
        requires
            processes@.len() <= u32::MAX,
        ensures
            ({
                let f = old(self).sample_progress(readings_view(processes@), threads@, thread_times@, now_100ns);
                &&& r.0 == if f.total_wall > 0 {
                    tenths_of_percent(f.total_delta, f.total_wall * old(self).cores())
                } else {
                    0
                }
                &&& samples_view(r.1@) == sorted_by_cpu(f.samples)
                &&& final(self).process_baselines() == f.prev_procs.restrict(pids_of(readings_view(processes@)))
                &&& final(self).thread_baselines() == f.prev_threads.restrict(f.refreshed_threads.to_set())
                &&& final(self).cores() == old(self).cores()
            }),
    {
        proof {
            use_type_invariant(&*self);
        }
        let ghost procs = readings_view(processes@);
        let ghost inp = SampleInput { pids: pids_of(procs), threads: threads@, thread_times: thread_times@, now: now_100ns, cores: self.logical_cores };
        let mut prev_processes = self.prev_processes.clone();
        let mut prev_threads = self.prev_threads.clone();
        let mut refreshed: Vec<u32> = Vec::new();
        let mut sorted: Vec<ProcessSample> = Vec::new();
        let mut total_delta: u128 = 0;
        let mut total_wall: u64 = 0;
        let mut i: usize = 0;
        while i < processes.len()
            invariant
                i <= processes@.len(),
                processes@.len() <= u32::MAX,
                procs == readings_view(processes@),
                self.logical_cores >= 1,
                self.logical_cores == old(self).logical_cores,
                self.prev_processes == old(self).prev_processes,
                self.prev_threads == old(self).prev_threads,
                inp == (SampleInput { pids: pids_of(procs), threads: threads@, thread_times: thread_times@, now: now_100ns, cores: self.logical_cores }),
                ({
                    let f = sample_fold(inp, old(self).prev_processes@, old(self).prev_threads@, procs.take(i as int));
                    &&& prev_processes@ == f.prev_procs
                    &&& prev_threads@ == f.prev_threads
                    &&& refreshed@ == f.refreshed_threads
                    &&& samples_view(sorted@) == sorted_by_cpu(f.samples)
                    &&& total_delta as int == f.total_delta
                    &&& total_wall as int == f.total_wall
                }),
                total_delta <= i * (2 * u64::MAX),
            decreases processes@.len() - i,
        {
            let r = &processes[i];
            let ghost before = sample_fold(inp, old(self).prev_processes@, old(self).prev_threads@, procs.take(i as int));
            assert(procs.take(i + 1).drop_last() =~= procs.take(i as int));
            assert(procs.take(i + 1).last() == r@);
            if let Some(t) = r.times {
                let is_orphan = r.ppid > 0 && !table_has_pid(processes, r.ppid) && r.pid != 4 && !str_eq(r.name.as_str(), "smss.exe");
                let d = self.delta_of(&prev_processes, r, now_100ns);
                let mut share: u32 = 0;
                let mut top: u32 = 0;
                if let Some((delta, wall)) = d {
                    share = share_tenths(delta, wall, self.logical_cores);
                    assert(total_delta + delta <= (i + 1) * (2 * u64::MAX)) by (nonlinear_arith)
                        requires total_delta <= i * (2 * u64::MAX), delta <= 2 * u64::MAX;
                    total_delta = total_delta + delta;
                    if wall > total_wall {
                        total_wall = wall;
                    }
                    if share >= 5 {
                        let tids = tids_for(threads, r.pid);
                        top = inspect_threads(&mut prev_threads, &mut refreshed, &tids, thread_times, now_100ns);
                    }
                } else {
                    assert(total_delta <= (i + 1) * (2 * u64::MAX)) by (nonlinear_arith)
                        requires total_delta <= i * (2 * u64::MAX);
                }
                prev_processes.insert(r.pid, ProcessPrevTimes { kernel: t.0, user: t.1, timestamp_100ns: now_100ns });
                let n_threads = tids_for(threads, r.pid).len();
                let thread_count: usize = if n_threads == 0 { 1 } else { n_threads };
                let sample = ProcessSample {
                    pid: r.pid,
                    ppid: r.ppid,
                    name: r.name.clone(),
                    is_orphan,
                    total_cpu_tenths: share,
                    top_thread_saturation_tenths: top,
                    thread_count,
                };
                let j = find_insert_position(&sorted, share);
                let ghost old_sorted = sorted@;
                sorted.insert(j, sample);
                proof {
                    let after = sample_fold(inp, old(self).prev_processes@, old(self).prev_threads@, procs.take(i + 1));
                    assert(after.samples == before.samples.push(sample@));
                    assert(before.samples.push(sample@).drop_last() =~= before.samples);
                    assert(samples_view(sorted@) =~= samples_view(old_sorted).insert(j as int, sample@));
                }
            } else {
                assert(total_delta <= (i + 1) * (2 * u64::MAX)) by (nonlinear_arith)
                    requires total_delta <= i * (2 * u64::MAX);
            }
            i = i + 1;
        }
        assert(procs.take(processes@.len() as int) =~= procs);
        // Drop the baselines of processes and threads that are gone
        let ghost folded_procs = prev_processes@;
        let ghost folded_threads = prev_threads@;
        let mut kept_procs: HashMap<u32, ProcessPrevTimes> = HashMap::new();
        let mut k: usize = 0;
        while k < processes.len()
            invariant
                k <= processes@.len(),
                procs == readings_view(processes@),
                prev_processes@ == folded_procs,
                kept_procs@ == folded_procs.restrict(pids_of(procs.take(k as int))),
            decreases processes@.len() - k,
        {
            let pid = processes[k].pid;
            proof {
                procs.lemma_take_succ_push(k as int);
                let f = |r: ProcessReadingView| r.pid;
                procs.take(k as int).lemma_push_map_commute(f, procs[k as int]);
                procs.take(k as int).map_values(f).lemma_push_to_set_commute(pid);
            }
            match prev_processes.get(&pid) {
                Some(v) => {
                    kept_procs.insert(pid, *v);
                },
                None => {},
            }
            assert(kept_procs@ =~= folded_procs.restrict(pids_of(procs.take(k + 1))));
            k = k + 1;
        }
        let mut kept_threads: HashMap<u32, ThreadPrevTimes> = HashMap::new();
        let mut k: usize = 0;
        while k < refreshed.len()
            invariant
                k <= refreshed@.len(),
                prev_threads@ == folded_threads,
                kept_threads@ == folded_threads.restrict(refreshed@.take(k as int).to_set()),
            decreases refreshed@.len() - k,
        {
            let tid = refreshed[k];
            proof {
                refreshed@.lemma_take_succ_push(k as int);
                refreshed@.take(k as int).lemma_push_to_set_commute(tid);
            }
            match prev_threads.get(&tid) {
                Some(v) => {
                    kept_threads.insert(tid, *v);
                },
                None => {},
            }
            assert(kept_threads@ =~= folded_threads.restrict(refreshed@.take(k + 1).to_set()));
            k = k + 1;
        }
        assert(refreshed@.take(refreshed@.len() as int) =~= refreshed@);
        self.prev_processes = kept_procs;
        self.prev_threads = kept_threads;
        assert(total_delta < 0x1_0000_0000_0000_0000_0000_0000_0000) by (nonlinear_arith)
            requires total_delta <= processes@.len() * (2 * u64::MAX), processes@.len() <= u32::MAX;
        let total: u32 = if total_wall > 0 {
            share_tenths(total_delta, total_wall, self.logical_cores)
        } else {
            0
        };
        (total, sorted)
    }
}

/// `num * 1000 / den` capped at `u32::MAX`.
fn ratio_tenths(num: u128, den: u128) -> (r: u32)
    requires
        den > 0,
        num < 0x1_0000_0000_0000_0000_0000_0000_0000,
    ensures
        r == tenths_of_percent(num as int, den as int),
{
    let q = num * 1000 / den;
    if q > u32::MAX as u128 {
        u32::MAX
    } else {
        q as u32
    }
}

/// The share of `delta` CPU time over `wall` elapsed time on `cores` cores.
fn share_tenths(delta: u128, wall: u64, cores: u32) -> (r: u32)
    requires
        wall > 0,
        cores >= 1,
        delta < 0x1_0000_0000_0000_0000_0000_0000_0000,
    ensures
        r == tenths_of_percent(delta as int, wall as int * cores as int),
{
    assert((wall as u128) * (cores as u128) < 0x1_0000_0000_0000_0000_0000_0000) by (nonlinear_arith)
        requires wall <= u64::MAX, cores <= u32::MAX;
    let den = (wall as u128) * (cores as u128);
    assert(den > 0) by (nonlinear_arith)
        requires den == (wall as u128) * (cores as u128), wall > 0, cores >= 1;
    ratio_tenths(delta, den)
}

/// The thread ids of process `pid`, in table order.
fn tids_for(threads: &[(u32, u32)], pid: u32) -> (r: Vec<u32>)
    ensures
        r@ == tids_of(threads@, pid),
{
    let mut r: Vec<u32> = Vec::new();
    let mut i: usize = 0;
    while i < threads.len()
        invariant
            i <= threads@.len(),
            r@ == tids_of(threads@.take(i as int), pid),
        decreases threads@.len() - i,
    {
        assert(threads@.take(i + 1).drop_last() =~= threads@.take(i as int));
        if threads[i].1 == pid {
            r.push(threads[i].0);
        }
        i = i + 1;
    }
    assert(threads@.take(threads@.len() as int) =~= threads@);
    r
}

/// Whether `s` is ordered by descending CPU share.
pub open spec fn descending_by_cpu(s: Seq<ProcessSampleView>) -> bool {
    forall|i: int, j: int| 0 <= i < j < s.len() ==> s[i].total_cpu_tenths >= s[j].total_cpu_tenths
}

proof fn lemma_insert_position(s: Seq<ProcessSampleView>, key: u32)
    ensures
        0 <= insert_position(s, key) <= s.len(),
        forall|i: int| 0 <= i < insert_position(s, key) ==> s[i].total_cpu_tenths >= key,
        insert_position(s, key) < s.len() ==> s[insert_position(s, key)].total_cpu_tenths < key,
    decreases s.len(),
{
    if s.len() > 0 && s[0].total_cpu_tenths >= key {
        lemma_insert_position(s.drop_first(), key);
        assert forall|i: int| 0 <= i < insert_position(s, key) implies s[i].total_cpu_tenths >= key by {
            if i > 0 {
                assert(s[i] == s.drop_first()[i - 1]);
            }
        }
    }
}

/// The process list of a sample is ordered by descending CPU share and
/// holds exactly the samples of the tick, each once.
pub proof fn law_samples_sorted_by_cpu(s: Seq<ProcessSampleView>)
    ensures
        descending_by_cpu(sorted_by_cpu(s)),
        sorted_by_cpu(s).to_multiset() == s.to_multiset(),
        sorted_by_cpu(s).len() == s.len(),
    decreases s.len(),
{
    broadcast use vstd::seq_lib::group_to_multiset_ensures;
    if s.len() > 0 {
        let rest = sorted_by_cpu(s.drop_last());
        law_samples_sorted_by_cpu(s.drop_last());
        let x = s.last();
        let p = insert_position(rest, x.total_cpu_tenths);
        lemma_insert_position(rest, x.total_cpu_tenths);
        let t = rest.insert(p, x);
        assert forall|i: int, j: int| 0 <= i < j < t.len() implies t[i].total_cpu_tenths >= t[j].total_cpu_tenths by {
            if j < p {
                assert(t[i] == rest[i] && t[j] == rest[j]);
            } else if j == p {
                assert(t[i] == rest[i]);
            } else if i == p {
                assert(t[j] == rest[j - 1]);
                assert(rest[p].total_cpu_tenths >= rest[j - 1].total_cpu_tenths);
            } else if i < p {
                assert(t[i] == rest[i] && t[j] == rest[j - 1]);
            } else {
                assert(t[i] == rest[i - 1] && t[j] == rest[j - 1]);
            }
        }
        vstd::seq_lib::to_multiset_insert(rest, p, x);
        assert(s.drop_last().push(x) =~= s);
    }
}

impl ProcessWatcher {
    /// A watcher without baselines reports no CPU use: the first sample of
    /// every process only sets its baseline, and with no process delta the
    /// machine total is 0.
    pub proof fn law_first_sample_sets_baselines_only(
        &self,
        procs: Seq<ProcessReadingView>,
        threads: Seq<(u32, u32)>,
        thread_times: Map<u32, (u64, u64)>,
        now: u64,
    )
        requires
            self.process_baselines() == Map::<u32, ProcessPrevTimes>::empty(),
        ensures
            forall|k: int| 0 <= k < self.sample_progress(procs, threads, thread_times, now).samples.len()
                ==> (#[trigger] self.sample_progress(procs, threads, thread_times, now).samples[k]).total_cpu_tenths == 0
                && self.sample_progress(procs, threads, thread_times, now).samples[k].top_thread_saturation_tenths == 0,
            self.sample_progress(procs, threads, thread_times, now).total_wall == 0,
    {
        lemma_fresh_fold(
            SampleInput { pids: pids_of(procs), threads, thread_times, now, cores: self.cores() },
            self.thread_baselines(),
            procs,
        );
    }
}

proof fn lemma_fresh_fold(inp: SampleInput, prev_threads: Map<u32, ThreadPrevTimes>, procs: Seq<ProcessReadingView>)
    ensures
        ({
            let f = sample_fold(inp, Map::empty(), prev_threads, procs);
            &&& forall|k: int| 0 <= k < f.samples.len() ==> (#[trigger] f.samples[k]).total_cpu_tenths == 0
                && f.samples[k].top_thread_saturation_tenths == 0
            &&& f.total_wall == 0
            &&& f.prev_threads == prev_threads
            &&& forall|pid: u32| #[trigger] f.prev_procs.contains_key(pid) ==> f.prev_procs[pid].timestamp_100ns == inp.now
        }),
    decreases procs.len(),
{
    if procs.len() > 0 {
        lemma_fresh_fold(inp, prev_threads, procs.drop_last());
        let before = sample_fold(inp, Map::empty(), prev_threads, procs.drop_last());
        let r = procs.last();
        assert(cpu_delta(before.prev_procs, r, inp.now) is None);
    }
}

proof fn lemma_thread_fold_fresh(prev: Map<u32, ThreadPrevTimes>, tids: Seq<u32>, times: Map<u32, (u64, u64)>, now: u64)
    ensures
        forall|t: u32| #[trigger] thread_fold(prev, tids, times, now).refreshed.contains(t) ==> {
            let b = thread_fold(prev, tids, times, now).baselines;
            b.contains_key(t) && b[t].timestamp_100ns == now
        },
        forall|t: u32| #[trigger] prev.contains_key(t) ==> {
            let b = thread_fold(prev, tids, times, now).baselines;
            b.contains_key(t) && (b[t] == prev[t] || b[t].timestamp_100ns == now)
        },
    decreases tids.len(),
{
    if tids.len() > 0 {
        lemma_thread_fold_fresh(prev, tids.drop_last(), times, now);
        let st = thread_fold(prev, tids.drop_last(), times, now);
        let f = thread_fold(prev, tids, times, now);
        let tid = tids.last();
        if times.contains_key(tid) {
            assert forall|t: u32| #[trigger] f.refreshed.contains(t) implies f.baselines.contains_key(t)
                && f.baselines[t].timestamp_100ns == now by {
                if t != tid {
                    let j = choose|j: int| 0 <= j < f.refreshed.len() && f.refreshed[j] == t;
                    assert(f.refreshed == st.refreshed.push(tid));
                    assert(j < st.refreshed.len());
                    assert(st.refreshed[j] == t);
                    assert(st.refreshed.contains(t));
                }
            }
        }
    }
}

proof fn lemma_sample_fold_fresh(inp: SampleInput, prev_procs: Map<u32, ProcessPrevTimes>, prev_threads: Map<u32, ThreadPrevTimes>, procs: Seq<ProcessReadingView>)
    ensures
        forall|t: u32| #[trigger] sample_fold(inp, prev_procs, prev_threads, procs).refreshed_threads.contains(t) ==> {
            let b = sample_fold(inp, prev_procs, prev_threads, procs).prev_threads;
            b.contains_key(t) && b[t].timestamp_100ns == inp.now
        },
    decreases procs.len(),
{
    if procs.len() > 0 {
        lemma_sample_fold_fresh(inp, prev_procs, prev_threads, procs.drop_last());
        let st = sample_fold(inp, prev_procs, prev_threads, procs.drop_last());
        let r = procs.last();
        lemma_thread_fold_fresh(st.prev_threads, tids_of(inp.threads, r.pid), inp.thread_times, inp.now);
        let f = sample_fold(inp, prev_procs, prev_threads, procs);
        assert forall|t: u32| #[trigger] f.refreshed_threads.contains(t) implies f.prev_threads.contains_key(t) && f.prev_threads[t].timestamp_100ns == inp.now by {
            let ins = thread_fold(st.prev_threads, tids_of(inp.threads, r.pid), inp.thread_times, inp.now);
            if st.refreshed_threads.contains(t) {
                assert(st.prev_threads.contains_key(t));
            }
            if r.times is Some && cpu_delta(st.prev_procs, r, inp.now) is Some && cpu_share(st.prev_procs, r, inp.now, inp.cores) >= 5 {
                assert(f.refreshed_threads == st.refreshed_threads + ins.refreshed);
                if !ins.refreshed.contains(t) {
                    let j = choose|j: int| 0 <= j < f.refreshed_threads.len() && f.refreshed_threads[j] == t;
                    if j < st.refreshed_threads.len() {
                        assert(st.refreshed_threads[j] == t);
                        assert(st.refreshed_threads.contains(t));
                    } else {
                        assert(ins.refreshed[j - st.refreshed_threads.len()] == t);
                        assert(ins.refreshed.contains(t));
                    }
                }
            } else {
                if r.times is Some {
                    assert(f.refreshed_threads =~= st.refreshed_threads);
                }
            }
        }
    }
}

impl ProcessWatcher {
    /// Every thread baseline a sample keeps was read in that sample, so the
    /// next sample measures each thread's saturation over exactly one tick:
    /// its CPU time since this sample over the time elapsed since this
    /// sample.
    pub proof fn law_thread_baselines_are_from_this_sample(
        &self,
        procs: Seq<ProcessReadingView>,
        threads: Seq<(u32, u32)>,
        thread_times: Map<u32, (u64, u64)>,
        now: u64,
    )
        ensures
            ({
                let f = self.sample_progress(procs, threads, thread_times, now);
                forall|t: u32| #[trigger] f.prev_threads.restrict(f.refreshed_threads.to_set()).contains_key(t)
                    ==> f.prev_threads[t].timestamp_100ns == now
            }),
    {
        lemma_sample_fold_fresh(
            SampleInput { pids: pids_of(procs), threads, thread_times, now, cores: self.cores() },
            self.process_baselines(),
            self.thread_baselines(),
            procs,
        );
    }
}

/// Whether a sample at `now` has no usable baseline for `pid` in `prev`:
/// none at all, or one read at most 10 ms earlier.
pub open spec fn no_usable_baseline(prev: Map<u32, ProcessPrevTimes>, pid: u32, now: u64) -> bool {
    !prev.contains_key(pid) || sat_diff(now, prev[pid].timestamp_100ns) <= 100_000
}

proof fn lemma_fold_without_baseline(
    inp: SampleInput,
    prev_procs: Map<u32, ProcessPrevTimes>,
    prev_threads: Map<u32, ThreadPrevTimes>,
    procs: Seq<ProcessReadingView>,
)
    ensures
        ({
            let f = sample_fold(inp, prev_procs, prev_threads, procs);
            &&& forall|pid: u32| #[trigger] f.prev_procs.contains_key(pid) ==> (prev_procs.contains_key(pid)
                && f.prev_procs[pid] == prev_procs[pid]) || f.prev_procs[pid].timestamp_100ns == inp.now
            &&& forall|k: int| 0 <= k < f.samples.len() && no_usable_baseline(prev_procs, (#[trigger] f.samples[k]).pid, inp.now)
                ==> f.samples[k].total_cpu_tenths == 0 && f.samples[k].top_thread_saturation_tenths == 0
        }),
    decreases procs.len(),
{
    if procs.len() > 0 {
        let rest = procs.drop_last();
        let r = procs.last();
        lemma_fold_without_baseline(inp, prev_procs, prev_threads, rest);
        let st = sample_fold(inp, prev_procs, prev_threads, rest);
        let f = sample_fold(inp, prev_procs, prev_threads, procs);
        assert(f == sample_step(inp, st, r));
        if no_usable_baseline(prev_procs, r.pid, inp.now) {
            assert(cpu_delta(st.prev_procs, r, inp.now) is None);
        }
        assert forall|k: int| 0 <= k < f.samples.len() && no_usable_baseline(prev_procs, (#[trigger] f.samples[k]).pid, inp.now)
            implies f.samples[k].total_cpu_tenths == 0 && f.samples[k].top_thread_saturation_tenths == 0 by {
            if k < st.samples.len() {
                assert(f.samples[k] == st.samples[k]);
            }
        }
    }
}

impl ProcessWatcher {
    /// A process without a usable baseline is reported with no CPU share
    /// and no thread saturation, whatever the baselines of the others and
    /// however often its pid occurs in the table. That is the case for a
    /// pid absent from the previous sample's table (`sample` keeps baselines
    /// only for those pids, so a reused pid starts from scratch) and for one
    /// whose baseline is at most 10 ms old.
    pub proof fn law_process_without_baseline_reports_no_cpu(
        &self,
        procs: Seq<ProcessReadingView>,
        threads: Seq<(u32, u32)>,
        thread_times: Map<u32, (u64, u64)>,
        now: u64,
    )
        ensures
            forall|k: int| 0 <= k < self.sample_progress(procs, threads, thread_times, now).samples.len()
                && no_usable_baseline(
                    self.process_baselines(),
                    (#[trigger] self.sample_progress(procs, threads, thread_times, now).samples[k]).pid,
                    now,
                ) ==> self.sample_progress(procs, threads, thread_times, now).samples[k].total_cpu_tenths == 0
                && self.sample_progress(procs, threads, thread_times, now).samples[k].top_thread_saturation_tenths == 0,
    {
        lemma_fold_without_baseline(
            SampleInput { pids: pids_of(procs), threads, thread_times, now, cores: self.cores() },
            self.process_baselines(),
            self.thread_baselines(),
            procs,
        );
    }
}

/// Whether no two readings of a process table share a pid.
pub open spec fn distinct_reading_pids(procs: Seq<ProcessReadingView>) -> bool {
    forall|i: int, j: int| 0 <= i < j < procs.len() ==> (#[trigger] procs[i]).pid != (#[trigger] procs[j]).pid
}

/// Whether no thread id occurs twice in a thread table.
pub open spec fn distinct_thread_ids(threads: Seq<(u32, u32)>) -> bool {
    forall|a: int, b: int| 0 <= a < b < threads.len() ==> (#[trigger] threads[a]).0 != (#[trigger] threads[b]).0
}

/// The top thread saturation a sample reports for the reading `r` against
/// the process baselines `prev_procs` and thread baselines `prev_threads`:
/// the highest saturation among its threads when it is inspected, else 0.
pub open spec fn expected_top_saturation(
    inp: SampleInput,
    prev_procs: Map<u32, ProcessPrevTimes>,
    prev_threads: Map<u32, ThreadPrevTimes>,
    r: ProcessReadingView,
) -> u32 {
    if inspects_threads(prev_procs, r, inp.now, inp.cores) {
        max_thread_saturation(prev_threads, inp.thread_times, inp.now, tids_of(inp.threads, r.pid))
    } else {
        0
    }
}

/// Whether thread `t` belongs to a process of `procs` by the thread table.
pub open spec fn owned_by_any(procs: Seq<ProcessReadingView>, threads: Seq<(u32, u32)>, t: u32) -> bool {
    exists|j: int| 0 <= j < procs.len() && tids_of(threads, (#[trigger] procs[j]).pid).contains(t)
}

proof fn lemma_tids_of_member(threads: Seq<(u32, u32)>, pid: u32, t: u32)
    requires
        tids_of(threads, pid).contains(t),
    ensures
        exists|a: int| 0 <= a < threads.len() && (#[trigger] threads[a]).0 == t && threads[a].1 == pid,
    decreases threads.len(),
{
    let rest = threads.drop_last();
    let n = threads.len() - 1;
    if threads.last().1 == pid && threads.last().0 == t {
        assert(threads[n].0 == t && threads[n].1 == pid);
    } else {
        if threads.last().1 == pid {
            let j = choose|j: int| 0 <= j < tids_of(threads, pid).len() && tids_of(threads, pid)[j] == t;
            assert(tids_of(rest, pid)[j] == t);
        }
        assert(tids_of(rest, pid).contains(t));
        lemma_tids_of_member(rest, pid, t);
        let a = choose|a: int| 0 <= a < rest.len() && (#[trigger] rest[a]).0 == t && rest[a].1 == pid;
        assert(threads[a] == rest[a]);
    }
}

proof fn lemma_max_thread_saturation_agree(
    p1: Map<u32, ThreadPrevTimes>,
    p2: Map<u32, ThreadPrevTimes>,
    times: Map<u32, (u64, u64)>,
    now: u64,
    tids: Seq<u32>,
)
    requires
        forall|t: u32| #[trigger] tids.contains(t) ==> p1.contains_key(t) == p2.contains_key(t)
            && (p1.contains_key(t) ==> p1[t] == p2[t]),
    ensures
        max_thread_saturation(p1, times, now, tids) == max_thread_saturation(p2, times, now, tids),
    decreases tids.len(),
{
    if tids.len() > 0 {
        let rest = tids.drop_last();
        assert forall|t: u32| #[trigger] rest.contains(t) implies p1.contains_key(t) == p2.contains_key(t)
            && (p1.contains_key(t) ==> p1[t] == p2[t]) by {
            let j = choose|j: int| 0 <= j < rest.len() && rest[j] == t;
            assert(tids[j] == t);
            assert(tids.contains(t));
        }
        lemma_max_thread_saturation_agree(p1, p2, times, now, rest);
        assert(tids[tids.len() - 1] == tids.last());
        assert(tids.contains(tids.last()));
    }
}

#[verifier::spinoff_prover]
proof fn lemma_sample_fold_threads(
    inp: SampleInput,
    prev_procs: Map<u32, ProcessPrevTimes>,
    prev_threads: Map<u32, ThreadPrevTimes>,
    procs: Seq<ProcessReadingView>,
)
    requires
        distinct_reading_pids(procs),
        distinct_thread_ids(inp.threads),
    ensures
        ({
            let f = sample_fold(inp, prev_procs, prev_threads, procs);
            &&& forall|t: u32| !owned_by_any(procs, inp.threads, t) ==> (#[trigger] f.prev_threads.contains_key(t)
                == prev_threads.contains_key(t) && (prev_threads.contains_key(t) ==> f.prev_threads[t] == prev_threads[t]))
            &&& forall|pid: u32| !(exists|j: int| 0 <= j < procs.len() && (#[trigger] procs[j]).pid == pid)
                ==> (#[trigger] f.prev_procs.contains_key(pid) == prev_procs.contains_key(pid)
                && (prev_procs.contains_key(pid) ==> f.prev_procs[pid] == prev_procs[pid]))
            &&& forall|k: int| 0 <= k < f.samples.len() ==> exists|i: int| 0 <= i < procs.len()
                && (#[trigger] procs[i]).pid == (#[trigger] f.samples[k]).pid
                && f.samples[k].top_thread_saturation_tenths == expected_top_saturation(inp, prev_procs, prev_threads, procs[i])
        }),
    decreases procs.len(),
{
    if procs.len() > 0 {
        let rest = procs.drop_last();
        let r = procs.last();
        let n = procs.len() - 1;
        assert(procs[n] == r);
        assert forall|i: int, j: int| 0 <= i < j < rest.len() implies (#[trigger] rest[i]).pid != (#[trigger] rest[j]).pid by {
            assert(rest[i] == procs[i] && rest[j] == procs[j]);
        }
        lemma_sample_fold_threads(inp, prev_procs, prev_threads, rest);
        let st = sample_fold(inp, prev_procs, prev_threads, rest);
        let f = sample_fold(inp, prev_procs, prev_threads, procs);
        assert(f == sample_step(inp, st, r));
        // r's pid does not occur earlier
        assert(!(exists|j: int| 0 <= j < rest.len() && (#[trigger] rest[j]).pid == r.pid)) by {
            if exists|j: int| 0 <= j < rest.len() && (#[trigger] rest[j]).pid == r.pid {
                let j = choose|j: int| 0 <= j < rest.len() && (#[trigger] rest[j]).pid == r.pid;
                assert(procs[j] == rest[j]);
                assert(procs[j].pid != procs[n].pid);
            }
        }
        assert(st.prev_procs.contains_key(r.pid) == prev_procs.contains_key(r.pid));
        assert(cpu_delta(st.prev_procs, r, inp.now) == cpu_delta(prev_procs, r, inp.now));
        assert(cpu_share(st.prev_procs, r, inp.now, inp.cores) == cpu_share(prev_procs, r, inp.now, inp.cores));
        let tids = tids_of(inp.threads, r.pid);
        // r's threads belong to no earlier process
        assert forall|t: u32| #[trigger] tids.contains(t) implies !owned_by_any(rest, inp.threads, t) by {
            if owned_by_any(rest, inp.threads, t) {
                let j = choose|j: int| 0 <= j < rest.len() && tids_of(inp.threads, (#[trigger] rest[j]).pid).contains(t);
                lemma_tids_of_member(inp.threads, rest[j].pid, t);
                lemma_tids_of_member(inp.threads, r.pid, t);
                let a = choose|a: int| 0 <= a < inp.threads.len() && (#[trigger] inp.threads[a]).0 == t && inp.threads[a].1 == rest[j].pid;
                let b = choose|b: int| 0 <= b < inp.threads.len() && (#[trigger] inp.threads[b]).0 == t && inp.threads[b].1 == r.pid;
                if a < b {
                    assert(inp.threads[a].0 != inp.threads[b].0);
                } else if b < a {
                    assert(inp.threads[b].0 != inp.threads[a].0);
                }
                assert(procs[j] == rest[j]);
                assert(procs[j].pid != procs[n].pid);
            }
        }
        lemma_max_thread_saturation_agree(st.prev_threads, prev_threads, inp.thread_times, inp.now, tids);
        lemma_thread_fold_max(st.prev_threads, tids, inp.thread_times, inp.now);
        assert forall|t: u32| !owned_by_any(procs, inp.threads, t) implies (#[trigger] f.prev_threads.contains_key(t)
            == prev_threads.contains_key(t) && (prev_threads.contains_key(t) ==> f.prev_threads[t] == prev_threads[t])) by {
            if owned_by_any(rest, inp.threads, t) {
                let j = choose|j: int| 0 <= j < rest.len() && tids_of(inp.threads, (#[trigger] rest[j]).pid).contains(t);
                assert(procs[j] == rest[j]);
            }
            if tids.contains(t) {
                assert(tids_of(inp.threads, procs[n].pid).contains(t));
            }
            assert(!read_in(tids, inp.thread_times, t));
            assert(!owned_by_any(rest, inp.threads, t));
            assert(st.prev_threads.contains_key(t) == prev_threads.contains_key(t));
            if r.times is Some && cpu_delta(st.prev_procs, r, inp.now) is Some && cpu_share(st.prev_procs, r, inp.now, inp.cores) >= 5 {
                let fb = thread_fold(st.prev_threads, tids, inp.thread_times, inp.now).baselines;
                assert(f.prev_threads == fb);
                assert(fb.contains_key(t) == st.prev_threads.contains_key(t));
            } else {
                assert(f.prev_threads == st.prev_threads);
            }
        }
        assert forall|pid: u32| !(exists|j: int| 0 <= j < procs.len() && (#[trigger] procs[j]).pid == pid)
            implies (#[trigger] f.prev_procs.contains_key(pid) == prev_procs.contains_key(pid)
            && (prev_procs.contains_key(pid) ==> f.prev_procs[pid] == prev_procs[pid])) by {
            if exists|j: int| 0 <= j < rest.len() && (#[trigger] rest[j]).pid == pid {
                let j = choose|j: int| 0 <= j < rest.len() && (#[trigger] rest[j]).pid == pid;
                assert(procs[j] == rest[j]);
            }
            assert(procs[n].pid != pid);
            if r.times is Some {
                let t = r.times->0;
                assert(f.prev_procs == st.prev_procs.insert(r.pid, ProcessPrevTimes { kernel: t.0, user: t.1, timestamp_100ns: inp.now }));
            } else {
                assert(f.prev_procs == st.prev_procs);
            }
        }
        assert forall|k: int| 0 <= k < f.samples.len() implies exists|i: int| 0 <= i < procs.len()
            && (#[trigger] procs[i]).pid == (#[trigger] f.samples[k]).pid
            && f.samples[k].top_thread_saturation_tenths == expected_top_saturation(inp, prev_procs, prev_threads, procs[i]) by {
            if k < st.samples.len() {
                assert(f.samples[k] == st.samples[k]);
                let i = choose|i: int| 0 <= i < rest.len() && (#[trigger] rest[i]).pid == (#[trigger] st.samples[k]).pid
                    && st.samples[k].top_thread_saturation_tenths == expected_top_saturation(inp, prev_procs, prev_threads, rest[i]);
                assert(procs[i] == rest[i]);
            } else {
                assert(f.samples[k].pid == procs[n].pid);
            }
        }
    }
}

impl ProcessWatcher {
    /// Thread saturation over one tick: in a sample of a process table
    /// where no pid occurs twice and a thread table where no thread id
    /// occurs twice, each process is reported with the highest saturation
    /// among its threads (by the thread table) when it is inspected (it has
    /// a CPU delta and burns at least 0.5% of the machine), and 0 otherwise.
    /// A thread's saturation is its CPU time since its baseline over the
    /// time elapsed since that baseline; since the baselines kept are those
    /// read in the previous sample, that is one tick's CPU time over that
    /// tick's wall time.
    pub proof fn law_thread_saturation_over_one_tick(
        &self,
        procs: Seq<ProcessReadingView>,
        threads: Seq<(u32, u32)>,
        thread_times: Map<u32, (u64, u64)>,
        now: u64,
    )
        requires
            distinct_reading_pids(procs),
            distinct_thread_ids(threads),
        ensures
            forall|k: int| 0 <= k < self.sample_progress(procs, threads, thread_times, now).samples.len() ==> exists|i: int|
                0 <= i < procs.len()
                && (#[trigger] procs[i]).pid == (#[trigger] self.sample_progress(procs, threads, thread_times, now).samples[k]).pid
                && self.sample_progress(procs, threads, thread_times, now).samples[k].top_thread_saturation_tenths
                    == expected_top_saturation(
                        SampleInput { pids: pids_of(procs), threads, thread_times, now, cores: self.cores() },
                        self.process_baselines(),
                        self.thread_baselines(),
                        procs[i],
                    ),
    {
        lemma_sample_fold_threads(
            SampleInput { pids: pids_of(procs), threads, thread_times, now, cores: self.cores() },
            self.process_baselines(),
            self.thread_baselines(),
            procs,
        );
    }
}

proof fn lemma_sample_fold_origin(
    inp: SampleInput,
    prev_procs: Map<u32, ProcessPrevTimes>,
    prev_threads: Map<u32, ThreadPrevTimes>,
    procs: Seq<ProcessReadingView>,
)
    ensures
        ({
            let f = sample_fold(inp, prev_procs, prev_threads, procs);
            forall|k: int| 0 <= k < f.samples.len() ==> exists|i: int| 0 <= i < procs.len()
                && (#[trigger] procs[i]).pid == (#[trigger] f.samples[k]).pid
                && procs[i].ppid == f.samples[k].ppid && procs[i].name == f.samples[k].name
                && f.samples[k].is_orphan == orphaned(procs[i], inp.pids)
        }),
    decreases procs.len(),
{
    if procs.len() > 0 {
        let rest = procs.drop_last();
        let r = procs.last();
        let n = procs.len() - 1;
        assert(procs[n] == r);
        lemma_sample_fold_origin(inp, prev_procs, prev_threads, rest);
        let st = sample_fold(inp, prev_procs, prev_threads, rest);
        let f = sample_fold(inp, prev_procs, prev_threads, procs);
        assert(f == sample_step(inp, st, r));
        assert forall|k: int| 0 <= k < f.samples.len() implies exists|i: int| 0 <= i < procs.len()
            && (#[trigger] procs[i]).pid == (#[trigger] f.samples[k]).pid
            && procs[i].ppid == f.samples[k].ppid && procs[i].name == f.samples[k].name
            && f.samples[k].is_orphan == orphaned(procs[i], inp.pids) by {
            if k < st.samples.len() {
                assert(f.samples[k] == st.samples[k]);
                let i = choose|i: int| 0 <= i < rest.len() && (#[trigger] rest[i]).pid == (#[trigger] st.samples[k]).pid
                    && rest[i].ppid == st.samples[k].ppid && rest[i].name == st.samples[k].name
                    && st.samples[k].is_orphan == orphaned(rest[i], inp.pids);
                assert(procs[i] == rest[i]);
            } else {
                assert(f.samples[k].pid == procs[n].pid);
            }
        }
    }
}

proof fn lemma_sample_fold_share(
    inp: SampleInput,
    prev_procs: Map<u32, ProcessPrevTimes>,
    prev_threads: Map<u32, ThreadPrevTimes>,
    procs: Seq<ProcessReadingView>,
)
    requires
        distinct_reading_pids(procs),
    ensures
        ({
            let f = sample_fold(inp, prev_procs, prev_threads, procs);
            &&& forall|pid: u32| !(exists|j: int| 0 <= j < procs.len() && (#[trigger] procs[j]).pid == pid)
                ==> (#[trigger] f.prev_procs.contains_key(pid) == prev_procs.contains_key(pid)
                && (prev_procs.contains_key(pid) ==> f.prev_procs[pid] == prev_procs[pid]))
            &&& forall|k: int| 0 <= k < f.samples.len() ==> exists|i: int| 0 <= i < procs.len()
                && (#[trigger] procs[i]).pid == (#[trigger] f.samples[k]).pid
                && procs[i].times is Some
                && f.samples[k].total_cpu_tenths == cpu_share(prev_procs, procs[i], inp.now, inp.cores)
        }),
    decreases procs.len(),
{
    if procs.len() > 0 {
        let rest = procs.drop_last();
        let r = procs.last();
        let n = procs.len() - 1;
        assert(procs[n] == r);
        assert forall|i: int, j: int| 0 <= i < j < rest.len() implies (#[trigger] rest[i]).pid != (#[trigger] rest[j]).pid by {
            assert(rest[i] == procs[i] && rest[j] == procs[j]);
        }
        lemma_sample_fold_share(inp, prev_procs, prev_threads, rest);
        let st = sample_fold(inp, prev_procs, prev_threads, rest);
        let f = sample_fold(inp, prev_procs, prev_threads, procs);
        assert(f == sample_step(inp, st, r));
        assert(!(exists|j: int| 0 <= j < rest.len() && (#[trigger] rest[j]).pid == r.pid)) by {
            if exists|j: int| 0 <= j < rest.len() && (#[trigger] rest[j]).pid == r.pid {
                let j = choose|j: int| 0 <= j < rest.len() && (#[trigger] rest[j]).pid == r.pid;
                assert(procs[j] == rest[j]);
                assert(procs[j].pid != procs[n].pid);
            }
        }
        assert(st.prev_procs.contains_key(r.pid) == prev_procs.contains_key(r.pid));
        assert(cpu_delta(st.prev_procs, r, inp.now) == cpu_delta(prev_procs, r, inp.now));
        assert(cpu_share(st.prev_procs, r, inp.now, inp.cores) == cpu_share(prev_procs, r, inp.now, inp.cores));
        assert forall|pid: u32| !(exists|j: int| 0 <= j < procs.len() && (#[trigger] procs[j]).pid == pid)
            implies (#[trigger] f.prev_procs.contains_key(pid) == prev_procs.contains_key(pid)
            && (prev_procs.contains_key(pid) ==> f.prev_procs[pid] == prev_procs[pid])) by {
            if exists|j: int| 0 <= j < rest.len() && (#[trigger] rest[j]).pid == pid {
                let j = choose|j: int| 0 <= j < rest.len() && (#[trigger] rest[j]).pid == pid;
                assert(procs[j] == rest[j]);
            }
            assert(procs[n].pid != pid);
            assert(st.prev_procs.contains_key(pid) == prev_procs.contains_key(pid));
            if r.times is Some {
                let t = r.times->0;
                assert(f.prev_procs == st.prev_procs.insert(r.pid, ProcessPrevTimes { kernel: t.0, user: t.1, timestamp_100ns: inp.now }));
            } else {
                assert(f.prev_procs == st.prev_procs);
            }
        }
        assert forall|k: int| 0 <= k < f.samples.len() implies exists|i: int| 0 <= i < procs.len()
            && (#[trigger] procs[i]).pid == (#[trigger] f.samples[k]).pid
            && procs[i].times is Some
            && f.samples[k].total_cpu_tenths == cpu_share(prev_procs, procs[i], inp.now, inp.cores) by {
            if k < st.samples.len() {
                assert(f.samples[k] == st.samples[k]);
                let i = choose|i: int| 0 <= i < rest.len() && (#[trigger] rest[i]).pid == (#[trigger] st.samples[k]).pid
                    && rest[i].times is Some
                    && st.samples[k].total_cpu_tenths == cpu_share(prev_procs, rest[i], inp.now, inp.cores);
                assert(procs[i] == rest[i]);
            } else {
                assert(f.samples[k].pid == procs[n].pid);
            }
        }
    }
}

proof fn lemma_pids_of(procs: Seq<ProcessReadingView>, p: u32)
    ensures
        pids_of(procs).contains(p) <==> exists|j: int| 0 <= j < procs.len() && (#[trigger] procs[j]).pid == p,
{
    let m = procs.map_values(|r: ProcessReadingView| r.pid);
    if pids_of(procs).contains(p) {
        let j = choose|j: int| 0 <= j < m.len() && m[j] == p;
        assert(procs[j].pid == p);
    }
    if exists|j: int| 0 <= j < procs.len() && (#[trigger] procs[j]).pid == p {
        let j = choose|j: int| 0 <= j < procs.len() && (#[trigger] procs[j]).pid == p;
        assert(m[j] == p);
    }
}

proof fn lemma_max_thread_saturation_bounds(prev: Map<u32, ThreadPrevTimes>, times: Map<u32, (u64, u64)>, now: u64, tids: Seq<u32>)
    ensures
        forall|t: u32| #[trigger] tids.contains(t) ==> thread_saturation(prev, times, now, t) <= max_thread_saturation(prev, times, now, tids),
        max_thread_saturation(prev, times, now, tids) == 0 || exists|t: u32| #[trigger] tids.contains(t)
            && max_thread_saturation(prev, times, now, tids) == thread_saturation(prev, times, now, t),
    decreases tids.len(),
{
    if tids.len() > 0 {
        let rest = tids.drop_last();
        let last = tids.last();
        lemma_max_thread_saturation_bounds(prev, times, now, rest);
        assert(tids[tids.len() - 1] == last);
        assert(tids.contains(last));
        assert forall|t: u32| #[trigger] tids.contains(t) implies thread_saturation(prev, times, now, t) <= max_thread_saturation(prev, times, now, tids) by {
            let j = choose|j: int| 0 <= j < tids.len() && tids[j] == t;
            if j < rest.len() {
                assert(rest[j] == t);
                assert(rest.contains(t));
            }
        }
        let m = max_thread_saturation(prev, times, now, rest);
        if m != 0 && thread_saturation(prev, times, now, last) <= m {
            let t = choose|t: u32| #[trigger] rest.contains(t) && m == thread_saturation(prev, times, now, t);
            let j = choose|j: int| 0 <= j < rest.len() && rest[j] == t;
            assert(tids[j] == t);
            assert(tids.contains(t));
        }
    }
}

proof fn lemma_inspect_plan(
    prev_procs: Map<u32, ProcessPrevTimes>,
    procs: Seq<ProcessReadingView>,
    threads: Seq<(u32, u32)>,
    now: u64,
    cores: u32,
)
    requires
        distinct_reading_pids(procs),
    ensures
        forall|pid: u32| !(exists|j: int| 0 <= j < procs.len() && (#[trigger] procs[j]).pid == pid)
            ==> (#[trigger] inspect_plan(prev_procs, procs, threads, now, cores).0.contains_key(pid) == prev_procs.contains_key(pid)
            && (prev_procs.contains_key(pid) ==> inspect_plan(prev_procs, procs, threads, now, cores).0[pid] == prev_procs[pid])),
        forall|i: int, t: u32| 0 <= i < procs.len() && inspects_threads(prev_procs, #[trigger] procs[i], now, cores)
            && #[trigger] tids_of(threads, procs[i].pid).contains(t)
            ==> inspect_plan(prev_procs, procs, threads, now, cores).1.contains(t),
    decreases procs.len(),
{
    if procs.len() > 0 {
        let rest = procs.drop_last();
        let r = procs.last();
        let n = procs.len() - 1;
        assert(procs[n] == r);
        assert forall|i: int, j: int| 0 <= i < j < rest.len() implies (#[trigger] rest[i]).pid != (#[trigger] rest[j]).pid by {
            assert(rest[i] == procs[i] && rest[j] == procs[j]);
        }
        lemma_inspect_plan(prev_procs, rest, threads, now, cores);
        let (pp, plan) = inspect_plan(prev_procs, rest, threads, now, cores);
        let all = inspect_plan(prev_procs, procs, threads, now, cores);
        assert(!(exists|j: int| 0 <= j < rest.len() && (#[trigger] rest[j]).pid == r.pid)) by {
            if exists|j: int| 0 <= j < rest.len() && (#[trigger] rest[j]).pid == r.pid {
                let j = choose|j: int| 0 <= j < rest.len() && (#[trigger] rest[j]).pid == r.pid;
                assert(procs[j] == rest[j]);
                assert(procs[j].pid != procs[n].pid);
            }
        }
        assert(pp.contains_key(r.pid) == prev_procs.contains_key(r.pid));
        assert(inspects_threads(pp, r, now, cores) == inspects_threads(prev_procs, r, now, cores));
        assert forall|pid: u32| !(exists|j: int| 0 <= j < procs.len() && (#[trigger] procs[j]).pid == pid)
            implies (#[trigger] all.0.contains_key(pid) == prev_procs.contains_key(pid)
            && (prev_procs.contains_key(pid) ==> all.0[pid] == prev_procs[pid])) by {
            if exists|j: int| 0 <= j < rest.len() && (#[trigger] rest[j]).pid == pid {
                let j = choose|j: int| 0 <= j < rest.len() && (#[trigger] rest[j]).pid == pid;
                assert(procs[j] == rest[j]);
            }
            assert(procs[n].pid != pid);
            assert(pp.contains_key(pid) == prev_procs.contains_key(pid));
        }
        assert forall|i: int, t: u32| 0 <= i < procs.len() && inspects_threads(prev_procs, #[trigger] procs[i], now, cores)
            && #[trigger] tids_of(threads, procs[i].pid).contains(t) implies all.1.contains(t) by {
            if i < rest.len() {
                assert(procs[i] == rest[i]);
                assert(plan.contains(t));
                let j = choose|j: int| 0 <= j < plan.len() && plan[j] == t;
                if inspects_threads(pp, r, now, cores) {
                    assert(all.1 == plan + tids_of(threads, r.pid));
                    assert(all.1[j] == t);
                } else {
                    assert(all.1 == plan);
                }
            } else {
                assert(i == n);
                let tids = tids_of(threads, r.pid);
                assert(all.1 == plan + tids);
                let j = choose|j: int| 0 <= j < tids.len() && tids[j] == t;
                assert(all.1[plan.len() + j] == t);
            }
        }
    }
}

impl ProcessWatcher {
    /// A process's CPU share is the sum of its kernel-time and user-time
    /// increases since its baseline, over the wall time elapsed since the
    /// baseline times the number of logical processors, in tenths of a
    /// percent rounded down (capped at `u32::MAX`): the `k`-th sample of a
    /// table where no pid occurs twice comes from a reading of that table,
    /// and when that reading has a baseline more than 10 ms old, its share
    /// is that formula (`share_matches`).
    pub proof fn law_cpu_share_adds_kernel_and_user_time(
        &self,
        procs: Seq<ProcessReadingView>,
        threads: Seq<(u32, u32)>,
        thread_times: Map<u32, (u64, u64)>,
        now: u64,
        k: int,
    )
        requires
            distinct_reading_pids(procs),
            self.cores() >= 1,
            0 <= k < self.sample_progress(procs, threads, thread_times, now).samples.len(),
        ensures
            exists|i: int|
                0 <= i < procs.len()
                && (#[trigger] procs[i]).pid == self.sample_progress(procs, threads, thread_times, now).samples[k].pid
                && procs[i].times is Some
                && share_matches(self.process_baselines(), procs[i], now, self.cores(),
                    self.sample_progress(procs, threads, thread_times, now).samples[k].total_cpu_tenths),
    {
        let inp = SampleInput { pids: pids_of(procs), threads, thread_times, now, cores: self.cores() };
        let pb = self.process_baselines();
        lemma_sample_fold_share(inp, pb, self.thread_baselines(), procs);
        let f = self.sample_progress(procs, threads, thread_times, now);
        let i = choose|i: int| 0 <= i < procs.len() && (#[trigger] procs[i]).pid == (#[trigger] f.samples[k]).pid
            && procs[i].times is Some
            && f.samples[k].total_cpu_tenths == cpu_share(pb, procs[i], inp.now, inp.cores);
        let r = procs[i];
        let b = pb[r.pid];
        if pb.contains_key(r.pid) && now > b.timestamp_100ns + 100_000 {
            let kernel = (r.times->0).0;
            let user = (r.times->0).1;
            assert(sat_diff(now, b.timestamp_100ns) == now - b.timestamp_100ns);
            let dk: int = if kernel >= b.kernel { kernel - b.kernel } else { 0 };
            let du: int = if user >= b.user { user - b.user } else { 0 };
            assert(sat_diff(kernel, b.kernel) == dk);
            assert(sat_diff(user, b.user) == du);
            assert(cpu_delta(pb, r, now) == Some((dk + du, now - b.timestamp_100ns)));
            assert(f.samples[k].total_cpu_tenths == tenths_of_percent(dk + du, (now - b.timestamp_100ns) * self.cores()));
            let w: int = now - b.timestamp_100ns;
            let c: int = self.cores() as int;
            assert((dk + du) * 1000 / (w * c) >= 0) by (nonlinear_arith)
                requires dk >= 0, du >= 0, w > 0, c >= 1;
        }
        assert(share_matches(pb, r, now, self.cores(), f.samples[k].total_cpu_tenths));
    }

    /// A process is an orphan exactly when it names a parent (ppid > 0)
    /// that no reading of the whole table has as its pid, whether or not
    /// that reading's times could be read, and it is neither the System
    /// process (pid 4) nor `smss.exe`.
    pub proof fn law_orphan_means_parent_absent_from_table(
        &self,
        procs: Seq<ProcessReadingView>,
        threads: Seq<(u32, u32)>,
        thread_times: Map<u32, (u64, u64)>,
        now: u64,
    )
        ensures
            forall|k: int| 0 <= k < self.sample_progress(procs, threads, thread_times, now).samples.len() ==> {
                let s = #[trigger] self.sample_progress(procs, threads, thread_times, now).samples[k];
                s.is_orphan <==> (s.ppid > 0 && !(exists|j: int| 0 <= j < procs.len() && (#[trigger] procs[j]).pid == s.ppid)
                    && s.pid != 4 && s.name != "smss.exe"@)
            },
    {
        let inp = SampleInput { pids: pids_of(procs), threads, thread_times, now, cores: self.cores() };
        lemma_sample_fold_origin(inp, self.process_baselines(), self.thread_baselines(), procs);
        let f = self.sample_progress(procs, threads, thread_times, now);
        assert forall|k: int| 0 <= k < f.samples.len() implies {
            let s = #[trigger] f.samples[k];
            s.is_orphan <==> (s.ppid > 0 && !(exists|j: int| 0 <= j < procs.len() && (#[trigger] procs[j]).pid == s.ppid)
                && s.pid != 4 && s.name != "smss.exe"@)
        } by {
            let s = f.samples[k];
            let i = choose|i: int| 0 <= i < procs.len() && (#[trigger] procs[i]).pid == (#[trigger] f.samples[k]).pid
                && procs[i].ppid == f.samples[k].ppid && procs[i].name == f.samples[k].name
                && f.samples[k].is_orphan == orphaned(procs[i], inp.pids);
            lemma_pids_of(procs, s.ppid);
        }
    }

    /// A process burning at least 0.5% of the machine has its threads
    /// inspected: in a table where no pid occurs twice and a thread table
    /// where no thread id occurs twice, a sample with a CPU share of at
    /// least 5 tenths reports as its top saturation the highest, over its
    /// threads by the thread table, of CPU time since the thread's baseline
    /// over the time elapsed since it (0 for a thread without times, a
    /// baseline or elapsed time); and `threads_to_inspect` names every one
    /// of those threads.
    pub proof fn law_threads_inspected_from_half_a_percent(
        &self,
        procs: Seq<ProcessReadingView>,
        threads: Seq<(u32, u32)>,
        thread_times: Map<u32, (u64, u64)>,
        now: u64,
    )
        requires
            distinct_reading_pids(procs),
            distinct_thread_ids(threads),
        ensures
            forall|k: int, t: u32| 0 <= k < self.sample_progress(procs, threads, thread_times, now).samples.len()
                && (#[trigger] self.sample_progress(procs, threads, thread_times, now).samples[k]).total_cpu_tenths >= 5
                && #[trigger] tids_of(threads, self.sample_progress(procs, threads, thread_times, now).samples[k].pid).contains(t) ==> {
                    let s = self.sample_progress(procs, threads, thread_times, now).samples[k];
                    let b = self.thread_baselines()[t];
                    &&& inspect_plan(self.process_baselines(), procs, threads, now, self.cores()).1.contains(t)
                    &&& thread_times.contains_key(t) && self.thread_baselines().contains_key(t) && now > b.timestamp_100ns ==> {
                        let dk: int = if thread_times[t].0 >= b.kernel { thread_times[t].0 - b.kernel } else { 0 };
                        let du: int = if thread_times[t].1 >= b.user { thread_times[t].1 - b.user } else { 0 };
                        let q: int = (dk + du) * 1000 / (now - b.timestamp_100ns);
                        s.top_thread_saturation_tenths >= if q > u32::MAX { u32::MAX as int } else { q }
                    }
                },
            forall|k: int| 0 <= k < self.sample_progress(procs, threads, thread_times, now).samples.len()
                && (#[trigger] self.sample_progress(procs, threads, thread_times, now).samples[k]).top_thread_saturation_tenths > 0 ==> {
                    let s = self.sample_progress(procs, threads, thread_times, now).samples[k];
                    exists|t: u32| #[trigger] tids_of(threads, s.pid).contains(t) && thread_times.contains_key(t)
                        && self.thread_baselines().contains_key(t) && now > self.thread_baselines()[t].timestamp_100ns && {
                            let b = self.thread_baselines()[t];
                            let dk: int = if thread_times[t].0 >= b.kernel { thread_times[t].0 - b.kernel } else { 0 };
                            let du: int = if thread_times[t].1 >= b.user { thread_times[t].1 - b.user } else { 0 };
                            let q: int = (dk + du) * 1000 / (now - b.timestamp_100ns);
                            s.top_thread_saturation_tenths == if q > u32::MAX { u32::MAX as int } else { q }
                        }
                },
    {
        let inp = SampleInput { pids: pids_of(procs), threads, thread_times, now, cores: self.cores() };
        let pb = self.process_baselines();
        let tb = self.thread_baselines();
        lemma_sample_fold_threads(inp, pb, tb, procs);
        lemma_sample_fold_share(inp, pb, tb, procs);
        lemma_inspect_plan(pb, procs, threads, now, self.cores());
        let f = self.sample_progress(procs, threads, thread_times, now);
        assert forall|k: int| 0 <= k < f.samples.len() implies ({
            let s = #[trigger] f.samples[k];
            &&& (s.total_cpu_tenths >= 5 ==> inspects_threads(pb, s_reading(procs, s.pid), now, self.cores())
                && s.top_thread_saturation_tenths == max_thread_saturation(tb, thread_times, now, tids_of(threads, s.pid)))
            &&& (s.top_thread_saturation_tenths > 0 ==> s.top_thread_saturation_tenths
                == max_thread_saturation(tb, thread_times, now, tids_of(threads, s.pid)))
            &&& 0 <= reading_index(procs, s.pid) < procs.len() && procs[reading_index(procs, s.pid)].pid == s.pid
        }) by {
            let s = f.samples[k];
            let i1 = choose|i: int| 0 <= i < procs.len() && (#[trigger] procs[i]).pid == (#[trigger] f.samples[k]).pid
                && f.samples[k].top_thread_saturation_tenths == expected_top_saturation(inp, pb, tb, procs[i]);
            let i2 = choose|i: int| 0 <= i < procs.len() && (#[trigger] procs[i]).pid == (#[trigger] f.samples[k]).pid
                && procs[i].times is Some
                && f.samples[k].total_cpu_tenths == cpu_share(pb, procs[i], inp.now, inp.cores);
            let i3 = reading_index(procs, s.pid);
            assert(i1 == i2) by {
                if i1 < i2 { assert(procs[i1].pid != procs[i2].pid); }
                if i2 < i1 { assert(procs[i2].pid != procs[i1].pid); }
            }
            assert(i1 == i3) by {
                if i1 < i3 { assert(procs[i1].pid != procs[i3].pid); }
                if i3 < i1 { assert(procs[i3].pid != procs[i1].pid); }
            }
        }
        assert forall|k: int, t: u32| 0 <= k < f.samples.len()
            && (#[trigger] f.samples[k]).total_cpu_tenths >= 5
            && #[trigger] tids_of(threads, f.samples[k].pid).contains(t) implies ({
                let s = f.samples[k];
                let b = tb[t];
                &&& inspect_plan(pb, procs, threads, now, self.cores()).1.contains(t)
                &&& thread_times.contains_key(t) && tb.contains_key(t) && now > b.timestamp_100ns ==> {
                    let dk: int = if thread_times[t].0 >= b.kernel { thread_times[t].0 - b.kernel } else { 0 };
                    let du: int = if thread_times[t].1 >= b.user { thread_times[t].1 - b.user } else { 0 };
                    let q: int = (dk + du) * 1000 / (now - b.timestamp_100ns);
                    s.top_thread_saturation_tenths >= if q > u32::MAX { u32::MAX as int } else { q }
                }
            }) by {
            let s = f.samples[k];
            let i = reading_index(procs, s.pid);
            assert(inspects_threads(pb, procs[i], now, self.cores()));
            lemma_max_thread_saturation_bounds(tb, thread_times, now, tids_of(threads, s.pid));
            assert(thread_saturation(tb, thread_times, now, t) <= s.top_thread_saturation_tenths);
        }
        assert forall|k: int| 0 <= k < f.samples.len()
            && (#[trigger] f.samples[k]).top_thread_saturation_tenths > 0 implies ({
                let s = f.samples[k];
                exists|t: u32| #[trigger] tids_of(threads, s.pid).contains(t) && thread_times.contains_key(t)
                    && tb.contains_key(t) && now > tb[t].timestamp_100ns && {
                        let b = tb[t];
                        let dk: int = if thread_times[t].0 >= b.kernel { thread_times[t].0 - b.kernel } else { 0 };
                        let du: int = if thread_times[t].1 >= b.user { thread_times[t].1 - b.user } else { 0 };
                        let q: int = (dk + du) * 1000 / (now - b.timestamp_100ns);
                        s.top_thread_saturation_tenths == if q > u32::MAX { u32::MAX as int } else { q }
                    }
            }) by {
            let s = f.samples[k];
            lemma_max_thread_saturation_bounds(tb, thread_times, now, tids_of(threads, s.pid));
            let t = choose|t: u32| #[trigger] tids_of(threads, s.pid).contains(t)
                && max_thread_saturation(tb, thread_times, now, tids_of(threads, s.pid)) == thread_saturation(tb, thread_times, now, t);
            assert(tids_of(threads, s.pid).contains(t));
        }
    }
}

/// The index of the reading of process `pid` in `procs`, when there is one.
spec fn reading_index(procs: Seq<ProcessReadingView>, pid: u32) -> int {
    choose|i: int| 0 <= i < procs.len() && (#[trigger] procs[i]).pid == pid
}

/// The reading of process `pid` in `procs`, when there is one.
spec fn s_reading(procs: Seq<ProcessReadingView>, pid: u32) -> ProcessReadingView {
    procs[reading_index(procs, pid)]
}


/// Whether `share` is the CPU share that reading `r` must get against the
/// baselines `prev`, where it has a baseline more than 10 ms old: its
/// kernel-time plus user-time increase over the elapsed wall time times
/// `cores`, in tenths of a percent rounded down, capped at `u32::MAX`.
pub open spec fn share_matches(prev: Map<u32, ProcessPrevTimes>, r: ProcessReadingView, now: u64, cores: u32, share: u32) -> bool {
    let b = prev[r.pid];
    let kernel = (r.times->0).0;
    let user = (r.times->0).1;
    let dk: int = if kernel >= b.kernel { kernel - b.kernel } else { 0 };
    let du: int = if user >= b.user { user - b.user } else { 0 };
    let q: int = (dk + du) * 1000 / ((now - b.timestamp_100ns) * cores);
    prev.contains_key(r.pid) && now > b.timestamp_100ns + 100_000 ==> share == if q > u32::MAX { u32::MAX as int } else { q }
}
} // verus!
