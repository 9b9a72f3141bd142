//! Mitigations: the book of soft-tamed processes (each held in a job object
//! with a CPU rate cap) and the safety check before a termination.
//!
//! Creating job objects, assigning processes, changing priority classes and
//! closing handles is the caller's work; this module decides the rate, keeps
//! the book of which process is held by which job and which priority class
//! it had before, and says which jobs to release and what to give back.
use vstd::prelude::*;
use std::collections::HashMap;
use vstd::std_specs::iter::IteratorSpec;
use crate::safety::SafetyEngine;
use crate::text::{decimal, push_decimal};

verus! {

broadcast use vstd::std_specs::hash::group_hash_axioms;

/// A process held in a job object.
#[derive(Debug, Clone, Copy, PartialEq, Eq)]
pub struct TamedProcessEntry {
    pub pid: u32,
    pub job_handle: isize,
    pub cpu_limit_pct: u32,
    /// When it was tamed, in milliseconds since the Unix epoch.
    pub tamed_at_ms: i64,
}

/// The CPU rate cap of a job object for a limit in percent, in hundredths of
/// a percent (10,000 = 100%): the limit is first clamped to 1..=100.
pub open spec fn cpu_rate_of(cpu_limit_pct: u32) -> u32 {
    let l = if cpu_limit_pct < 1 {
        1
    } else if cpu_limit_pct > 100 {
        100
    } else {
        cpu_limit_pct
    };
    (l * 100) as u32
}

pub fn cpu_rate_for(cpu_limit_pct: u32) -> (r: u32)
    ensures
        r == cpu_rate_of(cpu_limit_pct),
        100 <= r <= 10_000,
{
    let l = if cpu_limit_pct < 1 {
        1
    } else if cpu_limit_pct > 100 {
        100
    } else {
        cpu_limit_pct
    };
    l * 100
}

/// What the book keeps of a tamed process: the job object that caps it,
/// and the priority class it had before it was tamed, where that could be
/// read.
#[derive(Debug, Clone, Copy, PartialEq, Eq)]
pub struct TamedJob {
    pub job_handle: isize,
    pub prior_priority_class: Option<u32>,
}

/// The book after `pid` is tamed with the job `job_handle`, having had the
/// priority class `priority_class` just before: a process tamed again keeps
/// the priority class from before its first taming.
pub open spec fn after_taming(book: Map<u32, TamedJob>, pid: u32, job_handle: isize, priority_class: Option<u32>) -> Map<u32, TamedJob> {
    book.insert(pid, TamedJob {
        job_handle,
        prior_priority_class: if book.contains_key(pid) {
            book[pid].prior_priority_class
        } else {
            priority_class
        },
    })
}

/// The book after `pid` is tamed once for each (job handle, priority class)
/// of `tamings`, in order.
pub open spec fn after_tamings(book: Map<u32, TamedJob>, pid: u32, tamings: Seq<(isize, Option<u32>)>) -> Map<u32, TamedJob>
    decreases tamings.len(),
{
    if tamings.len() == 0 {
        book
    } else {
        let t = tamings.last();
        after_taming(after_tamings(book, pid, tamings.drop_last()), pid, t.0, t.1)
    }
}

/// The soft-tamed processes, each with the job that holds it and the
/// priority class to give back when it is released.
pub struct JobRateLimiter {
    active_jobs: HashMap<u32, TamedJob>,
}

impl View for JobRateLimiter {
    type V = Map<u32, TamedJob>;

    closed spec fn view(&self) -> Map<u32, TamedJob> {
        self.active_jobs@
    }
}

impl JobRateLimiter {
    pub fn new() -> (r: JobRateLimiter)
        ensures
            r@ == Map::<u32, TamedJob>::empty(),
    {
        JobRateLimiter { active_jobs: HashMap::new() }
    }

    /// Records that `pid` is now held by the job `job_handle`, having had
    /// the priority class `priority_class` just before. A process tamed
    /// again keeps the priority class from before its first taming. Returns
    /// the handle of the job that held it before, which the caller releases.
    pub fn record_tamed(&mut self, pid: u32, job_handle: isize, priority_class: Option<u32>) -> (previous: Option<isize>)
        ensures
            final(self)@ == after_taming(old(self)@, pid, job_handle, priority_class),
            previous == if old(self)@.contains_key(pid) {
                Some(old(self)@[pid].job_handle)
            } else {
                None
            },
    {
        let (previous, prior) = match self.active_jobs.get(&pid) {
            Some(job) => (Some(job.job_handle), job.prior_priority_class),
            None => (None, priority_class),
        };
        self.active_jobs.insert(pid, TamedJob { job_handle, prior_priority_class: prior });
        previous
    }

    /// Stops tracking `pid` and hands back what releasing it takes: the job
    /// whose CPU cap the caller lifts before closing its handle, and the
    /// priority class the caller gives back to the process.
    pub fn revert(&mut self, pid: u32) -> (released: Option<TamedJob>)
        ensures
            final(self)@ == old(self)@.remove(pid),
            released == if old(self)@.contains_key(pid) {
                Some(old(self)@[pid])
            } else {
                None
            },
    {
        self.active_jobs.remove(&pid)
    }

    /// Stops tracking every process. Hands back the whole book, each tamed
    /// process with its job and prior priority class, for the caller to
    /// release.
    pub fn revert_all(&mut self) -> (released: HashMap<u32, TamedJob>)
        ensures
            final(self)@ == Map::<u32, TamedJob>::empty(),
            released@ == old(self)@,
    {
        let mut released: HashMap<u32, TamedJob> = HashMap::new();
        std::mem::swap(&mut released, &mut self.active_jobs);
        released
    }

    pub fn is_tamed(&self, pid: u32) -> (r: bool)
        ensures
            r == self@.contains_key(pid),
    {
        self.active_jobs.contains_key(&pid)
    }

    /// The tamed processes, each once.
    pub fn active_tamed_pids(&self) -> (r: Vec<u32>)
        ensures
            r@.to_set() == self@.dom(),
            r@.no_duplicates(),
    {
        let ghost ks = vstd::std_specs::hash::spec_keys_iter(&self.active_jobs).remaining().unref();
        let mut r: Vec<u32> = Vec::new();
        for k in it: self.active_jobs.keys()
            invariant
                it.seq().unref() == ks,
                r@ == ks.take(it.index()),
        {
            r.push(*k);
        }
        assert(r@ =~= ks);
        r
    }
}

impl Default for JobRateLimiter {
    fn default() -> (r: JobRateLimiter)
        ensures
            r@ == Map::<u32, TamedJob>::empty(),
    {
        JobRateLimiter::new()
    }
}

/// The message with which a termination of a protected process is refused.
pub open spec fn refusal_message(pid: u32, process_name: Seq<char>) -> Seq<char> {
    "Refused to terminate '"@ + process_name + "' (PID "@ + decimal(pid as nat)
        + "): Process is protected by SafetyEngine."@
}

pub struct ProcessActionController;

impl ProcessActionController {
    /// The immunity check that precedes every termination: protected
    /// processes are refused with a message naming them.
    pub fn authorize_termination(pid: u32, process_name: &str, safety: &SafetyEngine) -> (r: Result<(), String>)
        ensures
            r is Err <==> safety.immune(process_name@),
            r matches Err(m) ==> m@ == refusal_message(pid, process_name@),
    {
        if safety.is_immune(process_name) {
            let mut m = String::new();
            m.append("Refused to terminate '");
            m.append(process_name);
            m.append("' (PID ");
            push_decimal(&mut m, pid);
            m.append("): Process is protected by SafetyEngine.");
            assert(m@ =~= refusal_message(pid, process_name@));
            Err(m)
        } else {
            Ok(())
        }
    }
}

/// However often an untamed process is tamed, it stays held by the job of
/// its last taming, reverting it hands back the priority class it had
/// before its first taming, and the book is afterwards as it was before:
/// every other process keeps its job.
pub proof fn law_revert_restores_state_before_taming(
    book: Map<u32, TamedJob>,
    pid: u32,
    tamings: Seq<(isize, Option<u32>)>,
)
    requires
        !book.contains_key(pid),
        tamings.len() > 0,
    ensures
        after_tamings(book, pid, tamings).contains_key(pid),
        after_tamings(book, pid, tamings)[pid] == (TamedJob {
            job_handle: tamings.last().0,
            prior_priority_class: tamings[0].1,
        }),
        after_tamings(book, pid, tamings).remove(pid) == book,
    decreases tamings.len(),
{
    let rest = tamings.drop_last();
    if rest.len() > 0 {
        law_revert_restores_state_before_taming(book, pid, rest);
        assert(rest[0] == tamings[0]);
    } else {
        assert(after_tamings(book, pid, rest) == book);
    }
    assert(after_tamings(book, pid, tamings).remove(pid) =~= book);
}

} // verus!
