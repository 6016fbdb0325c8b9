//! Process CPU differential sampling and the foreground state record.
//!
//! The application enumerates processes and reads their cumulative CPU
//! times; [`CpuSampler`] turns two consecutive readings into per-process
//! CPU loads.
use vstd::prelude::*;

verus! {

/// One process's sample.
#[derive(Debug)]
pub struct ProcSample {
    pub pid: u32,
    /// Executable file name (e.g. "codex.exe").
    pub name: String,
    /// CPU load in hundredths of a percent of one logical core
    /// (10 000 = one full core, 80 000 = eight full cores).
    pub cpu_percent: u64,
    /// Full executable path, when it was asked for and resolved.
    pub image_path: Option<String>,
}

/// One process as enumerated: its cumulative CPU time (kernel + user, in
/// 100-ns units) at the moment of the reading.
#[derive(Debug)]
pub struct ProcessTimes {
    pub pid: u32,
    pub name: String,
    pub total_cpu_100ns: u64,
    pub image_path: Option<String>,
}

/// The foreground process and whether it presents fullscreen Direct3D.
#[derive(Clone, Copy, Debug)]
pub struct ForegroundState {
    pub pid: Option<u32>,
    pub fullscreen: bool,
}

/// Differential CPU sampler: each reading is compared with the previous
/// one; the first reading only sets the baseline (all loads 0).
#[derive(Debug)]
pub struct CpuSampler {
    last: Vec<(u32, u64)>,
    last_tick_ns: Option<u64>,
}

/// The value recorded last for `pid` in a baseline (later entries win).
pub open spec fn baseline_of(last: Seq<(u32, u64)>, pid: u32) -> Option<u64>
    decreases last.len(),
{
    if last.len() == 0 {
        None
    } else if last.last().0 == pid {
        Some(last.last().1)
    } else {
        baseline_of(last.drop_last(), pid)
    }
}

/// Wall-clock time between the previous reading and `now_ns`.
pub open spec fn elapsed_ns(last_tick_ns: Option<u64>, now_ns: u64) -> nat {
    match last_tick_ns {
        Some(t) => if now_ns > t { (now_ns - t) as nat } else { 0 },
        None => 0,
    }
}

/// CPU load (hundredths of a percent of one core) of a process that used
/// `delta_100ns` of CPU time during `wall_ns` of wall time, capped at
/// `u64::MAX`.
pub open spec fn cpu_load(delta_100ns: nat, wall_ns: nat) -> nat {
    if wall_ns == 0 {
        0
    } else {
        let v = delta_100ns * 1_000_000 / wall_ns;
        if v > u64::MAX { u64::MAX as nat } else { v }
    }
}

/// The load reported for one process of a reading.
pub open spec fn sample_load(last: Seq<(u32, u64)>, last_tick_ns: Option<u64>, now_ns: u64, p: ProcessTimes) -> nat {
    match baseline_of(last, p.pid) {
        Some(prev) => cpu_load(if p.total_cpu_100ns >= prev { (p.total_cpu_100ns - prev) as nat } else { 0 },
            elapsed_ns(last_tick_ns, now_ns)),
        None => 0,
    }
}

impl CpuSampler {
    pub closed spec fn baseline(&self) -> Seq<(u32, u64)> {
        self.last@
    }

    pub closed spec fn last_tick(&self) -> Option<u64> {
        self.last_tick_ns
    }

    /// A sampler with no baseline.
    pub fn new() -> (s: Self)
        ensures
            s.baseline().len() == 0,
            s.last_tick() is None,
    {
        CpuSampler { last: Vec::new(), last_tick_ns: None }
    }

    /// Take one reading at `now_ns` (a monotonic clock in nanoseconds).
    /// Each process gets the CPU time it used since its previous reading
    /// divided by the wall time in between; a process without a previous
    /// reading, or the first reading, gets 0. The reading becomes the new
    /// baseline.
    pub fn record(&mut self, now_ns: u64, processes: Vec<ProcessTimes>) -> (samples: Vec<ProcSample>)
        ensures
            samples@.len() == processes@.len(),
            forall|i: int| 0 <= i < samples@.len() ==> {
                &&& (#[trigger] samples@[i]).pid == processes@[i].pid
                &&& samples@[i].name == processes@[i].name
                &&& samples@[i].image_path == processes@[i].image_path
                &&& samples@[i].cpu_percent as nat == sample_load(old(self).baseline(), old(self).last_tick(), now_ns, processes@[i])
            },
            final(self).baseline() == Seq::new(processes@.len(), |i: int| (processes@[i].pid, processes@[i].total_cpu_100ns)),
            final(self).last_tick() == Some(now_ns),
    {
        let wall: u64 = match self.last_tick_ns {
            Some(t) => if now_ns > t { now_ns - t } else { 0 },
            None => 0,
        };
        let mut current: Vec<(u32, u64)> = Vec::new();
        let mut samples: Vec<ProcSample> = Vec::new();
        let ghost procs = processes@;
        let mut rest = processes;
        let mut i: usize = 0;
        let n = rest.len();
        assert(rest@ =~= procs.subrange(0, n as int));
        while i < n
            invariant
                n == procs.len(),
                i <= n,
                rest@ == procs.subrange(i as int, n as int),
                wall as nat == elapsed_ns(self.last_tick_ns, now_ns),
                current@ == Seq::new(i as nat, |k: int| (procs[k].pid, procs[k].total_cpu_100ns)),
                samples@.len() == i,
                forall|k: int| 0 <= k < i ==> {
                    &&& (#[trigger] samples@[k]).pid == procs[k].pid
                    &&& samples@[k].name == procs[k].name
                    &&& samples@[k].image_path == procs[k].image_path
                    &&& samples@[k].cpu_percent as nat == sample_load(self.last@, self.last_tick_ns, now_ns, procs[k])
                },
            decreases n - i,
        {
            let p = rest.remove(0);
            assert(p == procs[i as int]);
            let prev = lookup_baseline(&self.last, p.pid);
            let cpu: u64 = match prev {
                Some(pv) => {
                    let delta: u64 = if p.total_cpu_100ns >= pv { p.total_cpu_100ns - pv } else { 0 };
                    load_of(delta, wall)
                },
                None => 0,
            };
            current.push((p.pid, p.total_cpu_100ns));
            samples.push(ProcSample { pid: p.pid, name: p.name, cpu_percent: cpu, image_path: p.image_path });
            i = i + 1;
            proof {
                assert(current@ =~= Seq::new(i as nat, |k: int| (procs[k].pid, procs[k].total_cpu_100ns)));
                assert(rest@ =~= procs.subrange(i as int, n as int));
            }
        }
        self.last = current;
        self.last_tick_ns = Some(now_ns);
        samples
    }
}

fn lookup_baseline(last: &Vec<(u32, u64)>, pid: u32) -> (r: Option<u64>)
    ensures
        r == baseline_of(last@, pid),
{
    let mut i: usize = last.len();
    assert(last@.subrange(0, i as int) =~= last@);
    while i > 0
        invariant
            i <= last@.len(),
            baseline_of(last@, pid) == baseline_of(last@.subrange(0, i as int), pid),
        decreases i,
    {
        let ghost pre = last@.subrange(0, i as int);
        assert(pre.drop_last() =~= last@.subrange(0, i - 1));
        if last[i - 1].0 == pid {
            return Some(last[i - 1].1);
        }
        i = i - 1;
    }
    assert(last@.subrange(0, 0) =~= Seq::<(u32, u64)>::empty());
    None
}

fn load_of(delta_100ns: u64, wall_ns: u64) -> (c: u64)
    ensures
        c as nat == cpu_load(delta_100ns as nat, wall_ns as nat),
{
    if wall_ns == 0 {
        return 0;
    }
    let scaled: u128 = (delta_100ns as u128) * 1_000_000;
    let v: u128 = scaled / (wall_ns as u128);
    if v > u64::MAX as u128 {
        u64::MAX
    } else {
        v as u64
    }
}

} // verus!
