//! The GUI's per-second process metrics: rates from two consecutive
//! counter snapshots, the processes that exited, and which processes need
//! a structural update pushed to the table (so that the whole table never
//! has to be re-sent). Reading the counters is done by the application.
use vstd::prelude::*;

use crate::procwin::ProcessPriorities;
use crate::seqs::lemma_filter_prefix_step;

verus! {

/// Below this interval a sample only anchors the baseline (no rates).
pub const MIN_SAMPLE_INTERVAL_MS: u64 = 250;

/// Memory changes of at most this many bytes are not pushed.
pub const MEMORY_CHANGE_BYTES: u64 = 4 * 1024;

/// Cumulative counters of one process.
#[derive(Clone, Copy, Debug, PartialEq, Eq, Structural)]
pub struct ProcessSnapshot {
    /// Kernel + user time in 100 ns units.
    pub cpu_total_ticks: u64,
    pub disk_read_bytes: u64,
    pub disk_write_bytes: u64,
    pub net_in_bytes: u64,
    pub net_out_bytes: u64,
}

/// Rates of one process over the last interval.
#[derive(Clone, Copy, Debug, PartialEq, Eq, Structural)]
pub struct RateSample {
    /// CPU load in hundredths of a percent of one logical core.
    pub cpu_centipercent: u64,
    pub disk_read_bps: u64,
    pub disk_write_bps: u64,
    pub net_in_bps: u64,
    pub net_out_bps: u64,
}

/// Counter growth, 0 when the counter went backwards.
pub open spec fn growth(cur: u64, prev: u64) -> nat {
    if cur >= prev { (cur - prev) as nat } else { 0 }
}

/// Bytes per second from a growth over `dt_ms`, saturated at `u64::MAX`.
pub open spec fn per_second(delta: nat, dt_ms: nat) -> u64 {
    let r = delta * 1000 / dt_ms;
    if r > u64::MAX { u64::MAX } else { r as u64 }
}

/// CPU load in hundredths of a percent: 100 ns units over milliseconds
/// (`delta * 1e-7 s / (dt_ms * 1e-3 s) * 100 * 100`), capped at 110% of
/// all logical processors.
pub open spec fn cpu_centipercent_spec(delta: nat, dt_ms: nat, nproc: u32) -> u64 {
    let load = delta / dt_ms;
    let cap = nproc as nat * 11_000;
    (if load > cap { cap } else { load }) as u64
}

/// The rates of a process; a process without a previous snapshot has all
/// rates zero.
pub open spec fn rate_spec(prev: Option<ProcessSnapshot>, cur: ProcessSnapshot, dt_ms: nat, nproc: u32) -> RateSample {
    match prev {
        None => RateSample { cpu_centipercent: 0, disk_read_bps: 0, disk_write_bps: 0, net_in_bps: 0, net_out_bps: 0 },
        Some(p) => RateSample {
            cpu_centipercent: cpu_centipercent_spec(growth(cur.cpu_total_ticks, p.cpu_total_ticks), dt_ms, nproc),
            disk_read_bps: per_second(growth(cur.disk_read_bytes, p.disk_read_bytes), dt_ms),
            disk_write_bps: per_second(growth(cur.disk_write_bytes, p.disk_write_bytes), dt_ms),
            net_in_bps: per_second(growth(cur.net_in_bytes, p.net_in_bytes), dt_ms),
            net_out_bps: per_second(growth(cur.net_out_bytes, p.net_out_bytes), dt_ms),
        },
    }
}

fn per_second_exec(cur: u64, prev: u64, dt_ms: u64) -> (r: u64)
    requires
        dt_ms > 0,
    ensures
        r == per_second(growth(cur, prev), dt_ms as nat),
{
    let delta: u128 = if cur >= prev { (cur - prev) as u128 } else { 0 };
    let scaled: u128 = delta * 1000;
    let q: u128 = scaled / (dt_ms as u128);
    if q > 0xFFFF_FFFF_FFFF_FFFF { u64::MAX } else { q as u64 }
}

/// The rates of one process over an interval of `dt_ms` milliseconds
/// (callers only compute rates for intervals of at least 250 ms).
pub fn rate_sample(prev: Option<ProcessSnapshot>, cur: ProcessSnapshot, dt_ms: u64, nproc: u32) -> (r: RateSample)
    requires
        dt_ms > 0,
    ensures
        r == rate_spec(prev, cur, dt_ms as nat, nproc),
{
    match prev {
        None => RateSample { cpu_centipercent: 0, disk_read_bps: 0, disk_write_bps: 0, net_in_bps: 0, net_out_bps: 0 },
        Some(p) => {
            let delta: u64 = if cur.cpu_total_ticks >= p.cpu_total_ticks { cur.cpu_total_ticks - p.cpu_total_ticks } else { 0 };
            let load: u64 = delta / dt_ms;
            let cap: u64 = (nproc as u64) * 11_000;
            RateSample {
                cpu_centipercent: if load > cap { cap } else { load },
                disk_read_bps: per_second_exec(cur.disk_read_bytes, p.disk_read_bytes, dt_ms),
                disk_write_bps: per_second_exec(cur.disk_write_bytes, p.disk_write_bytes, dt_ms),
                net_in_bps: per_second_exec(cur.net_in_bytes, p.net_in_bytes, dt_ms),
                net_out_bps: per_second_exec(cur.net_out_bytes, p.net_out_bytes, dt_ms),
            }
        },
    }
}

/// Whether this sample computes rates: at least 250 ms after the previous
/// one.
pub fn computes_rates(dt_ms: u64) -> (b: bool)
    ensures
        b == (dt_ms >= MIN_SAMPLE_INTERVAL_MS),
{
    dt_ms >= MIN_SAMPLE_INTERVAL_MS
}

/// Not among the given PIDs.
pub open spec fn not_in(alive: Seq<u32>) -> spec_fn(u32) -> bool {
    |p: u32| !alive.contains(p)
}

/// The PIDs of the previous round that are not alive any more, in their
/// previous order.
pub fn removed_pids(previous: &[u32], alive: &[u32]) -> (r: Vec<u32>)
    ensures
        r@ == previous@.filter(not_in(alive@)),
{
    let mut out: Vec<u32> = Vec::new();
    let mut i: usize = 0;
    while i < previous.len()
        invariant
            i <= previous@.len(),
            out@ == previous@.subrange(0, i as int).filter(not_in(alive@)),
        decreases previous.len() - i,
    {
        let p = previous[i];
        let mut found = false;
        let mut k: usize = 0;
        while k < alive.len()
            invariant
                k <= alive@.len(),
                found <==> exists|m: int| 0 <= m < k && alive@[m] == p,
            decreases alive.len() - k,
        {
            if alive[k] == p {
                found = true;
            }
            k = k + 1;
        }
        proof {
            lemma_filter_prefix_step(previous@, not_in(alive@), i as int);
            assert(found == alive@.contains(p));
        }
        if !found {
            out.push(p);
        }
        i = i + 1;
    }
    assert(previous@.subrange(0, i as int) =~= previous@);
    out
}

// =========================================================================
// Structural updates
// =========================================================================

/// What decides whether a process row needs a structural update.
#[derive(Clone, Copy, Debug)]
pub struct ProcessState {
    pub pid: u32,
    pub memory_bytes: u64,
    pub priorities: ProcessPriorities,
}

/// A process row's structural fields (no rates), pushed to the table.
#[derive(Debug)]
pub struct ProcessBaseSnapshot {
    pub pid: u32,
    pub name: String,
    pub exe_path: Option<String>,
    pub affinity_mask: Option<String>,
    pub system_affinity_mask: Option<String>,
    pub group_affinity_masks: Option<Vec<String>>,
    pub parent_pid: u32,
    pub access_denied: bool,
    pub memory_bytes: u64,
    pub priority_class: Option<u32>,
    pub io_priority: Option<u32>,
    pub memory_priority: Option<u32>,
}

/// New or changed rows, and the PIDs that exited.
#[derive(Debug)]
pub struct ProcessDiffEvent {
    pub upserts: Vec<ProcessBaseSnapshot>,
    pub removed_pids: Vec<u32>,
}

/// The last pushed memory and priorities of each process.
pub struct UpsertTracker {
    entries: Vec<(u32, u64, ProcessPriorities)>,
}

pub open spec fn entries_map(e: Seq<(u32, u64, ProcessPriorities)>) -> Map<u32, (u64, ProcessPriorities)>
    decreases e.len(),
{
    if e.len() == 0 {
        Map::empty()
    } else {
        entries_map(e.drop_last()).insert(e.last().0, (e.last().1, e.last().2))
    }
}

pub open spec fn abs_diff(a: u64, b: u64) -> nat {
    if a >= b { (a - b) as nat } else { (b - a) as nat }
}

/// A row is pushed when the process is new, its memory moved by more than
/// 4 KiB since the last push (0 when never pushed), or its priorities
/// differ from the last pushed ones.
pub open spec fn needs_upsert(m: Map<u32, (u64, ProcessPriorities)>, is_new: bool, s: ProcessState) -> bool {
    let prev_mem: u64 = if m.contains_key(s.pid) { m[s.pid].0 } else { 0 };
    let prio_changed = !(m.contains_key(s.pid) && m[s.pid].1 == s.priorities);
    is_new || abs_diff(s.memory_bytes, prev_mem) > MEMORY_CHANGE_BYTES || prio_changed
}

/// The tracker's map and the positions of the pushed rows after a round
/// over the first `n` processes (each push records the pushed values).
pub open spec fn upsert_round(m: Map<u32, (u64, ProcessPriorities)>, prev: Seq<u32>, states: Seq<ProcessState>, n: nat) -> (Map<u32, (u64, ProcessPriorities)>, Seq<int>)
    decreases n,
{
    if n == 0 {
        (m, Seq::empty())
    } else {
        let (m1, picked) = upsert_round(m, prev, states, (n - 1) as nat);
        let s = states[n - 1];
        if needs_upsert(m1, !prev.contains(s.pid), s) {
            (m1.insert(s.pid, (s.memory_bytes, s.priorities)), picked.push(n - 1))
        } else {
            (m1, picked)
        }
    }
}

impl View for UpsertTracker {
    type V = Map<u32, (u64, ProcessPriorities)>;

    closed spec fn view(&self) -> Map<u32, (u64, ProcessPriorities)> {
        entries_map(self.entries@)
    }
}

#[verifier::spinoff_prover]
proof fn lemma_entries_map_find(e: Seq<(u32, u64, ProcessPriorities)>, pid: u32)
    ensures
        entries_map(e).contains_key(pid) <==> exists|i: int| 0 <= i < e.len() && (#[trigger] e[i]).0 == pid,
        forall|i: int| 0 <= i < e.len() && (#[trigger] e[i]).0 == pid && (forall|j: int| i < j < e.len() ==> e[j].0 != pid)
            ==> entries_map(e)[pid] == (e[i].1, e[i].2),
    decreases e.len(),
{
    if e.len() > 0 {
        let p = e.drop_last();
        lemma_entries_map_find(p, pid);
        assert forall|i: int| 0 <= i < e.len() && (#[trigger] e[i]).0 == pid && (forall|j: int| i < j < e.len() ==> e[j].0 != pid)
            implies entries_map(e)[pid] == (e[i].1, e[i].2) by {
            if i < e.len() - 1 {
                assert(e.last().0 != pid);
                assert(p[i] == e[i]);
                assert forall|j: int| i < j < p.len() implies p[j].0 != pid by {
                    assert(p[j] == e[j]);
                }
            }
        }
        if entries_map(e).contains_key(pid) && e.last().0 != pid {
            let k = choose|i: int| 0 <= i < p.len() && (#[trigger] p[i]).0 == pid;
            assert(e[k] == p[k]);
        }
        if exists|i: int| 0 <= i < e.len() && (#[trigger] e[i]).0 == pid {
            let k = choose|i: int| 0 <= i < e.len() && (#[trigger] e[i]).0 == pid;
            if k < e.len() - 1 {
                assert(p[k] == e[k]);
            }
        }
    }
}

fn find_entry(e: &Vec<(u32, u64, ProcessPriorities)>, pid: u32) -> (r: Option<usize>)
    ensures
        match r {
            Some(i) => i < e@.len() && e@[i as int].0 == pid && forall|j: int| i < j < e@.len() ==> e@[j].0 != pid,
            None => forall|j: int| 0 <= j < e@.len() ==> (#[trigger] e@[j]).0 != pid,
        },
{
    let mut i: usize = e.len();
    while i > 0
        invariant
            i <= e@.len(),
            forall|j: int| i <= j < e@.len() ==> (#[trigger] e@[j]).0 != pid,
        decreases i,
    {
        if e[i - 1].0 == pid {
            return Some(i - 1);
        }
        i = i - 1;
    }
    None
}

impl UpsertTracker {
    /// Nothing pushed yet.
    pub fn new() -> (t: Self)
        ensures
            t@ == Map::<u32, (u64, ProcessPriorities)>::empty(),
    {
        UpsertTracker { entries: Vec::new() }
    }

    fn lookup(&self, pid: u32) -> (r: Option<(u64, ProcessPriorities)>)
        ensures
            match r {
                Some(v) => self@.contains_key(pid) && self@[pid] == v,
                None => !self@.contains_key(pid),
            },
    {
        proof {
            lemma_entries_map_find(self.entries@, pid);
        }
        match find_entry(&self.entries, pid) {
            Some(i) => Some((self.entries[i].1, self.entries[i].2)),
            None => None,
        }
    }

    /// Select the rows of this round to push, in order, and remember what
    /// was pushed. `previous` are the PIDs of the previous round.
    pub fn select_upserts(&mut self, states: &[ProcessState], previous: &[u32]) -> (picked: Vec<usize>)
        ensures
            (final(self)@, picked@.map_values(|i: usize| i as int)) == upsert_round(old(self)@, previous@, states@, states@.len()),
    {
        let mut picked: Vec<usize> = Vec::new();
        let mut i: usize = 0;
        while i < states.len()
            invariant
                i <= states@.len(),
                (self@, picked@.map_values(|k: usize| k as int)) == upsert_round(old(self)@, previous@, states@, i as nat),
            decreases states.len() - i,
        {
            let s = states[i];
            let mut was_seen = false;
            let mut k: usize = 0;
            while k < previous.len()
                invariant
                    k <= previous@.len(),
                    was_seen <==> exists|m: int| 0 <= m < k && previous@[m] == s.pid,
                decreases previous.len() - k,
            {
                if previous[k] == s.pid {
                    was_seen = true;
                }
                k = k + 1;
            }
            assert(was_seen == previous@.contains(s.pid));
            let prev = self.lookup(s.pid);
            let prev_mem: u64 = match prev {
                Some((m, _)) => m,
                None => 0,
            };
            let prio_changed = match prev {
                Some((_, p)) => !(p == s.priorities),
                None => true,
            };
            let diff: u64 = if s.memory_bytes >= prev_mem { s.memory_bytes - prev_mem } else { prev_mem - s.memory_bytes };
            let ghost before = picked@.map_values(|k: usize| k as int);
            let ghost old_entries = self.entries@;
            let ghost m1 = self@;
            proof {
                assert(states@[i as int] == s);
                assert(needs_upsert(m1, !previous@.contains(s.pid), s) == (!was_seen || diff > MEMORY_CHANGE_BYTES || prio_changed));
            }
            if !was_seen || diff > MEMORY_CHANGE_BYTES || prio_changed {
                self.entries.push((s.pid, s.memory_bytes, s.priorities));
                picked.push(i);
                assert(picked@.map_values(|k: usize| k as int) =~= before.push(i as int));
                assert(self.entries@.drop_last() =~= old_entries);
                assert(self@ == m1.insert(s.pid, (s.memory_bytes, s.priorities)));
            }
            i = i + 1;
        }
        picked
    }

    /// Forget the processes that exited.
    pub fn forget(&mut self, removed: &[u32])
        ensures
            final(self)@ == old(self)@.remove_keys(removed@.to_set()),
    {
        let mut kept: Vec<(u32, u64, ProcessPriorities)> = Vec::new();
        let mut i: usize = 0;
        while i < self.entries.len()
            invariant
                i <= self.entries@.len(),
                self.entries@ == old(self).entries@,
                entries_map(kept@) == entries_map(self.entries@.subrange(0, i as int)).remove_keys(removed@.to_set()),
            decreases self.entries.len() - i,
        {
            let e = self.entries[i];
            let mut gone = false;
            let mut k: usize = 0;
            while k < removed.len()
                invariant
                    k <= removed@.len(),
                    gone <==> exists|m: int| 0 <= m < k && removed@[m] == e.0,
                decreases removed.len() - k,
            {
                if removed[k] == e.0 {
                    gone = true;
                }
                k = k + 1;
            }
            proof {
                let sub = self.entries@.subrange(0, i + 1);
                assert(sub.drop_last() =~= self.entries@.subrange(0, i as int));
                assert(sub.last() == e);
                assert(gone == removed@.to_set().contains(e.0));
            }
            let ghost kept_before = kept@;
            if !gone {
                kept.push(e);
                assert(kept@.drop_last() =~= kept_before);
            }
            proof {
                let sub = self.entries@.subrange(0, i + 1);
                let rs = removed@.to_set();
                assert(entries_map(sub) == entries_map(self.entries@.subrange(0, i as int)).insert(e.0, (e.1, e.2)));
                assert(entries_map(kept@) =~= entries_map(sub).remove_keys(rs));
            }
            i = i + 1;
        }
        assert(self.entries@.subrange(0, i as int) =~= self.entries@);
        self.entries = kept;
    }
}

// =========================================================================
// Logical processor utilization
// =========================================================================

/// Cumulative idle, kernel and user times of one logical processor
/// (kernel time includes idle time).
#[derive(Clone, Copy, Debug)]
pub struct LpTimes {
    pub idle: i64,
    pub kernel: i64,
    pub user: i64,
}

/// Busy share of a processor since the previous reading, in hundredths of
/// a percent: `1 - idle / (kernel + user)` over the deltas (their sum
/// saturating at the `i64` range), clamped to
/// 0..=100%; 0 without a previous reading or without elapsed time.
pub open spec fn lp_usage_spec(prev: Option<LpTimes>, cur: LpTimes) -> u32 {
    match prev {
        None => 0,
        Some(o) => {
            let sum = (cur.kernel - o.kernel) + (cur.user - o.user);
            let total = if sum > i64::MAX { i64::MAX as int } else if sum < i64::MIN { i64::MIN as int } else { sum };
            let idle = if cur.idle - o.idle > 0 { cur.idle - o.idle } else { 0 };
            if total <= 0 {
                0
            } else if idle >= total {
                0
            } else {
                ((total - idle) * 10_000 / total) as u32
            }
        },
    }
}

/// The utilization of one logical processor (hundredths of a percent).
pub fn lp_usage(prev: Option<LpTimes>, cur: LpTimes) -> (u: u32)
    requires
        prev matches Some(o) ==> {
            &&& i64::MIN <= cur.kernel - o.kernel <= i64::MAX
            &&& i64::MIN <= cur.user - o.user <= i64::MAX
            &&& i64::MIN <= cur.idle - o.idle <= i64::MAX
        },
    ensures
        u == lp_usage_spec(prev, cur),
        u <= 10_000,
{
    match prev {
        None => 0,
        Some(o) => {
            let dk: i64 = cur.kernel - o.kernel;
            let du: i64 = cur.user - o.user;
            let wide: i128 = (dk as i128) + (du as i128);
            let total: i64 = if wide > 0x7FFF_FFFF_FFFF_FFFF { i64::MAX } else if wide < -0x8000_0000_0000_0000 { i64::MIN } else { wide as i64 };
            let d_idle: i64 = cur.idle - o.idle;
            let idle: i64 = if d_idle > 0 { d_idle } else { 0 };
            if total <= 0 {
                0
            } else if idle >= total {
                0
            } else {
                let busy: i128 = (total - idle) as i128;
                let scaled: i128 = busy * 10_000;
                let q: i128 = scaled / (total as i128);
                assert(q <= 10_000) by (nonlinear_arith)
                    requires
                        0 < busy <= total,
                        scaled == busy * 10_000,
                        q == scaled / (total as i128),
                ;
                assert(q >= 0) by (nonlinear_arith)
                    requires
                        0 < busy,
                        0 < total,
                        scaled == busy * 10_000,
                        q == scaled / (total as i128),
                ;
                q as u32
            }
        },
    }
}

/// The previous reading of processor `i`, if there is one.
pub open spec fn prev_at(prev: Option<Seq<LpTimes>>, i: int) -> Option<LpTimes> {
    match prev {
        Some(p) => if 0 <= i < p.len() { Some(p[i]) } else { None },
        None => None,
    }
}

pub open spec fn opt_lp_seq(prev: Option<Vec<LpTimes>>) -> Option<Seq<LpTimes>> {
    match prev {
        Some(p) => Some(p@),
        None => None,
    }
}

/// Utilization of every logical processor against the previous reading
/// (the first reading, or a processor without one, gives 0).
pub fn lp_usages(prev: &Option<Vec<LpTimes>>, cur: &[LpTimes]) -> (r: Vec<u32>)
    requires
        forall|i: int| 0 <= i < cur@.len() ==> (#[trigger] prev_at(opt_lp_seq(*prev), i) matches Some(o) ==> {
            &&& i64::MIN <= cur@[i].kernel - o.kernel <= i64::MAX
            &&& i64::MIN <= cur@[i].user - o.user <= i64::MAX
            &&& i64::MIN <= cur@[i].idle - o.idle <= i64::MAX
        }),
    ensures
        r@.len() == cur@.len(),
        forall|i: int| 0 <= i < cur@.len() ==> #[trigger] r@[i] == lp_usage_spec(prev_at(opt_lp_seq(*prev), i), cur@[i]),
{
    let mut out: Vec<u32> = Vec::new();
    let mut i: usize = 0;
    while i < cur.len()
        invariant
            i <= cur@.len(),
            out@.len() == i,
            forall|k: int| 0 <= k < cur@.len() ==> (#[trigger] prev_at(opt_lp_seq(*prev), k) matches Some(o) ==> {
                &&& i64::MIN <= cur@[k].kernel - o.kernel <= i64::MAX
                &&& i64::MIN <= cur@[k].user - o.user <= i64::MAX
                &&& i64::MIN <= cur@[k].idle - o.idle <= i64::MAX
            }),
            forall|k: int| 0 <= k < i ==> #[trigger] out@[k] == lp_usage_spec(prev_at(opt_lp_seq(*prev), k), cur@[k]),
        decreases cur.len() - i,
    {
        let p: Option<LpTimes> = match prev {
            Some(v) => if i < v.len() { Some(v[i]) } else { None },
            None => None,
        };
        assert(p == prev_at(opt_lp_seq(*prev), i as int));
        out.push(lp_usage(p, cur[i]));
        i = i + 1;
    }
    out
}

// =========================================================================
// Process list
// =========================================================================

/// One process of the fast scan.
#[derive(Debug)]
pub struct RawEntry {
    pub pid: u32,
    pub name: String,
    pub parent_pid: u32,
}

/// The fast scan always lists the idle process (PID 0): when the snapshot
/// did not report it, it is added first.
pub fn with_idle_entry(entries: Vec<RawEntry>) -> (r: Vec<RawEntry>)
    ensures
        (exists|i: int| 0 <= i < entries@.len() && (#[trigger] entries@[i]).pid == 0) ==> r@ == entries@,
        !(exists|i: int| 0 <= i < entries@.len() && (#[trigger] entries@[i]).pid == 0) ==> {
            &&& r@.len() == entries@.len() + 1
            &&& r@[0].pid == 0 && r@[0].name@ == "System Idle Process"@ && r@[0].parent_pid == 0
            &&& r@.subrange(1, r@.len() as int) == entries@
        },
{
    let mut i: usize = 0;
    while i < entries.len()
        invariant
            i <= entries@.len(),
            forall|k: int| 0 <= k < i ==> (#[trigger] entries@[k]).pid != 0,
        decreases entries.len() - i,
    {
        if entries[i].pid == 0 {
            return entries;
        }
        i = i + 1;
    }
    let mut r = entries;
    let ghost before = r@;
    r.insert(0, RawEntry { pid: 0, name: String::from_str("System Idle Process"), parent_pid: 0 });
    proof {
        reveal_strlit("System Idle Process");
        assert(r@.subrange(1, r@.len() as int) =~= before);
    }
    r
}

/// The idle process and the System process (PIDs 0 and 4).
pub fn is_system_process(pid: u32) -> (b: bool)
    ensures
        b == (pid == 0 || pid == 4),
{
    pid == 0 || pid == 4
}

/// Sort key of the initial process list: system processes first, then by
/// PID ascending (ordering by this key is the list's order).
pub fn process_order_key(pid: u32) -> (k: (u8, u32))
    ensures
        k == (if pid == 0 || pid == 4 { 0u8 } else { 1u8 }, pid),
{
    (if is_system_process(pid) { 0 } else { 1 }, pid)
}

/// A row is marked access-denied when only a limited handle was available,
/// or when neither its affinity nor its CPU times could be read.
pub fn row_access_denied(partially_denied: bool, affinity_read: bool, cpu_times_read: bool) -> (b: bool)
    ensures
        b == (partially_denied || (!affinity_read && !cpu_times_read)),
{
    partially_denied || (!affinity_read && !cpu_times_read)
}

/// Readable name of the common NTSTATUS values of the network probe.
pub fn nt_status_name(status: u32) -> (s: &'static str)
    ensures
        status == 0 ==> s@ == "STATUS_SUCCESS"@,
        status == 0xC0000003 ==> s@ == "STATUS_INVALID_INFO_CLASS"@,
        status == 0xC0000004 ==> s@ == "STATUS_INFO_LENGTH_MISMATCH"@,
        status == 0xC0000005 ==> s@ == "STATUS_ACCESS_VIOLATION"@,
        status == 0xC000000D ==> s@ == "STATUS_INVALID_PARAMETER"@,
        status == 0xC0000022 ==> s@ == "STATUS_ACCESS_DENIED"@,
        status == 0xC0000225 ==> s@ == "STATUS_NOT_FOUND"@,
        status == 0xC0000008 ==> s@ == "STATUS_INVALID_HANDLE"@,
        !(status == 0 || status == 0xC0000003 || status == 0xC0000004 || status == 0xC0000005 || status == 0xC000000D
            || status == 0xC0000022 || status == 0xC0000225 || status == 0xC0000008) ==> s@ == "UNKNOWN"@,
{
    match status {
        0 => "STATUS_SUCCESS",
        0xC0000003 => "STATUS_INVALID_INFO_CLASS",
        0xC0000004 => "STATUS_INFO_LENGTH_MISMATCH",
        0xC0000005 => "STATUS_ACCESS_VIOLATION",
        0xC000000D => "STATUS_INVALID_PARAMETER",
        0xC0000022 => "STATUS_ACCESS_DENIED",
        0xC0000225 => "STATUS_NOT_FOUND",
        0xC0000008 => "STATUS_INVALID_HANDLE",
        _ => "UNKNOWN",
    }
}


// =========================================================================
// Wave batches
// =========================================================================

/// One wave of a metrics tick: rows of numbers for one group of columns.
#[derive(Debug)]
pub struct MetricsWave {
    /// 1 CPU, 2 memory, 3 disk, 4 network.
    pub wave: u8,
    pub batch: Vec<Vec<u64>>,
}

/// Row of wave 1: PID and CPU load (hundredths of a percent).
pub open spec fn cpu_row(r: (u32, RateSample)) -> Seq<u64> {
    seq![r.0 as u64, r.1.cpu_centipercent]
}

/// Row of wave 2: PID and memory bytes.
pub open spec fn memory_row(m: (u32, u64)) -> Seq<u64> {
    seq![m.0 as u64, m.1]
}

/// Row of wave 3: PID, disk read and write rates.
pub open spec fn disk_row(r: (u32, RateSample)) -> Seq<u64> {
    seq![r.0 as u64, r.1.disk_read_bps, r.1.disk_write_bps]
}

/// Row of wave 4: PID, network in and out rates.
pub open spec fn net_row(r: (u32, RateSample)) -> Seq<u64> {
    seq![r.0 as u64, r.1.net_in_bps, r.1.net_out_bps]
}

pub open spec fn rows_of<T>(items: Seq<T>, row: spec_fn(T) -> Seq<u64>) -> Seq<Seq<u64>> {
    items.map_values(row)
}

pub open spec fn batch_view(b: Seq<Vec<u64>>) -> Seq<Seq<u64>> {
    b.map_values(|v: Vec<u64>| v@)
}

fn rate_rows(rates: &[(u32, RateSample)], wave: u8) -> (b: Vec<Vec<u64>>)
    requires
        wave == 1 || wave == 3 || wave == 4,
    ensures
        batch_view(b@) == rows_of(rates@, if wave == 1 { |r: (u32, RateSample)| cpu_row(r) } else if wave == 3 {
            |r: (u32, RateSample)| disk_row(r) } else { |r: (u32, RateSample)| net_row(r) }),
{
    let ghost f = if wave == 1 { |r: (u32, RateSample)| cpu_row(r) } else if wave == 3 {
        |r: (u32, RateSample)| disk_row(r) } else { |r: (u32, RateSample)| net_row(r) };
    let mut b: Vec<Vec<u64>> = Vec::new();
    let mut i: usize = 0;
    while i < rates.len()
        invariant
            i <= rates@.len(),
            wave == 1 || wave == 3 || wave == 4,
            f == (if wave == 1 { |r: (u32, RateSample)| cpu_row(r) } else if wave == 3 {
                |r: (u32, RateSample)| disk_row(r) } else { |r: (u32, RateSample)| net_row(r) }),
            b@.len() == i,
            batch_view(b@) == rows_of(rates@.subrange(0, i as int), f),
        decreases rates.len() - i,
    {
        let (pid, r) = rates[i];
        let mut row: Vec<u64> = Vec::new();
        row.push(pid as u64);
        if wave == 1 {
            row.push(r.cpu_centipercent);
        } else if wave == 3 {
            row.push(r.disk_read_bps);
            row.push(r.disk_write_bps);
        } else {
            row.push(r.net_in_bps);
            row.push(r.net_out_bps);
        }
        assert(row@ =~= f(rates@[i as int]));
        let ghost before = b@;
        b.push(row);
        proof {
            let sub = rates@.subrange(0, i + 1);
            assert forall|k: int| 0 <= k < b@.len() implies #[trigger] b@[k]@ == f(sub[k]) by {
                if k < i {
                    assert(b@[k] == before[k]);
                    assert(batch_view(before)[k] == rows_of(rates@.subrange(0, i as int), f)[k]);
                }
            }
        }
        i = i + 1;
        assert(batch_view(b@) =~= rows_of(rates@.subrange(0, i as int), f));
    }
    assert(rates@.subrange(0, i as int) =~= rates@);
    b
}

/// The four waves of a metrics tick, pushed in turn so that the view updates
/// CPU, then memory, then disk, then network: one row per process of each.
pub fn build_waves(rates: &[(u32, RateSample)], memory_by_pid: &[(u32, u64)]) -> (w: Vec<MetricsWave>)
    ensures
        w@.len() == 4,
        w@[0].wave == 1 && batch_view(w@[0].batch@) == rows_of(rates@, |r: (u32, RateSample)| cpu_row(r)),
        w@[1].wave == 2 && batch_view(w@[1].batch@) == rows_of(memory_by_pid@, |m: (u32, u64)| memory_row(m)),
        w@[2].wave == 3 && batch_view(w@[2].batch@) == rows_of(rates@, |r: (u32, RateSample)| disk_row(r)),
        w@[3].wave == 4 && batch_view(w@[3].batch@) == rows_of(rates@, |r: (u32, RateSample)| net_row(r)),
{
    let wave1 = rate_rows(rates, 1);
    let mut wave2: Vec<Vec<u64>> = Vec::new();
    let mut i: usize = 0;
    while i < memory_by_pid.len()
        invariant
            i <= memory_by_pid@.len(),
            wave2@.len() == i,
            batch_view(wave2@) == rows_of(memory_by_pid@.subrange(0, i as int), |m: (u32, u64)| memory_row(m)),
        decreases memory_by_pid.len() - i,
    {
        let (pid, mem) = memory_by_pid[i];
        let mut row: Vec<u64> = Vec::new();
        row.push(pid as u64);
        row.push(mem);
        assert(row@ =~= memory_row(memory_by_pid@[i as int]));
        let ghost before = wave2@;
        wave2.push(row);
        proof {
            let sub = memory_by_pid@.subrange(0, i + 1);
            assert forall|k: int| 0 <= k < wave2@.len() implies #[trigger] wave2@[k]@ == memory_row(sub[k]) by {
                if k < i {
                    assert(wave2@[k] == before[k]);
                    assert(batch_view(before)[k] == rows_of(memory_by_pid@.subrange(0, i as int), |m: (u32, u64)| memory_row(m))[k]);
                }
            }
        }
        i = i + 1;
        assert(batch_view(wave2@) =~= rows_of(memory_by_pid@.subrange(0, i as int), |m: (u32, u64)| memory_row(m)));
    }
    assert(memory_by_pid@.subrange(0, i as int) =~= memory_by_pid@);
    let wave3 = rate_rows(rates, 3);
    let wave4 = rate_rows(rates, 4);
    let mut w: Vec<MetricsWave> = Vec::new();
    w.push(MetricsWave { wave: 1, batch: wave1 });
    w.push(MetricsWave { wave: 2, batch: wave2 });
    w.push(MetricsWave { wave: 3, batch: wave3 });
    w.push(MetricsWave { wave: 4, batch: wave4 });
    w
}


// =========================================================================
// Laws of the rates
// =========================================================================

/// Each rate comes from its own counter alone: the bytes that counter
/// gained (0 when it went back) times 1000 over the interval in ms,
/// capped at `u64::MAX`; the CPU load is the 100-ns ticks gained over the
/// interval in ms, capped at 110% of every processor. Without a previous
/// snapshot every rate is 0.
pub proof fn lemma_rates_follow_their_counters(prev: Option<ProcessSnapshot>, cur: ProcessSnapshot, dt_ms: nat, nproc: u32)
    requires
        dt_ms > 0,
    ensures
        prev is None ==> rate_spec(prev, cur, dt_ms, nproc) == (RateSample {
            cpu_centipercent: 0, disk_read_bps: 0, disk_write_bps: 0, net_in_bps: 0, net_out_bps: 0 }),
        prev matches Some(p) ==> {
            let r = rate_spec(prev, cur, dt_ms, nproc);
            let d_cpu: int = if cur.cpu_total_ticks >= p.cpu_total_ticks { cur.cpu_total_ticks - p.cpu_total_ticks } else { 0 };
            let d_rd: int = if cur.disk_read_bytes >= p.disk_read_bytes { cur.disk_read_bytes - p.disk_read_bytes } else { 0 };
            let d_wr: int = if cur.disk_write_bytes >= p.disk_write_bytes { cur.disk_write_bytes - p.disk_write_bytes } else { 0 };
            let d_in: int = if cur.net_in_bytes >= p.net_in_bytes { cur.net_in_bytes - p.net_in_bytes } else { 0 };
            let d_out: int = if cur.net_out_bytes >= p.net_out_bytes { cur.net_out_bytes - p.net_out_bytes } else { 0 };
            &&& r.cpu_centipercent as int == if d_cpu / (dt_ms as int) > nproc * 11_000 { nproc * 11_000 } else { d_cpu / (dt_ms as int) }
            &&& r.disk_read_bps as int == if d_rd * 1000 / (dt_ms as int) > u64::MAX { u64::MAX as int } else { d_rd * 1000 / (dt_ms as int) }
            &&& r.disk_write_bps as int == if d_wr * 1000 / (dt_ms as int) > u64::MAX { u64::MAX as int } else { d_wr * 1000 / (dt_ms as int) }
            &&& r.net_in_bps as int == if d_in * 1000 / (dt_ms as int) > u64::MAX { u64::MAX as int } else { d_in * 1000 / (dt_ms as int) }
            &&& r.net_out_bps as int == if d_out * 1000 / (dt_ms as int) > u64::MAX { u64::MAX as int } else { d_out * 1000 / (dt_ms as int) }
        },
{
    if let Some(p) = prev {
        let d_cpu: int = if cur.cpu_total_ticks >= p.cpu_total_ticks { cur.cpu_total_ticks - p.cpu_total_ticks } else { 0 };
        assert(d_cpu / (dt_ms as int) <= d_cpu) by {
            vstd::arithmetic::div_mod::lemma_div_is_ordered_by_denominator(d_cpu, 1, dt_ms as int);
        }
    }
}

/// Two snapshots that differ only in other counters give the same outbound
/// rate, and a counter that did not grow gives a zero rate.
pub proof fn lemma_net_out_rate_independent(p: ProcessSnapshot, c1: ProcessSnapshot, c2: ProcessSnapshot, dt_ms: nat, nproc: u32)
    requires
        dt_ms > 0,
        c1.net_out_bytes == c2.net_out_bytes,
    ensures
        rate_spec(Some(p), c1, dt_ms, nproc).net_out_bps == rate_spec(Some(p), c2, dt_ms, nproc).net_out_bps,
        c1.net_out_bytes <= p.net_out_bytes ==> rate_spec(Some(p), c1, dt_ms, nproc).net_out_bps == 0,
{
    lemma_rates_follow_their_counters(Some(p), c1, dt_ms, nproc);
    lemma_rates_follow_their_counters(Some(p), c2, dt_ms, nproc);
}

/// Busy share: over a reading whose idle time is within its total time
/// (kernel + user, which includes idle), the value is the busy part of the
/// total in hundredths of a percent: 10 000 with no idle time.
pub proof fn lemma_lp_usage_busy_share(o: LpTimes, cur: LpTimes)
    requires
        0 <= cur.idle - o.idle < (cur.kernel - o.kernel) + (cur.user - o.user) <= i64::MAX,
    ensures
        lp_usage_spec(Some(o), cur) as int == ((cur.kernel - o.kernel) + (cur.user - o.user) - (cur.idle - o.idle)) * 10_000
            / ((cur.kernel - o.kernel) + (cur.user - o.user)),
        cur.idle == o.idle ==> lp_usage_spec(Some(o), cur) == 10_000,
{
    let t: int = (cur.kernel - o.kernel) + (cur.user - o.user);
    let i: int = cur.idle - o.idle;
    assert((t - i) * 10_000 / t <= 10_000) by (nonlinear_arith)
        requires
            0 <= i < t,
    ;
    assert((t - i) * 10_000 / t >= 0) by (nonlinear_arith)
        requires
            0 <= i < t,
    ;
    if i == 0 {
        assert(t * 10_000 / t == 10_000) by (nonlinear_arith)
            requires
                0 < t,
        ;
    }
}

/// A processor idle for its whole reading is 0% busy.
pub proof fn lemma_lp_usage_fully_idle(o: LpTimes, cur: LpTimes)
    requires
        0 < (cur.kernel - o.kernel) + (cur.user - o.user) <= cur.idle - o.idle,
        (cur.kernel - o.kernel) + (cur.user - o.user) <= i64::MAX,
    ensures
        lp_usage_spec(Some(o), cur) == 0,
{
}

/// More idle time over the same total never raises the value.
pub proof fn lemma_lp_usage_idle_lowers(o: LpTimes, c1: LpTimes, c2: LpTimes)
    requires
        (c1.kernel - o.kernel) + (c1.user - o.user) == (c2.kernel - o.kernel) + (c2.user - o.user),
        0 < (c1.kernel - o.kernel) + (c1.user - o.user) <= i64::MAX,
        0 <= c1.idle - o.idle <= c2.idle - o.idle,
    ensures
        lp_usage_spec(Some(o), c2) <= lp_usage_spec(Some(o), c1),
{
    let t: int = (c1.kernel - o.kernel) + (c1.user - o.user);
    let i1: int = c1.idle - o.idle;
    let i2: int = c2.idle - o.idle;
    if i2 < t {
        lemma_lp_usage_busy_share(o, c1);
        lemma_lp_usage_busy_share(o, c2);
        vstd::arithmetic::div_mod::lemma_div_is_ordered((t - i2) * 10_000, (t - i1) * 10_000, t);
    }
}

} // verus!
