//! Action log entries, the statistics derived from them, the pairing of
//! unrestored downgrades, and the status record. Reading and writing the
//! JSONL files is done by the application.
use vstd::prelude::*;

use crate::procwin::ProcessPriorities;
use crate::text::str_eq;

verus! {

/// Log rotation threshold in bytes (the log is renamed to `.old` above it).
pub const PB_LOG_ROTATE_BYTES: u64 = 512 * 1024;

/// The log is rotated (renamed to `.old`) before appending once it is
/// larger than the threshold.
pub fn needs_rotation(current_size: u64) -> (b: bool)
    ensures
        b == (current_size > PB_LOG_ROTATE_BYTES),
{
    current_size > PB_LOG_ROTATE_BYTES
}

/// One action log entry.
#[derive(Debug)]
pub struct PbLogEntry {
    /// Unix seconds.
    pub ts: u64,
    /// "downgrade" | "restore" | "exit" | "game_mode_boost" | "game_mode_restore".
    pub action: String,
    /// Restore reason (for restore / exit / game mode restore).
    pub reason: Option<String>,
    pub pid: u32,
    pub name: String,
    /// CPU load at the time of the downgrade (hundredths of a percent).
    pub cpu: Option<u64>,
    /// Priorities before the action.
    pub from: Option<ProcessPriorities>,
    /// Priorities after the action.
    pub to: Option<ProcessPriorities>,
}

/// Aggregate over the retained action journal.
#[derive(Clone, Copy, Debug, PartialEq, Eq, Structural)]
pub struct PbStatistics {
    pub downgrade_count: u64,
    pub restore_count: u64,
    pub exit_count: u64,
    pub unique_processes: u64,
}

/// Service-side engine state, rewritten every tick.
#[derive(Debug)]
pub struct PbStatus {
    /// Write time (Unix seconds); its freshness tells the GUI the service
    /// is alive.
    pub ts: u64,
    pub enabled: bool,
    pub engaged: bool,
    pub downgraded: usize,
    pub fg_pid: Option<u32>,
    /// Foreground CPU load (hundredths of a percent).
    pub fg_cpu_percent: Option<u64>,
    pub game_mode_active: bool,
}

/// Number of entries whose action is `action`.
pub open spec fn count_action(entries: Seq<PbLogEntry>, action: Seq<char>) -> nat
    decreases entries.len(),
{
    if entries.len() == 0 {
        0
    } else {
        count_action(entries.drop_last(), action) + if entries.last().action@ == action { 1nat } else { 0nat }
    }
}

/// The distinct (PID, name) pairs of the entries, in order of first
/// appearance.
pub open spec fn first_keys(entries: Seq<PbLogEntry>) -> Seq<(u32, Seq<char>)>
    decreases entries.len(),
{
    if entries.len() == 0 {
        Seq::empty()
    } else {
        let keys = first_keys(entries.drop_last());
        let k = (entries.last().pid, entries.last().name@);
        if keys.contains(k) { keys } else { keys.push(k) }
    }
}

/// The statistics of a journal: per-action counts and the number of
/// distinct (PID, name) pairs.
pub open spec fn spec_statistics(entries: Seq<PbLogEntry>) -> PbStatistics {
    PbStatistics {
        downgrade_count: count_action(entries, "downgrade"@) as u64,
        restore_count: count_action(entries, "restore"@) as u64,
        exit_count: count_action(entries, "exit"@) as u64,
        unique_processes: first_keys(entries).len() as u64,
    }
}

/// The (PID, name) pair of an entry.
pub open spec fn entry_key(e: PbLogEntry) -> (u32, Seq<char>) {
    (e.pid, e.name@)
}

/// The set of (PID, name) pairs of the entries.
pub open spec fn entry_keys(entries: Seq<PbLogEntry>) -> Set<(u32, Seq<char>)> {
    entries.map_values(|e: PbLogEntry| entry_key(e)).to_set()
}

proof fn lemma_first_keys(entries: Seq<PbLogEntry>)
    ensures
        first_keys(entries).no_duplicates(),
        forall|k: (u32, Seq<char>)| #[trigger] first_keys(entries).contains(k) <==> entry_keys(entries).contains(k),
    decreases entries.len(),
{
    broadcast use vstd::set::group_set_axioms;
    if entries.len() > 0 {
        let d = entries.drop_last();
        lemma_first_keys(d);
        let keys = first_keys(d);
        let k = entry_key(entries.last());
        let ms = entries.map_values(|e: PbLogEntry| entry_key(e));
        let md = d.map_values(|e: PbLogEntry| entry_key(e));
        assert(ms =~= md.push(k));
        assert forall|x: (u32, Seq<char>)| ms.contains(x) <==> md.contains(x) || x == k by {
            if ms.contains(x) {
                let i = choose|i: int| 0 <= i < ms.len() && ms[i] == x;
                if i < md.len() {
                    assert(md[i] == x);
                }
            }
            if md.contains(x) {
                let i = choose|i: int| 0 <= i < md.len() && md[i] == x;
                assert(ms[i] == x);
            }
            if x == k {
                assert(ms[ms.len() - 1] == x);
            }
        }
        if !keys.contains(k) {
            let f = keys.push(k);
            assert forall|i: int, j: int| 0 <= i < f.len() && 0 <= j < f.len() && i != j implies f[i] != f[j] by {
                if i < keys.len() && j < keys.len() {
                    assert(f[i] == keys[i] && f[j] == keys[j]);
                } else if i < keys.len() {
                    assert(f[i] == keys[i]);
                    assert(keys.contains(keys[i]));
                } else {
                    assert(f[j] == keys[j]);
                    assert(keys.contains(keys[j]));
                }
            }
            assert forall|x: (u32, Seq<char>)| f.contains(x) <==> keys.contains(x) || x == k by {
                if f.contains(x) {
                    let i = choose|i: int| 0 <= i < f.len() && f[i] == x;
                    if i < keys.len() {
                        assert(keys[i] == x);
                    }
                }
                if keys.contains(x) {
                    let i = choose|i: int| 0 <= i < keys.len() && keys[i] == x;
                    assert(f[i] == x);
                }
                if x == k {
                    assert(f[f.len() - 1] == x);
                }
            }
        }
    }
}

/// The number of distinct processes of the statistics is the number of
/// distinct (PID, name) pairs over all entries, whatever their action.
pub proof fn lemma_statistics_unique_processes(entries: Seq<PbLogEntry>)
    requires
        entries.len() <= u64::MAX,
    ensures
        spec_statistics(entries).unique_processes == entry_keys(entries).len(),
{
    broadcast use vstd::set::group_set_axioms;
    lemma_first_keys(entries);
    lemma_counts_bounded(entries, "downgrade"@);
    let keys = first_keys(entries);
    keys.unique_seq_to_set();
    assert(keys.to_set() =~= entry_keys(entries));
}

proof fn lemma_counts_bounded(entries: Seq<PbLogEntry>, action: Seq<char>)
    ensures
        count_action(entries, action) <= entries.len(),
        first_keys(entries).len() <= entries.len(),
    decreases entries.len(),
{
    if entries.len() > 0 {
        lemma_counts_bounded(entries.drop_last(), action);
    }
}

/// Statistics derived from the retained action journal.
pub fn statistics(entries: &[PbLogEntry]) -> (s: PbStatistics)
    ensures
        s == spec_statistics(entries@),
{
    let mut downgrade_count: u64 = 0;
    let mut restore_count: u64 = 0;
    let mut exit_count: u64 = 0;
    let mut seen: Vec<(u32, String)> = Vec::new();
    let mut i: usize = 0;
    while i < entries.len()
        invariant
            i <= entries@.len(),
            downgrade_count as nat == count_action(entries@.subrange(0, i as int), "downgrade"@),
            restore_count as nat == count_action(entries@.subrange(0, i as int), "restore"@),
            exit_count as nat == count_action(entries@.subrange(0, i as int), "exit"@),
            seen@.len() == first_keys(entries@.subrange(0, i as int)).len(),
            forall|k: int| 0 <= k < seen@.len() ==> (seen@[k].0, seen@[k].1@) == #[trigger] first_keys(entries@.subrange(0, i as int))[k],
        decreases entries.len() - i,
    {
        let e = &entries[i];
        let ghost pre = entries@.subrange(0, i as int);
        let ghost post = entries@.subrange(0, i + 1);
        proof {
            assert(post.drop_last() =~= pre);
            assert(post.last() == *e);
            lemma_counts_bounded(pre, "downgrade"@);
            lemma_counts_bounded(pre, "restore"@);
            lemma_counts_bounded(pre, "exit"@);
        }
        proof {
            reveal_strlit("downgrade");
            reveal_strlit("restore");
            reveal_strlit("exit");
        }
        assert("downgrade"@.len() == 9 && "restore"@.len() == 7 && "exit"@.len() == 4);
        if str_eq(e.action.as_str(), "downgrade") {
            downgrade_count = downgrade_count + 1;
        } else if str_eq(e.action.as_str(), "restore") {
            restore_count = restore_count + 1;
        } else if str_eq(e.action.as_str(), "exit") {
            exit_count = exit_count + 1;
        }
        let mut j: usize = 0;
        let mut found = false;
        while j < seen.len()
            invariant
                j <= seen@.len(),
                found <==> exists|k: int| 0 <= k < j && seen@[k].0 == e.pid && seen@[k].1@ == e.name@,
            decreases seen.len() - j,
        {
            if seen[j].0 == e.pid && seen[j].1 == e.name {
                found = true;
            }
            j = j + 1;
        }
        proof {
            let keys = first_keys(pre);
            let key = (e.pid, e.name@);
            if found {
                let k = choose|k: int| 0 <= k < seen@.len() && seen@[k].0 == e.pid && seen@[k].1@ == e.name@;
                assert(keys[k] == key);
                assert(keys.contains(key));
            } else {
                assert forall|k: int| 0 <= k < keys.len() implies keys[k] != key by {
                    assert((seen@[k].0, seen@[k].1@) == keys[k]);
                }
                assert(!keys.contains(key));
            }
        }
        if !found {
            seen.push((e.pid, e.name.clone()));
        }
        i = i + 1;
    }
    assert(entries@.subrange(0, i as int) =~= entries@);
    PbStatistics { downgrade_count, restore_count, exit_count, unique_processes: seen.len() as u64 }
}

/// The most recent `limit` entries of the rotated log followed by the
/// current log.
pub open spec fn log_tail(entries: Seq<PbLogEntry>, limit: usize) -> Seq<PbLogEntry> {
    if entries.len() > limit {
        entries.subrange(entries.len() - limit, entries.len() as int)
    } else {
        entries
    }
}

/// Merge the parsed entries of the rotated (`.old`) and the current log
/// and keep the most recent `limit`. Both files are read before the tail
/// is taken, so the newest entries are never lost; the buffer is trimmed
/// after each file.
pub fn read_log_tail(rotated: Vec<PbLogEntry>, current: Vec<PbLogEntry>, limit: usize) -> (r: Vec<PbLogEntry>)
    ensures
        r@ == log_tail(rotated@ + current@, limit),
{
    let ghost whole = rotated@ + current@;
    let mut all = rotated;
    if all.len() > limit {
        let at = all.len() - limit;
        all = all.split_off(at);
    }
    let mut cur = current;
    all.append(&mut cur);
    if all.len() > limit {
        let at = all.len() - limit;
        all = all.split_off(at);
    }
    assert(all@ =~= log_tail(whole, limit));
    all
}

/// A downgrade of the log that no restore or exit followed.
#[derive(Debug)]
pub struct OrphanDowngrade {
    pub pid: u32,
    pub name: String,
    /// The priorities before that downgrade.
    pub originals: ProcessPriorities,
}

/// Unpaired downgrades by PID after scanning the entries in order: a
/// `downgrade` that carries its original values records (or replaces) the
/// PID's entry, a `restore` or `exit` removes it.
pub open spec fn orphan_map(entries: Seq<PbLogEntry>) -> Map<u32, (Seq<char>, ProcessPriorities)>
    decreases entries.len(),
{
    if entries.len() == 0 {
        Map::empty()
    } else {
        let m = orphan_map(entries.drop_last());
        let e = entries.last();
        if e.action@ == "downgrade"@ {
            match e.from {
                Some(from) => m.insert(e.pid, (e.name@, from)),
                None => m,
            }
        } else if e.action@ == "restore"@ || e.action@ == "exit"@ {
            m.remove(e.pid)
        } else {
            m
        }
    }
}

/// The orphans as a map from PID to name and original values.
pub open spec fn orphans_as_map(v: Seq<OrphanDowngrade>) -> Map<u32, (Seq<char>, ProcessPriorities)> {
    Map::new(
        |pid: u32| exists|i: int| 0 <= i < v.len() && (#[trigger] v[i]).pid == pid,
        |pid: u32| {
            let i = choose|i: int| 0 <= i < v.len() && (#[trigger] v[i]).pid == pid;
            (v[i].name@, v[i].originals)
        },
    )
}

pub open spec fn orphan_pids_unique(v: Seq<OrphanDowngrade>) -> bool {
    forall|i: int, j: int| 0 <= i < v.len() && 0 <= j < v.len() && i != j ==> (#[trigger] v[i]).pid != (#[trigger] v[j]).pid
}

fn find_orphan(v: &Vec<OrphanDowngrade>, pid: u32) -> (r: Option<usize>)
    ensures
        match r {
            Some(i) => i < v@.len() && v@[i as int].pid == pid,
            None => forall|k: int| 0 <= k < v@.len() ==> (#[trigger] v@[k]).pid != pid,
        },
{
    let mut i: usize = 0;
    while i < v.len()
        invariant
            i <= v@.len(),
            forall|k: int| 0 <= k < i ==> (#[trigger] v@[k]).pid != pid,
        decreases v.len() - i,
    {
        if v[i].pid == pid {
            return Some(i);
        }
        i = i + 1;
    }
    None
}

/// Downgrades of the log that were never restored: the basis of the
/// startup reconciliation after an abnormal end. Several rounds on one PID
/// leave an orphan only when the last round is unpaired; a downgrade
/// without its original values is never an orphan.
pub fn pair_orphans(entries: &[PbLogEntry]) -> (r: Vec<OrphanDowngrade>)
    ensures
        orphan_pids_unique(r@),
        orphans_as_map(r@) == orphan_map(entries@),
{
    let mut out: Vec<OrphanDowngrade> = Vec::new();
    let mut i: usize = 0;
    proof {
        reveal_strlit("downgrade");
        reveal_strlit("restore");
        reveal_strlit("exit");
    }
    assert("downgrade"@.len() == 9 && "restore"@.len() == 7 && "exit"@.len() == 4);
    while i < entries.len()
        invariant
            i <= entries@.len(),
            "downgrade"@.len() == 9 && "restore"@.len() == 7 && "exit"@.len() == 4,
            orphan_pids_unique(out@),
            orphans_as_map(out@) == orphan_map(entries@.subrange(0, i as int)),
        decreases entries.len() - i,
    {
        let e = &entries[i];
        let ghost before = out@;
        let ghost pre = entries@.subrange(0, i as int);
        proof {
            assert(entries@.subrange(0, i + 1).drop_last() =~= pre);
            assert(entries@.subrange(0, i + 1).last() == *e);
        }
        if str_eq(e.action.as_str(), "downgrade") {
            if let Some(from) = e.from {
                let entry = OrphanDowngrade { pid: e.pid, name: e.name.clone(), originals: from };
                match find_orphan(&out, e.pid) {
                    Some(k) => {
                        out.set(k, entry);
                        proof {
                            assert forall|a: int, b: int| 0 <= a < out@.len() && 0 <= b < out@.len() && a != b implies (#[trigger] out@[a]).pid != (#[trigger] out@[b]).pid by {
                                if a != k && b != k {
                                    assert(out@[a] == before[a] && out@[b] == before[b]);
                                } else if a == k {
                                    assert(out@[b] == before[b]);
                                    assert(before[b].pid != before[k as int].pid);
                                } else {
                                    assert(out@[a] == before[a]);
                                    assert(before[a].pid != before[k as int].pid);
                                }
                            }
                            lemma_orphans_set(before, k as int, out@[k as int]);
                        }
                    },
                    None => {
                        out.push(entry);
                        proof {
                            assert forall|a: int, b: int| 0 <= a < out@.len() && 0 <= b < out@.len() && a != b implies (#[trigger] out@[a]).pid != (#[trigger] out@[b]).pid by {
                                if a < before.len() && b < before.len() {
                                    assert(out@[a] == before[a] && out@[b] == before[b]);
                                } else if a < before.len() {
                                    assert(out@[a] == before[a]);
                                } else {
                                    assert(out@[b] == before[b]);
                                }
                            }
                            lemma_orphans_push(before, out@.last());
                        }
                    },
                }
            }
        } else if str_eq(e.action.as_str(), "restore") || str_eq(e.action.as_str(), "exit") {
            match find_orphan(&out, e.pid) {
                Some(k) => {
                    out.remove(k);
                    proof {
                        assert forall|a: int, b: int| 0 <= a < out@.len() && 0 <= b < out@.len() && a != b implies (#[trigger] out@[a]).pid != (#[trigger] out@[b]).pid by {
                            let a2 = if a < k { a } else { a + 1 };
                            let b2 = if b < k { b } else { b + 1 };
                            assert(out@[a] == before[a2] && out@[b] == before[b2]);
                        }
                        lemma_orphans_remove(before, k as int);
                    }
                },
                None => {
                    proof {
                        assert(!orphans_as_map(before).contains_key(e.pid));
                        assert(orphans_as_map(before).remove(e.pid) =~= orphans_as_map(before));
                    }
                },
            }
        }
        i = i + 1;
    }
    assert(entries@.subrange(0, i as int) =~= entries@);
    out
}

proof fn lemma_orphans_set(v: Seq<OrphanDowngrade>, k: int, x: OrphanDowngrade)
    requires
        orphan_pids_unique(v),
        0 <= k < v.len(),
        v[k].pid == x.pid,
    ensures
        orphans_as_map(v.update(k, x)) == orphans_as_map(v).insert(x.pid, (x.name@, x.originals)),
{
    let w = v.update(k, x);
    assert forall|pid: u32| #[trigger] orphans_as_map(w).contains_key(pid) <==> orphans_as_map(v).insert(x.pid, (x.name@, x.originals)).contains_key(pid) by {
        if exists|i: int| 0 <= i < v.len() && (#[trigger] v[i]).pid == pid {
            let i = choose|i: int| 0 <= i < v.len() && (#[trigger] v[i]).pid == pid;
            if i == k {
                assert(w[k].pid == pid);
            } else {
                assert(w[i].pid == pid);
            }
        }
        if exists|i: int| 0 <= i < w.len() && (#[trigger] w[i]).pid == pid {
            let i = choose|i: int| 0 <= i < w.len() && (#[trigger] w[i]).pid == pid;
            if i != k {
                assert(v[i].pid == pid);
            }
        }
    }
    assert forall|pid: u32| #[trigger] orphans_as_map(w).contains_key(pid) implies orphans_as_map(w)[pid] == orphans_as_map(v).insert(x.pid, (x.name@, x.originals))[pid] by {
        let i = choose|i: int| 0 <= i < w.len() && (#[trigger] w[i]).pid == pid;
        if pid == x.pid {
            assert(w[k].pid == pid);
            if i != k {
                assert(v[i].pid == v[k].pid);
            }
        } else {
            assert(i != k);
            assert(v[i].pid == pid);
            let j = choose|j: int| 0 <= j < v.len() && (#[trigger] v[j]).pid == pid;
            if i != j {
                assert(v[i].pid != v[j].pid);
            }
        }
    }
    assert(orphans_as_map(w) =~= orphans_as_map(v).insert(x.pid, (x.name@, x.originals)));
}

proof fn lemma_orphans_push(v: Seq<OrphanDowngrade>, x: OrphanDowngrade)
    requires
        orphan_pids_unique(v.push(x)),
    ensures
        orphans_as_map(v.push(x)) == orphans_as_map(v).insert(x.pid, (x.name@, x.originals)),
{
    let w = v.push(x);
    let n = v.len() as int;
    assert forall|pid: u32| #[trigger] orphans_as_map(w).contains_key(pid) <==> orphans_as_map(v).insert(x.pid, (x.name@, x.originals)).contains_key(pid) by {
        if exists|i: int| 0 <= i < v.len() && (#[trigger] v[i]).pid == pid {
            let i = choose|i: int| 0 <= i < v.len() && (#[trigger] v[i]).pid == pid;
            assert(w[i].pid == pid);
        }
        if pid == x.pid {
            assert(w[n].pid == pid);
        }
        if exists|i: int| 0 <= i < w.len() && (#[trigger] w[i]).pid == pid {
            let i = choose|i: int| 0 <= i < w.len() && (#[trigger] w[i]).pid == pid;
            if i < n {
                assert(v[i].pid == pid);
            }
        }
    }
    assert forall|pid: u32| #[trigger] orphans_as_map(w).contains_key(pid) implies orphans_as_map(w)[pid] == orphans_as_map(v).insert(x.pid, (x.name@, x.originals))[pid] by {
        let i = choose|i: int| 0 <= i < w.len() && (#[trigger] w[i]).pid == pid;
        if pid == x.pid {
            if i != n {
                assert(w[i].pid != w[n].pid);
            }
        } else {
            assert(i < n);
            assert(v[i].pid == pid);
            let j = choose|j: int| 0 <= j < v.len() && (#[trigger] v[j]).pid == pid;
            if i != j {
                assert(w[i].pid != w[j].pid);
            }
        }
    }
    assert(orphans_as_map(w) =~= orphans_as_map(v).insert(x.pid, (x.name@, x.originals)));
}

proof fn lemma_orphans_remove(v: Seq<OrphanDowngrade>, k: int)
    requires
        orphan_pids_unique(v),
        0 <= k < v.len(),
    ensures
        orphans_as_map(v.remove(k)) == orphans_as_map(v).remove(v[k].pid),
{
    let w = v.remove(k);
    let p = v[k].pid;
    assert forall|pid: u32| #[trigger] orphans_as_map(w).contains_key(pid) <==> orphans_as_map(v).remove(p).contains_key(pid) by {
        if exists|i: int| 0 <= i < v.len() && (#[trigger] v[i]).pid == pid {
            let i = choose|i: int| 0 <= i < v.len() && (#[trigger] v[i]).pid == pid;
            if pid != p {
                assert(i != k);
                if i < k {
                    assert(w[i].pid == pid);
                } else {
                    assert(w[i - 1].pid == pid);
                }
            }
        }
        if exists|i: int| 0 <= i < w.len() && (#[trigger] w[i]).pid == pid {
            let i = choose|i: int| 0 <= i < w.len() && (#[trigger] w[i]).pid == pid;
            let i2 = if i < k { i } else { i + 1 };
            assert(v[i2].pid == pid);
            assert(i2 != k);
        }
    }
    assert forall|pid: u32| #[trigger] orphans_as_map(w).contains_key(pid) implies orphans_as_map(w)[pid] == orphans_as_map(v).remove(p)[pid] by {
        let i = choose|i: int| 0 <= i < w.len() && (#[trigger] w[i]).pid == pid;
        let i2 = if i < k { i } else { i + 1 };
        assert(v[i2] == w[i]);
        let j = choose|j: int| 0 <= j < v.len() && (#[trigger] v[j]).pid == pid;
        if i2 != j {
            assert(v[i2].pid != v[j].pid);
        }
    }
    assert(orphans_as_map(w) =~= orphans_as_map(v).remove(p));
}

} // verus!
