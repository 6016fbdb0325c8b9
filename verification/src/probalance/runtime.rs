//! Service-side orchestration decisions around the ProBalance engine.
//!
//! Each tick (one second) the service reloads the configuration when it
//! changed, samples, detects the foreground, lets the engine decide, then
//! carries the decisions out and logs them. The reading and writing of
//! process priorities and files is the application's; what to write, what
//! to remember and what to log is decided here.
//!
//! A foreground priority boost (Game Mode) is tracked apart from the
//! downgrades, so each policy restores only the value it changed.
use vstd::prelude::*;

use crate::matcher::{name_matches, spec_name_matches};
use crate::monitor::ProcSample;
use crate::procwin::{priority_class_rank, priority_writes, priority_writes_spec, spec_priority_class_rank, PriorityKind, ProcessPriorities};
use crate::rule::{AffinityRule, MatchType};

use super::config::ProBalanceConfig;
use super::engine::{
    cpu_above_downgrade_target, first_cpu_of, spec_cpu_above_downgrade_target, Decision, EngineView, ProBalanceEngine,
    RestoreReason, TickInput, DOWNGRADE_IO_PRIORITY, DOWNGRADE_PRIORITY_CLASS, restores, spec_tick,
};
use super::journal::{OrphanDowngrade, PbLogEntry, PbStatus};

verus! {

/// `SystemTime::elapsed` of the Unix epoch, in whole seconds (0 when the
/// clock is before the epoch). Nothing is promised about the value: it is
/// the machine's clock.
#[verifier::external_body]
pub(crate) fn unix_now() -> u64 {
    std::time::UNIX_EPOCH.elapsed().map_or(0, |d| d.as_secs())
}

/// Game Mode raises the foreground process to Above Normal.
pub const GAME_MODE_PRIORITY_CLASS: u32 = 0x8000;

/// A foreground process boosted by Game Mode, and the class to restore.
#[derive(Debug)]
pub struct GameModeBoost {
    pub pid: u32,
    pub name: String,
    pub original_priority: u32,
}

/// ProBalance orchestrator state for the service main loop.
pub struct ProBalanceRuntime {
    engine: ProBalanceEngine,
    game_boost: Option<GameModeBoost>,
}

// =========================================================================
// Downgrade and restore execution
// =========================================================================

/// Which of the two downgrades a process needs.
#[derive(Clone, Copy, Debug, PartialEq, Eq, Structural)]
pub struct DowngradePlan {
    /// Lower the CPU priority class to Below Normal.
    pub cpu: bool,
    /// Lower the IO priority to Very Low.
    pub io: bool,
}

/// What a downgrade needs given the process's current priorities: nothing
/// when its CPU class cannot be read (it could not be restored), nothing
/// when both are already at or below the targets.
pub open spec fn spec_plan_downgrade(p: ProcessPriorities) -> Option<DowngradePlan> {
    match p.priority_class {
        None => None,
        Some(pc) => {
            let cpu = spec_cpu_above_downgrade_target(pc);
            let io = p.io_priority matches Some(v) && v > DOWNGRADE_IO_PRIORITY;
            if !cpu && !io { None } else { Some(DowngradePlan { cpu: cpu, io: io }) }
        },
    }
}

pub fn plan_downgrade(prios: ProcessPriorities) -> (r: Option<DowngradePlan>)
    ensures
        r == spec_plan_downgrade(prios),
{
    let pc = match prios.priority_class {
        Some(pc) => pc,
        None => return None,
    };
    let cpu = cpu_above_downgrade_target(pc);
    let io = match prios.io_priority {
        Some(v) => v > DOWNGRADE_IO_PRIORITY,
        None => false,
    };
    if !cpu && !io {
        None
    } else {
        Some(DowngradePlan { cpu, io })
    }
}

/// The priorities after the writes that succeeded.
pub open spec fn spec_downgraded_to(p: ProcessPriorities, cpu_done: bool, io_done: bool) -> ProcessPriorities {
    ProcessPriorities {
        priority_class: if cpu_done { Some(DOWNGRADE_PRIORITY_CLASS) } else { p.priority_class },
        io_priority: if io_done { Some(DOWNGRADE_IO_PRIORITY) } else { p.io_priority },
        memory_priority: p.memory_priority,
    }
}

/// The action log entry of a downgrade.
pub open spec fn downgrade_entry_ok(e: PbLogEntry, now: u64, pid: u32, name: Seq<char>, cpu: u64, from: ProcessPriorities, to: ProcessPriorities) -> bool {
    &&& e.ts == now
    &&& e.action@ == "downgrade"@
    &&& e.reason is None
    &&& e.pid == pid
    &&& e.name@ == name
    &&& e.cpu == Some(cpu)
    &&& e.from == Some(from)
    &&& e.to == Some(to)
}

/// The action log entry of a restore (or of an exit).
pub open spec fn restore_entry_ok(e: PbLogEntry, now: u64, pid: u32, name: Seq<char>, originals: ProcessPriorities, reason: RestoreReason, written: bool) -> bool {
    &&& e.ts == now
    &&& e.action@ == (if reason == RestoreReason::ProcessExited { "exit"@ } else { "restore"@ })
    &&& e.reason matches Some(r) && r@ == reason_text(reason)
    &&& e.pid == pid
    &&& e.name@ == name
    &&& e.cpu is None
    &&& e.from is None
    &&& e.to == (if written || reason == RestoreReason::ProcessExited { Some(originals) } else { None })
}

/// The log text of a restore reason.
pub open spec fn reason_text(reason: RestoreReason) -> Seq<char> {
    match reason {
        RestoreReason::ContentionCleared => "contention_cleared"@,
        RestoreReason::Timeout => "timeout"@,
        RestoreReason::ProcessExited => "process_exited"@,
        RestoreReason::Disabled => "disabled"@,
        RestoreReason::Shutdown => "shutdown"@,
        RestoreReason::StartupReconcile => "startup_reconcile"@,
    }
}

/// Write the original values back only when the process is not known to
/// have exited and the PID still runs a program of the same name (PIDs are
/// reused quickly; a new process must not get the old values).
pub open spec fn spec_restore_writes_back(reason: RestoreReason, current_name: Option<Seq<char>>, name: Seq<char>) -> bool {
    reason != RestoreReason::ProcessExited && (current_name matches Some(c) && spec_name_matches(c, name))
}

pub fn restore_writes_back(reason: RestoreReason, current_name: Option<&str>, name: &str) -> (b: bool)
    ensures
        b == spec_restore_writes_back(reason, crate::matcher::opt_view(current_name), name@),
{
    if reason == RestoreReason::ProcessExited {
        return false;
    }
    match current_name {
        Some(c) => name_matches(c, name),
        None => false,
    }
}

/// The writes that restore a process: its CPU class and IO priority, as
/// far as they were known (memory priority is never downgraded).
pub fn restore_writes(originals: ProcessPriorities) -> (w: Vec<(PriorityKind, u32)>)
    ensures
        w@ == priority_writes_spec(originals.priority_class, originals.io_priority, None),
{
    priority_writes(originals.priority_class, originals.io_priority, None)
}

fn text_of_str(s: &str) -> (r: String)
    ensures
        r@ == s@,
{
    s.to_string()
}

/// The log entry of a restore: `exit` for an exited process, `restore`
/// otherwise; the values written appear as `to`, which is left empty when
/// the write-back was skipped.
pub fn restore_log_entry(now: u64, pid: u32, name: String, originals: ProcessPriorities, reason: RestoreReason, written: bool) -> (e: PbLogEntry)
    ensures
        restore_entry_ok(e, now, pid, name@, originals, reason, written),
{
    let exited = reason == RestoreReason::ProcessExited;
    let action = if exited { text_of_str("exit") } else { text_of_str("restore") };
    let reason_str = text_of_str(reason.as_str());
    proof {
        reveal_strlit("exit");
        reveal_strlit("restore");
    }
    PbLogEntry {
        ts: now,
        action,
        reason: Some(reason_str),
        pid,
        name,
        cpu: None,
        from: None,
        to: if written || exited { Some(originals) } else { None },
    }
}

/// Restore decisions for the unpaired downgrades found in the log at
/// startup (the previous run ended without restoring them).
pub fn orphan_restore_decisions(orphans: Vec<OrphanDowngrade>) -> (d: Vec<Decision>)
    ensures
        d@.len() == orphans@.len(),
        forall|k: int| 0 <= k < d@.len() ==> #[trigger] d@[k] == (Decision::Restore {
            pid: orphans@[k].pid, name: orphans@[k].name, originals: orphans@[k].originals,
            reason: RestoreReason::StartupReconcile }),
{
    let mut rest = orphans;
    let ghost all = rest@;
    let mut out: Vec<Decision> = Vec::new();
    let n = rest.len();
    let mut i: usize = 0;
    while i < n
        invariant
            n == all.len(),
            i <= n,
            rest@ == all.subrange(i as int, n as int),
            out@.len() == i,
            forall|k: int| 0 <= k < i ==> #[trigger] out@[k] == (Decision::Restore {
                pid: all[k].pid, name: all[k].name, originals: all[k].originals,
                reason: RestoreReason::StartupReconcile }),
        decreases n - i,
    {
        let o = rest.remove(0);
        assert(o == all[i as int]);
        out.push(Decision::Restore { pid: o.pid, name: o.name, originals: o.originals, reason: RestoreReason::StartupReconcile });
        i = i + 1;
        assert(rest@ =~= all.subrange(i as int, n as int));
    }
    out
}

// =========================================================================
// Status and sampling
// =========================================================================

/// Status written when the engine is disabled (a heartbeat only).
pub fn disabled_status(now: u64) -> (s: PbStatus)
    ensures
        s.ts == now,
        !s.enabled,
        !s.engaged,
        s.downgraded == 0,
        s.fg_pid is None,
        s.fg_cpu_percent is None,
        !s.game_mode_active,
{
    PbStatus { ts: now, enabled: false, engaged: false, downgraded: 0, fg_pid: None, fg_cpu_percent: None, game_mode_active: false }
}

/// Paths have to be resolved in sampling only when a protecting rule
/// matches by path (the common case costs nothing).
pub fn sampling_needs_paths(protecting_rules: &[AffinityRule]) -> (b: bool)
    ensures
        b == exists|i: int| 0 <= i < protecting_rules@.len() && (#[trigger] protecting_rules@[i]).match_type == MatchType::Path,
{
    let mut i: usize = 0;
    while i < protecting_rules.len()
        invariant
            i <= protecting_rules@.len(),
            forall|k: int| 0 <= k < i ==> (#[trigger] protecting_rules@[k]).match_type != MatchType::Path,
        decreases protecting_rules.len() - i,
    {
        if protecting_rules[i].match_type == MatchType::Path {
            return true;
        }
        i = i + 1;
    }
    false
}

/// Game Mode is active when it is enabled, the foreground is fullscreen
/// and known.
pub fn game_mode_active(game_mode_enabled: bool, fullscreen: bool, fg_pid: Option<u32>) -> (b: bool)
    ensures
        b == (game_mode_enabled && fullscreen && fg_pid is Some),
{
    game_mode_enabled && fullscreen && fg_pid.is_some()
}

fn first_cpu_exec(samples: &[ProcSample], pid: u32) -> (r: Option<u64>)
    ensures
        r == first_cpu_of(samples@, pid),
{
    let mut i: usize = 0;
    assert(samples@.subrange(0, samples@.len() as int) =~= samples@);
    while i < samples.len()
        invariant
            i <= samples@.len(),
            first_cpu_of(samples@, pid) == first_cpu_of(samples@.subrange(i as int, samples@.len() as int), pid),
        decreases samples.len() - i,
    {
        assert(samples@.subrange(i as int, samples@.len() as int).drop_first() =~= samples@.subrange(i + 1, samples@.len() as int));
        if samples[i].pid == pid {
            return Some(samples[i].cpu_percent);
        }
        i = i + 1;
    }
    None
}

// =========================================================================
// The runtime
// =========================================================================

impl ProBalanceRuntime {
    /// The engine's state.
    pub closed spec fn engine_view(&self) -> EngineView {
        self.engine@
    }

    /// The current Game Mode boost.
    pub closed spec fn boost(&self) -> Option<(u32, Seq<char>, u32)> {
        match self.game_boost {
            Some(b) => Some((b.pid, b.name@, b.original_priority)),
            None => None,
        }
    }

    /// A runtime with a fresh engine and no boost. (The caller then
    /// restores the orphans of the log with `orphan_restore_decisions`.)
    pub fn new(config: ProBalanceConfig) -> (r: Self)
        ensures
            r.engine_view() == (EngineView { config: config, engaged: false, contention_ticks: 0, clear_ticks: 0, downgraded: Seq::empty() }),
            r.boost() is None,
    {
        ProBalanceRuntime { engine: ProBalanceEngine::new(config), game_boost: None }
    }

    /// The decision engine.
    pub fn engine(&self) -> (e: &ProBalanceEngine)
        ensures
            e@ == self.engine_view(),
    {
        &self.engine
    }

    /// Apply a reloaded configuration; the returned restores (when the
    /// engine was switched off) are to be executed.
    pub fn reload_config(&mut self, config: ProBalanceConfig) -> (d: Vec<Decision>)
        ensures
            (final(self).engine_view(), d@) == super::engine::spec_update_config(old(self).engine_view(), config),
            final(self).boost() == old(self).boost(),
    {
        self.engine.update_config(config)
    }

    /// One engine tick with the tick's inputs.
    pub fn decide(&mut self, input: &TickInput, game_mode_active: bool) -> (d: Vec<Decision>)
        ensures
            (final(self).engine_view(), d@) == spec_tick(old(self).engine_view(), input.now_secs, input.fg_pid,
                input.samples@, input.protecting_rules@, game_mode_active),
            final(self).boost() == old(self).boost(),
    {
        self.engine.tick_with_game_mode(input, game_mode_active)
    }

    /// The status after a tick: engine state, foreground and its load.
    pub fn status(&self, now: u64, fg_pid: Option<u32>, samples: &[ProcSample], game_mode_active: bool) -> (s: PbStatus)
        ensures
            s.ts == now,
            s.enabled,
            s.engaged == self.engine_view().engaged,
            s.downgraded == self.engine_view().downgraded.len(),
            s.fg_pid == fg_pid,
            s.fg_cpu_percent == (match fg_pid {
                Some(p) => first_cpu_of(samples@, p),
                None => None,
            }),
            s.game_mode_active == game_mode_active,
    {
        let fg_cpu_percent = match fg_pid {
            Some(p) => first_cpu_exec(samples, p),
            None => None,
        };
        PbStatus {
            ts: now,
            enabled: true,
            engaged: self.engine.is_engaged(),
            downgraded: self.engine.tracked_count(),
            fg_pid,
            fg_cpu_percent,
            game_mode_active,
        }
    }

    /// A downgrade has been attempted: `cpu_done` / `io_done` tell which
    /// writes succeeded. When any did, the original values are recorded
    /// for the eventual restore and the log entry is returned; otherwise
    /// nothing changes.
    pub fn finish_downgrade(&mut self, now: u64, pid: u32, name: String, cpu_percent: u64, from: ProcessPriorities, cpu_done: bool, io_done: bool) -> (e: Option<PbLogEntry>)
        ensures
            !(cpu_done || io_done) ==> e is None && final(self).engine_view() == old(self).engine_view(),
            (cpu_done || io_done) ==> {
                &&& e matches Some(entry) && downgrade_entry_ok(entry, now, pid, name@, cpu_percent, from,
                    spec_downgraded_to(from, cpu_done, io_done))
                &&& final(self).engine_view() == (EngineView {
                    downgraded: super::engine::mark_spec(old(self).engine_view().downgraded,
                        super::engine::Downgraded { pid: pid, name: name, originals: from, since_secs: now }),
                    ..old(self).engine_view()
                })
            },
            final(self).boost() == old(self).boost(),
    {
        if !(cpu_done || io_done) {
            return None;
        }
        let to = ProcessPriorities {
            priority_class: if cpu_done { Some(DOWNGRADE_PRIORITY_CLASS) } else { from.priority_class },
            io_priority: if io_done { Some(DOWNGRADE_IO_PRIORITY) } else { from.io_priority },
            memory_priority: from.memory_priority,
        };
        let logged_name = name.clone();
        self.engine.mark_downgraded(pid, name, from, now);
        proof {
            reveal_strlit("downgrade");
        }
        Some(PbLogEntry {
            ts: now,
            action: text_of_str("downgrade"),
            reason: None,
            pid,
            name: logged_name,
            cpu: Some(cpu_percent),
            from: Some(from),
            to: Some(to),
        })
    }

    /// The reason to release the current boost, if it must go: Game Mode
    /// ended, or the foreground changed.
    pub fn boost_release_reason(&self, active: bool, fg_pid: Option<u32>) -> (r: Option<&'static str>)
        ensures
            match self.boost() {
                Some((pid, _, _)) => if !active {
                    r matches Some(s) && s@ == "fullscreen_ended"@
                } else if fg_pid != Some(pid) {
                    r matches Some(s) && s@ == "foreground_changed"@
                } else {
                    r is None
                },
                None => r is None,
            },
    {
        match &self.game_boost {
            Some(b) => {
                proof {
                    reveal_strlit("fullscreen_ended");
                    reveal_strlit("foreground_changed");
                }
                if !active {
                    Some("fullscreen_ended")
                } else if fg_pid != Some(b.pid) {
                    Some("foreground_changed")
                } else {
                    None
                }
            },
            None => None,
        }
    }

    /// Take the boost out (to restore it).
    pub fn take_boost(&mut self) -> (b: Option<GameModeBoost>)
        ensures
            match b {
                Some(x) => old(self).boost() == Some((x.pid, x.name@, x.original_priority)),
                None => old(self).boost() is None,
            },
            final(self).boost() is None,
            final(self).engine_view() == old(self).engine_view(),
    {
        self.game_boost.take()
    }

    /// The foreground process to try boosting: Game Mode is active, the
    /// foreground is known and nothing is boosted yet.
    pub fn boost_candidate(&self, active: bool, fg_pid: Option<u32>) -> (r: Option<u32>)
        ensures
            r == (if active && self.boost() is None { fg_pid } else { None }),
    {
        if active && self.game_boost.is_none() {
            fg_pid
        } else {
            None
        }
    }

    /// Record a boost that was applied, and return its log entry.
    pub fn record_boost(&mut self, now: u64, pid: u32, name: String, priorities: ProcessPriorities, original_priority: u32) -> (e: PbLogEntry)
        ensures
            final(self).boost() == Some((pid, name@, original_priority)),
            final(self).engine_view() == old(self).engine_view(),
            e.ts == now,
            e.action@ == "game_mode_boost"@,
            e.reason is None,
            e.pid == pid,
            e.name@ == name@,
            e.cpu is None,
            e.from == Some(priorities),
            e.to == Some(ProcessPriorities { priority_class: Some(GAME_MODE_PRIORITY_CLASS), ..priorities }),
    {
        let logged = name.clone();
        self.game_boost = Some(GameModeBoost { pid, name, original_priority });
        PbLogEntry {
            ts: now,
            action: text_of_str("game_mode_boost"),
            reason: None,
            pid,
            name: logged,
            cpu: None,
            from: Some(priorities),
            to: Some(ProcessPriorities { priority_class: Some(GAME_MODE_PRIORITY_CLASS), ..priorities }),
        }
    }

    /// Stop the service: the boost to restore (if any) and the restores of
    /// every downgraded process.
    pub fn shutdown(&mut self) -> (r: (Option<GameModeBoost>, Vec<Decision>))
        ensures
            match r.0 {
                Some(x) => old(self).boost() == Some((x.pid, x.name@, x.original_priority)),
                None => old(self).boost() is None,
            },
            r.1@ == restores(old(self).engine_view().downgraded, RestoreReason::Shutdown),
            final(self).boost() is None,
            final(self).engine_view() == (EngineView { engaged: false, contention_ticks: 0, clear_ticks: 0,
                downgraded: Seq::empty(), ..old(self).engine_view() }),
    {
        let boost = self.game_boost.take();
        let decisions = self.engine.shutdown();
        (boost, decisions)
    }
}

/// A boost is only applied to a process whose class is known and below
/// Above Normal: an already-higher foreground is never lowered, and
/// unknown classes cannot be ordered.
pub open spec fn spec_boost_eligible(original: Option<u32>) -> bool {
    original matches Some(pc) && (spec_priority_class_rank(pc) matches Some(r) && r < 3)
}

pub fn boost_eligible(original: Option<u32>) -> (b: bool)
    ensures
        b == spec_boost_eligible(original),
{
    match original {
        Some(pc) => match (priority_class_rank(pc), priority_class_rank(GAME_MODE_PRIORITY_CLASS)) {
            (Some(r), Some(g)) => r < g,
            _ => false,
        },
        None => false,
    }
}

/// The log entry of a boost restore; `to` carries the restored class when
/// it was written back.
pub fn boost_restore_log_entry(now: u64, boost: GameModeBoost, reason: &str, restored: bool) -> (e: PbLogEntry)
    ensures
        e.ts == now,
        e.action@ == "game_mode_restore"@,
        e.reason matches Some(r) && r@ == reason@,
        e.pid == boost.pid,
        e.name@ == boost.name@,
        e.cpu is None,
        e.from is None,
        e.to == (if restored {
            Some(ProcessPriorities { priority_class: Some(boost.original_priority), io_priority: None, memory_priority: None })
        } else {
            None
        }),
{
    PbLogEntry {
        ts: now,
        action: text_of_str("game_mode_restore"),
        reason: Some(text_of_str(reason)),
        pid: boost.pid,
        name: boost.name,
        cpu: None,
        from: None,
        to: if restored {
            Some(ProcessPriorities { priority_class: Some(boost.original_priority), io_priority: None, memory_priority: None })
        } else {
            None
        },
    }
}

/// Restore a boost only when the PID still runs a program of the same
/// name.
pub fn boost_same_process(current_name: Option<&str>, boost: &GameModeBoost) -> (b: bool)
    ensures
        b == (crate::matcher::opt_view(current_name) matches Some(c) && spec_name_matches(c, boost.name@)),
{
    match current_name {
        Some(c) => name_matches(c, boost.name.as_str()),
        None => false,
    }
}

} // verus!
