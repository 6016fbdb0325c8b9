//! Decision core: the ProBalance state machine. It never reads or writes
//! a process; the caller applies the decisions and reports successful
//! downgrades back through [`ProBalanceEngine::mark_downgraded`].
//!
//! State: idle -> (contention sustained for `sustain_secs` ticks) ->
//! downgrading -> (contention cleared for `restore_after_secs` ticks) ->
//! idle.
use vstd::prelude::*;

use crate::matcher::{name_matches, opt_view, rule_matches, spec_name_matches, spec_rule_matches, spec_wildcard_matches, wildcard_matches};
use crate::monitor::ProcSample;
use crate::procwin::{priority_class_rank, spec_priority_class_rank, ProcessPriorities};
use crate::rule::AffinityRule;

use super::config::{spec_config_valid, ProBalanceConfig};
use crate::seqs::{lemma_filter_members, lemma_filter_prefix_step};

verus! {

// =========================================================================
// Constants
// =========================================================================

/// Downgrade target: CPU priority class Below Normal.
pub const DOWNGRADE_PRIORITY_CLASS: u32 = 0x4000;
/// Downgrade target: IO priority Very Low.
pub const DOWNGRADE_IO_PRIORITY: u32 = 0;

/// The class ranks above Below Normal in scheduling order (unknown
/// classes never do).
pub open spec fn spec_cpu_above_downgrade_target(class: u32) -> bool {
    spec_priority_class_rank(class) matches Some(a) && a > 1
}

/// Whether a CPU priority class is above the downgrade target by
/// scheduling rank (not by raw value: the class constants are bit flags).
pub fn cpu_above_downgrade_target(class: u32) -> (b: bool)
    ensures
        b == spec_cpu_above_downgrade_target(class),
{
    match (priority_class_rank(class), priority_class_rank(DOWNGRADE_PRIORITY_CLASS)) {
        (Some(a), Some(b)) => a > b,
        _ => false,
    }
}

/// The built-in allowlist of system-critical processes.
pub open spec fn system_whitelist_names() -> Seq<Seq<char>> {
    seq![
        "csrss"@, "wininit"@, "winlogon"@, "services"@, "lsass"@, "smss"@, "svchost"@, "dwm"@,
        "audiodg"@, "logonui"@, "fontdrvhost"@, "conhost"@, "sihost"@, "taskhostw"@, "explorer"@,
        "system"@, "registry"@, "memory compression"@, "cpum"@, "cpum_service"@,
    ]
}

/// Hardcoded allowlist of system-critical processes (matched
/// case-insensitively, `.exe` tolerated).
pub fn system_whitelist() -> (v: Vec<&'static str>)
    ensures
        v@.len() == system_whitelist_names().len(),
        forall|i: int| 0 <= i < v@.len() ==> #[trigger] v@[i]@ == system_whitelist_names()[i],
{
    vec![
        "csrss", "wininit", "winlogon", "services", "lsass", "smss", "svchost", "dwm",
        "audiodg", "logonui", "fontdrvhost", "conhost", "sihost", "taskhostw", "explorer",
        "system", "registry", "memory compression", "cpum", "cpum_service",
    ]
}

// =========================================================================
// Decision model
// =========================================================================

/// Why a process is restored.
#[derive(Clone, Copy, Debug, PartialEq, Eq, Structural)]
pub enum RestoreReason {
    /// Contention cleared for long enough: everything restored.
    ContentionCleared,
    /// One process's downgrade timed out.
    Timeout,
    /// The process has exited (nothing to write back, only logged).
    ProcessExited,
    /// The configuration was disabled.
    Disabled,
    /// The service is stopping.
    Shutdown,
    /// Service start: orphan downgrades of an abnormal end are restored.
    StartupReconcile,
}

impl RestoreReason {
    /// The reason as written to the action log.
    pub fn as_str(self) -> (s: &'static str)
        ensures
            self == RestoreReason::ContentionCleared ==> s@ == "contention_cleared"@,
            self == RestoreReason::Timeout ==> s@ == "timeout"@,
            self == RestoreReason::ProcessExited ==> s@ == "process_exited"@,
            self == RestoreReason::Disabled ==> s@ == "disabled"@,
            self == RestoreReason::Shutdown ==> s@ == "shutdown"@,
            self == RestoreReason::StartupReconcile ==> s@ == "startup_reconcile"@,
    {
        match self {
            RestoreReason::ContentionCleared => "contention_cleared",
            RestoreReason::Timeout => "timeout",
            RestoreReason::ProcessExited => "process_exited",
            RestoreReason::Disabled => "disabled",
            RestoreReason::Shutdown => "shutdown",
            RestoreReason::StartupReconcile => "startup_reconcile",
        }
    }
}

/// One action emitted by the engine.
#[derive(Debug)]
pub enum Decision {
    /// Downgrade a background process; after applying it the caller
    /// reports the original values with `mark_downgraded`.
    Downgrade {
        pid: u32,
        name: String,
        /// CPU load at the time of the decision (hundredths of a percent).
        cpu_percent: u64,
    },
    /// Restore a process to the values recorded at its downgrade; the
    /// process is no longer downgraded once this is emitted.
    Restore { pid: u32, name: String, originals: ProcessPriorities, reason: RestoreReason },
}

/// Per-tick input, entirely filled by the caller.
pub struct TickInput<'a> {
    pub now_secs: u64,
    pub fg_pid: Option<u32>,
    pub samples: &'a [ProcSample],
    /// Enabled rules that manage priorities: their processes are never
    /// downgraded.
    pub protecting_rules: &'a [AffinityRule],
}

/// A downgraded process and the values to restore.
#[derive(Debug)]
pub struct Downgraded {
    pub pid: u32,
    pub name: String,
    pub originals: ProcessPriorities,
    pub since_secs: u64,
}

/// The engine's state as a value.
pub struct EngineView {
    pub config: ProBalanceConfig,
    pub engaged: bool,
    pub contention_ticks: u32,
    pub clear_ticks: u32,
    /// Downgraded processes, in the order they were first recorded.
    pub downgraded: Seq<Downgraded>,
}

// =========================================================================
// Specification of one tick
// =========================================================================

pub open spec fn sat_inc(x: u32) -> u32 {
    if x == u32::MAX { x } else { (x + 1) as u32 }
}

pub open spec fn sat_sub(a: u64, b: u64) -> u64 {
    if a >= b { (a - b) as u64 } else { 0 }
}

/// CPU load of the first sample with `pid`.
pub open spec fn first_cpu_of(samples: Seq<ProcSample>, pid: u32) -> Option<u64>
    decreases samples.len(),
{
    if samples.len() == 0 {
        None
    } else if samples[0].pid == pid {
        Some(samples[0].cpu_percent)
    } else {
        first_cpu_of(samples.drop_first(), pid)
    }
}

/// Contention: Game Mode with a known foreground, or a sampled foreground
/// at or above the foreground threshold.
pub open spec fn spec_contention(cfg: ProBalanceConfig, fg: Option<u32>, samples: Seq<ProcSample>, game: bool) -> bool {
    (game && fg is Some) || (fg matches Some(p) && first_cpu_of(samples, p) matches Some(c) && c >= cfg.fg_cpu_threshold)
}

pub open spec fn tracks(ts: Seq<Downgraded>, pid: u32) -> bool {
    exists|i: int| 0 <= i < ts.len() && (#[trigger] ts[i]).pid == pid
}

pub open spec fn has_sample(samples: Seq<ProcSample>, pid: u32) -> bool {
    exists|i: int| 0 <= i < samples.len() && (#[trigger] samples[i]).pid == pid
}

pub open spec fn opt_string_view(s: Option<String>) -> Option<Seq<char>> {
    match s {
        Some(x) => Some(x@),
        None => None,
    }
}

/// Protected: on the system allowlist, on the user allowlist (wildcard),
/// or matched by a rule that manages priorities.
pub open spec fn spec_is_protected(name: Seq<char>, path: Option<Seq<char>>, whitelist: Seq<String>, rules: Seq<AffinityRule>) -> bool {
    ||| exists|i: int| 0 <= i < system_whitelist_names().len() && spec_name_matches(name, #[trigger] system_whitelist_names()[i])
    ||| exists|i: int| 0 <= i < whitelist.len() && spec_wildcard_matches(name, (#[trigger] whitelist[i])@)
    ||| exists|i: int| 0 <= i < rules.len() && spec_rule_matches(#[trigger] rules[i], name, path)
}

/// A sample that is downgraded while engaged under contention.
pub open spec fn downgrade_candidate(cfg: ProBalanceConfig, fg: Option<u32>, rules: Seq<AffinityRule>, downgraded: Seq<Downgraded>, s: ProcSample) -> bool {
    &&& s.cpu_percent >= cfg.bg_cpu_threshold
    &&& fg != Some(s.pid)
    &&& !tracks(downgraded, s.pid)
    &&& !spec_is_protected(s.name@, opt_string_view(s.image_path), cfg.whitelist@, rules)
}

pub open spec fn downgrade_of(s: ProcSample) -> Decision {
    Decision::Downgrade { pid: s.pid, name: s.name, cpu_percent: s.cpu_percent }
}

/// The PID a decision is about.
pub open spec fn decision_pid(d: Decision) -> u32 {
    match d {
        Decision::Downgrade { pid, .. } => pid,
        Decision::Restore { pid, .. } => pid,
    }
}

pub open spec fn restore_of(t: Downgraded, reason: RestoreReason) -> Decision {
    Decision::Restore { pid: t.pid, name: t.name, originals: t.originals, reason: reason }
}

/// Downgrade decisions for the candidate samples, in sample order.
pub open spec fn downgrades(cfg: ProBalanceConfig, fg: Option<u32>, rules: Seq<AffinityRule>, downgraded: Seq<Downgraded>, samples: Seq<ProcSample>) -> Seq<Decision>
    decreases samples.len(),
{
    if samples.len() == 0 {
        Seq::empty()
    } else {
        let rest = downgrades(cfg, fg, rules, downgraded, samples.drop_last());
        if downgrade_candidate(cfg, fg, rules, downgraded, samples.last()) {
            rest.push(downgrade_of(samples.last()))
        } else {
            rest
        }
    }
}

/// Restore decisions for downgraded processes, in tracking order.
pub open spec fn restores(ts: Seq<Downgraded>, reason: RestoreReason) -> Seq<Decision> {
    ts.map_values(|t: Downgraded| restore_of(t, reason))
}

pub open spec fn expired(t: Downgraded, now: u64, max: u64) -> bool {
    sat_sub(now, t.since_secs) >= max
}

pub open spec fn not_expired_pred(now: u64, max: u64) -> spec_fn(Downgraded) -> bool {
    |t: Downgraded| !expired(t, now, max)
}

pub open spec fn expired_pred(now: u64, max: u64) -> spec_fn(Downgraded) -> bool {
    |t: Downgraded| expired(t, now, max)
}

pub open spec fn alive_pred(samples: Seq<ProcSample>) -> spec_fn(Downgraded) -> bool {
    |t: Downgraded| has_sample(samples, t.pid)
}

pub open spec fn gone_pred(samples: Seq<ProcSample>) -> spec_fn(Downgraded) -> bool {
    |t: Downgraded| !has_sample(samples, t.pid)
}

pub open spec fn unexpired(ts: Seq<Downgraded>, now: u64, max: u64) -> Seq<Downgraded> {
    ts.filter(not_expired_pred(now, max))
}

pub open spec fn expired_ones(ts: Seq<Downgraded>, now: u64, max: u64) -> Seq<Downgraded> {
    ts.filter(expired_pred(now, max))
}

pub open spec fn alive_ones(ts: Seq<Downgraded>, samples: Seq<ProcSample>) -> Seq<Downgraded> {
    ts.filter(alive_pred(samples))
}

pub open spec fn gone_ones(ts: Seq<Downgraded>, samples: Seq<ProcSample>) -> Seq<Downgraded> {
    ts.filter(gone_pred(samples))
}

/// State and decisions after the contention step (before exit cleanup).
pub open spec fn tick_core(e: EngineView, now: u64, fg: Option<u32>, samples: Seq<ProcSample>, rules: Seq<AffinityRule>, game: bool) -> (EngineView, Seq<Decision>) {
    let cfg = e.config;
    let c = spec_contention(cfg, fg, samples, game);
    let ct = if c { sat_inc(e.contention_ticks) } else { 0 };
    let cl = if c { 0 } else { sat_inc(e.clear_ticks) };
    let engaged = e.engaged || ct >= cfg.sustain_secs;
    if engaged && cl >= cfg.restore_after_secs {
        (EngineView { config: cfg, engaged: false, contention_ticks: 0, clear_ticks: 0, downgraded: Seq::empty() },
            restores(e.downgraded, RestoreReason::ContentionCleared))
    } else if engaged {
        let down = if c { downgrades(cfg, fg, rules, e.downgraded, samples) } else { Seq::empty() };
        (EngineView { config: cfg, engaged: true, contention_ticks: ct, clear_ticks: cl,
            downgraded: unexpired(e.downgraded, now, cfg.max_downgrade_secs) },
            down + restores(expired_ones(e.downgraded, now, cfg.max_downgrade_secs), RestoreReason::Timeout))
    } else {
        (EngineView { config: cfg, engaged: false, contention_ticks: ct, clear_ticks: cl, downgraded: e.downgraded },
            Seq::empty())
    }
}

/// One tick: nothing when disabled; otherwise the contention step, then
/// every downgraded process that has no sample is restored as exited.
pub open spec fn spec_tick(e: EngineView, now: u64, fg: Option<u32>, samples: Seq<ProcSample>, rules: Seq<AffinityRule>, game: bool) -> (EngineView, Seq<Decision>) {
    if !e.config.enabled {
        (e, Seq::empty())
    } else {
        let (mid, d) = tick_core(e, now, fg, samples, rules, game);
        (EngineView { config: mid.config, engaged: mid.engaged, contention_ticks: mid.contention_ticks,
            clear_ticks: mid.clear_ticks, downgraded: alive_ones(mid.downgraded, samples) },
            d + restores(gone_ones(mid.downgraded, samples), RestoreReason::ProcessExited))
    }
}

pub open spec fn pids_unique(ts: Seq<Downgraded>) -> bool {
    forall|i: int, j: int| 0 <= i < ts.len() && 0 <= j < ts.len() && i != j ==> (#[trigger] ts[i]).pid != (#[trigger] ts[j]).pid
}

} // verus!

verus! {

// =========================================================================
// Sequence facts
// =========================================================================

proof fn lemma_restores_push(ts: Seq<Downgraded>, t: Downgraded, reason: RestoreReason)
    ensures
        restores(ts.push(t), reason) == restores(ts, reason).push(restore_of(t, reason)),
{
    assert(restores(ts.push(t), reason) =~= restores(ts, reason).push(restore_of(t, reason)));
}

proof fn lemma_filter_keeps_unique(s: Seq<Downgraded>, p: spec_fn(Downgraded) -> bool)
    requires
        pids_unique(s),
    ensures
        pids_unique(s.filter(p)),
    decreases s.len(),
{
    reveal(Seq::filter);
    if s.len() > 0 {
        let d = s.drop_last();
        assert(pids_unique(d)) by {
            assert forall|i: int, j: int| 0 <= i < d.len() && 0 <= j < d.len() && i != j implies (#[trigger] d[i]).pid != (#[trigger] d[j]).pid by {
                assert(d[i] == s[i] && d[j] == s[j]);
            }
        }
        lemma_filter_keeps_unique(d, p);
        lemma_filter_members(d, p);
        let g = d.filter(p);
        let f = s.filter(p);
        if p(s.last()) {
            assert forall|i: int, j: int| 0 <= i < f.len() && 0 <= j < f.len() && i != j implies (#[trigger] f[i]).pid != (#[trigger] f[j]).pid by {
                if i < g.len() && j < g.len() {
                    assert(f[i] == g[i] && f[j] == g[j]);
                } else if i < g.len() {
                    assert(f[i] == g[i]);
                    assert(d.contains(g[i]));
                    let k = choose|k: int| 0 <= k < d.len() && d[k] == g[i];
                    assert(s[k] == d[k]);
                    assert(f[j] == s[s.len() - 1]);
                } else {
                    assert(f[j] == g[j]);
                    assert(d.contains(g[j]));
                    let k = choose|k: int| 0 <= k < d.len() && d[k] == g[j];
                    assert(s[k] == d[k]);
                    assert(f[i] == s[s.len() - 1]);
                }
            }
        }
    }
}

// =========================================================================
// The engine
// =========================================================================

/// ProBalance decision engine.
pub struct ProBalanceEngine {
    config: ProBalanceConfig,
    engaged: bool,
    /// Consecutive contention ticks.
    contention_ticks: u32,
    /// Consecutive ticks without contention (hysteresis while engaged).
    clear_ticks: u32,
    /// Downgraded processes and their original values (one entry per PID).
    downgraded: Vec<Downgraded>,
}

impl View for ProBalanceEngine {
    type V = EngineView;

    closed spec fn view(&self) -> EngineView {
        EngineView {
            config: self.config,
            engaged: self.engaged,
            contention_ticks: self.contention_ticks,
            clear_ticks: self.clear_ticks,
            downgraded: self.downgraded@,
        }
    }
}

/// The state after recording a downgrade: the entry for that PID is
/// replaced, or appended when the PID is new.
pub open spec fn mark_spec(ts: Seq<Downgraded>, d: Downgraded) -> Seq<Downgraded> {
    if tracks(ts, d.pid) {
        ts.update(choose|i: int| 0 <= i < ts.len() && (#[trigger] ts[i]).pid == d.pid, d)
    } else {
        ts.push(d)
    }
}

/// The state after switching the configuration, and the decisions: on ->
/// off restores everything (Disabled) and resets; off -> on resets.
pub open spec fn spec_update_config(e: EngineView, cfg: ProBalanceConfig) -> (EngineView, Seq<Decision>) {
    if e.config.enabled && !cfg.enabled {
        (EngineView { config: cfg, engaged: false, contention_ticks: 0, clear_ticks: 0, downgraded: Seq::empty() },
            restores(e.downgraded, RestoreReason::Disabled))
    } else if !e.config.enabled && cfg.enabled {
        (EngineView { config: cfg, engaged: false, contention_ticks: 0, clear_ticks: 0, downgraded: e.downgraded },
            Seq::empty())
    } else {
        (EngineView { config: cfg, engaged: e.engaged, contention_ticks: e.contention_ticks,
            clear_ticks: e.clear_ticks, downgraded: e.downgraded }, Seq::empty())
    }
}

fn first_cpu(samples: &[ProcSample], pid: u32) -> (r: Option<u64>)
    ensures
        r == first_cpu_of(samples@, pid),
{
    let mut i: usize = 0;
    assert(samples@.subrange(0, samples@.len() as int) =~= samples@);
    while i < samples.len()
        invariant
            i <= samples@.len(),
            first_cpu_of(samples@, pid) == first_cpu_of(samples@.subrange(i as int, samples@.len() as int), pid),
        decreases samples.len() - i,
    {
        let ghost rest = samples@.subrange(i as int, samples@.len() as int);
        assert(rest.drop_first() =~= samples@.subrange(i + 1, samples@.len() as int));
        if samples[i].pid == pid {
            return Some(samples[i].cpu_percent);
        }
        i = i + 1;
    }
    None
}

fn tracks_pid(ts: &Vec<Downgraded>, pid: u32) -> (b: bool)
    ensures
        b == tracks(ts@, pid),
{
    let mut i: usize = 0;
    while i < ts.len()
        invariant
            i <= ts@.len(),
            forall|k: int| 0 <= k < i ==> (#[trigger] ts@[k]).pid != pid,
        decreases ts.len() - i,
    {
        if ts[i].pid == pid {
            return true;
        }
        i = i + 1;
    }
    false
}

fn sampled(samples: &[ProcSample], pid: u32) -> (b: bool)
    ensures
        b == has_sample(samples@, pid),
{
    let mut i: usize = 0;
    while i < samples.len()
        invariant
            i <= samples@.len(),
            forall|k: int| 0 <= k < i ==> (#[trigger] samples@[k]).pid != pid,
        decreases samples.len() - i,
    {
        if samples[i].pid == pid {
            return true;
        }
        i = i + 1;
    }
    false
}

fn opt_str(s: &Option<String>) -> (r: Option<&str>)
    ensures
        opt_view(r) == opt_string_view(*s),
{
    match s {
        Some(x) => Some(x.as_str()),
        None => None,
    }
}

/// Triple-layer protection check: system allowlist, user allowlist
/// (wildcards), rules that manage priorities (a `Path` rule needs the
/// image path).
pub fn is_protected(name: &str, image_path: Option<&str>, user_whitelist: &[String], protecting_rules: &[AffinityRule]) -> (b: bool)
    ensures
        b == spec_is_protected(name@, opt_view(image_path), user_whitelist@, protecting_rules@),
{
    let system = system_whitelist();
    let mut i: usize = 0;
    while i < system.len()
        invariant
            system@.len() == system_whitelist_names().len(),
            forall|k: int| 0 <= k < system@.len() ==> #[trigger] system@[k]@ == system_whitelist_names()[k],
            i <= system@.len(),
            forall|k: int| 0 <= k < i ==> !spec_name_matches(name@, #[trigger] system_whitelist_names()[k]),
        decreases system.len() - i,
    {
        if name_matches_exact(name, system[i]) {
            return true;
        }
        i = i + 1;
    }
    let mut j: usize = 0;
    while j < user_whitelist.len()
        invariant
            j <= user_whitelist@.len(),
            forall|k: int| 0 <= k < j ==> !spec_wildcard_matches(name@, (#[trigger] user_whitelist@[k])@),
        decreases user_whitelist.len() - j,
    {
        if wildcard_matches(name, user_whitelist[j].as_str()) {
            return true;
        }
        j = j + 1;
    }
    let mut r: usize = 0;
    while r < protecting_rules.len()
        invariant
            r <= protecting_rules@.len(),
            forall|k: int| 0 <= k < r ==> !spec_rule_matches(#[trigger] protecting_rules@[k], name@, opt_view(image_path)),
        decreases protecting_rules.len() - r,
    {
        if rule_matches(&protecting_rules[r], name, image_path) {
            return true;
        }
        r = r + 1;
    }
    false
}

/// Case-insensitive, `.exe`-tolerant name match (the rule engine's exact
/// semantics).
pub fn name_matches_exact(process_name: &str, pattern: &str) -> (b: bool)
    ensures
        b == spec_name_matches(process_name@, pattern@),
{
    name_matches(process_name, pattern)
}

impl ProBalanceEngine {
    #[verifier::type_invariant]
    closed spec fn inv(self) -> bool {
        pids_unique(self.downgraded@)
    }

    /// A fresh engine: idle, nothing downgraded.
    pub fn new(config: ProBalanceConfig) -> (e: Self)
        ensures
            e@ == (EngineView { config: config, engaged: false, contention_ticks: 0, clear_ticks: 0, downgraded: Seq::empty() }),
    {
        ProBalanceEngine { config, engaged: false, contention_ticks: 0, clear_ticks: 0, downgraded: Vec::new() }
    }

    pub fn config(&self) -> (c: &ProBalanceConfig)
        ensures
            *c == self@.config,
    {
        &self.config
    }

    pub fn is_enabled(&self) -> (b: bool)
        ensures
            b == self@.config.enabled,
    {
        self.config.enabled
    }

    pub fn is_engaged(&self) -> (b: bool)
        ensures
            b == self@.engaged,
    {
        self.engaged
    }

    /// Number of processes currently downgraded.
    pub fn tracked_count(&self) -> (n: usize)
        ensures
            n == self@.downgraded.len(),
            pids_unique(self@.downgraded),
    {
        proof {
            use_type_invariant(self);
        }
        self.downgraded.len()
    }

    fn reset_counters(&mut self)
        ensures
            final(self)@ == (EngineView { engaged: false, contention_ticks: 0, clear_ticks: 0, ..old(self)@ }),
    {
        proof {
            use_type_invariant(&*self);
        }
        self.engaged = false;
        self.contention_ticks = 0;
        self.clear_ticks = 0;
    }

    /// Take every downgraded process out as a restore decision.
    fn take_all(&mut self, reason: RestoreReason) -> (d: Vec<Decision>)
        ensures
            d@ == restores(old(self)@.downgraded, reason),
            final(self)@ == (EngineView { downgraded: Seq::empty(), ..old(self)@ }),
    {
        let mut ts: Vec<Downgraded> = Vec::new();
        std::mem::swap(&mut ts, &mut self.downgraded);
        let ghost all = ts@;
        let n = ts.len();
        let mut out: Vec<Decision> = Vec::new();
        let mut i: usize = 0;
        assert(ts@ =~= all.subrange(0, n as int));
        while i < n
            invariant
                n == all.len(),
                i <= n,
                ts@ == all.subrange(i as int, n as int),
                out@ == restores(all.subrange(0, i as int), reason),
            decreases n - i,
        {
            let t = ts.remove(0);
            assert(t == all[i as int]);
            proof {
                assert(all.subrange(0, i + 1) =~= all.subrange(0, i as int).push(t));
                lemma_restores_push(all.subrange(0, i as int), t, reason);
            }
            out.push(Decision::Restore { pid: t.pid, name: t.name, originals: t.originals, reason });
            i = i + 1;
            assert(ts@ =~= all.subrange(i as int, n as int));
        }
        assert(all.subrange(0, n as int) =~= all);
        out
    }

    /// Record the original values of a process the caller has just
    /// downgraded; a later restore decision for it carries these values.
    pub fn mark_downgraded(&mut self, pid: u32, name: String, originals: ProcessPriorities, now_secs: u64)
        ensures
            final(self)@ == (EngineView {
                downgraded: mark_spec(old(self)@.downgraded,
                    Downgraded { pid: pid, name: name, originals: originals, since_secs: now_secs }),
                ..old(self)@
            }),
            pids_unique(final(self)@.downgraded),
    {
        proof {
            use_type_invariant(&*self);
        }
        let d = Downgraded { pid, name, originals, since_secs: now_secs };
        let ghost dg = d;
        let mut ts: Vec<Downgraded> = Vec::new();
        std::mem::swap(&mut ts, &mut self.downgraded);
        let ghost old_ts = ts@;
        let mut i: usize = 0;
        while i < ts.len()
            invariant
                ts@ == old_ts,
                pids_unique(old_ts),
                self.config == old(self).config,
                self.engaged == old(self).engaged,
                self.contention_ticks == old(self).contention_ticks,
                self.clear_ticks == old(self).clear_ticks,
                old_ts == old(self)@.downgraded,
                d == dg,
                dg == (Downgraded { pid: pid, name: name, originals: originals, since_secs: now_secs }),
                i <= ts@.len(),
                forall|k: int| 0 <= k < i ==> (#[trigger] ts@[k]).pid != pid,
            decreases ts.len() - i,
        {
            if ts[i].pid == pid {
                proof {
                    let c = choose|k: int| 0 <= k < old_ts.len() && (#[trigger] old_ts[k]).pid == pid;
                    assert(old_ts[c].pid == old_ts[i as int].pid);
                    assert(c == i);
                }
                ts.set(i, d);
                proof {
                    assert(ts@ == old_ts.update(i as int, dg));
                    assert(dg.pid == pid);
                    assert forall|a: int, b: int| 0 <= a < ts@.len() && 0 <= b < ts@.len() && a != b implies (#[trigger] ts@[a]).pid != (#[trigger] ts@[b]).pid by {
                        if a != i && b != i {
                            assert(ts@[a] == old_ts[a] && ts@[b] == old_ts[b]);
                        } else if a == i {
                            assert(ts@[b] == old_ts[b]);
                            assert(old_ts[i as int].pid == pid);
                            assert(old_ts[b].pid != old_ts[i as int].pid);
                        } else {
                            assert(ts@[a] == old_ts[a]);
                            assert(old_ts[i as int].pid == pid);
                            assert(old_ts[a].pid != old_ts[i as int].pid);
                        }
                    }
                }
                self.downgraded = ts;
                return;
            }
            i = i + 1;
        }
        ts.push(d);
        proof {
            assert forall|a: int, b: int| 0 <= a < ts@.len() && 0 <= b < ts@.len() && a != b implies (#[trigger] ts@[a]).pid != (#[trigger] ts@[b]).pid by {
                if a < old_ts.len() && b < old_ts.len() {
                    assert(ts@[a] == old_ts[a] && ts@[b] == old_ts[b]);
                } else if a < old_ts.len() {
                    assert(ts@[a] == old_ts[a]);
                } else {
                    assert(ts@[b] == old_ts[b]);
                }
            }
        }
        self.downgraded = ts;
    }

    /// Hot-update the configuration. Switching off restores every
    /// downgraded process (Disabled); switching on clears the counters.
    pub fn update_config(&mut self, config: ProBalanceConfig) -> (d: Vec<Decision>)
        ensures
            (final(self)@, d@) == spec_update_config(old(self)@, config),
            pids_unique(final(self)@.downgraded),
    {
        proof {
            use_type_invariant(&*self);
        }
        let was_enabled = self.config.enabled;
        self.config = config;
        if was_enabled && !self.config.enabled {
            self.reset_counters();
            self.take_all(RestoreReason::Disabled)
        } else if !was_enabled && self.config.enabled {
            self.reset_counters();
            Vec::new()
        } else {
            Vec::new()
        }
    }

    /// Service stop: restore every downgraded process.
    pub fn shutdown(&mut self) -> (d: Vec<Decision>)
        ensures
            d@ == restores(old(self)@.downgraded, RestoreReason::Shutdown),
            final(self)@ == (EngineView { engaged: false, contention_ticks: 0, clear_ticks: 0,
                downgraded: Seq::empty(), ..old(self)@ }),
    {
        self.reset_counters();
        self.take_all(RestoreReason::Shutdown)
    }


    /// Downgrade decisions for the candidate samples of this tick.
    fn downgrade_decisions(&self, input: &TickInput) -> (d: Vec<Decision>)
        ensures
            d@ == downgrades(self@.config, input.fg_pid, input.protecting_rules@, self@.downgraded, input.samples@),
    {
        let mut out: Vec<Decision> = Vec::new();
        let mut i: usize = 0;
        while i < input.samples.len()
            invariant
                i <= input.samples@.len(),
                out@ == downgrades(self@.config, input.fg_pid, input.protecting_rules@, self@.downgraded,
                    input.samples@.subrange(0, i as int)),
            decreases input.samples.len() - i,
        {
            let s = &input.samples[i];
            let is_fg = match input.fg_pid {
                Some(f) => f == s.pid,
                None => false,
            };
            let candidate = s.cpu_percent >= self.config.bg_cpu_threshold && !is_fg
                && !tracks_pid(&self.downgraded, s.pid)
                && !is_protected(s.name.as_str(), opt_str(&s.image_path), self.config.whitelist.as_slice(),
                    input.protecting_rules);
            proof {
                let sub = input.samples@.subrange(0, i + 1);
                assert(sub.drop_last() =~= input.samples@.subrange(0, i as int));
                assert(sub.last() == *s);
                assert(candidate == downgrade_candidate(self@.config, input.fg_pid, input.protecting_rules@,
                    self@.downgraded, *s));
            }
            if candidate {
                out.push(Decision::Downgrade { pid: s.pid, name: s.name.clone(), cpu_percent: s.cpu_percent });
            }
            i = i + 1;
        }
        assert(input.samples@.subrange(0, i as int) =~= input.samples@);
        out
    }

    /// Remove the expired downgrades and return their restore decisions.
    fn take_expired(&mut self, now: u64) -> (d: Vec<Decision>)
        ensures
            d@ == restores(expired_ones(old(self)@.downgraded, now, old(self)@.config.max_downgrade_secs),
                RestoreReason::Timeout),
            final(self)@ == (EngineView {
                downgraded: unexpired(old(self)@.downgraded, now, old(self)@.config.max_downgrade_secs),
                ..old(self)@
            }),
    {
        proof {
            use_type_invariant(&*self);
        }
        let max = self.config.max_downgrade_secs;
        let mut ts: Vec<Downgraded> = Vec::new();
        std::mem::swap(&mut ts, &mut self.downgraded);
        let ghost all = ts@;
        let n = ts.len();
        let mut kept: Vec<Downgraded> = Vec::new();
        let mut out: Vec<Decision> = Vec::new();
        let mut i: usize = 0;
        assert(ts@ =~= all.subrange(0, n as int));
        proof {
            reveal(Seq::filter);
        }
        while i < n
            invariant
                n == all.len(),
                all == old(self)@.downgraded,
                max == old(self)@.config.max_downgrade_secs,
                self.config == old(self).config,
                self.engaged == old(self).engaged,
                self.contention_ticks == old(self).contention_ticks,
                self.clear_ticks == old(self).clear_ticks,
                pids_unique(all),
                i <= n,
                ts@ == all.subrange(i as int, n as int),
                kept@ == unexpired(all.subrange(0, i as int), now, max),
                out@ == restores(expired_ones(all.subrange(0, i as int), now, max), RestoreReason::Timeout),
            decreases n - i,
        {
            let t = ts.remove(0);
            assert(t == all[i as int]);
            proof {
                lemma_filter_prefix_step(all, not_expired_pred(now, max), i as int);
                lemma_filter_prefix_step(all, expired_pred(now, max), i as int);
                lemma_restores_push(expired_ones(all.subrange(0, i as int), now, max), t, RestoreReason::Timeout);
            }
            let elapsed: u64 = if now >= t.since_secs { now - t.since_secs } else { 0 };
            if elapsed >= max {
                out.push(Decision::Restore { pid: t.pid, name: t.name, originals: t.originals, reason: RestoreReason::Timeout });
            } else {
                kept.push(t);
            }
            i = i + 1;
            assert(ts@ =~= all.subrange(i as int, n as int));
        }
        assert(all.subrange(0, n as int) =~= all);
        proof {
            lemma_filter_keeps_unique(all, not_expired_pred(now, max));
        }
        self.downgraded = kept;
        out
    }

    /// Remove the downgrades whose process has no sample and return their
    /// restore decisions.
    fn take_gone(&mut self, samples: &[ProcSample]) -> (d: Vec<Decision>)
        ensures
            d@ == restores(gone_ones(old(self)@.downgraded, samples@), RestoreReason::ProcessExited),
            final(self)@ == (EngineView { downgraded: alive_ones(old(self)@.downgraded, samples@), ..old(self)@ }),
    {
        proof {
            use_type_invariant(&*self);
        }
        let mut ts: Vec<Downgraded> = Vec::new();
        std::mem::swap(&mut ts, &mut self.downgraded);
        let ghost all = ts@;
        let n = ts.len();
        let mut kept: Vec<Downgraded> = Vec::new();
        let mut out: Vec<Decision> = Vec::new();
        let mut i: usize = 0;
        assert(ts@ =~= all.subrange(0, n as int));
        proof {
            reveal(Seq::filter);
        }
        while i < n
            invariant
                n == all.len(),
                all == old(self)@.downgraded,
                self.config == old(self).config,
                self.engaged == old(self).engaged,
                self.contention_ticks == old(self).contention_ticks,
                self.clear_ticks == old(self).clear_ticks,
                pids_unique(all),
                i <= n,
                ts@ == all.subrange(i as int, n as int),
                kept@ == alive_ones(all.subrange(0, i as int), samples@),
                out@ == restores(gone_ones(all.subrange(0, i as int), samples@), RestoreReason::ProcessExited),
            decreases n - i,
        {
            let t = ts.remove(0);
            assert(t == all[i as int]);
            proof {
                lemma_filter_prefix_step(all, alive_pred(samples@), i as int);
                lemma_filter_prefix_step(all, gone_pred(samples@), i as int);
                lemma_restores_push(gone_ones(all.subrange(0, i as int), samples@), t, RestoreReason::ProcessExited);
            }
            if sampled(samples, t.pid) {
                kept.push(t);
            } else {
                out.push(Decision::Restore { pid: t.pid, name: t.name, originals: t.originals, reason: RestoreReason::ProcessExited });
            }
            i = i + 1;
            assert(ts@ =~= all.subrange(i as int, n as int));
        }
        assert(all.subrange(0, n as int) =~= all);
        proof {
            lemma_filter_keeps_unique(all, alive_pred(samples@));
        }
        self.downgraded = kept;
        out
    }

    /// Main decision tick (once per second), without Game Mode.
    pub fn tick(&mut self, input: &TickInput) -> (d: Vec<Decision>)
        ensures
            (final(self)@, d@) == spec_tick(old(self)@, input.now_secs, input.fg_pid, input.samples@,
                input.protecting_rules@, false),
            pids_unique(final(self)@.downgraded),
    {
        self.tick_with_game_mode(input, false)
    }

    /// Run one decision tick. Game Mode treats a known foreground as
    /// contention without the CPU threshold; everything else is the same.
    ///
    /// - Contention ticks are counted; `sustain_secs` of them engage.
    /// - While engaged: `restore_after_secs` clear ticks restore everything
    ///   and disengage; otherwise, under contention, every hot background
    ///   sample that is not the foreground, not protected and not yet
    ///   downgraded is downgraded, and downgrades older than
    ///   `max_downgrade_secs` are restored.
    /// - Downgraded processes without a sample are restored as exited.
    pub fn tick_with_game_mode(&mut self, input: &TickInput, game_mode_active: bool) -> (d: Vec<Decision>)
        ensures
            (final(self)@, d@) == spec_tick(old(self)@, input.now_secs, input.fg_pid, input.samples@,
                input.protecting_rules@, game_mode_active),
            pids_unique(final(self)@.downgraded),
    {
        proof {
            use_type_invariant(&*self);
        }
        if !self.config.enabled {
            return Vec::new();
        }
        let fg_cpu = match input.fg_pid {
            Some(pid) => first_cpu(input.samples, pid),
            None => None,
        };
        let contention = (game_mode_active && input.fg_pid.is_some()) || match fg_cpu {
            Some(c) => c >= self.config.fg_cpu_threshold,
            None => false,
        };
        if contention {
            if self.contention_ticks < u32::MAX {
                self.contention_ticks = self.contention_ticks + 1;
            }
            self.clear_ticks = 0;
        } else {
            self.contention_ticks = 0;
            if self.clear_ticks < u32::MAX {
                self.clear_ticks = self.clear_ticks + 1;
            }
        }
        if !self.engaged && self.contention_ticks >= self.config.sustain_secs {
            self.engaged = true;
        }
        let mut decisions: Vec<Decision> = Vec::new();
        if self.engaged {
            if self.clear_ticks >= self.config.restore_after_secs {
                self.reset_counters();
                let mut all = self.take_all(RestoreReason::ContentionCleared);
                decisions.append(&mut all);
            } else {
                if contention {
                    decisions = self.downgrade_decisions(input);
                }
                let mut timeouts = self.take_expired(input.now_secs);
                decisions.append(&mut timeouts);
            }
        }
        let mut exits = self.take_gone(input.samples);
        decisions.append(&mut exits);
        proof {
            use_type_invariant(&*self);
        }
        decisions
    }
}

} // verus!

verus! {

// =========================================================================
// Laws
// =========================================================================

proof fn lemma_downgrades_from_candidates(cfg: ProBalanceConfig, fg: Option<u32>, rules: Seq<AffinityRule>, ts: Seq<Downgraded>, samples: Seq<ProcSample>)
    ensures
        forall|k: int| #![trigger downgrades(cfg, fg, rules, ts, samples)[k]]
            0 <= k < downgrades(cfg, fg, rules, ts, samples).len() ==> exists|i: int|
            0 <= i < samples.len() && downgrades(cfg, fg, rules, ts, samples)[k] == downgrade_of(samples[i])
                && #[trigger] downgrade_candidate(cfg, fg, rules, ts, samples[i]),
    decreases samples.len(),
{
    if samples.len() > 0 {
        let d = samples.drop_last();
        lemma_downgrades_from_candidates(cfg, fg, rules, ts, d);
        let rest = downgrades(cfg, fg, rules, ts, d);
        let all = downgrades(cfg, fg, rules, ts, samples);
        assert forall|k: int| #![trigger all[k]] 0 <= k < all.len() implies exists|i: int|
            0 <= i < samples.len() && all[k] == downgrade_of(samples[i])
                && #[trigger] downgrade_candidate(cfg, fg, rules, ts, samples[i]) by {
            if k < rest.len() {
                let i = choose|i: int| 0 <= i < d.len() && rest[k] == downgrade_of(d[i])
                    && #[trigger] downgrade_candidate(cfg, fg, rules, ts, d[i]);
                assert(d[i] == samples[i]);
            } else {
                let i = samples.len() - 1;
                assert(samples[i] == samples.last());
            }
        }
    }
}

/// A tick downgrades only while enabled, engaged and under contention, and
/// only samples that are at or above the background threshold, are not the
/// foreground, are not protected and are not downgraded already.
pub proof fn lemma_tick_downgrades_are_safe(e: EngineView, now: u64, fg: Option<u32>, samples: Seq<ProcSample>, rules: Seq<AffinityRule>, game: bool)
    ensures
        forall|k: int| 0 <= k < spec_tick(e, now, fg, samples, rules, game).1.len()
            && (#[trigger] spec_tick(e, now, fg, samples, rules, game).1[k]) is Downgrade ==> {
            &&& e.config.enabled
            &&& spec_contention(e.config, fg, samples, game)
            &&& spec_tick(e, now, fg, samples, rules, game).0.engaged
            &&& exists|i: int| 0 <= i < samples.len()
                && spec_tick(e, now, fg, samples, rules, game).1[k] == downgrade_of(samples[i])
                && #[trigger] downgrade_candidate(e.config, fg, rules, e.downgraded, samples[i])
        },
{
    let (post, d) = spec_tick(e, now, fg, samples, rules, game);
    if e.config.enabled {
        let (mid, dc) = tick_core(e, now, fg, samples, rules, game);
        let gone = restores(gone_ones(mid.downgraded, samples), RestoreReason::ProcessExited);
        assert(d == dc + gone);
        let cfg = e.config;
        let c = spec_contention(cfg, fg, samples, game);
        let down = downgrades(cfg, fg, rules, e.downgraded, samples);
        lemma_downgrades_from_candidates(cfg, fg, rules, e.downgraded, samples);
        assert forall|k: int| 0 <= k < d.len() && (#[trigger] d[k]) is Downgrade implies {
            &&& c
            &&& post.engaged
            &&& exists|i: int| 0 <= i < samples.len() && d[k] == downgrade_of(samples[i])
                && #[trigger] downgrade_candidate(cfg, fg, rules, e.downgraded, samples[i])
        } by {
            if k >= dc.len() {
                assert(d[k] == gone[k - dc.len()]);
            } else {
                assert(d[k] == dc[k]);
                let ct = if c { sat_inc(e.contention_ticks) } else { 0 };
                let cl = if c { 0 } else { sat_inc(e.clear_ticks) };
                let engaged = e.engaged || ct >= cfg.sustain_secs;
                if engaged && cl >= cfg.restore_after_secs {
                    assert(dc[k] == restores(e.downgraded, RestoreReason::ContentionCleared)[k]);
                } else if engaged {
                    let dn = if c { down } else { Seq::empty() };
                    let tm = restores(expired_ones(e.downgraded, now, cfg.max_downgrade_secs), RestoreReason::Timeout);
                    assert(dc == dn + tm);
                    if k >= dn.len() {
                        assert(dc[k] == tm[k - dn.len()]);
                    } else {
                        assert(c);
                        assert(dc[k] == down[k]);
                    }
                }
            }
        }
    }
}


proof fn lemma_restores_from(ts: Seq<Downgraded>, reason: RestoreReason, k: int)
    requires
        0 <= k < ts.len(),
    ensures
        restores(ts, reason)[k] == restore_of(ts[k], reason),
        restores(ts, reason).len() == ts.len(),
{
}

proof fn lemma_member_index(s: Seq<Downgraded>, x: Downgraded) -> (i: int)
    requires
        s.contains(x),
    ensures
        0 <= i < s.len(),
        s[i] == x,
{
    choose|i: int| 0 <= i < s.len() && s[i] == x
}

/// A tick never adds a downgraded process, and after an enabled tick every
/// downgraded process has a sample in that tick.
pub proof fn lemma_tick_keeps_recorded_and_sampled(e: EngineView, now: u64, fg: Option<u32>, samples: Seq<ProcSample>, rules: Seq<AffinityRule>, game: bool)
    ensures
        forall|m: int| 0 <= m < spec_tick(e, now, fg, samples, rules, game).0.downgraded.len()
            ==> e.downgraded.contains(#[trigger] spec_tick(e, now, fg, samples, rules, game).0.downgraded[m]),
        e.config.enabled ==> forall|m: int| 0 <= m < spec_tick(e, now, fg, samples, rules, game).0.downgraded.len()
            ==> has_sample(samples, (#[trigger] spec_tick(e, now, fg, samples, rules, game).0.downgraded[m]).pid),
{
    let post = spec_tick(e, now, fg, samples, rules, game).0;
    if e.config.enabled {
        let mid = tick_core(e, now, fg, samples, rules, game).0;
        let max = e.config.max_downgrade_secs;
        lemma_filter_members(mid.downgraded, alive_pred(samples));
        lemma_filter_members(e.downgraded, not_expired_pred(now, max));
        assert forall|m: int| 0 <= m < post.downgraded.len() implies e.downgraded.contains(#[trigger] post.downgraded[m])
            && has_sample(samples, post.downgraded[m].pid) by {
            let x = post.downgraded[m];
            assert(mid.downgraded.contains(x));
            let j = lemma_member_index(mid.downgraded, x);
            if mid.downgraded != e.downgraded && mid.downgraded.len() > 0 {
                assert(mid.downgraded == unexpired(e.downgraded, now, max));
                assert(e.downgraded.contains(mid.downgraded[j]));
            }
        }
    }
}

proof fn lemma_tick_restore_at(e: EngineView, now: u64, fg: Option<u32>, samples: Seq<ProcSample>, rules: Seq<AffinityRule>, game: bool, k: int)
    requires
        pids_unique(e.downgraded),
        0 <= k < spec_tick(e, now, fg, samples, rules, game).1.len(),
    ensures
        spec_tick(e, now, fg, samples, rules, game).1[k] matches Decision::Restore { reason, .. }
            ==> exists|i: int| 0 <= i < e.downgraded.len()
                && spec_tick(e, now, fg, samples, rules, game).1[k] == restore_of(#[trigger] e.downgraded[i], reason)
                && !tracks(spec_tick(e, now, fg, samples, rules, game).0.downgraded, e.downgraded[i].pid),
{
    let (post, d) = spec_tick(e, now, fg, samples, rules, game);
    if let Decision::Restore { reason, .. } = d[k] {
        let (mid, dc) = tick_core(e, now, fg, samples, rules, game);
        let cfg = e.config;
        let max = cfg.max_downgrade_secs;
        let gset = gone_ones(mid.downgraded, samples);
        let gone = restores(gset, RestoreReason::ProcessExited);
        let c = spec_contention(cfg, fg, samples, game);
        let ct = if c { sat_inc(e.contention_ticks) } else { 0 };
        let cl = if c { 0 } else { sat_inc(e.clear_ticks) };
        let engaged = e.engaged || ct >= cfg.sustain_secs;
        let cleared = engaged && cl >= cfg.restore_after_secs;
        let xset = expired_ones(e.downgraded, now, max);
        let dn = if c { downgrades(cfg, fg, rules, e.downgraded, samples) } else { Seq::empty() };
        let tm = restores(xset, RestoreReason::Timeout);
        lemma_tick_keeps_recorded_and_sampled(e, now, fg, samples, rules, game);
        lemma_filter_members(mid.downgraded, gone_pred(samples));
        lemma_filter_members(e.downgraded, expired_pred(now, max));
        lemma_filter_members(e.downgraded, not_expired_pred(now, max));
        let x = if k >= dc.len() {
            gset[k - dc.len()]
        } else if cleared {
            e.downgraded[k]
        } else {
            xset[k - dn.len()]
        };
        assert(e.config.enabled);
        if k >= dc.len() {
            assert(d[k] == gone[k - dc.len()]);
            lemma_restores_from(gset, RestoreReason::ProcessExited, k - dc.len());
            assert(mid.downgraded.contains(x));
            assert(!has_sample(samples, x.pid));
            let j = lemma_member_index(mid.downgraded, x);
            if engaged && !cleared {
                assert(mid.downgraded == unexpired(e.downgraded, now, max));
                assert(e.downgraded.contains(mid.downgraded[j]));
            }
            assert(e.downgraded.contains(x));
            assert forall|m: int| 0 <= m < post.downgraded.len() implies (#[trigger] post.downgraded[m]).pid != x.pid by {
                assert(has_sample(samples, post.downgraded[m].pid));
            }
        } else {
            assert(d[k] == dc[k]);
            if cleared {
                lemma_restores_from(e.downgraded, RestoreReason::ContentionCleared, k);
                assert(e.downgraded.contains(x));
                assert(post.downgraded.len() == 0);
            } else {
                assert(engaged);
                assert(dc == dn + tm);
                lemma_downgrades_from_candidates(cfg, fg, rules, e.downgraded, samples);
                if k < dn.len() {
                    assert(dc[k] == dn[k]);
                    assert(dn[k] is Downgrade);
                } else {
                    assert(dc[k] == tm[k - dn.len()]);
                    lemma_restores_from(xset, RestoreReason::Timeout, k - dn.len());
                    assert(e.downgraded.contains(x));
                    assert(expired(x, now, max));
                    let ix = lemma_member_index(e.downgraded, x);
                    assert forall|m: int| 0 <= m < post.downgraded.len() implies (#[trigger] post.downgraded[m]).pid != x.pid by {
                        let y = post.downgraded[m];
                        assert(e.downgraded.contains(y));
                        assert(mid.downgraded == unexpired(e.downgraded, now, max));
                        lemma_filter_members(mid.downgraded, alive_pred(samples));
                        assert(mid.downgraded.contains(y));
                        let jy = lemma_member_index(mid.downgraded, y);
                        assert(!expired(y, now, max));
                        let iy = lemma_member_index(e.downgraded, y);
                        if y.pid == x.pid {
                            assert(iy == ix);
                        }
                    }
                }
            }
        }
        let i = lemma_member_index(e.downgraded, x);
        assert(d[k] == restore_of(e.downgraded[i], reason));
    }
}

/// Every restore decision of a tick carries the name and original values
/// recorded for a process that was downgraded before the tick, and that
/// process is no longer downgraded after it.
pub proof fn lemma_tick_restores_recorded_values(e: EngineView, now: u64, fg: Option<u32>, samples: Seq<ProcSample>, rules: Seq<AffinityRule>, game: bool)
    requires
        pids_unique(e.downgraded),
    ensures
        forall|k: int| 0 <= k < spec_tick(e, now, fg, samples, rules, game).1.len()
            ==> (#[trigger] spec_tick(e, now, fg, samples, rules, game).1[k] matches Decision::Restore { reason, .. }
            ==> exists|i: int| 0 <= i < e.downgraded.len()
                && spec_tick(e, now, fg, samples, rules, game).1[k] == restore_of(#[trigger] e.downgraded[i], reason)
                && !tracks(spec_tick(e, now, fg, samples, rules, game).0.downgraded, e.downgraded[i].pid)),
{
    assert forall|k: int| 0 <= k < spec_tick(e, now, fg, samples, rules, game).1.len()
        implies (#[trigger] spec_tick(e, now, fg, samples, rules, game).1[k] matches Decision::Restore { reason, .. }
            ==> exists|i: int| 0 <= i < e.downgraded.len()
                && spec_tick(e, now, fg, samples, rules, game).1[k] == restore_of(#[trigger] e.downgraded[i], reason)
                && !tracks(spec_tick(e, now, fg, samples, rules, game).0.downgraded, e.downgraded[i].pid)) by {
        lemma_tick_restore_at(e, now, fg, samples, rules, game, k);
    }
}

/// A disabled engine ignores ticks: no decision, no change of state.
pub proof fn lemma_disabled_tick_is_inert(e: EngineView, now: u64, fg: Option<u32>, samples: Seq<ProcSample>, rules: Seq<AffinityRule>, game: bool)
    requires
        !e.config.enabled,
    ensures
        spec_tick(e, now, fg, samples, rules, game) == (e, Seq::<Decision>::empty()),
{
}

/// Hysteresis: an idle engine engages only once the consecutive contention
/// ticks reach `sustain_secs`; an engaged engine disengages only once the
/// consecutive clear ticks reach `restore_after_secs`, and then it restores
/// every downgraded process.
pub proof fn lemma_tick_hysteresis(e: EngineView, now: u64, fg: Option<u32>, samples: Seq<ProcSample>, rules: Seq<AffinityRule>, game: bool)
    requires
        spec_config_valid(e.config),
    ensures
        !e.engaged && spec_tick(e, now, fg, samples, rules, game).0.engaged
            ==> spec_tick(e, now, fg, samples, rules, game).0.contention_ticks >= e.config.sustain_secs,
        e.config.enabled && e.engaged && !spec_tick(e, now, fg, samples, rules, game).0.engaged ==> {
            &&& !spec_contention(e.config, fg, samples, game)
            &&& sat_inc(e.clear_ticks) >= e.config.restore_after_secs
            &&& spec_tick(e, now, fg, samples, rules, game).0.downgraded.len() == 0
            &&& spec_tick(e, now, fg, samples, rules, game).1.subrange(0, e.downgraded.len() as int)
                == restores(e.downgraded, RestoreReason::ContentionCleared)
        },
{
    let (post, d) = spec_tick(e, now, fg, samples, rules, game);
    if e.config.enabled && e.engaged && !post.engaged {
        let (mid, dc) = tick_core(e, now, fg, samples, rules, game);
        assert(dc == restores(e.downgraded, RestoreReason::ContentionCleared));
        assert(d.subrange(0, e.downgraded.len() as int) =~= dc);
    }
}

/// Read after write: after `mark_downgraded` records a process, restoring
/// everything (shutdown) yields exactly one restore for its PID, carrying
/// the recorded name and original values; the other records stay.
pub proof fn lemma_mark_then_restore_all(ts: Seq<Downgraded>, d: Downgraded, reason: RestoreReason)
    requires
        pids_unique(ts),
    ensures
        restores(mark_spec(ts, d), reason).contains(restore_of(d, reason)),
        forall|k: int| 0 <= k < restores(mark_spec(ts, d), reason).len()
            && decision_pid(#[trigger] restores(mark_spec(ts, d), reason)[k]) == d.pid
            ==> restores(mark_spec(ts, d), reason)[k] == restore_of(d, reason),
        forall|i: int| 0 <= i < ts.len() && (#[trigger] ts[i]).pid != d.pid ==> mark_spec(ts, d).contains(ts[i]),
{
    let m = mark_spec(ts, d);
    let r = restores(m, reason);
    let j: int = if tracks(ts, d.pid) {
        choose|i: int| 0 <= i < ts.len() && (#[trigger] ts[i]).pid == d.pid
    } else {
        ts.len() as int
    };
    assert(m[j] == d);
    assert(r[j] == restore_of(d, reason));
    assert forall|k: int| 0 <= k < r.len() && decision_pid(#[trigger] r[k]) == d.pid
        implies r[k] == restore_of(d, reason) by {
        assert(r[k] == restore_of(m[k], reason));
        if k != j {
            assert(k < ts.len());
            assert(m[k] == ts[k]);
            if tracks(ts, d.pid) {
                assert(ts[k].pid != ts[j].pid);
            } else {
                assert(ts[k].pid != d.pid);
            }
        }
    }
    assert forall|i: int| 0 <= i < ts.len() && (#[trigger] ts[i]).pid != d.pid implies m.contains(ts[i]) by {
        assert(i != j);
        assert(m[i] == ts[i]);
    }
}

/// Switching the configuration from enabled to disabled restores every
/// downgraded process (reason Disabled) and leaves the engine idle and
/// empty; other switches emit nothing.
pub proof fn lemma_disable_restores_all(e: EngineView, cfg: ProBalanceConfig)
    ensures
        e.config.enabled && !cfg.enabled ==> {
            &&& spec_update_config(e, cfg).1 == restores(e.downgraded, RestoreReason::Disabled)
            &&& spec_update_config(e, cfg).0.downgraded.len() == 0
            &&& !spec_update_config(e, cfg).0.engaged
        },
        !(e.config.enabled && !cfg.enabled) ==> spec_update_config(e, cfg).1.len() == 0
            && spec_update_config(e, cfg).0.downgraded == e.downgraded,
{
}


// =========================================================================
// Decisions of a tick: distinct processes, and the tracked count
// =========================================================================

/// Number of restore decisions.
pub open spec fn restore_count(ds: Seq<Decision>) -> nat
    decreases ds.len(),
{
    if ds.len() == 0 {
        0
    } else {
        restore_count(ds.drop_last()) + if ds.last() is Restore { 1nat } else { 0nat }
    }
}

/// No two decisions are about the same process.
pub open spec fn decisions_distinct(ds: Seq<Decision>) -> bool {
    forall|i: int, j: int| #![trigger ds[i], ds[j]]
        0 <= i < ds.len() && 0 <= j < ds.len() && i != j ==> decision_pid(ds[i]) != decision_pid(ds[j])
}

/// No two samples are of the same process.
pub open spec fn sample_pids_unique(samples: Seq<ProcSample>) -> bool {
    forall|i: int, j: int| #![trigger samples[i], samples[j]]
        0 <= i < samples.len() && 0 <= j < samples.len() && i != j ==> samples[i].pid != samples[j].pid
}

proof fn lemma_restore_count_add(a: Seq<Decision>, b: Seq<Decision>)
    ensures
        restore_count(a + b) == restore_count(a) + restore_count(b),
    decreases b.len(),
{
    if b.len() > 0 {
        lemma_restore_count_add(a, b.drop_last());
        assert((a + b).drop_last() =~= a + b.drop_last());
        assert((a + b).last() == b.last());
    } else {
        assert(a + b =~= a);
    }
}

proof fn lemma_restore_count_restores(ts: Seq<Downgraded>, r: RestoreReason)
    ensures
        restore_count(restores(ts, r)) == ts.len(),
    decreases ts.len(),
{
    if ts.len() > 0 {
        lemma_restore_count_restores(ts.drop_last(), r);
        assert(restores(ts, r).drop_last() =~= restores(ts.drop_last(), r));
    }
}

proof fn lemma_restore_count_downgrades(cfg: ProBalanceConfig, fg: Option<u32>, rules: Seq<AffinityRule>, ts: Seq<Downgraded>, samples: Seq<ProcSample>)
    ensures
        restore_count(downgrades(cfg, fg, rules, ts, samples)) == 0,
    decreases samples.len(),
{
    if samples.len() > 0 {
        lemma_restore_count_downgrades(cfg, fg, rules, ts, samples.drop_last());
        let rest = downgrades(cfg, fg, rules, ts, samples.drop_last());
        assert(rest.push(downgrade_of(samples.last())).drop_last() =~= rest);
    }
}

proof fn lemma_filter_split_len<A>(s: Seq<A>, p: spec_fn(A) -> bool, q: spec_fn(A) -> bool)
    requires
        forall|x: A| #[trigger] q(x) == !p(x),
    ensures
        s.filter(p).len() + s.filter(q).len() == s.len(),
    decreases s.len(),
{
    reveal(Seq::filter);
    if s.len() > 0 {
        lemma_filter_split_len(s.drop_last(), p, q);
        assert(q(s.last()) == !p(s.last()));
    }
}

proof fn lemma_empty_filter(p: spec_fn(Downgraded) -> bool)
    ensures
        Seq::<Downgraded>::empty().filter(p).len() == 0,
{
    reveal(Seq::filter);
}

proof fn lemma_distinct_concat(a: Seq<Decision>, b: Seq<Decision>)
    requires
        decisions_distinct(a),
        decisions_distinct(b),
        forall|i: int, j: int| 0 <= i < a.len() && 0 <= j < b.len() ==> decision_pid(#[trigger] a[i]) != decision_pid(#[trigger] b[j]),
    ensures
        decisions_distinct(a + b),
{
    let c = a + b;
    assert forall|i: int, j: int| #![trigger c[i], c[j]] 0 <= i < c.len() && 0 <= j < c.len() && i != j
        implies decision_pid(c[i]) != decision_pid(c[j]) by {
        if i < a.len() && j < a.len() {
            assert(c[i] == a[i] && c[j] == a[j]);
        } else if i < a.len() {
            assert(c[i] == a[i] && c[j] == b[j - a.len()]);
        } else if j < a.len() {
            assert(c[j] == a[j] && c[i] == b[i - a.len()]);
        } else {
            assert(c[i] == b[i - a.len()] && c[j] == b[j - a.len()]);
        }
    }
}

proof fn lemma_restores_distinct(ts: Seq<Downgraded>, r: RestoreReason)
    requires
        pids_unique(ts),
    ensures
        decisions_distinct(restores(ts, r)),
{
    let d = restores(ts, r);
    assert forall|i: int, j: int| #![trigger d[i], d[j]] 0 <= i < d.len() && 0 <= j < d.len() && i != j
        implies decision_pid(d[i]) != decision_pid(d[j]) by {
        assert(d[i] == restore_of(ts[i], r) && d[j] == restore_of(ts[j], r));
    }
}

proof fn lemma_downgrades_distinct(cfg: ProBalanceConfig, fg: Option<u32>, rules: Seq<AffinityRule>, ts: Seq<Downgraded>, samples: Seq<ProcSample>)
    requires
        sample_pids_unique(samples),
    ensures
        decisions_distinct(downgrades(cfg, fg, rules, ts, samples)),
    decreases samples.len(),
{
    if samples.len() > 0 {
        let d = samples.drop_last();
        assert(sample_pids_unique(d)) by {
            assert forall|i: int, j: int| #![trigger d[i], d[j]] 0 <= i < d.len() && 0 <= j < d.len() && i != j
                implies d[i].pid != d[j].pid by {
                assert(d[i] == samples[i] && d[j] == samples[j]);
            }
        }
        lemma_downgrades_distinct(cfg, fg, rules, ts, d);
        let rest = downgrades(cfg, fg, rules, ts, d);
        if downgrade_candidate(cfg, fg, rules, ts, samples.last()) {
            lemma_downgrades_from_candidates(cfg, fg, rules, ts, d);
            let all = rest.push(downgrade_of(samples.last()));
            let n = samples.len() - 1;
            assert forall|i: int, j: int| #![trigger all[i], all[j]] 0 <= i < all.len() && 0 <= j < all.len() && i != j
                implies decision_pid(all[i]) != decision_pid(all[j]) by {
                if i < rest.len() && j < rest.len() {
                    assert(all[i] == rest[i] && all[j] == rest[j]);
                } else if i < rest.len() {
                    assert(all[i] == rest[i]);
                    let k = choose|k: int| 0 <= k < d.len() && rest[i] == downgrade_of(d[k])
                        && #[trigger] downgrade_candidate(cfg, fg, rules, ts, d[k]);
                    assert(d[k] == samples[k]);
                    assert(samples[k].pid != samples[n].pid);
                } else {
                    assert(all[j] == rest[j]);
                    let k = choose|k: int| 0 <= k < d.len() && rest[j] == downgrade_of(d[k])
                        && #[trigger] downgrade_candidate(cfg, fg, rules, ts, d[k]);
                    assert(d[k] == samples[k]);
                    assert(samples[k].pid != samples[n].pid);
                }
            }
        }
    }
}

/// Per tick, the tracked count falls by exactly the number of restore
/// decisions (a tick never adds a tracked process; downgrades are tracked
/// only once `mark_downgraded` reports them).
pub proof fn lemma_tick_restore_count(e: EngineView, now: u64, fg: Option<u32>, samples: Seq<ProcSample>, rules: Seq<AffinityRule>, game: bool)
    ensures
        spec_tick(e, now, fg, samples, rules, game).0.downgraded.len() + restore_count(spec_tick(e, now, fg, samples, rules, game).1)
            == e.downgraded.len(),
{
    if e.config.enabled {
        let (post, d) = spec_tick(e, now, fg, samples, rules, game);
        let (mid, dc) = tick_core(e, now, fg, samples, rules, game);
        let gset = gone_ones(mid.downgraded, samples);
        let gx = restores(gset, RestoreReason::ProcessExited);
        assert(d == dc + gx);
        lemma_restore_count_add(dc, gx);
        lemma_restore_count_restores(gset, RestoreReason::ProcessExited);
        lemma_filter_split_len(mid.downgraded, alive_pred(samples), gone_pred(samples));
        let cfg = e.config;
        let max = cfg.max_downgrade_secs;
        let c = spec_contention(cfg, fg, samples, game);
        let ct = if c { sat_inc(e.contention_ticks) } else { 0 };
        let cl = if c { 0 } else { sat_inc(e.clear_ticks) };
        let engaged = e.engaged || ct >= cfg.sustain_secs;
        if engaged && cl >= cfg.restore_after_secs {
            lemma_restore_count_restores(e.downgraded, RestoreReason::ContentionCleared);
        } else if engaged {
            let dn = if c { downgrades(cfg, fg, rules, e.downgraded, samples) } else { Seq::empty() };
            let xs = expired_ones(e.downgraded, now, max);
            let tm = restores(xs, RestoreReason::Timeout);
            assert(dc == dn + tm);
            lemma_restore_count_add(dn, tm);
            lemma_restore_count_restores(xs, RestoreReason::Timeout);
            lemma_restore_count_downgrades(cfg, fg, rules, e.downgraded, samples);
            lemma_filter_split_len(e.downgraded, not_expired_pred(now, max), expired_pred(now, max));
        } else {
            assert(dc.len() == 0);
        }
    }
}

/// With distinct sample PIDs, no two decisions of a tick are about the same
/// process (downgrades are of untracked processes, restores of tracked
/// ones, each at most once).
pub proof fn lemma_tick_decisions_distinct(e: EngineView, now: u64, fg: Option<u32>, samples: Seq<ProcSample>, rules: Seq<AffinityRule>, game: bool)
    requires
        pids_unique(e.downgraded),
        sample_pids_unique(samples),
    ensures
        decisions_distinct(spec_tick(e, now, fg, samples, rules, game).1),
{
    if e.config.enabled {
        let (post, d) = spec_tick(e, now, fg, samples, rules, game);
        let (mid, dc) = tick_core(e, now, fg, samples, rules, game);
        let gset = gone_ones(mid.downgraded, samples);
        let gx = restores(gset, RestoreReason::ProcessExited);
        assert(d == dc + gx);
        let cfg = e.config;
        let max = cfg.max_downgrade_secs;
        let c = spec_contention(cfg, fg, samples, game);
        let ct = if c { sat_inc(e.contention_ticks) } else { 0 };
        let cl = if c { 0 } else { sat_inc(e.clear_ticks) };
        let engaged = e.engaged || ct >= cfg.sustain_secs;
        if engaged && cl >= cfg.restore_after_secs {
            lemma_empty_filter(gone_pred(samples));
            assert(d =~= dc);
            lemma_restores_distinct(e.downgraded, RestoreReason::ContentionCleared);
        } else if engaged {
            let un = unexpired(e.downgraded, now, max);
            let xs = expired_ones(e.downgraded, now, max);
            let dn = if c { downgrades(cfg, fg, rules, e.downgraded, samples) } else { Seq::empty() };
            let tm = restores(xs, RestoreReason::Timeout);
            assert(dc == dn + tm);
            lemma_filter_keeps_unique(e.downgraded, not_expired_pred(now, max));
            lemma_filter_keeps_unique(e.downgraded, expired_pred(now, max));
            lemma_filter_keeps_unique(un, gone_pred(samples));
            lemma_restores_distinct(xs, RestoreReason::Timeout);
            lemma_restores_distinct(gset, RestoreReason::ProcessExited);
            lemma_filter_members(e.downgraded, expired_pred(now, max));
            lemma_filter_members(e.downgraded, not_expired_pred(now, max));
            lemma_filter_members(un, gone_pred(samples));
            lemma_downgrades_from_candidates(cfg, fg, rules, e.downgraded, samples);
            if c {
                lemma_downgrades_distinct(cfg, fg, rules, e.downgraded, samples);
            }
            assert forall|i: int, j: int| 0 <= i < dn.len() && 0 <= j < tm.len()
                implies decision_pid(#[trigger] dn[i]) != decision_pid(#[trigger] tm[j]) by {
                let dd = downgrades(cfg, fg, rules, e.downgraded, samples);
                assert(dn[i] == dd[i]);
                let k = choose|k: int| 0 <= k < samples.len() && dd[i] == downgrade_of(samples[k])
                    && #[trigger] downgrade_candidate(cfg, fg, rules, e.downgraded, samples[k]);
                assert(tm[j] == restore_of(xs[j], RestoreReason::Timeout));
                assert(e.downgraded.contains(xs[j]));
                let m = lemma_member_index(e.downgraded, xs[j]);
                assert(e.downgraded[m].pid == xs[j].pid);
            }
            lemma_distinct_concat(dn, tm);
            assert forall|i: int, j: int| 0 <= i < dc.len() && 0 <= j < gx.len()
                implies decision_pid(#[trigger] dc[i]) != decision_pid(#[trigger] gx[j]) by {
                let y = gset[j];
                assert(gx[j] == restore_of(y, RestoreReason::ProcessExited));
                assert(un.contains(y));
                let uy = lemma_member_index(un, y);
                assert(e.downgraded.contains(un[uy]));
                assert(!expired(y, now, max));
                let ey = lemma_member_index(e.downgraded, y);
                if i < dn.len() {
                    let dd = downgrades(cfg, fg, rules, e.downgraded, samples);
                    assert(dc[i] == dn[i]);
                    assert(dn[i] == dd[i]);
                    let k = choose|k: int| 0 <= k < samples.len() && dd[i] == downgrade_of(samples[k])
                        && #[trigger] downgrade_candidate(cfg, fg, rules, e.downgraded, samples[k]);
                    assert(e.downgraded[ey].pid == y.pid);
                } else {
                    let x = xs[i - dn.len()];
                    assert(dc[i] == tm[i - dn.len()]);
                    assert(tm[i - dn.len()] == restore_of(x, RestoreReason::Timeout));
                    assert(e.downgraded.contains(x));
                    assert(expired(x, now, max));
                    let ex = lemma_member_index(e.downgraded, x);
                    if x.pid == y.pid {
                        assert(ex == ey);
                    }
                }
            }
            lemma_distinct_concat(dc, gx);
        } else {
            assert(dc.len() == 0);
            assert(d =~= gx);
            lemma_filter_keeps_unique(e.downgraded, gone_pred(samples));
            lemma_restores_distinct(gset, RestoreReason::ProcessExited);
        }
    }
}

/// After an enabled tick, every process that was tracked and has no sample
/// in the tick has been restored.
pub proof fn lemma_tick_restores_unsampled(e: EngineView, now: u64, fg: Option<u32>, samples: Seq<ProcSample>, rules: Seq<AffinityRule>, game: bool)
    requires
        e.config.enabled,
    ensures
        forall|i: int| 0 <= i < e.downgraded.len() && !has_sample(samples, (#[trigger] e.downgraded[i]).pid) ==>
            exists|k: int| 0 <= k < spec_tick(e, now, fg, samples, rules, game).1.len()
                && (#[trigger] spec_tick(e, now, fg, samples, rules, game).1[k]) is Restore
                && decision_pid(spec_tick(e, now, fg, samples, rules, game).1[k]) == e.downgraded[i].pid,
{
    let (post, d) = spec_tick(e, now, fg, samples, rules, game);
    let (mid, dc) = tick_core(e, now, fg, samples, rules, game);
    let gset = gone_ones(mid.downgraded, samples);
    let gx = restores(gset, RestoreReason::ProcessExited);
    assert(d == dc + gx);
    let cfg = e.config;
    let max = cfg.max_downgrade_secs;
    let c = spec_contention(cfg, fg, samples, game);
    let ct = if c { sat_inc(e.contention_ticks) } else { 0 };
    let cl = if c { 0 } else { sat_inc(e.clear_ticks) };
    let engaged = e.engaged || ct >= cfg.sustain_secs;
    assert forall|i: int| 0 <= i < e.downgraded.len() && !has_sample(samples, (#[trigger] e.downgraded[i]).pid) implies
        exists|k: int| 0 <= k < d.len() && (#[trigger] d[k]) is Restore && decision_pid(d[k]) == e.downgraded[i].pid by {
        let x = e.downgraded[i];
        if engaged && cl >= cfg.restore_after_secs {
            assert(d[i] == dc[i]);
            assert(dc[i] == restore_of(x, RestoreReason::ContentionCleared));
        } else if engaged {
            let un = unexpired(e.downgraded, now, max);
            let xs = expired_ones(e.downgraded, now, max);
            let dn = if c { downgrades(cfg, fg, rules, e.downgraded, samples) } else { Seq::empty() };
            let tm = restores(xs, RestoreReason::Timeout);
            assert(dc == dn + tm);
            if expired(x, now, max) {
                e.downgraded.lemma_filter_contains(expired_pred(now, max), i);
                let m = lemma_member_index(xs, x);
                let k = dn.len() + m;
                assert(d[k] == dc[k]);
                assert(dc[k] == tm[m]);
                assert(tm[m] == restore_of(x, RestoreReason::Timeout));
            } else {
                e.downgraded.lemma_filter_contains(not_expired_pred(now, max), i);
                let u = lemma_member_index(un, x);
                un.lemma_filter_contains(gone_pred(samples), u);
                let g = lemma_member_index(gset, x);
                let k = dc.len() + g;
                assert(d[k] == gx[g]);
                assert(gx[g] == restore_of(x, RestoreReason::ProcessExited));
            }
        } else {
            e.downgraded.lemma_filter_contains(gone_pred(samples), i);
            let g = lemma_member_index(gset, x);
            let k = dc.len() + g;
            assert(d[k] == gx[g]);
            assert(gx[g] == restore_of(x, RestoreReason::ProcessExited));
        }
    }
}


// =========================================================================
// Recording a downgrade
// =========================================================================

/// The set of tracked PIDs.
pub open spec fn tracked_pids(ts: Seq<Downgraded>) -> Set<u32> {
    ts.map_values(|t: Downgraded| t.pid).to_set()
}

proof fn lemma_tracked_pids_count(ts: Seq<Downgraded>)
    requires
        pids_unique(ts),
    ensures
        tracked_pids(ts).len() == ts.len(),
        tracked_pids(ts).finite(),
        forall|p: u32| tracked_pids(ts).contains(p) <==> tracks(ts, p),
{
    broadcast use vstd::set::group_set_axioms, vstd::seq_lib::seq_to_set_is_finite;
    let ps = ts.map_values(|t: Downgraded| t.pid);
    assert(ps.no_duplicates()) by {
        assert forall|i: int, j: int| 0 <= i < ps.len() && 0 <= j < ps.len() && i != j implies ps[i] != ps[j] by {
            assert(ps[i] == ts[i].pid && ps[j] == ts[j].pid);
        }
    }
    ps.unique_seq_to_set();
    assert forall|p: u32| tracked_pids(ts).contains(p) <==> tracks(ts, p) by {
        if tracks(ts, p) {
            let i = choose|i: int| 0 <= i < ts.len() && (#[trigger] ts[i]).pid == p;
            assert(ps[i] == p);
            assert(ps.contains(p));
        }
        if ps.contains(p) {
            let i = choose|i: int| 0 <= i < ps.len() && ps[i] == p;
            assert(ts[i].pid == p);
        }
    }
}

/// Recording a downgrade of `d`: the tracked count becomes the number of
/// distinct PIDs tracked before together with `d`'s PID, PIDs stay unique,
/// and the record for `d`'s PID is `d` (a repeated call overwrites).
pub proof fn lemma_mark_count(ts: Seq<Downgraded>, d: Downgraded)
    requires
        pids_unique(ts),
    ensures
        pids_unique(mark_spec(ts, d)),
        mark_spec(ts, d).len() == tracked_pids(ts).insert(d.pid).len(),
        forall|i: int| 0 <= i < mark_spec(ts, d).len() && (#[trigger] mark_spec(ts, d)[i]).pid == d.pid
            ==> mark_spec(ts, d)[i] == d,
{
    broadcast use vstd::set::group_set_axioms;
    lemma_tracked_pids_count(ts);
    vstd::set::axiom_set_insert_len(tracked_pids(ts), d.pid);
    let m = mark_spec(ts, d);
    let j: int = if tracks(ts, d.pid) {
        choose|i: int| 0 <= i < ts.len() && (#[trigger] ts[i]).pid == d.pid
    } else {
        ts.len() as int
    };
    assert(m[j] == d);
    assert forall|i: int| 0 <= i < m.len() && i != j implies #[trigger] m[i] == ts[i] && ts[i].pid != d.pid by {
        if tracks(ts, d.pid) {
            assert(ts[i].pid != ts[j].pid);
        }
    }
    assert forall|a: int, b: int| 0 <= a < m.len() && 0 <= b < m.len() && a != b
        implies (#[trigger] m[a]).pid != (#[trigger] m[b]).pid by {
        if a != j && b != j {
            assert(m[a] == ts[a] && m[b] == ts[b]);
        }
    }
    assert forall|i: int| 0 <= i < m.len() && (#[trigger] m[i]).pid == d.pid implies m[i] == d by {
        if i != j {
            assert(m[i] == ts[i] && ts[i].pid != d.pid);
        }
    }
}

/// After `mark_downgraded` records `d`, a restore of `d`'s PID made by the
/// next tick carries exactly `d`'s name and original values (restores on
/// shutdown and on disabling: `lemma_mark_then_restore_all`).
pub proof fn lemma_mark_then_tick_restore(e: EngineView, d: Downgraded, now: u64, fg: Option<u32>, samples: Seq<ProcSample>, rules: Seq<AffinityRule>, game: bool)
    requires
        pids_unique(e.downgraded),
    ensures
        ({
            let e2 = EngineView { downgraded: mark_spec(e.downgraded, d), ..e };
            forall|k: int| 0 <= k < spec_tick(e2, now, fg, samples, rules, game).1.len()
                && decision_pid(#[trigger] spec_tick(e2, now, fg, samples, rules, game).1[k]) == d.pid
                ==> (spec_tick(e2, now, fg, samples, rules, game).1[k] matches Decision::Restore { reason, .. }
                ==> spec_tick(e2, now, fg, samples, rules, game).1[k] == restore_of(d, reason))
        }),
{
    let e2 = EngineView { downgraded: mark_spec(e.downgraded, d), ..e };
    lemma_mark_count(e.downgraded, d);
    let ds = spec_tick(e2, now, fg, samples, rules, game).1;
    assert forall|k: int| 0 <= k < ds.len() && decision_pid(#[trigger] ds[k]) == d.pid
        implies (ds[k] matches Decision::Restore { reason, .. } ==> ds[k] == restore_of(d, reason)) by {
        lemma_tick_restore_at(e2, now, fg, samples, rules, game, k);
        if let Decision::Restore { reason, .. } = ds[k] {
            let i = choose|i: int| 0 <= i < e2.downgraded.len()
                && ds[k] == restore_of(#[trigger] e2.downgraded[i], reason)
                && !tracks(spec_tick(e2, now, fg, samples, rules, game).0.downgraded, e2.downgraded[i].pid);
            assert(e2.downgraded[i].pid == d.pid);
        }
    }
}


// =========================================================================
// The system processes
// =========================================================================

/// The name is one of the system processes that are never downgraded:
/// csrss, wininit, winlogon, services, lsass, smss, svchost, dwm, audiodg,
/// logonui, fontdrvhost, conhost, sihost, taskhostw, explorer, system,
/// registry, memory compression, cpum, cpum_service (any case, `.exe`
/// optional).
pub open spec fn names_system_process(name: Seq<char>) -> bool {
    ||| spec_name_matches(name, "csrss"@)
    ||| spec_name_matches(name, "wininit"@)
    ||| spec_name_matches(name, "winlogon"@)
    ||| spec_name_matches(name, "services"@)
    ||| spec_name_matches(name, "lsass"@)
    ||| spec_name_matches(name, "smss"@)
    ||| spec_name_matches(name, "svchost"@)
    ||| spec_name_matches(name, "dwm"@)
    ||| spec_name_matches(name, "audiodg"@)
    ||| spec_name_matches(name, "logonui"@)
    ||| spec_name_matches(name, "fontdrvhost"@)
    ||| spec_name_matches(name, "conhost"@)
    ||| spec_name_matches(name, "sihost"@)
    ||| spec_name_matches(name, "taskhostw"@)
    ||| spec_name_matches(name, "explorer"@)
    ||| spec_name_matches(name, "system"@)
    ||| spec_name_matches(name, "registry"@)
    ||| spec_name_matches(name, "memory compression"@)
    ||| spec_name_matches(name, "cpum"@)
    ||| spec_name_matches(name, "cpum_service"@)
}

/// Every system process is protected, whatever the user allowlist and the
/// rules.
pub proof fn lemma_system_processes_protected(name: Seq<char>, path: Option<Seq<char>>, whitelist: Seq<String>, rules: Seq<AffinityRule>)
    requires
        names_system_process(name),
    ensures
        spec_is_protected(name, path, whitelist, rules),
{
    let w = system_whitelist_names();
    assert(w[0] == "csrss"@ && w[1] == "wininit"@ && w[2] == "winlogon"@ && w[3] == "services"@ && w[4] == "lsass"@);
    assert(w[5] == "smss"@ && w[6] == "svchost"@ && w[7] == "dwm"@ && w[8] == "audiodg"@ && w[9] == "logonui"@);
    assert(w[10] == "fontdrvhost"@ && w[11] == "conhost"@ && w[12] == "sihost"@ && w[13] == "taskhostw"@ && w[14] == "explorer"@);
    assert(w[15] == "system"@ && w[16] == "registry"@ && w[17] == "memory compression"@ && w[18] == "cpum"@ && w[19] == "cpum_service"@);
    let k: int = choose|k: int| 0 <= k < 20 && spec_name_matches(name, w[k]);
    assert(spec_name_matches(name, w[k]));
}

/// No tick ever downgrades a system process.
pub proof fn lemma_tick_spares_system_processes(e: EngineView, now: u64, fg: Option<u32>, samples: Seq<ProcSample>, rules: Seq<AffinityRule>, game: bool)
    ensures
        forall|k: int| 0 <= k < spec_tick(e, now, fg, samples, rules, game).1.len()
            ==> (#[trigger] spec_tick(e, now, fg, samples, rules, game).1[k] matches Decision::Downgrade { name, .. }
            ==> !names_system_process(name@)),
{
    let d = spec_tick(e, now, fg, samples, rules, game).1;
    lemma_tick_downgrades_are_safe(e, now, fg, samples, rules, game);
    assert forall|k: int| 0 <= k < d.len() implies (#[trigger] d[k] matches Decision::Downgrade { name, .. }
        ==> !names_system_process(name@)) by {
        if let Decision::Downgrade { name, .. } = d[k] {
            let i = choose|i: int| 0 <= i < samples.len() && d[k] == downgrade_of(samples[i])
                && #[trigger] downgrade_candidate(e.config, fg, rules, e.downgraded, samples[i]);
            if names_system_process(name@) {
                lemma_system_processes_protected(samples[i].name@, opt_string_view(samples[i].image_path),
                    e.config.whitelist@, rules);
            }
        }
    }
}

} // verus!
