use cpum_core::monitor::ProcSample;
use cpum_core::probalance::config::ProBalanceConfig;
use cpum_core::probalance::engine::{
    cpu_above_downgrade_target, is_protected, Decision, ProBalanceEngine, RestoreReason, TickInput,
};
use cpum_core::probalance::journal::{pair_orphans, read_log_tail, statistics, needs_rotation, PbLogEntry};
use cpum_core::procwin::ProcessPriorities;
use cpum_core::rule::{AffinityRule, MatchType, RuleMode};

/// CPU load in the library's unit (hundredths of a percent of a core).
fn centi(cpu: f32) -> u64 {
    (cpu * 100.0).round() as u64
}

fn sample(pid: u32, name: &str, cpu: f32) -> ProcSample {
    ProcSample { pid, name: name.into(), cpu_percent: centi(cpu), image_path: None }
}

fn sample_with_path(pid: u32, name: &str, cpu: f32, path: &str) -> ProcSample {
    ProcSample { pid, name: name.into(), cpu_percent: centi(cpu), image_path: Some(path.into()) }
}

fn prios(pc: u32, io: u32) -> ProcessPriorities {
    ProcessPriorities { priority_class: Some(pc), io_priority: Some(io), memory_priority: Some(5) }
}

fn enabled_config() -> ProBalanceConfig {
    ProBalanceConfig {
        enabled: true,
        fg_cpu_threshold: centi(100.0),
        bg_cpu_threshold: centi(40.0),
        sustain_secs: 3,
        restore_after_secs: 2,
        max_downgrade_secs: 600,
        whitelist: vec![],
        game_mode_enabled: false,
    }
}

fn tick(engine: &mut ProBalanceEngine, now: u64, fg: Option<u32>, samples: &[ProcSample]) -> Vec<Decision> {
    let input = TickInput { now_secs: now, fg_pid: fg, samples, protecting_rules: &[] };
    engine.tick(&input)
}

fn downgraded_pids(decisions: &[Decision]) -> Vec<u32> {
    decisions
        .iter()
        .filter_map(|d| match d {
            Decision::Downgrade { pid, .. } => Some(*pid),
            _ => None,
        })
        .collect()
}

fn restored_pids(decisions: &[Decision]) -> Vec<u32> {
    decisions
        .iter()
        .filter_map(|d| match d {
            Decision::Restore { pid, .. } => Some(*pid),
            _ => None,
        })
        .collect()
}

fn managed_rule(id: &str, name: &str, match_type: MatchType) -> AffinityRule {
    AffinityRule {
        id: id.into(),
        process_name: name.into(),
        mask: "0xFF".into(),
        group_masks: None,
        enabled: true,
        created_at: 0,
        note: String::new(),
        match_type,
        mode: RuleMode::Strict,
        priority_class: Some(0x80),
        io_priority: None,
        memory_priority: None,
    }
}

#[test]
fn acceptance_foreground_load_downgrades_background_then_restores() {
    let mut e = ProBalanceEngine::new(enabled_config());
    let fg = 1;
    let bg = 2;
    for t in 1..=2u64 {
        let d = tick(&mut e, t, Some(fg), &[sample(fg, "game.exe", 300.0), sample(bg, "compiler.exe", 500.0)]);
        assert!(downgraded_pids(&d).is_empty(), "t={t} should not downgrade");
    }
    let d = tick(&mut e, 3, Some(fg), &[sample(fg, "game.exe", 300.0), sample(bg, "compiler.exe", 500.0)]);
    assert_eq!(downgraded_pids(&d), vec![bg]);
    e.mark_downgraded(bg, "compiler.exe".into(), prios(0x20, 2), 3);

    let d = tick(&mut e, 4, Some(fg), &[sample(fg, "game.exe", 300.0), sample(bg, "compiler.exe", 500.0)]);
    assert!(downgraded_pids(&d).is_empty());

    let d = tick(&mut e, 5, Some(fg), &[sample(fg, "game.exe", 5.0), sample(bg, "compiler.exe", 500.0)]);
    assert!(restored_pids(&d).is_empty());

    let d = tick(&mut e, 6, Some(fg), &[sample(fg, "game.exe", 5.0), sample(bg, "compiler.exe", 500.0)]);
    assert_eq!(restored_pids(&d), vec![bg]);
    assert!(!e.is_engaged());
    assert_eq!(e.tracked_count(), 0);
}

#[test]
fn foreground_whitelist_and_rule_managed_never_downgraded() {
    let mut cfg = enabled_config();
    cfg.whitelist = vec!["precious*".into()];
    let mut e = ProBalanceEngine::new(cfg);
    for t in 1..=3u64 {
        tick(&mut e, t, Some(1), &[sample(1, "game.exe", 300.0)]);
    }
    assert!(e.is_engaged());

    let d = tick(
        &mut e,
        4,
        Some(1),
        &[
            sample(1, "game.exe", 300.0),
            sample(2, "compiler.exe", 500.0),
            sample(3, "dwm.exe", 500.0),
            sample(4, "precious_app.exe", 500.0),
        ],
    );
    assert_eq!(downgraded_pids(&d), vec![2]);

    let mut e2 = ProBalanceEngine::new(enabled_config());
    for t in 1..=3u64 {
        tick(&mut e2, t, Some(1), &[sample(1, "game.exe", 300.0)]);
    }
    let rule = managed_rule("r1", "compile*", MatchType::Wildcard);
    let samples = [sample(1, "game.exe", 300.0), sample(5, "compile_worker.exe", 500.0)];
    let input = TickInput { now_secs: 4, fg_pid: Some(1), samples: &samples, protecting_rules: &[rule] };
    let d = e2.tick(&input);
    assert!(downgraded_pids(&d).is_empty(), "rule-managed processes must not be downgraded");
}

#[test]
fn timeout_restores_individual_process() {
    let mut e = ProBalanceEngine::new(enabled_config());
    for t in 1..=3u64 {
        tick(&mut e, t, Some(1), &[sample(1, "game.exe", 300.0), sample(2, "bg.exe", 100.0)]);
    }
    let _ = tick(&mut e, 3, Some(1), &[sample(1, "game.exe", 300.0), sample(2, "bg.exe", 100.0)]);
    e.mark_downgraded(2, "bg.exe".into(), prios(0x20, 2), 3);

    let d = tick(&mut e, 603, Some(1), &[sample(1, "game.exe", 300.0), sample(2, "bg.exe", 100.0)]);
    assert_eq!(restored_pids(&d), vec![2]);
    match &d[0] {
        Decision::Restore { reason, .. } => assert_eq!(*reason, RestoreReason::Timeout),
        _ => panic!("expected Restore"),
    }
}

#[test]
fn exited_process_logged_without_writeback() {
    let mut e = ProBalanceEngine::new(enabled_config());
    for t in 1..=3u64 {
        tick(&mut e, t, Some(1), &[sample(1, "game.exe", 300.0), sample(2, "bg.exe", 100.0)]);
    }
    e.mark_downgraded(2, "bg.exe".into(), prios(0x20, 2), 3);

    let d = tick(&mut e, 4, Some(1), &[sample(1, "game.exe", 300.0)]);
    assert_eq!(restored_pids(&d), vec![2]);
    match &d[0] {
        Decision::Restore { reason, .. } => assert_eq!(*reason, RestoreReason::ProcessExited),
        _ => panic!("expected Restore"),
    }
    assert_eq!(e.tracked_count(), 0);
}

#[test]
fn disable_config_returns_all_and_stops() {
    let mut e = ProBalanceEngine::new(enabled_config());
    for t in 1..=3u64 {
        tick(&mut e, t, Some(1), &[sample(1, "game.exe", 300.0), sample(2, "bg.exe", 100.0)]);
    }
    e.mark_downgraded(2, "bg.exe".into(), prios(0x20, 2), 3);

    let mut disabled = enabled_config();
    disabled.enabled = false;
    let d = e.update_config(disabled);
    assert_eq!(restored_pids(&d), vec![2]);
    match &d[0] {
        Decision::Restore { reason, .. } => assert_eq!(*reason, RestoreReason::Disabled),
        _ => panic!("expected Restore"),
    }

    let d = tick(&mut e, 10, Some(1), &[sample(1, "game.exe", 300.0)]);
    assert!(d.is_empty());
}

#[test]
fn re_engage_requires_sustain_again() {
    let mut e = ProBalanceEngine::new(enabled_config());
    for t in 1..=3u64 {
        tick(&mut e, t, Some(1), &[sample(1, "game.exe", 300.0), sample(2, "bg.exe", 100.0)]);
    }
    e.mark_downgraded(2, "bg.exe".into(), prios(0x20, 2), 3);
    for t in 4..=6u64 {
        tick(&mut e, t, Some(1), &[sample(1, "game.exe", 5.0), sample(2, "bg.exe", 100.0)]);
    }
    assert!(!e.is_engaged());

    let d = tick(&mut e, 7, Some(1), &[sample(1, "game.exe", 300.0), sample(2, "bg.exe", 100.0)]);
    assert!(downgraded_pids(&d).is_empty());
    let d = tick(&mut e, 8, Some(1), &[sample(1, "game.exe", 300.0), sample(2, "bg.exe", 100.0)]);
    assert!(downgraded_pids(&d).is_empty());
    let d = tick(&mut e, 9, Some(1), &[sample(1, "game.exe", 300.0), sample(2, "bg.exe", 100.0)]);
    assert_eq!(downgraded_pids(&d), vec![2]);
}

#[test]
fn no_foreground_means_no_contention() {
    let mut e = ProBalanceEngine::new(enabled_config());
    for t in 1..=10u64 {
        let d = tick(&mut e, t, None, &[sample(2, "bg.exe", 900.0)]);
        assert!(downgraded_pids(&d).is_empty(), "no foreground -> no downgrade");
    }
}

#[test]
fn game_mode_reuses_background_suppression_without_cpu_threshold() {
    let mut cfg = enabled_config();
    cfg.sustain_secs = 1;
    let mut engine = ProBalanceEngine::new(cfg);
    let samples = [sample(1, "game.exe", 1.0), sample(2, "compiler.exe", 100.0)];
    let input = TickInput { now_secs: 1, fg_pid: Some(1), samples: &samples, protecting_rules: &[] };
    let decisions = engine.tick_with_game_mode(&input, true);
    assert_eq!(downgraded_pids(&decisions), vec![2]);
    assert!(engine.is_engaged());
}

#[test]
fn system_whitelist_protects_critical_processes() {
    for name in ["csrss.exe", "DWM.exe", "svchost.exe", "cpum_service.exe", "Memory Compression"] {
        assert!(is_protected(name, None, &[], &[]), "{name} should be on the system allowlist");
    }
    assert!(!is_protected("compiler.exe", None, &[], &[]));
    assert!(is_protected("mytool.exe", None, &["mytool".into()], &[]));
}

#[test]
fn downgrade_target_comparison_uses_scheduler_order() {
    assert!(!cpu_above_downgrade_target(0x40));
    assert!(!cpu_above_downgrade_target(0x4000));
    assert!(cpu_above_downgrade_target(0x20));
    assert!(cpu_above_downgrade_target(0x8000));
    assert!(cpu_above_downgrade_target(0x80));
    assert!(cpu_above_downgrade_target(0x100));
    assert!(!cpu_above_downgrade_target(0x0010_0000));
    assert!(!cpu_above_downgrade_target(0));
}

#[test]
fn path_rule_protects_process_by_image_path() {
    let mut e = ProBalanceEngine::new(enabled_config());
    for t in 1..=3u64 {
        tick(&mut e, t, Some(1), &[sample(1, "game.exe", 300.0)]);
    }
    let path_rule = managed_rule("r-path", r"c:\tools\*\compile.exe", MatchType::Path);
    let samples = [
        sample(1, "game.exe", 300.0),
        sample_with_path(2, "compile.exe", 500.0, r"c:\tools\special\compile.exe"),
        sample_with_path(3, "compile.exe", 500.0, r"d:\other\compile.exe"),
        sample(4, "compile.exe", 500.0),
    ];
    let input = TickInput { now_secs: 4, fg_pid: Some(1), samples: &samples, protecting_rules: &[path_rule] };
    let d = e.tick(&input);
    let pids = downgraded_pids(&d);
    assert_eq!(pids, vec![3, 4], "only the path-matched process is protected");
}

fn entry(ts: u64, action: &str, pid: u32, name: &str, from: Option<ProcessPriorities>) -> PbLogEntry {
    PbLogEntry { ts, action: action.into(), reason: None, pid, name: name.into(), cpu: None, from, to: None }
}

#[test]
fn pair_orphans_detects_unpaired_downgrades() {
    let entries = vec![
        entry(1, "downgrade", 10, "a.exe", Some(prios(0x20, 2))),
        entry(2, "downgrade", 20, "b.exe", Some(prios(0x20, 2))),
        entry(3, "restore", 20, "b.exe", None),
        entry(4, "downgrade", 30, "c.exe", Some(prios(0x80, 2))),
        entry(5, "exit", 30, "c.exe", None),
        entry(6, "downgrade", 40, "d.exe", Some(prios(0x20, 2))),
        entry(7, "restore", 40, "d.exe", None),
        entry(8, "downgrade", 40, "d.exe", Some(prios(0x4000, 2))),
    ];
    let orphans = pair_orphans(&entries);
    assert_eq!(orphans.len(), 2, "only PID 10 and 40 are orphans");
    let o10 = orphans.iter().find(|o| o.pid == 10).unwrap();
    assert_eq!(o10.name, "a.exe");
    let o40 = orphans.iter().find(|o| o.pid == 40).unwrap();
    assert_eq!(o40.name, "d.exe");
    assert_eq!(o40.originals.priority_class, Some(0x4000), "use the original from the last round");

    let bad = vec![entry(9, "downgrade", 50, "e.exe", None)];
    assert!(pair_orphans(&bad).is_empty());
}

// ---------- further cases ----------

#[test]
fn restores_carry_the_recorded_values() {
    let mut e = ProBalanceEngine::new(enabled_config());
    e.mark_downgraded(7, "worker.exe".into(), prios(0x80, 2), 1);
    e.mark_downgraded(8, "other.exe".into(), prios(0x20, 1), 1);
    // Recording the same PID again replaces its record.
    e.mark_downgraded(7, "worker.exe".into(), prios(0x8000, 0), 2);
    assert_eq!(e.tracked_count(), 2);
    let d = e.shutdown();
    assert_eq!(restored_pids(&d), vec![7, 8]);
    match &d[0] {
        Decision::Restore { pid, name, originals, reason } => {
            assert_eq!(*pid, 7);
            assert_eq!(name, "worker.exe");
            assert_eq!(*originals, prios(0x8000, 0));
            assert_eq!(*reason, RestoreReason::Shutdown);
        }
        _ => panic!("expected Restore"),
    }
    assert_eq!(e.tracked_count(), 0);
    assert!(!e.is_engaged());
}

#[test]
fn disabled_engine_ignores_ticks() {
    let mut cfg = enabled_config();
    cfg.enabled = false;
    let mut e = ProBalanceEngine::new(cfg);
    e.mark_downgraded(2, "bg.exe".into(), prios(0x20, 2), 1);
    for t in 1..=5u64 {
        let d = tick(&mut e, t, Some(1), &[sample(1, "game.exe", 300.0)]);
        assert!(d.is_empty());
    }
    // Not even an exited process is reported while disabled.
    assert_eq!(e.tracked_count(), 1);
    assert!(!e.is_enabled());
}

#[test]
fn enabling_resets_counters_and_emits_nothing() {
    let mut cfg = enabled_config();
    cfg.enabled = false;
    let mut e = ProBalanceEngine::new(cfg);
    let d = e.update_config(enabled_config());
    assert!(d.is_empty());
    assert!(e.is_enabled());
    assert_eq!(e.config().sustain_secs, 3);
}

#[test]
fn already_downgraded_and_foreground_are_skipped() {
    let mut e = ProBalanceEngine::new(enabled_config());
    for t in 1..=2u64 {
        tick(&mut e, t, Some(1), &[sample(1, "game.exe", 300.0)]);
    }
    e.mark_downgraded(2, "bg.exe".into(), prios(0x20, 2), 2);
    let d = tick(
        &mut e,
        3,
        Some(1),
        &[sample(1, "game.exe", 300.0), sample(2, "bg.exe", 400.0), sample(3, "cool.exe", 39.0), sample(4, "hot.exe", 40.0)],
    );
    assert_eq!(downgraded_pids(&d), vec![4]);
}

#[test]
fn read_log_tail_spans_both_files() {
    let make = |i: u64| entry(i, "downgrade", i as u32, "x.exe", None);
    let old: Vec<PbLogEntry> = (0..8).map(make).collect();
    let cur: Vec<PbLogEntry> = (8..12).map(make).collect();
    let tail = read_log_tail(old, cur, 6);
    assert_eq!(tail.iter().map(|e| e.pid).collect::<Vec<_>>(), vec![6, 7, 8, 9, 10, 11]);
    let tail = read_log_tail(vec![make(1)], vec![make(2)], 10);
    assert_eq!(tail.iter().map(|e| e.pid).collect::<Vec<_>>(), vec![1, 2]);
    assert!(read_log_tail(vec![make(1)], vec![], 0).is_empty());
}

#[test]
fn statistics_count_actions_and_processes() {
    let entries = vec![
        entry(1, "downgrade", 10, "a.exe", Some(prios(0x20, 2))),
        entry(2, "restore", 10, "a.exe", None),
        entry(3, "downgrade", 10, "a.exe", Some(prios(0x20, 2))),
        entry(4, "downgrade", 11, "b.exe", Some(prios(0x20, 2))),
        entry(5, "exit", 11, "b.exe", None),
        entry(6, "game_mode_boost", 12, "g.exe", None),
    ];
    let s = statistics(&entries);
    assert_eq!(s.downgrade_count, 3);
    assert_eq!(s.restore_count, 1);
    assert_eq!(s.exit_count, 1);
    assert_eq!(s.unique_processes, 3);
}

#[test]
fn log_rotates_above_threshold() {
    assert!(!needs_rotation(512 * 1024));
    assert!(needs_rotation(512 * 1024 + 1));
}

#[test]
fn tick_restores_untracked_exits_and_counts_down() {
    let mut engine = ProBalanceEngine::new(enabled_config());
    engine.mark_downgraded(10, "a.exe".into(), prios(0x20, 2), 0);
    engine.mark_downgraded(11, "b.exe".into(), prios(0x20, 2), 0);
    engine.mark_downgraded(10, "a.exe".into(), prios(0x8000, 1), 0);
    assert_eq!(engine.tracked_count(), 2);
    // Process 11 is still sampled, 10 has exited.
    let d = tick(&mut engine, 1, None, &[sample(11, "b.exe", 1.0)]);
    assert_eq!(restored_pids(&d), vec![10]);
    match &d[0] {
        Decision::Restore { originals, reason, .. } => {
            assert_eq!(*originals, prios(0x8000, 1));
            assert_eq!(*reason, RestoreReason::ProcessExited);
        }
        _ => panic!("expected a restore"),
    }
    assert_eq!(engine.tracked_count(), 1);
}

#[test]
fn statistics_count_distinct_pid_name_pairs() {
    let entry = |pid: u32, name: &str, action: &str| PbLogEntry {
        ts: 0,
        action: action.into(),
        reason: None,
        pid,
        name: name.into(),
        cpu: None,
        from: None,
        to: None,
    };
    let entries = vec![entry(1, "a", "downgrade"), entry(1, "a", "restore"), entry(1, "b", "game_mode_boost"), entry(2, "a", "exit")];
    let s = statistics(&entries);
    assert_eq!(s.unique_processes, 3);
    assert_eq!((s.downgrade_count, s.restore_count, s.exit_count), (1, 1, 1));
}
