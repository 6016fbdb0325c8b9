use cpum_core::monitor::ProcSample;
use cpum_core::probalance::config::ProBalanceConfig;
use cpum_core::probalance::engine::{Decision, RestoreReason, TickInput};
use cpum_core::probalance::journal::OrphanDowngrade;
use cpum_core::probalance::runtime::{
    boost_eligible, boost_restore_log_entry, boost_same_process, disabled_status, game_mode_active,
    orphan_restore_decisions, plan_downgrade, restore_log_entry, restore_writes, restore_writes_back,
    sampling_needs_paths, DowngradePlan, GameModeBoost, ProBalanceRuntime,
};
use cpum_core::procwin::{PriorityKind, ProcessPriorities};
use cpum_core::rule::{AffinityRule, MatchType, RuleMode};

fn prios(pc: Option<u32>, io: Option<u32>) -> ProcessPriorities {
    ProcessPriorities { priority_class: pc, io_priority: io, memory_priority: Some(5) }
}

fn config() -> ProBalanceConfig {
    ProBalanceConfig {
        enabled: true,
        fg_cpu_threshold: 10_000,
        bg_cpu_threshold: 4_000,
        sustain_secs: 1,
        restore_after_secs: 2,
        max_downgrade_secs: 600,
        whitelist: vec![],
        game_mode_enabled: true,
    }
}

#[test]
fn downgrade_plan_follows_current_priorities() {
    assert_eq!(plan_downgrade(prios(None, Some(2))), None);
    assert_eq!(plan_downgrade(prios(Some(0x20), Some(2))), Some(DowngradePlan { cpu: true, io: true }));
    assert_eq!(plan_downgrade(prios(Some(0x4000), Some(2))), Some(DowngradePlan { cpu: false, io: true }));
    assert_eq!(plan_downgrade(prios(Some(0x80), Some(0))), Some(DowngradePlan { cpu: true, io: false }));
    assert_eq!(plan_downgrade(prios(Some(0x40), Some(0))), None);
    assert_eq!(plan_downgrade(prios(Some(0x40), None)), None);
}

#[test]
fn finished_downgrade_is_recorded_and_logged() {
    let mut rt = ProBalanceRuntime::new(config());
    let from = prios(Some(0x20), Some(2));
    assert!(rt.finish_downgrade(5, 9, "bg.exe".into(), 4_500, from, false, false).is_none());
    assert_eq!(rt.engine().tracked_count(), 0);
    let entry = rt.finish_downgrade(5, 9, "bg.exe".into(), 4_500, from, true, false).unwrap();
    assert_eq!(entry.action, "downgrade");
    assert_eq!(entry.cpu, Some(4_500));
    assert_eq!(entry.from, Some(from));
    assert_eq!(entry.to, Some(prios(Some(0x4000), Some(2))));
    assert_eq!(rt.engine().tracked_count(), 1);
    // Shutdown hands back the recorded original values.
    let (boost, decisions) = rt.shutdown();
    assert!(boost.is_none());
    match &decisions[0] {
        Decision::Restore { pid, originals, reason, .. } => {
            assert_eq!(*pid, 9);
            assert_eq!(*originals, from);
            assert_eq!(*reason, RestoreReason::Shutdown);
        }
        _ => panic!("expected Restore"),
    }
}

#[test]
fn restores_check_the_process_name() {
    assert!(restore_writes_back(RestoreReason::Timeout, Some("BG.EXE"), "bg.exe"));
    assert!(restore_writes_back(RestoreReason::Shutdown, Some("bg"), "bg.exe") == cpum_core::matcher::name_matches("bg", "bg.exe"));
    assert!(!restore_writes_back(RestoreReason::Timeout, Some("other.exe"), "bg.exe"));
    assert!(!restore_writes_back(RestoreReason::Timeout, None, "bg.exe"));
    assert!(!restore_writes_back(RestoreReason::ProcessExited, Some("bg.exe"), "bg.exe"));
    assert_eq!(
        restore_writes(prios(Some(0x20), Some(2))),
        vec![(PriorityKind::Class, 0x20), (PriorityKind::Io, 2)]
    );
    assert_eq!(restore_writes(prios(None, None)), vec![]);
}

#[test]
fn restore_log_entries() {
    let o = prios(Some(0x20), Some(2));
    let e = restore_log_entry(7, 3, "a.exe".into(), o, RestoreReason::Timeout, true);
    assert_eq!(e.action, "restore");
    assert_eq!(e.reason.as_deref(), Some("timeout"));
    assert_eq!(e.to, Some(o));
    let e = restore_log_entry(7, 3, "a.exe".into(), o, RestoreReason::ContentionCleared, false);
    assert_eq!(e.to, None);
    assert_eq!(e.reason.as_deref(), Some("contention_cleared"));
    let e = restore_log_entry(7, 3, "a.exe".into(), o, RestoreReason::ProcessExited, false);
    assert_eq!(e.action, "exit");
    assert_eq!(e.to, Some(o));
    assert_eq!(e.reason.as_deref(), Some("process_exited"));
}

#[test]
fn orphans_become_startup_restores() {
    let o = prios(Some(0x80), Some(2));
    let d = orphan_restore_decisions(vec![OrphanDowngrade { pid: 4, name: "x.exe".into(), originals: o }]);
    assert_eq!(d.len(), 1);
    match &d[0] {
        Decision::Restore { pid, name, originals, reason } => {
            assert_eq!((*pid, name.as_str(), *originals, *reason), (4, "x.exe", o, RestoreReason::StartupReconcile));
        }
        _ => panic!("expected Restore"),
    }
}

#[test]
fn game_mode_boost_lifecycle() {
    let mut rt = ProBalanceRuntime::new(config());
    assert!(game_mode_active(true, true, Some(3)));
    assert!(!game_mode_active(true, false, Some(3)));
    assert!(!game_mode_active(false, true, Some(3)));
    assert!(!game_mode_active(true, true, None));

    assert_eq!(rt.boost_candidate(true, Some(3)), Some(3));
    assert_eq!(rt.boost_candidate(false, Some(3)), None);
    assert!(boost_eligible(Some(0x20)));
    assert!(boost_eligible(Some(0x4000)));
    assert!(!boost_eligible(Some(0x8000)));
    assert!(!boost_eligible(Some(0x80)));
    assert!(!boost_eligible(Some(0x1234)));
    assert!(!boost_eligible(None));

    let p = prios(Some(0x20), Some(2));
    let e = rt.record_boost(9, 3, "game.exe".into(), p, 0x20);
    assert_eq!(e.action, "game_mode_boost");
    assert_eq!(e.to.unwrap().priority_class, Some(0x8000));
    assert_eq!(rt.boost_candidate(true, Some(3)), None);
    assert_eq!(rt.boost_release_reason(true, Some(3)), None);
    assert_eq!(rt.boost_release_reason(true, Some(4)), Some("foreground_changed"));
    assert_eq!(rt.boost_release_reason(false, Some(3)), Some("fullscreen_ended"));

    let boost = rt.take_boost().unwrap();
    assert_eq!((boost.pid, boost.name.as_str(), boost.original_priority), (3, "game.exe", 0x20));
    assert!(rt.take_boost().is_none());
    assert!(boost_same_process(Some("GAME.exe"), &boost));
    assert!(!boost_same_process(None, &boost));
    let e = boost_restore_log_entry(10, boost, "shutdown", true);
    assert_eq!(e.action, "game_mode_restore");
    assert_eq!(e.reason.as_deref(), Some("shutdown"));
    assert_eq!(e.to, Some(ProcessPriorities { priority_class: Some(0x20), io_priority: None, memory_priority: None }));
    let e = boost_restore_log_entry(10, GameModeBoost { pid: 1, name: "a".into(), original_priority: 0x20 }, "x", false);
    assert_eq!(e.to, None);
}

#[test]
fn status_and_sampling_decisions() {
    let s = disabled_status(11);
    assert!(!s.enabled && s.downgraded == 0 && s.ts == 11);
    let mut rt = ProBalanceRuntime::new(config());
    let samples = vec![
        ProcSample { pid: 1, name: "game.exe".into(), cpu_percent: 12_000, image_path: None },
        ProcSample { pid: 2, name: "bg.exe".into(), cpu_percent: 5_000, image_path: None },
    ];
    let input = TickInput { now_secs: 1, fg_pid: Some(1), samples: &samples, protecting_rules: &[] };
    let d = rt.decide(&input, false);
    assert_eq!(d.len(), 1);
    let st = rt.status(1, Some(1), &samples, false);
    assert!(st.enabled && st.engaged);
    assert_eq!(st.fg_cpu_percent, Some(12_000));
    assert_eq!(rt.status(1, Some(99), &samples, false).fg_cpu_percent, None);
    let mut off = config();
    off.enabled = false;
    assert!(rt.reload_config(off).is_empty());
    assert!(!rt.engine().is_enabled());

    let path_rule = AffinityRule {
        id: "p".into(),
        process_name: r"c:\x\*".into(),
        mask: "0x1".into(),
        group_masks: None,
        enabled: true,
        created_at: 0,
        note: String::new(),
        match_type: MatchType::Path,
        mode: RuleMode::Strict,
        priority_class: Some(0x80),
        io_priority: None,
        memory_priority: None,
    };
    assert!(sampling_needs_paths(&[path_rule]));
    assert!(!sampling_needs_paths(&[]));
}
