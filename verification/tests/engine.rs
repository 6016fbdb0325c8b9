use cpum_core::engine::{apply_info, applied_mask_hex, needs_paths, plan_apply, ApplyReport, ProcessApplyInfo};
use cpum_core::procwin::{ProcessEntry, ProcessPriorities};
use cpum_core::rule::{AffinityRule, MatchType, RuleMode};

fn rule(name: &str, match_type: MatchType, mask: &str) -> AffinityRule {
    AffinityRule {
        id: name.into(),
        process_name: name.into(),
        mask: mask.into(),
        group_masks: None,
        enabled: true,
        created_at: 0,
        note: String::new(),
        match_type,
        mode: RuleMode::Strict,
        priority_class: None,
        io_priority: None,
        memory_priority: None,
    }
}

fn proc(pid: u32, name: &str, path: Option<&str>) -> ProcessEntry {
    ProcessEntry { pid, name: name.into(), path: path.map(|p| p.to_string()) }
}

#[test]
fn plan_pairs_enabled_rules_with_matching_processes() {
    let mut disabled = rule("code", MatchType::Exact, "0x1");
    disabled.enabled = false;
    let mut grouped = rule("game*", MatchType::Wildcard, "0xFF");
    grouped.group_masks = Some(vec!["0x3".into(), "0xC".into()]);
    let rules = vec![rule("code", MatchType::Exact, "0xF0"), disabled, grouped];
    let processes = vec![proc(10, "Code.exe", None), proc(11, "game.exe", None), proc(12, "gamebar.exe", None), proc(13, "code.exe", None)];
    let plan = plan_apply(&rules, &processes).unwrap();
    let pairs: Vec<(usize, u32)> = plan.iter().map(|a| (a.rule_index, a.pid)).collect();
    assert_eq!(pairs, vec![(0, 10), (0, 13), (2, 11), (2, 12)]);
    assert_eq!(plan[0].masks, vec![0xF0]);
    assert_eq!(plan[2].masks, vec![0x3, 0xC]);
}

#[test]
fn plan_refuses_an_invalid_enabled_rule() {
    let mut bad = rule("x", MatchType::Exact, "0x0");
    assert!(plan_apply(&[bad], &[proc(1, "x.exe", None)]).is_err());
    bad = rule("x", MatchType::Exact, "0x0");
    bad.enabled = false;
    assert!(plan_apply(&[bad], &[proc(1, "x.exe", None)]).unwrap().is_empty());
    assert!(plan_apply(&[], &[proc(1, "x.exe", None)]).unwrap().is_empty());
}

#[test]
fn path_rules_need_paths() {
    let rules = vec![rule(r"c:\apps\*", MatchType::Path, "0x1")];
    assert!(needs_paths(&rules));
    assert!(!needs_paths(&[rule("x", MatchType::Wildcard, "0x1")]));
    let mut off = rule(r"c:\apps\*", MatchType::Path, "0x1");
    off.enabled = false;
    assert!(!needs_paths(&[off]));
    let plan = plan_apply(&rules, &[proc(1, "a.exe", Some(r"C:\Apps\a.exe")), proc(2, "a.exe", None)]).unwrap();
    assert_eq!(plan.len(), 1);
    assert_eq!(plan[0].pid, 1);
}

#[test]
fn report_counts_successes_and_failures() {
    let mut report = ApplyReport::new();
    report.record(Ok(ProcessApplyInfo { pid: 5, mask_hex: Some("0x1".into()), priorities: None }));
    report.record(Err("denied".into()));
    report.record(Ok(ProcessApplyInfo { pid: 6, mask_hex: None, priorities: None }));
    assert_eq!(report.applied, 2);
    assert_eq!(report.failed, 1);
    assert_eq!(report.changed.iter().map(|c| c.pid).collect::<Vec<_>>(), vec![5, 6]);
    let d = ApplyReport::default();
    assert_eq!((d.applied, d.failed, d.changed.len()), (0, 0, 0));
}

#[test]
fn reported_mask_depends_on_mode() {
    assert_eq!(applied_mask_hex(true, Some(0xFFFF), &[0x3]), Some("0xFFFF".to_string()));
    assert_eq!(applied_mask_hex(true, None, &[0x3]), None);
    assert_eq!(applied_mask_hex(false, Some(0xFFFF), &[0x3, 0x4]), Some("0x3".to_string()));
    assert_eq!(applied_mask_hex(false, None, &[]), Some("0x0".to_string()));
    let mut r = rule("x", MatchType::Exact, "0x1");
    let p = ProcessPriorities { priority_class: Some(0x20), io_priority: None, memory_priority: None };
    assert_eq!(apply_info(&r, 9, false, None, &[0x1], p).priorities, None);
    r.io_priority = Some(1);
    let info = apply_info(&r, 9, false, None, &[0x1], p);
    assert_eq!(info.priorities, Some(p));
    assert_eq!(info.pid, 9);
    assert_eq!(info.mask_hex, Some("0x1".to_string()));
}

#[test]
fn report_counters_stop_at_the_maximum() {
    let mut report = ApplyReport::new();
    report.applied = u32::MAX;
    report.record(Ok(ProcessApplyInfo { pid: 1, mask_hex: None, priorities: None }));
    assert_eq!(report.applied, u32::MAX);
    assert_eq!(report.changed.len(), 1);
    report.failed = u32::MAX;
    report.record(Err("x".into()));
    assert_eq!(report.failed, u32::MAX);
}
