use cpum_core::commands::{
    command_output_text, elevated_affinity_args, elevated_priority_args, is_access_denied_error, is_sc_access_denied,
    is_service_missing, join_masks, merge_bridge_changes, service_state,
};
use cpum_core::ipc::AppliedProcess;
use cpum_core::rule::RuleMode;
use cpum_core::service::{parse_set_affinity_args, parse_set_priority_args};
use cpum_core::procwin::PriorityKind;

#[test]
fn access_denied_messages() {
    assert!(is_access_denied_error("OpenProcess failed (PID 4): Access is denied. (0x80070005)"));
    assert!(is_access_denied_error("HRESULT 0x80070005"));
    assert!(!is_access_denied_error("The parameter is incorrect. (0x80070057)"));
    assert!(!is_access_denied_error(""));
}

#[test]
fn helper_command_lines() {
    let args = elevated_affinity_args(1234, &["0xF".to_string(), "0x3".to_string()], RuleMode::Soft);
    assert_eq!(args, vec!["--set-affinity", "1234", "0xF,0x3", "soft"]);
    let args = elevated_affinity_args(0, &["0x1".to_string()], RuleMode::Strict);
    assert_eq!(args, vec!["--set-affinity", "0", "0x1", "strict"]);
    let args = elevated_priority_args(77, Some(0x80), None, Some(5));
    assert_eq!(args, vec!["--set-priority", "77", "128", "-", "5"]);
    assert_eq!(join_masks(&[]), "");
}

#[test]
fn helper_reads_back_what_the_app_writes() {
    let mut argv = vec!["cpum_service.exe".to_string()];
    argv.extend(elevated_affinity_args(4321, &["0xFF".to_string(), "0x0".to_string(), "0x10".to_string()], RuleMode::Soft));
    let (pid, masks, mode) = parse_set_affinity_args(&argv).unwrap();
    assert_eq!((pid, masks, mode), (4321, vec![0xFF, 0x0, 0x10], RuleMode::Soft));

    let mut argv = vec!["cpum_service.exe".to_string()];
    argv.extend(elevated_priority_args(u32::MAX, Some(0x4000), Some(0), None));
    let (pid, writes) = parse_set_priority_args(&argv).unwrap();
    assert_eq!(pid, u32::MAX);
    assert_eq!(writes, vec![(PriorityKind::Class, 0x4000), (PriorityKind::Io, 0)]);
}

#[test]
fn privileged_results_count_once_per_pid() {
    let mut handled = vec![1, 2];
    let changed = vec![
        AppliedProcess { pid: 2, mask_hex: None, priorities: None },
        AppliedProcess { pid: 3, mask_hex: Some("0x1".into()), priorities: None },
        AppliedProcess { pid: 3, mask_hex: None, priorities: None },
        AppliedProcess { pid: 4, mask_hex: None, priorities: None },
    ];
    let (applied, reported) = merge_bridge_changes(10, &mut handled, changed);
    assert_eq!(applied, 12);
    assert_eq!(reported.iter().map(|c| c.pid).collect::<Vec<_>>(), vec![3, 4]);
    assert_eq!(reported[0].mask_hex.as_deref(), Some("0x1"));
    assert_eq!(handled, vec![1, 2, 3, 4]);
}

#[test]
fn sc_output_reading() {
    assert_eq!(command_output_text("  out \r\n", ""), "out");
    assert_eq!(command_output_text("", " err "), "err");
    assert_eq!(command_output_text("a", "b"), "a\nb");
    assert_eq!(command_output_text(" ", "\n"), "(command did not return details)");
    assert!(is_service_missing("[SC] EnumQueryServicesStatus:OpenService FAILED 1060:"));
    assert!(is_service_missing("The specified service does not exist as an installed service."));
    assert!(!is_service_missing("STATE : 4 RUNNING"));
    assert!(is_sc_access_denied(Some(5), ""));
    assert!(is_sc_access_denied(Some(1), "Access is denied."));
    assert!(!is_sc_access_denied(None, "ok"));
}

#[test]
fn service_state_from_query() {
    let running = "SERVICE_NAME: CpumAffinityService\r\n        STATE              : 4  RUNNING\r\n";
    assert_eq!(service_state(running).as_deref(), Some("running"));
    assert_eq!(service_state("STATE : 1  STOPPED\n").as_deref(), Some("stopped"));
    let pending = "SERVICE_NAME: x\r\n   STATE   : 2  START_PENDING  \r\nWIN32_EXIT_CODE : 0\r\n";
    assert_eq!(service_state(pending).as_deref(), Some("unknown: STATE   : 2  START_PENDING"));
    assert_eq!(service_state("nothing here"), None);
    assert_eq!(service_state(""), None);
}
