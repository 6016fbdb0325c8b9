use cpum_core::procwin::PriorityKind;
use cpum_core::rule::RuleMode;
use cpum_core::service::{
    mode_argument, parse_set_affinity_args, parse_set_priority_args, parse_u32, priority_argument, rules_dir_argument,
    rules_due, split_trimmed_commas,
};

fn argv(items: &[&str]) -> Vec<String> {
    items.iter().map(|s| s.to_string()).collect()
}

#[test]
fn rules_are_applied_every_fifth_tick() {
    assert!(rules_due(0));
    assert!(!rules_due(1));
    assert!(!rules_due(4));
    assert!(rules_due(5));
    assert!(rules_due(10));
}

#[test]
fn rules_dir_from_service_arguments() {
    assert_eq!(rules_dir_argument(&argv(&["CpumAffinityService", r"C:\Users\me\AppData\Roaming\cpum"])), r"C:\Users\me\AppData\Roaming\cpum");
    assert_eq!(rules_dir_argument(&argv(&["CpumAffinityService"])), r"C:\ProgramData\cpum");
    assert_eq!(rules_dir_argument(&argv(&[])), r"C:\ProgramData\cpum");
}

#[test]
fn u32_parsing_matches_str_parse() {
    for text in ["0", "42", "+7", "4294967295", "4294967296", "", "+", "-1", " 1", "1 ", "0x10", "007"] {
        assert_eq!(parse_u32(text), text.parse::<u32>().ok(), "text {:?}", text);
    }
}

#[test]
fn csv_parts_are_trimmed() {
    assert_eq!(split_trimmed_commas(" 0xF , 0x3,"), vec!["0xF", "0x3", ""]);
    assert_eq!(split_trimmed_commas(""), vec![""]);
    assert_eq!(mode_argument(Some(&"soft".to_string())), RuleMode::Soft);
    assert_eq!(mode_argument(Some(&"SOFT".to_string())), RuleMode::Strict);
    assert_eq!(mode_argument(None), RuleMode::Strict);
}

#[test]
fn set_affinity_arguments() {
    let ok = parse_set_affinity_args(&argv(&["svc", "--set-affinity", "12", "0x3, 0xC", "soft"])).unwrap();
    assert_eq!(ok, (12, vec![0x3, 0xC], RuleMode::Soft));
    let ok = parse_set_affinity_args(&argv(&["svc", "--set-affinity", "12", "0x1"])).unwrap();
    assert_eq!(ok.2, RuleMode::Strict);
    let usage = parse_set_affinity_args(&argv(&["svc", "--set-affinity", "x", "0x1"])).unwrap_err();
    assert_eq!(usage, "usage: --set-affinity <pid> <mask-csv> <strict|soft>");
    assert!(parse_set_affinity_args(&argv(&["svc", "--set-affinity"])).is_err());
    // No mask argument: an empty list, which does not parse.
    assert!(parse_set_affinity_args(&argv(&["svc", "--set-affinity", "12"])).is_err());
    assert!(parse_set_affinity_args(&argv(&["svc", "--set-affinity", "12", "0x1,zz"])).is_err());
}

#[test]
fn set_priority_arguments() {
    let (pid, writes) = parse_set_priority_args(&argv(&["svc", "--set-priority", "9", " 32 ", "-", "2"])).unwrap();
    assert_eq!(pid, 9);
    assert_eq!(writes, vec![(PriorityKind::Class, 32), (PriorityKind::Memory, 2)]);
    let (_, writes) = parse_set_priority_args(&argv(&["svc", "--set-priority", "9"])).unwrap();
    assert!(writes.is_empty());
    let usage = parse_set_priority_args(&argv(&["svc", "--set-priority", "-9"])).unwrap_err();
    assert_eq!(usage, "usage: --set-priority <pid> <class|-> <io|-> <mem|->");
    assert_eq!(priority_argument(Some(&" 7\t".to_string())), Some(7));
    assert_eq!(priority_argument(Some(&"-".to_string())), None);
    assert_eq!(priority_argument(None), None);
}
