use cpum_core::rule::{validate_rule, AffinityRule, MatchType, RuleMode, RulesFile};
use cpum_core::store::{
    build_rule, mask_selects_anything, protecting_rules, remove_rules_with_id, replace_rule, rule_from_draft,
    rules_from_envelope, validate_all_rules, with_group_masks, RuleDraft,
};

fn draft(mask: &str) -> RuleDraft {
    RuleDraft {
        process_name: "code".into(),
        mask: mask.into(),
        note: String::new(),
        match_type: MatchType::Wildcard,
        mode: RuleMode::Soft,
        priority_class: Some(0x20),
        io_priority: Some(1),
        memory_priority: Some(5),
    }
}

fn rule(id: &str, name: &str) -> AffinityRule {
    AffinityRule {
        id: id.into(),
        process_name: name.into(),
        mask: "0xFF".into(),
        group_masks: None,
        enabled: true,
        created_at: 0,
        note: String::new(),
        match_type: MatchType::Exact,
        mode: RuleMode::Strict,
        priority_class: None,
        io_priority: None,
        memory_priority: None,
    }
}

#[test]
fn build_rule_generates_id_and_validates() {
    let ok = build_rule(draft("0xFF")).unwrap();
    assert!(!ok.id.is_empty());
    assert!(ok.enabled);
    assert_eq!(ok.match_type, MatchType::Wildcard);
    assert_eq!(ok.mode, RuleMode::Soft);

    let bad = build_rule(RuleDraft {
        process_name: "x".into(),
        mask: "0x0".into(),
        note: String::new(),
        match_type: MatchType::Exact,
        mode: RuleMode::Strict,
        priority_class: None,
        io_priority: None,
        memory_priority: None,
    });
    assert!(bad.is_err());
}

#[test]
fn build_rule_ids_are_uuids() {
    let a = build_rule(draft("0x3")).unwrap();
    let b = build_rule(draft("0x3")).unwrap();
    assert_eq!(a.id.len(), 36);
    assert_eq!(a.id.matches('-').count(), 4);
    assert_ne!(a.id, b.id);
    assert_eq!(a.group_masks, None);
}

#[test]
fn rule_from_draft_keeps_the_given_id_and_time() {
    let r = rule_from_draft(draft("0xF0"), "fixed".into(), 42).unwrap();
    assert_eq!(r.id, "fixed");
    assert_eq!(r.created_at, 42);
    assert_eq!(r.mask, "0xF0");
    assert_eq!(r.priority_class, Some(0x20));
    let mut bad = draft("0xF0");
    bad.io_priority = Some(3);
    assert!(rule_from_draft(bad, "x".into(), 0).is_err());
    let mut bad = draft("0xF0");
    bad.memory_priority = Some(0);
    assert!(rule_from_draft(bad, "x".into(), 0).is_err());
    let mut bad = draft("0xF0");
    bad.priority_class = Some(0x5000);
    assert!(rule_from_draft(bad, "x".into(), 0).is_err());
}

#[test]
fn mask_selects_anything_checks_value() {
    assert!(mask_selects_anything("0x1"));
    assert!(!mask_selects_anything("0x0"));
    assert!(!mask_selects_anything("zz"));
}

#[test]
fn envelope_version_is_checked() {
    let ok = rules_from_envelope(RulesFile { version: 2, rules: vec![rule("a", "x")] }).unwrap();
    assert_eq!(ok.len(), 1);
    assert!(rules_from_envelope(RulesFile { version: 1, rules: vec![] }).is_ok());
    let err = rules_from_envelope(RulesFile { version: 99, rules: vec![] }).unwrap_err();
    assert!(err.contains("99"));
}

#[test]
fn replace_rule_updates_by_id() {
    let mut rules = vec![rule("a", "one"), rule("b", "two")];
    let mut changed = rule("b", "three");
    changed.enabled = false;
    replace_rule(&mut rules, changed).unwrap();
    assert_eq!(rules[1].process_name, "three");
    assert!(!rules[1].enabled);
    assert_eq!(rules[0].process_name, "one");

    let err = replace_rule(&mut rules, rule("zzz", "x")).unwrap_err();
    assert!(err.contains("zzz"));
    let mut invalid = rule("a", "bad");
    invalid.mask = "0x0".into();
    assert!(replace_rule(&mut rules, invalid).is_err());
    assert_eq!(rules[0].process_name, "one");
}

#[test]
fn remove_rules_with_id_keeps_the_others() {
    let mut rules = vec![rule("a", "one"), rule("b", "two"), rule("a", "dup"), rule("c", "three")];
    remove_rules_with_id(&mut rules, "a");
    let names: Vec<&str> = rules.iter().map(|r| r.process_name.as_str()).collect();
    assert_eq!(names, vec!["two", "three"]);
    remove_rules_with_id(&mut rules, "missing");
    assert_eq!(rules.len(), 2);
}

#[test]
fn group_masks_from_the_editor_are_validated() {
    let base = rule("a", "x");
    let g = with_group_masks(base, Some(vec!["0x3".into(), "0x5".into()])).unwrap();
    assert_eq!(g.group_masks, Some(vec!["0x3".to_string(), "0x5".to_string()]));
    assert_eq!(g.mask, "0xFF");
    assert!(with_group_masks(rule("a", "x"), Some(vec!["0x0".into()])).is_err());
    assert!(with_group_masks(rule("a", "x"), None).unwrap().group_masks.is_none());
}

#[test]
fn protecting_rules_are_enabled_priority_rules() {
    let mut a = rule("a", "x");
    a.priority_class = Some(0x80);
    let mut b = rule("b", "y");
    b.io_priority = Some(0);
    b.enabled = false;
    let c = rule("c", "z");
    let mut d = rule("d", "w");
    d.memory_priority = Some(2);
    let p = protecting_rules(vec![a, b, c, d]);
    let ids: Vec<&str> = p.iter().map(|r| r.id.as_str()).collect();
    assert_eq!(ids, vec!["a", "d"]);
}

#[test]
fn validate_all_rules_rejects_any_invalid() {
    let mut bad = rule("b", "y");
    bad.group_masks = Some(vec!["0x0".into(), "0x0".into()]);
    assert!(validate_all_rules(&[rule("a", "x")]).is_ok());
    assert!(validate_all_rules(&[rule("a", "x"), bad]).is_err());
    assert!(validate_rule(&rule("a", "x")).is_ok());
}

#[test]
fn error_texts_name_the_failing_check() {
    let err = rules_from_envelope(RulesFile { version: 7, rules: vec![] }).unwrap_err();
    assert_eq!(err, "rules file version 7 is newer than the supported version 2, please upgrade the app");

    let mut rules = vec![rule("a", "one")];
    assert_eq!(replace_rule(&mut rules, rule("q", "x")).unwrap_err(), "rule not found: q");

    let mut r = rule("a", "game");
    r.mask = "0x0".into();
    assert_eq!(validate_rule(&r).unwrap_err(), "rule game must select at least one logical processor");
    r.mask = "0x3".into();
    r.priority_class = Some(0x7);
    assert_eq!(validate_rule(&r).unwrap_err(), "invalid CPU priority class for rule game: 0x7");
    r.priority_class = None;
    r.io_priority = Some(3);
    assert_eq!(
        validate_rule(&r).unwrap_err(),
        "invalid IO priority for rule game: 3 (allowed: 0=Very Low, 1=Low, 2=Normal)"
    );
    r.io_priority = None;
    r.memory_priority = Some(0);
    assert_eq!(validate_rule(&r).unwrap_err(), "invalid memory priority for rule game: 0 (allowed 1-5)");
    r.memory_priority = None;
    r.mask = "0xZ".into();
    assert_eq!(
        validate_rule(&r).unwrap_err(),
        "invalid mask for rule game: failed to parse mask \"0xZ\": invalid digit found in string"
    );
    r.group_masks = Some(vec!["0x1".into(), "".into()]);
    assert_eq!(
        validate_rule(&r).unwrap_err(),
        "invalid mask for group 1: mask cannot be empty (raw input: \"\")"
    );

    let mut all = vec![rule("a", "fine"), r];
    all[1].group_masks = None;
    all[1].mask = "0x0".into();
    assert_eq!(validate_all_rules(&all).unwrap_err(), "rule game must select at least one logical processor");
}
