use cpum_core::procwin::{
    cpu_set_ids_for_group_masks, cpu_set_ids_for_group_masks_from_entries, cpu_set_ids_for_mask, cpu_set_locations,
    cpu_sets_available, full_group_masks, group_system_mask, image_file_name, mask_to_hex, merge_thread_affinity,
    parse_hex_mask, priority_class_rank, priority_writes, soft_attempt_outcome, strict_threads_outcome,
    thread_target_group, trim_text, validate_group_masks_for_counts, CpuSetEntry, GroupMasks, PriorityKind,
    SoftAttempt,
};

#[test]
fn accepts_masks_within_each_group_range() {
    assert!(validate_group_masks_for_counts(&[0x8000_0000_0000_0001, 0x3], &[64, 2]).is_ok());
}

#[test]
fn rejects_bits_outside_a_short_group() {
    let error = validate_group_masks_for_counts(&[0x1, 0x4], &[64, 2]).unwrap_err();
    assert!(error.contains("group 1"));
}

#[test]
fn rejects_empty_selection_and_extra_groups() {
    assert!(validate_group_masks_for_counts(&[0, 0], &[64, 4]).is_err());
    assert!(validate_group_masks_for_counts(&[1, 1], &[64]).is_err());
}

#[test]
fn cpu_set_mapping_keeps_same_lp_index_in_separate_groups_distinct() {
    let entries = [
        CpuSetEntry { group: 0, lp_index: 1, id: 101 },
        CpuSetEntry { group: 1, lp_index: 1, id: 201 },
        CpuSetEntry { group: 1, lp_index: 2, id: 202 },
    ];
    assert_eq!(cpu_set_ids_for_group_masks_from_entries(&[0b10, 0], &entries), vec![101]);
    assert_eq!(cpu_set_ids_for_group_masks_from_entries(&[0, 0b110], &entries), vec![201, 202]);
}

#[test]
fn procwin_parse_hex_mask_basic() {
    assert_eq!(parse_hex_mask("0xFF").unwrap(), 0xFF);
    assert_eq!(parse_hex_mask("FF").unwrap(), 0xFF);
    assert_eq!(parse_hex_mask("0xff").unwrap(), 0xFF);
    assert_eq!(parse_hex_mask("0xFFFFFFFFFFFFFFFF").unwrap(), u64::MAX);
    assert_eq!(parse_hex_mask("  0xFF  ").unwrap(), 0xFF);
}

#[test]
fn parse_hex_mask_invalid() {
    assert!(parse_hex_mask("").is_err());
    assert!(parse_hex_mask("  ").is_err());
    assert!(parse_hex_mask("0x").is_err());
    assert!(parse_hex_mask("0X").is_err());
    assert!(parse_hex_mask("0xFFFFFFFFFFFFFFFF0").is_err());
    assert!(parse_hex_mask("0xGHIJ").is_err());
    assert!(parse_hex_mask("not_a_hex").is_err());
}

#[test]
fn procwin_mask_to_hex_roundtrip() {
    for v in [0xFFu64, 0x1, 0xABCDEF0, u64::MAX] {
        let hex = mask_to_hex(v);
        assert_eq!(parse_hex_mask(&hex).unwrap(), v);
    }
}

#[test]
fn priority_class_rank_matches_scheduler_order() {
    let idle = priority_class_rank(0x40).unwrap();
    let below = priority_class_rank(0x4000).unwrap();
    let normal = priority_class_rank(0x20).unwrap();
    let above = priority_class_rank(0x8000).unwrap();
    let high = priority_class_rank(0x80).unwrap();
    let realtime = priority_class_rank(0x100).unwrap();
    assert!(idle < below && below < normal && normal < above && above < high && high < realtime);
}

#[test]
fn priority_class_rank_rejects_unknown_values() {
    assert!(priority_class_rank(0x5000).is_none());
    assert!(priority_class_rank(0x0010_0000).is_none());
    assert!(priority_class_rank(0).is_none());
}

// ---------- the same parser as used by the desktop process list ----------

#[test]
fn process_parse_hex_mask_basic() {
    assert_eq!(parse_hex_mask("0xFF").unwrap(), 0xFF);
    assert_eq!(parse_hex_mask("FF").unwrap(), 0xFF);
    assert_eq!(parse_hex_mask("0xff").unwrap(), 0xFF);
    assert_eq!(parse_hex_mask("0xFFFFFFFF").unwrap(), 0xFFFFFFFF);
}

#[test]
fn parse_hex_mask_full_64bit() {
    assert_eq!(parse_hex_mask("0xFFFFFFFFFFFFFFFF").unwrap(), u64::MAX);
}

#[test]
fn parse_hex_mask_empty_string() {
    assert!(parse_hex_mask("").is_err());
    assert!(parse_hex_mask("  ").is_err());
    assert!(parse_hex_mask("0x").is_err());
    assert!(parse_hex_mask("0X").is_err());
}

#[test]
fn parse_hex_mask_too_long() {
    assert!(parse_hex_mask("0xFFFFFFFFFFFFFFFF0").is_err());
    assert!(parse_hex_mask("000000000000000000").is_err());
}

#[test]
fn parse_hex_mask_invalid_chars() {
    assert!(parse_hex_mask("0xGHIJ").is_err());
    assert!(parse_hex_mask("not_a_hex").is_err());
}

#[test]
fn parse_hex_mask_whitespace() {
    assert_eq!(parse_hex_mask("  0xFF  ").unwrap(), 0xFF);
}

#[test]
fn process_mask_to_hex_roundtrip() {
    for v in [0u64, 1, 0xFF, 0xFFFF, 0xFFFFFFFF, u64::MAX] {
        let hex = mask_to_hex(v);
        let parsed = parse_hex_mask(&hex).unwrap();
        assert_eq!(parsed, v, "roundtrip failed for {:#X}", v);
    }
}

// ---------- further cases ----------

#[test]
fn mask_to_hex_exact_texts() {
    assert_eq!(mask_to_hex(0), "0x0");
    assert_eq!(mask_to_hex(0xFF), "0xFF");
    assert_eq!(mask_to_hex(0xabcdef), "0xABCDEF");
    assert_eq!(mask_to_hex(u64::MAX), "0xFFFFFFFFFFFFFFFF");
}

#[test]
fn parse_hex_mask_prefix_and_sign_forms() {
    assert_eq!(parse_hex_mask("0x0xF").unwrap(), 0xF);
    assert_eq!(parse_hex_mask("0X1f").unwrap(), 0x1F);
    assert_eq!(parse_hex_mask("+ff").unwrap(), 0xFF);
    assert!(parse_hex_mask("-1").is_err());
    assert_eq!(parse_hex_mask("\t00000000000000FF\n").unwrap(), 0xFF);
}

#[test]
fn group_masks_hex_list_roundtrip() {
    let g = GroupMasks(vec![0x3, 0x0, 0x8000_0000_0000_0000]);
    let texts = g.to_hex_list();
    assert_eq!(texts, vec!["0x3".to_string(), "0x0".to_string(), "0x8000000000000000".to_string()]);
    let back = GroupMasks::from_hex_list(&texts).unwrap();
    assert_eq!(back.0, g.0);
    assert_eq!(back.total_bits(), 3);
    assert!(!back.is_empty());
    assert!(GroupMasks(vec![0, 0]).is_empty());
    assert!(GroupMasks::from_hex_list(&[]).is_err());
    assert!(GroupMasks::from_hex_list(&["0x1".to_string(), "zz".to_string()]).is_err());
    assert_eq!(GroupMasks::single(0x5).0, vec![0x5]);
}

#[test]
fn validate_group_masks_error_cases() {
    assert!(validate_group_masks_for_counts(&[], &[64]).is_err());
    assert!(validate_group_masks_for_counts(&[0x1], &[0]).is_err());
    assert!(validate_group_masks_for_counts(&[0x0, 0x1], &[0, 1]).is_ok());
    assert!(validate_group_masks_for_counts(&[u64::MAX], &[64]).is_ok());
    assert!(validate_group_masks_for_counts(&[0x3], &[1]).is_err());
}

#[test]
fn cpu_sets_require_entries_and_a_selection() {
    let entries = [CpuSetEntry { group: 0, lp_index: 0, id: 7 }, CpuSetEntry { group: 0, lp_index: 63, id: 9 }];
    assert!(!cpu_sets_available(&[]));
    assert!(cpu_sets_available(&entries));
    assert!(cpu_set_ids_for_group_masks(&[0x1], &[]).is_err());
    assert!(cpu_set_ids_for_group_masks(&[0x2], &entries).is_err());
    assert_eq!(cpu_set_ids_for_mask(0x8000_0000_0000_0001, &entries).unwrap(), vec![7, 9]);
    assert_eq!(cpu_set_locations(&[9, 5, 7], &entries), vec![(0, 63), (0, 0)]);
}

#[test]
fn image_file_name_takes_the_last_segment() {
    assert_eq!(image_file_name(r"C:\Program Files\App\app.exe"), "app.exe");
    assert_eq!(image_file_name("/usr/bin/tool"), "tool");
    assert_eq!(image_file_name("plain.exe"), "plain.exe");
    assert_eq!(image_file_name(r"C:\dir\"), "");
}

#[test]
fn priority_writes_follow_class_io_memory_order() {
    assert_eq!(
        priority_writes(Some(0x20), None, Some(5)),
        vec![(PriorityKind::Class, 0x20), (PriorityKind::Memory, 5)]
    );
    assert_eq!(priority_writes(None, Some(1), None), vec![(PriorityKind::Io, 1)]);
    assert!(priority_writes(None, None, None).is_empty());
}

#[test]
fn strict_group_affinity_helpers() {
    assert_eq!(full_group_masks(&[0x3], 3), vec![0x3, 0, 0]);
    let full = [0u64, 0xF0, 0x1];
    assert_eq!(thread_target_group(&full, Some(2)), Some(2));
    assert_eq!(thread_target_group(&full, Some(0)), Some(1));
    assert_eq!(thread_target_group(&full, Some(7)), Some(1));
    assert_eq!(thread_target_group(&full, None), Some(1));
    assert_eq!(thread_target_group(&[0, 0], Some(1)), None);
    assert!(strict_threads_outcome(4, 0, 0).is_err());
    assert!(strict_threads_outcome(4, 3, 3).is_err());
    assert!(strict_threads_outcome(4, 3, 2).is_ok());
    let mut masks = vec![0u64, 0];
    merge_thread_affinity(&mut masks, 1, 0x5);
    merge_thread_affinity(&mut masks, 1, 0x2);
    merge_thread_affinity(&mut masks, 5, 0xFF);
    assert_eq!(masks, vec![0, 0x7]);
    assert_eq!(group_system_mask(0), 0);
    assert_eq!(group_system_mask(4), 0xF);
    assert_eq!(group_system_mask(64), u64::MAX);
}

#[test]
fn soft_mode_falls_back_only_without_cpu_sets() {
    assert!(matches!(soft_attempt_outcome(Ok(()), true), SoftAttempt::Applied));
    match soft_attempt_outcome(Err("denied".to_string()), true) {
        SoftAttempt::Failed(e) => assert_eq!(e, "denied"),
        other => panic!("unexpected {:?}", other),
    }
    assert!(matches!(soft_attempt_outcome(Err("x".to_string()), false), SoftAttempt::FallBackToStrict));
}

#[test]
fn trim_text_removes_unicode_whitespace() {
    assert_eq!(trim_text("  a b \t\n"), "a b");
    assert_eq!(trim_text("\u{3000}x\u{00A0}"), "x");
    assert_eq!(trim_text("   "), "");
}

#[test]
fn parse_error_texts() {
    assert_eq!(parse_hex_mask("  ").unwrap_err(), "mask cannot be empty (raw input: \"  \")");
    assert_eq!(
        parse_hex_mask("0x11112222333344445").unwrap_err(),
        "mask exceeds 64 bits (17 hex digits): \"0x11112222333344445\""
    );
    // The limit counts UTF-8 bytes, as `str::len` does.
    assert_eq!(parse_hex_mask("éééééééééé").unwrap_err(), "mask exceeds 64 bits (20 hex digits): \"éééééééééé\"");
    assert_eq!(parse_hex_mask("0xG1").unwrap_err(), "failed to parse mask \"0xG1\": invalid digit found in string");
    assert_eq!(
        GroupMasks::from_hex_list(&["0x1".to_string(), "q".to_string()]).unwrap_err(),
        "invalid mask for group 1: failed to parse mask \"q\": invalid digit found in string"
    );
    assert_eq!(GroupMasks::from_hex_list(&[]).unwrap_err(), "group mask list cannot be empty");
}

#[test]
fn group_layout_error_texts() {
    assert_eq!(
        validate_group_masks_for_counts(&[0x1, 0x4], &[64, 2]).unwrap_err(),
        "mask for group 1 selects logical processors outside its active range (0..1)"
    );
    assert_eq!(
        validate_group_masks_for_counts(&[0x1, 0x1], &[64]).unwrap_err(),
        "mask group count 2 exceeds the system processor group count 1"
    );
    assert_eq!(
        validate_group_masks_for_counts(&[0x1, 0x1], &[64, 0]).unwrap_err(),
        "group 1 has no active logical processors"
    );
    assert_eq!(
        validate_group_masks_for_counts(&[0, 0], &[64, 64]).unwrap_err(),
        "mask is all zero: select at least one logical processor"
    );
    assert_eq!(strict_threads_outcome(42, 0, 0).unwrap_err(), "process 42 has no enumerable threads");
    assert_eq!(
        strict_threads_outcome(42, 3, 3).unwrap_err(),
        "SetThreadGroupAffinity failed for all threads (PID 42)"
    );
}
