use cpum_core::topology::{
    add_die_candidate, build_topology, die_map_from_probes, die_probe_applicable, family_model, hw_signature,
    usable_cache, vendor_bytes, CoreEntry, GroupMaskEntry, LpProbe, TopologyCache,
};

fn lcore(group: u16, mask: u64, smt: bool) -> CoreEntry {
    CoreEntry { group, mask, flags: if smt { 1 } else { 0 }, efficiency_class: 0 }
}

#[test]
fn single_die_smt_desktop() {
    let cores = [lcore(0, 0b0011, true), lcore(0, 0b1100, true)];
    let packages = [GroupMaskEntry { group: 0, mask: 0b1111 }];
    let t = build_topology(&cores, &packages, &[], None, 1).unwrap();
    assert_eq!(t.total_logical_processors, 4);
    assert_eq!(t.cores.len(), 2);
    assert_eq!(t.cores[1].threads, vec![2, 3]);
    assert!(t.cores[0].has_smt);
    assert_eq!(t.dies.len(), 1);
    assert!(!t.dies[0].is_ccd);
    assert_eq!(t.dies[0].cores, vec![0, 1]);
    assert_eq!(t.dies[0].threads, vec![0, 1, 2, 3]);
    let lp3 = t.logical_processors[3];
    assert_eq!((lp3.index, lp3.core_id, lp3.smt_thread_id, lp3.is_smt_secondary), (3, 1, 1, true));
    assert!(!t.logical_processors[2].is_smt_secondary);
    assert!(t.single_group);
    assert_eq!(t.group_count, 1);
}

#[test]
fn cpuid_map_splits_two_ccds_and_renumbers() {
    let cores = [lcore(0, 0b01, false), lcore(0, 0b10, false), lcore(0, 0b100, false)];
    // Raw die ids 7 and 3: renumbered by rank (3 -> 0, 7 -> 1).
    let t = build_topology(&cores, &[], &[], Some(vec![7, 3, 7]), 1).unwrap();
    assert_eq!(t.dies.len(), 2);
    assert!(t.dies[0].is_ccd);
    assert_eq!(t.cores.iter().map(|c| c.die_id).collect::<Vec<_>>(), vec![1, 0, 1]);
    assert_eq!(t.dies[1].cores, vec![0, 2]);
    assert_eq!(t.dies[0].threads, vec![1]);
}

#[test]
fn windows_die_relations_and_groups() {
    let cores = [lcore(0, 0b1, false), lcore(1, 0b1, false), lcore(1, 0b10, false)];
    let dies = [GroupMaskEntry { group: 1, mask: 0b11 }];
    let packages = [GroupMaskEntry { group: 0, mask: 0b1 }, GroupMaskEntry { group: 1, mask: 0b11 }];
    let t = build_topology(&cores, &packages, &dies, None, 2).unwrap();
    assert_eq!(t.cores[1].threads, vec![64]);
    assert_eq!(t.cores[2].threads, vec![65]);
    assert_eq!(t.cores[0].package_id, 0);
    assert_eq!(t.cores[1].package_id, 1);
    assert_eq!(t.cores.iter().map(|c| c.die_id).collect::<Vec<_>>(), vec![0, 0, 0]);
    assert_eq!(t.logical_processors[2].group_index, 1);
    assert!(!t.single_group);
    assert!(build_topology(&[], &[], &[], None, 1).is_err());
}

fn probe(node: u32, die: u32, x2apic: u32) -> LpProbe {
    LpProbe { node_id: node, die_id_26: die, x2apic, ok: true }
}

#[test]
fn die_methods_in_order() {
    let by_node: Vec<LpProbe> = (0..4).map(|i| probe(i / 2, 0, i)).collect();
    assert_eq!(die_map_from_probes(0x8000_0026, &by_node), Some(vec![0, 0, 1, 1]));
    let by_die: Vec<LpProbe> = (0..4).map(|i| probe(0, i % 2, i)).collect();
    assert_eq!(die_map_from_probes(0x8000_0026, &by_die), Some(vec![0, 1, 0, 1]));
    // Below the extended leaf the die reading is not used.
    assert_eq!(die_map_from_probes(0x8000_0020, &by_die), None);
    let mut failed = by_node.clone();
    failed[1].ok = false;
    assert_eq!(die_map_from_probes(0x8000_001E, &failed), Some(vec![0, u32::MAX, 1, 1]));
}

#[test]
fn x2apic_split_of_a_contiguous_population() {
    // 32 processors, contiguous x2APIC ids 0..31, node ids hidden: bit 4
    // splits them in halves.
    let probes: Vec<LpProbe> = (0..32).map(|i| probe(0, 0, i)).collect();
    let map = die_map_from_probes(0x8000_001E, &probes).unwrap();
    assert_eq!(map, (0..32).map(|i| (i >> 4) & 1).collect::<Vec<u32>>());
}

#[test]
fn even_split_fallback() {
    // Ids not contiguous, so the x2APIC method does not apply.
    let probes: Vec<LpProbe> = (0..16).map(|i| probe(0, 0, i * 2)).collect();
    let map = die_map_from_probes(0x8000_001E, &probes).unwrap();
    assert_eq!(map, (0..16).map(|i| if i < 8 { 0 } else { 1 }).collect::<Vec<u32>>());
    let few: Vec<LpProbe> = (0..8).map(|i| probe(0, 0, i * 2)).collect();
    assert_eq!(die_map_from_probes(0x8000_001E, &few), None);
    assert!(die_probe_applicable("AuthenticAMD", 16));
    assert!(!die_probe_applicable("GenuineIntel", 16));
    assert!(!die_probe_applicable("AuthenticAMD", 65));
    assert!(!die_probe_applicable("AuthenticAMD", 0));
}

#[test]
fn cpuid_family_model_and_signature() {
    // Zen 4 (family 19h, model 61h): base family 0Fh + ext 0Ah.
    let eax = (0x0A << 20) | (0x6 << 16) | (0xF << 8) | (0x1 << 4);
    assert_eq!(family_model(eax), (0x19, 0x61));
    // Family 6 uses the extended model too.
    assert_eq!(family_model((0x9 << 16) | (0x6 << 8) | (0x7 << 4)), (6, 0x97));
    // Other families use the base model only.
    assert_eq!(family_model((0x9 << 16) | (0x5 << 8) | (0x7 << 4)), (5, 0x7));
    let b = vendor_bytes(0x6874_7541, 0x6974_6E65, 0x444D_4163);
    assert_eq!(String::from_utf8(b).unwrap(), "AuthenticAMD");
    assert_eq!(hw_signature("AuthenticAMD", 0x19, 0x61, 32), "AuthenticAMD-19-61-32");
    assert_eq!(hw_signature("GenuineIntel", 6, 0xB7, 0), "GenuineIntel-6-B7-0");
}

#[test]
fn cache_is_used_only_with_the_same_signature() {
    let t = build_topology(&[lcore(0, 1, false)], &[], &[], None, 1).unwrap();
    let cache = TopologyCache { hw_signature: "sig".into(), ts_secs: 1, topology: t };
    assert!(usable_cache(Some(cache), "other").is_none());
    let t = build_topology(&[lcore(0, 1, false)], &[], &[], None, 1).unwrap();
    let cache = TopologyCache { hw_signature: "sig".into(), ts_secs: 1, topology: t };
    assert!(usable_cache(Some(cache), "sig").is_some());
    assert!(usable_cache(None, "sig").is_none());
}

#[test]
fn die_candidates_are_kept_once() {
    let mut list = vec![];
    add_die_candidate(&mut list, 0, 0xF);
    add_die_candidate(&mut list, 0, 0xF);
    add_die_candidate(&mut list, 1, 0xF);
    assert_eq!(list.len(), 2);
}
