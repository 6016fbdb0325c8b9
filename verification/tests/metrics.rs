use cpum_core::metrics::{build_waves, computes_rates, rate_sample, removed_pids, ProcessSnapshot, ProcessState, RateSample, UpsertTracker};
use cpum_core::procwin::ProcessPriorities;

fn snap(cpu: u64, read: u64, write: u64, inb: u64, outb: u64) -> ProcessSnapshot {
    ProcessSnapshot { cpu_total_ticks: cpu, disk_read_bytes: read, disk_write_bytes: write, net_in_bytes: inb, net_out_bytes: outb }
}

#[test]
fn rates_over_an_interval() {
    // 1 s, 0.5 s of CPU = 5 000 000 units of 100 ns = 50% = 5 000 hundredths.
    let r = rate_sample(Some(snap(0, 1000, 0, 0, 0)), snap(5_000_000, 3000, 500, 10, 0), 1000, 4);
    assert_eq!(r.cpu_centipercent, 5_000);
    assert_eq!(r.disk_read_bps, 2000);
    assert_eq!(r.disk_write_bps, 500);
    assert_eq!(r.net_in_bps, 10);
    // Counters that went backwards give 0; the CPU is capped at 110% of
    // all processors.
    let r = rate_sample(Some(snap(100, 50, 0, 0, 0)), snap(u64::MAX, 10, 0, 0, 0), 250, 2);
    assert_eq!(r.disk_read_bps, 0);
    assert_eq!(r.cpu_centipercent, 22_000);
    let r = rate_sample(None, snap(9, 9, 9, 9, 9), 1000, 1);
    assert_eq!((r.cpu_centipercent, r.disk_read_bps, r.net_out_bps), (0, 0, 0));
    assert!(!computes_rates(249));
    assert!(computes_rates(250));
}

#[test]
fn exited_pids_keep_their_order() {
    assert_eq!(removed_pids(&[5, 1, 9, 3], &[3, 5]), vec![1, 9]);
    assert!(removed_pids(&[], &[1]).is_empty());
}

fn state(pid: u32, mem: u64, pc: u32) -> ProcessState {
    ProcessState { pid, memory_bytes: mem, priorities: ProcessPriorities { priority_class: Some(pc), io_priority: None, memory_priority: None } }
}

#[test]
fn upserts_for_new_moved_or_reprioritized_rows() {
    let mut t = UpsertTracker::new();
    let first = [state(1, 10_000, 0x20), state(2, 20_000, 0x20)];
    assert_eq!(t.select_upserts(&first, &[]), vec![0, 1]);
    let second = [state(1, 10_000 + 4096, 0x20), state(2, 20_000 + 4097, 0x20), state(3, 0, 0x20)];
    // PID 3 is new; PID 2 moved by more than 4 KiB.
    assert_eq!(t.select_upserts(&second, &[1, 2]), vec![1, 2]);
    let third = [state(1, 10_000, 0x80)];
    assert_eq!(t.select_upserts(&third, &[1, 2, 3]), vec![0]);
    t.forget(&[1]);
    // Forgotten: its priorities are unknown again, so it is pushed.
    assert_eq!(t.select_upserts(&[state(1, 10_000, 0x80)], &[1]), vec![0]);
    assert_eq!(t.select_upserts(&[state(1, 10_000, 0x80)], &[1]), Vec::<usize>::new());
}

#[test]
fn waves_split_the_columns() {
    let r = RateSample { cpu_centipercent: 1234, disk_read_bps: 1, disk_write_bps: 2, net_in_bps: 3, net_out_bps: 4 };
    let w = build_waves(&[(7, r)], &[(7, 4096), (8, 10)]);
    assert_eq!(w.len(), 4);
    assert_eq!((w[0].wave, w[0].batch.clone()), (1, vec![vec![7, 1234]]));
    assert_eq!((w[1].wave, w[1].batch.clone()), (2, vec![vec![7, 4096], vec![8, 10]]));
    assert_eq!((w[2].wave, w[2].batch.clone()), (3, vec![vec![7, 1, 2]]));
    assert_eq!((w[3].wave, w[3].batch.clone()), (4, vec![vec![7, 3, 4]]));
}
