use cpum_core::monitor::{CpuSampler, ProcessTimes};
use cpum_core::probalance::config::{config_from_envelope, default_bg_threshold, default_fg_threshold, ProBalanceConfig};

fn times(pid: u32, cpu: u64) -> ProcessTimes {
    ProcessTimes { pid, name: format!("p{pid}.exe"), total_cpu_100ns: cpu, image_path: None }
}

#[test]
fn first_reading_is_a_baseline() {
    let mut s = CpuSampler::new();
    let r = s.record(1_000_000_000, vec![times(1, 500), times(2, 900)]);
    assert_eq!(r.iter().map(|x| x.cpu_percent).collect::<Vec<_>>(), vec![0, 0]);
    assert_eq!(r[1].name, "p2.exe");
}

#[test]
fn one_full_core_is_ten_thousand() {
    let mut s = CpuSampler::new();
    s.record(0, vec![times(1, 0), times(2, 0)]);
    // One second later: PID 1 used 1 s of CPU (10 000 000 units of 100 ns),
    // PID 2 half of that, PID 3 is new.
    let r = s.record(1_000_000_000, vec![times(1, 10_000_000), times(2, 5_000_000), times(3, 99)]);
    assert_eq!(r.iter().map(|x| x.cpu_percent).collect::<Vec<_>>(), vec![10_000, 5_000, 0]);
    // Eight cores busy for half a second.
    let r = s.record(1_500_000_000, vec![times(1, 10_000_000 + 40_000_000)]);
    assert_eq!(r[0].cpu_percent, 80_000);
}

#[test]
fn clock_standing_still_gives_zero() {
    let mut s = CpuSampler::new();
    s.record(5, vec![times(1, 0)]);
    let r = s.record(5, vec![times(1, 1_000)]);
    assert_eq!(r[0].cpu_percent, 0);
}

#[test]
fn config_defaults_and_validation() {
    let d = ProBalanceConfig::default();
    assert!(!d.enabled);
    assert_eq!(d.fg_cpu_threshold, default_fg_threshold());
    assert_eq!(d.bg_cpu_threshold, default_bg_threshold());
    assert!(d.validate().is_ok());
    let mut bad = ProBalanceConfig::default();
    bad.sustain_secs = 0;
    assert!(bad.validate().is_err());
    let mut bad = ProBalanceConfig::default();
    bad.max_downgrade_secs = 29;
    assert!(bad.validate().is_err());
    let mut bad = ProBalanceConfig::default();
    bad.fg_cpu_threshold = 999;
    assert!(bad.validate().is_err());
    assert!(config_from_envelope(1, ProBalanceConfig::default()).is_ok());
    assert!(config_from_envelope(2, ProBalanceConfig::default()).is_err());
}

#[test]
fn config_error_texts() {
    let mut c = ProBalanceConfig::default();
    c.fg_cpu_threshold = 550;
    assert_eq!(c.validate().unwrap_err(), "foreground trigger threshold must be between 10 and 10000: 5.5");
    c.fg_cpu_threshold = 1_000_100;
    assert_eq!(c.validate().unwrap_err(), "foreground trigger threshold must be between 10 and 10000: 10001");
    c = ProBalanceConfig::default();
    c.bg_cpu_threshold = 5;
    assert_eq!(c.validate().unwrap_err(), "background downgrade threshold must be between 1 and 10000: 0.05");
    c = ProBalanceConfig::default();
    c.sustain_secs = 0;
    assert_eq!(c.validate().unwrap_err(), "trigger sustain seconds must be between 1 and 600: 0");
    c = ProBalanceConfig::default();
    c.restore_after_secs = 4000;
    assert_eq!(c.validate().unwrap_err(), "restore-after seconds must be between 1 and 3600: 4000");
    c = ProBalanceConfig::default();
    c.max_downgrade_secs = 10;
    assert_eq!(c.validate().unwrap_err(), "max downgrade seconds must be between 30 and 86400: 10");
    assert_eq!(
        config_from_envelope(3, ProBalanceConfig::default()).unwrap_err(),
        "configuration file version 3 is newer than the supported version 1, please upgrade the app"
    );
}
