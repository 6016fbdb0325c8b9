//! Configuration model and its validation.
//!
//! CPU loads are hundredths of a percent of one logical core: `10_000`
//! is one full core, `80_000` eight full cores.
use vstd::prelude::*;

use crate::text::{decimal_text, push_decimal, push_text, string_from_chars};

verus! {

/// Configuration file schema version.
pub const PB_CONFIG_VERSION: u32 = 1;

/// ProBalance configuration.
#[derive(Debug)]
pub struct ProBalanceConfig {
    /// Master switch (off = engine idles; downgraded processes are
    /// restored immediately).
    pub enabled: bool,
    /// Foreground CPU trigger threshold (hundredths of a percent).
    pub fg_cpu_threshold: u64,
    /// Background CPU downgrade threshold (hundredths of a percent).
    pub bg_cpu_threshold: u64,
    /// Seconds the contention must persist before downgrading.
    pub sustain_secs: u32,
    /// Seconds after contention clears before restoring.
    pub restore_after_secs: u32,
    /// Maximum downgrade duration per process (seconds).
    pub max_downgrade_secs: u64,
    /// User allowlist (process names or wildcard patterns).
    pub whitelist: Vec<String>,
    /// Opt-in Game Mode (fullscreen foreground counts as contention).
    pub game_mode_enabled: bool,
}

/// Default foreground threshold: one full core.
pub fn default_fg_threshold() -> (v: u64)
    ensures
        v == 10_000,
{
    10_000
}

/// Default background threshold: 40% of one core.
pub fn default_bg_threshold() -> (v: u64)
    ensures
        v == 4_000,
{
    4_000
}

pub fn default_sustain() -> (v: u32)
    ensures
        v == 5,
{
    5
}

pub fn default_restore_after() -> (v: u32)
    ensures
        v == 15,
{
    15
}

pub fn default_max_downgrade() -> (v: u64)
    ensures
        v == 600,
{
    600
}

/// The configuration values are within their allowed ranges.
pub open spec fn spec_config_valid(c: ProBalanceConfig) -> bool {
    &&& 1_000 <= c.fg_cpu_threshold <= 1_000_000
    &&& 100 <= c.bg_cpu_threshold <= 1_000_000
    &&& 1 <= c.sustain_secs <= 600
    &&& 1 <= c.restore_after_secs <= 3600
    &&& 30 <= c.max_downgrade_secs <= 86400
}

/// The default configuration: disabled, 100% / 40% thresholds, 5 s
/// sustain, 15 s restore hysteresis, 600 s maximum downgrade, empty
/// allowlist, Game Mode off.
pub open spec fn is_default_config(c: ProBalanceConfig) -> bool {
    &&& !c.enabled
    &&& c.fg_cpu_threshold == 10_000
    &&& c.bg_cpu_threshold == 4_000
    &&& c.sustain_secs == 5
    &&& c.restore_after_secs == 15
    &&& c.max_downgrade_secs == 600
    &&& c.whitelist@.len() == 0
    &&& !c.game_mode_enabled
}

impl Default for ProBalanceConfig {
    fn default() -> (c: Self)
        ensures
            is_default_config(c),
    {
        ProBalanceConfig {
            enabled: false,
            fg_cpu_threshold: default_fg_threshold(),
            bg_cpu_threshold: default_bg_threshold(),
            sustain_secs: default_sustain(),
            restore_after_secs: default_restore_after(),
            max_downgrade_secs: default_max_downgrade(),
            whitelist: Vec::new(),
            game_mode_enabled: false,
        }
    }
}

/// A load in hundredths of a percent, written in percent: no point for a
/// whole number, otherwise one or two decimals without a trailing zero.
pub open spec fn percent_text(c: nat) -> Seq<char> {
    let f = c % 100;
    decimal_text(c / 100) + if f == 0 {
        Seq::empty()
    } else if f % 10 == 0 {
        seq!['.', (48 + f / 10) as char]
    } else {
        seq!['.', (48 + f / 10) as char, (48 + f % 10) as char]
    }
}

/// The error text of `validate` for an invalid configuration: the first
/// value out of range, with the value.
pub open spec fn config_error_text(c: ProBalanceConfig) -> Seq<char> {
    if !(1_000 <= c.fg_cpu_threshold <= 1_000_000) {
        "foreground trigger threshold must be between 10 and 10000"@ + ": "@ + percent_text(c.fg_cpu_threshold as nat)
    } else if !(100 <= c.bg_cpu_threshold <= 1_000_000) {
        "background downgrade threshold must be between 1 and 10000"@ + ": "@ + percent_text(c.bg_cpu_threshold as nat)
    } else if !(1 <= c.sustain_secs <= 600) {
        "trigger sustain seconds must be between 1 and 600"@ + ": "@ + decimal_text(c.sustain_secs as nat)
    } else if !(1 <= c.restore_after_secs <= 3600) {
        "restore-after seconds must be between 1 and 3600"@ + ": "@ + decimal_text(c.restore_after_secs as nat)
    } else {
        "max downgrade seconds must be between 30 and 86400"@ + ": "@ + decimal_text(c.max_downgrade_secs as nat)
    }
}

/// The error text for a configuration file of a newer schema version.
pub open spec fn config_version_text(version: u32) -> Seq<char> {
    "configuration file version "@ + decimal_text(version as nat) + " is newer than the supported version "@
        + decimal_text(PB_CONFIG_VERSION as nat) + ", please upgrade the app"@
}

impl ProBalanceConfig {
    /// Check that every value is within its allowed range.
    pub fn validate(&self) -> (r: Result<(), String>)
        ensures
            r is Ok <==> spec_config_valid(*self),
            r matches Err(e) ==> e@ == config_error_text(*self),
    {
        if !(1_000 <= self.fg_cpu_threshold && self.fg_cpu_threshold <= 1_000_000) {
            return Err(percent_range_message("foreground trigger threshold must be between 10 and 10000", self.fg_cpu_threshold));
        }
        if !(100 <= self.bg_cpu_threshold && self.bg_cpu_threshold <= 1_000_000) {
            return Err(percent_range_message("background downgrade threshold must be between 1 and 10000", self.bg_cpu_threshold));
        }
        if !(1 <= self.sustain_secs && self.sustain_secs <= 600) {
            return Err(range_message("trigger sustain seconds must be between 1 and 600", self.sustain_secs as u64));
        }
        if !(1 <= self.restore_after_secs && self.restore_after_secs <= 3600) {
            return Err(range_message("restore-after seconds must be between 1 and 3600", self.restore_after_secs as u64));
        }
        if !(30 <= self.max_downgrade_secs && self.max_downgrade_secs <= 86400) {
            return Err(range_message("max downgrade seconds must be between 30 and 86400", self.max_downgrade_secs));
        }
        Ok(())
    }
}

/// The configuration of a stored envelope: a newer schema version is
/// refused, and the values must validate.
pub fn config_from_envelope(version: u32, config: ProBalanceConfig) -> (r: Result<ProBalanceConfig, String>)
    ensures
        version > PB_CONFIG_VERSION ==> (r matches Err(e) && e@ == config_version_text(version)),
        version <= PB_CONFIG_VERSION ==> (r is Ok <==> spec_config_valid(config)),
        version <= PB_CONFIG_VERSION ==> (r matches Err(e) ==> e@ == config_error_text(config)),
        r is Ok ==> r == Ok::<ProBalanceConfig, String>(config),
{
    if version > PB_CONFIG_VERSION {
        return Err(config_version_message(version));
    }
    match config.validate() {
        Ok(()) => Ok(config),
        Err(e) => Err(e),
    }
}

fn range_message(what: &str, value: u64) -> (r: String)
    ensures
        r@ == what@ + ": "@ + decimal_text(value as nat),
{
    let mut out: Vec<char> = Vec::new();
    push_text(&mut out, what);
    push_text(&mut out, ": ");
    push_decimal(value as u128, &mut out);
    assert(out@ =~= what@ + ": "@ + decimal_text(value as nat));
    string_from_chars(out.as_slice())
}

fn percent_range_message(what: &str, centi: u64) -> (r: String)
    ensures
        r@ == what@ + ": "@ + percent_text(centi as nat),
{
    let mut out: Vec<char> = Vec::new();
    push_text(&mut out, what);
    push_text(&mut out, ": ");
    push_decimal((centi / 100) as u128, &mut out);
    let f = centi % 100;
    if f != 0 {
        out.push('.');
        out.push(((48 + f / 10) as u8) as char);
        if f % 10 != 0 {
            out.push(((48 + f % 10) as u8) as char);
        }
    }
    assert(out@ =~= what@ + ": "@ + percent_text(centi as nat));
    string_from_chars(out.as_slice())
}

fn config_version_message(version: u32) -> (r: String)
    ensures
        r@ == config_version_text(version),
{
    let mut out: Vec<char> = Vec::new();
    push_text(&mut out, "configuration file version ");
    push_decimal(version as u128, &mut out);
    push_text(&mut out, " is newer than the supported version ");
    push_decimal(PB_CONFIG_VERSION as u128, &mut out);
    push_text(&mut out, ", please upgrade the app");
    assert(out@ =~= config_version_text(version));
    string_from_chars(out.as_slice())
}

} // verus!
