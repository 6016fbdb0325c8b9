//! Rule data model (schema v2) and value validation.
use vstd::prelude::*;

verus! {

/// Current rule file schema version.
pub const RULES_SCHEMA_VERSION: u32 = 2;

/// Process matching mode.
#[derive(Clone, Copy, Debug, PartialEq, Eq, Structural)]
pub enum MatchType {
    /// Exact, case-insensitive process name; a `.exe` suffix is optional.
    Exact,
    /// Glob pattern (`*`, `?`) against the process name.
    Wildcard,
    /// Glob pattern against the full executable path.
    Path,
}

/// Affinity scheduling mode.
#[derive(Clone, Copy, Debug, PartialEq, Eq, Structural)]
pub enum RuleMode {
    /// Hard affinity mask.
    Strict,
    /// Default CPU Sets; the scheduler may drift the process under load.
    Soft,
}

impl MatchType {
    /// The default matching mode (`Exact`).
    pub fn default_match() -> (m: MatchType)
        ensures
            m == MatchType::Exact,
    {
        MatchType::Exact
    }
}

impl RuleMode {
    /// The default scheduling mode (`Strict`).
    pub fn default_mode() -> (m: RuleMode)
        ensures
            m == RuleMode::Strict,
    {
        RuleMode::Strict
    }
}

impl Default for MatchType {
    fn default() -> (m: MatchType)
        ensures
            m == MatchType::Exact,
    {
        MatchType::default_match()
    }
}

impl Default for RuleMode {
    fn default() -> (m: RuleMode)
        ensures
            m == RuleMode::Strict,
    {
        RuleMode::default_mode()
    }
}

/// Allowed CPU priority class raw values (Win32): Idle, Below Normal,
/// Normal, Above Normal, High, Realtime.
pub open spec fn spec_valid_priority_class(pc: u32) -> bool {
    pc == 0x40 || pc == 0x4000 || pc == 0x20 || pc == 0x8000 || pc == 0x80 || pc == 0x100
}

/// IO priority: 0 = Very Low, 1 = Low, 2 = Normal (High is reserved).
pub open spec fn spec_valid_io_priority(io: u32) -> bool {
    io <= 2
}

/// Memory priority: 1 = Very Low ... 5 = Normal.
pub open spec fn spec_valid_memory_priority(mp: u32) -> bool {
    1 <= mp <= 5
}

pub fn valid_priority_class(pc: u32) -> (b: bool)
    ensures
        b == spec_valid_priority_class(pc),
{
    pc == 0x40 || pc == 0x4000 || pc == 0x20 || pc == 0x8000 || pc == 0x80 || pc == 0x100
}

pub fn valid_io_priority(io: u32) -> (b: bool)
    ensures
        b == spec_valid_io_priority(io),
{
    io <= 2
}

pub fn valid_memory_priority(mp: u32) -> (b: bool)
    ensures
        b == spec_valid_memory_priority(mp),
{
    1 <= mp && mp <= 5
}

} // verus!

verus! {

/// Affinity rule (schema v2).
#[derive(Debug)]
pub struct AffinityRule {
    /// Rule ID (UUID).
    pub id: String,
    /// Process name / wildcard pattern / path pattern, interpreted by
    /// `match_type`.
    pub process_name: String,
    /// Legacy group-0 affinity mask as a hex string (e.g. "0xFF").
    pub mask: String,
    /// Per-processor-group masks; when absent, `mask` is used.
    pub group_masks: Option<Vec<String>>,
    pub enabled: bool,
    /// Creation time (Unix seconds).
    pub created_at: u64,
    pub note: String,
    pub match_type: MatchType,
    pub mode: RuleMode,
    /// CPU priority class managed by the rule (None = do not adjust).
    pub priority_class: Option<u32>,
    /// IO priority managed by the rule (None = do not adjust).
    pub io_priority: Option<u32>,
    /// Memory priority managed by the rule (None = do not adjust).
    pub memory_priority: Option<u32>,
}

/// Rule file envelope `{ "version": 2, "rules": [...] }`.
#[derive(Debug)]
pub struct RulesFile {
    pub version: u32,
    pub rules: Vec<AffinityRule>,
}

impl AffinityRule {
    pub open spec fn spec_manages_priorities(&self) -> bool {
        self.priority_class.is_some() || self.io_priority.is_some() || self.memory_priority.is_some()
    }

    /// Whether the rule manages any priority class. ProBalance never
    /// downgrades the processes such a rule matches.
    pub fn manages_priorities(&self) -> (b: bool)
        ensures
            b == self.spec_manages_priorities(),
    {
        self.priority_class.is_some() || self.io_priority.is_some() || self.memory_priority.is_some()
    }
}

} // verus!

verus! {

use crate::procwin::{mask_error_text, mask_list_error_text, mask_to_hex, mask_to_hex_spec, parse_hex_mask, parse_mask_list, parse_mask_spec, string_views, GroupMasks};
use crate::text::{decimal_text, push_decimal, push_text, string_from_chars};

/// The masks a rule selects: its per-group masks when present, otherwise
/// the single legacy mask; None when any of them does not parse.
pub open spec fn rule_masks_spec(rule: AffinityRule) -> Option<Seq<u64>> {
    match rule.group_masks {
        Some(list) => parse_mask_list(string_views(list@)),
        None => match parse_mask_spec(rule.mask@) {
            Some(m) => Some(seq![m]),
            None => None,
        },
    }
}

/// A rule is valid when its masks parse and select at least one logical
/// processor, and every priority it sets is a legal value.
pub open spec fn spec_rule_valid(rule: AffinityRule) -> bool {
    &&& rule_masks_spec(rule) matches Some(ms) && exists|i: int| 0 <= i < ms.len() && ms[i] != 0
    &&& rule.priority_class matches Some(pc) ==> spec_valid_priority_class(pc)
    &&& rule.io_priority matches Some(io) ==> spec_valid_io_priority(io)
    &&& rule.memory_priority matches Some(mp) ==> spec_valid_memory_priority(mp)
}

/// The error text of `rule_masks` for a rule whose masks do not parse.
pub open spec fn rule_masks_error_text(rule: AffinityRule) -> Seq<char> {
    match rule.group_masks {
        Some(list) => mask_list_error_text(string_views(list@)),
        None => "invalid mask for rule "@ + rule.process_name@ + ": "@ + mask_error_text(rule.mask@),
    }
}

pub open spec fn bad_priority_class(pc: Option<u32>) -> bool {
    pc matches Some(v) && !spec_valid_priority_class(v)
}

pub open spec fn bad_io_priority(io: Option<u32>) -> bool {
    io matches Some(v) && !spec_valid_io_priority(v)
}

/// The error text of `validate_rule` for an invalid rule: the first check
/// that fails, in the order masks, selection, CPU class, IO, memory.
pub open spec fn rule_error_text(rule: AffinityRule) -> Seq<char> {
    let name = rule.process_name@;
    match rule_masks_spec(rule) {
        None => rule_masks_error_text(rule),
        Some(ms) => if !(exists|i: int| 0 <= i < ms.len() && ms[i] != 0) {
            "rule "@ + name + " must select at least one logical processor"@
        } else if bad_priority_class(rule.priority_class) {
            "invalid CPU priority class for rule "@ + name + ": "@ + mask_to_hex_spec(rule.priority_class->0 as u64)
        } else if bad_io_priority(rule.io_priority) {
            "invalid IO priority for rule "@ + name + ": "@ + decimal_text(rule.io_priority->0 as nat)
                + " (allowed: 0=Very Low, 1=Low, 2=Normal)"@
        } else {
            "invalid memory priority for rule "@ + name + ": "@ + decimal_text(rule.memory_priority->0 as nat)
                + " (allowed 1-5)"@
        },
    }
}

/// The accepted CPU priority classes are exactly the six Win32 classes:
/// Idle 0x40, Below Normal 0x4000, Normal 0x20, Above Normal 0x8000,
/// High 0x80, Realtime 0x100. IO priorities are 0 to 2, memory priorities
/// 1 to 5.
pub proof fn lemma_accepted_priority_values(pc: u32, io: u32, mp: u32)
    ensures
        spec_valid_priority_class(pc) <==> seq![0x40u32, 0x4000u32, 0x20u32, 0x8000u32, 0x80u32, 0x100u32].contains(pc),
        spec_valid_io_priority(io) <==> seq![0u32, 1u32, 2u32].contains(io),
        spec_valid_memory_priority(mp) <==> seq![1u32, 2u32, 3u32, 4u32, 5u32].contains(mp),
{
    let c = seq![0x40u32, 0x4000u32, 0x20u32, 0x8000u32, 0x80u32, 0x100u32];
    let i = seq![0u32, 1u32, 2u32];
    let m = seq![1u32, 2u32, 3u32, 4u32, 5u32];
    assert(c[0] == 0x40 && c[1] == 0x4000 && c[2] == 0x20 && c[3] == 0x8000 && c[4] == 0x80 && c[5] == 0x100);
    assert(i[0] == 0 && i[1] == 1 && i[2] == 2);
    assert(m[0] == 1 && m[1] == 2 && m[2] == 3 && m[3] == 4 && m[4] == 5);
    if c.contains(pc) {
        let k = choose|k: int| 0 <= k < c.len() && c[k] == pc;
    }
    if i.contains(io) {
        let k = choose|k: int| 0 <= k < i.len() && i[k] == io;
    }
    if m.contains(mp) {
        let k = choose|k: int| 0 <= k < m.len() && m[k] == mp;
    }
    if pc == 0x40 { assert(c[0] == pc); } else if pc == 0x4000 { assert(c[1] == pc); } else if pc == 0x20 { assert(c[2] == pc); }
    else if pc == 0x8000 { assert(c[3] == pc); } else if pc == 0x80 { assert(c[4] == pc); } else if pc == 0x100 { assert(c[5] == pc); }
    if io == 0 { assert(i[0] == io); } else if io == 1 { assert(i[1] == io); } else if io == 2 { assert(i[2] == io); }
    if mp == 1 { assert(m[0] == mp); } else if mp == 2 { assert(m[1] == mp); } else if mp == 3 { assert(m[2] == mp); }
    else if mp == 4 { assert(m[3] == mp); } else if mp == 5 { assert(m[4] == mp); }
}

/// A rule that sets one of the six Win32 CPU priority classes (Idle,
/// Below Normal, Normal, Above Normal, High, Realtime) is exactly as valid
/// as the same rule without a class.
pub proof fn lemma_standard_class_accepted(rule: AffinityRule, pc: u32)
    requires
        pc == 0x40 || pc == 0x4000 || pc == 0x20 || pc == 0x8000 || pc == 0x80 || pc == 0x100,
    ensures
        spec_rule_valid(AffinityRule { priority_class: Some(pc), ..rule })
            == spec_rule_valid(AffinityRule { priority_class: None, ..rule }),
{
    let a = AffinityRule { priority_class: Some(pc), ..rule };
    let b = AffinityRule { priority_class: None, ..rule };
    assert(rule_masks_spec(a) == rule_masks_spec(b));
}

/// The masks of a rule (per-group masks, or the legacy mask as group 0).
pub fn rule_masks(rule: &AffinityRule) -> (r: Result<Vec<u64>, String>)
    ensures
        match rule_masks_spec(*rule) {
            Some(ms) => r is Ok && r->Ok_0@ == ms,
            None => r matches Err(e) && e@ == rule_masks_error_text(*rule),
        },
{
    match &rule.group_masks {
        Some(values) => {
            let g = GroupMasks::from_hex_list(values.as_slice())?;
            Ok(g.0)
        },
        None => {
            match parse_hex_mask(rule.mask.as_str()) {
                Ok(m) => {
                    let mut v: Vec<u64> = Vec::new();
                    v.push(m);
                    assert(v@ =~= seq![m]);
                    Ok(v)
                },
                Err(e) => Err(rule_mask_message(&rule.process_name, e)),
            }
        },
    }
}

/// Validate a rule's fields: masks parse and are not all zero, priority
/// values are legal.
pub fn validate_rule(rule: &AffinityRule) -> (r: Result<(), String>)
    ensures
        r is Ok <==> spec_rule_valid(*rule),
        r matches Err(e) ==> e@ == rule_error_text(*rule),
{
    let masks = match rule_masks(rule) {
        Ok(m) => m,
        Err(e) => return Err(e),
    };
    let mut i: usize = 0;
    let mut any = false;
    while i < masks.len()
        invariant
            i <= masks@.len(),
            any <==> exists|k: int| 0 <= k < i && masks@[k] != 0,
        decreases masks.len() - i,
    {
        if masks[i] != 0 {
            any = true;
        }
        i = i + 1;
    }
    if !any {
        return Err(no_processor_message(&rule.process_name));
    }
    if let Some(pc) = rule.priority_class {
        if !valid_priority_class(pc) {
            return Err(priority_class_message(&rule.process_name, pc));
        }
    }
    if let Some(io) = rule.io_priority {
        if !valid_io_priority(io) {
            return Err(io_priority_message(&rule.process_name, io));
        }
    }
    if let Some(mp) = rule.memory_priority {
        if !valid_memory_priority(mp) {
            return Err(memory_priority_message(&rule.process_name, mp));
        }
    }
    Ok(())
}

fn rule_mask_message(name: &String, e: String) -> (r: String)
    ensures
        r@ == "invalid mask for rule "@ + name@ + ": "@ + e@,
{
    let mut out: Vec<char> = Vec::new();
    push_text(&mut out, "invalid mask for rule ");
    push_text(&mut out, name.as_str());
    push_text(&mut out, ": ");
    push_text(&mut out, e.as_str());
    assert(out@ =~= "invalid mask for rule "@ + name@ + ": "@ + e@);
    string_from_chars(out.as_slice())
}

fn no_processor_message(name: &String) -> (r: String)
    ensures
        r@ == "rule "@ + name@ + " must select at least one logical processor"@,
{
    let mut out: Vec<char> = Vec::new();
    push_text(&mut out, "rule ");
    push_text(&mut out, name.as_str());
    push_text(&mut out, " must select at least one logical processor");
    assert(out@ =~= "rule "@ + name@ + " must select at least one logical processor"@);
    string_from_chars(out.as_slice())
}

fn priority_class_message(name: &String, pc: u32) -> (r: String)
    ensures
        r@ == "invalid CPU priority class for rule "@ + name@ + ": "@ + mask_to_hex_spec(pc as u64),
{
    let hex = mask_to_hex(pc as u64);
    let mut out: Vec<char> = Vec::new();
    push_text(&mut out, "invalid CPU priority class for rule ");
    push_text(&mut out, name.as_str());
    push_text(&mut out, ": ");
    push_text(&mut out, hex.as_str());
    assert(out@ =~= "invalid CPU priority class for rule "@ + name@ + ": "@ + mask_to_hex_spec(pc as u64));
    string_from_chars(out.as_slice())
}

fn io_priority_message(name: &String, io: u32) -> (r: String)
    ensures
        r@ == "invalid IO priority for rule "@ + name@ + ": "@ + decimal_text(io as nat) + " (allowed: 0=Very Low, 1=Low, 2=Normal)"@,
{
    let mut out: Vec<char> = Vec::new();
    push_text(&mut out, "invalid IO priority for rule ");
    push_text(&mut out, name.as_str());
    push_text(&mut out, ": ");
    push_decimal(io as u128, &mut out);
    push_text(&mut out, " (allowed: 0=Very Low, 1=Low, 2=Normal)");
    assert(out@ =~= "invalid IO priority for rule "@ + name@ + ": "@ + decimal_text(io as nat) + " (allowed: 0=Very Low, 1=Low, 2=Normal)"@);
    string_from_chars(out.as_slice())
}

fn memory_priority_message(name: &String, mp: u32) -> (r: String)
    ensures
        r@ == "invalid memory priority for rule "@ + name@ + ": "@ + decimal_text(mp as nat) + " (allowed 1-5)"@,
{
    let mut out: Vec<char> = Vec::new();
    push_text(&mut out, "invalid memory priority for rule ");
    push_text(&mut out, name.as_str());
    push_text(&mut out, ": ");
    push_decimal(mp as u128, &mut out);
    push_text(&mut out, " (allowed 1-5)");
    assert(out@ =~= "invalid memory priority for rule "@ + name@ + ": "@ + decimal_text(mp as nat) + " (allowed 1-5)"@);
    string_from_chars(out.as_slice())
}

} // verus!
