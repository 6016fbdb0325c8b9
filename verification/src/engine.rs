//! Rule application: which (rule, process) pairs to apply, what to report
//! for each application, and the run's summary. The GUI's "Apply rules"
//! button and the service's poll both go through this plan, so the two
//! paths have identical effects for the same rule set; the application
//! itself (Win32) is performed by the caller.
use vstd::prelude::*;

use crate::matcher::{rule_matches, spec_rule_matches};
use crate::probalance::engine::opt_string_view;
use crate::procwin::{mask_to_hex, mask_to_hex_spec, ProcessEntry, ProcessPriorities};
use crate::rule::{rule_error_text, rule_masks, rule_masks_spec, spec_rule_valid, validate_rule, AffinityRule, MatchType};

verus! {

/// Result of applying a rule to one process (the GUI patches the row from
/// it).
#[derive(Debug)]
pub struct ProcessApplyInfo {
    pub pid: u32,
    /// Affinity mask after application, as hex: the system mask in soft
    /// mode (the hard mask was released), the rule's first mask in strict
    /// mode.
    pub mask_hex: Option<String>,
    /// Priorities read back when the rule manages any; None otherwise.
    pub priorities: Option<ProcessPriorities>,
}

/// Summary of one rule-application run.
#[derive(Debug)]
pub struct ApplyReport {
    /// Successful (process x rule) applications.
    pub applied: u32,
    /// Failed applications (one failure does not stop the run).
    pub failed: u32,
    /// Details of the successful applications, in order.
    pub changed: Vec<ProcessApplyInfo>,
}

impl ApplyReport {
    /// An empty report.
    pub fn new() -> (r: Self)
        ensures
            r.applied == 0,
            r.failed == 0,
            r.changed@.len() == 0,
    {
        ApplyReport { applied: 0, failed: 0, changed: Vec::new() }
    }

    /// Count the outcome of one application: a success is counted and
    /// its details kept, a failure is only counted. The counters stop at
    /// `u32::MAX` instead of wrapping.
    pub fn record(&mut self, outcome: Result<ProcessApplyInfo, String>)
        ensures
            match outcome {
                Ok(info) => final(self).applied == sat_inc_u32(old(self).applied) && final(self).failed == old(self).failed
                    && final(self).changed@ == old(self).changed@.push(info),
                Err(_) => final(self).applied == old(self).applied && final(self).failed == sat_inc_u32(old(self).failed)
                    && final(self).changed@ == old(self).changed@,
            },
    {
        match outcome {
            Ok(info) => {
                if self.applied < u32::MAX {
                    self.applied = self.applied + 1;
                }
                self.changed.push(info);
            },
            Err(_) => {
                if self.failed < u32::MAX {
                    self.failed = self.failed + 1;
                }
            },
        }
    }
}

/// `x + 1`, staying at `u32::MAX`.
pub open spec fn sat_inc_u32(x: u32) -> u32 {
    if x == u32::MAX { x } else { (x + 1) as u32 }
}

impl Default for ApplyReport {
    fn default() -> (r: Self)
        ensures
            r.applied == 0,
            r.failed == 0,
            r.changed@.len() == 0,
    {
        ApplyReport::new()
    }
}

/// One application the caller performs: rule `rule_index` (with its
/// masks) on process `pid`.
#[derive(Debug)]
pub struct PlannedApply {
    pub rule_index: usize,
    pub pid: u32,
    pub masks: Vec<u64>,
}

/// The process is matched by the rule (by name, or by full path).
pub open spec fn process_matches(r: AffinityRule, p: ProcessEntry) -> bool {
    spec_rule_matches(r, p.name@, opt_string_view(p.path))
}

/// (rule index, pid) for each process the rule matches, in process order.
pub open spec fn planned_for_rule(i: int, r: AffinityRule, ps: Seq<ProcessEntry>) -> Seq<(int, u32)>
    decreases ps.len(),
{
    if ps.len() == 0 {
        Seq::empty()
    } else {
        let rest = planned_for_rule(i, r, ps.drop_last());
        if process_matches(r, ps.last()) {
            rest.push((i, ps.last().pid))
        } else {
            rest
        }
    }
}

/// Every enabled rule on every process it matches, rule by rule.
pub open spec fn apply_plan_spec(rules: Seq<AffinityRule>, ps: Seq<ProcessEntry>) -> Seq<(int, u32)>
    decreases rules.len(),
{
    if rules.len() == 0 {
        Seq::empty()
    } else {
        let n = rules.len() - 1;
        let rest = apply_plan_spec(rules.drop_last(), ps);
        if rules[n].enabled {
            rest + planned_for_rule(n, rules[n], ps)
        } else {
            rest
        }
    }
}

/// Every enabled rule is valid.
pub open spec fn active_rules_valid(rules: Seq<AffinityRule>) -> bool {
    forall|i: int| 0 <= i < rules.len() && (#[trigger] rules[i]).enabled ==> spec_rule_valid(rules[i])
}

/// Index of the first enabled, invalid rule from `i` on (the number of
/// rules when there is none).
pub open spec fn first_invalid_active(rules: Seq<AffinityRule>, i: int) -> int
    decreases rules.len() - i,
{
    if i < 0 || i >= rules.len() {
        rules.len() as int
    } else if rules[i].enabled && !spec_rule_valid(rules[i]) {
        i
    } else {
        first_invalid_active(rules, i + 1)
    }
}

/// The error of a run whose rules are not all valid: that of the first
/// enabled, invalid rule.
pub open spec fn active_rules_error_text(rules: Seq<AffinityRule>) -> Seq<char> {
    rule_error_text(rules[first_invalid_active(rules, 0)])
}

proof fn lemma_first_invalid_active_skip(rules: Seq<AffinityRule>, j: int, g: int)
    requires
        0 <= j <= g <= rules.len(),
        forall|k: int| j <= k < g && (#[trigger] rules[k]).enabled ==> spec_rule_valid(rules[k]),
    ensures
        first_invalid_active(rules, j) == first_invalid_active(rules, g),
    decreases g - j,
{
    if j < g {
        lemma_first_invalid_active_skip(rules, j + 1, g);
    }
}

/// Some enabled rule matches by full path.
pub open spec fn spec_needs_paths(rules: Seq<AffinityRule>) -> bool {
    exists|i: int| 0 <= i < rules.len() && (#[trigger] rules[i]).enabled && rules[i].match_type == MatchType::Path
}

/// The (rule index, pid) pairs of a plan.
pub open spec fn plan_pairs(plan: Seq<PlannedApply>) -> Seq<(int, u32)> {
    plan.map_values(|a: PlannedApply| (a.rule_index as int, a.pid))
}

/// Whether process paths have to be resolved: only when an enabled rule
/// matches by path (so that no process is opened for nothing).
pub fn needs_paths(rules: &[AffinityRule]) -> (b: bool)
    ensures
        b == spec_needs_paths(rules@),
{
    let mut i: usize = 0;
    while i < rules.len()
        invariant
            i <= rules@.len(),
            forall|k: int| 0 <= k < i ==> !((#[trigger] rules@[k]).enabled && rules@[k].match_type == MatchType::Path),
        decreases rules.len() - i,
    {
        if rules[i].enabled && rules[i].match_type == MatchType::Path {
            return true;
        }
        i = i + 1;
    }
    false
}

/// Check every enabled rule; the error of the first invalid one.
pub fn validate_active_rules(rules: &[AffinityRule]) -> (r: Result<(), String>)
    ensures
        r is Ok <==> active_rules_valid(rules@),
        r matches Err(e) ==> e@ == active_rules_error_text(rules@),
{
    let mut i: usize = 0;
    while i < rules.len()
        invariant
            i <= rules@.len(),
            forall|k: int| 0 <= k < i && (#[trigger] rules@[k]).enabled ==> spec_rule_valid(rules@[k]),
        decreases rules.len() - i,
    {
        if rules[i].enabled {
            match validate_rule(&rules[i]) {
                Ok(()) => {},
                Err(e) => {
                    proof {
                        lemma_first_invalid_active_skip(rules@, 0, i as int);
                    }
                    return Err(e);
                },
            }
        }
        i = i + 1;
    }
    Ok(())
}

proof fn lemma_plan_pairs_push(plan: Seq<PlannedApply>, a: PlannedApply)
    ensures
        plan_pairs(plan.push(a)) == plan_pairs(plan).push((a.rule_index as int, a.pid)),
{
    assert(plan_pairs(plan.push(a)) =~= plan_pairs(plan).push((a.rule_index as int, a.pid)));
}

/// Plan a rule-application run over the given processes. An error when
/// an enabled rule is invalid (the GUI shows it; nothing is applied);
/// otherwise every enabled rule paired with every process it matches, in
/// rule order and then process order, each with the rule's masks.
pub fn plan_apply(rules: &[AffinityRule], processes: &[ProcessEntry]) -> (r: Result<Vec<PlannedApply>, String>)
    ensures
        r is Ok <==> active_rules_valid(rules@),
        r matches Err(e) ==> e@ == active_rules_error_text(rules@),
        r matches Ok(plan) ==> {
            &&& plan_pairs(plan@) == apply_plan_spec(rules@, processes@)
            &&& forall|k: int| 0 <= k < plan@.len() ==> (#[trigger] plan@[k]).rule_index < rules@.len()
                && rule_masks_spec(rules@[plan@[k].rule_index as int]) == Some(plan@[k].masks@)
        },
{
    match validate_active_rules(rules) {
        Ok(()) => {},
        Err(e) => return Err(e),
    }
    let mut plan: Vec<PlannedApply> = Vec::new();
    let mut i: usize = 0;
    while i < rules.len()
        invariant
            i <= rules@.len(),
            active_rules_valid(rules@),
            plan_pairs(plan@) == apply_plan_spec(rules@.subrange(0, i as int), processes@),
            forall|k: int| 0 <= k < plan@.len() ==> (#[trigger] plan@[k]).rule_index < rules@.len()
                && rule_masks_spec(rules@[plan@[k].rule_index as int]) == Some(plan@[k].masks@),
        decreases rules.len() - i,
    {
        let ghost before = plan_pairs(plan@);
        proof {
            let sub = rules@.subrange(0, i + 1);
            assert(sub.drop_last() =~= rules@.subrange(0, i as int));
            assert(sub[i as int] == rules@[i as int]);
        }
        if rules[i].enabled {
            let mut j: usize = 0;
            while j < processes.len()
                invariant
                    i < rules@.len(),
                    j <= processes@.len(),
                    rules@[i as int].enabled,
                    active_rules_valid(rules@),
                    plan_pairs(plan@) == before + planned_for_rule(i as int, rules@[i as int], processes@.subrange(0, j as int)),
                    forall|k: int| 0 <= k < plan@.len() ==> (#[trigger] plan@[k]).rule_index < rules@.len()
                        && rule_masks_spec(rules@[plan@[k].rule_index as int]) == Some(plan@[k].masks@),
                decreases processes.len() - j,
            {
                let p = &processes[j];
                let path = match &p.path {
                    Some(s) => Some(s.as_str()),
                    None => None,
                };
                let ghost pre = plan_pairs(plan@);
                proof {
                    let sub = processes@.subrange(0, j + 1);
                    assert(sub.drop_last() =~= processes@.subrange(0, j as int));
                    assert(sub.last() == *p);
                    assert(spec_rule_valid(rules@[i as int]));
                }
                if rule_matches(&rules[i], p.name.as_str(), path) {
                    match rule_masks(&rules[i]) {
                        Ok(masks) => {
                            let a = PlannedApply { rule_index: i, pid: p.pid, masks };
                            proof {
                                lemma_plan_pairs_push(plan@, a);
                            }
                            plan.push(a);
                            assert(before + planned_for_rule(i as int, rules@[i as int], processes@.subrange(0, j + 1))
                                =~= pre.push((i as int, p.pid)));
                        },
                        Err(_) => {
                            assert(false);
                        },
                    }
                }
                j = j + 1;
            }
            assert(processes@.subrange(0, j as int) =~= processes@);
        }
        i = i + 1;
    }
    assert(rules@.subrange(0, i as int) =~= rules@);
    Ok(plan)
}

/// The text is the prefixed hex form of `m`.
pub open spec fn hex_text_of(t: Option<String>, m: u64) -> bool {
    t matches Some(s) && s@ == mask_to_hex_spec(m)
}

/// The mask reported after an application: in soft mode the process mask
/// read back (the system mask once the hard mask is released), in strict
/// mode the rule's first mask (0 when it has none).
pub fn applied_mask_hex(soft_applied: bool, read_back: Option<u64>, masks: &[u64]) -> (r: Option<String>)
    ensures
        soft_applied ==> match read_back {
            Some(m) => hex_text_of(r, m),
            None => r is None,
        },
        !soft_applied ==> hex_text_of(r, if masks@.len() > 0 { masks@[0] } else { 0 }),
{
    if soft_applied {
        match read_back {
            Some(m) => Some(mask_to_hex(m)),
            None => None,
        }
    } else {
        let first: u64 = if masks.len() > 0 { masks[0] } else { 0 };
        Some(mask_to_hex(first))
    }
}

/// What one successful application reports: the mask after application,
/// and the priorities read back when the rule manages any.
pub fn apply_info(rule: &AffinityRule, pid: u32, soft_applied: bool, read_back: Option<u64>, masks: &[u64], priorities: ProcessPriorities) -> (info: ProcessApplyInfo)
    ensures
        info.pid == pid,
        soft_applied ==> match read_back {
            Some(m) => hex_text_of(info.mask_hex, m),
            None => info.mask_hex is None,
        },
        !soft_applied ==> hex_text_of(info.mask_hex, if masks@.len() > 0 { masks@[0] } else { 0 }),
        info.priorities == (if rule.spec_manages_priorities() { Some(priorities) } else { None }),
{
    let mask_hex = applied_mask_hex(soft_applied, read_back, masks);
    let priorities = if rule.manages_priorities() { Some(priorities) } else { None };
    ProcessApplyInfo { pid, mask_hex, priorities }
}

} // verus!
