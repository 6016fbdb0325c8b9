//! Rule creation and the rule file envelope checks (the file I/O itself
//! is done by the application).
use vstd::prelude::*;

use crate::procwin::{parse_hex_mask, parse_mask_spec};
use crate::seqs::lemma_filter_prefix_step;
use crate::text::{decimal_text, push_decimal, push_text, str_eq, string_from_chars};
use crate::rule::{rule_error_text, spec_rule_valid, validate_rule, AffinityRule, MatchType, RuleMode, RulesFile, RULES_SCHEMA_VERSION};

verus! {

/// Input for a new rule (id and creation time are generated).
#[derive(Debug)]
pub struct RuleDraft {
    pub process_name: String,
    pub mask: String,
    pub note: String,
    pub match_type: MatchType,
    pub mode: RuleMode,
    pub priority_class: Option<u32>,
    pub io_priority: Option<u32>,
    pub memory_priority: Option<u32>,
}

/// The rule a draft becomes, given its id and creation time.
pub open spec fn rule_of_draft(draft: RuleDraft, id: String, created_at: u64) -> AffinityRule {
    AffinityRule {
        id: id,
        process_name: draft.process_name,
        mask: draft.mask,
        group_masks: None,
        enabled: true,
        created_at: created_at,
        note: draft.note,
        match_type: draft.match_type,
        mode: draft.mode,
        priority_class: draft.priority_class,
        io_priority: draft.io_priority,
        memory_priority: draft.memory_priority,
    }
}

/// `uuid::Uuid::new_v4().to_string()`: a random UUID in its hyphenated
/// 36-character form. Which UUID comes back is chance.
#[verifier::external_body]
fn new_rule_id() -> (id: String)
    ensures
        id@.len() == 36,
{
    uuid::Uuid::new_v4().to_string()
}

/// Build the enabled rule for a draft with the given id and creation time,
/// if it is valid.
pub fn rule_from_draft(draft: RuleDraft, id: String, created_at: u64) -> (r: Result<AffinityRule, String>)
    ensures
        spec_rule_valid(rule_of_draft(draft, id, created_at)) ==> r == Ok::<AffinityRule, String>(rule_of_draft(draft, id, created_at)),
        !spec_rule_valid(rule_of_draft(draft, id, created_at)) ==> (r matches Err(e)
            && e@ == rule_error_text(rule_of_draft(draft, id, created_at))),
{
    let rule = AffinityRule {
        id: id,
        process_name: draft.process_name,
        mask: draft.mask,
        group_masks: None,
        enabled: true,
        created_at: created_at,
        note: draft.note,
        match_type: draft.match_type,
        mode: draft.mode,
        priority_class: draft.priority_class,
        io_priority: draft.io_priority,
        memory_priority: draft.memory_priority,
    };
    match validate_rule(&rule) {
        Ok(()) => Ok(rule),
        Err(e) => Err(e),
    }
}

/// Build a full rule from a draft: a fresh UUID id, the current time as
/// creation time, enabled, validated.
pub fn build_rule(draft: RuleDraft) -> (r: Result<AffinityRule, String>)
    ensures
        match r {
            Ok(rule) => rule == rule_of_draft(draft, rule.id, rule.created_at) && rule.id@.len() == 36
                && spec_rule_valid(rule),
            Err(e) => forall|id: String, t: u64| !spec_rule_valid(#[trigger] rule_of_draft(draft, id, t))
                && e@ == rule_error_text(rule_of_draft(draft, id, t)),
        },
{
    let id = new_rule_id();
    let created_at = crate::probalance::runtime::unix_now();
    let ghost d = draft;
    let r = rule_from_draft(draft, id, created_at);
    proof {
        if r is Err {
            assert forall|id2: String, t2: u64| !spec_rule_valid(#[trigger] rule_of_draft(d, id2, t2))
                && r->Err_0@ == rule_error_text(rule_of_draft(d, id2, t2)) by {
                assert(rule_masks_same(rule_of_draft(d, id2, t2), rule_of_draft(d, id, created_at)));
                assert(rule_error_text(rule_of_draft(d, id2, t2)) == rule_error_text(rule_of_draft(d, id, created_at)));
            }
        }
    }
    r
}

/// Two rules with the same masks and priorities are valid together.
pub open spec fn rule_masks_same(a: AffinityRule, b: AffinityRule) -> bool {
    &&& a.mask == b.mask
    &&& a.group_masks == b.group_masks
    &&& a.priority_class == b.priority_class
    &&& a.io_priority == b.io_priority
    &&& a.memory_priority == b.memory_priority
}

/// Quick "mask parses and is non-zero" check (instant form validation).
pub fn mask_selects_anything(mask: &str) -> (b: bool)
    ensures
        b == (parse_mask_spec(mask@) matches Some(m) && m != 0),
{
    match parse_hex_mask(mask) {
        Ok(m) => m != 0,
        Err(_) => false,
    }
}

/// The rules of a v2 envelope; a version newer than the supported one is
/// refused so that no field is silently dropped.
pub fn rules_from_envelope(file: RulesFile) -> (r: Result<Vec<AffinityRule>, String>)
    ensures
        file.version <= RULES_SCHEMA_VERSION ==> r == Ok::<Vec<AffinityRule>, String>(file.rules),
        file.version > RULES_SCHEMA_VERSION ==> (r matches Err(e) && e@ == "rules file version "@
            + decimal_text(file.version as nat) + " is newer than the supported version "@
            + decimal_text(RULES_SCHEMA_VERSION as nat) + ", please upgrade the app"@),
{
    if file.version > RULES_SCHEMA_VERSION {
        return Err(future_version_message(file.version));
    }
    Ok(file.rules)
}

fn future_version_message(version: u32) -> (r: String)
    ensures
        r@ == "rules file version "@ + decimal_text(version as nat) + " is newer than the supported version "@
            + decimal_text(RULES_SCHEMA_VERSION as nat) + ", please upgrade the app"@,
{
    let mut out: Vec<char> = Vec::new();
    push_text(&mut out, "rules file version ");
    push_decimal(version as u128, &mut out);
    push_text(&mut out, " is newer than the supported version ");
    push_decimal(RULES_SCHEMA_VERSION as u128, &mut out);
    push_text(&mut out, ", please upgrade the app");
    assert(out@ =~= "rules file version "@ + decimal_text(version as nat) + " is newer than the supported version "@
        + decimal_text(RULES_SCHEMA_VERSION as nat) + ", please upgrade the app"@);
    string_from_chars(out.as_slice())
}


// =========================================================================
// Editing the rule list
// =========================================================================

/// Every rule is valid (checked before the list is saved).
pub open spec fn all_rules_valid(rules: Seq<AffinityRule>) -> bool {
    forall|i: int| 0 <= i < rules.len() ==> spec_rule_valid(#[trigger] rules[i])
}

/// Index of the first invalid rule from `i` on (the number of rules when
/// all are valid).
pub open spec fn first_invalid_rule(rules: Seq<AffinityRule>, i: int) -> int
    decreases rules.len() - i,
{
    if i < 0 || i >= rules.len() {
        rules.len() as int
    } else if !spec_rule_valid(rules[i]) {
        i
    } else {
        first_invalid_rule(rules, i + 1)
    }
}

proof fn lemma_first_invalid_skip(rules: Seq<AffinityRule>, j: int, g: int)
    requires
        0 <= j <= g <= rules.len(),
        forall|k: int| j <= k < g ==> spec_rule_valid(#[trigger] rules[k]),
    ensures
        first_invalid_rule(rules, j) == first_invalid_rule(rules, g),
    decreases g - j,
{
    if j < g {
        lemma_first_invalid_skip(rules, j + 1, g);
    }
}

/// Check every rule; the error of the first invalid one.
pub fn validate_all_rules(rules: &[AffinityRule]) -> (r: Result<(), String>)
    ensures
        r is Ok <==> all_rules_valid(rules@),
        r matches Err(e) ==> e@ == rule_error_text(rules@[first_invalid_rule(rules@, 0)]),
{
    let mut i: usize = 0;
    while i < rules.len()
        invariant
            i <= rules@.len(),
            forall|k: int| 0 <= k < i ==> spec_rule_valid(#[trigger] rules@[k]),
        decreases rules.len() - i,
    {
        match validate_rule(&rules[i]) {
            Ok(()) => {},
            Err(e) => {
                proof {
                    lemma_first_invalid_skip(rules@, 0, i as int);
                }
                return Err(e);
            },
        }
        i = i + 1;
    }
    Ok(())
}

/// A new rule with the per-group masks given by the editor, if any (they
/// replace the legacy mask and are validated again).
pub fn with_group_masks(rule: AffinityRule, group_masks: Option<Vec<String>>) -> (r: Result<AffinityRule, String>)
    ensures
        group_masks is None ==> r == Ok::<AffinityRule, String>(rule),
        group_masks is Some ==> {
            let updated = AffinityRule { group_masks: group_masks, ..rule };
            &&& spec_rule_valid(updated) ==> r == Ok::<AffinityRule, String>(updated)
            &&& !spec_rule_valid(updated) ==> (r matches Err(e) && e@ == rule_error_text(updated))
        },
{
    match group_masks {
        None => Ok(rule),
        Some(g) => {
            let mut updated = rule;
            updated.group_masks = Some(g);
            match validate_rule(&updated) {
                Ok(()) => Ok(updated),
                Err(e) => Err(e),
            }
        },
    }
}

/// Index of the first rule with the given id.
pub open spec fn first_with_id(rules: Seq<AffinityRule>, id: Seq<char>) -> Option<int> {
    if exists|i: int| 0 <= i < rules.len() && (#[trigger] rules[i]).id@ == id {
        Some(choose|i: int| 0 <= i < rules.len() && (#[trigger] rules[i]).id@ == id
            && forall|k: int| 0 <= k < i ==> (#[trigger] rules[k]).id@ != id)
    } else {
        None
    }
}

fn find_rule(rules: &Vec<AffinityRule>, id: &str) -> (r: Option<usize>)
    ensures
        match r {
            Some(i) => first_with_id(rules@, id@) == Some(i as int) && i < rules@.len() && rules@[i as int].id@ == id@
                && forall|k: int| 0 <= k < i ==> (#[trigger] rules@[k]).id@ != id@,
            None => first_with_id(rules@, id@) is None,
        },
{
    let mut i: usize = 0;
    while i < rules.len()
        invariant
            i <= rules@.len(),
            forall|k: int| 0 <= k < i ==> (#[trigger] rules@[k]).id@ != id@,
        decreases rules.len() - i,
    {
        if str_eq(rules[i].id.as_str(), id) {
            proof {
                assert(rules@[i as int].id@ == id@);
                let c = choose|c: int| 0 <= c < rules@.len() && (#[trigger] rules@[c]).id@ == id@
                    && forall|k: int| 0 <= k < c ==> (#[trigger] rules@[k]).id@ != id@;
                assert(c == i) by {
                    if c < i {
                        assert(rules@[c].id@ != id@);
                    } else if c > i {
                        assert(rules@[i as int].id@ != id@);
                    }
                }
            }
            return Some(i);
        }
        i = i + 1;
    }
    None
}

/// Replace the rule that has the same id (the first one) with `rule`,
/// after validating it. Errors leave the list unchanged: an invalid rule,
/// or no rule with that id. Afterwards the id finds the new rule.
pub fn replace_rule(rules: &mut Vec<AffinityRule>, rule: AffinityRule) -> (r: Result<(), String>)
    ensures
        r is Ok <==> spec_rule_valid(rule) && first_with_id(old(rules)@, rule.id@) is Some,
        r is Err ==> final(rules)@ == old(rules)@,
        !spec_rule_valid(rule) ==> (r matches Err(e) && e@ == rule_error_text(rule)),
        spec_rule_valid(rule) && first_with_id(old(rules)@, rule.id@) is None ==> (r matches Err(e)
            && e@ == "rule not found: "@ + rule.id@),
        r is Ok ==> {
            &&& final(rules)@ == old(rules)@.update(first_with_id(old(rules)@, rule.id@)->0, rule)
            &&& first_with_id(final(rules)@, rule.id@) == first_with_id(old(rules)@, rule.id@)
        },
{
    match validate_rule(&rule) {
        Ok(()) => {},
        Err(e) => return Err(e),
    }
    match find_rule(rules, rule.id.as_str()) {
        Some(i) => {
            let ghost before = rules@;
            let ghost id = rule.id@;
            rules.set(i, rule);
            proof {
                assert(forall|k: int| 0 <= k < i ==> (#[trigger] rules@[k]).id@ != id) by {
                    assert forall|k: int| 0 <= k < i implies (#[trigger] rules@[k]).id@ != id by {
                        assert(rules@[k] == before[k]);
                    }
                }
                let c = choose|c: int| 0 <= c < rules@.len() && (#[trigger] rules@[c]).id@ == id
                    && forall|k: int| 0 <= k < c ==> (#[trigger] rules@[k]).id@ != id;
                assert(rules@[i as int].id@ == id);
                assert(c == i) by {
                    if c < i {
                        assert(rules@[c].id@ != id);
                    } else if c > i {
                        assert(rules@[i as int].id@ != id);
                    }
                }
            }
            Ok(())
        },
        None => Err(rule_not_found_message(&rule.id)),
    }
}

fn rule_not_found_message(id: &String) -> (r: String)
    ensures
        r@ == "rule not found: "@ + id@,
{
    let mut out: Vec<char> = Vec::new();
    push_text(&mut out, "rule not found: ");
    push_text(&mut out, id.as_str());
    assert(out@ =~= "rule not found: "@ + id@);
    string_from_chars(out.as_slice())
}

pub open spec fn id_differs(id: Seq<char>) -> spec_fn(AffinityRule) -> bool {
    |r: AffinityRule| r.id@ != id
}

/// Delete every rule with the given id; the others keep their order.
pub fn remove_rules_with_id(rules: &mut Vec<AffinityRule>, id: &str)
    ensures
        final(rules)@ == old(rules)@.filter(id_differs(id@)),
        forall|i: int| 0 <= i < final(rules)@.len() ==> (#[trigger] final(rules)@[i]).id@ != id@,
{
    let mut kept: Vec<AffinityRule> = Vec::new();
    let mut all: Vec<AffinityRule> = Vec::new();
    std::mem::swap(&mut all, rules);
    let ghost whole = all@;
    let n = all.len();
    let mut i: usize = 0;
    assert(all@ =~= whole.subrange(0, n as int));
    proof {
        reveal(Seq::filter);
    }
    while i < n
        invariant
            n == whole.len(),
            i <= n,
            all@ == whole.subrange(i as int, n as int),
            kept@ == whole.subrange(0, i as int).filter(id_differs(id@)),
            whole == old(rules)@,
        decreases n - i,
    {
        let r = all.remove(0);
        assert(r == whole[i as int]);
        proof {
            lemma_filter_prefix_step(whole, id_differs(id@), i as int);
        }
        if !str_eq(r.id.as_str(), id) {
            kept.push(r);
        }
        i = i + 1;
        assert(all@ =~= whole.subrange(i as int, n as int));
    }
    assert(whole.subrange(0, n as int) =~= whole);
    *rules = kept;
    proof {
        let f = whole.filter(id_differs(id@));
        assert forall|i: int| 0 <= i < f.len() implies (#[trigger] f[i]).id@ != id@ by {
            whole.lemma_filter_pred(id_differs(id@), i);
        }
    }
}

/// Rules that manage priorities and are enabled: ProBalance never
/// downgrades the processes they match.
pub open spec fn protects(r: AffinityRule) -> bool {
    r.enabled && r.spec_manages_priorities()
}

pub open spec fn protects_pred() -> spec_fn(AffinityRule) -> bool {
    |r: AffinityRule| protects(r)
}

/// The protecting rules of a rule list, in order.
pub fn protecting_rules(rules: Vec<AffinityRule>) -> (p: Vec<AffinityRule>)
    ensures
        p@ == rules@.filter(protects_pred()),
{
    let mut all = rules;
    let ghost whole = all@;
    let n = all.len();
    let mut kept: Vec<AffinityRule> = Vec::new();
    let mut i: usize = 0;
    assert(all@ =~= whole.subrange(0, n as int));
    proof {
        reveal(Seq::filter);
    }
    while i < n
        invariant
            n == whole.len(),
            i <= n,
            all@ == whole.subrange(i as int, n as int),
            kept@ == whole.subrange(0, i as int).filter(protects_pred()),
        decreases n - i,
    {
        let r = all.remove(0);
        assert(r == whole[i as int]);
        proof {
            lemma_filter_prefix_step(whole, protects_pred(), i as int);
        }
        if r.enabled && r.manages_priorities() {
            kept.push(r);
        }
        i = i + 1;
        assert(all@ =~= whole.subrange(i as int, n as int));
    }
    assert(whole.subrange(0, n as int) =~= whole);
    kept
}

} // verus!
