use cpum_core::matcher::{glob_match, name_matches, rule_matches, wildcard_matches};
use cpum_core::rule::{AffinityRule, MatchType, RuleMode};

fn rule(match_type: MatchType, name: &str) -> AffinityRule {
    AffinityRule {
        id: "t".into(),
        process_name: name.into(),
        mask: "0xFF".into(),
        group_masks: None,
        enabled: true,
        created_at: 0,
        note: String::new(),
        match_type,
        mode: RuleMode::default(),
        priority_class: None,
        io_priority: None,
        memory_priority: None,
    }
}

#[test]
fn glob_exact_literal() {
    assert!(glob_match("chrome", "chrome"));
    assert!(!glob_match("chrome", "chromium"));
}

#[test]
fn glob_star_prefix() {
    assert!(glob_match("code*", "codex"));
    assert!(glob_match("code*", "codex.exe"));
    assert!(!glob_match("code*", "vscode"));
}

#[test]
fn glob_star_contains() {
    assert!(glob_match("*steam*", "steamclient64.exe"));
    assert!(glob_match("*steam*", "my_steam_helper"));
    assert!(!glob_match("*steam*", "epicgames"));
}

#[test]
fn glob_star_suffix_and_middle() {
    assert!(glob_match("*.exe", "game.exe"));
    assert!(!glob_match("*.exe", "game.dll"));
    assert!(glob_match("a*b*c", "a-x-x-b-y-y-c"));
    assert!(!glob_match("a*b*c", "a-x-x-c"));
}

#[test]
fn glob_question_mark() {
    assert!(glob_match("?", "a"));
    assert!(!glob_match("?", "ab"));
    assert!(glob_match("cod?", "code"));
    assert!(glob_match("c?de*", "codex.exe"));
}

#[test]
fn glob_lone_star_matches_everything() {
    assert!(glob_match("*", ""));
    assert!(glob_match("*", "anything.exe"));
}

#[test]
fn exact_match_exe_suffix_compatible() {
    assert!(name_matches("code.exe", "code"));
    assert!(name_matches("code", "code"));
    assert!(name_matches("CODE.EXE", "code"));
    assert!(name_matches("code.exe", "code.exe"));
    assert!(!name_matches("vscode.exe", "code"));
}

#[test]
fn wildcard_rule_acceptance() {
    let r = rule(MatchType::Wildcard, "code*");
    assert!(rule_matches(&r, "codex.exe", None));
    assert!(rule_matches(&r, "code.exe", None));
    assert!(!rule_matches(&r, "vscode.exe", None));
}

#[test]
fn wildcard_rule_matches_trimmed_name() {
    let r = rule(MatchType::Wildcard, "code");
    assert!(rule_matches(&r, "code.exe", None));
    assert!(rule_matches(&r, "code", None));
}

#[test]
fn path_rule_matches_full_image_path() {
    let r = rule(MatchType::Path, r"c:\games\*\game.exe");
    assert!(rule_matches(&r, "game.exe", Some(r"C:\Games\App1\Game.exe")));
    assert!(!rule_matches(&r, "game.exe", Some(r"C:\Tools\Game.exe")));
}

#[test]
fn path_rule_without_path_never_matches() {
    let r = rule(MatchType::Path, r"c:\x\y.exe");
    assert!(!rule_matches(&r, "y.exe", None));
}

// ---------- further cases ----------

#[test]
fn glob_empty_pattern_matches_only_empty_text() {
    assert!(glob_match("", ""));
    assert!(!glob_match("", "a"));
    assert!(glob_match("**", ""));
}

#[test]
fn glob_is_case_sensitive_but_rules_are_not() {
    assert!(!glob_match("Code*", "codex"));
    let r = rule(MatchType::Wildcard, "CODE*");
    assert!(rule_matches(&r, "Codex.EXE", None));
}

#[test]
fn exact_rule_uses_name_semantics() {
    let r = rule(MatchType::Exact, "Code");
    assert!(rule_matches(&r, "code.exe", None));
    assert!(!rule_matches(&r, "codex.exe", None));
    // A path never matters to a name rule.
    assert!(rule_matches(&r, "code.exe", Some(r"C:\elsewhere\other.exe")));
}

#[test]
fn wildcard_matches_plain_and_trimmed_names() {
    assert!(wildcard_matches("Game.exe", "game"));
    assert!(wildcard_matches("game.exe", "*.exe"));
    assert!(!wildcard_matches("game.exe", "gam"));
}

#[test]
fn glob_star_is_always_a_wildcard() {
    // A `*` in the text is an ordinary character: the pattern's `*` may
    // swallow it.
    assert!(glob_match("*b", "*ab"));
    assert!(glob_match("a*", "a*"));
    assert!(glob_match("*", ""));
    assert!(glob_match("a*b*c", "a-x-x-b-y-y-c"));
    assert!(!glob_match("a*b*c", "a-x-x-c"));
    assert!(!glob_match("*.exe", "game.dll"));
    assert!(!glob_match("?", "ab"));
}
