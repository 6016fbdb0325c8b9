//! Process matcher: exact name / wildcard / full path.
use vstd::prelude::*;

use crate::rule::{AffinityRule, MatchType};
use crate::text::{chars_eq, chars_of, copy_chars, lowercase_of, take_chars, to_lowercase};

verus! {

// =========================================================================
// Glob semantics
// =========================================================================

/// Declarative glob semantics: pattern `p` from index `i` matches text `t`
/// from index `j`. `*` matches any run of characters, `?` exactly one,
/// every other character itself.
pub open spec fn glob_at(p: Seq<char>, t: Seq<char>, i: int, j: int) -> bool
    decreases p.len() - i + t.len() - j,
    when 0 <= i <= p.len() && 0 <= j <= t.len()
{
    if i == p.len() {
        j == t.len()
    } else if p[i] == '*' {
        glob_at(p, t, i + 1, j) || (j < t.len() && glob_at(p, t, i, j + 1))
    } else {
        j < t.len() && (p[i] == '?' || p[i] == t[j]) && glob_at(p, t, i + 1, j + 1)
    }
}

/// The whole of `p` matches the whole of `t`.
pub open spec fn glob_matches(p: Seq<char>, t: Seq<char>) -> bool {
    glob_at(p, t, 0, 0)
}

/// All characters of `p` from `i` on are `*`.
pub open spec fn only_stars_from(p: Seq<char>, i: int) -> bool {
    forall|k: int| i <= k < p.len() ==> p[k] == '*'
}

/// The run of the two-pointer backtracking matcher from state
/// `(pi, ti, star, mark)`: remember a `*` of the pattern (tried first, so
/// it is never compared with the text), advance on `?` or an equal
/// character, and on a mismatch let the latest `*` take one more
/// character. Once the text is used up, only `*` may be left in the
/// pattern.
pub open spec fn glob_run(p: Seq<char>, t: Seq<char>, pi: int, ti: int, star: Option<int>, mark: int) -> bool
    decreases t.len() - mark, t.len() - ti + p.len() - pi,
    when 0 <= mark <= ti <= t.len() && 0 <= pi <= p.len() && (star matches Some(s) ==> 0 <= s < p.len())
{
    if ti >= t.len() {
        only_stars_from(p, pi)
    } else if pi < p.len() && p[pi] == '*' {
        glob_run(p, t, pi + 1, ti, Some(pi), ti)
    } else if pi < p.len() && (p[pi] == '?' || p[pi] == t[ti]) {
        glob_run(p, t, pi + 1, ti + 1, star, mark)
    } else if let Some(s) = star {
        glob_run(p, t, s + 1, mark + 1, star, mark + 1)
    } else {
        false
    }
}

/// What the matcher returns for pattern `p` and text `t`.
pub open spec fn glob_result(p: Seq<char>, t: Seq<char>) -> bool {
    glob_run(p, t, 0, 0, None, 0)
}

pub open spec fn star_of(star: usize) -> Option<int> {
    if star == usize::MAX { None } else { Some(star as int) }
}

/// Two-pointer backtracking wildcard matcher over characters: whether the
/// whole pattern matches the whole text (`*` any run, `?` one character).
pub fn glob_match_chars(p: &[char], t: &[char]) -> (r: bool)
    ensures
        r == glob_matches(p@, t@),
{
    proof {
        lemma_glob_result_sound(p@, t@);
        lemma_glob_result_complete(p@, t@);
    }
    let mut pi: usize = 0;
    let mut ti: usize = 0;
    let mut star: usize = usize::MAX;
    let mut mark: usize = 0;
    while ti < t.len()
        invariant
            mark <= ti <= t@.len(),
            pi <= p@.len(),
            star == usize::MAX || star < p@.len(),
            glob_run(p@, t@, pi as int, ti as int, star_of(star), mark as int) == glob_result(p@, t@),
            glob_result(p@, t@) == glob_matches(p@, t@),
        decreases t.len() - mark, t.len() - ti + p.len() - pi,
    {
        if pi < p.len() && p[pi] == '*' {
            star = pi;
            mark = ti;
            pi = pi + 1;
        } else if pi < p.len() && (p[pi] == '?' || p[pi] == t[ti]) {
            pi = pi + 1;
            ti = ti + 1;
        } else if star != usize::MAX {
            pi = star + 1;
            mark = mark + 1;
            ti = mark;
        } else {
            return false;
        }
    }
    let ghost pi0 = pi as int;
    while pi < p.len() && p[pi] == '*'
        invariant
            pi0 <= pi <= p@.len(),
            forall|k: int| pi0 <= k < pi ==> p@[k] == '*',
            glob_run(p@, t@, pi0, ti as int, star_of(star), mark as int) == glob_result(p@, t@),
            glob_result(p@, t@) == glob_matches(p@, t@),
            ti >= t@.len(),
        decreases p.len() - pi,
    {
        pi = pi + 1;
    }
    pi == p.len()
}

} // verus!

verus! {

// =========================================================================
// Correctness of the backtracking matcher
// =========================================================================

/// Pattern characters `p[a..b]` match text characters `t[j..j + (b - a)]`
/// one for one (`?` or equality).
pub open spec fn literal_segment(p: Seq<char>, t: Seq<char>, a: int, b: int, j: int) -> bool {
    &&& 0 <= a <= b <= p.len()
    &&& 0 <= j && j + (b - a) <= t.len()
    &&& forall|m: int| 0 <= m < b - a ==> (#[trigger] p[a + m] == '?' || p[a + m] == t[j + m])
}

/// No `*` among `p[a..b]`.
pub open spec fn star_free_range(p: Seq<char>, a: int, b: int) -> bool {
    forall|m: int| a <= m < b ==> #[trigger] p[m] != '*'
}

proof fn lemma_star_absorbs(p: Seq<char>, t: Seq<char>, i: int, j: int, j2: int)
    requires
        0 <= i < p.len(),
        p[i] == '*',
        0 <= j <= j2 <= t.len(),
        glob_at(p, t, i, j2),
    ensures
        glob_at(p, t, i, j),
    decreases j2 - j,
{
    if j < j2 {
        lemma_star_absorbs(p, t, i, j + 1, j2);
    }
}

proof fn lemma_literal_step(p: Seq<char>, t: Seq<char>, i: int, j: int)
    requires
        0 <= i < p.len(),
        0 <= j < t.len(),
        p[i] == '?' || p[i] == t[j],
        glob_at(p, t, i + 1, j + 1),
    ensures
        glob_at(p, t, i, j),
{
    if p[i] == '*' {
        assert(glob_at(p, t, i, j + 1));
    }
}

proof fn lemma_only_stars(p: Seq<char>, t: Seq<char>, i: int)
    requires
        0 <= i <= p.len(),
    ensures
        glob_at(p, t, i, t.len() as int) == only_stars_from(p, i),
    decreases p.len() - i,
{
    if i < p.len() {
        lemma_only_stars(p, t, i + 1);
    }
}

proof fn lemma_segment_back(p: Seq<char>, t: Seq<char>, a: int, b: int, j: int)
    requires
        literal_segment(p, t, a, b, j),
        glob_at(p, t, b, j + (b - a)),
    ensures
        glob_at(p, t, a, j),
    decreases b - a,
{
    if a < b {
        assert forall|m: int| 0 <= m < b - (a + 1) implies (#[trigger] p[(a + 1) + m] == '?'
            || p[(a + 1) + m] == t[(j + 1) + m]) by {
            assert(p[a + (m + 1)] == '?' || p[a + (m + 1)] == t[j + (m + 1)]);
        }
        lemma_segment_back(p, t, a + 1, b, j + 1);
        assert(p[a + 0] == '?' || p[a + 0] == t[j + 0]);
        lemma_literal_step(p, t, a, j);
    }
}

proof fn lemma_segment_forward(p: Seq<char>, t: Seq<char>, a: int, b: int, j: int)
    requires
        0 <= a <= b <= p.len(),
        0 <= j <= t.len(),
        star_free_range(p, a, b),
        glob_at(p, t, a, j),
    ensures
        j + (b - a) <= t.len(),
        glob_at(p, t, b, j + (b - a)),
        literal_segment(p, t, a, b, j),
    decreases b - a,
{
    if a < b {
        assert(p[a] != '*');
        lemma_segment_forward(p, t, a + 1, b, j + 1);
        assert forall|m: int| 0 <= m < b - a implies (#[trigger] p[a + m] == '?' || p[a + m] == t[j + m]) by {
            if m > 0 {
                assert(p[(a + 1) + (m - 1)] == '?' || p[(a + 1) + (m - 1)] == t[(j + 1) + (m - 1)]);
            }
        }
    }
}

proof fn lemma_star_split(p: Seq<char>, t: Seq<char>, i: int, j: int)
    requires
        0 <= i < p.len(),
        p[i] == '*',
        0 <= j <= t.len(),
        glob_at(p, t, i, j),
    ensures
        exists|k: int| j <= k <= t.len() && #[trigger] glob_at(p, t, i + 1, k),
    decreases t.len() - j,
{
    if !glob_at(p, t, i + 1, j) {
        lemma_star_split(p, t, i, j + 1);
    }
}

/// A segment without `*` that the text matches from `mark` leaves the
/// pattern position after it exactly `b - a` text characters further.
proof fn lemma_segment_equiv(p: Seq<char>, t: Seq<char>, a: int, b: int, mark: int)
    requires
        literal_segment(p, t, a, b, mark),
        star_free_range(p, a, b),
    ensures
        glob_at(p, t, a, mark) == glob_at(p, t, b, mark + (b - a)),
{
    if glob_at(p, t, a, mark) {
        lemma_segment_forward(p, t, a, b, mark);
    }
    if glob_at(p, t, b, mark + (b - a)) {
        lemma_segment_back(p, t, a, b, mark);
    }
}

/// From a `*` at `s` the text matches from `mark` iff, after a star-free
/// segment that the text matches, a later `*` at `b` matches from
/// `mark + (b - s - 1)`.
proof fn lemma_star_to_star(p: Seq<char>, t: Seq<char>, s: int, b: int, mark: int)
    requires
        0 <= s < b < p.len(),
        p[s] == '*',
        p[b] == '*',
        literal_segment(p, t, s + 1, b, mark),
        star_free_range(p, s + 1, b),
    ensures
        glob_at(p, t, s, mark) == glob_at(p, t, b, mark + (b - s - 1)),
{
    let ti = mark + (b - s - 1);
    if glob_at(p, t, b, ti) {
        lemma_segment_back(p, t, s + 1, b, mark);
    }
    if glob_at(p, t, s, mark) {
        lemma_star_split(p, t, s, mark);
        let k = choose|k: int| mark <= k <= t.len() && #[trigger] glob_at(p, t, s + 1, k);
        lemma_segment_forward(p, t, s + 1, b, k);
        lemma_star_absorbs(p, t, b, ti, k + (b - s - 1));
    }
}

pub open spec fn run_target(p: Seq<char>, t: Seq<char>, pi: int, ti: int, star: Option<int>, mark: int) -> bool {
    match star {
        None => glob_at(p, t, pi, ti),
        Some(s) => glob_at(p, t, s, mark),
    }
}

pub open spec fn run_state_ok(p: Seq<char>, t: Seq<char>, pi: int, ti: int, star: Option<int>, mark: int) -> bool {
    &&& 0 <= mark <= ti <= t.len()
    &&& 0 <= pi <= p.len()
    &&& star matches Some(s) ==> {
        &&& 0 <= s < pi
        &&& p[s] == '*'
        &&& pi - (s + 1) == ti - mark
        &&& literal_segment(p, t, s + 1, pi, mark)
    }
}

proof fn lemma_run_complete(p: Seq<char>, t: Seq<char>, pi: int, ti: int, star: Option<int>, mark: int)
    requires
        run_state_ok(p, t, pi, ti, star, mark),
        star matches Some(s) ==> star_free_range(p, s + 1, pi),
    ensures
        glob_run(p, t, pi, ti, star, mark) == run_target(p, t, pi, ti, star, mark),
    decreases t.len() - mark, t.len() - ti + p.len() - pi,
{
    if ti >= t.len() {
        lemma_only_stars(p, t, pi);
        if let Some(s) = star {
            lemma_segment_equiv(p, t, s + 1, pi, mark);
            if glob_at(p, t, s, mark) {
                lemma_star_split(p, t, s, mark);
                let k = choose|k: int| mark <= k <= t.len() && #[trigger] glob_at(p, t, s + 1, k);
                lemma_segment_forward(p, t, s + 1, pi, k);
            }
        }
    } else if pi < p.len() && p[pi] == '*' {
        lemma_run_complete(p, t, pi + 1, ti, Some(pi), ti);
        if let Some(s) = star {
            lemma_star_to_star(p, t, s, pi, mark);
        }
    } else if pi < p.len() && (p[pi] == '?' || p[pi] == t[ti]) {
        if let Some(s) = star {
            assert forall|m: int| 0 <= m < (pi + 1) - (s + 1) implies (#[trigger] p[(s + 1) + m] == '?'
                || p[(s + 1) + m] == t[mark + m]) by {
                if m < pi - (s + 1) {
                    assert(literal_segment(p, t, s + 1, pi, mark));
                }
            }
        }
        lemma_run_complete(p, t, pi + 1, ti + 1, star, mark);
    } else if let Some(s) = star {
        lemma_run_complete(p, t, s + 1, mark + 1, star, mark + 1);
        lemma_segment_equiv(p, t, s + 1, pi, mark);
        assert(!glob_at(p, t, pi, ti));
    } else {
        assert(!glob_at(p, t, pi, ti));
    }
}

proof fn lemma_run_sound(p: Seq<char>, t: Seq<char>, pi: int, ti: int, star: Option<int>, mark: int)
    requires
        run_state_ok(p, t, pi, ti, star, mark),
        run_target(p, t, pi, ti, star, mark) ==> glob_at(p, t, 0, 0),
    ensures
        glob_run(p, t, pi, ti, star, mark) ==> glob_at(p, t, 0, 0),
    decreases t.len() - mark, t.len() - ti + p.len() - pi,
{
    if ti >= t.len() {
        lemma_only_stars(p, t, pi);
        if let Some(s) = star {
            if glob_at(p, t, pi, ti) {
                lemma_segment_back(p, t, s + 1, pi, mark);
            }
        }
    } else if pi < p.len() && p[pi] == '*' {
        if let Some(s) = star {
            if glob_at(p, t, pi, ti) {
                lemma_segment_back(p, t, s + 1, pi, mark);
            }
        }
        lemma_run_sound(p, t, pi + 1, ti, Some(pi), ti);
    } else if pi < p.len() && (p[pi] == '?' || p[pi] == t[ti]) {
        if let Some(s) = star {
            assert forall|m: int| 0 <= m < (pi + 1) - (s + 1) implies (#[trigger] p[(s + 1) + m] == '?'
                || p[(s + 1) + m] == t[mark + m]) by {
                if m < pi - (s + 1) {
                    assert(literal_segment(p, t, s + 1, pi, mark));
                }
            }
        } else {
            if glob_at(p, t, pi + 1, ti + 1) {
                lemma_literal_step(p, t, pi, ti);
            }
        }
        lemma_run_sound(p, t, pi + 1, ti + 1, star, mark);
    } else if let Some(s) = star {
        lemma_run_sound(p, t, s + 1, mark + 1, star, mark + 1);
    }
}

/// Whatever the matcher accepts, the pattern matches.
pub proof fn lemma_glob_result_sound(p: Seq<char>, t: Seq<char>)
    ensures
        glob_result(p, t) ==> glob_matches(p, t),
{
    lemma_run_sound(p, t, 0, 0, None, 0);
}

/// The matcher accepts exactly the texts the pattern matches.
pub proof fn lemma_glob_result_complete(p: Seq<char>, t: Seq<char>)
    ensures
        glob_result(p, t) == glob_matches(p, t),
{
    lemma_run_complete(p, t, 0, 0, None, 0);
}

} // verus!

verus! {

// =========================================================================
// Name / wildcard / path matching
// =========================================================================

/// The `.exe` suffix.
pub open spec fn exe_suffix() -> Seq<char> {
    seq!['.', 'e', 'x', 'e']
}

/// `s` without one trailing `.exe`, if it has one.
pub open spec fn trim_exe_spec(s: Seq<char>) -> Seq<char> {
    if s.len() >= 4 && s.subrange(s.len() - 4, s.len() as int) == exe_suffix() {
        s.subrange(0, s.len() - 4)
    } else {
        s
    }
}

/// Exact (v1) name match: case-insensitive, `.exe` optional on either side.
pub open spec fn spec_name_matches(process_name: Seq<char>, rule_name: Seq<char>) -> bool {
    let p = lowercase_of(process_name);
    let r = lowercase_of(rule_name);
    p == r || p == r + exe_suffix() || trim_exe_spec(p) == r
}

/// Wildcard match of a process name (case-insensitive, `.exe` tolerated).
pub open spec fn spec_wildcard_matches(process_name: Seq<char>, pattern: Seq<char>) -> bool {
    let pt = lowercase_of(pattern);
    let n = lowercase_of(process_name);
    glob_matches(pt, n) || glob_matches(pt, trim_exe_spec(n))
}

pub open spec fn opt_view(s: Option<&str>) -> Option<Seq<char>> {
    match s {
        Some(x) => Some(x@),
        None => None,
    }
}

/// Whether `rule` matches a process, by the rule's matching mode.
pub open spec fn spec_rule_matches(rule: AffinityRule, process_name: Seq<char>, image_path: Option<Seq<char>>) -> bool {
    match rule.match_type {
        MatchType::Exact => spec_name_matches(process_name, rule.process_name@),
        MatchType::Wildcard => spec_wildcard_matches(process_name, rule.process_name@),
        MatchType::Path => match image_path {
            Some(path) => glob_matches(lowercase_of(rule.process_name@), lowercase_of(path)),
            None => false,
        },
    }
}

/// `name` without one trailing `.exe`.
pub fn trim_exe(name: &[char]) -> (r: Vec<char>)
    ensures
        r@ == trim_exe_spec(name@),
{
    let n = name.len();
    if n >= 4 && name[n - 4] == '.' && name[n - 3] == 'e' && name[n - 2] == 'x' && name[n - 1] == 'e' {
        assert(name@.subrange(n - 4, n as int) =~= exe_suffix());
        take_chars(name, n - 4)
    } else {
        assert(n >= 4 ==> name@.subrange(n - 4, n as int)[0] == name@[n - 4]);
        assert(n >= 4 ==> name@.subrange(n - 4, n as int)[1] == name@[n - 3]);
        assert(n >= 4 ==> name@.subrange(n - 4, n as int)[2] == name@[n - 2]);
        assert(n >= 4 ==> name@.subrange(n - 4, n as int)[3] == name@[n - 1]);
        copy_chars(name)
    }
}

/// Wildcard match (`*` any run of characters, `?` exactly one, anything
/// else itself, case-sensitive) on already-normalized strings.
pub fn glob_match(pattern: &str, text: &str) -> (r: bool)
    ensures
        r == glob_matches(pattern@, text@),
{
    let p = chars_of(pattern);
    let t = chars_of(text);
    glob_match_chars(&p, &t)
}

fn lowercase_chars(s: &str) -> (v: Vec<char>)
    ensures
        v@ == lowercase_of(s@),
{
    let l = to_lowercase(s);
    chars_of(l.as_str())
}

fn ends_with_exe_of(p: &[char], r: &[char]) -> (b: bool)
    ensures
        b == (p@ == r@ + exe_suffix()),
{
    let mut r2 = copy_chars(r);
    r2.push('.');
    r2.push('e');
    r2.push('x');
    r2.push('e');
    assert(r2@ =~= r@ + exe_suffix());
    chars_eq(p, &r2)
}

/// Exact match (v1 behavior): case-insensitive, tolerates the presence or
/// absence of the `.exe` suffix.
pub fn name_matches(process_name: &str, rule_name: &str) -> (b: bool)
    ensures
        b == spec_name_matches(process_name@, rule_name@),
{
    let p = lowercase_chars(process_name);
    let r = lowercase_chars(rule_name);
    if chars_eq(&p, &r) {
        return true;
    }
    if ends_with_exe_of(&p, &r) {
        return true;
    }
    let trimmed = trim_exe(&p);
    chars_eq(&trimmed, &r)
}

/// Wildcard matching (case-insensitive, `.exe` suffix tolerated), the
/// semantics of the rule's `Wildcard` mode and of the ProBalance user
/// allowlist: `precious*` matches `precious_app.exe`.
pub fn wildcard_matches(process_name: &str, pattern: &str) -> (b: bool)
    ensures
        b == spec_wildcard_matches(process_name@, pattern@),
{
    let pt = lowercase_chars(pattern);
    let n = lowercase_chars(process_name);
    if glob_match_chars(&pt, &n) {
        return true;
    }
    let trimmed = trim_exe(&n);
    glob_match_chars(&pt, &trimmed)
}

/// Decide whether a process is matched by a rule, using the rule's
/// matching mode. A `Path` rule never matches when the path is unknown.
pub fn rule_matches(rule: &AffinityRule, process_name: &str, image_path: Option<&str>) -> (b: bool)
    ensures
        b == spec_rule_matches(*rule, process_name@, opt_view(image_path)),
{
    match rule.match_type {
        MatchType::Exact => name_matches(process_name, rule.process_name.as_str()),
        MatchType::Wildcard => wildcard_matches(process_name, rule.process_name.as_str()),
        MatchType::Path => match image_path {
            Some(path) => {
                let pt = lowercase_chars(rule.process_name.as_str());
                let pa = lowercase_chars(path);
                glob_match_chars(&pt, &pa)
            },
            None => false,
        },
    }
}

} // verus!
