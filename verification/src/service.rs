//! Decisions of the Windows service binary: its main-loop cadence, its
//! startup argument, and the arguments of the one-shot elevated helper
//! commands (`--set-affinity`, `--set-priority`) that the GUI launches
//! when it cannot change a process itself and the service is not
//! installed.
use vstd::prelude::*;

use crate::procwin::{mask_list_error_text, parse_mask_list, priority_writes, priority_writes_spec, string_views, trim_text, trim_ws, GroupMasks, PriorityKind};
use crate::rule::RuleMode;
use crate::text::{chars_of, split_chars, split_on, str_eq, string_from_chars};

verus! {

/// Name of the Windows service.
pub open spec fn service_name() -> Seq<char> {
    "CpumAffinityService"@
}

/// Main loop tick interval in seconds (the ProBalance granularity).
pub const TICK_INTERVAL_SECS: u64 = 1;
/// Rules are applied every this many ticks (every five seconds).
pub const RULE_APPLY_TICKS: u64 = 5;

/// Whether rules are (re)loaded and applied on this tick.
pub fn rules_due(tick_count: u64) -> (b: bool)
    ensures
        b == (tick_count % RULE_APPLY_TICKS == 0),
{
    tick_count % RULE_APPLY_TICKS == 0
}

/// The legacy machine-level rules directory, used when the service is
/// started without one.
pub open spec fn legacy_rules_dir() -> Seq<char> {
    "C:\\ProgramData\\cpum"@
}

/// The rules directory of the service: its first argument after the
/// service name, else the legacy directory.
pub fn rules_dir_argument(arguments: &Vec<String>) -> (d: String)
    ensures
        arguments@.len() >= 2 ==> d@ == arguments@[1]@,
        arguments@.len() < 2 ==> d@ == legacy_rules_dir(),
{
    if arguments.len() >= 2 {
        arguments[1].clone()
    } else {
        proof {
            reveal_strlit("C:\\ProgramData\\cpum");
        }
        String::from_str("C:\\ProgramData\\cpum")
    }
}

// =========================================================================
// Decimal numbers
// =========================================================================

pub open spec fn is_decimal_digit(c: char) -> bool {
    '0' <= c && c <= '9'
}

/// Value of a run of decimal digits.
pub open spec fn decimal_value(d: Seq<char>) -> nat
    decreases d.len(),
{
    if d.len() == 0 {
        0
    } else {
        decimal_value(d.drop_last()) * 10 + ((d.last() as int) - ('0' as int)) as nat
    }
}

/// The digits `u32::from_str` reads: one leading `+` is allowed.
pub open spec fn unsigned_digits(s: Seq<char>) -> Seq<char> {
    if s.len() > 0 && s[0] == '+' { s.drop_first() } else { s }
}

/// `u32::from_str`: at least one digit (after an optional `+`), nothing
/// but digits, and a value that fits.
pub open spec fn parse_u32_spec(s: Seq<char>) -> Option<u32> {
    let d = unsigned_digits(s);
    if d.len() > 0 && (forall|i: int| 0 <= i < d.len() ==> is_decimal_digit(#[trigger] d[i])) && decimal_value(d) <= u32::MAX {
        Some(decimal_value(d) as u32)
    } else {
        None
    }
}

proof fn lemma_decimal_value_prefix(d: Seq<char>, i: int)
    requires
        0 <= i < d.len(),
    ensures
        decimal_value(d.subrange(0, i + 1)) == decimal_value(d.subrange(0, i)) * 10 + ((d[i] as int) - ('0' as int)) as nat,
{
    assert(d.subrange(0, i + 1).drop_last() =~= d.subrange(0, i));
}

proof fn lemma_decimal_value_grows(d: Seq<char>, i: int, j: int)
    requires
        0 <= i <= j <= d.len(),
        forall|k: int| 0 <= k < d.len() ==> is_decimal_digit(#[trigger] d[k]),
    ensures
        decimal_value(d.subrange(0, i)) <= decimal_value(d.subrange(0, j)),
    decreases j - i,
{
    if i < j {
        lemma_decimal_value_grows(d, i, j - 1);
        lemma_decimal_value_prefix(d, j - 1);
    }
}

/// Parse a decimal `u32` the way `str::parse::<u32>` does.
pub fn parse_u32(s: &str) -> (r: Option<u32>)
    ensures
        r == parse_u32_spec(s@),
{
    let v = chars_of(s);
    let start: usize = if v.len() > 0 && v[0] == '+' { 1 } else { 0 };
    let ghost d = unsigned_digits(s@);
    proof {
        assert(d =~= v@.subrange(start as int, v@.len() as int));
    }
    if start >= v.len() {
        return None;
    }
    let mut value: u64 = 0;
    let mut i: usize = start;
    while i < v.len()
        invariant
            start <= i <= v@.len(),
            v@ == s@,
            d == v@.subrange(start as int, v@.len() as int),
            d == unsigned_digits(s@),
            forall|k: int| 0 <= k < i - start ==> is_decimal_digit(#[trigger] d[k]),
            value == decimal_value(d.subrange(0, i - start)),
            value <= u32::MAX,
        decreases v.len() - i,
    {
        let c = v[i];
        assert(d[i - start] == c);
        if !('0' <= c && c <= '9') {
            assert(!is_decimal_digit(d[i - start]));
            assert(!(forall|k: int| 0 <= k < d.len() ==> is_decimal_digit(#[trigger] d[k])));
            return None;
        }
        let digit = (c as u64) - ('0' as u64);
        proof {
            lemma_decimal_value_prefix(d, i - start);
        }
        let next = value * 10 + digit;
        assert(next == decimal_value(d.subrange(0, i + 1 - start)));
        if next > 0xFFFF_FFFF {
            proof {
                if forall|k: int| 0 <= k < d.len() ==> is_decimal_digit(#[trigger] d[k]) {
                    lemma_decimal_value_grows(d, i + 1 - start, d.len() as int);
                    assert(d.subrange(0, d.len() as int) =~= d);
                    assert(decimal_value(d) > u32::MAX);
                }
            }
            return None;
        }
        value = next;
        i = i + 1;
    }
    proof {
        assert(d.subrange(0, d.len() as int) =~= d);
    }
    Some(value as u32)
}

// =========================================================================
// Comma-separated lists
// =========================================================================

/// `str::split(',')`.
pub open spec fn split_commas(s: Seq<char>) -> Seq<Seq<char>> {
    split_on(s, ',')
}

/// The comma-separated parts of a text, each trimmed.
pub fn split_trimmed_commas(s: &str) -> (parts: Vec<String>)
    ensures
        parts@.len() == split_commas(s@).len(),
        forall|k: int| 0 <= k < parts@.len() ==> (#[trigger] parts@[k])@ == trim_ws(split_commas(s@)[k]),
{
    let pieces = split_chars(s, ',');
    let mut parts: Vec<String> = Vec::new();
    let mut k: usize = 0;
    while k < pieces.len()
        invariant
            k <= pieces@.len(),
            pieces@.len() == split_commas(s@).len(),
            forall|m: int| 0 <= m < pieces@.len() ==> (#[trigger] pieces@[m])@ == split_commas(s@)[m],
            parts@.len() == k,
            forall|m: int| 0 <= m < k ==> (#[trigger] parts@[m])@ == trim_ws(split_commas(s@)[m]),
        decreases pieces.len() - k,
    {
        let text = string_from_chars(pieces[k].as_slice());
        parts.push(trim_text(text.as_str()));
        k = k + 1;
    }
    parts
}

// =========================================================================
// One-shot helper commands
// =========================================================================

/// The usage line of `--set-affinity`.
pub open spec fn set_affinity_usage() -> Seq<char> {
    "usage: --set-affinity <pid> <mask-csv> <strict|soft>"@
}

/// The usage line of `--set-priority`.
pub open spec fn set_priority_usage() -> Seq<char> {
    "usage: --set-priority <pid> <class|-> <io|-> <mem|->"@
}

fn arg_text(args: &Vec<String>, i: usize) -> (r: Option<&String>)
    ensures
        i < args@.len() ==> r == Some(&args@[i as int]),
        i >= args@.len() ==> r is None,
{
    if i < args.len() { Some(&args[i]) } else { None }
}

/// The mode argument: `soft`, anything else (or nothing) is strict.
pub fn mode_argument(arg: Option<&String>) -> (m: RuleMode)
    ensures
        m == (if arg matches Some(a) && a@ == "soft"@ { RuleMode::Soft } else { RuleMode::Strict }),
{
    match arg {
        Some(a) => {
            if str_eq(a.as_str(), "soft") {
                RuleMode::Soft
            } else {
                RuleMode::Strict
            }
        },
        None => RuleMode::Strict,
    }
}

/// `--set-affinity <pid> <mask-csv> <strict|soft>` (the arguments start
/// with the program and the command): the PID, the per-group masks (the
/// comma-separated parts, trimmed; none when the argument is missing) and
/// the mode. Errors: a PID that does not parse (the usage line), masks
/// that do not parse.
pub fn parse_set_affinity_args(args: &Vec<String>) -> (r: Result<(u32, Vec<u64>, RuleMode), String>)
    ensures
        (args@.len() <= 2 || parse_u32_spec(args@[2]@) is None) ==> (r matches Err(e) && e@ == set_affinity_usage()),
        args@.len() > 2 && parse_u32_spec(args@[2]@) is Some ==> {
            let texts = if args@.len() > 3 { split_commas(args@[3]@).map_values(|p: Seq<char>| trim_ws(p)) } else { Seq::empty() };
            match parse_mask_list(texts) {
                Some(ms) => r matches Ok((pid, masks, mode)) && pid == parse_u32_spec(args@[2]@)->0 && masks@ == ms
                    && mode == (if args@.len() > 4 && args@[4]@ == "soft"@ { RuleMode::Soft } else { RuleMode::Strict }),
                None => r matches Err(e) && e@ == mask_list_error_text(texts),
            }
        },
{
    proof {
        reveal_strlit("usage: --set-affinity <pid> <mask-csv> <strict|soft>");
    }
    let pid = match arg_text(args, 2) {
        Some(a) => match parse_u32(a.as_str()) {
            Some(p) => p,
            None => return Err(String::from_str("usage: --set-affinity <pid> <mask-csv> <strict|soft>")),
        },
        None => return Err(String::from_str("usage: --set-affinity <pid> <mask-csv> <strict|soft>")),
    };
    let masks: Vec<String> = match arg_text(args, 3) {
        Some(a) => split_trimmed_commas(a.as_str()),
        None => Vec::new(),
    };
    proof {
        let texts = if args@.len() > 3 { split_commas(args@[3]@).map_values(|p: Seq<char>| trim_ws(p)) } else { Seq::<Seq<char>>::empty() };
        assert(string_views(masks@) =~= texts);
    }
    let mode = mode_argument(arg_text(args, 4));
    match GroupMasks::from_hex_list(masks.as_slice()) {
        Ok(parsed) => Ok((pid, parsed.0, mode)),
        Err(e) => Err(e),
    }
}

/// One priority argument: a trimmed decimal value, or nothing (`-` or
/// anything else that is not a number).
pub fn priority_argument(arg: Option<&String>) -> (v: Option<u32>)
    ensures
        v == (match arg {
            Some(a) => parse_u32_spec(trim_ws(a@)),
            None => None,
        }),
{
    match arg {
        Some(a) => {
            let t = trim_text(a.as_str());
            parse_u32(t.as_str())
        },
        None => None,
    }
}

/// `--set-priority <pid> <class|-> <io|-> <mem|->`: the PID and the
/// priority writes to make (the values that parse). Error: a PID that
/// does not parse (the usage line).
pub fn parse_set_priority_args(args: &Vec<String>) -> (r: Result<(u32, Vec<(PriorityKind, u32)>), String>)
    ensures
        (args@.len() <= 2 || parse_u32_spec(args@[2]@) is None) ==> (r matches Err(e) && e@ == set_priority_usage()),
        args@.len() > 2 && parse_u32_spec(args@[2]@) is Some ==> (r matches Ok((pid, writes))
            && pid == parse_u32_spec(args@[2]@)->0
            && writes@ == priority_writes_spec(
                if args@.len() > 3 { parse_u32_spec(trim_ws(args@[3]@)) } else { None },
                if args@.len() > 4 { parse_u32_spec(trim_ws(args@[4]@)) } else { None },
                if args@.len() > 5 { parse_u32_spec(trim_ws(args@[5]@)) } else { None })),
{
    proof {
        reveal_strlit("usage: --set-priority <pid> <class|-> <io|-> <mem|->");
    }
    let pid = match arg_text(args, 2) {
        Some(a) => match parse_u32(a.as_str()) {
            Some(p) => p,
            None => return Err(String::from_str("usage: --set-priority <pid> <class|-> <io|-> <mem|->")),
        },
        None => return Err(String::from_str("usage: --set-priority <pid> <class|-> <io|-> <mem|->")),
    };
    let pc = priority_argument(arg_text(args, 3));
    let io = priority_argument(arg_text(args, 4));
    let mp = priority_argument(arg_text(args, 5));
    Ok((pid, priority_writes(pc, io, mp)))
}

} // verus!
