//! Decisions of the desktop application's commands: when a refused change
//! is retried through the service bridge or an elevated helper, the
//! helper's command line, how the results of a privileged re-run are
//! merged, and how the output of `sc.exe` is read. Running processes and
//! talking to Windows is done by the application.
use vstd::prelude::*;

use crate::ipc::AppliedProcess;
use crate::procwin::{trim_text, trim_ws};
use crate::rule::RuleMode;
use crate::service::{parse_u32_spec, split_commas};
use crate::text::{chars_of, contains_text, decimal_string, decimal_text, push_text, split_chars, split_on, string_from_chars, text_contains};

verus! {

// =========================================================================
// Privileged fallback
// =========================================================================

/// Windows reports a refused open as `ERROR_ACCESS_DENIED`, formatted as
/// `Access is denied. (0x80070005)`.
pub open spec fn spec_access_denied_error(message: Seq<char>) -> bool {
    text_contains(message, "0x80070005"@) || text_contains(message, "Access is denied"@)
}

/// Whether an error means the change needs more privilege (and is worth
/// retrying through the service or an elevated helper).
pub fn is_access_denied_error(message: &str) -> (b: bool)
    ensures
        b == spec_access_denied_error(message@),
{
    contains_text(message, "0x80070005") || contains_text(message, "Access is denied")
}

/// The texts joined with `,` between them.
pub open spec fn join_commas(parts: Seq<Seq<char>>) -> Seq<char>
    decreases parts.len(),
{
    if parts.len() == 0 {
        Seq::empty()
    } else if parts.len() == 1 {
        parts[0]
    } else {
        join_commas(parts.drop_last()) + seq![','] + parts.last()
    }
}

/// The mask texts joined with commas.
pub fn join_masks(masks: &[String]) -> (s: String)
    ensures
        s@ == join_commas(masks@.map_values(|m: String| m@)),
{
    let mut out: Vec<char> = Vec::new();
    let mut i: usize = 0;
    while i < masks.len()
        invariant
            i <= masks@.len(),
            out@ == join_commas(masks@.subrange(0, i as int).map_values(|m: String| m@)),
        decreases masks.len() - i,
    {
        let ghost pre = masks@.subrange(0, i as int).map_values(|m: String| m@);
        let ghost post = masks@.subrange(0, i + 1).map_values(|m: String| m@);
        proof {
            assert(post.drop_last() =~= pre);
            assert(post.last() == masks@[i as int]@);
        }
        if i > 0 {
            out.push(',');
        }
        push_text(&mut out, masks[i].as_str());
        proof {
            if i == 0 {
                assert(out@ =~= post[0]);
            } else {
                assert(out@ =~= join_commas(pre) + seq![','] + post.last());
            }
        }
        i = i + 1;
    }
    assert(masks@.subrange(0, i as int) =~= masks@);
    string_from_chars(out.as_slice())
}

/// The text of a rule mode on the helper's command line.
pub open spec fn mode_text(mode: RuleMode) -> Seq<char> {
    if mode == RuleMode::Soft { "soft"@ } else { "strict"@ }
}

/// The helper arguments of an elevated affinity change:
/// `--set-affinity <pid> <mask-csv> <strict|soft>`.
pub open spec fn affinity_args_spec(pid: u32, masks: Seq<Seq<char>>, mode: RuleMode) -> Seq<Seq<char>> {
    seq!["--set-affinity"@, decimal_text(pid as nat), join_commas(masks), mode_text(mode)]
}

/// A priority value on the helper's command line: the number, or `-`.
pub open spec fn opt_number_text(v: Option<u32>) -> Seq<char> {
    match v {
        Some(x) => decimal_text(x as nat),
        None => "-"@,
    }
}

/// The helper arguments of an elevated priority change:
/// `--set-priority <pid> <class|-> <io|-> <mem|->`.
pub open spec fn priority_args_spec(pid: u32, pc: Option<u32>, io: Option<u32>, mp: Option<u32>) -> Seq<Seq<char>> {
    seq!["--set-priority"@, decimal_text(pid as nat), opt_number_text(pc), opt_number_text(io), opt_number_text(mp)]
}

pub open spec fn texts(v: Seq<String>) -> Seq<Seq<char>> {
    v.map_values(|s: String| s@)
}

fn text_string(s: &str) -> (r: String)
    ensures
        r@ == s@,
{
    s.to_string()
}

/// The command line of the elevated helper for an affinity change.
pub fn elevated_affinity_args(pid: u32, masks: &[String], mode: RuleMode) -> (args: Vec<String>)
    ensures
        texts(args@) == affinity_args_spec(pid, texts(masks@), mode),
{
    let mut args: Vec<String> = Vec::new();
    args.push(text_string("--set-affinity"));
    args.push(decimal_string(pid));
    args.push(join_masks(masks));
    let m = match mode {
        RuleMode::Soft => text_string("soft"),
        _ => text_string("strict"),
    };
    args.push(m);
    proof {
        assert(texts(masks@) =~= masks@.map_values(|m: String| m@));
        assert(texts(args@) =~= affinity_args_spec(pid, texts(masks@), mode));
    }
    args
}

fn number_or_dash(v: Option<u32>) -> (s: String)
    ensures
        s@ == opt_number_text(v),
{
    match v {
        Some(x) => decimal_string(x),
        None => text_string("-"),
    }
}

/// The command line of the elevated helper for a priority change.
pub fn elevated_priority_args(pid: u32, pc: Option<u32>, io: Option<u32>, mp: Option<u32>) -> (args: Vec<String>)
    ensures
        texts(args@) == priority_args_spec(pid, pc, io, mp),
{
    let mut args: Vec<String> = Vec::new();
    args.push(text_string("--set-priority"));
    args.push(decimal_string(pid));
    args.push(number_or_dash(pc));
    args.push(number_or_dash(io));
    args.push(number_or_dash(mp));
    assert(texts(args@) =~= priority_args_spec(pid, pc, io, mp));
    args
}

// ---------- The helper reads back what the app writes ----------

proof fn lemma_decimal_digits(n: nat)
    ensures
        decimal_text(n).len() >= 1,
        forall|i: int| 0 <= i < decimal_text(n).len() ==> crate::service::is_decimal_digit(#[trigger] decimal_text(n)[i]),
        crate::service::decimal_value(decimal_text(n)) == n,
    decreases n,
{
    let c = (48 + n % 10) as char;
    assert(c as int == 48 + n % 10);
    assert('0' as int == 48);
    if n < 10 {
        let d = decimal_text(n);
        assert(d.last() == c);
        assert(d.drop_last() =~= Seq::<char>::empty());
        assert(crate::service::decimal_value(d) == crate::service::decimal_value(d.drop_last()) * 10
            + ((d.last() as int) - ('0' as int)) as nat);
        assert(crate::service::decimal_value(Seq::<char>::empty()) == 0);
        assert(n % 10 == n);
    } else {
        lemma_decimal_digits(n / 10);
        let p = decimal_text(n / 10);
        let d = decimal_text(n);
        assert(d.drop_last() =~= p);
        assert(d.last() == c);
        assert forall|i: int| 0 <= i < d.len() implies crate::service::is_decimal_digit(#[trigger] d[i]) by {
            if i < p.len() {
                assert(d[i] == p[i]);
            }
        }
        assert((n / 10) * 10 + n % 10 == n) by (nonlinear_arith);
        assert(crate::service::decimal_value(d) == crate::service::decimal_value(d.drop_last()) * 10
            + ((d.last() as int) - ('0' as int)) as nat);
    }
}

proof fn lemma_decimal_parses(n: u32)
    ensures
        parse_u32_spec(decimal_text(n as nat)) == Some(n),
        trim_ws(decimal_text(n as nat)) == decimal_text(n as nat),
{
    lemma_decimal_digits(n as nat);
    let d = decimal_text(n as nat);
    assert(crate::service::is_decimal_digit(d[0]));
    assert(crate::service::unsigned_digits(d) == d);
    assert(crate::service::is_decimal_digit(d.last()));
    assert(crate::procwin::trim_start_ws(d) == d);
    assert(crate::procwin::trim_end_ws(d) == d);
}

proof fn lemma_split_concat(s: Seq<char>, t: Seq<char>, c: char)
    ensures
        split_on(s + seq![c] + t, c) == split_on(s, c) + split_on(t, c),
    decreases t.len(),
{
    if t.len() == 0 {
        assert(s + seq![c] + t =~= s + seq![c]);
        assert((s + seq![c]).drop_last() =~= s);
        assert(split_on(s, c) + split_on(t, c) =~= split_on(s, c).push(Seq::empty()));
    } else {
        let tp = t.drop_last();
        lemma_split_concat(s, tp, c);
        assert((s + seq![c] + t).drop_last() =~= s + seq![c] + tp);
        crate::text::lemma_split_on_nonempty(tp, c);
        let a = split_on(s, c);
        let b = split_on(tp, c);
        if t.last() == c {
            assert(split_on(s, c) + split_on(t, c) =~= (a + b).push(Seq::empty()));
        } else {
            assert((a + b).update((a + b).len() - 1, (a + b).last().push(t.last()))
                =~= a + b.update(b.len() - 1, b.last().push(t.last())));
        }
    }
}

proof fn lemma_split_without_sep(m: Seq<char>, c: char)
    requires
        !m.contains(c),
    ensures
        split_on(m, c) == seq![m],
    decreases m.len(),
{
    if m.len() == 0 {
        assert(m =~= Seq::<char>::empty());
    } else {
        let p = m.drop_last();
        assert(!p.contains(c)) by {
            if p.contains(c) {
                let i = choose|i: int| 0 <= i < p.len() && p[i] == c;
                assert(m[i] == c);
            }
        }
        lemma_split_without_sep(p, c);
        assert(m.last() != c) by {
            if m.last() == c {
                assert(m[m.len() - 1] == c);
            }
        }
        assert(p.push(m.last()) =~= m);
        assert(split_on(m, c) == split_on(p, c).update(0, p.push(m.last())));
        assert(seq![p].update(0, p.push(m.last())) =~= seq![m]);
    }
}

proof fn lemma_split_join(ms: Seq<Seq<char>>)
    requires
        ms.len() >= 1,
        forall|i: int| 0 <= i < ms.len() ==> !(#[trigger] ms[i]).contains(','),
    ensures
        split_commas(join_commas(ms)) == ms,
    decreases ms.len(),
{
    if ms.len() == 1 {
        lemma_split_without_sep(ms[0], ',');
        assert(seq![ms[0]] =~= ms);
    } else {
        let p = ms.drop_last();
        lemma_split_join(p);
        lemma_split_concat(join_commas(p), ms.last(), ',');
        lemma_split_without_sep(ms.last(), ',');
        assert(p + seq![ms.last()] =~= ms);
    }
}

/// What the app writes on the helper's command line for an affinity
/// change, the helper reads back: the same PID, the same mask texts (when
/// they are trimmed and hold no comma) and the same mode.
pub proof fn lemma_affinity_args_roundtrip(pid: u32, masks: Seq<Seq<char>>, mode: RuleMode)
    requires
        masks.len() >= 1,
        forall|i: int| 0 <= i < masks.len() ==> !(#[trigger] masks[i]).contains(','),
        forall|i: int| 0 <= i < masks.len() ==> trim_ws(#[trigger] masks[i]) == masks[i],
    ensures
        parse_u32_spec(affinity_args_spec(pid, masks, mode)[1]) == Some(pid),
        split_commas(affinity_args_spec(pid, masks, mode)[2]).map_values(|p: Seq<char>| trim_ws(p)) == masks,
        (affinity_args_spec(pid, masks, mode)[3] == "soft"@) == (mode == RuleMode::Soft),
{
    lemma_decimal_parses(pid);
    lemma_split_join(masks);
    assert(masks.map_values(|p: Seq<char>| trim_ws(p)) =~= masks);
    reveal_strlit("soft");
    reveal_strlit("strict");
    if mode != RuleMode::Soft {
        assert("strict"@[1] != "soft"@[1]);
    }
}

/// What the app writes on the helper's command line for a priority change,
/// the helper reads back: the same PID and the same three optional values.
pub proof fn lemma_priority_args_roundtrip(pid: u32, pc: Option<u32>, io: Option<u32>, mp: Option<u32>)
    ensures
        parse_u32_spec(priority_args_spec(pid, pc, io, mp)[1]) == Some(pid),
        parse_u32_spec(trim_ws(priority_args_spec(pid, pc, io, mp)[2])) == pc,
        parse_u32_spec(trim_ws(priority_args_spec(pid, pc, io, mp)[3])) == io,
        parse_u32_spec(trim_ws(priority_args_spec(pid, pc, io, mp)[4])) == mp,
{
    lemma_decimal_parses(pid);
    lemma_number_text_roundtrip(pc);
    lemma_number_text_roundtrip(io);
    lemma_number_text_roundtrip(mp);
}

proof fn lemma_number_text_roundtrip(v: Option<u32>)
    ensures
        parse_u32_spec(trim_ws(opt_number_text(v))) == v,
{
    match v {
        Some(x) => {
            lemma_decimal_parses(x);
        },
        None => {
            reveal_strlit("-");
            let d = "-"@;
            assert(crate::procwin::trim_start_ws(d) == d);
            assert(crate::procwin::trim_end_ws(d) == d);
            assert(crate::service::unsigned_digits(d) == d);
            assert(!crate::service::is_decimal_digit(d[0]));
        },
    }
}

// =========================================================================
// Results of a privileged re-run
// =========================================================================

/// After a rule run, the processes the app could not open are re-applied
/// by the service: each of its results counts once, unless the app
/// already handled that PID. Returns the new count and the results to
/// report, in order; `handled` gains their PIDs.
pub open spec fn merge_spec(handled: Seq<u32>, changed: Seq<AppliedProcess>) -> (Seq<u32>, Seq<int>)
    decreases changed.len(),
{
    if changed.len() == 0 {
        (handled, Seq::empty())
    } else {
        let (h, picked) = merge_spec(handled, changed.drop_last());
        let pid = changed.last().pid;
        if h.contains(pid) { (h, picked) } else { (h.push(pid), picked.push(changed.len() - 1)) }
    }
}

pub fn merge_bridge_changes(applied: u32, handled: &mut Vec<u32>, changed: Vec<AppliedProcess>) -> (r: (u32, Vec<AppliedProcess>))
    requires
        applied as int + changed@.len() <= u32::MAX,
    ensures
        final(handled)@ == merge_spec(old(handled)@, changed@).0,
        r.0 as int == applied as int + merge_spec(old(handled)@, changed@).1.len(),
        r.1@.len() == merge_spec(old(handled)@, changed@).1.len(),
        forall|k: int| 0 <= k < r.1@.len() ==> #[trigger] r.1@[k] == changed@[merge_spec(old(handled)@, changed@).1[k]],
{
    let mut rest = changed;
    let ghost all = rest@;
    let n = rest.len();
    let mut out: Vec<AppliedProcess> = Vec::new();
    let mut count = applied;
    let mut i: usize = 0;
    while i < n
        invariant
            n == all.len(),
            i <= n,
            rest@ == all.subrange(i as int, n as int),
            applied as int + n <= u32::MAX,
            handled@ == merge_spec(old(handled)@, all.subrange(0, i as int)).0,
            out@.len() == merge_spec(old(handled)@, all.subrange(0, i as int)).1.len(),
            count as int == applied as int + out@.len(),
            out@.len() <= i,
            forall|k: int| 0 <= k < out@.len() ==> #[trigger] out@[k] == all[merge_spec(old(handled)@, all.subrange(0, i as int)).1[k]],
        decreases n - i,
    {
        let c = rest.remove(0);
        assert(c == all[i as int]);
        let ghost sub = all.subrange(0, i + 1);
        proof {
            assert(sub.drop_last() =~= all.subrange(0, i as int));
            assert(sub.last() == c);
        }
        let mut seen = false;
        let mut k: usize = 0;
        while k < handled.len()
            invariant
                k <= handled@.len(),
                seen <==> exists|m: int| 0 <= m < k && handled@[m] == c.pid,
            decreases handled.len() - k,
        {
            if handled[k] == c.pid {
                seen = true;
            }
            k = k + 1;
        }
        assert(seen == handled@.contains(c.pid));
        if !seen {
            handled.push(c.pid);
            out.push(c);
            count = count + 1;
        }
        i = i + 1;
        assert(rest@ =~= all.subrange(i as int, n as int));
    }
    assert(all.subrange(0, n as int) =~= all);
    (count, out)
}

// =========================================================================
// sc.exe output
// =========================================================================

/// The text reported for a finished command: its trimmed output, its
/// trimmed errors, both on two lines, or a fixed note when it printed
/// nothing.
pub open spec fn command_text_spec(stdout: Seq<char>, stderr: Seq<char>) -> Seq<char> {
    let o = trim_ws(stdout);
    let e = trim_ws(stderr);
    if o.len() == 0 && e.len() == 0 {
        "(command did not return details)"@
    } else if e.len() == 0 {
        o
    } else if o.len() == 0 {
        e
    } else {
        o + seq!['\n'] + e
    }
}

pub fn command_output_text(stdout: &str, stderr: &str) -> (r: String)
    ensures
        r@ == command_text_spec(stdout@, stderr@),
{
    let o = trim_text(stdout);
    let e = trim_text(stderr);
    let on = o.unicode_len() == 0;
    let en = e.unicode_len() == 0;
    if on && en {
        text_string("(command did not return details)")
    } else if en {
        o
    } else if on {
        e
    } else {
        let with_nl = crate::text::concat_text(o.as_str(), "\n");
        proof {
            reveal_strlit("\n");
        }
        let r = crate::text::concat_text(with_nl.as_str(), e.as_str());
        assert(r@ =~= o@ + seq!['\n'] + e@);
        r
    }
}

/// `sc.exe` reports a missing service as error 1060.
pub open spec fn spec_service_missing(text: Seq<char>) -> bool {
    text_contains(text, "1060"@) || text_contains(text, "The specified service does not exist"@)
}

pub fn is_service_missing(text: &str) -> (b: bool)
    ensures
        b == spec_service_missing(text@),
{
    contains_text(text, "1060") || contains_text(text, "The specified service does not exist")
}

/// A refused `sc.exe` call: exit code 5 or an access-denied message.
pub fn is_sc_access_denied(exit_code: Option<i32>, text: &str) -> (b: bool)
    ensures
        b == (exit_code == Some(5i32) || text_contains(text@, "Access is denied"@)),
{
    exit_code == Some(5i32) || contains_text(text, "Access is denied")
}

/// `str::lines`: split at `\n`, a `\r` before the `\n` removed, no line
/// after a final `\n`.
pub open spec fn lines_of(s: Seq<char>) -> Seq<Seq<char>> {
    let pieces = split_on(s, '\n');
    let n = if s.len() == 0 || s.last() == '\n' { pieces.len() - 1 } else { pieces.len() as int };
    Seq::new(n as nat, |k: int| if k < pieces.len() - 1 && pieces[k].len() > 0 && pieces[k].last() == '\r' {
        pieces[k].drop_last()
    } else {
        pieces[k]
    })
}

/// The state of a service from `sc.exe query` output: running, stopped,
/// or the trimmed first line that holds `STATE`; none when there is no
/// such line.
pub open spec fn service_state_spec(stdout: Seq<char>) -> Option<Seq<char>> {
    if text_contains(stdout, "RUNNING"@) {
        Some("running"@)
    } else if text_contains(stdout, "STOPPED"@) {
        Some("stopped"@)
    } else if exists|k: int| 0 <= k < lines_of(stdout).len() && text_contains(#[trigger] lines_of(stdout)[k], "STATE"@) {
        let k = choose|k: int| 0 <= k < lines_of(stdout).len() && text_contains(#[trigger] lines_of(stdout)[k], "STATE"@)
            && forall|j: int| 0 <= j < k ==> !text_contains(#[trigger] lines_of(stdout)[j], "STATE"@);
        Some("unknown: "@ + trim_ws(lines_of(stdout)[k]))
    } else {
        None
    }
}

fn line_at(pieces: &Vec<Vec<char>>, k: usize, n: usize) -> (line: Vec<char>)
    requires
        k < pieces@.len(),
        n == pieces@.len(),
    ensures
        line@ == (if (k as int) < n - 1 && pieces@[k as int]@.len() > 0 && pieces@[k as int]@.last() == '\r' {
            pieces@[k as int]@.drop_last()
        } else {
            pieces@[k as int]@
        }),
{
    let p = &pieces[k];
    if k + 1 < n && p.len() > 0 && p[p.len() - 1] == '\r' {
        let mut out: Vec<char> = Vec::new();
        let mut i: usize = 0;
        while i + 1 < p.len()
            invariant
                i < p@.len(),
                out@ == p@.subrange(0, i as int),
            decreases p.len() - i,
        {
            out.push(p[i]);
            i = i + 1;
            assert(out@ =~= p@.subrange(0, i as int));
        }
        assert(out@ =~= p@.drop_last());
        out
    } else {
        let mut out: Vec<char> = Vec::new();
        let mut i: usize = 0;
        while i < p.len()
            invariant
                i <= p@.len(),
                out@ == p@.subrange(0, i as int),
            decreases p.len() - i,
        {
            out.push(p[i]);
            i = i + 1;
            assert(out@ =~= p@.subrange(0, i as int));
        }
        assert(out@ =~= p@);
        out
    }
}

/// The state of a service from `sc.exe query` output.
pub fn service_state(stdout: &str) -> (r: Option<String>)
    ensures
        opt_chars(r) == service_state_spec(stdout@),
{
    if contains_text(stdout, "RUNNING") {
        proof { reveal_strlit("running"); }
        return Some(text_string("running"));
    }
    if contains_text(stdout, "STOPPED") {
        proof { reveal_strlit("stopped"); }
        return Some(text_string("stopped"));
    }
    let v = chars_of(stdout);
    let pieces = split_chars(stdout, '\n');
    proof {
        crate::text::lemma_split_on_nonempty(stdout@, '\n');
    }
    let n_pieces = pieces.len();
    let n: usize = if v.len() == 0 || v[v.len() - 1] == '\n' { n_pieces - 1 } else { n_pieces };
    let ghost ls = lines_of(stdout@);
    assert(ls.len() == n);
    let mut k: usize = 0;
    while k < n
        invariant
            k <= n,
            n <= n_pieces,
            n_pieces == pieces@.len(),
            ls == lines_of(stdout@),
            ls.len() == n,
            !text_contains(stdout@, "RUNNING"@),
            !text_contains(stdout@, "STOPPED"@),
            pieces@.len() == split_on(stdout@, '\n').len(),
            forall|m: int| 0 <= m < pieces@.len() ==> (#[trigger] pieces@[m])@ == split_on(stdout@, '\n')[m],
            forall|j: int| 0 <= j < k ==> !text_contains(#[trigger] ls[j], "STATE"@),
        decreases n - k,
    {
        let line = line_at(&pieces, k, n_pieces);
        assert(line@ == ls[k as int]);
        let text = string_from_chars(line.as_slice());
        if contains_text(text.as_str(), "STATE") {
            let t = trim_text(text.as_str());
            proof {
                let c = choose|c: int| 0 <= c < ls.len() && text_contains(#[trigger] ls[c], "STATE"@)
                    && forall|j: int| 0 <= j < c ==> !text_contains(#[trigger] ls[j], "STATE"@);
                assert(text_contains(ls[k as int], "STATE"@));
                assert(c == k) by {
                    if c < k {
                        assert(!text_contains(ls[c], "STATE"@));
                    } else if c > k {
                        assert(!text_contains(ls[k as int], "STATE"@));
                    }
                }
            }
            return Some(crate::text::concat_text("unknown: ", t.as_str()));
        }
        k = k + 1;
    }
    None
}

pub open spec fn opt_chars(s: Option<String>) -> Option<Seq<char>> {
    match s {
        Some(x) => Some(x@),
        None => None,
    }
}

} // verus!
