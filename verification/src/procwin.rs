//! Process-level values that the Win32 layer works with: hex affinity
//! masks, per-processor-group masks, CPU Set mapping, priority classes.
//! The Win32 calls themselves are made by the application.
use vstd::prelude::*;

use crate::text::{chars_of, decimal_text, push_decimal, push_text, string_from_chars};

verus! {

// =========================================================================
// Hex mask text
// =========================================================================

/// `char::is_whitespace` (the Unicode White_Space property).
pub open spec fn is_white_space(c: char) -> bool {
    let u = c as u32;
    (9 <= u <= 13) || u == 32 || u == 0x85 || u == 0xA0 || u == 0x1680 || (0x2000 <= u <= 0x200A)
        || u == 0x2028 || u == 0x2029 || u == 0x202F || u == 0x205F || u == 0x3000
}

pub open spec fn trim_start_ws(s: Seq<char>) -> Seq<char>
    decreases s.len(),
{
    if s.len() > 0 && is_white_space(s[0]) {
        trim_start_ws(s.drop_first())
    } else {
        s
    }
}

pub open spec fn trim_end_ws(s: Seq<char>) -> Seq<char>
    decreases s.len(),
{
    if s.len() > 0 && is_white_space(s.last()) {
        trim_end_ws(s.drop_last())
    } else {
        s
    }
}

/// `str::trim`: leading and trailing whitespace removed.
pub open spec fn trim_ws(s: Seq<char>) -> Seq<char> {
    trim_end_ws(trim_start_ws(s))
}

/// `str::trim_start_matches` with the two-character prefix `a b`: every
/// leading repetition of the prefix removed.
pub open spec fn strip_prefixes(s: Seq<char>, a: char, b: char) -> Seq<char>
    decreases s.len(),
{
    if s.len() >= 2 && s[0] == a && s[1] == b {
        strip_prefixes(s.subrange(2, s.len() as int), a, b)
    } else {
        s
    }
}

/// The part of a mask text that holds the digits: trimmed, then every
/// leading `0x`, then every leading `0X` removed.
pub open spec fn mask_body(s: Seq<char>) -> Seq<char> {
    strip_prefixes(strip_prefixes(trim_ws(s), '0', 'x'), '0', 'X')
}

/// Value of a hexadecimal digit (either case), or -1.
pub open spec fn hex_digit_value(c: char) -> int {
    let u = c as u32;
    if 48 <= u <= 57 {
        u - 48
    } else if 97 <= u <= 102 {
        u - 87
    } else if 65 <= u <= 70 {
        u - 55
    } else {
        -1
    }
}

pub open spec fn all_hex_digits(d: Seq<char>) -> bool {
    forall|i: int| 0 <= i < d.len() ==> hex_digit_value(#[trigger] d[i]) >= 0
}

/// Big-endian value of a run of hexadecimal digits.
pub open spec fn hex_value(d: Seq<char>) -> nat
    decreases d.len(),
{
    if d.len() == 0 {
        0
    } else {
        hex_value(d.drop_last()) * 16 + hex_digit_value(d.last()) as nat
    }
}

/// The digits that `u64::from_str_radix(_, 16)` reads: one leading `+` is
/// allowed.
pub open spec fn mask_digits(b: Seq<char>) -> Seq<char> {
    if b.len() > 0 && b[0] == '+' {
        b.drop_first()
    } else {
        b
    }
}

/// What `parse_hex_mask` accepts, and the value it returns: a body of at
/// most 16 characters made of hex digits (after an optional `+`).
pub open spec fn parse_mask_spec(s: Seq<char>) -> Option<u64> {
    let b = mask_body(s);
    let d = mask_digits(b);
    if b.len() == 0 || b.len() > 16 || d.len() == 0 || !all_hex_digits(d) {
        None
    } else {
        Some(hex_value(d) as u64)
    }
}

/// Bytes of a character in UTF-8.
pub open spec fn utf8_char_len(c: char) -> nat {
    let u = c as u32;
    if u < 0x80 {
        1
    } else if u < 0x800 {
        2
    } else if u < 0x10000 {
        3
    } else {
        4
    }
}

/// `str::len`: the length of the text in UTF-8 bytes.
pub open spec fn utf8_len(s: Seq<char>) -> nat
    decreases s.len(),
{
    if s.len() == 0 {
        0
    } else {
        utf8_len(s.drop_last()) + utf8_char_len(s.last())
    }
}

/// The error text of `parse_hex_mask` for a text it refuses: an empty
/// body, a body longer than 16 bytes, or a bad digit.
pub open spec fn mask_error_text(s: Seq<char>) -> Seq<char> {
    let b = mask_body(s);
    if b.len() == 0 {
        "mask cannot be empty (raw input: \""@ + s + "\")"@
    } else if utf8_len(b) > 16 {
        "mask exceeds 64 bits ("@ + decimal_text(utf8_len(b)) + " hex digits): \""@ + s + "\""@
    } else {
        "failed to parse mask \""@ + s + "\": invalid digit found in string"@
    }
}

proof fn lemma_utf8_len_ge(s: Seq<char>)
    ensures
        utf8_len(s) >= s.len(),
    decreases s.len(),
{
    if s.len() > 0 {
        lemma_utf8_len_ge(s.drop_last());
    }
}

/// A text with more bytes than characters has a character outside ASCII.
proof fn lemma_utf8_non_ascii(s: Seq<char>)
    requires
        utf8_len(s) > s.len(),
    ensures
        exists|i: int| 0 <= i < s.len() && (s[i] as u32) >= 0x80,
    decreases s.len(),
{
    let t = s.drop_last();
    if (s.last() as u32) >= 0x80 {
        assert((s[s.len() - 1] as u32) >= 0x80);
    } else {
        lemma_utf8_non_ascii(t);
        let i = choose|i: int| 0 <= i < t.len() && (t[i] as u32) >= 0x80;
        assert(s[i] == t[i]);
    }
}

/// A body of more than 16 bytes never parses: either it has more than 16
/// characters, or one of them is not ASCII, hence not a hex digit.
proof fn lemma_long_mask_refused(s: Seq<char>)
    requires
        utf8_len(mask_body(s)) > 16,
    ensures
        parse_mask_spec(s) is None,
{
    let b = mask_body(s);
    let d = mask_digits(b);
    if b.len() <= 16 && d.len() > 0 && all_hex_digits(d) {
        lemma_utf8_non_ascii(b);
        let i = choose|i: int| 0 <= i < b.len() && (b[i] as u32) >= 0x80;
        if b.len() > 0 && b[0] == '+' {
            assert(d[i - 1] == b[i]);
            assert(hex_digit_value(d[i - 1]) >= 0);
        } else {
            assert(d[i] == b[i]);
            assert(hex_digit_value(d[i]) >= 0);
        }
    }
}

/// UTF-8 length of `v[from..to]`.
fn utf8_len_range(v: &Vec<char>, from: usize, to: usize) -> (n: u128)
    requires
        from <= to <= v@.len(),
    ensures
        n == utf8_len(v@.subrange(from as int, to as int)),
{
    let mut n: u128 = 0;
    let mut i: usize = from;
    while i < to
        invariant
            from <= i <= to <= v@.len(),
            n == utf8_len(v@.subrange(from as int, i as int)),
            n <= 4 * (i - from),
        decreases to - i,
    {
        let u = v[i] as u32;
        let c: u128 = if u < 0x80 {
            1
        } else if u < 0x800 {
            2
        } else if u < 0x10000 {
            3
        } else {
            4
        };
        proof {
            let next = v@.subrange(from as int, i + 1);
            assert(next.drop_last() =~= v@.subrange(from as int, i as int));
            assert(next.last() == v@[i as int]);
        }
        n = n + c;
        i = i + 1;
    }
    n
}

pub open spec fn pow16(k: nat) -> nat
    decreases k,
{
    if k == 0 { 1 } else { 16 * pow16((k - 1) as nat) }
}

proof fn lemma_hex_value_bound(d: Seq<char>)
    requires
        all_hex_digits(d),
    ensures
        hex_value(d) < pow16(d.len()),
    decreases d.len(),
{
    if d.len() > 0 {
        let e = d.drop_last();
        assert(all_hex_digits(e)) by {
            assert forall|i: int| 0 <= i < e.len() implies hex_digit_value(#[trigger] e[i]) >= 0 by {
                assert(e[i] == d[i]);
            }
        }
        lemma_hex_value_bound(e);
        assert(hex_digit_value(d[d.len() - 1]) >= 0);
        let v = hex_value(e);
        let p = pow16(e.len());
        let dg = hex_digit_value(d.last());
        assert(dg <= 15);
        assert(v * 16 + dg < 16 * p) by (nonlinear_arith)
            requires
                v < p,
                0 <= dg <= 15,
        ;
    }
}

proof fn lemma_pow16_16()
    ensures
        pow16(16) == 0x1_0000_0000_0000_0000,
{
    reveal_with_fuel(pow16, 17);
}

proof fn lemma_pow16_mono(a: nat, b: nat)
    requires
        a <= b,
    ensures
        pow16(a) <= pow16(b),
    decreases b,
{
    if a < b {
        lemma_pow16_mono(a, (b - 1) as nat);
    }
}

/// Index of the first non-whitespace character at or after `i`.
fn skip_ws_start(v: &Vec<char>, end: usize) -> (i: usize)
    requires
        end <= v@.len(),
    ensures
        i <= end,
        trim_start_ws(v@.subrange(0, end as int)) == v@.subrange(i as int, end as int),
{
    let mut i: usize = 0;
    while i < end && is_ws_char(v[i])
        invariant
            i <= end <= v@.len(),
            trim_start_ws(v@.subrange(0, end as int)) == trim_start_ws(v@.subrange(i as int, end as int)),
        decreases end - i,
    {
        assert(v@.subrange(i as int, end as int).drop_first() =~= v@.subrange(i + 1, end as int));
        i = i + 1;
    }
    i
}

/// Index just past the last non-whitespace character of `v[start..end]`.
fn skip_ws_end(v: &Vec<char>, start: usize, end: usize) -> (j: usize)
    requires
        start <= end <= v@.len(),
    ensures
        start <= j <= end,
        trim_end_ws(v@.subrange(start as int, end as int)) == v@.subrange(start as int, j as int),
{
    let mut j: usize = end;
    while j > start && is_ws_char(v[j - 1])
        invariant
            start <= j <= end <= v@.len(),
            trim_end_ws(v@.subrange(start as int, end as int)) == trim_end_ws(v@.subrange(start as int, j as int)),
        decreases j - start,
    {
        assert(v@.subrange(start as int, j as int).drop_last() =~= v@.subrange(start as int, j - 1));
        j = j - 1;
    }
    j
}

fn is_ws_char(c: char) -> (b: bool)
    ensures
        b == is_white_space(c),
{
    let u = c as u32;
    (9 <= u && u <= 13) || u == 32 || u == 0x85 || u == 0xA0 || u == 0x1680 || (0x2000 <= u && u <= 0x200A)
        || u == 0x2028 || u == 0x2029 || u == 0x202F || u == 0x205F || u == 0x3000
}

/// Skip every leading repetition of `a b` in `v[i..j]`.
fn skip_prefixes(v: &Vec<char>, i: usize, j: usize, a: char, b: char) -> (k: usize)
    requires
        i <= j <= v@.len(),
    ensures
        i <= k <= j,
        strip_prefixes(v@.subrange(i as int, j as int), a, b) == v@.subrange(k as int, j as int),
{
    let mut k: usize = i;
    while j - k >= 2 && v[k] == a && v[k + 1] == b
        invariant
            i <= k <= j <= v@.len(),
            strip_prefixes(v@.subrange(i as int, j as int), a, b) == strip_prefixes(v@.subrange(k as int, j as int), a, b),
        decreases j - k,
    {
        assert(v@.subrange(k as int, j as int).subrange(2, (j - k) as int) =~= v@.subrange(k + 2, j as int));
        k = k + 2;
    }
    k
}

fn hex_digit(c: char) -> (d: Option<u64>)
    ensures
        match d {
            Some(x) => hex_digit_value(c) >= 0 && x == hex_digit_value(c),
            None => hex_digit_value(c) < 0,
        },
{
    let u = c as u32;
    if 48 <= u && u <= 57 {
        Some((u - 48) as u64)
    } else if 97 <= u && u <= 102 {
        Some((u - 87) as u64)
    } else if 65 <= u && u <= 70 {
        Some((u - 55) as u64)
    } else {
        None
    }
}

/// Parse a hex mask string ("0xFF" / "FF" / "0xff"; leading/trailing
/// whitespace is tolerated). At most 16 digits.
pub fn parse_hex_mask(s: &str) -> (r: Result<u64, String>)
    ensures
        match parse_mask_spec(s@) {
            Some(v) => r == Ok::<u64, String>(v),
            None => r matches Err(e) && e@ == mask_error_text(s@),
        },
{
    let v = chars_of(s);
    let n = v.len();
    assert(v@.subrange(0, n as int) =~= v@);
    let start = skip_ws_start(&v, n);
    let end = skip_ws_end(&v, start, n);
    let k1 = skip_prefixes(&v, start, end, '0', 'x');
    let k2 = skip_prefixes(&v, k1, end, '0', 'X');
    let ghost body = v@.subrange(k2 as int, end as int);
    assert(body == mask_body(s@));
    if k2 == end {
        return Err(empty_mask_message(s));
    }
    let bytes = utf8_len_range(&v, k2, end);
    if bytes > 16 {
        proof {
            lemma_long_mask_refused(s@);
        }
        return Err(mask_too_long_message(s, bytes));
    }
    proof {
        lemma_utf8_len_ge(body);
    }
    let d0: usize = if v[k2] == '+' { k2 + 1 } else { k2 };
    let ghost digits = v@.subrange(d0 as int, end as int);
    assert(digits =~= mask_digits(body));
    if d0 == end {
        return Err(mask_digit_message(s));
    }
    let mut value: u64 = 0;
    let mut i: usize = d0;
    while i < end
        invariant
            d0 < end <= v@.len(),
            end - d0 <= 16,
            d0 <= i <= end,
            all_hex_digits(v@.subrange(d0 as int, i as int)),
            value as nat == hex_value(v@.subrange(d0 as int, i as int)),
            body == mask_body(s@),
            body.len() > 0,
            body.len() <= 16,
            utf8_len(body) <= 16,
            digits == mask_digits(body),
            digits == v@.subrange(d0 as int, end as int),
        decreases end - i,
    {
        let ghost before = v@.subrange(d0 as int, i as int);
        match hex_digit(v[i]) {
            None => {
                proof {
                    assert(digits[i - d0] == v@[i as int]);
                    assert(hex_digit_value(digits[i - d0]) < 0);
                }
                return Err(mask_digit_message(s));
            },
            Some(dg) => {
                let ghost after = v@.subrange(d0 as int, i + 1);
                proof {
                    assert(after.drop_last() =~= before);
                    assert(after.last() == v@[i as int]);
                    assert(all_hex_digits(after)) by {
                        assert forall|k: int| 0 <= k < after.len() implies hex_digit_value(#[trigger] after[k]) >= 0 by {
                            if k < before.len() {
                                assert(after[k] == before[k]);
                            }
                        }
                    }
                    lemma_hex_value_bound(after);
                    lemma_pow16_mono(after.len(), 16);
                    lemma_pow16_16();
                }
                value = value * 16 + dg;
                i = i + 1;
            },
        }
    }
    assert(v@.subrange(d0 as int, end as int) =~= digits);
    Ok(value)
}

fn empty_mask_message(s: &str) -> (r: String)
    ensures
        r@ == "mask cannot be empty (raw input: \""@ + s@ + "\")"@,
{
    let mut out: Vec<char> = Vec::new();
    push_text(&mut out, "mask cannot be empty (raw input: \"");
    push_text(&mut out, s);
    push_text(&mut out, "\")");
    assert(out@ =~= "mask cannot be empty (raw input: \""@ + s@ + "\")"@);
    string_from_chars(out.as_slice())
}

fn mask_too_long_message(s: &str, bytes: u128) -> (r: String)
    ensures
        r@ == "mask exceeds 64 bits ("@ + decimal_text(bytes as nat) + " hex digits): \""@ + s@ + "\""@,
{
    let mut out: Vec<char> = Vec::new();
    push_text(&mut out, "mask exceeds 64 bits (");
    push_decimal(bytes, &mut out);
    push_text(&mut out, " hex digits): \"");
    push_text(&mut out, s);
    push_text(&mut out, "\"");
    assert(out@ =~= "mask exceeds 64 bits ("@ + decimal_text(bytes as nat) + " hex digits): \""@ + s@ + "\""@);
    string_from_chars(out.as_slice())
}

fn mask_digit_message(s: &str) -> (r: String)
    ensures
        r@ == "failed to parse mask \""@ + s@ + "\": invalid digit found in string"@,
{
    let mut out: Vec<char> = Vec::new();
    push_text(&mut out, "failed to parse mask \"");
    push_text(&mut out, s);
    push_text(&mut out, "\": invalid digit found in string");
    assert(out@ =~= "failed to parse mask \""@ + s@ + "\": invalid digit found in string"@);
    string_from_chars(out.as_slice())
}

} // verus!

verus! {

/// The uppercase hexadecimal digit for `d < 16`.
pub open spec fn upper_hex_digit(d: nat) -> char {
    if d < 10 {
        (48 + d) as char
    } else {
        (55 + d) as char
    }
}

/// Uppercase hexadecimal form of `n` without leading zeros (`0` for zero).
pub open spec fn hex_upper(n: nat) -> Seq<char>
    decreases n,
{
    if n < 16 {
        seq![upper_hex_digit(n)]
    } else {
        hex_upper(n / 16).push(upper_hex_digit(n % 16))
    }
}

/// `format!("0x{:X}", mask)`.
pub open spec fn mask_to_hex_spec(mask: u64) -> Seq<char> {
    seq!['0', 'x'] + hex_upper(mask as nat)
}

fn upper_hex_char(d: u64) -> (c: char)
    requires
        d < 16,
    ensures
        c == upper_hex_digit(d as nat),
{
    if d < 10 {
        ((48 + d) as u8) as char
    } else {
        ((55 + d) as u8) as char
    }
}

pub(crate) fn push_hex_upper(n: u64, out: &mut Vec<char>)
    ensures
        final(out)@ == old(out)@ + hex_upper(n as nat),
    decreases n,
{
    if n >= 16 {
        push_hex_upper(n / 16, out);
    }
    out.push(upper_hex_char(n % 16));
    assert(n < 16 ==> seq![upper_hex_digit(n as nat)] =~= Seq::<char>::empty().push(upper_hex_digit(n as nat)));
}

/// Format a mask as a prefixed uppercase hex string (e.g. "0xFFFFFFFF").
pub fn mask_to_hex(mask: u64) -> (s: String)
    ensures
        s@ == mask_to_hex_spec(mask),
{
    let mut out: Vec<char> = Vec::new();
    out.push('0');
    out.push('x');
    push_hex_upper(mask, &mut out);
    assert(out@ =~= mask_to_hex_spec(mask));
    string_from_chars(out.as_slice())
}

proof fn lemma_hex_upper_facts(n: nat)
    ensures
        hex_upper(n).len() >= 1,
        all_hex_digits(hex_upper(n)),
        hex_value(hex_upper(n)) == n,
        forall|i: int| 0 <= i < hex_upper(n).len() ==> {
            let u = #[trigger] hex_upper(n)[i] as u32;
            (48 <= u <= 57) || (65 <= u <= 70)
        },
    decreases n,
{
    assert(hex_digit_value(upper_hex_digit(n % 16)) == n % 16);
    if n >= 16 {
        lemma_hex_upper_facts(n / 16);
        let h = hex_upper(n / 16);
        let d = upper_hex_digit(n % 16);
        assert(hex_upper(n) == h.push(d));
        assert(hex_upper(n).drop_last() =~= h);
        assert forall|i: int| 0 <= i < hex_upper(n).len() implies hex_digit_value(#[trigger] hex_upper(n)[i]) >= 0 by {
            if i < h.len() {
                assert(hex_upper(n)[i] == h[i]);
            }
        }
        assert forall|i: int| 0 <= i < hex_upper(n).len() implies {
            let u = #[trigger] hex_upper(n)[i] as u32;
            (48 <= u <= 57) || (65 <= u <= 70)
        } by {
            if i < h.len() {
                assert(hex_upper(n)[i] == h[i]);
            }
        }
        assert(n == (n / 16) * 16 + n % 16);
        assert(hex_value(hex_upper(n)) == hex_value(h) * 16 + hex_digit_value(d) as nat);
        assert(hex_value(h) == n / 16);
        assert(hex_digit_value(d) == n % 16);
    } else {
        assert(hex_upper(n).drop_last() =~= Seq::<char>::empty());
        assert(hex_value(Seq::<char>::empty()) == 0);
        assert(n % 16 == n);
        assert(hex_value(hex_upper(n)) == hex_digit_value(hex_upper(n).last()) as nat);
    }
}

proof fn lemma_hex_upper_len(n: nat, k: nat)
    requires
        n < pow16(k),
        k >= 1,
    ensures
        hex_upper(n).len() <= k,
    decreases n,
{
    if n >= 16 {
        let k1 = (k - 1) as nat;
        assert(n / 16 < pow16(k1)) by {
            assert(pow16(k) == 16 * pow16(k1));
            assert(n / 16 < pow16(k1)) by (nonlinear_arith)
                requires
                    n < 16 * pow16(k1),
            ;
        }
        if k1 == 0 {
            assert(pow16(0) == 1);
        } else {
            lemma_hex_upper_len(n / 16, k1);
        }
    }
}

/// Reading back what `mask_to_hex` writes gives the mask again.
pub proof fn lemma_mask_hex_roundtrip(mask: u64)
    ensures
        parse_mask_spec(mask_to_hex_spec(mask)) == Some(mask),
{
    let h = hex_upper(mask as nat);
    let s = mask_to_hex_spec(mask);
    lemma_hex_upper_facts(mask as nat);
    lemma_pow16_16();
    lemma_hex_upper_len(mask as nat, 16);
    assert(s[0] == '0');
    assert(!is_white_space(s[0]));
    assert(trim_start_ws(s) == s);
    let l = s.last();
    assert(l == h[h.len() - 1]);
    assert(!is_white_space(l));
    assert(trim_end_ws(s) == s);
    assert(s.subrange(2, s.len() as int) =~= h);
    assert(strip_prefixes(s, '0', 'x') == strip_prefixes(h, '0', 'x'));
    if h.len() >= 2 {
        let u = h[1] as u32;
        assert((48 <= u <= 57) || (65 <= u <= 70));
    }
    assert(strip_prefixes(h, '0', 'x') == h);
    assert(strip_prefixes(h, '0', 'X') == h);
    assert(mask_body(s) == h);
    let u0 = h[0] as u32;
    assert((48 <= u0 <= 57) || (65 <= u0 <= 70));
    assert(mask_digits(h) == h);
}

} // verus!

verus! {

// =========================================================================
// Multi-processor groups
// =========================================================================

/// Number of set bits of `m`.
pub open spec fn popcount(m: nat) -> nat
    decreases m,
{
    if m == 0 { 0 } else { m % 2 + popcount(m / 2) }
}

/// Total number of set bits over a list of masks.
pub open spec fn total_popcount(masks: Seq<u64>) -> nat
    decreases masks.len(),
{
    if masks.len() == 0 { 0 } else { total_popcount(masks.drop_last()) + popcount(masks.last() as nat) }
}

proof fn lemma_popcount_bound(m: nat, k: nat)
    requires
        m < pow2k(k),
    ensures
        popcount(m) <= k,
    decreases m,
{
    if m > 0 {
        assert(k > 0);
        lemma_popcount_bound(m / 2, (k - 1) as nat);
    }
}

pub open spec fn pow2k(k: nat) -> nat
    decreases k,
{
    if k == 0 { 1 } else { 2 * pow2k((k - 1) as nat) }
}

fn count_ones_u64(m: u64) -> (c: u32)
    ensures
        c as nat == popcount(m as nat),
        c <= 64,
{
    let mut x: u64 = m;
    let mut c: u32 = 0;
    proof {
        reveal_with_fuel(pow2k, 65);
        lemma_popcount_bound(m as nat, 64);
    }
    while x != 0
        invariant
            c as nat + popcount(x as nat) == popcount(m as nat),
            popcount(m as nat) <= 64,
        decreases x,
    {
        c = c + (x % 2) as u32;
        x = x / 2;
    }
    c
}

/// The masks of a list of hex texts, one per processor group, if every
/// text parses and the list is not empty.
pub open spec fn parse_mask_list(list: Seq<Seq<char>>) -> Option<Seq<u64>> {
    if list.len() > 0 && forall|i: int| 0 <= i < list.len() ==> #[trigger] parse_mask_spec(list[i]) is Some {
        Some(Seq::new(list.len(), |i: int| parse_mask_spec(list[i])->0))
    } else {
        None
    }
}

/// The character views of a list of strings.
pub open spec fn string_views(v: Seq<String>) -> Seq<Seq<char>> {
    Seq::new(v.len(), |i: int| v[i]@)
}

/// Index of the first text from `i` on that does not parse (the length of
/// the list when all of them do).
pub open spec fn first_bad_mask(views: Seq<Seq<char>>, i: int) -> int
    decreases views.len() - i,
{
    if i < 0 || i >= views.len() {
        views.len() as int
    } else if parse_mask_spec(views[i]) is None {
        i
    } else {
        first_bad_mask(views, i + 1)
    }
}

/// The error text of `GroupMasks::from_hex_list` for a list it refuses:
/// an empty list, or the first mask that does not parse with its group.
pub open spec fn mask_list_error_text(views: Seq<Seq<char>>) -> Seq<char> {
    if views.len() == 0 {
        "group mask list cannot be empty"@
    } else {
        let g = first_bad_mask(views, 0);
        "invalid mask for group "@ + decimal_text(g as nat) + ": "@ + mask_error_text(views[g])
    }
}

proof fn lemma_first_bad_skip(views: Seq<Seq<char>>, j: int, g: int)
    requires
        0 <= j <= g <= views.len(),
        forall|i: int| j <= i < g ==> #[trigger] parse_mask_spec(views[i]) is Some,
    ensures
        first_bad_mask(views, j) == first_bad_mask(views, g),
    decreases g - j,
{
    if j < g {
        lemma_first_bad_skip(views, j + 1, g);
    }
}

/// A set of affinity masks, one per processor group (index = group
/// number). Global LP number = `group * 64 + bit`.
#[derive(Debug)]
pub struct GroupMasks(pub Vec<u64>);

impl GroupMasks {
    /// Single-group constructor.
    pub fn single(mask: u64) -> (g: Self)
        ensures
            g.0@ == seq![mask],
    {
        let mut v: Vec<u64> = Vec::new();
        v.push(mask);
        assert(v@ =~= seq![mask]);
        GroupMasks(v)
    }

    /// No logical processor is selected in any group.
    pub fn is_empty(&self) -> (b: bool)
        ensures
            b == (forall|i: int| 0 <= i < self.0@.len() ==> self.0@[i] == 0),
    {
        let mut i: usize = 0;
        while i < self.0.len()
            invariant
                i <= self.0@.len(),
                forall|k: int| 0 <= k < i ==> self.0@[k] == 0,
            decreases self.0.len() - i,
        {
            if self.0[i] != 0 {
                return false;
            }
            i = i + 1;
        }
        true
    }

    /// Total number of bits set across all groups.
    pub fn total_bits(&self) -> (n: u32)
        requires
            total_popcount(self.0@) <= u32::MAX,
        ensures
            n as nat == total_popcount(self.0@),
    {
        let mut i: usize = 0;
        let mut n: u32 = 0;
        while i < self.0.len()
            invariant
                i <= self.0@.len(),
                n as nat == total_popcount(self.0@.subrange(0, i as int)),
                total_popcount(self.0@) <= u32::MAX,
            decreases self.0.len() - i,
        {
            let c = count_ones_u64(self.0[i]);
            proof {
                assert(self.0@.subrange(0, i + 1).drop_last() =~= self.0@.subrange(0, i as int));
                lemma_total_popcount_prefix(self.0@, i + 1);
            }
            n = n + c;
            i = i + 1;
        }
        assert(self.0@.subrange(0, i as int) =~= self.0@);
        n
    }

    /// Parse from a list of hex strings (list index = group number).
    pub fn from_hex_list(list: &[String]) -> (r: Result<Self, String>)
        ensures
            match parse_mask_list(string_views(list@)) {
                Some(masks) => r is Ok && r->Ok_0.0@ == masks,
                None => r matches Err(e) && e@ == mask_list_error_text(string_views(list@)),
            },
    {
        if list.len() == 0 {
            return Err(String::from_str("group mask list cannot be empty"));
        }
        let mut masks: Vec<u64> = Vec::new();
        let mut g: usize = 0;
        while g < list.len()
            invariant
                g <= list@.len(),
                masks@.len() == g,
                forall|i: int| 0 <= i < g ==> #[trigger] parse_mask_spec(list@[i]@) == Some(masks@[i]),
            decreases list.len() - g,
        {
            match parse_hex_mask(list[g].as_str()) {
                Ok(m) => {
                    masks.push(m);
                },
                Err(e) => {
                    proof {
                        let views = string_views(list@);
                        assert(views[g as int] == list@[g as int]@);
                        assert forall|i: int| 0 <= i < g implies #[trigger] parse_mask_spec(views[i]) is Some by {
                            assert(views[i] == list@[i]@);
                        }
                        lemma_first_bad_skip(views, 0, g as int);
                    }
                    return Err(group_mask_message(g, e));
                },
            }
            g = g + 1;
        }
        proof {
            let views = string_views(list@);
            assert forall|i: int| 0 <= i < views.len() implies #[trigger] parse_mask_spec(views[i]) is Some by {
                assert(views[i] == list@[i]@);
            }
            assert(masks@ =~= Seq::new(views.len(), |i: int| parse_mask_spec(views[i])->0));
        }
        Ok(GroupMasks(masks))
    }

    /// Serialize to a list of hex strings (inverse of `from_hex_list`).
    pub fn to_hex_list(&self) -> (r: Vec<String>)
        ensures
            r@.len() == self.0@.len(),
            forall|i: int| 0 <= i < r@.len() ==> #[trigger] r@[i]@ == mask_to_hex_spec(self.0@[i]),
    {
        let mut r: Vec<String> = Vec::new();
        let mut i: usize = 0;
        while i < self.0.len()
            invariant
                i <= self.0@.len(),
                r@.len() == i,
                forall|k: int| 0 <= k < i ==> #[trigger] r@[k]@ == mask_to_hex_spec(self.0@[k]),
            decreases self.0.len() - i,
        {
            r.push(mask_to_hex(self.0[i]));
            i = i + 1;
        }
        r
    }
}

proof fn lemma_total_popcount_prefix(s: Seq<u64>, k: int)
    requires
        0 < k <= s.len(),
    ensures
        total_popcount(s.subrange(0, k)) == total_popcount(s.subrange(0, k - 1)) + popcount(s[k - 1] as nat),
        total_popcount(s.subrange(0, k)) <= total_popcount(s),
    decreases s.len() - k,
{
    assert(s.subrange(0, k).drop_last() =~= s.subrange(0, k - 1));
    if k < s.len() {
        lemma_total_popcount_prefix(s, k + 1);
    } else {
        assert(s.subrange(0, k) =~= s);
    }
}

/// Hex texts written by `to_hex_list` read back as the same masks.
pub proof fn lemma_group_masks_hex_roundtrip(masks: Seq<u64>)
    requires
        masks.len() > 0,
    ensures
        parse_mask_list(Seq::new(masks.len(), |i: int| mask_to_hex_spec(masks[i]))) == Some(masks),
{
    let list = Seq::new(masks.len(), |i: int| mask_to_hex_spec(masks[i]));
    assert forall|i: int| 0 <= i < list.len() implies #[trigger] parse_mask_spec(list[i]) is Some by {
        lemma_mask_hex_roundtrip(masks[i]);
    }
    assert forall|i: int| 0 <= i < list.len() implies parse_mask_spec(list[i])->0 == masks[i] by {
        lemma_mask_hex_roundtrip(masks[i]);
    }
    assert(Seq::new(list.len(), |i: int| parse_mask_spec(list[i])->0) =~= masks);
}

fn group_mask_message(group: usize, error: String) -> (r: String)
    ensures
        r@ == "invalid mask for group "@ + decimal_text(group as nat) + ": "@ + error@,
{
    let mut out: Vec<char> = Vec::new();
    push_text(&mut out, "invalid mask for group ");
    push_decimal(group as u128, &mut out);
    push_text(&mut out, ": ");
    push_text(&mut out, error.as_str());
    assert(out@ =~= "invalid mask for group "@ + decimal_text(group as nat) + ": "@ + error@);
    string_from_chars(out.as_slice())
}

} // verus!

verus! {

/// Masks fit a processor-group layout: at least one group, no more
/// groups than the system has, no bit outside a group's active logical
/// processors, and at least one bit set overall.
pub open spec fn group_masks_fit(masks: Seq<u64>, counts: Seq<u32>) -> bool {
    &&& masks.len() > 0
    &&& masks.len() <= counts.len()
    &&& forall|g: int| 0 <= g < masks.len() ==> #[trigger] group_mask_fits(masks[g], counts[g])
    &&& exists|g: int| 0 <= g < masks.len() && #[trigger] masks[g] != 0
}

/// One group's mask selects only processors below that group's count.
pub open spec fn group_mask_fits(mask: u64, count: u32) -> bool {
    if count == 0 {
        mask == 0
    } else if count < 64 {
        mask >> count == 0
    } else {
        true
    }
}

/// First group from `g` on whose mask does not fit its processor count
/// (the number of masks when all of them fit).
pub open spec fn first_unfit_group(masks: Seq<u64>, counts: Seq<u32>, g: int) -> int
    decreases masks.len() - g,
{
    if g < 0 || g >= masks.len() {
        masks.len() as int
    } else if !group_mask_fits(masks[g], counts[g]) {
        g
    } else {
        first_unfit_group(masks, counts, g + 1)
    }
}

/// The error text of `validate_group_masks_for_counts` for masks that do
/// not fit: no mask, too many groups, the first group whose mask does not
/// fit, or nothing selected.
pub open spec fn group_masks_error_text(masks: Seq<u64>, counts: Seq<u32>) -> Seq<char> {
    if masks.len() == 0 {
        "group mask list cannot be empty"@
    } else if masks.len() > counts.len() {
        "mask group count "@ + decimal_text(masks.len()) + " exceeds the system processor group count "@
            + decimal_text(counts.len())
    } else {
        let g = first_unfit_group(masks, counts, 0);
        if g < masks.len() {
            if counts[g] == 0 {
                "group "@ + decimal_text(g as nat) + " has no active logical processors"@
            } else {
                "mask for group "@ + decimal_text(g as nat) + " selects logical processors outside its active range (0.."@
                    + decimal_text((counts[g] - 1) as nat) + ")"@
            }
        } else {
            "mask is all zero: select at least one logical processor"@
        }
    }
}

proof fn lemma_first_unfit_skip(masks: Seq<u64>, counts: Seq<u32>, j: int, g: int)
    requires
        0 <= j <= g <= masks.len(),
        forall|i: int| j <= i < g ==> #[trigger] group_mask_fits(masks[i], counts[i]),
    ensures
        first_unfit_group(masks, counts, j) == first_unfit_group(masks, counts, g),
    decreases g - j,
{
    if j < g {
        lemma_first_unfit_skip(masks, counts, j + 1, g);
    }
}

/// Validate masks against a supplied processor-group layout (the active
/// logical processor count of each group).
pub fn validate_group_masks_for_counts(masks: &[u64], active_counts: &[u32]) -> (r: Result<(), String>)
    ensures
        r is Ok <==> group_masks_fit(masks@, active_counts@),
        r matches Err(e) ==> e@ == group_masks_error_text(masks@, active_counts@),
{
    if masks.len() == 0 {
        return Err(String::from_str("group mask list cannot be empty"));
    }
    if masks.len() > active_counts.len() {
        return Err(group_count_message(masks.len(), active_counts.len()));
    }
    let mut group: usize = 0;
    while group < masks.len()
        invariant
            masks@.len() <= active_counts@.len(),
            group <= masks@.len(),
            forall|g: int| 0 <= g < group ==> #[trigger] group_mask_fits(masks@[g], active_counts@[g]),
        decreases masks.len() - group,
    {
        let count = active_counts[group];
        let mask = masks[group];
        if count == 0 {
            if mask != 0 {
                assert(!group_mask_fits(masks@[group as int], active_counts@[group as int]));
                proof {
                    lemma_first_unfit_skip(masks@, active_counts@, 0, group as int);
                }
                return Err(inactive_group_message(group));
            }
        } else if count < 64 && (mask >> count) != 0 {
            assert(!group_mask_fits(masks@[group as int], active_counts@[group as int]));
            proof {
                lemma_first_unfit_skip(masks@, active_counts@, 0, group as int);
            }
            return Err(group_range_message(group, count));
        }
        group = group + 1;
    }
    proof {
        lemma_first_unfit_skip(masks@, active_counts@, 0, masks@.len() as int);
    }
    let mut g: usize = 0;
    while g < masks.len()
        invariant
            g <= masks@.len(),
            forall|k: int| 0 <= k < g ==> masks@[k] == 0,
            masks@.len() > 0,
            masks@.len() <= active_counts@.len(),
            forall|k: int| 0 <= k < masks@.len() ==> #[trigger] group_mask_fits(masks@[k], active_counts@[k]),
        decreases masks.len() - g,
    {
        if masks[g] != 0 {
            assert(masks@[g as int] != 0);
            return Ok(());
        }
        g = g + 1;
    }
    Err(String::from_str("mask is all zero: select at least one logical processor"))
}

fn group_count_message(groups: usize, system_groups: usize) -> (r: String)
    ensures
        r@ == "mask group count "@ + decimal_text(groups as nat) + " exceeds the system processor group count "@
            + decimal_text(system_groups as nat),
{
    let mut out: Vec<char> = Vec::new();
    push_text(&mut out, "mask group count ");
    push_decimal(groups as u128, &mut out);
    push_text(&mut out, " exceeds the system processor group count ");
    push_decimal(system_groups as u128, &mut out);
    assert(out@ =~= "mask group count "@ + decimal_text(groups as nat) + " exceeds the system processor group count "@
        + decimal_text(system_groups as nat));
    string_from_chars(out.as_slice())
}

fn inactive_group_message(group: usize) -> (r: String)
    ensures
        r@ == "group "@ + decimal_text(group as nat) + " has no active logical processors"@,
{
    let mut out: Vec<char> = Vec::new();
    push_text(&mut out, "group ");
    push_decimal(group as u128, &mut out);
    push_text(&mut out, " has no active logical processors");
    assert(out@ =~= "group "@ + decimal_text(group as nat) + " has no active logical processors"@);
    string_from_chars(out.as_slice())
}

fn group_range_message(group: usize, count: u32) -> (r: String)
    requires
        count > 0,
    ensures
        r@ == "mask for group "@ + decimal_text(group as nat) + " selects logical processors outside its active range (0.."@
            + decimal_text((count - 1) as nat) + ")"@,
{
    let mut out: Vec<char> = Vec::new();
    push_text(&mut out, "mask for group ");
    push_decimal(group as u128, &mut out);
    push_text(&mut out, " selects logical processors outside its active range (0..");
    push_decimal((count - 1) as u128, &mut out);
    push_text(&mut out, ")");
    assert(out@ =~= "mask for group "@ + decimal_text(group as nat) + " selects logical processors outside its active range (0.."@
        + decimal_text((count - 1) as nat) + ")"@);
    string_from_chars(out.as_slice())
}

// =========================================================================
// Priority classes
// =========================================================================

/// Snapshot of the three priority classes (None = unknown / unreadable).
#[derive(Clone, Copy, Debug, PartialEq, Eq, Structural)]
pub struct ProcessPriorities {
    /// Raw CPU priority class value (0x40 Idle, 0x4000 BelowNormal, 0x20
    /// Normal, 0x8000 AboveNormal, 0x80 High, 0x100 Realtime).
    pub priority_class: Option<u32>,
    /// IO priority (0 Very Low, 1 Low, 2 Normal, 3 High).
    pub io_priority: Option<u32>,
    /// Memory priority (1 Very Low ... 5 Normal).
    pub memory_priority: Option<u32>,
}

impl ProcessPriorities {
    /// All three values unknown.
    pub fn unknown() -> (p: Self)
        ensures
            p.priority_class is None,
            p.io_priority is None,
            p.memory_priority is None,
    {
        ProcessPriorities { priority_class: None, io_priority: None, memory_priority: None }
    }
}

/// Scheduling-order rank of a CPU priority class (0 = Idle ... 5 =
/// Realtime). The class constants are bit flags whose numeric order is not
/// the scheduling order; unknown values have no rank.
pub open spec fn spec_priority_class_rank(class: u32) -> Option<u8> {
    if class == 0x40 {
        Some(0)
    } else if class == 0x4000 {
        Some(1)
    } else if class == 0x20 {
        Some(2)
    } else if class == 0x8000 {
        Some(3)
    } else if class == 0x80 {
        Some(4)
    } else if class == 0x100 {
        Some(5)
    } else {
        None
    }
}

pub fn priority_class_rank(class: u32) -> (r: Option<u8>)
    ensures
        r == spec_priority_class_rank(class),
{
    match class {
        0x40 => Some(0),
        0x4000 => Some(1),
        0x20 => Some(2),
        0x8000 => Some(3),
        0x80 => Some(4),
        0x100 => Some(5),
        _ => None,
    }
}

// =========================================================================
// CPU Sets (soft mode)
// =========================================================================

/// One system CPU Set: its processor group, group-local LP index and ID.
#[derive(Clone, Copy, Debug)]
pub struct CpuSetEntry {
    pub group: u16,
    pub lp_index: u8,
    pub id: u32,
}

/// The entry's group has a mask and that mask has the entry's LP bit.
pub open spec fn cpu_set_selected(masks: Seq<u64>, e: CpuSetEntry) -> bool {
    (e.group as int) < masks.len() && masks[e.group as int] & (1u64 << e.lp_index) != 0
}

/// IDs of the selected entries, in entry order.
pub open spec fn selected_cpu_set_ids(masks: Seq<u64>, entries: Seq<CpuSetEntry>) -> Seq<u32>
    decreases entries.len(),
{
    if entries.len() == 0 {
        Seq::empty()
    } else {
        let rest = selected_cpu_set_ids(masks, entries.drop_last());
        if cpu_set_selected(masks, entries.last()) {
            rest.push(entries.last().id)
        } else {
            rest
        }
    }
}

/// Every entry whose group has a mask has an LP index below 64.
pub open spec fn cpu_set_entries_in_range(masks: Seq<u64>, entries: Seq<CpuSetEntry>) -> bool {
    forall|i: int| 0 <= i < entries.len() && (#[trigger] entries[i]).group < masks.len() ==> entries[i].lp_index < 64
}

/// Map per-group masks to CPU Set IDs. The group is checked before the
/// group-local bit, so the same LP index in two groups stays distinct.
pub fn cpu_set_ids_for_group_masks_from_entries(masks: &[u64], entries: &[CpuSetEntry]) -> (ids: Vec<u32>)
    requires
        cpu_set_entries_in_range(masks@, entries@),
    ensures
        ids@ == selected_cpu_set_ids(masks@, entries@),
{
    let mut ids: Vec<u32> = Vec::new();
    let mut i: usize = 0;
    while i < entries.len()
        invariant
            i <= entries@.len(),
            cpu_set_entries_in_range(masks@, entries@),
            ids@ == selected_cpu_set_ids(masks@, entries@.subrange(0, i as int)),
        decreases entries.len() - i,
    {
        let e = entries[i];
        proof {
            assert(entries@.subrange(0, i + 1).drop_last() =~= entries@.subrange(0, i as int));
            assert(entries@.subrange(0, i + 1).last() == e);
        }
        if (e.group as usize) < masks.len() {
            assert(entries@[i as int].group < masks@.len());
            if masks[e.group as usize] & (1u64 << e.lp_index) != 0 {
                ids.push(e.id);
            }
        }
        i = i + 1;
    }
    assert(entries@.subrange(0, i as int) =~= entries@);
    ids
}

/// Whether the system reported any CPU Sets (without them soft rules fall
/// back to the hard mask).
pub fn cpu_sets_available(entries: &[CpuSetEntry]) -> (b: bool)
    ensures
        b == (entries@.len() > 0),
{
    entries.len() > 0
}

/// Per-group masks to CPU Set IDs: an error when the system has no CPU
/// Sets, or when the masks select none of them.
pub fn cpu_set_ids_for_group_masks(masks: &[u64], entries: &[CpuSetEntry]) -> (r: Result<Vec<u32>, String>)
    requires
        cpu_set_entries_in_range(masks@, entries@),
    ensures
        entries@.len() == 0 ==> (r matches Err(e) && e@ == "system does not support CPU Sets (requires Windows 10 1803+)"@),
        entries@.len() > 0 ==> match r {
            Ok(ids) => ids@ == selected_cpu_set_ids(masks@, entries@) && ids@.len() > 0,
            Err(e) => selected_cpu_set_ids(masks@, entries@).len() == 0 && e@ == "selected masks contain no CPU Sets"@,
        },
{
    if entries.len() == 0 {
        return Err(String::from_str("system does not support CPU Sets (requires Windows 10 1803+)"));
    }
    let ids = cpu_set_ids_for_group_masks_from_entries(masks, entries);
    if ids.len() == 0 {
        return Err(String::from_str("selected masks contain no CPU Sets"));
    }
    Ok(ids)
}

/// A single group-0 mask to CPU Set IDs.
pub fn cpu_set_ids_for_mask(mask: u64, entries: &[CpuSetEntry]) -> (r: Result<Vec<u32>, String>)
    requires
        cpu_set_entries_in_range(seq![mask], entries@),
    ensures
        entries@.len() == 0 ==> (r matches Err(e) && e@ == "system does not support CPU Sets (requires Windows 10 1803+)"@),
        entries@.len() > 0 ==> match r {
            Ok(ids) => ids@ == selected_cpu_set_ids(seq![mask], entries@) && ids@.len() > 0,
            Err(e) => selected_cpu_set_ids(seq![mask], entries@).len() == 0 && e@ == "selected masks contain no CPU Sets"@,
        },
{
    let masks = [mask];
    assert(masks@ =~= seq![mask]);
    cpu_set_ids_for_group_masks(&masks, entries)
}

// =========================================================================
// Process entries
// =========================================================================

/// Process entry needed by the rule engine.
#[derive(Debug)]
pub struct ProcessEntry {
    pub pid: u32,
    /// Executable file name (e.g. "codex.exe").
    pub name: String,
    /// Full executable path, when it was resolved.
    pub path: Option<String>,
}

/// The last segment of a path split at `\` and `/`.
pub open spec fn last_path_segment(path: Seq<char>) -> Seq<char>
    decreases path.len(),
{
    if path.len() == 0 {
        path
    } else if path.last() == '\\' || path.last() == '/' {
        Seq::empty()
    } else {
        last_path_segment(path.drop_last()).push(path.last())
    }
}

/// Executable name of an image path: the text after the last `\` or `/`
/// (the whole path when it has none). Used to check that a PID still
/// belongs to the same program before writing back priorities.
pub fn image_file_name(path: &str) -> (name: String)
    ensures
        name@ == last_path_segment(path@),
{
    let v = chars_of(path);
    let mut start: usize = v.len();
    assert(v@.subrange(0, v@.len() as int) =~= v@);
    assert(v@.subrange(v@.len() as int, v@.len() as int) =~= Seq::<char>::empty());
    assert(last_path_segment(v@) + Seq::<char>::empty() =~= last_path_segment(v@));
    while start > 0 && v[start - 1] != '\\' && v[start - 1] != '/'
        invariant
            start <= v@.len(),
            v@ == path@,
            last_path_segment(v@) == last_path_segment(v@.subrange(0, start as int)) + v@.subrange(start as int, v@.len() as int),
        decreases start,
    {
        let ghost pre = v@.subrange(0, start as int);
        proof {
            assert(pre.drop_last() =~= v@.subrange(0, start - 1));
            assert(last_path_segment(pre) == last_path_segment(pre.drop_last()).push(pre.last()));
            assert(v@.subrange(start - 1, v@.len() as int) =~= seq![pre.last()] + v@.subrange(start as int, v@.len() as int));
            assert(last_path_segment(pre.drop_last()).push(pre.last()) + v@.subrange(start as int, v@.len() as int)
                =~= last_path_segment(pre.drop_last()) + v@.subrange(start - 1, v@.len() as int));
        }
        start = start - 1;
    }
    let mut out: Vec<char> = Vec::new();
    let mut i: usize = start;
    while i < v.len()
        invariant
            start <= i <= v@.len(),
            out@ == v@.subrange(start as int, i as int),
        decreases v.len() - i,
    {
        out.push(v[i]);
        i = i + 1;
        assert(out@ =~= v@.subrange(start as int, i as int));
    }
    proof {
        let pre = v@.subrange(0, start as int);
        assert(v@.subrange(0, v@.len() as int) =~= v@);
        if start > 0 {
            assert(pre.last() == v@[start - 1]);
        }
        assert(last_path_segment(pre) =~= Seq::<char>::empty());
        assert(out@ =~= last_path_segment(v@));
    }
    string_from_chars(out.as_slice())
}


// =========================================================================
// Priority writes
// =========================================================================

/// Which of the three priorities a write sets.
#[derive(Clone, Copy, Debug, PartialEq, Eq, Structural)]
pub enum PriorityKind {
    Class,
    Io,
    Memory,
}

pub open spec fn opt_write(kind: PriorityKind, v: Option<u32>) -> Seq<(PriorityKind, u32)> {
    match v {
        Some(x) => seq![(kind, x)],
        None => Seq::empty(),
    }
}

/// The writes for a requested priority change, in the order they are made:
/// CPU class, then IO, then memory; only the values that are given.
pub open spec fn priority_writes_spec(pc: Option<u32>, io: Option<u32>, mp: Option<u32>) -> Seq<(PriorityKind, u32)> {
    opt_write(PriorityKind::Class, pc) + opt_write(PriorityKind::Io, io) + opt_write(PriorityKind::Memory, mp)
}

/// The writes for a requested priority change (each is independent; the
/// caller stops at the first that fails).
pub fn priority_writes(pc: Option<u32>, io: Option<u32>, mp: Option<u32>) -> (w: Vec<(PriorityKind, u32)>)
    ensures
        w@ == priority_writes_spec(pc, io, mp),
{
    let mut w: Vec<(PriorityKind, u32)> = Vec::new();
    if let Some(v) = pc {
        w.push((PriorityKind::Class, v));
    }
    let ghost a = w@;
    assert(a =~= opt_write(PriorityKind::Class, pc));
    if let Some(v) = io {
        w.push((PriorityKind::Io, v));
    }
    let ghost b = w@;
    assert(b =~= a + opt_write(PriorityKind::Io, io));
    if let Some(v) = mp {
        w.push((PriorityKind::Memory, v));
    }
    assert(w@ =~= b + opt_write(PriorityKind::Memory, mp));
    w
}

// =========================================================================
// Strict affinity across processor groups
// =========================================================================

/// The masks extended to every system group (missing groups select
/// nothing).
pub fn full_group_masks(masks: &[u64], group_count: usize) -> (full: Vec<u64>)
    requires
        masks@.len() <= group_count,
    ensures
        full@.len() == group_count,
        forall|g: int| 0 <= g < group_count ==> #[trigger] full@[g] == (if g < masks@.len() { masks@[g] } else { 0 }),
{
    let mut full: Vec<u64> = Vec::new();
    let mut g: usize = 0;
    while g < group_count
        invariant
            masks@.len() <= group_count,
            g <= group_count,
            full@.len() == g,
            forall|k: int| 0 <= k < g ==> #[trigger] full@[k] == (if k < masks@.len() { masks@[k] } else { 0 }),
        decreases group_count - g,
    {
        if g < masks.len() {
            full.push(masks[g]);
        } else {
            full.push(0);
        }
        g = g + 1;
    }
    full
}

/// Index of the first group with a nonzero mask.
pub open spec fn first_nonzero_group(full: Seq<u64>) -> Option<int> {
    if exists|g: int| 0 <= g < full.len() && full[g] != 0 {
        Some(choose|g: int| 0 <= g < full.len() && full[g] != 0 && forall|k: int| 0 <= k < g ==> full[k] == 0)
    } else {
        None
    }
}

/// The group a thread is moved to: its current group when that group has
/// selected processors, otherwise the first group that has some (Task
/// Manager's semantics on systems with more than 64 processors).
pub open spec fn thread_target_group_spec(full: Seq<u64>, current: Option<u16>) -> Option<int> {
    match current {
        Some(g) if (g as int) < full.len() && full[g as int] != 0 => Some(g as int),
        _ => first_nonzero_group(full),
    }
}

/// The group a thread is moved to (None when no group selects anything).
pub fn thread_target_group(full: &[u64], current: Option<u16>) -> (r: Option<u16>)
    requires
        full@.len() <= 0x10000,
    ensures
        match thread_target_group_spec(full@, current) {
            Some(g) => r == Some(g as u16),
            None => r is None,
        },
{
    if let Some(g) = current {
        if (g as usize) < full.len() && full[g as usize] != 0 {
            return Some(g);
        }
    }
    let mut i: usize = 0;
    while i < full.len()
        invariant
            i <= full@.len(),
            full@.len() <= 0x10000,
            forall|k: int| 0 <= k < i ==> full@[k] == 0,
            thread_target_group_spec(full@, current) == first_nonzero_group(full@),
        decreases full.len() - i,
    {
        if full[i] != 0 {
            proof {
                assert(0 <= i < full@.len() && full@[i as int] != 0);
                let c = choose|g: int| 0 <= g < full@.len() && full@[g] != 0 && forall|k: int| 0 <= k < g ==> full@[k] == 0;
                assert(c == i) by {
                    if c < i {
                        assert(full@[c] == 0);
                    } else if c > i {
                        assert(full@[i as int] == 0);
                    }
                }
            }
            return Some(i as u16);
        }
        i = i + 1;
    }
    None
}

/// The outcome of a strict per-thread application: an error when the
/// process has no thread, or when every thread failed; partial failures
/// (a thread racing the snapshot) still count as applied.
pub fn strict_threads_outcome(pid: u32, total_threads: usize, failed: usize) -> (r: Result<(), String>)
    requires
        failed <= total_threads,
    ensures
        r is Ok <==> failed < total_threads,
        total_threads == 0 ==> (r matches Err(e) && e@ == "process "@ + decimal_text(pid as nat) + " has no enumerable threads"@),
        0 < total_threads && failed == total_threads ==> (r matches Err(e)
            && e@ == "SetThreadGroupAffinity failed for all threads (PID "@ + decimal_text(pid as nat) + ")"@),
{
    if total_threads == 0 {
        return Err(no_threads_message(pid));
    }
    if failed == total_threads {
        return Err(all_threads_failed_message(pid));
    }
    Ok(())
}

fn no_threads_message(pid: u32) -> (r: String)
    ensures
        r@ == "process "@ + decimal_text(pid as nat) + " has no enumerable threads"@,
{
    let mut out: Vec<char> = Vec::new();
    push_text(&mut out, "process ");
    push_decimal(pid as u128, &mut out);
    push_text(&mut out, " has no enumerable threads");
    assert(out@ =~= "process "@ + decimal_text(pid as nat) + " has no enumerable threads"@);
    string_from_chars(out.as_slice())
}

fn all_threads_failed_message(pid: u32) -> (r: String)
    ensures
        r@ == "SetThreadGroupAffinity failed for all threads (PID "@ + decimal_text(pid as nat) + ")"@,
{
    let mut out: Vec<char> = Vec::new();
    push_text(&mut out, "SetThreadGroupAffinity failed for all threads (PID ");
    push_decimal(pid as u128, &mut out);
    push_text(&mut out, ")");
    assert(out@ =~= "SetThreadGroupAffinity failed for all threads (PID "@ + decimal_text(pid as nat) + ")"@);
    string_from_chars(out.as_slice())
}

/// Add one thread's group affinity into per-group masks (groups beyond the
/// list are ignored).
pub fn merge_thread_affinity(masks: &mut Vec<u64>, group: u16, mask: u64)
    ensures
        final(masks)@.len() == old(masks)@.len(),
        forall|g: int| 0 <= g < old(masks)@.len() ==> #[trigger] final(masks)@[g]
            == (if g == group as int { old(masks)@[g] | mask } else { old(masks)@[g] }),
{
    if (group as usize) < masks.len() {
        let v = masks[group as usize] | mask;
        masks.set(group as usize, v);
    }
}

/// Mask of all logical processors of a group with `count` of them.
pub open spec fn group_system_mask_spec(count: u32) -> u64 {
    if count >= 64 { u64::MAX } else { ((1u64 << count) - 1) as u64 }
}

/// Mask of all logical processors of a group with `count` of them.
pub fn group_system_mask(count: u32) -> (m: u64)
    ensures
        m == group_system_mask_spec(count),
        count < 64 ==> m as nat == pow2k(count as nat) - 1,
{
    if count >= 64 {
        u64::MAX
    } else {
        proof {
            lemma_shl_pow2(count as u64);
        }
        (1u64 << count) - 1
    }
}

proof fn lemma_shl_pow2(c: u64)
    requires
        c < 64,
    ensures
        (1u64 << c) as nat == pow2k(c as nat),
        (1u64 << c) >= 1,
    decreases c,
{
    if c == 0 {
        assert(1u64 << 0u64 == 1u64) by (bit_vector);
    } else {
        lemma_shl_pow2((c - 1) as u64);
        let d = (c - 1) as u64;
        assert(1u64 << c == (1u64 << d) * 2) by (bit_vector)
            requires
                c < 64,
                d == c - 1,
        ;
    }
}

// =========================================================================
// Scheduling mode
// =========================================================================

/// What to do after a soft (CPU Sets) attempt.
#[derive(Debug)]
pub enum SoftAttempt {
    /// The CPU Sets were applied.
    Applied,
    /// The attempt failed on a system that has CPU Sets: report the error.
    Failed(String),
    /// The system has no CPU Sets: apply the hard mask instead.
    FallBackToStrict,
}

/// Soft mode falls back to the hard mask only when the system has no CPU
/// Sets (before Windows 10 1803); otherwise the soft result stands.
pub fn soft_attempt_outcome(soft: Result<(), String>, cpu_sets_available: bool) -> (r: SoftAttempt)
    ensures
        soft is Ok ==> r is Applied,
        soft matches Err(e) ==> (if cpu_sets_available { r == SoftAttempt::Failed(e) } else { r is FallBackToStrict }),
{
    match soft {
        Ok(()) => SoftAttempt::Applied,
        Err(e) => {
            if cpu_sets_available {
                SoftAttempt::Failed(e)
            } else {
                SoftAttempt::FallBackToStrict
            }
        },
    }
}

/// The `(group, LP index)` location of each CPU Set ID that the system
/// knows (unknown IDs are skipped).
pub open spec fn cpu_set_locations_spec(ids: Seq<u32>, entries: Seq<CpuSetEntry>) -> Seq<(u16, u8)>
    decreases ids.len(),
{
    if ids.len() == 0 {
        Seq::empty()
    } else {
        let rest = cpu_set_locations_spec(ids.drop_last(), entries);
        match first_entry_with_id(entries, ids.last()) {
            Some(e) => rest.push((e.group, e.lp_index)),
            None => rest,
        }
    }
}

/// The first entry with the given ID.
pub open spec fn first_entry_with_id(entries: Seq<CpuSetEntry>, id: u32) -> Option<CpuSetEntry>
    decreases entries.len(),
{
    if entries.len() == 0 {
        None
    } else if entries[0].id == id {
        Some(entries[0])
    } else {
        first_entry_with_id(entries.drop_first(), id)
    }
}

fn find_cpu_set(entries: &[CpuSetEntry], id: u32) -> (r: Option<CpuSetEntry>)
    ensures
        r == first_entry_with_id(entries@, id),
{
    let mut i: usize = 0;
    assert(entries@.subrange(0, entries@.len() as int) =~= entries@);
    while i < entries.len()
        invariant
            i <= entries@.len(),
            first_entry_with_id(entries@, id) == first_entry_with_id(entries@.subrange(i as int, entries@.len() as int), id),
        decreases entries.len() - i,
    {
        assert(entries@.subrange(i as int, entries@.len() as int).drop_first() =~= entries@.subrange(i + 1, entries@.len() as int));
        if entries[i].id == id {
            return Some(entries[i]);
        }
        i = i + 1;
    }
    None
}

/// Locations of a process's default CPU Sets, in the order reported.
pub fn cpu_set_locations(ids: &[u32], entries: &[CpuSetEntry]) -> (r: Vec<(u16, u8)>)
    ensures
        r@ == cpu_set_locations_spec(ids@, entries@),
{
    let mut out: Vec<(u16, u8)> = Vec::new();
    let mut i: usize = 0;
    while i < ids.len()
        invariant
            i <= ids@.len(),
            out@ == cpu_set_locations_spec(ids@.subrange(0, i as int), entries@),
        decreases ids.len() - i,
    {
        proof {
            let sub = ids@.subrange(0, i + 1);
            assert(sub.drop_last() =~= ids@.subrange(0, i as int));
            assert(sub.last() == ids@[i as int]);
        }
        if let Some(e) = find_cpu_set(entries, ids[i]) {
            out.push((e.group, e.lp_index));
        }
        i = i + 1;
    }
    assert(ids@.subrange(0, i as int) =~= ids@);
    out
}


/// `str::trim`: the text without leading and trailing whitespace.
pub fn trim_text(s: &str) -> (r: String)
    ensures
        r@ == trim_ws(s@),
{
    let v = chars_of(s);
    let n = v.len();
    let i = skip_ws_start(&v, n);
    let j = skip_ws_end(&v, i, n);
    proof {
        assert(v@.subrange(0, n as int) =~= v@);
    }
    let mut out: Vec<char> = Vec::new();
    let mut k: usize = i;
    while k < j
        invariant
            i <= k <= j <= v@.len(),
            out@ == v@.subrange(i as int, k as int),
        decreases j - k,
    {
        out.push(v[k]);
        k = k + 1;
        assert(out@ =~= v@.subrange(i as int, k as int));
    }
    string_from_chars(out.as_slice())
}

} // verus!
