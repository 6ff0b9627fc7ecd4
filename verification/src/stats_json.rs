//! The persisted daily-stats payload: a JSON array of
//! `{"date":"<day>","playtime":<seconds>}` objects. A malformed payload
//! is rejected loudly rather than silently dropping data.
//!
//! Both directions are the crate's own verified logic: `json_of_list`
//! is the exact byte-level form a list serializes to — compact, with
//! quotes, backslashes and control characters escaped — and the `sp_*`
//! spec functions are the grammar the parser decides: the usual JSON
//! freedoms of whitespace between tokens and the standard string
//! escapes (`\"`, `\\`, `\/`, `\b`, `\f`, `\n`, `\r`, `\t`,
//! `\uXXXX` for a non-surrogate code unit) are admitted, and digit
//! runs may carry leading zeros. Deliberately not admitted: the two
//! object members in any order but the written one, unknown members,
//! surrogate-pair escapes for characters beyond the basic plane, and
//! numbers outside `i32` — the store itself never writes any of these.
//! `lemma_payload_roundtrip` proves the parser reads back exactly what
//! the serializer wrote.

use vstd::prelude::*;
use crate::errors::BackupError;
use crate::numfmt::{
    dec_str, dec_str_signed, digits_val, is_dec_digit, digit_val, push_dec_i64,
    lemma_digits_val_prefix_le,
};
use crate::stats::{DailyStats, daily_views};
use crate::textutil::{str_chars, string_from_chars};

verus! {

// ---------------------------------------------------------------------
// The serialized form.
// ---------------------------------------------------------------------
/// The lowercase hex digit character for a nibble.
pub open spec fn hex_digit_char(n: nat) -> char {
    if n == 0 { '0' }
    else if n == 1 { '1' }
    else if n == 2 { '2' }
    else if n == 3 { '3' }
    else if n == 4 { '4' }
    else if n == 5 { '5' }
    else if n == 6 { '6' }
    else if n == 7 { '7' }
    else if n == 8 { '8' }
    else if n == 9 { '9' }
    else if n == 10 { 'a' }
    else if n == 11 { 'b' }
    else if n == 12 { 'c' }
    else if n == 13 { 'd' }
    else if n == 14 { 'e' }
    else { 'f' }
}

/// Whether `c` is a hexadecimal digit, either case.
pub open spec fn is_hex_digit(c: char) -> bool {
    ('0' <= c && c <= '9') || ('a' <= c && c <= 'f') || ('A' <= c && c <= 'F')
}

/// The numeric value of a hexadecimal digit character.
pub open spec fn hex_val(c: char) -> nat {
    if '0' <= c && c <= '9' {
        (c as u32 - '0' as u32) as nat
    } else if 'a' <= c && c <= 'f' {
        (c as u32 - 'a' as u32 + 10) as nat
    } else {
        (c as u32 - 'A' as u32 + 10) as nat
    }
}

/// How one character of a date string is written inside a JSON string:
/// quotes and backslashes gain a backslash escape, control characters
/// become `\u00XX` as JSON requires, everything else is written as
/// itself.
pub open spec fn esc_char(c: char) -> Seq<char> {
    if c == '"' {
        seq!['\\', '"']
    } else if c == '\\' {
        seq!['\\', '\\']
    } else if (c as u32) < 0x20 {
        seq!['\\', 'u', '0', '0', hex_digit_char(((c as u32) / 16) as nat), hex_digit_char(
            ((c as u32) % 16) as nat,
        )]
    } else {
        seq![c]
    }
}

/// A date string's characters, escaped.
pub open spec fn json_escaped(s: Seq<char>) -> Seq<char>
    decreases s.len(),
{
    if s.len() == 0 {
        Seq::<char>::empty()
    } else {
        json_escaped(s.drop_last()) + esc_char(s.last())
    }
}

/// One serialized entry: `{"date":"<escaped>","playtime":<n>}`.
pub open spec fn json_of_entry(e: (Seq<char>, int)) -> Seq<char> {
    "{\"date\":\""@ + json_escaped(e.0) + "\",\"playtime\":"@ + dec_str_signed(e.1) + "}"@
}

/// The entries, comma-separated.
pub open spec fn json_items(l: Seq<(Seq<char>, int)>) -> Seq<char>
    decreases l.len(),
{
    if l.len() == 0 {
        Seq::<char>::empty()
    } else if l.len() == 1 {
        json_of_entry(l[0])
    } else {
        json_items(l.drop_last()) + seq![','] + json_of_entry(l.last())
    }
}

/// The whole payload: the entries inside square brackets.
pub open spec fn json_of_list(l: Seq<(Seq<char>, int)>) -> Seq<char> {
    "["@ + json_items(l) + "]"@
}

// ---------------------------------------------------------------------
// The serializer.
// ---------------------------------------------------------------------
/// Appends all of `s` to `out`.
fn push_all(out: &mut Vec<char>, s: &Vec<char>)
    ensures
        final(out)@ == old(out)@ + s@,
{
    let mut i: usize = 0;
    while i < s.len()
        invariant
            i <= s@.len(),
            out@ == old(out)@ + s@.take(i as int),
        decreases s@.len() - i,
    {
        out.push(s[i]);
        i = i + 1;
        assert(old(out)@ + s@.take(i as int) =~= (old(out)@ + s@.take(i - 1 as int)).push(
            s@[i - 1],
        ));
    }
    assert(old(out)@ + s@.take(s@.len() as int) =~= old(out)@ + s@);
}

/// The lowercase hex digit character for a nibble.
fn hex_char(d: u32) -> (c: char)
    requires
        d < 16,
    ensures
        c == hex_digit_char(d as nat),
{
    match d {
        0 => '0',
        1 => '1',
        2 => '2',
        3 => '3',
        4 => '4',
        5 => '5',
        6 => '6',
        7 => '7',
        8 => '8',
        9 => '9',
        10 => 'a',
        11 => 'b',
        12 => 'c',
        13 => 'd',
        14 => 'e',
        _ => 'f',
    }
}

/// Appends the escaped form of a date string to `out`.
fn push_escaped(out: &mut Vec<char>, s: &Vec<char>)
    ensures
        final(out)@ == old(out)@ + json_escaped(s@),
{
    let mut i: usize = 0;
    while i < s.len()
        invariant
            i <= s@.len(),
            out@ == old(out)@ + json_escaped(s@.take(i as int)),
        decreases s@.len() - i,
    {
        let c = s[i];
        if c == '"' {
            out.push('\\');
            out.push('"');
        } else if c == '\\' {
            out.push('\\');
            out.push('\\');
        } else if (c as u32) < 0x20 {
            out.push('\\');
            out.push('u');
            out.push('0');
            out.push('0');
            out.push(hex_char((c as u32) / 16));
            out.push(hex_char((c as u32) % 16));
        } else {
            out.push(c);
        }
        i = i + 1;
        proof {
            let t = s@.take(i as int);
            assert(t.drop_last() =~= s@.take(i - 1 as int));
            assert(t.last() == s@[i - 1]);
            assert(json_escaped(t) == json_escaped(s@.take(i - 1 as int)) + esc_char(s@[i - 1]));
            assert(out@ =~= old(out)@ + json_escaped(t));
        }
    }
    assert(s@.take(s@.len() as int) =~= s@);
}

/// Appends one serialized entry to `out`.
fn push_entry(out: &mut Vec<char>, d: &DailyStats)
    ensures
        final(out)@ == old(out)@ + json_of_entry(d@),
{
    let head = str_chars("{\"date\":\"");
    push_all(out, &head);
    let date_chars = str_chars(d.date.as_str());
    push_escaped(out, &date_chars);
    let mid = str_chars("\",\"playtime\":");
    push_all(out, &mid);
    push_dec_i64(d.playtime as i64, out);
    out.push('}');
    proof {
        assert("}"@ =~= seq!['}']) by {
            reveal_strlit("}");
        }
        assert(out@ =~= old(out)@ + json_of_entry(d@));
    }
}

/// Serializes a daily-stats list to its compact JSON payload, the exact
/// form `json_of_list` describes.
pub fn serialize_daily_stats(l: &Vec<DailyStats>) -> (r: String)
    ensures
        r@ == json_of_list(daily_views(l@)),
{
    let ghost views = daily_views(l@);
    let mut out: Vec<char> = Vec::new();
    out.push('[');
    let mut i: usize = 0;
    while i < l.len()
        invariant
            i <= l@.len(),
            views == daily_views(l@),
            out@ == seq!['['] + json_items(views.take(i as int)),
        decreases l@.len() - i,
    {
        if i > 0 {
            out.push(',');
        }
        push_entry(&mut out, &l[i]);
        i = i + 1;
        proof {
            let t = views.take(i as int);
            assert(t.drop_last() =~= views.take(i - 1 as int));
            assert(t.last() == views[i - 1]);
            assert(l@[i - 1]@ == views[i - 1]);
            if i == 1 {
                assert(json_items(t) == json_of_entry(t[0]));
                assert(out@ =~= seq!['['] + json_items(t));
            } else {
                assert(json_items(t) == json_items(views.take(i - 1 as int)) + seq![',']
                    + json_of_entry(views[i - 1]));
                assert(out@ =~= seq!['['] + json_items(t));
            }
        }
    }
    out.push(']');
    proof {
        assert(views.take(views.len() as int) =~= views);
        assert("["@ =~= seq!['[']) by {
            reveal_strlit("[");
        }
        assert("]"@ =~= seq![']']) by {
            reveal_strlit("]");
        }
        assert(out@ =~= json_of_list(views));
    }
    string_from_chars(&out)
}


// ---------------------------------------------------------------------
// The grammar the parser decides.
// ---------------------------------------------------------------------
/// Whether `lit` occurs in `s` at position `i`.
pub open spec fn lit_at(s: Seq<char>, i: int, lit: Seq<char>) -> bool {
    0 <= i && i + lit.len() <= s.len() && s.subrange(i, i + lit.len() as int) == lit
}

/// Whether `c` is JSON inter-token whitespace.
pub open spec fn is_json_ws(c: char) -> bool {
    c == ' ' || c == '\t' || c == '\n' || c == '\r'
}

/// The first non-whitespace position at or after `i`.
pub open spec fn sp_ws(s: Seq<char>, i: int) -> int
    decreases s.len() - i,
{
    if 0 <= i < s.len() && is_json_ws(s[i]) {
        sp_ws(s, i + 1)
    } else {
        i
    }
}

/// The character a single-letter JSON escape decodes to, if any.
pub open spec fn simple_escape(c: char) -> Option<char> {
    if c == '"' {
        Some('"')
    } else if c == '\\' {
        Some('\\')
    } else if c == '/' {
        Some('/')
    } else if c == 'b' {
        Some('\u{0008}')
    } else if c == 'f' {
        Some('\u{000C}')
    } else if c == 'n' {
        Some('\n')
    } else if c == 'r' {
        Some('\r')
    } else if c == 't' {
        Some('\t')
    } else {
        None
    }
}

/// Two characters with one code point are one character.
proof fn char_code_injective(a: char, b: char)
    requires
        a as u32 == b as u32,
    ensures
        a == b,
{
}

/// The character with the given code point.
pub open spec fn code_char(u: nat) -> char {
    choose|c: char| (#[trigger] (c as u32)) == u
}

/// Parses a JSON string body starting after the opening quote: plain
/// characters until an unescaped closing quote, with the standard
/// escapes — `\"`, `\\`, `\/`, `\b`, `\f`, `\n`, `\r`, `\t` and
/// `\uXXXX` for a non-surrogate code unit. Returns the decoded
/// characters and the position just past the closing quote.
pub open spec fn sp_string_body(s: Seq<char>, i: int) -> Option<(Seq<char>, int)>
    decreases s.len() - i,
{
    if i < 0 || i >= s.len() {
        None
    } else if s[i] == '"' {
        Some((Seq::<char>::empty(), i + 1))
    } else if s[i] == '\\' {
        if i + 1 < s.len() && s[i + 1] == 'u' {
            if i + 5 < s.len() && is_hex_digit(s[i + 2]) && is_hex_digit(s[i + 3]) && is_hex_digit(
                s[i + 4],
            ) && is_hex_digit(s[i + 5]) {
                let unit = hex_val(s[i + 2]) * 4096 + hex_val(s[i + 3]) * 256 + hex_val(s[i + 4])
                    * 16 + hex_val(s[i + 5]);
                if 0xD800 <= unit < 0xE000 {
                    None
                } else {
                    match sp_string_body(s, i + 6) {
                        Some(t) => Some((seq![code_char(unit)] + t.0, t.1)),
                        None => None,
                    }
                }
            } else {
                None
            }
        } else if i + 1 < s.len() {
            match simple_escape(s[i + 1]) {
                Some(d) => match sp_string_body(s, i + 2) {
                    Some(t) => Some((seq![d] + t.0, t.1)),
                    None => None,
                },
                None => None,
            }
        } else {
            None
        }
    } else {
        match sp_string_body(s, i + 1) {
            Some(t) => Some((seq![s[i]] + t.0, t.1)),
            None => None,
        }
    }
}

/// The end of the digit run starting at `i`.
pub open spec fn sp_digit_run(s: Seq<char>, i: int) -> int
    decreases s.len() - i,
{
    if 0 <= i < s.len() && is_dec_digit(s[i]) {
        sp_digit_run(s, i + 1)
    } else {
        i
    }
}

/// Parses an integer: an optional minus sign and a nonempty digit run,
/// rejected unless the value fits an `i32`.
pub open spec fn sp_int(s: Seq<char>, i: int) -> Option<(int, int)> {
    if 0 <= i < s.len() && s[i] == '-' {
        let e = sp_digit_run(s, i + 1);
        let v = digits_val(s.subrange(i + 1, e));
        if e > i + 1 && v <= 2147483648 {
            Some((-(v as int), e))
        } else {
            None
        }
    } else {
        let e = sp_digit_run(s, i);
        let v = digits_val(s.subrange(i, e));
        if e > i && v <= 2147483647 {
            Some((v as int, e))
        } else {
            None
        }
    }
}

/// Parses one entry `{"date":"<string>","playtime":<int>}` at `i`,
/// whitespace allowed between the tokens, returning its value and the
/// position just past the closing brace.
pub open spec fn sp_entry(s: Seq<char>, i: int) -> Option<((Seq<char>, int), int)> {
    if !lit_at(s, i, "{"@) {
        None
    } else {
        let i1 = sp_ws(s, i + 1);
        if !lit_at(s, i1, "\"date\""@) {
            None
        } else {
            let i2 = sp_ws(s, i1 + ("\"date\""@).len() as int);
            if !lit_at(s, i2, ":"@) {
                None
            } else {
                let i3 = sp_ws(s, i2 + 1);
                if !lit_at(s, i3, "\""@) {
                    None
                } else {
                    match sp_string_body(s, i3 + 1) {
                        Some(dj) => sp_entry_tail(s, dj.0, dj.1),
                        None => None,
                    }
                }
            }
        }
    }
}

/// The tail of an entry after the date string: a comma, the playtime
/// key, the value and the closing brace, whitespace allowed between.
pub open spec fn sp_entry_tail(s: Seq<char>, d: Seq<char>, j: int) -> Option<
    ((Seq<char>, int), int),
> {
    let j1 = sp_ws(s, j);
    if !lit_at(s, j1, ","@) {
        None
    } else {
        let j2 = sp_ws(s, j1 + 1);
        if !lit_at(s, j2, "\"playtime\""@) {
            None
        } else {
            let j3 = sp_ws(s, j2 + ("\"playtime\""@).len() as int);
            if !lit_at(s, j3, ":"@) {
                None
            } else {
                let j4 = sp_ws(s, j3 + 1);
                match sp_int(s, j4) {
                    Some(vk) => {
                        let k1 = sp_ws(s, vk.1);
                        if lit_at(s, k1, "}"@) {
                            Some(((d, vk.0), k1 + 1))
                        } else {
                            None
                        }
                    },
                    None => None,
                }
            }
        }
    }
}

/// Parses one or more comma-separated entries starting at `i`,
/// whitespace allowed around the commas. Returns the position just past
/// the last entry's closing brace.
pub open spec fn sp_items(s: Seq<char>, i: int) -> Option<(Seq<(Seq<char>, int)>, int)>
    decreases s.len() - i,
{
    match sp_entry(s, i) {
        Some(ej) => if i < ej.1 <= s.len() {
            let j1 = sp_ws(s, ej.1);
            if i < j1 < s.len() && s[j1] == ',' {
                let p = sp_ws(s, j1 + 1);
                if i < p <= s.len() {
                    match sp_items(s, p) {
                        Some(lk) => Some((seq![ej.0] + lk.0, lk.1)),
                        None => None,
                    }
                } else {
                    None
                }
            } else {
                Some((seq![ej.0], ej.1))
            }
        } else {
            None
        },
        None => None,
    }
}

/// Parses a whole payload: entries (or nothing) between square
/// brackets, with only whitespace before, between tokens and after.
/// Anything else is malformed.
pub open spec fn sp_list(s: Seq<char>) -> Option<Seq<(Seq<char>, int)>> {
    let i0 = sp_ws(s, 0);
    if !(0 <= i0 < s.len() && s[i0] == '[') {
        None
    } else {
        let i1 = sp_ws(s, i0 + 1);
        if i1 < s.len() && s[i1] == ']' {
            if sp_ws(s, i1 + 1) == s.len() {
                Some(Seq::<(Seq<char>, int)>::empty())
            } else {
                None
            }
        } else {
            match sp_items(s, i1) {
                Some(lj) => {
                    let j1 = sp_ws(s, lj.1);
                    if j1 < s.len() && s[j1] == ']' && sp_ws(s, j1 + 1) == s.len() {
                        Some(lj.0)
                    } else {
                        None
                    }
                },
                None => None,
            }
        }
    }
}

// ---------------------------------------------------------------------
// The parser.
// ---------------------------------------------------------------------
/// Every character of a digit run is a digit, and the run stays within
/// the text.
proof fn lemma_digit_run_props(s: Seq<char>, i: int)
    requires
        0 <= i <= s.len(),
    ensures
        i <= sp_digit_run(s, i) <= s.len(),
        forall|k: int| i <= k < sp_digit_run(s, i) ==> is_dec_digit(#[trigger] s[k]),
    decreases s.len() - i,
{
    if i < s.len() && is_dec_digit(s[i]) {
        lemma_digit_run_props(s, i + 1);
    }
}

fn ex_lit_at(cs: &Vec<char>, i: usize, lit: &Vec<char>) -> (r: bool)
    ensures
        r == lit_at(cs@, i as int, lit@),
{
    let n = cs.len();
    if i > n || n - i < lit.len() {
        return false;
    }
    let mut k: usize = 0;
    while k < lit.len()
        invariant
            k <= lit@.len(),
            n == cs@.len(),
            i + lit@.len() <= n,
            forall|m: int| 0 <= m < k ==> cs@[i + m] == lit@[m],
        decreases lit@.len() - k,
    {
        if cs[i + k] != lit[k] {
            assert(cs@.subrange(i as int, i + lit@.len() as int)[k as int] != lit@[k as int]);
            return false;
        }
        k = k + 1;
    }
    assert(cs@.subrange(i as int, i + lit@.len() as int) =~= lit@);
    true
}

fn ex_ws(cs: &Vec<char>, i: usize) -> (r: usize)
    requires
        i <= cs@.len(),
    ensures
        r as int == sp_ws(cs@, i as int),
        i <= r <= cs@.len(),
    decreases cs@.len() - i,
{
    if i < cs.len() && (cs[i] == ' ' || cs[i] == '\t' || cs[i] == '\n' || cs[i] == '\r') {
        ex_ws(cs, i + 1)
    } else {
        i
    }
}

fn ex_hex_digit(c: char) -> (r: bool)
    ensures
        r == is_hex_digit(c),
{
    ('0' <= c && c <= '9') || ('a' <= c && c <= 'f') || ('A' <= c && c <= 'F')
}

fn ex_hex_val(c: char) -> (r: u32)
    requires
        is_hex_digit(c),
    ensures
        r as nat == hex_val(c),
        r < 16,
{
    if '0' <= c && c <= '9' {
        c as u32 - '0' as u32
    } else if 'a' <= c && c <= 'f' {
        c as u32 - 'a' as u32 + 10
    } else {
        c as u32 - 'A' as u32 + 10
    }
}

fn ex_simple_escape(c: char) -> (r: Option<char>)
    ensures
        r == simple_escape(c),
{
    if c == '"' {
        Some('"')
    } else if c == '\\' {
        Some('\\')
    } else if c == '/' {
        Some('/')
    } else if c == 'b' {
        Some('\u{0008}')
    } else if c == 'f' {
        Some('\u{000C}')
    } else if c == 'n' {
        Some('\n')
    } else if c == 'r' {
        Some('\r')
    } else if c == 't' {
        Some('\t')
    } else {
        None
    }
}

/// Relies on `char::from_u32`: it returns the character carrying the
/// given code exactly for valid scalar values, which are everything
/// below the surrogate range and everything from the end of that range
/// up to the last code point.
#[verifier::external_body]
fn char_from_u32(u: u32) -> (r: Option<char>)
    ensures
        r matches Some(c) ==> c as u32 == u,
        u < 0xD800 ==> r is Some,
        0xE000 <= u <= 0x10FFFF ==> r is Some,
{
    char::from_u32(u)
}

fn ex_string_body(cs: &Vec<char>, i: usize) -> (r: Option<(Vec<char>, usize)>)
    requires
        i <= cs@.len(),
    ensures
        r matches Some(t) ==> sp_string_body(cs@, i as int) == Some((t.0@, t.1 as int)) && i < t.1
            <= cs@.len(),
        r is None ==> sp_string_body(cs@, i as int) is None,
    decreases cs@.len() - i,
{
    if i >= cs.len() {
        return None;
    }
    let c = cs[i];
    if c == '"' {
        Some((Vec::new(), i + 1))
    } else if c == '\\' {
        if i + 1 < cs.len() && cs[i + 1] == 'u' {
            if cs.len() - i > 5 && ex_hex_digit(cs[i + 2]) && ex_hex_digit(cs[i + 3])
                && ex_hex_digit(cs[i + 4]) && ex_hex_digit(cs[i + 5]) {
                let u: u32 = ex_hex_val(cs[i + 2]) * 4096 + ex_hex_val(cs[i + 3]) * 256
                    + ex_hex_val(cs[i + 4]) * 16 + ex_hex_val(cs[i + 5]);
                if 0xD800 <= u && u < 0xE000 {
                    None
                } else {
                    let c0 = char_from_u32(u).unwrap();
                    proof {
                        assert(exists|ch: char| (#[trigger] (ch as u32)) == u as nat) by {
                            assert(c0 as u32 == u as nat);
                        }
                        assert(code_char(u as nat) as u32 == u as nat);
                        char_code_injective(c0, code_char(u as nat));
                    }
                    match ex_string_body(cs, i + 6) {
                        Some((mut t, j)) => {
                            t.insert(0, c0);
                            proof {
                                assert(t@ =~= seq![code_char(
                                    (hex_val(cs@[i + 2]) * 4096 + hex_val(cs@[i + 3]) * 256
                                        + hex_val(cs@[i + 4]) * 16 + hex_val(cs@[i + 5])) as nat,
                                )] + t@.subrange(1, t@.len() as int));
                            }
                            Some((t, j))
                        },
                        None => None,
                    }
                }
            } else {
                None
            }
        } else if i + 1 < cs.len() {
            match ex_simple_escape(cs[i + 1]) {
                Some(d) => {
                    match ex_string_body(cs, i + 2) {
                        Some((mut t, j)) => {
                            t.insert(0, d);
                            proof {
                                assert(t@ =~= seq![simple_escape(cs@[i + 1])->Some_0] + t@.subrange(
                                    1,
                                    t@.len() as int,
                                ));
                            }
                            Some((t, j))
                        },
                        None => None,
                    }
                },
                None => None,
            }
        } else {
            None
        }
    } else {
        match ex_string_body(cs, i + 1) {
            Some((mut t, j)) => {
                t.insert(0, c);
                proof {
                    assert(t@ =~= seq![cs@[i as int]] + t@.subrange(1, t@.len() as int));
                }
                Some((t, j))
            },
            None => None,
        }
    }
}

fn ex_digit_run(cs: &Vec<char>, i: usize) -> (r: usize)
    requires
        i <= cs@.len(),
    ensures
        r as int == sp_digit_run(cs@, i as int),
        i <= r <= cs@.len(),
    decreases cs@.len() - i,
{
    if i < cs.len() && cs[i] >= '0' && cs[i] <= '9' {
        ex_digit_run(cs, i + 1)
    } else {
        i
    }
}

/// The capped magnitude of a digit run: `None` when the value exceeds
/// the largest magnitude an `i32` can carry.
fn ex_digits_value(cs: &Vec<char>, a: usize, b: usize) -> (r: Option<u64>)
    requires
        a <= b <= cs@.len(),
        forall|k: int| a <= k < b ==> is_dec_digit(#[trigger] cs@[k]),
    ensures
        r matches Some(v) ==> v as int == digits_val(cs@.subrange(a as int, b as int)) && v
            <= 2147483648,
        r is None ==> digits_val(cs@.subrange(a as int, b as int)) > 2147483648,
{
    let mut acc: u64 = 0;
    let mut m: usize = a;
    while m < b
        invariant
            a <= m <= b <= cs@.len(),
            forall|k: int| a <= k < b ==> is_dec_digit(#[trigger] cs@[k]),
            acc as int == digits_val(cs@.subrange(a as int, m as int)),
            acc <= 2147483648,
        decreases b - m,
    {
        let c = cs[m];
        let d: u64 = (c as u32 - '0' as u32) as u64;
        proof {
            assert(is_dec_digit(cs@[m as int]));
            assert(d == digit_val(cs@[m as int]));
            assert(d <= 9);
        }
        acc = acc * 10 + d;
        m = m + 1;
        proof {
            let t = cs@.subrange(a as int, m as int);
            assert(t.drop_last() =~= cs@.subrange(a as int, m - 1 as int));
            assert(t.last() == cs@[m - 1]);
        }
        if acc > 2147483648 {
            proof {
                let whole = cs@.subrange(a as int, b as int);
                lemma_digits_val_prefix_le(whole, m - a as int);
                assert(whole.take(m - a as int) =~= cs@.subrange(a as int, m as int));
            }
            return None;
        }
    }
    proof {
        assert(cs@.subrange(a as int, m as int) =~= cs@.subrange(a as int, b as int));
    }
    Some(acc)
}

fn ex_int(cs: &Vec<char>, i: usize) -> (r: Option<(i32, usize)>)
    requires
        i <= cs@.len(),
    ensures
        r matches Some(t) ==> sp_int(cs@, i as int) == Some((t.0 as int, t.1 as int)) && i < t.1
            <= cs@.len(),
        r is None ==> sp_int(cs@, i as int) is None,
{
    if i < cs.len() && cs[i] == '-' {
        let e = ex_digit_run(cs, i + 1);
        proof {
            lemma_digit_run_props(cs@, i + 1 as int);
        }
        if e > i + 1 {
            match ex_digits_value(cs, i + 1, e) {
                Some(v) => {
                    if v <= 2147483648 {
                        let n: i32 = if v == 2147483648 {
                            i32::MIN
                        } else {
                            -((v as i32))
                        };
                        proof {
                            assert(n as int == -(v as int));
                        }
                        Some((n, e))
                    } else {
                        None
                    }
                },
                None => None,
            }
        } else {
            None
        }
    } else {
        let e = ex_digit_run(cs, i);
        proof {
            lemma_digit_run_props(cs@, i as int);
        }
        if e > i {
            match ex_digits_value(cs, i, e) {
                Some(v) => {
                    if v <= 2147483647 {
                        Some((v as i32, e))
                    } else {
                        None
                    }
                },
                None => None,
            }
        } else {
            None
        }
    }
}

fn ex_entry(cs: &Vec<char>, i: usize) -> (r: Option<(Vec<char>, i32, usize)>)
    requires
        i <= cs@.len(),
    ensures
        r matches Some(t) ==> sp_entry(cs@, i as int) == Some(((t.0@, t.1 as int), t.2 as int))
            && i < t.2 <= cs@.len(),
        r is None ==> sp_entry(cs@, i as int) is None,
{
    let n = cs.len();
    proof {
        reveal_strlit("{");
        reveal_strlit("\"date\"");
        reveal_strlit(":");
        reveal_strlit("\"");
        reveal_strlit(",");
        reveal_strlit("\"playtime\"");
        reveal_strlit("}");
    }
    let brace = str_chars("{");
    if !ex_lit_at(cs, i, &brace) {
        return None;
    }
    proof {
        assert(i + 1 <= n);
    }
    let i1 = ex_ws(cs, i + 1);
    let datekey = str_chars("\"date\"");
    if !ex_lit_at(cs, i1, &datekey) {
        return None;
    }
    proof {
        assert(i1 + 6 <= n);
    }
    let i2 = ex_ws(cs, i1 + 6);
    let colon = str_chars(":");
    if !ex_lit_at(cs, i2, &colon) {
        return None;
    }
    proof {
        assert(i2 + 1 <= n);
    }
    let i3 = ex_ws(cs, i2 + 1);
    let quote = str_chars("\"");
    if !ex_lit_at(cs, i3, &quote) {
        return None;
    }
    proof {
        assert(i3 + 1 <= n);
    }
    match ex_string_body(cs, i3 + 1) {
        Some((d, j)) => {
            let j1 = ex_ws(cs, j);
            let comma = str_chars(",");
            if !ex_lit_at(cs, j1, &comma) {
                return None;
            }
            proof {
                assert(j1 + 1 <= n);
            }
            let j2 = ex_ws(cs, j1 + 1);
            let playkey = str_chars("\"playtime\"");
            if !ex_lit_at(cs, j2, &playkey) {
                return None;
            }
            proof {
                assert(j2 + 10 <= n);
            }
            let j3 = ex_ws(cs, j2 + 10);
            if !ex_lit_at(cs, j3, &colon) {
                return None;
            }
            proof {
                assert(j3 + 1 <= n);
            }
            let j4 = ex_ws(cs, j3 + 1);
            match ex_int(cs, j4) {
                Some((v, k)) => {
                    let k1 = ex_ws(cs, k);
                    let tail = str_chars("}");
                    if !ex_lit_at(cs, k1, &tail) {
                        return None;
                    }
                    proof {
                        assert(k1 + 1 <= n);
                    }
                    Some((d, v, k1 + 1))
                },
                None => None,
            }
        },
        None => None,
    }
}

fn ex_items(cs: &Vec<char>, i: usize) -> (r: Option<(Vec<DailyStats>, usize)>)
    requires
        i <= cs@.len(),
    ensures
        r matches Some(t) ==> sp_items(cs@, i as int) == Some((daily_views(t.0@), t.1 as int))
            && i < t.1 <= cs@.len(),
        r is None ==> sp_items(cs@, i as int) is None,
    decreases cs@.len() - i,
{
    match ex_entry(cs, i) {
        Some((d, v, j)) => {
            let first = DailyStats { date: string_from_chars(&d), playtime: v };
            let j1 = ex_ws(cs, j);
            if j1 < cs.len() && cs[j1] == ',' {
                let p = ex_ws(cs, j1 + 1);
                proof {
                    assert(i < j1);
                    assert(i < p as int <= cs@.len());
                }
                match ex_items(cs, p) {
                    Some((mut l, k)) => {
                        let ghost rest = l@;
                        l.insert(0, first);
                        proof {
                            assert(l@ =~= seq![l@[0]] + rest);
                            assert(daily_views(l@) =~= seq![l@[0]@] + daily_views(rest));
                        }
                        Some((l, k))
                    },
                    None => None,
                }
            } else {
                let mut l: Vec<DailyStats> = Vec::new();
                l.push(first);
                proof {
                    assert(i < j1);
                    assert(daily_views(l@) =~= seq![l@[0]@]);
                }
                Some((l, j))
            }
        },
        None => None,
    }
}

/// Parses a persisted daily-stats payload. Exactly the texts the
/// grammar admits yield `Ok`, with the decoded entries in payload
/// order; every malformed text is rejected with `StatsCorrupt`.
pub fn parse_daily_stats(daily_stats_json: &str) -> (r: Result<Vec<DailyStats>, BackupError>)
    ensures
        r matches Ok(v) ==> sp_list(daily_stats_json@) == Some(daily_views(v@)),
        r matches Err(e) ==> e is StatsCorrupt && sp_list(daily_stats_json@) is None,
{
    let cs = str_chars(daily_stats_json);
    let n = cs.len();
    let i0 = ex_ws(&cs, 0);
    if !(i0 < n && cs[i0] == '[') {
        return Err(BackupError::StatsCorrupt);
    }
    let i1 = ex_ws(&cs, i0 + 1);
    if i1 < n && cs[i1] == ']' {
        if ex_ws(&cs, i1 + 1) == n {
            let empty_list: Vec<DailyStats> = Vec::new();
            proof {
                assert(daily_views(empty_list@) =~= Seq::<(Seq<char>, int)>::empty());
            }
            return Ok(empty_list);
        } else {
            return Err(BackupError::StatsCorrupt);
        }
    }
    match ex_items(&cs, i1) {
        Some((l, j)) => {
            let j1 = ex_ws(&cs, j);
            if j1 < n && cs[j1] == ']' {
                if ex_ws(&cs, j1 + 1) == n {
                    Ok(l)
                } else {
                    Err(BackupError::StatsCorrupt)
                }
            } else {
                Err(BackupError::StatsCorrupt)
            }
        },
        None => Err(BackupError::StatsCorrupt),
    }
}


// ---------------------------------------------------------------------
// The parser inverts the serializer.
// ---------------------------------------------------------------------
/// Skipping whitespace where none stands is the identity.
proof fn lemma_ws_identity(s: Seq<char>, i: int)
    requires
        0 <= i,
        i == s.len() || !is_json_ws(s[i]),
    ensures
        sp_ws(s, i) == i,
{
}

/// A hex digit character reads back to the nibble it renders.
proof fn lemma_hex_roundtrip(n: nat)
    requires
        n < 16,
    ensures
        is_hex_digit(hex_digit_char(n)),
        hex_val(hex_digit_char(n)) == n,
{
}

/// `json_escaped` peeled from the left: the first character's escape,
/// then the rest.
proof fn lemma_escaped_left_unfold(s: Seq<char>)
    requires
        s.len() > 0,
    ensures
        json_escaped(s) == esc_char(s[0]) + json_escaped(s.drop_first()),
    decreases s.len(),
{
    if s.len() == 1 {
        assert(s.drop_last() =~= Seq::<char>::empty());
        assert(s.drop_first() =~= Seq::<char>::empty());
        assert(s.last() == s[0]);
        assert(json_escaped(s) =~= esc_char(s[0]) + json_escaped(s.drop_first()));
    } else {
        lemma_escaped_left_unfold(s.drop_last());
        assert(s.drop_last()[0] == s[0]);
        assert(s.drop_last().drop_first() =~= s.drop_first().drop_last());
        assert(s.drop_first().last() == s.last());
        assert(json_escaped(s.drop_first()) == json_escaped(s.drop_first().drop_last())
            + esc_char(s.drop_first().last()));
        assert(json_escaped(s) =~= esc_char(s[0]) + json_escaped(s.drop_first()));
    }
}

/// The character of a character's own code.
proof fn lemma_code_char_of(c: char)
    ensures
        code_char((c as u32) as nat) == c,
{
    let u = (c as u32) as nat;
    assert(exists|ch: char| (#[trigger] (ch as u32)) == u) by {
        assert((c as u32) == u);
    }
    assert(code_char(u) as u32 == u);
    char_code_injective(code_char(u), c);
}

/// Parsing a string body over the escaped form of `d` followed by a
/// closing quote decodes exactly `d` and stops just past the quote.
proof fn lemma_string_body_inverts(s: Seq<char>, i: int, d: Seq<char>)
    requires
        0 <= i,
        i + json_escaped(d).len() + 1 <= s.len(),
        s.subrange(i, i + json_escaped(d).len() + 1) == json_escaped(d) + seq!['"'],
    ensures
        sp_string_body(s, i) == Some((d, i + json_escaped(d).len() + 1)),
    decreases d.len(),
{
    let esc = json_escaped(d);
    let body = esc + seq!['"'];
    assert forall|k: int| 0 <= k < body.len() implies s[i + k] == body[k] by {
        assert(s.subrange(i, i + esc.len() + 1)[k] == body[k]);
    }
    if d.len() == 0 {
        assert(esc.len() == 0);
        assert(s[i + 0] == body[0]);
        assert(s[i] == '"');
    } else {
        lemma_escaped_left_unfold(d);
        let c = d[0];
        let rest = d.drop_first();
        assert(esc == esc_char(c) + json_escaped(rest));
        if c == '"' || c == '\\' {
            assert(esc_char(c).len() == 2);
            assert(esc[0] == '\\');
            assert(esc[1] == c);
            assert(s[i + 0] == body[0]);
            assert(s[i] == '\\');
            assert(s[i + 1] == body[1]);
            assert(s[i + 1] == c);
            assert(s[i + 1] != 'u');
            assert(simple_escape(c) == Some(c));
            assert(s.subrange(i + 2, i + 2 + json_escaped(rest).len() + 1) =~= json_escaped(rest)
                + seq!['"']) by {
                assert forall|k: int| 0 <= k < json_escaped(rest).len() + 1 implies s.subrange(
                    i + 2,
                    i + 2 + json_escaped(rest).len() + 1,
                )[k] == (json_escaped(rest) + seq!['"'])[k] by {
                    assert(s[i + (2 + k)] == body[2 + k]);
                }
            }
            lemma_string_body_inverts(s, i + 2, rest);
            assert(seq![s[i + 1]] + rest =~= d);
        } else if (c as u32) < 0x20 {
            let hi = ((c as u32) / 16) as nat;
            let lo = ((c as u32) % 16) as nat;
            lemma_hex_roundtrip(hi);
            lemma_hex_roundtrip(lo);
            assert(esc_char(c).len() == 6);
            assert(esc[0] == '\\');
            assert(esc[1] == 'u');
            assert(esc[2] == '0');
            assert(esc[3] == '0');
            assert(esc[4] == hex_digit_char(hi));
            assert(esc[5] == hex_digit_char(lo));
            assert(s[i + 0] == body[0]);
            assert(s[i + 1] == body[1]);
            assert(s[i + 2] == body[2]);
            assert(s[i + 3] == body[3]);
            assert(s[i + 4] == body[4]);
            assert(s[i + 5] == body[5]);
            assert(s[i] == '\\' && s[i + 1] == 'u');
            assert(is_hex_digit(s[i + 2]) && is_hex_digit(s[i + 3]) && is_hex_digit(s[i + 4])
                && is_hex_digit(s[i + 5]));
            let unit = hex_val(s[i + 2]) * 4096 + hex_val(s[i + 3]) * 256 + hex_val(s[i + 4]) * 16
                + hex_val(s[i + 5]);
            assert(hex_val(s[i + 2]) == 0 && hex_val(s[i + 3]) == 0) by {
                lemma_hex_roundtrip(0);
            }
            assert(unit == (c as u32) as nat);
            assert(unit < 0x20);
            assert(s.subrange(i + 6, i + 6 + json_escaped(rest).len() + 1) =~= json_escaped(rest)
                + seq!['"']) by {
                assert forall|k: int| 0 <= k < json_escaped(rest).len() + 1 implies s.subrange(
                    i + 6,
                    i + 6 + json_escaped(rest).len() + 1,
                )[k] == (json_escaped(rest) + seq!['"'])[k] by {
                    assert(s[i + (6 + k)] == body[6 + k]);
                }
            }
            lemma_string_body_inverts(s, i + 6, rest);
            lemma_code_char_of(c);
            assert((c as u32) as nat == unit);
            assert(code_char(unit) == c);
            assert(seq![code_char(unit)] + rest =~= d);
        } else {
            assert(esc_char(c).len() == 1);
            assert(esc[0] == c);
            assert(s[i + 0] == body[0]);
            assert(s[i] == c);
            assert(s[i] != '"' && s[i] != '\\');
            assert(s.subrange(i + 1, i + 1 + json_escaped(rest).len() + 1) =~= json_escaped(rest)
                + seq!['"']) by {
                assert forall|k: int| 0 <= k < json_escaped(rest).len() + 1 implies s.subrange(
                    i + 1,
                    i + 1 + json_escaped(rest).len() + 1,
                )[k] == (json_escaped(rest) + seq!['"'])[k] by {
                    assert(s[i + (1 + k)] == body[1 + k]);
                }
            }
            lemma_string_body_inverts(s, i + 1, rest);
            assert(seq![s[i]] + rest =~= d);
        }
    }
}


/// A digit run flanked by a non-digit ends exactly at the flank.
proof fn lemma_digit_run_exact(s: Seq<char>, i: int, j: int)
    requires
        0 <= i <= j <= s.len(),
        forall|k: int| i <= k < j ==> is_dec_digit(#[trigger] s[k]),
        j == s.len() || !is_dec_digit(s[j]),
    ensures
        sp_digit_run(s, i) == j,
    decreases j - i,
{
    if i < j {
        assert(is_dec_digit(s[i]));
        lemma_digit_run_exact(s, i + 1, j);
    }
}

/// Parsing an integer over the decimal rendering of an in-range value,
/// flanked by a non-digit, yields exactly the value.
proof fn lemma_sp_int_inverts(s: Seq<char>, i: int, v: int)
    requires
        -2147483648 <= v <= 2147483647,
        0 <= i,
        i + dec_str_signed(v).len() <= s.len(),
        s.subrange(i, i + dec_str_signed(v).len() as int) == dec_str_signed(v),
        i + dec_str_signed(v).len() == s.len() || !is_dec_digit(s[i + dec_str_signed(v).len()]),
    ensures
        sp_int(s, i) == Some((v, i + dec_str_signed(v).len() as int)),
{
    let ds = dec_str_signed(v);
    let j = i + ds.len() as int;
    assert forall|k: int| 0 <= k < ds.len() implies s[i + k] == ds[k] by {
        assert(s.subrange(i, j)[k] == ds[k]);
    }
    if v >= 0 {
        crate::numfmt::lemma_dec_str_digits(v as nat);
        crate::numfmt::lemma_digits_val_of_dec_str(v as nat);
        assert forall|k: int| i <= k < j implies is_dec_digit(#[trigger] s[k]) by {
            assert(s[i + (k - i)] == ds[k - i]);
        }
        assert(s[i + 0] == ds[0]);
        assert(is_dec_digit(s[i]));
        assert(s[i] != '-');
        lemma_digit_run_exact(s, i, j);
        assert(s.subrange(i, j) =~= ds);
        assert(digits_val(s.subrange(i, j)) == v);
    } else {
        let mag = (-v) as nat;
        crate::numfmt::lemma_dec_str_digits(mag);
        crate::numfmt::lemma_digits_val_of_dec_str(mag);
        assert(ds == seq!['-'] + dec_str(mag));
        assert(s[i + 0] == ds[0]);
        assert(s[i] == '-');
        assert forall|k: int| i + 1 <= k < j implies is_dec_digit(#[trigger] s[k]) by {
            assert(s[i + (k - i)] == ds[k - i]);
            assert(ds[k - i] == dec_str(mag)[k - i - 1]);
        }
        lemma_digit_run_exact(s, i + 1, j);
        assert(s.subrange(i + 1, j) =~= dec_str(mag)) by {
            assert forall|k: int| 0 <= k < dec_str(mag).len() implies s.subrange(i + 1, j)[k]
                == dec_str(mag)[k] by {
                assert(s[i + (k + 1)] == ds[k + 1]);
            }
        }
        assert(digits_val(s.subrange(i + 1, j)) == mag);
        assert(mag <= 2147483648);
        assert(j > i + 1);
    }
}

/// Parsing one entry over its serialized form yields exactly the entry
/// and stops just past the closing brace.
proof fn lemma_sp_entry_inverts(s: Seq<char>, i: int, e: (Seq<char>, int))
    requires
        -2147483648 <= e.1 <= 2147483647,
        0 <= i,
        i + json_of_entry(e).len() <= s.len(),
        s.subrange(i, i + json_of_entry(e).len() as int) == json_of_entry(e),
    ensures
        sp_entry(s, i) == Some((e, i + json_of_entry(e).len() as int)),
{
    reveal_strlit("{\"date\":\"");
    reveal_strlit("\",\"playtime\":");
    reveal_strlit("}");
    reveal_strlit("{");
    reveal_strlit("\"date\"");
    reveal_strlit(":");
    reveal_strlit("\"");
    reveal_strlit(",");
    reveal_strlit("\"playtime\"");
    let head = "{\"date\":\""@;
    let mid13 = "\",\"playtime\":"@;
    let tail = "}"@;
    let esc = json_escaped(e.0);
    let ds = dec_str_signed(e.1);
    let je = json_of_entry(e);
    assert(je == head + esc + mid13 + ds + tail);
    assert(head.len() == 9);
    assert(mid13.len() == 13);
    assert(tail.len() == 1);
    assert forall|k: int| 0 <= k < je.len() implies s[i + k] == je[k] by {
        assert(s.subrange(i, i + je.len() as int)[k] == je[k]);
    }
    // The opening brace and the date key, colon and opening quote, with
    // no whitespace between them in the serialized form.
    assert(s[i + 0] == je[0]);
    assert(lit_at(s, i, "{"@)) by {
        assert(s.subrange(i, i + 1) =~= "{"@);
    }
    assert(s[i + 1] == je[1] && je[1] == '"');
    lemma_ws_identity(s, i + 1);
    assert(lit_at(s, i + 1, "\"date\""@)) by {
        assert forall|k: int| 0 <= k < 6 implies s.subrange(i + 1, i + 7)[k] == ("\"date\""@)[k] by {
            assert(s[i + (1 + k)] == je[1 + k]);
        }
        assert(s.subrange(i + 1, i + 7) =~= "\"date\""@);
    }
    assert(s[i + 7] == je[7] && je[7] == ':');
    lemma_ws_identity(s, i + 7);
    assert(lit_at(s, i + 7, ":"@)) by {
        assert(s.subrange(i + 7, i + 8) =~= ":"@);
    }
    assert(s[i + 8] == je[8] && je[8] == '"');
    lemma_ws_identity(s, i + 8);
    assert(lit_at(s, i + 8, "\""@)) by {
        assert(s.subrange(i + 8, i + 9) =~= "\""@);
    }
    // The date string with its closing quote, the first character of
    // the middle literal.
    let p = i + 9 + esc.len() as int + 1;
    assert(mid13[0] == '"');
    assert(s.subrange(i + 9, p) =~= esc + seq!['"']) by {
        assert forall|k: int| 0 <= k < esc.len() + 1 implies s.subrange(i + 9, p)[k] == (esc
            + seq!['"'])[k] by {
            assert(s[i + (9 + k)] == je[9 + k]);
        }
    }
    lemma_string_body_inverts(s, i + 9, e.0);
    assert(sp_string_body(s, i + 9) == Some((e.0, p)));
    // The comma, the playtime key and its colon.
    assert(s[i + (9 + esc.len() + 1)] == je[(9 + esc.len() + 1) as int]);
    assert(s[p] == mid13[1] && mid13[1] == ',');
    lemma_ws_identity(s, p);
    assert(lit_at(s, p, ","@)) by {
        assert(s.subrange(p, p + 1) =~= ","@);
    }
    assert(s[i + (9 + esc.len() + 2)] == je[(9 + esc.len() + 2) as int]);
    assert(s[p + 1] == mid13[2] && mid13[2] == '"');
    lemma_ws_identity(s, p + 1);
    assert(lit_at(s, p + 1, "\"playtime\""@)) by {
        assert forall|k: int| 0 <= k < 10 implies s.subrange(p + 1, p + 11)[k] == (
        "\"playtime\""@)[k] by {
            assert(s[i + (9 + esc.len() + 2 + k)] == je[9 + esc.len() + 2 + k]);
            assert(je[9 + esc.len() + 2 + k] == mid13[2 + k]);
        }
        assert(s.subrange(p + 1, p + 11) =~= "\"playtime\""@);
    }
    assert(s[i + (9 + esc.len() + 12)] == je[(9 + esc.len() + 12) as int]);
    assert(s[p + 11] == mid13[12] && mid13[12] == ':');
    lemma_ws_identity(s, p + 11);
    assert(lit_at(s, p + 11, ":"@)) by {
        assert(s.subrange(p + 11, p + 12) =~= ":"@);
    }
    // The integer, flanked by the closing brace.
    let q = p + 12 + ds.len() as int;
    assert(s.subrange(p + 12, q) =~= ds) by {
        assert forall|k: int| 0 <= k < ds.len() implies s.subrange(p + 12, q)[k] == ds[k] by {
            assert(s[i + (9 + esc.len() + 13 + k)] == je[9 + esc.len() + 13 + k]);
        }
    }
    assert(s[p + 12] == ds[0]);
    assert(!is_json_ws(s[p + 12])) by {
        if e.1 >= 0 {
            crate::numfmt::lemma_dec_str_digits(e.1 as nat);
            assert(is_dec_digit(ds[0]));
        } else {
            assert(ds[0] == '-');
        }
    }
    lemma_ws_identity(s, p + 12);
    assert(s[i + (9 + esc.len() + 13 + ds.len())] == je[(9 + esc.len() + 13 + ds.len()) as int]);
    assert(s[q] == '}');
    assert(!is_dec_digit('}'));
    lemma_sp_int_inverts(s, p + 12, e.1);
    assert(sp_int(s, p + 12) == Some((e.1, q)));
    // The closing brace.
    lemma_ws_identity(s, q);
    assert(lit_at(s, q, tail)) by {
        assert(s.subrange(q, q + 1) =~= tail);
    }
    assert(q + 1 == i + je.len());
}


/// `json_items` peeled from the left: the first entry, a comma, then
/// the rest.
proof fn lemma_items_left_unfold(l: Seq<(Seq<char>, int)>)
    requires
        l.len() >= 2,
    ensures
        json_items(l) == json_of_entry(l[0]) + seq![','] + json_items(l.drop_first()),
    decreases l.len(),
{
    if l.len() == 2 {
        assert(l.drop_last()[0] == l[0]);
        assert(json_items(l.drop_last()) == json_of_entry(l[0]));
        assert(l.drop_first().len() == 1);
        assert(l.drop_first()[0] == l[1]);
        assert(json_items(l.drop_first()) == json_of_entry(l[1]));
        assert(json_items(l) =~= json_of_entry(l[0]) + seq![','] + json_items(l.drop_first()));
    } else {
        lemma_items_left_unfold(l.drop_last());
        assert(l.drop_last()[0] == l[0]);
        assert(l.drop_last().drop_first() =~= l.drop_first().drop_last());
        assert(l.drop_first().last() == l.last());
        assert(json_items(l.drop_first()) == json_items(l.drop_first().drop_last()) + seq![',']
            + json_of_entry(l.drop_first().last()));
        assert(json_items(l) =~= json_of_entry(l[0]) + seq![','] + json_items(l.drop_first()));
    }
}

/// A serialized entry is never empty, and it opens with a brace — so a
/// run of serialized entries does too.
proof fn lemma_items_head(l: Seq<(Seq<char>, int)>)
    requires
        l.len() >= 1,
    ensures
        json_items(l).len() >= 23,
        json_items(l)[0] == '{',
        json_of_entry(l[0]).len() >= 23,
        json_of_entry(l[0])[0] == '{',
{
    reveal_strlit("{\"date\":\"");
    reveal_strlit("\",\"playtime\":");
    reveal_strlit("}");
    assert(json_of_entry(l[0])[0] == ("{\"date\":\""@)[0]);
    if l.len() == 1 {
        assert(json_items(l) == json_of_entry(l[0]));
    } else {
        lemma_items_left_unfold(l);
        assert(json_items(l)[0] == json_of_entry(l[0])[0]);
    }
}

/// Parsing one or more comma-separated entries over their serialized
/// form, with neither whitespace nor a comma following, yields exactly
/// the entries.
proof fn lemma_sp_items_inverts(s: Seq<char>, i: int, l: Seq<(Seq<char>, int)>)
    requires
        l.len() >= 1,
        forall|k: int| 0 <= k < l.len() ==> -2147483648 <= (#[trigger] l[k]).1 <= 2147483647,
        0 <= i,
        i + json_items(l).len() <= s.len(),
        s.subrange(i, i + json_items(l).len() as int) == json_items(l),
        ({
            let j = i + json_items(l).len() as int;
            j == s.len() || (!is_json_ws(s[j]) && s[j] != ',')
        }),
    ensures
        sp_items(s, i) == Some((l, i + json_items(l).len() as int)),
    decreases l.len(),
{
    let ji = json_items(l);
    let j = i + ji.len() as int;
    assert forall|k: int| 0 <= k < ji.len() implies s[i + k] == ji[k] by {
        assert(s.subrange(i, j)[k] == ji[k]);
    }
    if l.len() == 1 {
        assert(ji == json_of_entry(l[0]));
        lemma_items_head(l);
        lemma_sp_entry_inverts(s, i, l[0]);
        assert(sp_entry(s, i) == Some((l[0], j)));
        lemma_ws_identity(s, j);
        assert(sp_ws(s, j) == j);
        assert(!(i < j < s.len() && s[j] == ','));
        assert(seq![l[0]] =~= l);
    } else {
        lemma_items_left_unfold(l);
        let e0 = json_of_entry(l[0]);
        let rest = l.drop_first();
        assert(ji == e0 + seq![','] + json_items(rest));
        lemma_items_head(l);
        let j1 = i + e0.len() as int;
        assert(s.subrange(i, j1) =~= e0) by {
            assert forall|k: int| 0 <= k < e0.len() implies s.subrange(i, j1)[k] == e0[k] by {
                assert(s[i + k] == ji[k]);
            }
        }
        lemma_sp_entry_inverts(s, i, l[0]);
        assert(sp_entry(s, i) == Some((l[0], j1)));
        assert(s[i + e0.len() as int] == ji[e0.len() as int]);
        assert(s[j1] == ',');
        lemma_ws_identity(s, j1);
        assert(sp_ws(s, j1) == j1);
        assert(i < j1 < s.len());
        assert forall|k: int| 0 <= k < rest.len() implies -2147483648 <= (
        #[trigger] rest[k]).1 <= 2147483647 by {
            assert(rest[k] == l[k + 1]);
        }
        assert(s.subrange(j1 + 1, j) =~= json_items(rest)) by {
            assert forall|k: int| 0 <= k < json_items(rest).len() implies s.subrange(
                j1 + 1,
                j,
            )[k] == json_items(rest)[k] by {
                assert(s[i + (e0.len() + 1 + k)] == ji[(e0.len() + 1 + k) as int]);
            }
        }
        lemma_items_head(rest);
        assert(s[i + (e0.len() + 1)] == ji[(e0.len() + 1) as int]);
        assert(s[j1 + 1] == json_items(rest)[0]);
        assert(s[j1 + 1] == '{');
        lemma_ws_identity(s, j1 + 1);
        assert(sp_ws(s, j1 + 1) == j1 + 1);
        lemma_sp_items_inverts(s, j1 + 1, rest);
        assert(sp_items(s, j1 + 1) == Some((rest, j)));
        assert(seq![l[0]] + rest =~= l);
    }
}

/// The parser inverts the serializer: a payload written by
/// `serialize_daily_stats` — the exact form `json_of_list` describes —
/// parses back to exactly the entries it was written from. What the
/// store persists, a later read decodes unchanged.
pub proof fn lemma_payload_roundtrip(l: Seq<(Seq<char>, int)>)
    requires
        forall|k: int| 0 <= k < l.len() ==> -2147483648 <= (#[trigger] l[k]).1 <= 2147483647,
    ensures
        sp_list(json_of_list(l)) == Some(l),
{
    reveal_strlit("[");
    reveal_strlit("]");
    let s = json_of_list(l);
    let ji = json_items(l);
    assert(s == "["@ + ji + "]"@);
    assert(s.len() == ji.len() + 2);
    assert(s[0] == '[');
    assert(s[s.len() - 1] == ']');
    lemma_ws_identity(s, 0);
    assert(sp_ws(s, 0) == 0);
    if l.len() == 0 {
        assert(ji.len() == 0);
        assert(s.len() == 2);
        assert(s[1] == ']');
        lemma_ws_identity(s, 1);
        lemma_ws_identity(s, 2);
        assert(sp_ws(s, 2) == s.len());
        assert(sp_list(s) == Some(l));
    } else {
        lemma_items_head(l);
        assert(s[1] == ji[0]);
        assert(s[1] == '{');
        lemma_ws_identity(s, 1);
        assert(sp_ws(s, 1) == 1);
        let j = 1 + ji.len() as int;
        assert(s.subrange(1, j) =~= ji) by {
            assert forall|k: int| 0 <= k < ji.len() implies s.subrange(1, j)[k] == ji[k] by {
                assert(s[1 + k] == ("["@ + ji + "]"@)[1 + k]);
            }
        }
        assert(s[j] == ']');
        lemma_sp_items_inverts(s, 1, l);
        assert(sp_items(s, 1) == Some((l, j)));
        lemma_ws_identity(s, j);
        lemma_ws_identity(s, j + 1);
        assert(sp_ws(s, j + 1) == s.len());
    }
}

} // verus!
