//! Character and string helpers shared across the subsystem: blank
//! detection for overrides, separator normalization, prefix tests and
//! path joining.

use vstd::prelude::*;
use vstd::string::StrSliceExecFns;
use vstd::string::StringExecFns;

verus! {

/// Whether `c` carries the Unicode `White_Space` property, the notion of
/// whitespace a settings override is trimmed by.
pub open spec fn is_space_char(c: char) -> bool {
    let u = c as u32;
    (0x09 <= u && u <= 0x0D) || u == 0x20 || u == 0x85 || u == 0xA0 || u == 0x1680 || (0x2000
        <= u && u <= 0x200A) || u == 0x2028 || u == 0x2029 || u == 0x202F || u == 0x205F || u
        == 0x3000
}

/// Whether `s` is empty or made of whitespace only.
pub open spec fn blank_spec(s: Seq<char>) -> bool {
    forall|i: int| 0 <= i < s.len() ==> is_space_char(#[trigger] s[i])
}

/// A host platform's path separator convention, passed in as a value
/// because the library itself is platform-neutral.
#[derive(Clone, Copy, Debug)]
pub enum HostSeparator {
    Slash,
    Backslash,
}

/// The separator character of a convention.
pub open spec fn sep_char(h: HostSeparator) -> char {
    match h {
        HostSeparator::Slash => '/',
        HostSeparator::Backslash => '\\',
    }
}

/// `s` with every separator character — `/` or `\` — replaced by the
/// host convention's separator.
pub open spec fn sep_normalized_to(s: Seq<char>, h: HostSeparator) -> Seq<char> {
    s.map_values(|c: char| if c == '/' || c == '\\' { sep_char(h) } else { c })
}

/// Whether `p` is a prefix of `s`.
pub open spec fn is_prefix(p: Seq<char>, s: Seq<char>) -> bool {
    p.len() <= s.len() && s.take(p.len() as int) == p
}

/// `a` and `b` joined with a single forward slash: an empty `a`
/// contributes nothing, and a trailing slash on `a` is not doubled.
pub open spec fn joined(a: Seq<char>, b: Seq<char>) -> Seq<char> {
    if a.len() == 0 {
        b
    } else if a.last() == '/' {
        a + b
    } else {
        a + seq!['/'] + b
    }
}

fn space_char(c: char) -> (r: bool)
    ensures
        r == is_space_char(c),
{
    let u = c as u32;
    (0x09 <= u && u <= 0x0D) || u == 0x20 || u == 0x85 || u == 0xA0 || u == 0x1680 || (0x2000
        <= u && u <= 0x200A) || u == 0x2028 || u == 0x2029 || u == 0x202F || u == 0x205F || u
        == 0x3000
}

/// The characters of `s`, in order.
pub fn str_chars(s: &str) -> (r: Vec<char>)
    ensures
        r@ == s@,
{
    let n = s.unicode_len();
    let mut r: Vec<char> = Vec::new();
    let mut i: usize = 0;
    while i < n
        invariant
            i <= n,
            n == s@.len(),
            r@ == s@.take(i as int),
        decreases n - i,
    {
        r.push(s.get_char(i));
        i = i + 1;
        assert(r@ =~= s@.take(i as int));
    }
    assert(r@ =~= s@);
    r
}

/// Builds an owned string from a character sequence.
///
/// Relies on `String: FromIterator<char>`: collecting characters yields
/// the string of exactly those characters, in order.
#[verifier::external_body]
pub fn string_from_chars(cs: &Vec<char>) -> (r: String)
    ensures
        r@ == cs@,
{
    cs.iter().collect()
}

/// Whether `s` is empty or whitespace-only, the test that decides if a
/// configured override is treated as absent.
pub fn is_blank_str(s: &str) -> (r: bool)
    ensures
        r == blank_spec(s@),
{
    let n = s.unicode_len();
    let mut i: usize = 0;
    while i < n
        invariant
            i <= n,
            n == s@.len(),
            forall|j: int| 0 <= j < i ==> is_space_char(#[trigger] s@[j]),
        decreases n - i,
    {
        if !space_char(s.get_char(i)) {
            return false;
        }
        i = i + 1;
    }
    true
}

/// `s` with its separators rewritten to the host convention the caller
/// names, the normalization a deletion target undergoes.
pub fn normalize_separators(s: &str, host: HostSeparator) -> (r: String)
    ensures
        r@ == sep_normalized_to(s@, host),
{
    let sep: char = match host {
        HostSeparator::Slash => '/',
        HostSeparator::Backslash => '\\',
    };
    let cs = str_chars(s);
    let mut out: Vec<char> = Vec::new();
    let mut i: usize = 0;
    while i < cs.len()
        invariant
            i <= cs@.len(),
            cs@ == s@,
            sep == sep_char(host),
            out@ == sep_normalized_to(s@.take(i as int), host),
        decreases cs@.len() - i,
    {
        let c = cs[i];
        if c == '/' || c == '\\' {
            out.push(sep);
        } else {
            out.push(c);
        }
        i = i + 1;
        assert(out@ =~= sep_normalized_to(s@.take(i as int), host));
    }
    assert(s@.take(cs@.len() as int) =~= s@);
    string_from_chars(&out)
}

/// Whether the characters of `s` start with the characters of `p`.
pub fn starts_with_chars(s: &Vec<char>, p: &Vec<char>) -> (r: bool)
    ensures
        r == is_prefix(p@, s@),
{
    if p.len() > s.len() {
        assert(!is_prefix(p@, s@));
        return false;
    }
    let mut i: usize = 0;
    while i < p.len()
        invariant
            i <= p@.len() <= s@.len(),
            forall|j: int| 0 <= j < i ==> s@[j] == p@[j],
        decreases p@.len() - i,
    {
        if s[i] != p[i] {
            assert(s@.take(p@.len() as int)[i as int] != p@[i as int]);
            return false;
        }
        i = i + 1;
    }
    assert(s@.take(p@.len() as int) =~= p@);
    true
}

/// Whether two strings hold the same characters.
pub fn str_eq(a: &str, b: &str) -> (r: bool)
    ensures
        r == (a@ == b@),
{
    let ca = str_chars(a);
    let cb = str_chars(b);
    if ca.len() != cb.len() {
        return false;
    }
    let mut i: usize = 0;
    while i < ca.len()
        invariant
            i <= ca@.len(),
            ca@.len() == cb@.len(),
            ca@ == a@,
            cb@ == b@,
            forall|j: int| 0 <= j < i ==> a@[j] == b@[j],
        decreases ca@.len() - i,
    {
        if ca[i] != cb[i] {
            return false;
        }
        i = i + 1;
    }
    proof {
        assert(a@ =~= b@);
    }
    true
}

/// `a` and `b` joined per the `joined` convention: a single forward
/// slash, never doubled, and an empty left side contributes nothing.
pub fn join_path(a: &str, b: &str) -> (r: String)
    ensures
        r@ == joined(a@, b@),
{
    let n = a.unicode_len();
    if n == 0 {
        return b.to_owned();
    }
    let last = a.get_char(n - 1);
    let mut r = a.to_owned();
    if last != '/' {
        r.append("/");
    }
    r.append(b);
    proof {
        reveal_strlit("/");
        assert(a@.last() == last);
        assert(r@ =~= joined(a@, b@));
    }
    r
}

} // verus!
