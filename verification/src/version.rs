//! Three-component semantic versions: parsing, formatting, and ordering.

use vstd::prelude::*;

verus! {

/// A mod version with the three numeric components `major.minor.patch`.
///
/// The model is deliberately numeric-only: pre-release and build suffixes
/// are not part of it, so a package that declares one is skipped at scan
/// rather than mis-ordered.
#[derive(Clone, Copy, Debug, PartialEq, Eq, Structural)]
pub struct Version {
    pub major: u64,
    pub minor: u64,
    pub patch: u64,
}

/// Lexicographic order on the three components.
pub open spec fn version_lt(a: Version, b: Version) -> bool {
    a.major < b.major || (a.major == b.major && (a.minor < b.minor || (a.minor == b.minor
        && a.patch < b.patch)))
}

impl Version {
    /// Compares two versions; the order is lexicographic on the components.
    pub fn lt(&self, other: &Version) -> (r: bool)
        ensures
            r == version_lt(*self, *other),
    {
        self.major < other.major || (self.major == other.major && (self.minor < other.minor || (
        self.minor == other.minor && self.patch < other.patch)))
    }
}

pub open spec fn is_digit(c: char) -> bool {
    '0' <= c && c <= '9'
}

pub open spec fn digit_val(c: char) -> nat {
    (c as nat - '0' as nat) as nat
}

pub open spec fn digit_char(d: nat) -> char {
    ((d + 0x30) as u8) as char
}

/// A non-empty run of decimal digits.
pub open spec fn is_dec_digits(s: Seq<char>) -> bool {
    s.len() > 0 && forall|i: int| 0 <= i < s.len() ==> is_digit(#[trigger] s[i])
}

/// The numeric value of a digit string, most significant digit first.
pub open spec fn dec_val(s: Seq<char>) -> nat
    decreases s.len(),
{
    if s.len() == 0 {
        0
    } else {
        dec_val(s.drop_last()) * 10 + digit_val(s.last())
    }
}

/// The canonical decimal digit string of a number (no leading zeros).
pub open spec fn dec_str(n: nat) -> Seq<char>
    decreases n,
{
    if n < 10 {
        seq![digit_char(n)]
    } else {
        dec_str(n / 10).push(digit_char(n % 10))
    }
}

/// The value of a prefix of a digit string never exceeds the whole string's value.
pub proof fn lemma_dec_val_prefix(s: Seq<char>, i: int)
    requires
        0 <= i <= s.len(),
    ensures
        dec_val(s.subrange(0, i)) <= dec_val(s),
    decreases s.len() - i,
{
    if i == s.len() {
        assert(s.subrange(0, i) =~= s);
    } else {
        lemma_dec_val_prefix(s, i + 1);
        assert(s.subrange(0, i + 1).drop_last() =~= s.subrange(0, i));
        assert(dec_val(s.subrange(0, i + 1)) == dec_val(s.subrange(0, i)) * 10 + digit_val(
            s.subrange(0, i + 1).last(),
        ));
        assert(dec_val(s.subrange(0, i)) <= dec_val(s.subrange(0, i)) * 10) by (nonlinear_arith);
    }
}

/// The canonical digit string of a number parses back to that number.
pub proof fn lemma_dec_str_roundtrip(n: nat)
    ensures
        is_dec_digits(dec_str(n)),
        dec_val(dec_str(n)) == n,
    decreases n,
{
    if n < 10 {
        assert(dec_str(n) =~= seq![digit_char(n)]);
        assert(dec_str(n).drop_last() =~= Seq::<char>::empty());
        assert(dec_str(n).last() == digit_char(n));
        assert(digit_val(digit_char(n)) == n);
        assert(is_digit(digit_char(n)));
        assert(dec_str(n)[0] == digit_char(n));
        assert(dec_val(dec_str(n).drop_last()) == 0);
        assert(dec_val(dec_str(n)) == 0 * 10 + digit_val(dec_str(n).last()));
        assert(dec_val(dec_str(n)) == n);
    } else {
        lemma_dec_str_roundtrip(n / 10);
        let s = dec_str(n / 10);
        let c = digit_char(n % 10);
        assert(s.push(c).drop_last() =~= s);
        assert(s.push(c).last() == c);
        assert(digit_val(c) == n % 10);
        assert(is_digit(c));
        vstd::arithmetic::div_mod::lemma_fundamental_div_mod(n as int, 10);
        assert(n == 10 * ((n as int) / 10) + (n as int) % 10);
        assert(dec_val(dec_str(n)) == dec_val(s) * 10 + digit_val(c));
        assert(dec_val(s) == n / 10);
        assert(dec_val(dec_str(n)) == (n / 10) * 10 + (n % 10));
        assert(dec_val(dec_str(n)) == n);
        assert forall|i: int| 0 <= i < dec_str(n).len() implies is_digit(#[trigger] dec_str(n)[i]) by {
            if i < s.len() {
                assert(dec_str(n)[i] == s[i]);
            } else {
                assert(dec_str(n)[i] == c);
            }
        }
    }
}

/// Relies on `String::push`: appends exactly one character at the end.
#[verifier::external_body]
pub(crate) fn push_char(s: &mut String, c: char)
    ensures
        final(s)@ == old(s)@.push(c),
{
    s.push(c);
}

/// Parses a whole string of decimal digits as a `u64`.
///
/// Returns `Some` exactly when the string is a non-empty run of digits whose
/// value fits in a `u64`.
pub fn parse_u64(s: &str) -> (r: Option<u64>)
    ensures
        match r {
            Some(n) => is_dec_digits(s@) && n == dec_val(s@),
            None => !(is_dec_digits(s@) && dec_val(s@) <= u64::MAX),
        },
{
    let len = s.unicode_len();
    if len == 0 {
        return None;
    }
    let mut i: usize = 0;
    let mut val: u64 = 0;
    while i < len
        invariant
            0 <= i <= len,
            len == s@.len(),
            forall|k: int| 0 <= k < i ==> is_digit(#[trigger] s@[k]),
            val == dec_val(s@.subrange(0, i as int)),
        decreases len - i,
    {
        let c = s.get_char(i);
        let u = c as u32;
        if u < 0x30 || u > 0x39 {
            assert(!is_digit(s@[i as int]));
            return None;
        }
        let d = (u - 0x30) as u64;
        assert(is_digit(s@[i as int]) && d == digit_val(s@[i as int]));
        let step = match val.checked_mul(10) {
            Some(m) => m.checked_add(d),
            None => None,
        };
        proof {
            assert(s@.subrange(0, i + 1).drop_last() =~= s@.subrange(0, i as int));
            assert(s@.subrange(0, i + 1).last() == s@[i as int]);
            assert(dec_val(s@.subrange(0, i + 1)) == val * 10 + d);
        }
        match step {
            Some(next) => {
                val = next;
            },
            None => {
                proof {
                    lemma_dec_val_prefix(s@, i + 1);
                }
                return None;
            },
        }
        i += 1;
    }
    proof {
        assert(s@.subrange(0, len as int) =~= s@);
    }
    Some(val)
}

/// Formats a `u64` as its canonical decimal digit string.
pub fn u64_to_string(n: u64) -> (r: String)
    ensures
        r@ == dec_str(n as nat),
    decreases n,
{
    let d = n % 10;
    let c = ((0x30 + d) as u8) as char;
    assert(c == digit_char((n % 10) as nat));
    if n < 10 {
        let mut s = String::new();
        push_char(&mut s, c);
        proof {
            assert(s@ =~= seq![digit_char(n as nat)]);
        }
        s
    } else {
        let mut s = u64_to_string(n / 10);
        push_char(&mut s, c);
        proof {
            assert(s@ =~= dec_str((n / 10) as nat).push(digit_char((n % 10) as nat)));
        }
        s
    }
}


/// Index of the first occurrence of `c` at or after `from`; the length when absent.
pub open spec fn find_from(s: Seq<char>, c: char, from: int) -> int
    decreases s.len() - from,
{
    if from < 0 || from >= s.len() {
        s.len() as int
    } else if s[from] == c {
        from
    } else {
        find_from(s, c, from + 1)
    }
}

/// `find_from` returns the position just past a `c`-free range, when that
/// position holds `c` or is the end of the string.
pub proof fn lemma_find_from_range(s: Seq<char>, c: char, from: int, j: int)
    requires
        0 <= from <= j <= s.len(),
        forall|k: int| from <= k < j ==> s[k] != c,
        j == s.len() || s[j] == c,
    ensures
        find_from(s, c, from) == j,
    decreases j - from,
{
    if from < j {
        lemma_find_from_range(s, c, from + 1, j);
    }
}

pub proof fn lemma_find_from_props(s: Seq<char>, c: char, from: int)
    requires
        0 <= from <= s.len(),
    ensures
        from <= find_from(s, c, from) <= s.len(),
        find_from(s, c, from) < s.len() ==> s[find_from(s, c, from)] == c,
        forall|k: int| from <= k < find_from(s, c, from) ==> s[k] != c,
    decreases s.len() - from,
{
    if from < s.len() && s[from] != c {
        lemma_find_from_props(s, c, from + 1);
    }
}

/// Finds the first occurrence of `c` at or after `from`; returns the length when absent.
pub fn find_char(s: &str, c: char, from: usize) -> (r: usize)
    requires
        from <= s@.len(),
    ensures
        r == find_from(s@, c, from as int),
{
    let len = s.unicode_len();
    let mut i: usize = from;
    while i < len
        invariant
            from <= i <= len,
            len == s@.len(),
            forall|k: int| from <= k < i ==> s@[k] != c,
        decreases len - i,
    {
        if s.get_char(i) == c {
            proof {
                lemma_find_from_range(s@, c, from as int, i as int);
            }
            return i;
        }
        i += 1;
    }
    proof {
        lemma_find_from_range(s@, c, from as int, len as int);
    }
    len
}

pub open spec fn valid_u64_str(s: Seq<char>) -> bool {
    is_dec_digits(s) && dec_val(s) <= u64::MAX
}

/// A version string is exactly three dot-separated runs of decimal digits,
/// each of which fits in a `u64`.
pub open spec fn spec_parse_version(s: Seq<char>) -> Option<Version> {
    let i = find_from(s, '.', 0);
    let j = find_from(s, '.', i + 1);
    if j < s.len() && find_from(s, '.', j + 1) == s.len() && valid_u64_str(s.subrange(0, i))
        && valid_u64_str(s.subrange(i + 1, j)) && valid_u64_str(
        s.subrange(j + 1, s.len() as int),
    ) {
        Some(
            Version {
                major: dec_val(s.subrange(0, i)) as u64,
                minor: dec_val(s.subrange(i + 1, j)) as u64,
                patch: dec_val(s.subrange(j + 1, s.len() as int)) as u64,
            },
        )
    } else {
        None
    }
}

/// Parses a strict `major.minor.patch` version string.
pub fn parse_version(s: &str) -> (r: Option<Version>)
    ensures
        r == spec_parse_version(s@),
{
    let len = s.unicode_len();
    let i = find_char(s, '.', 0);
    proof {
        lemma_find_from_props(s@, '.', 0);
    }
    if i == len {
        return None;
    }
    let j = find_char(s, '.', i + 1);
    proof {
        lemma_find_from_props(s@, '.', i + 1);
    }
    if j == len {
        return None;
    }
    let k = find_char(s, '.', j + 1);
    if k != len {
        return None;
    }
    let major = parse_u64(s.substring_char(0, i));
    let minor = parse_u64(s.substring_char(i + 1, j));
    let patch = parse_u64(s.substring_char(j + 1, len));
    match (major, minor, patch) {
        (Some(a), Some(b), Some(c)) => Some(Version { major: a, minor: b, patch: c }),
        _ => None,
    }
}

/// The canonical `major.minor.patch` rendering of a version.
pub open spec fn spec_version_str(v: Version) -> Seq<char> {
    dec_str(v.major as nat) + seq!['.'] + dec_str(v.minor as nat) + seq!['.'] + dec_str(
        v.patch as nat,
    )
}

/// Formats a version as `major.minor.patch`.
pub fn version_string(v: &Version) -> (r: String)
    ensures
        r@ == spec_version_str(*v),
{
    let mut s = u64_to_string(v.major);
    push_char(&mut s, '.');
    let m = u64_to_string(v.minor);
    s.append(m.as_str());
    push_char(&mut s, '.');
    let p = u64_to_string(v.patch);
    s.append(p.as_str());
    proof {
        assert(s@ =~= spec_version_str(*v));
    }
    s
}

/// Rendering a version and parsing the result returns the same version.
pub proof fn lemma_version_str_roundtrip(v: Version)
    ensures
        spec_parse_version(spec_version_str(v)) == Some(v),
{
    let a = dec_str(v.major as nat);
    let b = dec_str(v.minor as nat);
    let c = dec_str(v.patch as nat);
    lemma_dec_str_roundtrip(v.major as nat);
    lemma_dec_str_roundtrip(v.minor as nat);
    lemma_dec_str_roundtrip(v.patch as nat);
    let s = spec_version_str(v);
    let i = a.len() as int;
    let j: int = a.len() as int + 1 + b.len() as int;
    assert(s.len() == a.len() + 1 + b.len() + 1 + c.len());
    assert(s[i] == '.');
    assert(s[j] == '.');
    assert forall|k: int| 0 <= k < i implies s[k] != '.' by {
        assert(s[k] == a[k]);
        assert(is_digit(a[k]));
    }
    lemma_find_from_range(s, '.', 0, i);
    assert forall|k: int| i + 1 <= k < j implies s[k] != '.' by {
        assert(s[k] == b[k - i - 1]);
        assert(is_digit(b[k - i - 1]));
    }
    lemma_find_from_range(s, '.', i + 1, j);
    assert forall|k: int| j + 1 <= k < s.len() implies s[k] != '.' by {
        assert(s[k] == c[k - j - 1]);
        assert(is_digit(c[k - j - 1]));
    }
    lemma_find_from_range(s, '.', j + 1, s.len() as int);
    assert(s.subrange(0, i) =~= a);
    assert(s.subrange(i + 1, j) =~= b);
    assert(s.subrange(j + 1, s.len() as int) =~= c);
}

} // verus!
