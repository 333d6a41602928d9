//! Mod identifiers and the `<Name>_<version>[.zip]` filename fast path.

use vstd::prelude::*;
use crate::version::{
    Version, find_char, find_from, is_digit, dec_str, lemma_dec_str_roundtrip,
    lemma_find_from_props, parse_version, push_char, spec_parse_version, spec_version_str,
    lemma_version_str_roundtrip, version_string,
};

verus! {

/// A mod identifier: a name plus an optional version.
///
/// An identifier without a version means "any version"; resolution against
/// the index then picks the newest one.
pub struct ModIdent {
    pub name: String,
    pub version: Option<Version>,
}

impl ModIdent {
    /// Returns the version of an identifier that is known to carry one.
    pub fn get_guaranteed_version(&self) -> (r: &Version)
        requires
            self.version is Some,
        ensures
            r == self.version->Some_0,
    {
        match &self.version {
            Some(v) => v,
            None => unreached(),
        }
    }

    /// Copies an identifier, keeping the name text and the version.
    pub fn duplicate(&self) -> (r: ModIdent)
        ensures
            r.name@ == self.name@,
            r.version == self.version,
    {
        ModIdent { name: self.name.clone(), version: self.version }
    }

    /// The identifier's text: `Name`, or `Name@major.minor.patch` when it
    /// carries a version.
    pub fn render(&self) -> (r: String)
        ensures
            match self.version {
                None => r@ == self.name@,
                Some(v) => r@ == self.name@ + seq!['@'] + spec_version_str(v),
            },
    {
        let mut out = self.name.clone();
        match &self.version {
            None => out,
            Some(v) => {
                push_char(&mut out, '@');
                let vs = version_string(v);
                out.append(vs.as_str());
                proof {
                    assert(out@ =~= self.name@ + seq!['@'] + spec_version_str(*v));
                }
                out
            },
        }
    }
}

/// An identifier string is `Name` or `Name@major.minor.patch`.
pub open spec fn spec_parse_ident(s: Seq<char>) -> Option<(Seq<char>, Option<Version>)> {
    let i = find_from(s, '@', 0);
    if i == s.len() {
        Some((s, None::<Version>))
    } else if spec_parse_version(s.subrange(i + 1, s.len() as int)) is Some {
        Some(
            (
                s.subrange(0, i),
                Some(spec_parse_version(s.subrange(i + 1, s.len() as int))->Some_0),
            ),
        )
    } else {
        None
    }
}

/// Parses a command-line identifier, `Name` or `Name@major.minor.patch`.
///
/// Returns `None` when an `@` is present but what follows it is not a
/// well-formed version.
pub fn parse_ident(s: &str) -> (r: Option<ModIdent>)
    ensures
        match r {
            Some(id) => spec_parse_ident(s@) == Some((id.name@, id.version)),
            None => spec_parse_ident(s@) is None,
        },
{
    let len = s.unicode_len();
    let i = find_char(s, '@', 0);
    proof {
        lemma_find_from_props(s@, '@', 0);
    }
    if i == len {
        proof {
            assert(s@.subrange(0, len as int) =~= s@);
        }
        return Some(ModIdent { name: s.to_owned(), version: None });
    }
    let vpart = s.substring_char(i + 1, len);
    match parse_version(vpart) {
        Some(v) => Some(
            ModIdent { name: s.substring_char(0, i).to_owned(), version: Some(v) },
        ),
        None => None,
    }
}

/// Strips every trailing `.zip` from a filename.
pub open spec fn spec_strip_zip(s: Seq<char>) -> Seq<char>
    decreases s.len(),
{
    if s.len() >= 4 && s.subrange(s.len() - 4, s.len() as int) == seq!['.', 'z', 'i', 'p'] {
        spec_strip_zip(s.subrange(0, s.len() - 4))
    } else {
        s
    }
}

/// Strips every trailing `.zip` from a filename.
pub fn strip_zip(s: &str) -> (r: &str)
    ensures
        r@ == spec_strip_zip(s@),
    decreases s@.len(),
{
    let len = s.unicode_len();
    if len >= 4 && s.get_char(len - 4) == '.' && s.get_char(len - 3) == 'z' && s.get_char(
        len - 2,
    ) == 'i' && s.get_char(len - 1) == 'p' {
        proof {
            assert(s@.subrange(len - 4, len as int) =~= seq!['.', 'z', 'i', 'p']);
        }
        let t = s.substring_char(0, len - 4);
        strip_zip(t)
    } else {
        proof {
            if s@.len() >= 4 {
                let quad = s@.subrange(s@.len() - 4, s@.len() as int);
                assert(quad[0] == s@[s@.len() - 4]);
                assert(quad[1] == s@[s@.len() - 3]);
                assert(quad[2] == s@[s@.len() - 2]);
                assert(quad[3] == s@[s@.len() - 1]);
                assert(quad != seq!['.', 'z', 'i', 'p']);
            }
        }
        s
    }
}

/// Index of the last occurrence of `c`, or `-1` when absent.
pub open spec fn find_last(s: Seq<char>, c: char) -> int
    decreases s.len(),
{
    if s.len() == 0 {
        -1
    } else if s.last() == c {
        s.len() - 1
    } else {
        find_last(s.drop_last(), c)
    }
}

/// Skipping a `c`-free tail does not change where the last `c` is.
pub proof fn lemma_find_last_skip(s: Seq<char>, c: char, j: int)
    requires
        0 <= j <= s.len(),
        forall|k: int| j <= k < s.len() ==> s[k] != c,
    ensures
        find_last(s, c) == find_last(s.subrange(0, j), c),
    decreases s.len() - j,
{
    if j == s.len() {
        assert(s.subrange(0, j) =~= s);
    } else {
        assert(s.last() != c);
        assert(s.drop_last() =~= s.subrange(0, s.len() - 1));
        lemma_find_last_skip(s.subrange(0, s.len() - 1), c, j);
        assert(s.subrange(0, s.len() - 1).subrange(0, j) =~= s.subrange(0, j));
    }
}

/// Finds the last occurrence of `c` in `s`.
pub fn find_last_char(s: &str, c: char) -> (r: Option<usize>)
    ensures
        match r {
            Some(i) => find_last(s@, c) == i && i < s@.len(),
            None => find_last(s@, c) == -1,
        },
{
    let len = s.unicode_len();
    let mut j: usize = len;
    while j > 0
        invariant
            j <= len,
            len == s@.len(),
            forall|k: int| j <= k < len ==> s@[k] != c,
        decreases j,
    {
        let ch = s.get_char(j - 1);
        if ch == c {
            proof {
                lemma_find_last_skip(s@, c, j as int);
                assert(s@.subrange(0, j as int).last() == s@[j - 1]);
            }
            return Some(j - 1);
        }
        j -= 1;
    }
    proof {
        lemma_find_last_skip(s@, c, 0);
        assert(s@.subrange(0, 0) =~= Seq::<char>::empty());
    }
    None
}

/// The filename fast path: after stripping `.zip`, the text after the last
/// `_` must be a strict version; what precedes the `_` is the mod name.
pub open spec fn spec_parse_file_name(s: Seq<char>) -> Option<(Seq<char>, Version)> {
    let t = spec_strip_zip(s);
    let i = find_last(t, '_');
    if i >= 0 && spec_parse_version(t.subrange(i + 1, t.len() as int)) is Some {
        Some((t.subrange(0, i), spec_parse_version(t.subrange(i + 1, t.len() as int))->Some_0))
    } else {
        None
    }
}

/// Extracts a mod name and version from a `<Name>_<version>[.zip]` filename
/// without opening the package.
pub fn parse_file_name(file_name: &str) -> (r: Option<(String, Version)>)
    ensures
        match r {
            Some(p) => spec_parse_file_name(file_name@) == Some((p.0@, p.1)),
            None => spec_parse_file_name(file_name@) is None,
        },
{
    let t = strip_zip(file_name);
    let tlen = t.unicode_len();
    match find_last_char(t, '_') {
        Some(i) => {
            let vpart = t.substring_char(i + 1, tlen);
            match parse_version(vpart) {
                Some(v) => Some((t.substring_char(0, i).to_owned(), v)),
                None => None,
            }
        },
        None => None,
    }
}

/// The fast path inverts formatting: a filename assembled from a name and a
/// version parses back to exactly that name and version, so the fast path
/// agrees with metadata that declares the same name and version.
pub proof fn lemma_parse_file_name_roundtrip(name: Seq<char>, v: Version)
    ensures
        spec_parse_file_name(name + seq!['_'] + spec_version_str(v) + seq!['.', 'z', 'i', 'p'])
            == Some((name, v)),
{
    let vs = spec_version_str(v);
    let t = name + seq!['_'] + vs;
    let s = t + seq!['.', 'z', 'i', 'p'];
    lemma_dec_str_roundtrip(v.major as nat);
    lemma_dec_str_roundtrip(v.minor as nat);
    lemma_dec_str_roundtrip(v.patch as nat);
    // one `.zip` is stripped, and only one: `t` ends with a digit
    assert(s.subrange(s.len() - 4, s.len() as int) =~= seq!['.', 'z', 'i', 'p']);
    assert(s.subrange(0, s.len() - 4) =~= t);
    assert(t.len() >= 4 ==> {
        let quad = t.subrange(t.len() - 4, t.len() as int);
        quad[3] == t.last()
    });
    assert(t.last() == vs.last());
    assert(vs.last() == dec_str(v.patch as nat).last());
    assert(is_digit(vs.last()));
    if t.len() >= 4 {
        let quad = t.subrange(t.len() - 4, t.len() as int);
        assert(quad[3] == t.last());
        assert(seq!['.', 'z', 'i', 'p'][3] == 'p');
        assert(quad != seq!['.', 'z', 'i', 'p']);
    }
    assert(spec_strip_zip(t) == t);
    assert(spec_strip_zip(s) == spec_strip_zip(s.subrange(0, s.len() - 4)));
    assert(spec_strip_zip(s) == t);
    // the last `_` of `t` is the one between the name and the version
    assert forall|k: int| name.len() + 1 <= k < t.len() implies t[k] != '_' by {
        assert(t[k] == vs[k - name.len() - 1]);
        lemma_version_chars(v, k - name.len() - 1);
    }
    lemma_find_last_skip(t, '_', name.len() as int + 1);
    assert(t.subrange(0, name.len() as int + 1).last() == '_');
    assert(find_last(t, '_') == name.len());
    assert(t.subrange(name.len() as int + 1, t.len() as int) =~= vs);
    lemma_version_str_roundtrip(v);
    assert(t.subrange(0, name.len() as int) =~= name);
}

/// Every character of a rendered version is a digit or a dot.
pub proof fn lemma_version_chars(v: Version, k: int)
    requires
        0 <= k < spec_version_str(v).len(),
    ensures
        is_digit(spec_version_str(v)[k]) || spec_version_str(v)[k] == '.',
{
    let a = dec_str(v.major as nat);
    let b = dec_str(v.minor as nat);
    let c = dec_str(v.patch as nat);
    lemma_dec_str_roundtrip(v.major as nat);
    lemma_dec_str_roundtrip(v.minor as nat);
    lemma_dec_str_roundtrip(v.patch as nat);
    let s = spec_version_str(v);
    if k < a.len() {
        assert(s[k] == a[k]);
    } else if k == a.len() {
        assert(s[k] == '.');
    } else if k < a.len() + 1 + b.len() {
        assert(s[k] == b[k - a.len() - 1]);
    } else if k == a.len() + 1 + b.len() {
        assert(s[k] == '.');
    } else {
        assert(s[k] == c[k - a.len() - b.len() - 2]);
    }
}

} // verus!
