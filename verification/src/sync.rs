//! The save-file decoder: locates the level-state blob in a save archive,
//! inflates it when compressed, and parses its binary layout to recover the
//! game version, the scenario identity, and the save's mod list.

use vstd::prelude::*;
use crate::ident::ModIdent;
use crate::version::Version;
use std::io::Read;

verus! {

/// Hard cap on level-state bytes read or kept, whatever the entry declares.
pub const ONE_MEBIBYTE: usize = 1048576;

/// Cap on the compressed level entry's own bytes. One mebibyte of level
/// state compresses to at most a little over one mebibyte (deflate expands
/// incompressible data by well under one part in a thousand), so two
/// mebibytes of input always suffice to inflate the mebibyte that is kept,
/// while still bounding memory against hostile archives.
pub const LEVEL_INPUT_CAP: usize = 2097152;

/// What a save archive declares about itself.
pub struct SaveFile {
    pub map_version: Version,
    pub mods: Vec<ModIdent>,
    pub scenario: String,
    pub scenario_mod_name: String,
}

/// Why a save file could not be decoded.
#[derive(Clone, Copy, Debug, PartialEq, Eq, Structural)]
pub enum SaveFileErr {
    /// No level.dat was found in the save file.
    NoLevelDat,
    /// The archive does not open as a zip container, or its level entry
    /// cannot be read or inflated.
    BadArchive,
    /// The level data ends before the fields it advertises.
    TruncatedLevelData,
}

/// The little-endian 16-bit value at offset `i`.
pub open spec fn u16_le(s: Seq<u8>, i: int) -> int {
    s[i] + 256 * s[i + 1]
}

/// A length-prefixed string at `pos`: one length byte, then that many bytes.
/// Yields the raw bytes and the offset just past them.
pub open spec fn spec_read_string(s: Seq<u8>, pos: int) -> Option<(Seq<u8>, int)> {
    if 0 <= pos && pos + 1 <= s.len() {
        let n = s[pos] as int;
        if pos + 1 + n <= s.len() {
            Some((s.subrange(pos + 1, pos + 1 + n), pos + 1 + n))
        } else {
            None
        }
    } else {
        None
    }
}

/// `count` mod records from `pos`: each is a length-prefixed name followed
/// by seven reserved bytes. Yields the names and the final offset.
pub open spec fn spec_read_mods(s: Seq<u8>, pos: int, count: nat) -> Option<(Seq<Seq<u8>>, int)>
    decreases count,
{
    if count == 0 {
        Some((Seq::<Seq<u8>>::empty(), pos))
    } else {
        match spec_read_string(s, pos) {
            Some(p) => {
                if p.1 + 7 <= s.len() {
                    match spec_read_mods(s, p.1 + 7, (count - 1) as nat) {
                        Some(q) => Some((seq![p.0] + q.0, q.1)),
                        None => None,
                    }
                } else {
                    None
                }
            },
            None => None,
        }
    }
}

/// The decoded fields of a level-state blob, still as raw bytes.
pub struct SpecSave {
    pub major: int,
    pub minor: int,
    pub patch: int,
    pub scenario: Seq<u8>,
    pub scenario_mod: Seq<u8>,
    pub mods: Seq<Seq<u8>>,
}

/// The level-state layout: four little-endian 16-bit version words (the
/// fourth, the build number, is discarded), two reserved bytes, the scenario
/// name and its owning mod as length-prefixed strings, fourteen reserved
/// bytes, a one-byte mod count, then that many mod records.
pub open spec fn spec_parse_save(s: Seq<u8>) -> Option<SpecSave> {
    if s.len() >= 10 {
        match spec_read_string(s, 10) {
            Some(scen) => match spec_read_string(s, scen.1) {
                Some(smod) => {
                    if smod.1 + 15 <= s.len() {
                        let cnt = s[smod.1 + 14] as nat;
                        match spec_read_mods(s, smod.1 + 15, cnt) {
                            Some(mods) => Some(
                                SpecSave {
                                    major: u16_le(s, 0),
                                    minor: u16_le(s, 2),
                                    patch: u16_le(s, 4),
                                    scenario: scen.0,
                                    scenario_mod: smod.0,
                                    mods: mods.0,
                                },
                            ),
                            None => None,
                        }
                    } else {
                        None
                    }
                },
                None => None,
            },
            None => None,
        }
    } else {
        None
    }
}

/// What it means for a decoded `SaveFile` to render a parsed blob: equal
/// version numbers, lossily-decoded strings, and one versionless identifier
/// per mod name, in order.
pub open spec fn save_corresponds(sf: SaveFile, sp: SpecSave) -> bool {
    &&& sf.map_version.major == sp.major
    &&& sf.map_version.minor == sp.minor
    &&& sf.map_version.patch == sp.patch
    &&& sf.scenario@ == utf8_lossy_of(sp.scenario)
    &&& sf.scenario_mod_name@ == utf8_lossy_of(sp.scenario_mod)
    &&& sf.mods@.len() == sp.mods.len()
    &&& forall|j: int|
        0 <= j < sp.mods.len() ==> (#[trigger] sf.mods@[j]).name@ == utf8_lossy_of(sp.mods[j])
            && sf.mods@[j].version is None
}

pub uninterp spec fn utf8_lossy_of(b: Seq<u8>) -> Seq<char>;

/// Relies on `String::from_utf8_lossy`: the decoding is a function of the
/// bytes alone (invalid sequences become replacement characters).
#[verifier::external_body]
fn utf8_lossy(b: &Vec<u8>) -> (r: String)
    ensures
        r@ == utf8_lossy_of(b@),
{
    String::from_utf8_lossy(b).to_string()
}

/// Reads a little-endian 16-bit word and advances the cursor.
fn read_u16(bytes: &Vec<u8>, pos: &mut usize) -> (r: Result<u16, SaveFileErr>)
    ensures
        match r {
            Ok(v) => *old(pos) + 2 <= bytes@.len() && v as int == u16_le(bytes@, *old(pos) as int)
                && *final(pos) == *old(pos) + 2,
            Err(e) => e == SaveFileErr::TruncatedLevelData && *old(pos) + 2 > bytes@.len()
                && *final(pos) == *old(pos),
        },
{
    let p = *pos;
    if bytes.len() >= 2 && p <= bytes.len() - 2 {
        let lo = bytes[p];
        let hi = bytes[p + 1];
        *pos = p + 2;
        Ok((lo as u16) + (hi as u16) * 256)
    } else {
        Err(SaveFileErr::TruncatedLevelData)
    }
}

/// Reads a length-prefixed string, decoding its bytes as lossy UTF-8, and
/// advances the cursor past it.
pub fn read_string(bytes: &Vec<u8>, pos: &mut usize) -> (r: Result<String, SaveFileErr>)
    ensures
        match r {
            Ok(s) => spec_read_string(bytes@, *old(pos) as int) matches Some(p) && s@
                == utf8_lossy_of(p.0) && *final(pos) == p.1 && *final(pos) <= bytes@.len(),
            Err(e) => e == SaveFileErr::TruncatedLevelData && spec_read_string(
                bytes@,
                *old(pos) as int,
            ) is None && *final(pos) == *old(pos),
        },
{
    let p = *pos;
    if p >= bytes.len() {
        return Err(SaveFileErr::TruncatedLevelData);
    }
    let n = bytes[p] as usize;
    if n > bytes.len() - (p + 1) {
        return Err(SaveFileErr::TruncatedLevelData);
    }
    let blen = bytes.len();
    let mut content: Vec<u8> = Vec::new();
    let mut k: usize = 0;
    while k < n
        invariant
            0 <= k <= n,
            blen == bytes@.len(),
            p + 1 + n <= blen,
            content@.len() == k,
            forall|j: int| 0 <= j < k ==> content@[j] == bytes@[p + 1 + j],
        decreases n - k,
    {
        content.push(bytes[p + 1 + k]);
        k += 1;
    }
    proof {
        assert(content@ =~= bytes@.subrange(p as int + 1, p as int + 1 + n as int));
    }
    *pos = p + 1 + n;
    Ok(utf8_lossy(&content))
}

/// Reads one mod record: a length-prefixed name, then seven reserved bytes
/// (the embedded version triple, which the format does not let us recover,
/// so the identifier's version is absent).
fn read_mod(bytes: &Vec<u8>, pos: &mut usize) -> (r: Result<ModIdent, SaveFileErr>)
    ensures
        match r {
            Ok(id) => spec_read_string(bytes@, *old(pos) as int) matches Some(p) && p.1 + 7
                <= bytes@.len() && id.name@ == utf8_lossy_of(p.0) && id.version is None
                && *final(pos) == p.1 + 7 && *final(pos) <= bytes@.len(),
            Err(e) => e == SaveFileErr::TruncatedLevelData && (spec_read_string(
                bytes@,
                *old(pos) as int,
            ) is None || spec_read_string(bytes@, *old(pos) as int)->Some_0.1 + 7 > bytes@.len()),
        },
{
    match read_string(bytes, pos) {
        Ok(name) => {
            if bytes.len() - *pos >= 7 {
                *pos = *pos + 7;
                Ok(ModIdent { name, version: None })
            } else {
                Err(SaveFileErr::TruncatedLevelData)
            }
        },
        Err(e) => Err(e),
    }
}

/// Parses a level-state blob. Succeeds exactly when the blob is long enough
/// for every field it advertises; the result then renders the parsed fields.
#[verifier::loop_isolation(false)]
pub fn parse_level_data(bytes: &Vec<u8>) -> (r: Result<SaveFile, SaveFileErr>)
    ensures
        match r {
            Ok(sf) => spec_parse_save(bytes@) matches Some(sp) && save_corresponds(sf, sp),
            Err(e) => e == SaveFileErr::TruncatedLevelData && spec_parse_save(bytes@) is None,
        },
{
    if bytes.len() < 10 {
        return Err(SaveFileErr::TruncatedLevelData);
    }
    let mut pos: usize = 0;
    let major = match read_u16(bytes, &mut pos) {
        Ok(v) => v,
        Err(e) => {
            return Err(e);
        },
    };
    let minor = match read_u16(bytes, &mut pos) {
        Ok(v) => v,
        Err(e) => {
            return Err(e);
        },
    };
    let patch = match read_u16(bytes, &mut pos) {
        Ok(v) => v,
        Err(e) => {
            return Err(e);
        },
    };
    let _build = match read_u16(bytes, &mut pos) {
        Ok(v) => v,
        Err(e) => {
            return Err(e);
        },
    };
    pos += 2;
    assert(pos == 10);
    let scenario = match read_string(bytes, &mut pos) {
        Ok(s) => s,
        Err(e) => {
            return Err(e);
        },
    };
    let ghost p1 = pos as int;
    proof {
        assert(spec_read_string(bytes@, 10) is Some);
        assert(spec_read_string(bytes@, 10)->Some_0.1 == p1);
        assert(scenario@ == utf8_lossy_of(spec_read_string(bytes@, 10)->Some_0.0));
    }
    let scenario_mod_name = match read_string(bytes, &mut pos) {
        Ok(s) => s,
        Err(e) => {
            return Err(e);
        },
    };
    let ghost p2 = pos as int;
    proof {
        assert(spec_read_string(bytes@, p1) is Some);
        assert(spec_read_string(bytes@, p1)->Some_0.1 == p2);
        assert(scenario_mod_name@ == utf8_lossy_of(spec_read_string(bytes@, p1)->Some_0.0));
    }
    if bytes.len() - pos < 15 {
        return Err(SaveFileErr::TruncatedLevelData);
    }
    pos += 14;
    let cnt = bytes[pos];
    pos += 1;
    let ghost pstart = pos as int;
    assert(pstart == p2 + 15);
    assert(p2 + 15 <= bytes@.len());
    assert(cnt as nat == bytes@[p2 + 14] as nat);
    let mut mods: Vec<ModIdent> = Vec::new();
    let ghost mut acc: Seq<Seq<u8>> = Seq::<Seq<u8>>::empty();
    let mut i: usize = 0;
    proof {
        assert(acc + spec_read_mods(bytes@, pstart, cnt as nat)->Some_0.0 =~= spec_read_mods(
            bytes@,
            pstart,
            cnt as nat,
        )->Some_0.0);
    }
    while i < cnt as usize
        invariant
            0 <= i <= cnt,
            pos <= bytes@.len(),
            acc.len() == i,
            mods@.len() == i,
            forall|j: int|
                0 <= j < i ==> (#[trigger] mods@[j]).name@ == utf8_lossy_of(acc[j])
                    && mods@[j].version is None,
            spec_read_mods(bytes@, pstart, cnt as nat) == (match spec_read_mods(
                bytes@,
                pos as int,
                (cnt - i) as nat,
            ) {
                Some(q) => Some((acc + q.0, q.1)),
                None => None::<(Seq<Seq<u8>>, int)>,
            }),
        decreases cnt - i,
    {
        let ghost pos0 = pos as int;
        let ghost k = (cnt - i) as nat;
        match read_mod(bytes, &mut pos) {
            Ok(id) => {
                proof {
                    let p = spec_read_string(bytes@, pos0)->Some_0;
                    if spec_read_mods(bytes@, p.1 + 7, (k - 1) as nat) is Some {
                        let q = spec_read_mods(bytes@, p.1 + 7, (k - 1) as nat)->Some_0;
                        assert(acc + (seq![p.0] + q.0) =~= (acc + seq![p.0]) + q.0);
                    }
                    acc = acc + seq![p.0];
                }
                mods.push(id);
            },
            Err(e) => {
                proof {
                    assert(spec_read_mods(bytes@, pos0, k) is None);
                    assert(spec_read_mods(bytes@, pstart, cnt as nat) is None);
                    let scen = spec_read_string(bytes@, 10)->Some_0;
                    let smod = spec_read_string(bytes@, scen.1)->Some_0;
                    assert(scen.1 == p1);
                    assert(smod.1 == p2);
                    assert(smod.1 + 15 <= bytes@.len());
                    assert(bytes@[smod.1 + 14] as nat == cnt as nat);
                    assert(spec_read_mods(bytes@, smod.1 + 15, bytes@[smod.1 + 14] as nat)
                        is None);
                    assert(spec_parse_save(bytes@) is None);
                }
                return Err(e);
            },
        }
        i += 1;
    }
    proof {
        assert(spec_read_mods(bytes@, pos as int, 0) == Some((Seq::<Seq<u8>>::empty(), pos as int)));
        assert(acc + Seq::<Seq<u8>>::empty() =~= acc);
        assert(spec_read_mods(bytes@, pstart, cnt as nat) == Some((acc, pos as int)));
    }
    let sf = SaveFile {
        map_version: Version { major: major as u64, minor: minor as u64, patch: patch as u64 },
        mods,
        scenario,
        scenario_mod_name,
    };
    proof {
        let sp = spec_parse_save(bytes@)->Some_0;
        assert(save_corresponds(sf, sp));
    }
    Ok(sf)
}

/// A needle occurs contiguously somewhere in the haystack.
pub open spec fn contains_seq(hay: Seq<char>, needle: Seq<char>) -> bool {
    exists|i: int|
        0 <= i <= hay.len() - needle.len() && #[trigger] hay.subrange(i, i + needle.len() as int)
            == needle
}

/// Compares the needle against the haystack at offset `i`.
fn match_at(hay: &str, needle: &str, i: usize) -> (r: bool)
    requires
        i + needle@.len() <= hay@.len(),
    ensures
        r == (hay@.subrange(i as int, i as int + needle@.len() as int) == needle@),
{
    let n = needle.unicode_len();
    let hl = hay.unicode_len();
    let mut k: usize = 0;
    while k < n
        invariant
            0 <= k <= n,
            n == needle@.len(),
            hl == hay@.len(),
            i + n <= hl,
            forall|j: int| 0 <= j < k ==> hay@[i + j] == needle@[j],
        decreases n - k,
    {
        if hay.get_char(i + k) != needle.get_char(k) {
            proof {
                assert(hay@.subrange(i as int, i as int + n as int)[k as int] != needle@[k as int]);
            }
            return false;
        }
        k += 1;
    }
    proof {
        assert(hay@.subrange(i as int, i as int + n as int) =~= needle@);
    }
    true
}

/// Whether `needle` occurs in `hay`.
fn str_contains(hay: &str, needle: &str) -> (r: bool)
    ensures
        r == contains_seq(hay@, needle@),
{
    let hlen = hay.unicode_len();
    let nlen = needle.unicode_len();
    if nlen > hlen {
        return false;
    }
    if nlen == 0 {
        proof {
            assert(hay@.subrange(0, 0 + needle@.len() as int) =~= needle@);
        }
        return true;
    }
    let mut i: usize = 0;
    while i <= hlen - nlen
        invariant
            0 < nlen <= hlen,
            hlen == hay@.len(),
            nlen == needle@.len(),
            0 <= i <= hlen - nlen + 1,
            forall|j: int|
                0 <= j < i ==> #[trigger] hay@.subrange(j, j + needle@.len() as int) != needle@,
        decreases hlen - nlen - i + 1,
    {
        if match_at(hay, needle, i) {
            return true;
        }
        i += 1;
    }
    false
}

/// Finds the first archive entry whose name contains the needle.
fn find_containing(names: &Vec<String>, needle: &str) -> (r: Option<usize>)
    ensures
        match r {
            Some(i) => i < names@.len() && contains_seq(names@[i as int]@, needle@) && (forall|
                j: int,
            |
                0 <= j < i ==> !contains_seq((#[trigger] names@[j])@, needle@)),
            None => forall|j: int|
                0 <= j < names@.len() ==> !contains_seq((#[trigger] names@[j])@, needle@),
        },
{
    let n = names.len();
    let mut i: usize = 0;
    while i < n
        invariant
            0 <= i <= n,
            n == names@.len(),
            forall|j: int| 0 <= j < i ==> !contains_seq((#[trigger] names@[j])@, needle@),
        decreases n - i,
    {
        if str_contains(names[i].as_str(), needle) {
            return Some(i);
        }
        i += 1;
    }
    None
}

pub uninterp spec fn zip_names_of(b: Seq<u8>) -> Option<Seq<Seq<char>>>;

/// Relies on `zip::ZipArchive`: the archive's entry-name listing is a
/// function of the archive bytes alone, and is absent exactly when the bytes
/// do not open as a zip archive.
#[verifier::external_body]
fn zip_entry_names(bytes: &Vec<u8>) -> (r: Option<Vec<String>>)
    ensures
        r is Some <==> zip_names_of(bytes@) is Some,
        r matches Some(v) ==> Some(v.deep_view()) == zip_names_of(bytes@),
{
    let archive = zip::ZipArchive::new(std::io::Cursor::new(bytes.clone())).ok()?;
    Some(archive.file_names().map(|n| n.to_string()).collect())
}

pub uninterp spec fn zip_entry_of(b: Seq<u8>, name: Seq<char>, cap: nat) -> Option<Seq<u8>>;

/// Relies on `zip::ZipArchive::by_name`: the named entry's content is a
/// function of the archive bytes and the name alone; at most `cap` bytes of
/// it are read, and the rest is discarded.
#[verifier::external_body]
fn zip_entry_bytes(bytes: &Vec<u8>, name: &String, cap: usize) -> (r: Option<Vec<u8>>)
    ensures
        r is Some <==> zip_entry_of(bytes@, name@, cap as nat) is Some,
        r matches Some(v) ==> Some(v@) == zip_entry_of(bytes@, name@, cap as nat) && v@.len()
            <= cap,
{
    let mut archive = zip::ZipArchive::new(std::io::Cursor::new(bytes.clone())).ok()?;
    let file = archive.by_name(name.as_str()).ok()?;
    let mut out: Vec<u8> = Vec::new();
    for b in file.bytes().take(cap) {
        out.push(b.ok()?);
    }
    Some(out)
}

pub uninterp spec fn inflate_prefix_of(b: Seq<u8>, cap: nat) -> Option<Seq<u8>>;

/// Relies on `flate2::read::ZlibDecoder`: inflation is a function of the
/// input bytes alone; at most `cap` output bytes are kept, and the result is
/// absent exactly when the input does not inflate as a zlib stream within
/// that bound (malformed input surfaces as a read error, never a panic).
#[verifier::external_body]
fn zlib_inflate(bytes: &Vec<u8>, cap: usize) -> (r: Option<Vec<u8>>)
    ensures
        r is Some <==> inflate_prefix_of(bytes@, cap as nat) is Some,
        r matches Some(v) ==> Some(v@) == inflate_prefix_of(bytes@, cap as nat) && v@.len() <= cap,
{
    let decoder = flate2::read::ZlibDecoder::new(std::io::Cursor::new(bytes.clone()));
    let mut out: Vec<u8> = Vec::new();
    for b in decoder.bytes().take(cap) {
        out.push(b.ok()?);
    }
    Some(out)
}

/// The entry the decoder picks from an archive's name listing: the first
/// name containing `level.dat0` (compressed level state), else the first
/// containing `level.dat` (raw).
pub open spec fn picks_level_entry(names: Seq<Seq<char>>, i: int, compressed: bool) -> bool {
    &&& 0 <= i < names.len()
    &&& (if compressed {
        contains_seq(names[i], "level.dat0"@) && (forall|j: int|
            0 <= j < i ==> !contains_seq(#[trigger] names[j], "level.dat0"@))
    } else {
        contains_seq(names[i], "level.dat"@) && (forall|j: int|
            0 <= j < names.len() ==> !contains_seq(#[trigger] names[j], "level.dat0"@)) && (forall|
            j: int,
        |
            0 <= j < i ==> !contains_seq(#[trigger] names[j], "level.dat"@))
    })
}

/// The level bytes a picked entry yields, before parsing. A raw entry is
/// read under the one-mebibyte cap directly; a compressed entry's own bytes
/// are read under the larger input cap, and at most one mebibyte of the
/// inflation is kept.
pub open spec fn picked_level_data(
    b: Seq<u8>,
    names: Seq<Seq<char>>,
    i: int,
    compressed: bool,
) -> Option<Seq<u8>> {
    if compressed {
        match zip_entry_of(b, names[i], LEVEL_INPUT_CAP as nat) {
            Some(raw) => inflate_prefix_of(raw, ONE_MEBIBYTE as nat),
            None => None,
        }
    } else {
        zip_entry_of(b, names[i], ONE_MEBIBYTE as nat)
    }
}

impl SaveFile {
    /// Decodes a save archive from its raw bytes: lists the archive's
    /// entries, picks the level-state entry, reads it, and parses the
    /// binary layout. At most one mebibyte of level state is ever kept: a
    /// raw entry is cut to its first mebibyte, and a compressed entry
    /// (read under the input cap) is inflated to at most a mebibyte.
    /// All-or-nothing: any failure yields an error and no partial metadata.
    pub fn from(archive_bytes: &Vec<u8>) -> (r: Result<SaveFile, SaveFileErr>)
        ensures
            match r {
                Ok(sf) => zip_names_of(archive_bytes@) matches Some(names) && (exists|
                    i: int,
                    c: bool,
                |
                    picks_level_entry(names, i, c) && (picked_level_data(
                        archive_bytes@,
                        names,
                        i,
                        c,
                    ) matches Some(data) && (spec_parse_save(data) matches Some(sp)
                        && save_corresponds(sf, sp)))),
                Err(e) => match e {
                    SaveFileErr::NoLevelDat => zip_names_of(archive_bytes@) matches Some(names)
                        && (forall|j: int|
                        0 <= j < names.len() ==> !contains_seq(
                            #[trigger] names[j],
                            "level.dat"@,
                        ) && !contains_seq(#[trigger] names[j], "level.dat0"@)),
                    SaveFileErr::BadArchive => zip_names_of(archive_bytes@) is None || (
                    zip_names_of(archive_bytes@) matches Some(names) && (exists|i: int, c: bool|
                        picks_level_entry(names, i, c) && picked_level_data(
                            archive_bytes@,
                            names,
                            i,
                            c,
                        ) is None)),
                    SaveFileErr::TruncatedLevelData => zip_names_of(archive_bytes@) matches Some(
                        names,
                    ) && (exists|i: int, c: bool|
                        picks_level_entry(names, i, c) && (picked_level_data(
                            archive_bytes@,
                            names,
                            i,
                            c,
                        ) matches Some(data) && spec_parse_save(data) is None)),
                },
            },
    {
        let names = match zip_entry_names(archive_bytes) {
            Some(n) => n,
            None => {
                return Err(SaveFileErr::BadArchive);
            },
        };
        let ghost gnames = zip_names_of(archive_bytes@)->Some_0;
        proof {
            assert(gnames == names.deep_view());
            assert forall|j: int| 0 <= j < names@.len() implies gnames[j] == (
            #[trigger] names@[j])@ by {
                assert(names.deep_view()[j] == names@[j].deep_view());
            }
        }
        let (idx, compressed): (usize, bool) = match find_containing(&names, "level.dat0") {
            Some(i) => (i, true),
            None => {
                match find_containing(&names, "level.dat") {
                    Some(i) => (i, false),
                    None => {
                        return Err(SaveFileErr::NoLevelDat);
                    },
                }
            },
        };
        proof {
            assert(picks_level_entry(gnames, idx as int, compressed));
        }
        let entry_cap = if compressed {
            LEVEL_INPUT_CAP
        } else {
            ONE_MEBIBYTE
        };
        let raw = match zip_entry_bytes(archive_bytes, &names[idx], entry_cap) {
            Some(v) => v,
            None => {
                proof {
                    assert(picked_level_data(archive_bytes@, gnames, idx as int, compressed)
                        is None);
                }
                return Err(SaveFileErr::BadArchive);
            },
        };
        let data = if compressed {
            match zlib_inflate(&raw, ONE_MEBIBYTE) {
                Some(v) => v,
                None => {
                    proof {
                        assert(picked_level_data(archive_bytes@, gnames, idx as int, compressed)
                            is None);
                    }
                    return Err(SaveFileErr::BadArchive);
                },
            }
        } else {
            raw
        };
        proof {
            assert(picked_level_data(archive_bytes@, gnames, idx as int, compressed) == Some(
                data@,
            ));
        }
        match parse_level_data(&data) {
            Ok(sf) => Ok(sf),
            Err(e) => Err(e),
        }
    }
}

} // verus!
