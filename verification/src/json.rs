//! A tree model of the manifest's JSON document, and the codec between it
//! and the in-memory record list.
//!
//! The document shape is `{ "mods": [ { "name", "enabled", "version"? } ] }`.
//! Encoding a record list and reading the result back yields the same
//! records; reading is stated exactly, so loading, mutating and persisting
//! a manifest preserves its semantic content.

use vstd::prelude::*;
use crate::directory::ModListJsonMod;
use crate::version::{Version, spec_parse_version, version_string, lemma_version_str_roundtrip,
    parse_version};

verus! {

/// A JSON value, as far as this library needs one.
pub enum JsonValue {
    Null,
    Bool(bool),
    Str(String),
    Arr(Vec<JsonValue>),
    Obj(Vec<JsonMember>),
}

/// One key/value member of a JSON object.
pub struct JsonMember {
    pub key: String,
    pub value: JsonValue,
}

/// The semantic content of one manifest record.
pub struct RecordV {
    pub name: Seq<char>,
    pub enabled: bool,
    pub version: Option<Version>,
}

pub open spec fn record_view(m: ModListJsonMod) -> RecordV {
    RecordV { name: m.name@, enabled: m.enabled, version: m.version }
}

pub open spec fn records_view(s: Seq<ModListJsonMod>) -> Seq<RecordV> {
    s.map_values(|m: ModListJsonMod| record_view(m))
}

/// The first member with the given key, if any.
pub open spec fn json_lookup(members: Seq<JsonMember>, key: Seq<char>) -> Option<JsonValue>
    decreases members.len(),
{
    if members.len() == 0 {
        None
    } else if members[0].key@ == key {
        Some(members[0].value)
    } else {
        json_lookup(members.drop_first(), key)
    }
}

/// Reads one manifest record from a JSON value: an object with a string
/// `name`, a boolean `enabled`, and an optional string `version` that must
/// be a well-formed version.
pub open spec fn spec_read_record(v: JsonValue) -> Option<RecordV> {
    match v {
        JsonValue::Obj(ms) => match (json_lookup(ms@, "name"@), json_lookup(ms@, "enabled"@)) {
            (Some(JsonValue::Str(n)), Some(JsonValue::Bool(e))) => match json_lookup(
                ms@,
                "version"@,
            ) {
                None => Some(RecordV { name: n@, enabled: e, version: None }),
                Some(JsonValue::Str(vs)) => match spec_parse_version(vs@) {
                    Some(ver) => Some(RecordV { name: n@, enabled: e, version: Some(ver) }),
                    None => None,
                },
                Some(_) => None,
            },
            _ => None,
        },
        _ => None,
    }
}

/// Reads a record list element by element; fails when any element does.
pub open spec fn spec_read_records(elems: Seq<JsonValue>) -> Option<Seq<RecordV>>
    decreases elems.len(),
{
    if elems.len() == 0 {
        Some(Seq::<RecordV>::empty())
    } else {
        match (spec_read_record(elems[0]), spec_read_records(elems.drop_first())) {
            (Some(r), Some(rest)) => Some(seq![r] + rest),
            _ => None,
        }
    }
}

/// Reads a whole manifest document: an object whose `mods` member is an
/// array of records.
pub open spec fn spec_read_manifest(v: JsonValue) -> Option<Seq<RecordV>> {
    match v {
        JsonValue::Obj(ms) => match json_lookup(ms@, "mods"@) {
            Some(JsonValue::Arr(elems)) => spec_read_records(elems@),
            _ => None,
        },
        _ => None,
    }
}

/// Reading distributes over appending one element at the end.
proof fn lemma_read_records_push(s: Seq<JsonValue>, e: JsonValue)
    ensures
        spec_read_records(s.push(e)) == (match (spec_read_records(s), spec_read_record(e)) {
            (Some(rs), Some(r)) => Some(rs + seq![r]),
            _ => None::<Seq<RecordV>>,
        }),
    decreases s.len(),
{
    let t = s.push(e);
    if s.len() == 0 {
        assert(t[0] == e);
        assert(t.drop_first() =~= Seq::<JsonValue>::empty());
        assert(spec_read_records(t.drop_first()) == Some(Seq::<RecordV>::empty()));
        assert(spec_read_records(s) == Some(Seq::<RecordV>::empty()));
        if spec_read_record(e) is Some {
            let r = spec_read_record(e)->Some_0;
            assert(spec_read_records(t) == Some(seq![r] + Seq::<RecordV>::empty()));
            assert(seq![r] + Seq::<RecordV>::empty() =~= Seq::<RecordV>::empty() + seq![r]);
        } else {
            assert(spec_read_records(t) is None);
        }
    } else {
        assert(t[0] == s[0]);
        assert(t.drop_first() =~= s.drop_first().push(e));
        lemma_read_records_push(s.drop_first(), e);
        if spec_read_record(s[0]) is Some && spec_read_records(s.drop_first()) is Some
            && spec_read_record(e) is Some {
            let r0 = spec_read_record(s[0])->Some_0;
            let rest = spec_read_records(s.drop_first())->Some_0;
            let r = spec_read_record(e)->Some_0;
            assert(spec_read_records(t.drop_first()) == Some(rest + seq![r]));
            assert(spec_read_records(t) == Some(seq![r0] + (rest + seq![r])));
            assert(spec_read_records(s) == Some(seq![r0] + rest));
            assert(seq![r0] + (rest + seq![r]) =~= (seq![r0] + rest) + seq![r]);
        } else if spec_read_record(s[0]) is None {
            assert(spec_read_records(t) is None);
            assert(spec_read_records(s) is None);
        } else if spec_read_records(s.drop_first()) is None {
            assert(spec_read_records(t.drop_first()) is None);
            assert(spec_read_records(t) is None);
            assert(spec_read_records(s) is None);
        } else {
            assert(spec_read_record(e) is None);
            assert(spec_read_records(t.drop_first()) is None);
            assert(spec_read_records(t) is None);
        }
    }
}

/// A failing element makes the whole list fail.
proof fn lemma_read_records_fail(s: Seq<JsonValue>, k: int)
    requires
        0 <= k < s.len(),
        spec_read_record(s[k]) is None,
    ensures
        spec_read_records(s) is None,
    decreases k,
{
    if k > 0 {
        assert(s.drop_first()[k - 1] == s[k]);
        lemma_read_records_fail(s.drop_first(), k - 1);
    }
}

/// Finds the first member with the given key.
fn json_find(ms: &Vec<JsonMember>, key: &String) -> (r: Option<usize>)
    ensures
        match r {
            Some(i) => i < ms@.len() && ms@[i as int].key@ == key@ && json_lookup(ms@, key@)
                == Some(ms@[i as int].value),
            None => json_lookup(ms@, key@) is None,
        },
{
    let n = ms.len();
    let mut i: usize = 0;
    while i < n
        invariant
            0 <= i <= n,
            n == ms@.len(),
            forall|j: int| 0 <= j < i ==> (#[trigger] ms@[j]).key@ != key@,
        decreases n - i,
    {
        if key.eq(&ms[i].key) {
            proof {
                lemma_json_lookup_scan(ms@, key@, i as int);
            }
            return Some(i);
        }
        i += 1;
    }
    proof {
        lemma_json_lookup_scan(ms@, key@, n as int);
    }
    None
}

/// A forward scan that saw no match up to `i` agrees with `json_lookup`.
proof fn lemma_json_lookup_scan(s: Seq<JsonMember>, key: Seq<char>, i: int)
    requires
        0 <= i <= s.len(),
        forall|j: int| 0 <= j < i ==> (#[trigger] s[j]).key@ != key,
    ensures
        i < s.len() && s[i].key@ == key ==> json_lookup(s, key) == Some(s[i].value),
        i == s.len() ==> json_lookup(s, key) is None,
    decreases i,
{
    if i > 0 {
        let t = s.drop_first();
        assert(s[0].key@ != key);
        assert forall|j: int| 0 <= j < i - 1 implies (#[trigger] t[j]).key@ != key by {
            assert(t[j] == s[j + 1]);
        }
        lemma_json_lookup_scan(t, key, i - 1);
        if i < s.len() {
            assert(t[i - 1] == s[i]);
        }
    }
}

/// Encodes one record as a JSON object.
fn record_to_json(m: &ModListJsonMod) -> (j: JsonValue)
    ensures
        spec_read_record(j) == Some(record_view(*m)),
{
    proof {
        reveal_strlit("name");
        reveal_strlit("enabled");
        reveal_strlit("version");
        reveal_with_fuel(json_lookup, 4);
    }
    let mut ms: Vec<JsonMember> = Vec::new();
    ms.push(JsonMember { key: String::from_str("name"), value: JsonValue::Str(m.name.clone()) });
    ms.push(JsonMember { key: String::from_str("enabled"), value: JsonValue::Bool(m.enabled) });
    match &m.version {
        Some(v) => {
            let vs = version_string(v);
            ms.push(JsonMember { key: String::from_str("version"), value: JsonValue::Str(vs) });
            proof {
                lemma_version_str_roundtrip(*v);
            }
        },
        None => {},
    }
    let j = JsonValue::Obj(ms);
    proof {
        reveal_strlit("name");
        reveal_strlit("enabled");
        reveal_strlit("version");
        assert(("name"@)[0] == 'n');
        assert(("enabled"@)[0] == 'e');
        assert(("version"@)[0] == 'v');
        let s = ms@;
        assert(s[0].key@ == "name"@);
        assert(s[1].key@ == "enabled"@);
        assert(s.drop_first()[0] == s[1]);
        assert(json_lookup(s, "name"@) == Some(s[0].value));
        assert(json_lookup(s, "enabled"@) == json_lookup(s.drop_first(), "enabled"@));
        assert(json_lookup(s.drop_first(), "enabled"@) == Some(s[1].value));
        assert(json_lookup(s, "version"@) == json_lookup(s.drop_first(), "version"@));
        if s.len() == 3 {
            assert(s[2].key@ == "version"@);
            assert(s.drop_first().drop_first()[0] == s[2]);
            assert(json_lookup(s.drop_first(), "version"@) == json_lookup(
                s.drop_first().drop_first(),
                "version"@,
            ));
            assert(json_lookup(s.drop_first().drop_first(), "version"@) == Some(s[2].value));
        } else {
            assert(s.drop_first().drop_first() =~= Seq::<JsonMember>::empty());
            assert(json_lookup(s.drop_first(), "version"@) == json_lookup(
                s.drop_first().drop_first(),
                "version"@,
            ));
            assert(json_lookup(s, "version"@) is None);
        }
    }
    j
}

/// Encodes a record list as a manifest document. The reading function
/// recovers exactly the given records: this is the persistence round trip,
/// stated over the document itself.
#[verifier::loop_isolation(false)]
pub fn manifest_to_json(mods: &Vec<ModListJsonMod>) -> (j: JsonValue)
    ensures
        spec_read_manifest(j) == Some(records_view(mods@)),
{
    proof {
        reveal_strlit("mods");
    }
    let n = mods.len();
    let mut elems: Vec<JsonValue> = Vec::new();
    let mut i: usize = 0;
    proof {
        assert(spec_read_records(elems@) == Some(Seq::<RecordV>::empty()));
        assert(records_view(mods@.subrange(0, 0)) =~= Seq::<RecordV>::empty());
    }
    while i < n
        invariant
            0 <= i <= n,
            n == mods@.len(),
            elems@.len() == i,
            spec_read_records(elems@) == Some(records_view(mods@.subrange(0, i as int))),
        decreases n - i,
    {
        let ghost e0 = elems@;
        let ej = record_to_json(&mods[i]);
        elems.push(ej);
        proof {
            assert(elems@ =~= e0.push(ej));
            lemma_read_records_push(e0, ej);
            assert(records_view(mods@.subrange(0, i as int)) + seq![record_view(mods@[i as int])]
                =~= records_view(mods@.subrange(0, i + 1)));
        }
        i += 1;
    }
    proof {
        assert(mods@.subrange(0, n as int) =~= mods@);
    }
    let mut ms: Vec<JsonMember> = Vec::new();
    ms.push(JsonMember { key: String::from_str("mods"), value: JsonValue::Arr(elems) });
    let j = JsonValue::Obj(ms);
    proof {
        assert(ms@[0].key@ == "mods"@);
    }
    j
}

/// Reads a manifest document back into records. Succeeds exactly when the
/// document has the manifest shape, and then yields its records in order.
#[verifier::loop_isolation(false)]
pub fn manifest_from_json(v: &JsonValue) -> (r: Option<Vec<ModListJsonMod>>)
    ensures
        match r {
            Some(out) => spec_read_manifest(*v) == Some(records_view(out@)),
            None => spec_read_manifest(*v) is None,
        },
{
    proof {
        reveal_strlit("mods");
        reveal_strlit("name");
        reveal_strlit("enabled");
        reveal_strlit("version");
    }
    let ms = match v {
        JsonValue::Obj(ms) => ms,
        _ => {
            return None;
        },
    };
    let mi = match json_find(ms, &String::from_str("mods")) {
        Some(mi) => mi,
        None => {
            return None;
        },
    };
    let elems = match &ms[mi].value {
        JsonValue::Arr(elems) => elems,
        _ => {
            return None;
        },
    };
    let n = elems.len();
    let mut out: Vec<ModListJsonMod> = Vec::new();
    let mut i: usize = 0;
    proof {
        assert(elems@.subrange(0, 0) =~= Seq::<JsonValue>::empty());
        assert(records_view(out@) =~= Seq::<RecordV>::empty());
    }
    while i < n
        invariant
            0 <= i <= n,
            n == elems@.len(),
            spec_read_records(elems@.subrange(0, i as int)) == Some(records_view(out@)),
        decreases n - i,
    {
        let ghost done = elems@.subrange(0, i as int);
        let rec = match record_from_json(&elems[i]) {
            Some(rec) => rec,
            None => {
                proof {
                    lemma_read_records_fail(elems@, i as int);
                }
                return None;
            },
        };
        let ghost out0 = out@;
        out.push(rec);
        proof {
            lemma_read_records_push(done, elems@[i as int]);
            assert(done.push(elems@[i as int]) =~= elems@.subrange(0, i + 1));
            assert(records_view(out0) + seq![record_view(rec)] =~= records_view(out@));
        }
        i += 1;
    }
    proof {
        assert(elems@.subrange(0, n as int) =~= elems@);
    }
    Some(out)
}

/// Reads a package's metadata document: an object with a string `name` and
/// a string `version` holding a well-formed version; anything else yields
/// nothing, and the package is skipped during index construction.
pub open spec fn spec_read_info(v: JsonValue) -> Option<(Seq<char>, Version)> {
    match v {
        JsonValue::Obj(ms) => match (json_lookup(ms@, "name"@), json_lookup(ms@, "version"@)) {
            (Some(JsonValue::Str(n)), Some(JsonValue::Str(vs))) => match spec_parse_version(vs@) {
                Some(ver) => Some((n@, ver)),
                None => None,
            },
            _ => None,
        },
        _ => None,
    }
}

/// Reads a package's declared name and version from its metadata document.
/// This is the slow path of index construction; the fast path parses the
/// filename, and both end in the same version parser, so a filename
/// assembled from the declared name and version yields the same identity.
pub fn read_info_json(v: &JsonValue) -> (r: Option<(String, Version)>)
    ensures
        match r {
            Some(p) => spec_read_info(*v) == Some((p.0@, p.1)),
            None => spec_read_info(*v) is None,
        },
{
    let ms = match v {
        JsonValue::Obj(ms) => ms,
        _ => {
            return None;
        },
    };
    let name = match json_find(ms, &String::from_str("name")) {
        Some(i) => match &ms[i].value {
            JsonValue::Str(n) => n.clone(),
            _ => {
                return None;
            },
        },
        None => {
            return None;
        },
    };
    let version = match json_find(ms, &String::from_str("version")) {
        Some(i) => match &ms[i].value {
            JsonValue::Str(vs) => match parse_version(vs.as_str()) {
                Some(ver) => ver,
                None => {
                    return None;
                },
            },
            _ => {
                return None;
            },
        },
        None => {
            return None;
        },
    };
    Some((name, version))
}

/// Reads one record object.
fn record_from_json(v: &JsonValue) -> (r: Option<ModListJsonMod>)
    ensures
        match r {
            Some(m) => spec_read_record(*v) == Some(record_view(m)),
            None => spec_read_record(*v) is None,
        },
{
    let ms = match v {
        JsonValue::Obj(ms) => ms,
        _ => {
            return None;
        },
    };
    let name = match json_find(ms, &String::from_str("name")) {
        Some(i) => match &ms[i].value {
            JsonValue::Str(n) => n.clone(),
            _ => {
                return None;
            },
        },
        None => {
            return None;
        },
    };
    let enabled = match json_find(ms, &String::from_str("enabled")) {
        Some(i) => match &ms[i].value {
            JsonValue::Bool(e) => *e,
            _ => {
                return None;
            },
        },
        None => {
            return None;
        },
    };
    let version: Option<Version> = match json_find(ms, &String::from_str("version")) {
        Some(i) => match &ms[i].value {
            JsonValue::Str(vs) => match parse_version(vs.as_str()) {
                Some(ver) => Some(ver),
                None => {
                    return None;
                },
            },
            _ => {
                return None;
            },
        },
        None => None,
    };
    Some(ModListJsonMod { name, enabled, version })
}

} // verus!
