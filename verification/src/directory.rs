//! The mod directory: a versioned index of installed packages plus the
//! enablement manifest, kept in sync by the operations here.

use vstd::prelude::*;
use crate::ident::ModIdent;
use crate::json::{JsonValue, manifest_to_json, records_view, spec_read_manifest};
use crate::settings::{ModSettings, PropertyTree, dict_lookup, merge_startup, spec_startup_dict};
use crate::version::{Version, version_lt};

verus! {

/// The errors this library reports.
#[derive(Clone, Copy, Debug, PartialEq, Eq, Structural)]
pub enum ModErr {
    /// The named mod, or the named version of it, is not in the index.
    NotFound,
    /// The settings store does not have the expected dictionary shape.
    SettingsShape,
}

/// One physical package: where it sits on disk, and what it is.
pub struct ModEntry {
    pub file_name: String,
    pub ident: ModIdent,
}

/// One record of the enablement manifest.
pub struct ModListJsonMod {
    pub name: String,
    pub enabled: bool,
    pub version: Option<Version>,
}

/// All indexed packages of one mod name, sorted by ascending version.
#[verifier::ext_equal]
pub struct ModGroup {
    pub name: String,
    pub entries: Vec<ModEntry>,
}

pub open spec fn entry_version(e: ModEntry) -> Version {
    e.ident.version->Some_0
}

/// Entries of one group: non-empty, all named alike, all versioned, strictly
/// ascending by version (so no duplicate versions).
pub open spec fn entries_wf(s: Seq<ModEntry>, name: Seq<char>) -> bool {
    s.len() > 0 && (forall|k: int|
        0 <= k < s.len() ==> (#[trigger] s[k]).ident.name@ == name && s[k].ident.version is Some)
        && (forall|k: int, l: int|
        0 <= k < l < s.len() ==> version_lt(
            entry_version(#[trigger] s[k]),
            entry_version(#[trigger] s[l]),
        ))
}

pub open spec fn group_wf(g: ModGroup) -> bool {
    entries_wf(g.entries@, g.name@)
}

/// The index invariant: group names are unique and every group is well formed.
pub open spec fn index_wf(groups: Seq<ModGroup>) -> bool {
    (forall|i: int, j: int|
        0 <= i < j < groups.len() ==> (#[trigger] groups[i]).name@ != (#[trigger] groups[j]).name@)
        && (forall|i: int| 0 <= i < groups.len() ==> group_wf(#[trigger] groups[i]))
}

pub open spec fn has_version_seq(s: Seq<ModEntry>, v: Version) -> bool {
    exists|k: int| 0 <= k < s.len() && entry_version(#[trigger] s[k]) == v
}

pub open spec fn index_has(groups: Seq<ModGroup>, name: Seq<char>) -> bool {
    exists|i: int| 0 <= i < groups.len() && (#[trigger] groups[i]).name@ == name
}

pub open spec fn index_has_version(groups: Seq<ModGroup>, name: Seq<char>, v: Version) -> bool {
    exists|i: int|
        0 <= i < groups.len() && (#[trigger] groups[i]).name@ == name && has_version_seq(
            groups[i].entries@,
            v,
        )
}

/// What `contains` answers: with a version, that exact version must be
/// indexed; without one, any version of the name will do.
pub open spec fn spec_contains(
    groups: Seq<ModGroup>,
    name: Seq<char>,
    version: Option<Version>,
) -> bool {
    match version {
        None => index_has(groups, name),
        Some(v) => index_has_version(groups, name, v),
    }
}

/// The version an identifier resolves to: the requested one when given,
/// otherwise the newest indexed version of the name.
pub open spec fn spec_resolve(
    groups: Seq<ModGroup>,
    name: Seq<char>,
    version: Option<Version>,
) -> Option<Version> {
    if spec_contains(groups, name, version) {
        match version {
            Some(v) => Some(v),
            None => {
                let i = choose|i: int|
                    0 <= i < groups.len() && (#[trigger] groups[i]).name@ == name;
                Some(entry_version(groups[i].entries@.last()))
            },
        }
    } else {
        None
    }
}

/// The mod directory: the versioned package index, the enablement manifest,
/// where the manifest lives, and the settings store.
pub struct Directory {
    pub mods: Vec<ModGroup>,
    pub mod_list: Vec<ModListJsonMod>,
    pub mod_list_path: String,
    pub mod_settings: ModSettings,
}

/// Finds the first manifest record with the given name.
fn find_record(list: &Vec<ModListJsonMod>, name: &String) -> (r: Option<usize>)
    ensures
        match r {
            Some(i) => i < list@.len() && list@[i as int].name@ == name@ && (forall|j: int|
                0 <= j < i ==> (#[trigger] list@[j]).name@ != name@),
            None => forall|j: int| 0 <= j < list@.len() ==> (#[trigger] list@[j]).name@ != name@,
        },
{
    let n = list.len();
    let mut i: usize = 0;
    while i < n
        invariant
            0 <= i <= n,
            n == list@.len(),
            forall|j: int| 0 <= j < i ==> (#[trigger] list@[j]).name@ != name@,
        decreases n - i,
    {
        if name.eq(&list[i].name) {
            return Some(i);
        }
        i += 1;
    }
    None
}

/// Rewrites the record at `i`, keeping its name.
fn set_record(list: &mut Vec<ModListJsonMod>, i: usize, enabled: bool, version: Option<Version>)
    requires
        i < old(list)@.len(),
    ensures
        final(list)@ == old(list)@.update(
            i as int,
            (ModListJsonMod { name: old(list)@[i as int].name, enabled, version }),
        ),
{
    let ghost s0 = list@;
    let rec = list.remove(i);
    list.insert(i, ModListJsonMod { name: rec.name, enabled, version });
    proof {
        assert(list@ =~= s0.update(
            i as int,
            (ModListJsonMod { name: s0[i as int].name, enabled, version }),
        ));
    }
}

/// Finds the group with the given name, unique when the index is well formed.
fn find_group(groups: &Vec<ModGroup>, name: &String) -> (r: Option<usize>)
    ensures
        match r {
            Some(i) => i < groups@.len() && groups@[i as int].name@ == name@,
            None => !index_has(groups@, name@),
        },
{
    let n = groups.len();
    let mut i: usize = 0;
    while i < n
        invariant
            0 <= i <= n,
            n == groups@.len(),
            forall|j: int| 0 <= j < i ==> (#[trigger] groups@[j]).name@ != name@,
        decreases n - i,
    {
        if name.eq(&groups[i].name) {
            return Some(i);
        }
        i += 1;
    }
    None
}

/// Finds the entry holding exactly version `v`.
fn find_version(entries: &Vec<ModEntry>, v: &Version) -> (r: Option<usize>)
    requires
        forall|k: int| 0 <= k < entries@.len() ==> (#[trigger] entries@[k]).ident.version is Some,
    ensures
        match r {
            Some(k) => k < entries@.len() && entry_version(entries@[k as int]) == *v,
            None => !has_version_seq(entries@, *v),
        },
{
    let n = entries.len();
    let mut i: usize = 0;
    while i < n
        invariant
            0 <= i <= n,
            n == entries@.len(),
            forall|k: int| 0 <= k < entries@.len() ==> (#[trigger] entries@[k]).ident.version is Some,
            forall|k: int| 0 <= k < i ==> entry_version(#[trigger] entries@[k]) != *v,
        decreases n - i,
    {
        match &entries[i].ident.version {
            Some(ev) => {
                if ev == v {
                    return Some(i);
                }
            },
            None => {
                proof {
                    assert(entries@[i as int].ident.version is Some);
                }
            },
        }
        i += 1;
    }
    None
}

/// Inserts `e` into a sorted entry sequence at its version's position;
/// does nothing when that version is already present.
fn group_insert(entries: &mut Vec<ModEntry>, e: ModEntry)
    requires
        e.ident.version is Some,
        old(entries)@.len() == 0 || entries_wf(old(entries)@, e.ident.name@),
    ensures
        entries_wf(final(entries)@, e.ident.name@),
        forall|v: Version|
            has_version_seq(final(entries)@, v) <==> (has_version_seq(old(entries)@, v) || v
                == entry_version(e)),
        has_version_seq(old(entries)@, entry_version(e)) ==> final(entries)@ == old(entries)@,
{
    let ev: Version = *e.ident.get_guaranteed_version();
    let n = entries.len();
    let mut k: usize = 0;
    while k < n && entries[k].ident.version.is_some() && entries[k].ident.get_guaranteed_version().lt(
        &ev,
    )
        invariant
            0 <= k <= n,
            n == entries@.len(),
            old(entries)@.len() == 0 || entries_wf(old(entries)@, e.ident.name@),
            entries@ == old(entries)@,
            ev == entry_version(e),
            forall|j: int| 0 <= j < k ==> version_lt(entry_version(#[trigger] entries@[j]), ev),
        decreases n - k,
    {
        k += 1;
    }
    let ghost s0 = entries@;
    if k < n {
        let cur = entries[k].ident.get_guaranteed_version();
        if cur.major == ev.major && cur.minor == ev.minor && cur.patch == ev.patch {
            proof {
                assert(entry_version(s0[k as int]) == ev);
                assert(has_version_seq(s0, ev));
            }
            return ;
        }
    }
    entries.insert(k, e);
    proof {
        assert(entries@ =~= s0.insert(k as int, e));
        let t = entries@;
        assert forall|j: int| 0 <= j < t.len() implies (#[trigger] t[j]).ident.name@
            == e.ident.name@ && t[j].ident.version is Some by {
            if j < k {
                assert(t[j] == s0[j]);
            } else if j == k {
                assert(t[j] == e);
            } else {
                assert(t[j] == s0[j - 1]);
            }
        }
        assert forall|j: int, l: int| 0 <= j < l < t.len() implies version_lt(
            entry_version(#[trigger] t[j]),
            entry_version(#[trigger] t[l]),
        ) by {
            if k < n {
                assert(!version_lt(entry_version(s0[k as int]), ev));
                assert(entry_version(s0[k as int]) != ev);
                assert(version_lt(ev, entry_version(s0[k as int])));
            }
            if j < k {
                assert(t[j] == s0[j]);
            } else if j == k {
                assert(t[j] == e);
            } else {
                assert(t[j] == s0[j - 1]);
            }
            if l < k {
                assert(t[l] == s0[l]);
            } else if l == k {
                assert(t[l] == e);
            } else {
                assert(t[l] == s0[l - 1]);
            }
        }
        assert forall|v: Version| has_version_seq(t, v) implies (has_version_seq(s0, v) || v
            == entry_version(e)) by {
            let w = choose|w: int| 0 <= w < t.len() && entry_version(#[trigger] t[w]) == v;
            if w < k {
                assert(t[w] == s0[w]);
            } else if w == k {
                assert(t[w] == e);
            } else {
                assert(t[w] == s0[w - 1]);
            }
        }
        assert forall|v: Version| (has_version_seq(s0, v) || v == entry_version(e)) implies
            has_version_seq(t, v) by {
            if has_version_seq(s0, v) {
                let w = choose|w: int| 0 <= w < s0.len() && entry_version(#[trigger] s0[w]) == v;
                if w < k {
                    assert(t[w] == s0[w]);
                } else {
                    assert(t[w + 1] == s0[w]);
                }
            } else {
                assert(t[k as int] == e);
            }
        }
    }
}

impl Directory {
    /// The directory's invariant: a well-formed index.
    pub open spec fn wf(&self) -> bool {
        index_wf(self.mods@)
    }

    /// Tests whether an identifier can be satisfied from the index: with a
    /// version, exactly that version must be present; without one, at least
    /// one version of the name must be.
    pub fn contains(&self, mod_ident: &ModIdent) -> (r: bool)
        requires
            self.wf(),
        ensures
            r == spec_contains(self.mods@, mod_ident.name@, mod_ident.version),
    {
        match find_group(&self.mods, &mod_ident.name) {
            None => {
                false
            },
            Some(i) => {
                match &mod_ident.version {
                    None => {
                        proof {
                            assert(index_has(self.mods@, mod_ident.name@));
                        }
                        true
                    },
                    Some(v) => {
                        let r = find_version(&self.mods[i].entries, v);
                        proof {
                            if r is Some {
                                assert(index_has_version(self.mods@, mod_ident.name@, *v));
                            } else {
                                if index_has_version(self.mods@, mod_ident.name@, *v) {
                                    let w = choose|w: int|
                                        0 <= w < self.mods@.len()
                                            && (#[trigger] self.mods@[w]).name@
                                            == mod_ident.name@ && has_version_seq(
                                            self.mods@[w].entries@,
                                            *v,
                                        );
                                    assert(w == i);
                                }
                            }
                        }
                        r.is_some()
                    },
                }
            },
        }
    }

    /// Builds a directory from scanned package entries and a loaded manifest.
    ///
    /// Entries are grouped by name and kept sorted by version. When two
    /// entries carry the same name and version, the one scanned last wins.
    pub fn new(
        entries: Vec<ModEntry>,
        mod_list: Vec<ModListJsonMod>,
        mod_list_path: String,
        mod_settings: ModSettings,
    ) -> (d: Directory)
        requires
            forall|k: int|
                0 <= k < entries@.len() ==> (#[trigger] entries@[k]).ident.version is Some,
        ensures
            d.wf(),
            forall|n: Seq<char>, v: Version|
                index_has_version(d.mods@, n, v) <==> (exists|k: int|
                    0 <= k < entries@.len() && (#[trigger] entries@[k]).ident.name@ == n
                        && entry_version(entries@[k]) == v),
            d.mod_list@ == mod_list@,
            d.mod_list_path@ == mod_list_path@,
            d.mod_settings == mod_settings,
    {
        let ghost input = entries@;
        let mut entries = entries;
        let mut groups: Vec<ModGroup> = Vec::new();
        proof {
            assert(entries@ =~= input.subrange(0, input.len() as int));
        }
        while entries.len() > 0
            invariant
                index_wf(groups@),
                entries@ == input.subrange(0, entries@.len() as int),
                entries@.len() <= input.len(),
                forall|k: int|
                    0 <= k < input.len() ==> (#[trigger] input[k]).ident.version is Some,
                forall|n: Seq<char>, v: Version|
                    index_has_version(groups@, n, v) <==> (exists|k: int|
                        entries@.len() <= k < input.len() && (#[trigger] input[k]).ident.name@ == n
                            && entry_version(input[k]) == v),
            decreases entries@.len(),
        {
            let ghost g0 = groups@;
            let ghost m = entries@.len() as int;
            let e = entries.pop().unwrap();
            proof {
                assert(e == input[m - 1]);
                assert(entries@ =~= input.subrange(0, m - 1));
            }
            add_to_index(&mut groups, e);
            proof {
                assert forall|n: Seq<char>, v: Version|
                    index_has_version(groups@, n, v) <==> (exists|k: int|
                        m - 1 <= k < input.len() && (#[trigger] input[k]).ident.name@ == n
                            && entry_version(input[k]) == v) by {
                    if index_has_version(groups@, n, v) {
                        if index_has_version(g0, n, v) {
                        } else {
                            assert(input[m - 1].ident.name@ == n && entry_version(input[m - 1])
                                == v);
                        }
                    }
                    if exists|k: int|
                        m - 1 <= k < input.len() && (#[trigger] input[k]).ident.name@ == n
                            && entry_version(input[k]) == v {
                        let k = choose|k: int|
                            m - 1 <= k < input.len() && (#[trigger] input[k]).ident.name@ == n
                                && entry_version(input[k]) == v;
                        if k == m - 1 {
                            assert(index_has_version(groups@, n, v));
                        } else {
                            assert(index_has_version(g0, n, v));
                        }
                    }
                }
            }
        }
        proof {
            assert(entries@ =~= Seq::<ModEntry>::empty());
        }
        Directory { mods: groups, mod_list, mod_list_path, mod_settings }
    }

    /// Adds a package to the index, and records the mod as disabled in the
    /// manifest (a freshly added mod starts out disabled).
    ///
    /// The index insert is idempotent: adding an already-indexed name and
    /// version leaves the index unchanged.
    pub fn add(&mut self, m: (String, ModEntry))
        requires
            old(self).wf(),
            m.1.ident.version is Some,
            m.1.ident.name@ == m.0@,
        ensures
            final(self).wf(),
            final(self).mod_list_path == old(self).mod_list_path,
            final(self).mod_settings == old(self).mod_settings,
            forall|n: Seq<char>, v: Version|
                index_has_version(final(self).mods@, n, v) <==> (index_has_version(
                    old(self).mods@,
                    n,
                    v,
                ) || (n == m.0@ && v == entry_version(m.1))),
            index_has_version(old(self).mods@, m.0@, entry_version(m.1)) ==> final(self).mods@
                == old(self).mods@,
            (exists|i: int|
                0 <= i < old(self).mod_list@.len() && (#[trigger] old(self).mod_list@[i]).name@
                    == m.0@ && (forall|j: int|
                    0 <= j < i ==> (#[trigger] old(self).mod_list@[j]).name@ != m.0@)
                    && final(self).mod_list@ == old(self).mod_list@.update(
                    i,
                    (ModListJsonMod { name: old(self).mod_list@[i].name, enabled: false, version: None }),
                )) || ((forall|j: int|
                0 <= j < old(self).mod_list@.len() ==> (#[trigger] old(self).mod_list@[j]).name@
                    != m.0@) && final(self).mod_list@ == old(self).mod_list@.push(
                (ModListJsonMod { name: m.0, enabled: false, version: None }),
            )),
    {
        let (mod_name, mod_entry) = m;
        match find_record(&self.mod_list, &mod_name) {
            Some(i) => {
                set_record(&mut self.mod_list, i, false, None);
            },
            None => {
                self.mod_list.push(ModListJsonMod { name: mod_name, enabled: false, version: None });
            },
        }
        add_to_index(&mut self.mods, mod_entry);
    }

    /// Enables a mod. Fails with `NotFound` exactly when the identifier
    /// cannot be satisfied from the index. On success, returns the resolved
    /// version when the mod was newly enabled, and `None` when it already
    /// was (an idempotent no-op). A caller-given version is pinned in the
    /// manifest record; without one the record tracks the latest version.
    pub fn enable(&mut self, mod_ident: &ModIdent) -> (r: Result<Option<Version>, ModErr>)
        requires
            old(self).wf(),
        ensures
            final(self).wf(),
            final(self).mods@ == old(self).mods@,
            final(self).mod_list_path == old(self).mod_list_path,
            final(self).mod_settings == old(self).mod_settings,
            match r {
                Err(e) => e == ModErr::NotFound && final(self).mod_list@ == old(self).mod_list@
                    && !spec_contains(old(self).mods@, mod_ident.name@, mod_ident.version),
                Ok(out) => spec_contains(old(self).mods@, mod_ident.name@, mod_ident.version)
                    && match out {
                    None => final(self).mod_list@ == old(self).mod_list@ && (exists|i: int|
                        0 <= i < old(self).mod_list@.len()
                            && (#[trigger] old(self).mod_list@[i]).name@ == mod_ident.name@ && (
                        forall|j: int|
                            0 <= j < i ==> (#[trigger] old(self).mod_list@[j]).name@
                                != mod_ident.name@) && old(self).mod_list@[i].enabled),
                    Some(rv) => Some(rv) == spec_resolve(
                        old(self).mods@,
                        mod_ident.name@,
                        mod_ident.version,
                    ) && {
                        let pin = if mod_ident.version is Some {
                            Some(rv)
                        } else {
                            None
                        };
                        (exists|i: int|
                            0 <= i < old(self).mod_list@.len()
                                && (#[trigger] old(self).mod_list@[i]).name@ == mod_ident.name@
                                && (forall|j: int|
                                0 <= j < i ==> (#[trigger] old(self).mod_list@[j]).name@
                                    != mod_ident.name@) && !old(self).mod_list@[i].enabled
                                && final(self).mod_list@ == old(self).mod_list@.update(
                                i,
                                (ModListJsonMod {
                                    name: old(self).mod_list@[i].name,
                                    enabled: true,
                                    version: pin,
                                }),
                            )) || ((forall|j: int|
                            0 <= j < old(self).mod_list@.len()
                                ==> (#[trigger] old(self).mod_list@[j]).name@ != mod_ident.name@)
                            && final(self).mod_list@ == old(self).mod_list@.push(
                            (ModListJsonMod {
                                name: mod_ident.name,
                                enabled: true,
                                version: pin,
                            }),
                        ))
                    },
                },
            },
    {
        let gi = match find_group(&self.mods, &mod_ident.name) {
            Some(gi) => gi,
            None => {
                return Err(ModErr::NotFound);
            },
        };
        let resolved: Version = match &mod_ident.version {
            Some(v) => {
                match find_version(&self.mods[gi].entries, v) {
                    Some(_) => {
                        proof {
                            assert(index_has_version(self.mods@, mod_ident.name@, *v));
                        }
                        *v
                    },
                    None => {
                        proof {
                            if index_has_version(self.mods@, mod_ident.name@, *v) {
                                let w = choose|w: int|
                                    0 <= w < self.mods@.len() && (#[trigger] self.mods@[w]).name@
                                        == mod_ident.name@ && has_version_seq(
                                        self.mods@[w].entries@,
                                        *v,
                                    );
                                assert(w == gi);
                            }
                        }
                        return Err(ModErr::NotFound);
                    },
                }
            },
            None => {
                let entries = &self.mods[gi].entries;
                let last = entries.len() - 1;
                let rv = *entries[last].ident.get_guaranteed_version();
                proof {
                    let w = choose|w: int|
                        0 <= w < self.mods@.len() && (#[trigger] self.mods@[w]).name@
                            == mod_ident.name@;
                    assert(w == gi);
                    assert(index_has(self.mods@, mod_ident.name@));
                }
                rv
            },
        };
        let pin: Option<Version> = match &mod_ident.version {
            Some(_) => Some(resolved),
            None => None,
        };
        match find_record(&self.mod_list, &mod_ident.name) {
            Some(i) => {
                if self.mod_list[i].enabled {
                    Ok(None)
                } else {
                    set_record(&mut self.mod_list, i, true, pin);
                    Ok(Some(resolved))
                }
            },
            None => {
                let name = mod_ident.name.clone();
                self.mod_list.push(ModListJsonMod { name, enabled: true, version: pin });
                proof {
                    assert(final(self).mod_list@ == old(self).mod_list@.push(
                        (ModListJsonMod {
                            name: mod_ident.name,
                            enabled: true,
                            version: pin,
                        }),
                    ));
                }
                Ok(Some(resolved))
            },
        }
    }

    /// Disables a mod: the sentinel "base" is always accepted; any other
    /// name must be indexed. Returns whether the name was accepted. The
    /// first record with the name, when there is one, ends up disabled with
    /// its pin cleared, whatever it held before.
    pub fn disable(&mut self, mod_ident: &ModIdent) -> (r: bool)
        requires
            old(self).wf(),
        ensures
            final(self).wf(),
            final(self).mods@ == old(self).mods@,
            final(self).mod_list_path == old(self).mod_list_path,
            final(self).mod_settings == old(self).mod_settings,
            r == (mod_ident.name@ == "base"@ || index_has(old(self).mods@, mod_ident.name@)),
            !r ==> final(self).mod_list@ == old(self).mod_list@,
            r ==> ((exists|i: int|
                0 <= i < old(self).mod_list@.len() && (#[trigger] old(self).mod_list@[i]).name@
                    == mod_ident.name@ && (forall|j: int|
                    0 <= j < i ==> (#[trigger] old(self).mod_list@[j]).name@ != mod_ident.name@)
                    && final(self).mod_list@ == old(self).mod_list@.update(
                    i,
                    (ModListJsonMod { name: old(self).mod_list@[i].name, enabled: false, version: None }),
                )) || ((forall|j: int|
                0 <= j < old(self).mod_list@.len() ==> (#[trigger] old(self).mod_list@[j]).name@
                    != mod_ident.name@) && final(self).mod_list@ == old(self).mod_list@)),
    {
        let base = String::from_str("base");
        let known = base.eq(&mod_ident.name) || find_group(&self.mods, &mod_ident.name).is_some();
        if known {
            match find_record(&self.mod_list, &mod_ident.name) {
                Some(i) => {
                    set_record(&mut self.mod_list, i, false, None);
                },
                None => {},
            }
            true
        } else {
            false
        }
    }

    /// Renders the manifest as its JSON document, ready to persist. Reading
    /// the document back yields exactly the in-memory records: together with
    /// the reader's contract this is the persistence round trip.
    pub fn save(&self) -> (j: JsonValue)
        ensures
            spec_read_manifest(j) == Some(records_view(self.mod_list@)),
    {
        manifest_to_json(&self.mod_list)
    }

    /// Merges a save file's startup settings into the settings store: every
    /// key the save carries wins; every other stored key keeps its value.
    /// Fails with `SettingsShape`, changing nothing, exactly when the store
    /// has no startup dictionary or the save settings are not a dictionary.
    pub fn sync_settings(&mut self, save_settings: PropertyTree) -> (r: Result<(), ModErr>)
        requires
            old(self).wf(),
        ensures
            final(self).wf(),
            final(self).mods@ == old(self).mods@,
            final(self).mod_list@ == old(self).mod_list@,
            final(self).mod_list_path == old(self).mod_list_path,
            match r {
                Err(e) => e == ModErr::SettingsShape && final(self).mod_settings == old(
                    self,
                ).mod_settings && !(spec_startup_dict(old(self).mod_settings.settings) is Some
                    && save_settings is Dictionary),
                Ok(_) => spec_startup_dict(old(self).mod_settings.settings) is Some
                    && save_settings is Dictionary && ({
                    let d0 = spec_startup_dict(old(self).mod_settings.settings)->Some_0;
                    let sv = save_settings->Dictionary_0@;
                    &&& final(self).mod_settings.settings is Dictionary
                    &&& spec_startup_dict(final(self).mod_settings.settings) is Some
                    &&& (forall|k: Seq<char>|
                        k != "startup"@ ==> dict_lookup(
                            final(self).mod_settings.settings->Dictionary_0@,
                            k,
                        ) == dict_lookup(old(self).mod_settings.settings->Dictionary_0@, k))
                    &&& (forall|k: Seq<char>|
                        dict_lookup(
                            spec_startup_dict(final(self).mod_settings.settings)->Some_0,
                            k,
                        ) == (if dict_lookup(sv, k) is Some {
                            dict_lookup(sv, k)
                        } else {
                            dict_lookup(d0, k)
                        }))
                }),
            },
    {
        if merge_startup(&mut self.mod_settings.settings, save_settings) {
            Ok(())
        } else {
            Err(ModErr::SettingsShape)
        }
    }

    /// Disables every mod except the sentinel "base": each other record ends
    /// up with its enabled flag cleared and its pin removed; "base" records
    /// are left exactly as they are.
    pub fn disable_all(&mut self)
        requires
            old(self).wf(),
        ensures
            final(self).wf(),
            final(self).mods@ == old(self).mods@,
            final(self).mod_list_path == old(self).mod_list_path,
            final(self).mod_settings == old(self).mod_settings,
            final(self).mod_list@.len() == old(self).mod_list@.len(),
            forall|i: int|
                0 <= i < old(self).mod_list@.len() ==> (#[trigger] final(self).mod_list@[i]) == (
                if old(self).mod_list@[i].name@ == "base"@ {
                    old(self).mod_list@[i]
                } else {
                    (ModListJsonMod {
                        name: old(self).mod_list@[i].name,
                        enabled: false,
                        version: None,
                    })
                }),
    {
        let base = String::from_str("base");
        let n = self.mod_list.len();
        let mut i: usize = 0;
        while i < n
            invariant
                n == self.mod_list@.len(),
                n == old(self).mod_list@.len(),
                0 <= i <= n,
                self.mods@ == old(self).mods@,
                self.mod_list_path == old(self).mod_list_path,
                self.mod_settings == old(self).mod_settings,
                base@ == "base"@,
                index_wf(old(self).mods@),
                forall|j: int| i <= j < n ==> self.mod_list@[j] == old(self).mod_list@[j],
                forall|j: int|
                    0 <= j < i ==> (#[trigger] self.mod_list@[j]) == (if old(
                        self,
                    ).mod_list@[j].name@ == "base"@ {
                        old(self).mod_list@[j]
                    } else {
                        (ModListJsonMod {
                            name: old(self).mod_list@[j].name,
                            enabled: false,
                            version: None,
                        })
                    }),
            decreases n - i,
        {
            if !base.eq(&self.mod_list[i].name) {
                set_record(&mut self.mod_list, i, false, None);
            }
            i += 1;
        }
    }
}

/// Inserts one entry into the index: into its name's group when one exists,
/// else as a new group at the end.
fn add_to_index(groups: &mut Vec<ModGroup>, e: ModEntry)
    requires
        index_wf(old(groups)@),
        e.ident.version is Some,
    ensures
        index_wf(final(groups)@),
        forall|n: Seq<char>, v: Version|
            index_has_version(final(groups)@, n, v) <==> (index_has_version(old(groups)@, n, v)
                || (n == e.ident.name@ && v == entry_version(e))),
        index_has_version(old(groups)@, e.ident.name@, entry_version(e)) ==> final(groups)@
            == old(groups)@,
{
    let ghost g0 = groups@;
    match find_group(groups, &e.ident.name) {
        Some(i) => {
            let ghost name = e.ident.name@;
            let ghost oldg = g0[i as int];
            proof {
                assert(group_wf(oldg));
            }
            let pv = *e.ident.get_guaranteed_version();
            if find_version(&groups[i].entries, &pv).is_some() {
                proof {
                    assert(has_version_seq(g0[i as int].entries@, entry_version(e)));
                    assert(index_has_version(g0, name, entry_version(e)));
                    assert forall|n: Seq<char>, v: Version|
                        index_has_version(groups@, n, v) <==> (index_has_version(g0, n, v) || (n
                            == e.ident.name@ && v == entry_version(e))) by {}
                }
                return ;
            }
            proof {
                assert(!has_version_seq(g0[i as int].entries@, entry_version(e)));
            }
            let mut grp = groups.remove(i);
            let ghost oldentries = grp.entries@;
            group_insert(&mut grp.entries, e);
            let ghost newg = grp;
            groups.insert(i, grp);
            proof {
                assert(groups@ =~= g0.update(i as int, newg));
                assert(newg.name@ == name);
                assert forall|ii: int, jj: int| 0 <= ii < jj < groups@.len() implies (
                #[trigger] groups@[ii]).name@ != (#[trigger] groups@[jj]).name@ by {
                    assert(groups@[ii].name@ == g0[ii].name@);
                    assert(groups@[jj].name@ == g0[jj].name@);
                }
                assert forall|ii: int| 0 <= ii < groups@.len() implies group_wf(
                    #[trigger] groups@[ii],
                ) by {
                    if ii != i {
                        assert(groups@[ii] == g0[ii]);
                    }
                }
                assert forall|n: Seq<char>, v: Version| index_has_version(groups@, n, v) implies (
                index_has_version(g0, n, v) || (n == e.ident.name@ && v == entry_version(e))) by {
                    let w = choose|w: int|
                        0 <= w < groups@.len() && (#[trigger] groups@[w]).name@ == n
                            && has_version_seq(groups@[w].entries@, v);
                    if w != i {
                        assert(groups@[w] == g0[w]);
                        assert(index_has_version(g0, n, v));
                    } else {
                        if has_version_seq(oldentries, v) {
                            assert(index_has_version(g0, n, v));
                        }
                    }
                }
                assert forall|n: Seq<char>, v: Version| (index_has_version(g0, n, v) || (n
                    == e.ident.name@ && v == entry_version(e))) implies index_has_version(
                    groups@,
                    n,
                    v,
                ) by {
                    if index_has_version(g0, n, v) {
                        let w = choose|w: int|
                            0 <= w < g0.len() && (#[trigger] g0[w]).name@ == n && has_version_seq(
                                g0[w].entries@,
                                v,
                            );
                        if w != i {
                            assert(groups@[w] == g0[w]);
                        } else {
                            assert(has_version_seq(newg.entries@, v));
                        }
                    } else {
                        assert(groups@[i as int].name@ == n);
                        assert(has_version_seq(groups@[i as int].entries@, v));
                    }
                }
                if index_has_version(g0, e.ident.name@, entry_version(e)) {
                    let w = choose|w: int|
                        0 <= w < g0.len() && (#[trigger] g0[w]).name@ == e.ident.name@
                            && has_version_seq(g0[w].entries@, entry_version(e));
                    assert(w == i);
                    assert(false);
                }
            }
        },
        None => {
            let name = e.ident.name.clone();
            let mut entries: Vec<ModEntry> = Vec::new();
            let ghost ename = e.ident.name@;
            group_insert(&mut entries, e);
            let grp = ModGroup { name, entries };
            groups.push(grp);
            proof {
                assert(groups@ =~= g0.push(grp));
                assert(grp.name@ == ename);
                assert(group_wf(grp));
                assert forall|ii: int| 0 <= ii < groups@.len() implies group_wf(
                    #[trigger] groups@[ii],
                ) by {
                    if ii < g0.len() {
                        assert(groups@[ii] == g0[ii]);
                    }
                }
                assert forall|ii: int, jj: int| 0 <= ii < jj < groups@.len() implies (
                #[trigger] groups@[ii]).name@ != (#[trigger] groups@[jj]).name@ by {
                    if jj < g0.len() {
                        assert(groups@[ii] == g0[ii] && groups@[jj] == g0[jj]);
                    } else {
                        assert(groups@[ii] == g0[ii]);
                        assert(groups@[jj] == grp);
                        assert(!index_has(g0, ename));
                    }
                }
                assert forall|n: Seq<char>, v: Version| index_has_version(groups@, n, v) implies (
                index_has_version(g0, n, v) || (n == ename && v == entry_version(e))) by {
                    let w = choose|w: int|
                        0 <= w < groups@.len() && (#[trigger] groups@[w]).name@ == n
                            && has_version_seq(groups@[w].entries@, v);
                    if w < g0.len() {
                        assert(groups@[w] == g0[w]);
                        assert(index_has_version(g0, n, v));
                    }
                }
                assert forall|n: Seq<char>, v: Version| (index_has_version(g0, n, v) || (n == ename
                    && v == entry_version(e))) implies index_has_version(groups@, n, v) by {
                    if index_has_version(g0, n, v) {
                        let w = choose|w: int|
                            0 <= w < g0.len() && (#[trigger] g0[w]).name@ == n && has_version_seq(
                                g0[w].entries@,
                                v,
                            );
                        assert(groups@[w] == g0[w]);
                    } else {
                        assert(groups@[g0.len() as int] == grp);
                    }
                }
                if index_has_version(g0, ename, entry_version(e)) {
                    assert(index_has(g0, ename));
                }
            }
        },
    }
}

} // verus!
