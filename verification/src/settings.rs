//! The settings store: a tree of named values with dictionary nodes.
//!
//! Only the shape of the tree matters to this library: the startup
//! sub-dictionary is read and merged; everything else is carried through.

use vstd::prelude::*;

verus! {

/// One node of the settings tree. Numeric values are carried as their raw
/// 64-bit encoding; this library never interprets them.
pub enum PropertyTree {
    Empty,
    Bool(bool),
    Number(u64),
    Text(String),
    List(Vec<PropertyTree>),
    Dictionary(Vec<DictEntry>),
}

/// One key/value pair of a dictionary node.
pub struct DictEntry {
    pub key: String,
    pub value: PropertyTree,
}

/// The first value stored under `key`, if any.
pub open spec fn dict_lookup(s: Seq<DictEntry>, key: Seq<char>) -> Option<PropertyTree>
    decreases s.len(),
{
    if s.len() == 0 {
        None
    } else if s[0].key@ == key {
        Some(s[0].value)
    } else {
        dict_lookup(s.drop_first(), key)
    }
}

/// Replacing the first entry that holds `key` rewrites the lookup at `key`
/// and leaves every other key unchanged.
proof fn lemma_lookup_update(s: Seq<DictEntry>, i: int, e: DictEntry, k: Seq<char>)
    requires
        0 <= i < s.len(),
        e.key@ == s[i].key@,
        forall|j: int| 0 <= j < i ==> (#[trigger] s[j]).key@ != s[i].key@,
    ensures
        dict_lookup(s.update(i, e), s[i].key@) == Some(e.value),
        k != s[i].key@ ==> dict_lookup(s.update(i, e), k) == dict_lookup(s, k),
    decreases i,
{
    let t = s.update(i, e);
    if i == 0 {
        assert(t[0] == e);
        assert(t.drop_first() =~= s.drop_first());
    } else {
        assert(t[0] == s[0]);
        assert(s[0].key@ != s[i].key@);
        assert(t.drop_first() =~= s.drop_first().update(i - 1, e));
        assert(s.drop_first()[i - 1] == s[i]);
        lemma_lookup_update(s.drop_first(), i - 1, e, k);
    }
}

/// Appending an entry whose key is absent defines that key and leaves every
/// other key unchanged.
proof fn lemma_lookup_push(s: Seq<DictEntry>, e: DictEntry, k: Seq<char>)
    requires
        dict_lookup(s, e.key@) is None,
    ensures
        dict_lookup(s.push(e), e.key@) == Some(e.value),
        k != e.key@ ==> dict_lookup(s.push(e), k) == dict_lookup(s, k),
    decreases s.len(),
{
    let t = s.push(e);
    if s.len() == 0 {
        assert(t[0] == e);
        assert(t.drop_first() =~= Seq::<DictEntry>::empty());
        assert(dict_lookup(t.drop_first(), k) is None);
    } else {
        assert(t[0] == s[0]);
        assert(s[0].key@ != e.key@);
        assert(t.drop_first() =~= s.drop_first().push(e));
        lemma_lookup_push(s.drop_first(), e, k);
    }
}

/// A forward scan that saw no match up to `i` agrees with `dict_lookup`.
proof fn lemma_lookup_scan(s: Seq<DictEntry>, key: Seq<char>, i: int)
    requires
        0 <= i <= s.len(),
        forall|j: int| 0 <= j < i ==> (#[trigger] s[j]).key@ != key,
    ensures
        i < s.len() && s[i].key@ == key ==> dict_lookup(s, key) == Some(s[i].value),
        i == s.len() ==> dict_lookup(s, key) is None,
    decreases i,
{
    if i > 0 {
        let t = s.drop_first();
        assert(s[0].key@ != key);
        assert forall|j: int| 0 <= j < i - 1 implies (#[trigger] t[j]).key@ != key by {
            assert(t[j] == s[j + 1]);
        }
        lemma_lookup_scan(t, key, i - 1);
        if i < s.len() {
            assert(t[i - 1] == s[i]);
        }
    }
}

/// Finds the first entry with the given key.
pub fn dict_find(entries: &Vec<DictEntry>, key: &String) -> (r: Option<usize>)
    ensures
        match r {
            Some(i) => i < entries@.len() && entries@[i as int].key@ == key@ && dict_lookup(
                entries@,
                key@,
            ) == Some(entries@[i as int].value) && (forall|j: int|
                0 <= j < i ==> (#[trigger] entries@[j]).key@ != key@),
            None => dict_lookup(entries@, key@) is None,
        },
{
    let n = entries.len();
    let mut i: usize = 0;
    while i < n
        invariant
            0 <= i <= n,
            n == entries@.len(),
            forall|j: int| 0 <= j < i ==> (#[trigger] entries@[j]).key@ != key@,
        decreases n - i,
    {
        if key.eq(&entries[i].key) {
            proof {
                lemma_lookup_scan(entries@, key@, i as int);
            }
            return Some(i);
        }
        i += 1;
    }
    proof {
        lemma_lookup_scan(entries@, key@, n as int);
    }
    None
}

/// Stores `value` under `key`: overwrites the first entry with that key, or
/// appends a new entry when the key is absent.
pub fn dict_insert(entries: &mut Vec<DictEntry>, key: String, value: PropertyTree)
    ensures
        dict_lookup(final(entries)@, key@) == Some(value),
        forall|k: Seq<char>|
            k != key@ ==> dict_lookup(final(entries)@, k) == dict_lookup(old(entries)@, k),
        old(entries)@.len() <= final(entries)@.len() <= old(entries)@.len() + 1,
{
    let ghost s0 = entries@;
    match dict_find(entries, &key) {
        Some(i) => {
            let e = entries.remove(i);
            let newe = DictEntry { key: e.key, value };
            entries.insert(i, newe);
            proof {
                assert(newe.key@ == key@);
                assert(entries@ =~= s0.update(i as int, newe));
                lemma_lookup_update(s0, i as int, newe, key@);
                assert forall|k: Seq<char>| k != key@ implies dict_lookup(entries@, k)
                    == dict_lookup(s0, k) by {
                    lemma_lookup_update(s0, i as int, newe, k);
                }
            }
        },
        None => {
            let newe = DictEntry { key, value };
            entries.push(newe);
            proof {
                assert(entries@ =~= s0.push(newe));
                lemma_lookup_push(s0, newe, newe.key@);
                assert forall|k: Seq<char>| k != newe.key@ implies dict_lookup(entries@, k)
                    == dict_lookup(s0, k) by {
                    lemma_lookup_push(s0, newe, k);
                }
            }
        },
    }
}

/// The startup sub-dictionary of a settings tree, when the tree has the
/// expected shape: a dictionary whose `startup` entry is a dictionary.
pub open spec fn spec_startup_dict(settings: PropertyTree) -> Option<Seq<DictEntry>> {
    match settings {
        PropertyTree::Dictionary(top) => match dict_lookup(top@, "startup"@) {
            Some(PropertyTree::Dictionary(d)) => Some(d@),
            _ => None,
        },
        _ => None,
    }
}

/// Merges a save file's startup settings into the store's startup
/// dictionary: every key of the save wins; every other key keeps its value.
/// Returns false, changing nothing, when either tree lacks the expected
/// dictionary shape.
pub fn merge_startup(settings: &mut PropertyTree, save: PropertyTree) -> (ok: bool)
    ensures
        ok == (spec_startup_dict(*old(settings)) is Some && save is Dictionary),
        !ok ==> *final(settings) == *old(settings),
        ok ==> ({
            let d0 = spec_startup_dict(*old(settings))->Some_0;
            let sv = save->Dictionary_0@;
            &&& *final(settings) is Dictionary
            &&& spec_startup_dict(*final(settings)) is Some
            &&& (forall|k: Seq<char>|
                k != "startup"@ ==> dict_lookup((*final(settings))->Dictionary_0@, k) == dict_lookup(
                    (*old(settings))->Dictionary_0@,
                    k,
                ))
            &&& (forall|k: Seq<char>|
                dict_lookup(spec_startup_dict(*final(settings))->Some_0, k) == (if dict_lookup(
                    sv,
                    k,
                ) is Some {
                    dict_lookup(sv, k)
                } else {
                    dict_lookup(d0, k)
                }))
        }),
{
    let mut save_entries = match save {
        PropertyTree::Dictionary(v) => v,
        _ => {
            return false;
        },
    };
    let startup_key = String::from_str("startup");
    match settings {
        PropertyTree::Dictionary(top) => {
            let ghost top0 = top@;
            match dict_find(top, &startup_key) {
                Some(idx) => {
                    let value_is_dict = match &top[idx].value {
                        PropertyTree::Dictionary(_) => true,
                        _ => false,
                    };
                    if !value_is_dict {
                        return false;
                    }
                    let entry = top.remove(idx);
                    let key = entry.key;
                    let mut d = match entry.value {
                        PropertyTree::Dictionary(d) => d,
                        _ => unreached(),
                    };
                    let ghost d0 = d@;
                    let ghost sv0 = save_entries@;
                    proof {
                        assert(save_entries@ =~= sv0.subrange(0, sv0.len() as int));
                    }
                    while save_entries.len() > 0
                        invariant
                            save_entries@ == sv0.subrange(0, save_entries@.len() as int),
                            save_entries@.len() <= sv0.len(),
                            forall|k: Seq<char>|
                                dict_lookup(d@, k) == (if dict_lookup(
                                    sv0.subrange(save_entries@.len() as int, sv0.len() as int),
                                    k,
                                ) is Some {
                                    dict_lookup(
                                        sv0.subrange(
                                            save_entries@.len() as int,
                                            sv0.len() as int,
                                        ),
                                        k,
                                    )
                                } else {
                                    dict_lookup(d0, k)
                                }),
                        decreases save_entries@.len(),
                    {
                        let ghost m = save_entries@.len() as int;
                        let ghost dprev = d@;
                        let e = save_entries.pop().unwrap();
                        proof {
                            assert(e == sv0[m - 1]);
                            assert(save_entries@ =~= sv0.subrange(0, m - 1));
                        }
                        dict_insert(&mut d, e.key, e.value);
                        proof {
                            let suff = sv0.subrange(m - 1, sv0.len() as int);
                            let prev_suff = sv0.subrange(m, sv0.len() as int);
                            assert(suff[0] == e);
                            assert(suff.drop_first() =~= prev_suff);
                            assert forall|k: Seq<char>|
                                dict_lookup(d@, k) == (if dict_lookup(suff, k) is Some {
                                    dict_lookup(suff, k)
                                } else {
                                    dict_lookup(d0, k)
                                }) by {
                                if k == e.key@ {
                                    assert(dict_lookup(suff, k) == Some(e.value));
                                    assert(dict_lookup(d@, k) == Some(e.value));
                                } else {
                                    assert(dict_lookup(suff, k) == dict_lookup(prev_suff, k));
                                    assert(dict_lookup(d@, k) == dict_lookup(dprev, k));
                                }
                            }
                        }
                    }
                    proof {
                        assert(sv0.subrange(0, sv0.len() as int) =~= sv0);
                    }
                    let newe = DictEntry { key, value: PropertyTree::Dictionary(d) };
                    top.insert(idx, newe);
                    proof {
                        assert(top@ =~= top0.update(idx as int, newe));
                        assert(newe.key@ == "startup"@);
                        lemma_lookup_update(top0, idx as int, newe, "startup"@);
                        assert forall|k: Seq<char>| k != "startup"@ implies dict_lookup(top@, k)
                            == dict_lookup(top0, k) by {
                            lemma_lookup_update(top0, idx as int, newe, k);
                        }
                    }
                    true
                },
                None => false,
            }
        },
        _ => false,
    }
}

/// The in-memory settings store; its tree is read and written as a whole.
pub struct ModSettings {
    pub settings: PropertyTree,
}

} // verus!
