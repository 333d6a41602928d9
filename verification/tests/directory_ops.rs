use modd::directory::{Directory, ModEntry, ModErr, ModGroup, ModListJsonMod};
use modd::ident::ModIdent;
use modd::settings::{DictEntry, ModSettings, PropertyTree};
use modd::version::Version;

fn v(major: u64, minor: u64, patch: u64) -> Version {
    Version { major, minor, patch }
}

fn entry(name: &str, version: Version) -> ModEntry {
    ModEntry {
        file_name: format!("{}_{}.{}.{}.zip", name, version.major, version.minor, version.patch),
        ident: ModIdent { name: name.to_string(), version: Some(version) },
    }
}

fn ident(name: &str, version: Option<Version>) -> ModIdent {
    ModIdent { name: name.to_string(), version }
}

fn sample_directory() -> Directory {
    let entries = vec![
        entry("Alpha", v(1, 0, 0)),
        entry("Alpha", v(1, 2, 0)),
        entry("Alpha", v(0, 9, 0)),
        entry("Beta", v(2, 0, 0)),
    ];
    let mod_list = vec![
        ModListJsonMod { name: "base".to_string(), enabled: true, version: None },
        ModListJsonMod { name: "Alpha".to_string(), enabled: false, version: None },
    ];
    Directory::new(
        entries,
        mod_list,
        "mod-list.json".to_string(),
        ModSettings { settings: PropertyTree::Empty },
    )
}

fn record<'a>(d: &'a Directory, name: &str) -> &'a ModListJsonMod {
    d.mod_list.iter().find(|m| m.name == name).unwrap()
}

fn group<'a>(d: &'a Directory, name: &str) -> &'a ModGroup {
    d.mods.iter().find(|g| g.name == name).unwrap()
}

#[test]
fn contains_without_version_means_any_version() {
    let d = sample_directory();
    assert!(d.contains(&ident("Alpha", None)));
    assert!(d.contains(&ident("Beta", None)));
    assert!(!d.contains(&ident("Gamma", None)));
}

#[test]
fn contains_with_version_means_that_exact_version() {
    let d = sample_directory();
    assert!(d.contains(&ident("Alpha", Some(v(1, 2, 0)))));
    assert!(!d.contains(&ident("Alpha", Some(v(1, 2, 1)))));
    assert!(!d.contains(&ident("Gamma", Some(v(1, 0, 0)))));
}

#[test]
fn index_entries_are_sorted_ascending() {
    let d = sample_directory();
    let alpha = group(&d, "Alpha");
    let versions: Vec<Version> =
        alpha.entries.iter().map(|e| e.ident.version.unwrap()).collect();
    assert_eq!(versions, vec![v(0, 9, 0), v(1, 0, 0), v(1, 2, 0)]);
}

#[test]
fn add_is_idempotent_and_keeps_order() {
    let mut d = sample_directory();
    let before: Vec<Version> =
        group(&d, "Alpha").entries.iter().map(|e| e.ident.version.unwrap()).collect();
    d.add(("Alpha".to_string(), entry("Alpha", v(1, 0, 0))));
    let after: Vec<Version> =
        group(&d, "Alpha").entries.iter().map(|e| e.ident.version.unwrap()).collect();
    assert_eq!(before, after);

    d.add(("Alpha".to_string(), entry("Alpha", v(1, 1, 0))));
    let grown: Vec<Version> =
        group(&d, "Alpha").entries.iter().map(|e| e.ident.version.unwrap()).collect();
    assert_eq!(grown, vec![v(0, 9, 0), v(1, 0, 0), v(1, 1, 0), v(1, 2, 0)]);
    // a freshly added mod is recorded as disabled
    assert!(!record(&d, "Alpha").enabled);
}

#[test]
fn enable_resolves_latest_when_unpinned() {
    let mut d = sample_directory();
    let got = d.enable(&ident("Alpha", None)).unwrap();
    assert_eq!(got, Some(v(1, 2, 0)));
    let rec = record(&d, "Alpha");
    assert!(rec.enabled);
    // no caller-given version: the record tracks latest, so no pin
    assert_eq!(rec.version, None);
}

#[test]
fn enable_pins_an_explicit_version() {
    let mut d = sample_directory();
    let got = d.enable(&ident("Alpha", Some(v(1, 0, 0)))).unwrap();
    assert_eq!(got, Some(v(1, 0, 0)));
    let rec = record(&d, "Alpha");
    assert!(rec.enabled);
    assert_eq!(rec.version, Some(v(1, 0, 0)));
}

#[test]
fn enable_is_idempotent() {
    let mut d = sample_directory();
    assert_eq!(d.enable(&ident("Beta", None)).unwrap(), Some(v(2, 0, 0)));
    assert_eq!(d.enable(&ident("Beta", None)).unwrap(), None);
}

#[test]
fn enable_unknown_mod_fails() {
    let mut d = sample_directory();
    assert_eq!(d.enable(&ident("Gamma", None)), Err(ModErr::NotFound));
    assert_eq!(d.enable(&ident("Alpha", Some(v(9, 9, 9)))), Err(ModErr::NotFound));
}

#[test]
fn enable_then_disable_clears_flag_and_pin() {
    let mut d = sample_directory();
    d.enable(&ident("Alpha", Some(v(1, 2, 0)))).unwrap();
    assert!(record(&d, "Alpha").enabled);
    assert!(d.disable(&ident("Alpha", None)));
    let rec = record(&d, "Alpha");
    assert!(!rec.enabled);
    assert_eq!(rec.version, None);
}

#[test]
fn disable_unknown_mod_is_a_noop() {
    let mut d = sample_directory();
    let before: Vec<(String, bool)> =
        d.mod_list.iter().map(|m| (m.name.clone(), m.enabled)).collect();
    assert!(!d.disable(&ident("Gamma", None)));
    let after: Vec<(String, bool)> =
        d.mod_list.iter().map(|m| (m.name.clone(), m.enabled)).collect();
    assert_eq!(before, after);
}

#[test]
fn disable_accepts_the_base_sentinel() {
    let mut d = sample_directory();
    assert!(d.disable(&ident("base", None)));
    assert!(!record(&d, "base").enabled);
}

#[test]
fn disable_all_spares_base_and_clears_the_rest() {
    let mut d = sample_directory();
    d.enable(&ident("Alpha", Some(v(1, 0, 0)))).unwrap();
    d.enable(&ident("Beta", None)).unwrap();
    d.disable_all();
    assert!(record(&d, "base").enabled);
    let alpha = record(&d, "Alpha");
    assert!(!alpha.enabled);
    assert_eq!(alpha.version, None);
    let beta = record(&d, "Beta");
    assert!(!beta.enabled);
    assert_eq!(beta.version, None);
}

fn dict(entries: Vec<(&str, PropertyTree)>) -> PropertyTree {
    PropertyTree::Dictionary(
        entries
            .into_iter()
            .map(|(k, value)| DictEntry { key: k.to_string(), value })
            .collect(),
    )
}

fn lookup<'a>(tree: &'a PropertyTree, key: &str) -> Option<&'a PropertyTree> {
    match tree {
        PropertyTree::Dictionary(entries) => {
            entries.iter().find(|e| e.key == key).map(|e| &e.value)
        }
        _ => None,
    }
}

#[test]
fn sync_settings_merges_save_values_over_stored_ones() {
    let mut d = sample_directory();
    d.mod_settings = ModSettings {
        settings: dict(vec![(
            "startup",
            dict(vec![
                ("keep-me", PropertyTree::Bool(true)),
                ("overwrite-me", PropertyTree::Number(1)),
            ]),
        )]),
    };
    let save = dict(vec![
        ("overwrite-me", PropertyTree::Number(2)),
        ("new-key", PropertyTree::Text("fresh".to_string())),
    ]);
    d.sync_settings(save).unwrap();
    let startup = lookup(&d.mod_settings.settings, "startup").unwrap();
    assert!(matches!(lookup(startup, "keep-me"), Some(PropertyTree::Bool(true))));
    assert!(matches!(lookup(startup, "overwrite-me"), Some(PropertyTree::Number(2))));
    assert!(matches!(lookup(startup, "new-key"), Some(PropertyTree::Text(t)) if t == "fresh"));
}

#[test]
fn sync_settings_rejects_a_malformed_store() {
    let mut d = sample_directory();
    d.mod_settings = ModSettings { settings: dict(vec![("runtime", dict(vec![]))]) };
    let save = dict(vec![]);
    assert_eq!(d.sync_settings(save), Err(ModErr::SettingsShape));

    let mut d2 = sample_directory();
    d2.mod_settings = ModSettings { settings: dict(vec![("startup", dict(vec![]))]) };
    assert_eq!(d2.sync_settings(PropertyTree::Bool(true)), Err(ModErr::SettingsShape));
}

#[test]
fn duplicate_name_and_version_entries_collapse_to_one() {
    let mut first = entry("Alpha", v(1, 0, 0));
    first.file_name = "Alpha_1.0.0".to_string();
    let mut second = entry("Alpha", v(1, 0, 0));
    second.file_name = "Alpha_1.0.0.zip".to_string();
    let d = Directory::new(
        vec![first, second],
        vec![],
        "mod-list.json".to_string(),
        ModSettings { settings: PropertyTree::Empty },
    );
    assert_eq!(group(&d, "Alpha").entries.len(), 1);
}
