use modd::version::{parse_u64, parse_version, u64_to_string, version_string, Version};
use modd::ident::{parse_file_name, parse_ident};

fn v(major: u64, minor: u64, patch: u64) -> Version {
    Version { major, minor, patch }
}

#[test]
fn parses_plain_numbers() {
    assert_eq!(parse_u64("0"), Some(0));
    assert_eq!(parse_u64("1048576"), Some(1048576));
    assert_eq!(parse_u64("18446744073709551615"), Some(u64::MAX));
    assert_eq!(parse_u64("18446744073709551616"), None);
    assert_eq!(parse_u64(""), None);
    assert_eq!(parse_u64("12a"), None);
}

#[test]
fn formats_numbers() {
    assert_eq!(u64_to_string(0), "0");
    assert_eq!(u64_to_string(7), "7");
    assert_eq!(u64_to_string(1048576), "1048576");
    assert_eq!(u64_to_string(u64::MAX), "18446744073709551615");
}

#[test]
fn parses_versions() {
    assert_eq!(parse_version("1.2.3"), Some(v(1, 2, 3)));
    assert_eq!(parse_version("0.0.0"), Some(v(0, 0, 0)));
    assert_eq!(parse_version("1.2"), None);
    assert_eq!(parse_version("1.2.3.4"), None);
    assert_eq!(parse_version("1.2.x"), None);
    assert_eq!(parse_version(""), None);
}

#[test]
fn formats_and_reparses_versions() {
    let version = v(1, 10, 203);
    let text = version_string(&version);
    assert_eq!(text, "1.10.203");
    assert_eq!(parse_version(&text), Some(version));
}

#[test]
fn fast_path_extracts_name_and_version() {
    let parsed = parse_file_name("Krastorio2_1.2.3.zip").unwrap();
    assert_eq!(parsed.0, "Krastorio2");
    assert_eq!(parsed.1, v(1, 2, 3));
}

#[test]
fn fast_path_keeps_underscores_in_names() {
    let parsed = parse_file_name("Some_Big_Mod_0.17.60.zip").unwrap();
    assert_eq!(parsed.0, "Some_Big_Mod");
    assert_eq!(parsed.1, v(0, 17, 60));
}

#[test]
fn fast_path_works_without_zip_suffix() {
    let parsed = parse_file_name("base_1.1.0").unwrap();
    assert_eq!(parsed.0, "base");
    assert_eq!(parsed.1, v(1, 1, 0));
}

#[test]
fn fast_path_rejects_other_names() {
    assert!(parse_file_name("README.md").is_none());
    assert!(parse_file_name("mod-folder").is_none());
    assert!(parse_file_name("Mod_1.2.zip").is_none());
}

#[test]
fn fast_path_agrees_with_declared_metadata() {
    // a filename assembled from a declared name and version parses back to
    // exactly that pair
    let name = "My_Mod";
    let version = v(3, 0, 12);
    let file_name = format!("{}_{}.zip", name, version_string(&version));
    let parsed = parse_file_name(&file_name).unwrap();
    assert_eq!(parsed.0, name);
    assert_eq!(parsed.1, version);
}

#[test]
fn parses_identifiers() {
    let plain = parse_ident("Krastorio2").unwrap();
    assert_eq!(plain.name, "Krastorio2");
    assert_eq!(plain.version, None);

    let pinned = parse_ident("Krastorio2@1.2.3").unwrap();
    assert_eq!(pinned.name, "Krastorio2");
    assert_eq!(pinned.version, Some(v(1, 2, 3)));

    assert!(parse_ident("Krastorio2@1.2").is_none());
}

#[test]
fn renders_identifiers() {
    let plain = parse_ident("Krastorio2").unwrap();
    assert_eq!(plain.render(), "Krastorio2");
    let pinned = parse_ident("Krastorio2@1.2.3").unwrap();
    assert_eq!(pinned.render(), "Krastorio2@1.2.3");
}
