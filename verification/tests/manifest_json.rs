use modd::directory::ModListJsonMod;
use modd::json::{manifest_from_json, manifest_to_json, read_info_json, JsonMember, JsonValue};
use modd::version::Version;

fn v(major: u64, minor: u64, patch: u64) -> Version {
    Version { major, minor, patch }
}

fn records() -> Vec<ModListJsonMod> {
    vec![
        ModListJsonMod { name: "base".to_string(), enabled: true, version: None },
        ModListJsonMod { name: "Alpha".to_string(), enabled: true, version: Some(v(1, 2, 0)) },
        ModListJsonMod { name: "Beta".to_string(), enabled: false, version: None },
    ]
}

fn assert_same_records(a: &[ModListJsonMod], b: &[ModListJsonMod]) {
    assert_eq!(a.len(), b.len());
    for (x, y) in a.iter().zip(b.iter()) {
        assert_eq!(x.name, y.name);
        assert_eq!(x.enabled, y.enabled);
        assert_eq!(x.version, y.version);
    }
}

fn to_serde(value: &JsonValue) -> serde_json::Value {
    match value {
        JsonValue::Null => serde_json::Value::Null,
        JsonValue::Bool(b) => serde_json::Value::Bool(*b),
        JsonValue::Str(s) => serde_json::Value::String(s.clone()),
        JsonValue::Arr(items) => serde_json::Value::Array(items.iter().map(to_serde).collect()),
        JsonValue::Obj(members) => {
            let mut map = serde_json::Map::new();
            for m in members {
                map.insert(m.key.clone(), to_serde(&m.value));
            }
            serde_json::Value::Object(map)
        }
    }
}

fn from_serde(value: &serde_json::Value) -> JsonValue {
    match value {
        serde_json::Value::Null => JsonValue::Null,
        serde_json::Value::Bool(b) => JsonValue::Bool(*b),
        serde_json::Value::Number(_) => JsonValue::Null,
        serde_json::Value::String(s) => JsonValue::Str(s.clone()),
        serde_json::Value::Array(items) => JsonValue::Arr(items.iter().map(from_serde).collect()),
        serde_json::Value::Object(map) => JsonValue::Obj(
            map.iter()
                .map(|(k, val)| JsonMember { key: k.clone(), value: from_serde(val) })
                .collect(),
        ),
    }
}

#[test]
fn encoding_and_reading_back_keeps_the_records() {
    let mods = records();
    let doc = manifest_to_json(&mods);
    let back = manifest_from_json(&doc).unwrap();
    assert_same_records(&mods, &back);
}

#[test]
fn round_trips_through_serialized_text() {
    // persist: render the document, serialize it to pretty-printed text;
    // reload: parse the text and read the records back
    let mods = records();
    let doc = manifest_to_json(&mods);
    let text = serde_json::to_string_pretty(&to_serde(&doc)).unwrap();
    let parsed: serde_json::Value = serde_json::from_str(&text).unwrap();
    let back = manifest_from_json(&from_serde(&parsed)).unwrap();
    assert_same_records(&mods, &back);
}

#[test]
fn encoded_document_has_the_manifest_shape() {
    let mods = records();
    let text = serde_json::to_string(&to_serde(&manifest_to_json(&mods))).unwrap();
    // serde_json's default map sorts keys alphabetically when serializing
    let mut expected = String::new();
    expected.push_str("{\"mods\":[");
    expected.push_str("{\"enabled\":true,\"name\":\"base\"},");
    expected.push_str("{\"enabled\":true,\"name\":\"Alpha\",\"version\":\"1.2.0\"},");
    expected.push_str("{\"enabled\":false,\"name\":\"Beta\"}]}");
    assert_eq!(text, expected);
}

#[test]
fn malformed_documents_are_rejected() {
    assert!(manifest_from_json(&JsonValue::Null).is_none());
    assert!(manifest_from_json(&JsonValue::Obj(vec![])).is_none());
    let bad_version = JsonValue::Obj(vec![JsonMember {
        key: "mods".to_string(),
        value: JsonValue::Arr(vec![JsonValue::Obj(vec![
            JsonMember { key: "name".to_string(), value: JsonValue::Str("X".to_string()) },
            JsonMember { key: "enabled".to_string(), value: JsonValue::Bool(true) },
            JsonMember { key: "version".to_string(), value: JsonValue::Str("nope".to_string()) },
        ])]),
    }]);
    assert!(manifest_from_json(&bad_version).is_none());
}

fn info_doc(name: &str, version: &str) -> JsonValue {
    JsonValue::Obj(vec![
        JsonMember { key: "name".to_string(), value: JsonValue::Str(name.to_string()) },
        JsonMember { key: "version".to_string(), value: JsonValue::Str(version.to_string()) },
        JsonMember { key: "factorio_version".to_string(), value: JsonValue::Str("1.1".to_string()) },
    ])
}

#[test]
fn reads_package_metadata() {
    let (name, version) = read_info_json(&info_doc("Krastorio2", "1.2.3")).unwrap();
    assert_eq!(name, "Krastorio2");
    assert_eq!(version, v(1, 2, 3));
    assert!(read_info_json(&info_doc("X", "not-a-version")).is_none());
    assert!(read_info_json(&JsonValue::Null).is_none());
}

#[test]
fn metadata_and_filename_agree() {
    // the slow path (metadata document) and the fast path (filename) give
    // the same identity for a package that declares what its name encodes
    let from_info = read_info_json(&info_doc("My_Mod", "3.0.12")).unwrap();
    let from_name = modd::ident::parse_file_name("My_Mod_3.0.12.zip").unwrap();
    assert_eq!(from_info.0, from_name.0);
    assert_eq!(from_info.1, from_name.1);
}
