use std::io::Write;
use modd::sync::{SaveFile, SaveFileErr};
use modd::version::Version;

// the synthetic level-state blob: version 1.0.0 (and a discarded build
// word), two reserved bytes, "Hello" scenario, "Mod1" owner, fourteen
// reserved bytes, then one mod record "Mod2" with seven reserved bytes
fn level_bytes() -> Vec<u8> {
    let mut bytes = vec![1, 0, 0, 0, 0, 0, 0, 0, 0, 0];
    bytes.push(5);
    bytes.extend_from_slice(b"Hello");
    bytes.push(4);
    bytes.extend_from_slice(b"Mod1");
    bytes.extend_from_slice(&[0; 14]);
    bytes.push(1);
    bytes.push(4);
    bytes.extend_from_slice(b"Mod2");
    bytes.extend_from_slice(&[0; 7]);
    bytes
}

// the same blob as a zlib stream
fn level_bytes_zlib() -> Vec<u8> {
    vec![
        120, 156, 99, 100, 128, 1, 86, 143, 212, 156, 156, 124, 22, 223, 252, 20, 67, 6, 20,
        192, 8, 18, 51, 130, 114, 0, 121, 160, 4, 167,
    ]
}

fn archive_with(entries: &[(&str, &[u8])]) -> Vec<u8> {
    let cursor = std::io::Cursor::new(Vec::new());
    let mut writer = zip::ZipWriter::new(cursor);
    let options = zip::write::SimpleFileOptions::default()
        .compression_method(zip::CompressionMethod::Stored);
    for (name, content) in entries {
        writer.start_file(*name, options).unwrap();
        writer.write_all(content).unwrap();
    }
    writer.finish().unwrap().into_inner()
}

fn check_decoded(save: &SaveFile) {
    assert_eq!(save.map_version, Version { major: 1, minor: 0, patch: 0 });
    assert_eq!(save.scenario, "Hello");
    assert_eq!(save.scenario_mod_name, "Mod1");
    assert_eq!(save.mods.len(), 1);
    assert_eq!(save.mods[0].name, "Mod2");
    assert_eq!(save.mods[0].version, None);
}

#[test]
fn decodes_a_raw_level_entry() {
    let level = level_bytes();
    let archive = archive_with(&[("save/level.dat", &level)]);
    let save = SaveFile::from(&archive).unwrap();
    check_decoded(&save);
}

#[test]
fn decodes_a_compressed_level_entry() {
    let compressed = level_bytes_zlib();
    let archive = archive_with(&[("save/level.dat0", &compressed)]);
    let save = SaveFile::from(&archive).unwrap();
    check_decoded(&save);
}

#[test]
fn prefers_the_compressed_entry() {
    let compressed = level_bytes_zlib();
    let garbage = [0u8; 4];
    let archive =
        archive_with(&[("save/level.dat", &garbage), ("save/level.dat0", &compressed)]);
    let save = SaveFile::from(&archive).unwrap();
    check_decoded(&save);
}

#[test]
fn missing_level_entry_is_reported() {
    let archive = archive_with(&[("save/control.dat", b"ignored")]);
    assert!(matches!(SaveFile::from(&archive), Err(SaveFileErr::NoLevelDat)));
}

#[test]
fn garbage_bytes_are_a_bad_archive() {
    let not_a_zip = vec![1, 2, 3, 4, 5];
    assert!(matches!(SaveFile::from(&not_a_zip), Err(SaveFileErr::BadArchive)));
}

#[test]
fn bad_zlib_stream_is_a_bad_archive() {
    let archive = archive_with(&[("save/level.dat0", &[9, 9, 9, 9])]);
    assert!(matches!(SaveFile::from(&archive), Err(SaveFileErr::BadArchive)));
}

#[test]
fn truncated_level_data_is_reported() {
    let mut level = level_bytes();
    level.truncate(20);
    let archive = archive_with(&[("save/level.dat", &level)]);
    assert!(matches!(SaveFile::from(&archive), Err(SaveFileErr::TruncatedLevelData)));
}

#[test]
fn oversized_raw_entry_is_capped_at_one_mebibyte() {
    // a huge raw level entry: the decoder reads at most 1 MiB of it and
    // still decodes the leading fields
    let mut level = level_bytes();
    level.extend(std::iter::repeat(0u8).take(2 * 1024 * 1024));
    let archive = archive_with(&[("save/level.dat", &level)]);
    let save = SaveFile::from(&archive).unwrap();
    check_decoded(&save);
}

#[test]
fn read_string_decodes_a_length_prefixed_string() {
    let mut bytes = vec![5u8];
    bytes.extend_from_slice(b"Hello");
    bytes.push(99);
    let mut pos = 0usize;
    let text = modd::sync::read_string(&bytes, &mut pos).unwrap();
    assert_eq!(text, "Hello");
    assert_eq!(pos, 6);
    let mut short_pos = 0usize;
    let short = vec![9u8, 1, 2];
    assert!(modd::sync::read_string(&short, &mut short_pos).is_err());
}

#[test]
fn reserved_deflate_symbol_is_a_bad_archive() {
    // a zlib stream whose one fixed-Huffman block holds the reserved
    // length symbol 286: decoding must report an error, not abort
    let stream = vec![0x78u8, 0x9c, 0x1b, 0x03];
    let archive = archive_with(&[("save/level.dat0", &stream)]);
    assert!(matches!(SaveFile::from(&archive), Err(SaveFileErr::BadArchive)));
}

#[test]
fn compressed_stream_larger_than_one_mebibyte_still_decodes() {
    // stored (uncompressed) zlib blocks make the compressed entry larger
    // than the mebibyte kept of its inflation; the leading fields decode,
    // and everything past the first mebibyte of level state is discarded
    let mut level = level_bytes();
    level.extend(std::iter::repeat(0u8).take(1_300_000));
    let mut encoder =
        flate2::write::ZlibEncoder::new(Vec::new(), flate2::Compression::none());
    encoder.write_all(&level).unwrap();
    let stream = encoder.finish().unwrap();
    assert!(stream.len() > 1_048_576);
    let archive = archive_with(&[("save/level.dat0", &stream)]);
    let save = SaveFile::from(&archive).unwrap();
    check_decoded(&save);
}
