use std::io::{Cursor, Write};

use physics_rust::scene::{is_zip, parse_scene, read_source, scene_source_from_entry, source_bytes, ZipEntryError};
use zip::{write::SimpleFileOptions, CompressionMethod, ZipWriter};

fn archive(name: &str, source: &str) -> Vec<u8> {
    let mut zip = ZipWriter::new(Cursor::new(Vec::new()));
    zip.start_file(name, SimpleFileOptions::default().compression_method(CompressionMethod::Deflated))
        .unwrap();
    zip.write_all(source.as_bytes()).unwrap();
    zip.finish().unwrap().into_inner()
}

#[test]
fn scene_source_is_detected_from_content() {
    let plain = source_bytes(b"a = 1").unwrap();
    let bom = source_bytes(b"\xef\xbb\xbfa = 1").unwrap();
    let zipped = source_bytes(&archive("scene.phn", "a = 1")).unwrap();
    assert_eq!(plain, b"a = 1");
    assert_eq!(bom, b"\xef\xbb\xbfa = 1");
    assert_eq!(zipped, b"a = 1");

    assert!(source_bytes(&archive("folder/scene.phn", "a = 1")).is_err());
    assert!(source_bytes(b"PK\x03\x04broken").is_err());
}

#[test]
fn zip_archives_are_recognised_by_their_signatures() {
    assert!(is_zip(b"PK\x03\x04rest"));
    assert!(is_zip(b"PK\x05\x06"));
    assert!(is_zip(b"PK\x07\x08"));
    assert!(!is_zip(b"PK\x03"));
    assert!(!is_zip(b"PK\x01\x02"));
    assert!(!is_zip(b""));
}

#[test]
fn a_zip_without_a_root_script_names_the_missing_entry() {
    assert_eq!(
        source_bytes(&archive("other.phn", "a = 1")).unwrap_err(),
        "zip has no root scene.phn"
    );
    assert_eq!(
        source_bytes(&archive("folder/scene.phn", "a = 1")).unwrap_err(),
        "zip has no root scene.phn"
    );
    assert_eq!(
        scene_source_from_entry(Err(ZipEntryError::NoEntry)).unwrap_err(),
        "zip has no root scene.phn"
    );
    assert_eq!(
        scene_source_from_entry(Err(ZipEntryError::Archive("bad".into()))).unwrap_err(),
        "bad"
    );
    assert_eq!(scene_source_from_entry(Ok(vec![1, 2])).unwrap(), vec![1, 2]);
}

#[test]
fn reading_errors_pass_through_and_parse_errors_are_joined() {
    assert_eq!(read_source(Err("cannot open x".into())).unwrap_err(), "cannot open x");
    assert_eq!(read_source(Ok(b"b = 2".to_vec())).unwrap(), b"b = 2");
    assert_eq!(read_source(Ok(archive("scene.phn", "c"))).unwrap(), b"c");
    assert_eq!(parse_scene::<u8>(Ok(3)).unwrap(), 3);
    assert_eq!(
        parse_scene::<u8>(Err(vec!["first".into(), "second".into()])).unwrap_err(),
        "first\nsecond"
    );
    assert_eq!(parse_scene::<u8>(Err(vec!["only".into()])).unwrap_err(), "only");
    assert_eq!(parse_scene::<u8>(Err(vec![])).unwrap_err(), "");
}
