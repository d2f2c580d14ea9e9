use modtoggler::archive::zip_manifest;
use modtoggler::error::AppError;
use std::io::{Cursor, Write};
use zip::write::SimpleFileOptions;
use zip::ZipWriter;

fn archive(entries: &[(&str, Option<&[u8]>)]) -> Vec<u8> {
    let mut w = ZipWriter::new(Cursor::new(Vec::new()));
    for (name, contents) in entries {
        match contents {
            Some(data) => {
                w.start_file(*name, SimpleFileOptions::default()).unwrap();
                w.write_all(data).unwrap();
            }
            None => w.add_directory(*name, SimpleFileOptions::default()).unwrap(),
        }
    }
    w.finish().unwrap().into_inner()
}

#[test]
fn archive_files_are_listed_in_order_with_their_contents() {
    let bytes = archive(&[
        ("data/", None),
        ("data/main.pak", Some(b"main")),
        ("Option_A/x.pak", Some(b"option")),
        ("readme.txt", Some(b"")),
    ]);
    let files = zip_manifest(&bytes).unwrap();
    let listed: Vec<(String, String, Vec<u8>)> =
        files.into_iter().map(|f| (f.manifest_path, f.relative_path, f.contents)).collect();
    assert_eq!(
        listed,
        vec![
            ("data/main.pak".to_string(), "data/main.pak".to_string(), b"main".to_vec()),
            ("Option_A/x.pak".to_string(), "Option_A/x.pak".to_string(), b"option".to_vec()),
            ("readme.txt".to_string(), "readme.txt".to_string(), Vec::new()),
        ]
    );
}

#[test]
fn entries_leaving_the_folder_are_skipped() {
    let bytes = archive(&[("../evil.pak", Some(b"x")), ("ok.pak", Some(b"y"))]);
    let files = zip_manifest(&bytes).unwrap();
    let names: Vec<String> = files.iter().map(|f| f.manifest_path.clone()).collect();
    assert_eq!(names, vec!["ok.pak".to_string()]);
}

#[test]
fn an_empty_archive_has_no_files() {
    let bytes = archive(&[]);
    assert!(zip_manifest(&bytes).unwrap().is_empty());
}

#[test]
fn bytes_that_are_no_archive_fail_to_open() {
    match zip_manifest(b"this is not a zip file") {
        Err(AppError::IoError(m)) => assert!(m.starts_with("Failed to open zip: "), "{}", m),
        other => panic!("unexpected {:?}", other.map(|v| v.len())),
    }
}
