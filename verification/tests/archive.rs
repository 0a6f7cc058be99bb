use std::io::{Cursor, Write};

use rmm2::modinstall::archive::{extraction_plan, unpack_plan, zip_entries, ZipEntry};
use rmm2::paths::Path;

fn sample_zip() -> Vec<u8> {
    let mut w = zip::ZipWriter::new(Cursor::new(Vec::new()));
    let opts = zip::write::SimpleFileOptions::default().compression_method(zip::CompressionMethod::Stored);
    w.add_directory("textures/", opts).unwrap();
    w.start_file("textures/a.dds", opts).unwrap();
    w.write_all(b"abc").unwrap();
    w.start_file("../evil.txt", opts).unwrap();
    w.write_all(b"x").unwrap();
    w.finish().unwrap().into_inner()
}

#[test]
fn plan_skips_escaping_names_and_marks_directories() {
    let entries = vec![
        ZipEntry { name: "meshes/".to_string(), enclosed: true, data: vec![] },
        ZipEntry { name: "../up.txt".to_string(), enclosed: false, data: vec![1] },
        ZipEntry { name: "meshes/m.nif".to_string(), enclosed: true, data: vec![2, 3] },
    ];
    let plan = extraction_plan(&Path::from("/game/Data/"), &entries);
    assert_eq!(plan.len(), 2);
    assert_eq!(plan[0].target, "/game/Data/meshes/");
    assert!(plan[0].directory);
    assert_eq!(plan[0].entry, 0);
    assert_eq!(plan[1].target, "/game/Data/meshes/m.nif");
    assert!(!plan[1].directory);
    assert_eq!(plan[1].entry, 2);
}

#[test]
fn reads_a_zip_archive_and_plans_it() {
    let bytes = sample_zip();
    let entries = zip_entries(&bytes).expect("readable archive");
    assert_eq!(entries.len(), 3);
    assert_eq!(entries[1].name, "textures/a.dds");
    assert_eq!(entries[1].data, b"abc".to_vec());
    assert!(entries[1].enclosed);
    assert!(!entries[2].enclosed);
    let (_, plan) = unpack_plan(&bytes, &Path::from("/d/")).expect("readable archive");
    assert_eq!(plan.len(), 2);
    assert_eq!(plan[0].target, "/d/textures/");
    assert!(plan[0].directory);
    assert_eq!(plan[1].target, "/d/textures/a.dds");
    assert_eq!(plan[1].entry, 1);
}

#[test]
fn rejects_bytes_that_are_no_archive() {
    assert!(zip_entries(b"not a zip file").is_none());
    assert!(unpack_plan(b"not a zip file", &Path::from("/d/")).is_none());
}
