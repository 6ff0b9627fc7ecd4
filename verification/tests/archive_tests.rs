use reina_backup::archive::{
    archive_then_extract, rel_path_name, to_archive_entries, write_archive, ArchiveEntry,
    SourceFile,
};

fn file(segments: &[&str], data: &[u8]) -> SourceFile {
    SourceFile {
        rel_segments: segments.iter().map(|s| s.to_string()).collect(),
        data: data.to_vec(),
    }
}

fn entry_pairs(entries: &[ArchiveEntry]) -> Vec<(String, Vec<u8>)> {
    let mut v: Vec<(String, Vec<u8>)> = entries
        .iter()
        .map(|e| (e.name.clone(), e.data.clone()))
        .collect();
    v.sort();
    v
}

#[test]
fn roundtrip_two_files() {
    let files = vec![file(&["a.txt"], b"abc"), file(&["sub", "b.txt"], b"hello")];
    let extracted = archive_then_extract(&files);
    let got = entry_pairs(&extracted);
    let want = vec![
        ("a.txt".to_string(), b"abc".to_vec()),
        ("sub/b.txt".to_string(), b"hello".to_vec()),
    ];
    assert_eq!(got, want);
}

#[test]
fn roundtrip_no_files() {
    let files: Vec<SourceFile> = Vec::new();
    let extracted = archive_then_extract(&files);
    assert!(extracted.is_empty());
}

#[test]
fn roundtrip_empty_file() {
    let files = vec![file(&["empty.bin"], b""), file(&["full.bin"], b"xy")];
    let extracted = archive_then_extract(&files);
    let got = entry_pairs(&extracted);
    let want = vec![
        ("empty.bin".to_string(), Vec::new()),
        ("full.bin".to_string(), b"xy".to_vec()),
    ];
    assert_eq!(got, want);
}

#[test]
fn roundtrip_deep_paths_and_binary_content() {
    let files = vec![
        file(&["save", "slot1", "data.sav"], &[0u8, 255, 1, 2, 3]),
        file(&["save", "slot2", "data.sav"], &[9u8; 4096]),
        file(&["readme.txt"], b"notes"),
    ];
    let extracted = archive_then_extract(&files);
    let got = entry_pairs(&extracted);
    let want = vec![
        ("readme.txt".to_string(), b"notes".to_vec()),
        ("save/slot1/data.sav".to_string(), vec![0u8, 255, 1, 2, 3]),
        ("save/slot2/data.sav".to_string(), vec![9u8; 4096]),
    ];
    assert_eq!(got, want);
}

#[test]
fn rel_path_name_joins_with_forward_slash() {
    assert_eq!(
        rel_path_name(&vec!["sub".to_string(), "b.txt".to_string()]),
        "sub/b.txt"
    );
    assert_eq!(rel_path_name(&vec!["a.txt".to_string()]), "a.txt");
    assert_eq!(rel_path_name(&Vec::new()), "");
}

#[test]
fn archive_is_readable_by_standard_decompressor() {
    let files = vec![file(&["x.txt"], b"content")];
    let entries = to_archive_entries(&files);
    let bytes = write_archive(&entries);
    assert!(bytes.len() >= 32);
    // A plain sevenz_rust reader, driven directly, must accept the container.
    let cursor = std::io::Cursor::new(bytes.as_slice());
    let mut rd =
        sevenz_rust::SevenZReader::new(cursor, bytes.len() as u64, sevenz_rust::Password::empty())
            .expect("valid 7z container");
    let mut names = Vec::new();
    rd.for_each_entries(|e, r| {
        let mut data = Vec::new();
        std::io::Read::read_to_end(r, &mut data)?;
        names.push((e.name.clone(), data));
        Ok(true)
    })
    .expect("decompress");
    assert_eq!(names, vec![("x.txt".to_string(), b"content".to_vec())]);
}
