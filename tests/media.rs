use anicargo::media::{find_entry_by_id, is_media_extension, media_id_from_path, select_media_entries, DirItem, MediaEntry, MediaError};
use anicargo::paths::{file_extension, join_path};

fn item(name: &str, is_file: bool) -> DirItem {
    DirItem { path: format!("/m/{}", name), file_name: name.to_string(), is_file, size: name.len() as u64 }
}

#[test]
fn media_ids_are_sixteen_hex_digits() {
    let a = media_id_from_path("/m/a.mkv");
    assert_eq!(a.len(), 16);
    assert!(a.chars().all(|c| c.is_ascii_hexdigit() && !c.is_ascii_uppercase()));
    assert_eq!(a, media_id_from_path("/m/a.mkv"));
    assert_ne!(a, media_id_from_path("/m/b.mkv"));
}

#[test]
fn scan_keeps_media_files_sorted_by_name() {
    let items = vec![
        item("b.mp4", true),
        item("A.MKV", true),
        item("notes.txt", true),
        item("dir.mkv", false),
        item(".mkv", true),
        item("a.mkv", true),
    ];
    let entries = select_media_entries(&items);
    let names: Vec<&str> = entries.iter().map(|e| e.filename.as_str()).collect();
    assert_eq!(names, vec!["A.MKV", "a.mkv", "b.mp4"]);
    assert_eq!(entries[2].path, "/m/b.mp4");
    assert_eq!(entries[2].size, 5);
    assert_eq!(entries[0].id, media_id_from_path("/m/A.MKV"));
}

#[test]
fn extensions_and_joins() {
    assert!(is_media_extension("mp4"));
    assert!(is_media_extension("mkv"));
    assert!(!is_media_extension("MKV"));
    assert_eq!(file_extension("x.tar.gz"), Some(vec!['g', 'z']));
    assert_eq!(file_extension(".bashrc"), None);
    assert_eq!(file_extension("noext"), None);
    assert_eq!(join_path("/a", "b"), "/a/b");
    assert_eq!(join_path("/a/", "b"), "/a/b");
    assert_eq!(join_path("/a", "/b"), "/b");
    assert_eq!(join_path("", "b"), "b");
}

#[test]
fn find_entry_by_id_reports_missing() {
    let entries = vec![MediaEntry { id: "x1".to_string(), filename: "a".to_string(), size: 1, path: "/a".to_string() }];
    assert_eq!(find_entry_by_id(&entries, "x1").unwrap().path, "/a");
    match find_entry_by_id(&entries, "zz") {
        Err(MediaError::NotFound(m)) => assert_eq!(m, "media id zz"),
        other => panic!("unexpected {:?}", other),
    }
}
