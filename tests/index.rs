use anicargo::index::{needs_parse, scan_and_index, LibraryIndex, ScannedFile};
use anicargo::media::MediaEntry;

fn scanned(id: &str, name: &str, size: u64, modified_at: i64) -> ScannedFile {
    ScannedFile {
        entry: MediaEntry { id: id.to_string(), filename: name.to_string(), size, path: format!("/m/{}", name) },
        modified_at,
    }
}

#[test]
fn scan_reconciles_files_and_parses() {
    let mut index = LibraryIndex::new();
    let first = vec![
        scanned("a1", "[Grp] Show A - 01 [1080p].mkv", 10, 100),
        scanned("b2", "[Grp] Show B - 02 [720p].mp4", 20, 100),
    ];
    let s = scan_and_index(&mut index, &first, "1000");
    assert_eq!((s.scanned, s.upserted, s.parsed, s.skipped, s.removed), (2, 2, 2, 0, 0));
    assert_eq!(index.files.len(), 2);
    assert_eq!(index.parses.len(), 2);
    let second = vec![scanned("b2", "[Grp] Show B - 02 [720p].mp4", 20, 100)];
    let s = scan_and_index(&mut index, &second, "2000");
    assert_eq!((s.scanned, s.upserted, s.parsed, s.skipped, s.removed), (1, 1, 0, 1, 1));
    assert_eq!(index.files.len(), 1);
    assert_eq!(index.files[0].id, "b2");
    assert_eq!(index.files[0].last_seen_token, "2000");
    assert_eq!(index.parses.len(), 1);
    assert_eq!(index.parses[0].media_id, "b2");
    let third = vec![scanned("b2", "[Grp] Show B - 02 [720p].mp4", 21, 100)];
    let s = scan_and_index(&mut index, &third, "3000");
    assert_eq!((s.parsed, s.skipped), (1, 0));
}

#[test]
fn parse_needed_on_new_or_changed_files() {
    assert!(needs_parse(None, 1, 1));
    assert!(!needs_parse(Some((5, 9)), 5, 9));
    assert!(needs_parse(Some((5, 9)), 6, 9));
    assert!(needs_parse(Some((5, 9)), 5, 10));
}
