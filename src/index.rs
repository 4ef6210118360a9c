use vstd::prelude::*;
use crate::media::MediaEntry;
use crate::parse::{anitomy_parse, parse_filename, parsed_from, ParsedMedia};
use crate::text::{chars_of, chars_eq};

verus! {

/// Counts of one library scan.
#[derive(PartialEq, Eq, Structural, Clone, Copy, Debug)]
pub struct IndexSummary {
    pub scanned: usize,
    pub upserted: usize,
    pub parsed: usize,
    pub skipped: usize,
    pub removed: usize,
}

/// Counts of one auto-match run.
#[derive(PartialEq, Eq, Structural, Clone, Copy, Debug)]
pub struct AutoMatchSummary {
    pub scanned: usize,
    pub candidates: usize,
    pub matched: usize,
    pub skipped: usize,
}

/// The outcome of syncing one catalog subject.
#[derive(PartialEq, Eq, Structural, Clone, Copy, Debug)]
pub struct BangumiSyncSummary {
    pub subject_id: i64,
    pub episodes: usize,
}

/// Transfer figures reported by the torrent daemon.
#[derive(Debug, Clone)]
pub struct TransferInfo {
    pub download_speed_bytes: u64,
    pub upload_speed_bytes: u64,
    pub download_total_bytes: u64,
    pub upload_total_bytes: u64,
    pub download_rate_limit: i64,
    pub upload_rate_limit: i64,
    pub dht_nodes: i64,
    pub connection_status: String,
}

/// A file is parsed again when it has no row yet or its size or
/// modification time changed.
pub open spec fn parse_needed(stored: Option<(i64, i64)>, size: u64, modified_at: i64) -> bool {
    match stored {
        None => true,
        Some((s, m)) => s as int != size as int || m != modified_at,
    }
}

pub fn needs_parse(stored: Option<(i64, i64)>, size: u64, modified_at: i64) -> (r: bool)
    ensures
        r == parse_needed(stored, size, modified_at),
{
    match stored {
        None => true,
        Some((s, m)) => (s as i128) != (size as i128) || m != modified_at,
    }
}

/// A media file row of the index.
#[derive(Debug)]
pub struct FileRow {
    pub id: String,
    pub path: String,
    pub filename: String,
    pub size: u64,
    pub modified_at: i64,
    pub last_seen_token: String,
}

/// The stored parse of a media file.
#[derive(Debug)]
pub struct ParseRow {
    pub media_id: String,
    pub parsed: ParsedMedia,
}

/// A file found by a scan, with its modification time (Unix seconds).
#[derive(Debug)]
pub struct ScannedFile {
    pub entry: MediaEntry,
    pub modified_at: i64,
}

/// The library index: media files and their parses.
#[derive(Debug)]
pub struct LibraryIndex {
    pub files: Vec<FileRow>,
    pub parses: Vec<ParseRow>,
}

pub open spec fn file_ids(files: Seq<FileRow>) -> Seq<Seq<char>> {
    files.map_values(|f: FileRow| f.id@)
}

pub open spec fn scanned_ids(s: Seq<ScannedFile>) -> Seq<Seq<char>> {
    s.map_values(|f: ScannedFile| f.entry.id@)
}

pub open spec fn has_file(files: Seq<FileRow>, id: Seq<char>) -> bool {
    exists|j: int| 0 <= j < files.len() && (#[trigger] files[j]).id@ == id
}

pub open spec fn parse_ids(p: Seq<ParseRow>) -> Seq<Seq<char>> {
    p.map_values(|r: ParseRow| r.media_id@)
}

/// The parse stored for a media id, if any.
pub open spec fn parse_of(p: Seq<ParseRow>, id: Seq<char>) -> Option<ParseRow>
    decreases p.len(),
{
    if p.len() == 0 {
        None
    } else if p.last().media_id@ == id {
        Some(p.last())
    } else {
        parse_of(p.drop_last(), id)
    }
}

proof fn lemma_parse_of(p: Seq<ParseRow>, k: int)
    requires
        parse_ids(p).no_duplicates(),
        0 <= k < p.len(),
    ensures
        parse_of(p, p[k].media_id@) == Some(p[k]),
    decreases p.len(),
{
    if k != p.len() - 1 {
        assert(parse_ids(p)[k] != parse_ids(p)[p.len() - 1]);
        let t = p.drop_last();
        assert(parse_ids(t) =~= parse_ids(p).drop_last());
        assert(t[k] == p[k]);
        lemma_parse_of(t, k);
    }
}

proof fn lemma_parse_of_none(p: Seq<ParseRow>, id: Seq<char>)
    requires
        forall|k: int| 0 <= k < p.len() ==> (#[trigger] p[k]).media_id@ != id,
    ensures
        parse_of(p, id) is None,
    decreases p.len(),
{
    if p.len() > 0 {
        let t = p.drop_last();
        assert forall|k: int| 0 <= k < t.len() implies (#[trigger] t[k]).media_id@ != id by {
            assert(t[k] == p[k]);
        }
        lemma_parse_of_none(t, id);
    }
}

/// The file row stored under an id, if any.
pub open spec fn file_of(f: Seq<FileRow>, id: Seq<char>) -> Option<FileRow>
    decreases f.len(),
{
    if f.len() == 0 {
        None
    } else if f.last().id@ == id {
        Some(f.last())
    } else {
        file_of(f.drop_last(), id)
    }
}

proof fn lemma_file_of(f: Seq<FileRow>, k: int)
    requires
        file_ids(f).no_duplicates(),
        0 <= k < f.len(),
    ensures
        file_of(f, f[k].id@) == Some(f[k]),
    decreases f.len(),
{
    if k != f.len() - 1 {
        assert(file_ids(f)[k] != file_ids(f)[f.len() - 1]);
        let t = f.drop_last();
        assert(file_ids(t) =~= file_ids(f).drop_last());
        assert(t[k] == f[k]);
        lemma_file_of(t, k);
    }
}

proof fn lemma_file_of_none(f: Seq<FileRow>, id: Seq<char>)
    requires
        !has_file(f, id),
    ensures
        file_of(f, id) is None,
    decreases f.len(),
{
    if f.len() > 0 {
        let t = f.drop_last();
        assert(f[f.len() - 1].id@ != id);
        assert(!has_file(t, id)) by {
            if has_file(t, id) {
                let j = choose|j: int| 0 <= j < t.len() && (#[trigger] t[j]).id@ == id;
                assert(f[j] == t[j]);
            }
        }
        lemma_file_of_none(t, id);
    }
}

/// A scanned file needs parsing against `files`: it has no row, or its
/// row's size or modification time differs.
pub open spec fn needed_in(files: Seq<FileRow>, e: ScannedFile) -> bool {
    match file_of(files, e.entry.id@) {
        None => true,
        Some(row) => row.size != e.entry.size || row.modified_at != e.modified_at,
    }
}

/// A row holds what the scan found for a file.
pub open spec fn carries(row: FileRow, e: ScannedFile) -> bool {
    &&& row.id@ == e.entry.id@
    &&& row.path@ == e.entry.path@
    &&& row.filename@ == e.entry.filename@
    &&& row.size == e.entry.size
    &&& row.modified_at == e.modified_at
}

impl LibraryIndex {
    /// File ids are unique, each file has at most one parse, and every parse
    /// belongs to a stored file.
    pub open spec fn wf(&self) -> bool {
        &&& file_ids(self.files@).no_duplicates()
        &&& parse_ids(self.parses@).no_duplicates()
        &&& forall|k: int| 0 <= k < self.parses@.len() ==> has_file(self.files@, (#[trigger] self.parses@[k]).media_id@)
    }

    pub fn new() -> (r: Self)
        ensures
            r.wf(),
            r.files@.len() == 0,
    {
        LibraryIndex { files: Vec::new(), parses: Vec::new() }
    }
}

fn find_file(files: &Vec<FileRow>, id: &Vec<char>) -> (r: Option<usize>)
    ensures
        match r {
            Some(j) => j < files@.len() && files@[j as int].id@ == id@,
            None => !has_file(files@, id@),
        },
{
    let mut j: usize = 0;
    while j < files.len()
        invariant
            j <= files@.len(),
            forall|k: int| 0 <= k < j ==> (#[trigger] files@[k]).id@ != id@,
        decreases files.len() - j,
    {
        if chars_eq(&chars_of(files[j].id.as_str()), id) {
            return Some(j);
        }
        j = j + 1;
    }
    None
}

fn copy_string(s: &String) -> (r: String)
    ensures
        r == *s,
{
    s.clone()
}

/// `n` is `o` with the scanned file's row restamped, or appended when new.
pub open spec fn upserted(o: Seq<FileRow>, n: Seq<FileRow>, id: Seq<char>, token: Seq<char>) -> bool {
    &&& n.len() == o.len() || n.len() == o.len() + 1
    &&& forall|k: int| 0 <= k < o.len() ==> (#[trigger] n[k]).id@ == o[k].id@ && (n[k].id@ != id ==> n[k] == o[k])
    &&& forall|k: int| 0 <= k < n.len() && (#[trigger] n[k]).id@ == id ==> n[k].last_seen_token@ == token
    &&& n.len() == o.len() + 1 ==> n[o.len() as int].id@ == id
    &&& has_file(n, id)
}

fn upsert_file(files: &mut Vec<FileRow>, e: &ScannedFile, token: &str) -> (changed: bool)
    requires
        file_ids(old(files)@).no_duplicates(),
    ensures
        file_ids(final(files)@).no_duplicates(),
        upserted(old(files)@, final(files)@, e.entry.id@, token@),
        changed == needed_in(old(files)@, *e),
        forall|k: int| 0 <= k < final(files)@.len() && (#[trigger] final(files)@[k]).id@ == e.entry.id@ ==> carries(final(files)@[k], *e),
{
    let idc = chars_of(e.entry.id.as_str());
    let ghost before = files@;
    match find_file(files, &idc) {
        Some(j) => {
            let changed = files[j].size != e.entry.size || files[j].modified_at != e.modified_at;
            proof {
                lemma_file_of(before, j as int);
            }
            files[j].path = copy_string(&e.entry.path);
            files[j].filename = copy_string(&e.entry.filename);
            files[j].size = e.entry.size;
            files[j].modified_at = e.modified_at;
            files[j].last_seen_token = token.to_string();
            proof {
                assert(file_ids(files@) =~= file_ids(before));
                assert forall|k: int| 0 <= k < files@.len() && (#[trigger] files@[k]).id@ == idc@ implies files@[k].last_seen_token@ == token@ && carries(files@[k], *e) by {
                    if k != j {
                        assert(file_ids(before)[k] == file_ids(before)[j as int]);
                    }
                }
                assert(files@[j as int].id@ == idc@);
            }
            changed
        },
        None => {
            files.push(FileRow {
                id: copy_string(&e.entry.id),
                path: copy_string(&e.entry.path),
                filename: copy_string(&e.entry.filename),
                size: e.entry.size,
                modified_at: e.modified_at,
                last_seen_token: token.to_string(),
            });
            proof {
                let n = before.len() as int;
                assert(file_ids(files@) =~= file_ids(before).push(idc@));
                assert forall|a: int, b: int| 0 <= a < b < file_ids(files@).len() implies file_ids(files@)[a] != file_ids(files@)[b] by {
                    if b == n {
                        assert(files@[a] == before[a]);
                    } else {
                        assert(file_ids(before)[a] != file_ids(before)[b]);
                    }
                }
                assert forall|k: int| 0 <= k < files@.len() && (#[trigger] files@[k]).id@ == idc@ implies files@[k].last_seen_token@ == token@ && carries(files@[k], *e) by {
                    if k < n {
                        assert(files@[k] == before[k]);
                    }
                }
                assert(files@[n].id@ == idc@);
                lemma_file_of_none(before, idc@);
            }
            true
        },
    }
}

/// How many rows do not carry the token.
pub open spec fn count_unstamped(rows: Seq<FileRow>, token: Seq<char>) -> nat
    decreases rows.len(),
{
    if rows.len() == 0 {
        0
    } else {
        count_unstamped(rows.drop_last(), token) + if rows.last().last_seen_token@ != token { 1nat } else { 0nat }
    }
}

/// How many rows have an id that the scan did not find.
pub open spec fn count_unseen(rows: Seq<FileRow>, scanned: Seq<ScannedFile>) -> nat
    decreases rows.len(),
{
    if rows.len() == 0 {
        0
    } else {
        count_unseen(rows.drop_last(), scanned) + if !scanned_ids(scanned).contains(rows.last().id@) { 1nat } else { 0nat }
    }
}

proof fn lemma_count_removed(all: Seq<FileRow>, o: Seq<FileRow>, s: Seq<ScannedFile>, token: Seq<char>)
    requires
        all.len() >= o.len(),
        forall|k: int| 0 <= k < o.len() ==> ((#[trigger] all[k]).last_seen_token@ != token) == !scanned_ids(s).contains(o[k].id@),
        forall|k: int| o.len() <= k < all.len() ==> (#[trigger] all[k]).last_seen_token@ == token,
    ensures
        count_unstamped(all, token) == count_unseen(o, s),
    decreases all.len(),
{
    if all.len() > o.len() {
        let t = all.drop_last();
        assert forall|k: int| 0 <= k < o.len() implies ((#[trigger] t[k]).last_seen_token@ != token) == !scanned_ids(s).contains(o[k].id@) by {
            assert(t[k] == all[k]);
        }
        assert forall|k: int| o.len() <= k < t.len() implies (#[trigger] t[k]).last_seen_token@ == token by {
            assert(t[k] == all[k]);
        }
        assert(all[all.len() - 1].last_seen_token@ == token);
        lemma_count_removed(t, o, s, token);
    } else if all.len() > 0 {
        let t = all.drop_last();
        let u = o.drop_last();
        assert forall|k: int| 0 <= k < u.len() implies ((#[trigger] t[k]).last_seen_token@ != token) == !scanned_ids(s).contains(u[k].id@) by {
            assert(t[k] == all[k]);
            assert(u[k] == o[k]);
        }
        assert(all[all.len() - 1] == all.last());
        assert(o[o.len() - 1] == o.last());
        lemma_count_removed(t, u, s, token);
    }
}

/// How many scanned files need parsing against `files`.
pub open spec fn count_needed(files: Seq<FileRow>, scanned: Seq<ScannedFile>) -> nat
    decreases scanned.len(),
{
    if scanned.len() == 0 {
        0
    } else {
        count_needed(files, scanned.drop_last()) + if needed_in(files, scanned.last()) { 1nat } else { 0nat }
    }
}

pub open spec fn row_in(rows: Seq<FileRow>, row: FileRow) -> bool {
    exists|w: int| 0 <= w < rows.len() && rows[w] == row
}

/// The files stamped with `token`, in order, and how many others there were.
fn keep_stamped(all_files: Vec<FileRow>, token: &str) -> (r: (Vec<FileRow>, usize))
    requires
        file_ids(all_files@).no_duplicates(),
    ensures
        file_ids(r.0@).no_duplicates(),
        forall|q: int| 0 <= q < r.0@.len() ==> (#[trigger] r.0@[q]).last_seen_token@ == token@,
        forall|q: int| 0 <= q < r.0@.len() ==> row_in(all_files@, #[trigger] r.0@[q]),
        forall|w: int| 0 <= w < all_files@.len() && (#[trigger] all_files@[w]).last_seen_token@ == token@
            ==> has_file(r.0@, all_files@[w].id@),
        r.1 == count_unstamped(all_files@, token@),
{
    let tok = chars_of(token);
    let ghost all = all_files@;
    let mut src = all_files;
    let n = src.len();
    let mut kept: Vec<FileRow> = Vec::new();
    let ghost mut from: Seq<int> = Seq::empty();
    let mut removed: usize = 0;
    let mut k: usize = 0;
    while k < n
        invariant
            n == all.len(),
            src@.len() == n,
            k <= n,
            tok@ == token@,
            file_ids(all).no_duplicates(),
            forall|q: int| k <= q < n ==> src@[q] == all[q],
            from.len() == kept@.len(),
            forall|q: int| 0 <= q < kept@.len() ==> 0 <= #[trigger] from[q] < k && kept@[q] == all[from[q]],
            forall|a: int, b: int| 0 <= a < b < kept@.len() ==> #[trigger] from[a] < #[trigger] from[b],
            forall|q: int| 0 <= q < kept@.len() ==> (#[trigger] kept@[q]).last_seen_token@ == token@,
            forall|w: int| 0 <= w < k && (#[trigger] all[w]).last_seen_token@ == token@ ==> has_file(kept@, all[w].id@),
            removed == count_unstamped(all.subrange(0, k as int), token@),
            removed <= k,
        decreases n - k,
    {
        assert(all.subrange(0, k + 1).drop_last() =~= all.subrange(0, k as int));
        let mut row = FileRow {
            id: String::new(),
            path: String::new(),
            filename: String::new(),
            size: 0,
            modified_at: 0,
            last_seen_token: String::new(),
        };
        std::mem::swap(&mut row, &mut src[k]);
        assert(row == all[k as int]);
        if chars_eq(&chars_of(row.last_seen_token.as_str()), &tok) {
            let ghost kb = kept@;
            kept.push(row);
            proof {
                from = from.push(k as int);
                assert forall|w: int| 0 <= w < k + 1 && (#[trigger] all[w]).last_seen_token@ == token@ implies has_file(kept@, all[w].id@) by {
                    if w < k {
                        let j = choose|j: int| 0 <= j < kb.len() && (#[trigger] kb[j]).id@ == all[w].id@;
                        assert(kept@[j] == kb[j]);
                    } else {
                        assert(kept@[kb.len() as int] == all[w]);
                    }
                }
            }
        } else {
            removed = removed + 1;
        }
        k = k + 1;
    }
    proof {
        assert(all.subrange(0, n as int) =~= all);
        assert forall|a: int, b: int| 0 <= a < b < file_ids(kept@).len() implies file_ids(kept@)[a] != file_ids(kept@)[b] by {
            assert(file_ids(all)[from[a]] != file_ids(all)[from[b]]);
        }
        assert forall|q: int| 0 <= q < kept@.len() implies row_in(all, #[trigger] kept@[q]) by {
            let w = from[q];
            assert(0 <= w < all.len() && all[w] == kept@[q]);
        }
    }
    (kept, removed)
}

/// Rows stamped with the token belong to files among the first `i` scanned.
pub open spec fn stamped_seen(files: Seq<FileRow>, scanned: Seq<ScannedFile>, i: int, token: Seq<char>) -> bool {
    forall|k: int| 0 <= k < files.len() && (#[trigger] files[k]).last_seen_token@ == token
        ==> exists|q: int| 0 <= q < i && #[trigger] scanned[q].entry.id@ == files[k].id@
}

/// Rows of files among the first `i` scanned carry the token.
pub open spec fn seen_stamped(files: Seq<FileRow>, scanned: Seq<ScannedFile>, i: int, token: Seq<char>) -> bool {
    forall|k: int, q: int| 0 <= k < files.len() && 0 <= q < i && #[trigger] scanned[q].entry.id@ == (#[trigger] files[k]).id@
        ==> files[k].last_seen_token@ == token
}

fn parse_placeholder() -> ParsedMedia {
    ParsedMedia {
        parse_ok: false,
        title: None,
        episode: None,
        episode_alt: None,
        episode_title: None,
        season: None,
        year: None,
        release_group: None,
        resolution: None,
        source: None,
        audio_term: None,
        video_term: None,
        subtitles: None,
        language: None,
        raw_elements: Vec::new(),
    }
}

proof fn lemma_upsert_keeps(o: Seq<FileRow>, n: Seq<FileRow>, id: Seq<char>, token: Seq<char>, x: Seq<char>)
    requires
        upserted(o, n, id, token),
        has_file(o, x),
    ensures
        has_file(n, x),
{
    let j = choose|j: int| 0 <= j < o.len() && (#[trigger] o[j]).id@ == x;
    assert(n[j].id@ == o[j].id@);
}

fn store_parse(parses: &mut Vec<ParseRow>, id: &String, parsed: ParsedMedia)
    requires
        parse_ids(old(parses)@).no_duplicates(),
    ensures
        parse_ids(final(parses)@).no_duplicates(),
        parse_of(final(parses)@, id@) matches Some(row) && row.parsed == parsed,
        forall|x: Seq<char>| x != id@ ==> #[trigger] parse_of(final(parses)@, x) == parse_of(old(parses)@, x),
        forall|k: int| 0 <= k < final(parses)@.len() ==> (#[trigger] final(parses)@[k]).media_id@ == id@ || exists|w: int|
            0 <= w < old(parses)@.len() && old(parses)@[w] == final(parses)@[k],
{
    let idc = chars_of(id.as_str());
    let ghost pb = parses@;
    let ghost want = parsed;
    let mut p: usize = 0;
    while p < parses.len()
        invariant
            p <= parses@.len(),
            *parses == *old(parses),
            pb == parses@,
            parse_ids(pb).no_duplicates(),
            idc@ == id@,
            forall|k: int| 0 <= k < p ==> (#[trigger] parses@[k]).media_id@ != id@,
        decreases parses.len() - p,
    {
        if chars_eq(&chars_of(parses[p].media_id.as_str()), &idc) {
            assert(pb[p as int].media_id@ == id@);
            let row = ParseRow { media_id: copy_string(id), parsed };
            assert(row.media_id@ == id@);
            parses.set(p, row);
            proof {
                let n = parses@;
                assert(n[p as int].media_id@ == id@);
                assert(parse_ids(n) =~= parse_ids(pb));
                lemma_parse_of(n, p as int);
                assert forall|x: Seq<char>| x != id@ implies #[trigger] parse_of(n, x) == parse_of(pb, x) by {
                    if exists|k: int| 0 <= k < pb.len() && (#[trigger] pb[k]).media_id@ == x {
                        let k = choose|k: int| 0 <= k < pb.len() && (#[trigger] pb[k]).media_id@ == x;
                        assert(k != p);
                        assert(n[k] == pb[k]);
                        lemma_parse_of(n, k);
                        lemma_parse_of(pb, k);
                    } else {
                        assert forall|k: int| 0 <= k < n.len() implies (#[trigger] n[k]).media_id@ != x by {
                            if k != p { assert(n[k] == pb[k]); }
                        }
                        lemma_parse_of_none(n, x);
                        lemma_parse_of_none(pb, x);
                    }
                }
                assert forall|k: int| 0 <= k < n.len() implies (#[trigger] n[k]).media_id@ == id@ || exists|w: int|
                    0 <= w < pb.len() && pb[w] == n[k] by {
                    if k != p { assert(n[k] == pb[k]); }
                }
            }
            return;
        }
        p = p + 1;
    }
    parses.push(ParseRow { media_id: copy_string(id), parsed });
    proof {
        let n = parses@;
        assert(parse_ids(n) =~= parse_ids(pb).push(id@));
        assert forall|a: int, b: int| 0 <= a < b < parse_ids(n).len() implies parse_ids(n)[a] != parse_ids(n)[b] by {
            if b == pb.len() {
                assert(n[a] == pb[a]);
            } else {
                assert(parse_ids(pb)[a] != parse_ids(pb)[b]);
            }
        }
        assert(n.drop_last() =~= pb);
        assert forall|k: int| 0 <= k < n.len() implies (#[trigger] n[k]).media_id@ == id@ || exists|w: int|
            0 <= w < pb.len() && pb[w] == n[k] by {
            if k < pb.len() { assert(n[k] == pb[k]); }
        }
    }
}

/// Keeps the parses whose file is still indexed, in order.
fn drop_orphan_parses(parses: Vec<ParseRow>, files: &Vec<FileRow>) -> (r: Vec<ParseRow>)
    requires
        parse_ids(parses@).no_duplicates(),
    ensures
        parse_ids(r@).no_duplicates(),
        forall|q: int| 0 <= q < r@.len() ==> has_file(files@, (#[trigger] r@[q]).media_id@),
        forall|x: Seq<char>| has_file(files@, x) ==> #[trigger] parse_of(r@, x) == parse_of(parses@, x),
{
    let ghost all = parses@;
    let mut src = parses;
    let n = src.len();
    let mut kept: Vec<ParseRow> = Vec::new();
    let ghost mut from: Seq<int> = Seq::empty();
    let mut m: usize = 0;
    while m < n
        invariant
            n == all.len(),
            src@.len() == n,
            m <= n,
            parse_ids(all).no_duplicates(),
            forall|q: int| m <= q < n ==> src@[q] == all[q],
            from.len() == kept@.len(),
            forall|q: int| 0 <= q < kept@.len() ==> 0 <= #[trigger] from[q] < m && kept@[q] == all[from[q]],
            forall|a: int, b: int| 0 <= a < b < kept@.len() ==> #[trigger] from[a] < #[trigger] from[b],
            forall|q: int| 0 <= q < kept@.len() ==> has_file(files@, (#[trigger] kept@[q]).media_id@),
            forall|w: int| 0 <= w < m && has_file(files@, (#[trigger] all[w]).media_id@) ==> exists|q: int|
                0 <= q < kept@.len() && kept@[q] == all[w],
        decreases n - m,
    {
        let mut row = ParseRow { media_id: String::new(), parsed: parse_placeholder() };
        std::mem::swap(&mut row, &mut src[m]);
        assert(row == all[m as int]);
        let idc = chars_of(row.media_id.as_str());
        match find_file(files, &idc) {
            Some(_) => {
                let ghost kb = kept@;
                kept.push(row);
                proof {
                    from = from.push(m as int);
                    assert forall|w: int| 0 <= w < m + 1 && has_file(files@, (#[trigger] all[w]).media_id@) implies exists|q: int|
                        0 <= q < kept@.len() && kept@[q] == all[w] by {
                        if w < m {
                            let q = choose|q: int| 0 <= q < kb.len() && kb[q] == all[w];
                            assert(kept@[q] == all[w]);
                        } else {
                            assert(kept@[kb.len() as int] == all[w]);
                        }
                    }
                }
            },
            None => {},
        }
        m = m + 1;
    }
    proof {
        assert forall|a: int, b: int| 0 <= a < b < parse_ids(kept@).len() implies parse_ids(kept@)[a] != parse_ids(kept@)[b] by {
            assert(parse_ids(all)[from[a]] != parse_ids(all)[from[b]]);
        }
        assert forall|x: Seq<char>| has_file(files@, x) implies #[trigger] parse_of(kept@, x) == parse_of(all, x) by {
            if exists|w: int| 0 <= w < all.len() && (#[trigger] all[w]).media_id@ == x {
                let w = choose|w: int| 0 <= w < all.len() && (#[trigger] all[w]).media_id@ == x;
                let q = choose|q: int| 0 <= q < kept@.len() && kept@[q] == all[w];
                lemma_parse_of(all, w);
                lemma_parse_of(kept@, q);
            } else {
                assert forall|q: int| 0 <= q < kept@.len() implies (#[trigger] kept@[q]).media_id@ != x by {
                    assert(kept@[q] == all[from[q]]);
                }
                lemma_parse_of_none(kept@, x);
                lemma_parse_of_none(all, x);
            }
        }
    }
    kept
}

/// Reconciles the index with a scan under a fresh `token`: each scanned file
/// is upserted and stamped with the token, parsed again when new or changed,
/// and every file the scan did not see is removed with its parse.
pub fn scan_and_index(index: &mut LibraryIndex, scanned: &Vec<ScannedFile>, token: &str) -> (r: IndexSummary)
    requires
        old(index).wf(),
        forall|k: int| 0 <= k < old(index).files@.len() ==> (#[trigger] old(index).files@[k]).last_seen_token@ != token@,
        forall|i: int| 0 <= i < scanned@.len() ==> !(#[trigger] scanned@[i]).entry.filename@.contains('\0'),
    ensures
        final(index).wf(),
        forall|k: int| 0 <= k < final(index).files@.len() ==> (#[trigger] final(index).files@[k]).last_seen_token@ == token@,
        file_ids(final(index).files@).to_set() == scanned_ids(scanned@).to_set(),
        r.scanned == scanned@.len() && r.upserted == scanned@.len(),
        r.parsed + r.skipped == scanned@.len(),
        r.removed == count_unseen(old(index).files@, scanned@),
        scanned_ids(scanned@).no_duplicates() ==> r.parsed == count_needed(old(index).files@, scanned@),
{
    let ghost of = index.files@;
    let ghost nd = scanned_ids(scanned@).no_duplicates();
    assert(scanned@.subrange(0, 0) =~= Seq::<ScannedFile>::empty());
    let mut summary = IndexSummary { scanned: scanned.len(), upserted: 0, parsed: 0, skipped: 0, removed: 0 };
    let mut i: usize = 0;
    while i < scanned.len()
        invariant
            i <= scanned@.len(),
            index.wf(),
            summary.scanned == scanned@.len(),
            summary.upserted == i,
            summary.parsed + summary.skipped == i,
            forall|k: int| 0 <= k < i ==> has_file(index.files@, (#[trigger] scanned@[k]).entry.id@),
            stamped_seen(index.files@, scanned@, i as int, token@),
            seen_stamped(index.files@, scanned@, i as int, token@),
            forall|k: int| 0 <= k < scanned@.len() ==> !(#[trigger] scanned@[k]).entry.filename@.contains('\0'),
            forall|k: int| 0 <= k < of.len() ==> (#[trigger] of[k]).last_seen_token@ != token@,
            index.files@.len() >= of.len(),
            forall|k: int| 0 <= k < of.len() ==> (#[trigger] index.files@[k]).id@ == of[k].id@,
            forall|k: int| 0 <= k < of.len() && index.files@[k].last_seen_token@ != token@ ==> #[trigger] index.files@[k] == of[k],
            forall|k: int| of.len() <= k < index.files@.len() ==> (#[trigger] index.files@[k]).last_seen_token@ == token@,
            file_ids(of).no_duplicates(),
            nd == scanned_ids(scanned@).no_duplicates(),
            nd ==> summary.parsed == count_needed(of, scanned@.subrange(0, i as int)),
        decreases scanned.len() - i,
    {
        let e = &scanned[i];
        let ghost before = index.files@;
        let ghost pb = index.parses@;
        proof {
            let id = e.entry.id@;
            assert(scanned@.subrange(0, i + 1).drop_last() =~= scanned@.subrange(0, i as int));
            assert(scanned@.subrange(0, i + 1).last() == *e);
            if nd {
                if has_file(of, id) {
                    let k = choose|k: int| 0 <= k < of.len() && (#[trigger] of[k]).id@ == id;
                    if before[k].last_seen_token@ == token@ {
                        let q = choose|q: int| 0 <= q < i && #[trigger] scanned@[q].entry.id@ == before[k].id@;
                        assert(scanned_ids(scanned@)[q] == scanned_ids(scanned@)[i as int]);
                    }
                    assert(before[k] == of[k]);
                    lemma_file_of(before, k);
                    lemma_file_of(of, k);
                } else {
                    assert(!has_file(before, id)) by {
                        if has_file(before, id) {
                            let k = choose|k: int| 0 <= k < before.len() && (#[trigger] before[k]).id@ == id;
                            if k < of.len() {
                                assert(before[k].id@ == of[k].id@);
                            } else {
                                assert(before[k].last_seen_token@ == token@);
                                let q = choose|q: int| 0 <= q < i && #[trigger] scanned@[q].entry.id@ == before[k].id@;
                                assert(scanned_ids(scanned@)[q] == scanned_ids(scanned@)[i as int]);
                            }
                        }
                    }
                    lemma_file_of_none(before, id);
                    lemma_file_of_none(of, id);
                }
                assert(needed_in(before, *e) == needed_in(of, *e));
            }
        }
        let changed = upsert_file(&mut index.files, e, token);
        proof {
            let after = index.files@;
            let id = e.entry.id@;
            assert forall|k: int| 0 <= k <= i implies has_file(after, (#[trigger] scanned@[k]).entry.id@) by {
                if k < i {
                    lemma_upsert_keeps(before, after, id, token@, scanned@[k].entry.id@);
                }
            }
            assert forall|k: int| 0 <= k < pb.len() implies has_file(after, (#[trigger] pb[k]).media_id@) by {
                lemma_upsert_keeps(before, after, id, token@, pb[k].media_id@);
            }
            assert forall|k: int| 0 <= k < after.len() && (#[trigger] after[k]).last_seen_token@ == token@
                implies exists|q: int| 0 <= q < i + 1 && #[trigger] scanned@[q].entry.id@ == after[k].id@ by {
                if after[k].id@ == id {
                    assert(scanned@[i as int].entry.id@ == after[k].id@);
                } else {
                    assert(after[k] == before[k]);
                }
            }
            assert forall|k: int, q: int| 0 <= k < after.len() && 0 <= q < i + 1 && #[trigger] scanned@[q].entry.id@ == (#[trigger] after[k]).id@
                implies after[k].last_seen_token@ == token@ by {
                if after[k].id@ != id {
                    assert(after[k] == before[k]);
                }
            }
            assert forall|k: int| 0 <= k < of.len() && after[k].last_seen_token@ != token@ implies #[trigger] after[k] == of[k] by {
                assert(after[k].id@ != id);
                assert(after[k] == before[k]);
            }
            assert forall|k: int| of.len() <= k < after.len() implies (#[trigger] after[k]).last_seen_token@ == token@ by {
                if after[k].id@ != id && k < before.len() {
                    assert(after[k] == before[k]);
                }
            }
        }
        if changed {
            let parsed = parse_filename(e.entry.filename.as_str());
            store_parse(&mut index.parses, &e.entry.id, parsed);
            proof {
                assert forall|k: int| 0 <= k < index.parses@.len() implies has_file(index.files@, (#[trigger] index.parses@[k]).media_id@) by {
                    if index.parses@[k].media_id@ != e.entry.id@ {
                        let w = choose|w: int| 0 <= w < pb.len() && pb[w] == index.parses@[k];
                        assert(has_file(index.files@, pb[w].media_id@));
                    }
                }
            }
            summary.parsed = summary.parsed + 1;
        } else {
            summary.skipped = summary.skipped + 1;
        }
        summary.upserted = summary.upserted + 1;
        i = i + 1;
    }
    assert(scanned@.subrange(0, i as int) =~= scanned@);
    let ghost all = index.files@;
    let mut src: Vec<FileRow> = Vec::new();
    std::mem::swap(&mut src, &mut index.files);
    let (kept, removed) = keep_stamped(src, token);
    index.files = kept;
    summary.removed = removed;
    proof {
        assert forall|k: int| 0 <= k < of.len() implies ((#[trigger] all[k]).last_seen_token@ != token@) == !scanned_ids(scanned@).contains(of[k].id@) by {
            if scanned_ids(scanned@).contains(of[k].id@) {
                let q = choose|q: int| 0 <= q < scanned_ids(scanned@).len() && scanned_ids(scanned@)[q] == of[k].id@;
                assert(scanned@[q].entry.id@ == all[k].id@);
            } else if all[k].last_seen_token@ == token@ {
                let q = choose|q: int| 0 <= q < i && #[trigger] scanned@[q].entry.id@ == all[k].id@;
                assert(scanned_ids(scanned@)[q] == of[k].id@);
            }
        }
        lemma_count_removed(all, of, scanned@, token@);
        let f = index.files@;
        assert forall|id: Seq<char>| #[trigger] file_ids(f).to_set().contains(id) == scanned_ids(scanned@).to_set().contains(id) by {
            if file_ids(f).to_set().contains(id) {
                let q = choose|q: int| 0 <= q < file_ids(f).len() && file_ids(f)[q] == id;
                assert(row_in(all, f[q]));
                let w = choose|w: int| 0 <= w < all.len() && all[w] == f[q];
                assert(all[w].last_seen_token@ == token@);
                let z = choose|z: int| 0 <= z < i && #[trigger] scanned@[z].entry.id@ == all[w].id@;
                assert(scanned_ids(scanned@)[z] == id);
            }
            if scanned_ids(scanned@).to_set().contains(id) {
                let z = choose|z: int| 0 <= z < scanned_ids(scanned@).len() && scanned_ids(scanned@)[z] == id;
                assert(has_file(all, scanned@[z].entry.id@));
                let w = choose|w: int| 0 <= w < all.len() && (#[trigger] all[w]).id@ == scanned@[z].entry.id@;
                assert(all[w].last_seen_token@ == token@);
                assert(has_file(f, all[w].id@));
                let q = choose|q: int| 0 <= q < f.len() && (#[trigger] f[q]).id@ == all[w].id@;
                assert(file_ids(f)[q] == id);
            }
        }
        assert(file_ids(f).to_set() =~= scanned_ids(scanned@).to_set());
    }
    let mut ps: Vec<ParseRow> = Vec::new();
    std::mem::swap(&mut ps, &mut index.parses);
    index.parses = drop_orphan_parses(ps, &index.files);
    summary
}

/// After a scan the index holds one row per distinct file found: with
/// distinct ids on the scanned side, exactly as many rows as files.
pub proof fn lemma_scan_count(files: Seq<FileRow>, scanned: Seq<ScannedFile>)
    requires
        file_ids(files).no_duplicates(),
        scanned_ids(scanned).no_duplicates(),
        file_ids(files).to_set() == scanned_ids(scanned).to_set(),
    ensures
        files.len() == scanned.len(),
{
    file_ids(files).unique_seq_to_set();
    scanned_ids(scanned).unique_seq_to_set();
}

} // verus!
