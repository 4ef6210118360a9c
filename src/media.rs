use vstd::prelude::*;
use std::hash::{Hash, Hasher};
use crate::text::{chars_of, string_of, chars_eq};
use crate::paths::{join, join_path, extension, file_extension};

verus! {

/// Where media is read from and HLS output written, and how the transcoder runs.
#[derive(Debug, Clone)]
pub struct MediaConfig {
    pub media_dir: String,
    pub cache_dir: String,
    pub ffmpeg_path: String,
    pub hls_segment_secs: u32,
    pub hls_playlist_len: u32,
    pub transcode: bool,
}

impl MediaConfig {
    /// A configuration with the default transcoder settings: `ffmpeg`,
    /// six-second segments, an unbounded playlist, stream copy.
    pub fn new(media_dir: String, cache_dir: String) -> (r: Self)
        ensures
            r.media_dir == media_dir,
            r.cache_dir == cache_dir,
            r.ffmpeg_path@ == "ffmpeg"@,
            r.hls_segment_secs == 6,
            r.hls_playlist_len == 0,
            !r.transcode,
    {
        MediaConfig {
            media_dir,
            cache_dir,
            ffmpeg_path: "ffmpeg".to_string(),
            hls_segment_secs: 6,
            hls_playlist_len: 0,
            transcode: false,
        }
    }

    /// The directory under which each media item gets its HLS output.
    pub fn hls_root(&self) -> (r: String)
        ensures
            r@ == join(self.cache_dir@, "hls"@),
    {
        join_path(self.cache_dir.as_str(), "hls")
    }
}

/// Failures of the media layer. I/O failures carry the error's text.
#[derive(Debug, Clone)]
pub enum MediaError {
    Io(String),
    MissingMediaDir,
    InvalidMediaDir(String),
    InvalidConfig(String),
    NotFound(String),
}

/// A video file of the library. `id` is the hash of its path.
#[derive(Debug, Clone)]
pub struct MediaEntry {
    pub id: String,
    pub filename: String,
    pub size: u64,
    pub path: String,
}

/// Where the HLS output of one media item lives.
#[derive(Debug, Clone)]
pub struct HlsSession {
    pub id: String,
    pub output_dir: String,
    pub playlist_path: String,
}

/// A directory item as listed from disk.
#[derive(Debug, Clone)]
pub struct DirItem {
    pub path: String,
    pub file_name: String,
    pub is_file: bool,
    pub size: u64,
}

/// What `str::to_lowercase` returns for a string.
pub uninterp spec fn str_lower(s: Seq<char>) -> Seq<char>;

/// Relies on `str::to_lowercase`: the lowercase form of the whole string.
#[verifier::external_body]
pub(crate) fn lower_chars(s: &Vec<char>) -> (r: Vec<char>)
    ensures
        r@ == str_lower(s@),
{
    let t: String = s.iter().collect();
    t.to_lowercase().chars().collect()
}

/// The extensions served as media.
pub open spec fn media_extension(ext: Seq<char>) -> bool {
    ext == "mp4"@ || ext == "mkv"@
}

pub fn is_media_extension(ext: &str) -> (r: bool)
    ensures
        r == media_extension(ext@),
{
    let e = chars_of(ext);
    let mp4 = chars_of("mp4");
    let mkv = chars_of("mkv");
    chars_eq(&e, &mp4) || chars_eq(&e, &mkv)
}

/// A listed item is served when it is a regular file whose extension,
/// lowercased, is a media extension.
pub open spec fn eligible(item: DirItem) -> bool {
    item.is_file && extension(item.file_name@) is Some && media_extension(
        str_lower(extension(item.file_name@)->0),
    )
}

fn item_eligible(item: &DirItem) -> (r: bool)
    ensures
        r == eligible(*item),
{
    if !item.is_file {
        return false;
    }
    match file_extension(item.file_name.as_str()) {
        None => false,
        Some(ext) => {
            let low = lower_chars(&ext);
            let mp4 = chars_of("mp4");
            let mkv = chars_of("mkv");
            chars_eq(&low, &mp4) || chars_eq(&low, &mkv)
        },
    }
}

/// What `DefaultHasher` yields for a string hashed on its own.
pub uninterp spec fn path_hash(s: Seq<char>) -> u64;

/// Relies on `std::hash::DefaultHasher::new`, whose instances all hash alike,
/// applied to the path string.
#[verifier::external_body]
fn hash_path(path: &str) -> (r: u64)
    ensures
        r == path_hash(path@),
{
    let mut hasher = std::collections::hash_map::DefaultHasher::new();
    path.hash(&mut hasher);
    hasher.finish()
}

pub open spec fn hex_digit(d: nat) -> char {
    if d < 10 { ((d + 48) as u8) as char } else { ((d + 87) as u8) as char }
}

/// The `n` lowest hex digits of `v`, most significant first, zero padded.
pub open spec fn hex(v: nat, n: nat) -> Seq<char>
    decreases n,
{
    if n == 0 {
        Seq::empty()
    } else {
        hex(v / 16, (n - 1) as nat).push(hex_digit(v % 16))
    }
}

fn hex_chars(v: u64, n: u32) -> (r: Vec<char>)
    ensures
        r@ == hex(v as nat, n as nat),
    decreases n,
{
    if n == 0 {
        Vec::new()
    } else {
        let mut out = hex_chars(v / 16, n - 1);
        let d = (v % 16) as u8;
        let c = if d < 10 { (d + 48) as char } else { (d + 87) as char };
        out.push(c);
        out
    }
}

/// The id of a media file: its path's hash as sixteen lowercase hex digits.
pub fn media_id_from_path(path: &str) -> (r: String)
    ensures
        r@ == hex(path_hash(path@) as nat, 16),
{
    let h = hash_path(path);
    string_of(&hex_chars(h, 16))
}

/// `a` sorts strictly before `b`, comparing characters in order.
pub open spec fn lex_lt(a: Seq<char>, b: Seq<char>) -> bool
    decreases a.len(),
{
    if a.len() == 0 {
        b.len() > 0
    } else if b.len() == 0 {
        false
    } else if a[0] != b[0] {
        a[0] < b[0]
    } else {
        lex_lt(a.drop_first(), b.drop_first())
    }
}

pub open spec fn lex_le(a: Seq<char>, b: Seq<char>) -> bool {
    !lex_lt(b, a)
}

proof fn lemma_lex_total(a: Seq<char>, b: Seq<char>)
    ensures
        lex_lt(a, b) ==> !lex_lt(b, a),
        !lex_lt(a, b) && !lex_lt(b, a) ==> a == b,
    decreases a.len(),
{
    if a.len() > 0 && b.len() > 0 && a[0] == b[0] {
        lemma_lex_total(a.drop_first(), b.drop_first());
        if a.drop_first() == b.drop_first() {
            assert(a =~= seq![a[0]] + a.drop_first());
            assert(b =~= seq![b[0]] + b.drop_first());
        }
    } else if a.len() == 0 && b.len() == 0 {
        assert(a =~= b);
    } else if a.len() > 0 && b.len() > 0 {
    }
}

proof fn lemma_lex_trans(a: Seq<char>, b: Seq<char>, c: Seq<char>)
    requires
        lex_le(a, b),
        lex_le(b, c),
    ensures
        lex_le(a, c),
    decreases a.len(),
{
    lemma_lex_total(a, b);
    lemma_lex_total(b, c);
    lemma_lex_total(a, c);
    if a.len() > 0 && b.len() > 0 && c.len() > 0 && a[0] == b[0] && b[0] == c[0] {
        lemma_lex_trans(a.drop_first(), b.drop_first(), c.drop_first());
    }
}

fn chars_lt(a: &Vec<char>, b: &Vec<char>) -> (r: bool)
    ensures
        r == lex_lt(a@, b@),
{
    let mut i: usize = 0;
    assert(a@.subrange(0, a@.len() as int) =~= a@);
    assert(b@.subrange(0, b@.len() as int) =~= b@);
    while i < a.len() && i < b.len() && a[i] == b[i]
        invariant
            i <= a@.len(),
            i <= b@.len(),
            lex_lt(a@, b@) == lex_lt(a@.subrange(i as int, a@.len() as int), b@.subrange(i as int, b@.len() as int)),
        decreases a.len() - i,
    {
        let ghost sa = a@.subrange(i as int, a@.len() as int);
        let ghost sb = b@.subrange(i as int, b@.len() as int);
        assert(sa.drop_first() =~= a@.subrange(i + 1, a@.len() as int));
        assert(sb.drop_first() =~= b@.subrange(i + 1, b@.len() as int));
        i = i + 1;
    }
    if i == a.len() {
        i < b.len()
    } else if i == b.len() {
        false
    } else {
        a[i] < b[i]
    }
}

/// The eligible items of a listing, in listing order.
pub open spec fn eligible_items(s: Seq<DirItem>) -> Seq<DirItem>
    decreases s.len(),
{
    if s.len() == 0 {
        s
    } else {
        let k = eligible_items(s.drop_last());
        if eligible(s.last()) {
            k.push(s.last())
        } else {
            k
        }
    }
}

/// Picks the media files out of a directory listing, sorted by file name.
pub fn select_media_entries(items: &Vec<DirItem>) -> (r: Vec<MediaEntry>)
    ensures
        ({
            let picked = eligible_items(items@);
            &&& r@.len() == picked.len()
            &&& exists|perm: Seq<int>| {
                &&& perm.len() == picked.len()
                &&& (forall|a: int, b: int| 0 <= a < b < perm.len() ==> perm[a] != perm[b])
                &&& forall|k: int| 0 <= k < perm.len() ==> {
                    &&& 0 <= #[trigger] perm[k] < picked.len()
                    &&& r@[k].filename@ == picked[perm[k]].file_name@
                    &&& r@[k].path@ == picked[perm[k]].path@
                    &&& r@[k].size == picked[perm[k]].size
                    &&& r@[k].id@ == hex(path_hash(picked[perm[k]].path@) as nat, 16)
                }
            }
        }),
        forall|a: int, b: int| 0 <= a < b < r@.len() ==> lex_le(r@[a].filename@, r@[b].filename@),
{
    let mut picked: Vec<&DirItem> = Vec::new();
    let mut i: usize = 0;
    while i < items.len()
        invariant
            i <= items@.len(),
            picked@.len() == eligible_items(items@.subrange(0, i as int)).len(),
            forall|k: int| 0 <= k < picked@.len() ==> *(#[trigger] picked@[k]) == eligible_items(items@.subrange(0, i as int))[k],
        decreases items.len() - i,
    {
        let it = &items[i];
        let ghost pre = items@.subrange(0, i as int);
        proof {
            let nxt = items@.subrange(0, i + 1);
            assert(nxt.drop_last() =~= pre);
            assert(nxt.last() == items@[i as int]);
            assert(eligible_items(nxt) == if eligible(items@[i as int]) {
                eligible_items(pre).push(items@[i as int])
            } else {
                eligible_items(pre)
            });
        }
        if item_eligible(it) {
            picked.push(it);
        }
        i = i + 1;
    }
    assert(items@.subrange(0, i as int) =~= items@);
    let ghost fl = eligible_items(items@);
    // insertion sort of the picked items' indices by file name
    let mut names: Vec<Vec<char>> = Vec::new();
    let mut j: usize = 0;
    while j < picked.len()
        invariant
            j <= picked@.len(),
            names@.len() == j,
            forall|k: int| 0 <= k < j ==> (#[trigger] names@[k])@ == picked@[k].file_name@,
        decreases picked.len() - j,
    {
        names.push(chars_of(picked[j].file_name.as_str()));
        j = j + 1;
    }
    let mut order: Vec<usize> = Vec::new();
    let mut k: usize = 0;
    while k < picked.len()
        invariant
            k <= picked@.len(),
            names@.len() == picked@.len(),
            forall|q: int| 0 <= q < names@.len() ==> (#[trigger] names@[q])@ == picked@[q].file_name@,
            order@.len() == k,
            forall|a: int| 0 <= a < order@.len() ==> (#[trigger] order@[a]) < k,
            forall|a: int, b: int| 0 <= a < b < order@.len() ==> order@[a] != order@[b],
            forall|a: int, b: int| 0 <= a < b < order@.len() ==> lex_le(names@[order@[a] as int]@, names@[order@[b] as int]@),
        decreases picked.len() - k,
    {
        let mut p: usize = order.len();
        while p > 0 && chars_lt(&names[k], &names[order[p - 1]])
            invariant
                p <= order@.len(),
                k < names@.len(),
                forall|a: int| 0 <= a < order@.len() ==> (#[trigger] order@[a]) < k,
                forall|q: int| p <= q < order@.len() ==> lex_lt(names@[k as int]@, names@[order@[q] as int]@),
            decreases p,
        {
            p = p - 1;
        }
        let ghost before = order@;
        proof {
            if p > 0 {
                lemma_lex_total(names@[k as int]@, names@[before[p - 1] as int]@);
            }
            assert forall|a: int| 0 <= a < p implies lex_le(names@[(#[trigger] before[a]) as int]@, names@[k as int]@) by {
                if a < p - 1 {
                    lemma_lex_trans(names@[before[a] as int]@, names@[before[p - 1] as int]@, names@[k as int]@);
                }
            }
            assert forall|q: int| p <= q < before.len() implies lex_le(names@[k as int]@, names@[(#[trigger] before[q]) as int]@) by {
                lemma_lex_total(names@[k as int]@, names@[before[q] as int]@);
            }
        }
        order.insert(p, k);
        proof {
            assert forall|a: int, b: int| 0 <= a < b < order@.len() implies lex_le(names@[order@[a] as int]@, names@[order@[b] as int]@) by {
                if a < p && b > p {
                    lemma_lex_trans(names@[order@[a] as int]@, names@[k as int]@, names@[order@[b] as int]@);
                } else if a < p && b < p {
                    assert(order@[a] == before[a] && order@[b] == before[b]);
                } else if a > p {
                    assert(order@[a] == before[a - 1] && order@[b] == before[b - 1]);
                } else if a == p {
                    assert(order@[b] == before[b - 1]);
                } else {
                    assert(order@[a] == before[a]);
                }
            }
        }
        k = k + 1;
    }
    let mut out: Vec<MediaEntry> = Vec::new();
    let mut m: usize = 0;
    while m < order.len()
        invariant
            m <= order@.len(),
            order@.len() == picked@.len(),
            names@.len() == picked@.len(),
            forall|q: int| 0 <= q < names@.len() ==> (#[trigger] names@[q])@ == picked@[q].file_name@,
            forall|a: int| 0 <= a < order@.len() ==> (#[trigger] order@[a]) < picked@.len(),
            out@.len() == m,
            forall|q: int| 0 <= q < m ==> {
                let it = *picked@[order@[q] as int];
                &&& (#[trigger] out@[q]).filename@ == it.file_name@
                &&& out@[q].path@ == it.path@
                &&& out@[q].size == it.size
                &&& out@[q].id@ == hex(path_hash(it.path@) as nat, 16)
            },
        decreases order.len() - m,
    {
        let it = picked[order[m]];
        out.push(MediaEntry {
            id: media_id_from_path(it.path.as_str()),
            filename: it.file_name.clone(),
            size: it.size,
            path: it.path.clone(),
        });
        m = m + 1;
    }
    proof {
        let perm = order@.map_values(|x: usize| x as int);
        assert(perm.len() == fl.len());
        assert forall|a: int, b: int| 0 <= a < b < out@.len() implies lex_le(out@[a].filename@, out@[b].filename@) by {
            assert(out@[a].filename@ == names@[order@[a] as int]@);
            assert(out@[b].filename@ == names@[order@[b] as int]@);
        }
        assert forall|k: int| 0 <= k < perm.len() implies {
            &&& 0 <= #[trigger] perm[k] < fl.len()
            &&& out@[k].filename@ == fl[perm[k]].file_name@
            &&& out@[k].path@ == fl[perm[k]].path@
            &&& out@[k].size == fl[perm[k]].size
            &&& out@[k].id@ == hex(path_hash(fl[perm[k]].path@) as nat, 16)
        } by {
            assert(*picked@[order@[k] as int] == fl[perm[k]]);
        }
    }
    out
}

fn copy_entry(e: &MediaEntry) -> (r: MediaEntry)
    ensures
        r == *e,
{
    MediaEntry { id: e.id.clone(), filename: e.filename.clone(), size: e.size, path: e.path.clone() }
}

/// The library entry with the given id; `NotFound("media id <id>")` when none has it.
pub fn find_entry_by_id(entries: &Vec<MediaEntry>, id: &str) -> (r: Result<MediaEntry, MediaError>)
    ensures
        match r {
            Ok(e) => exists|i: int| 0 <= i < entries@.len() && entries@[i] == e && e.id@ == id@ && forall|j: int|
                0 <= j < i ==> (#[trigger] entries@[j]).id@ != id@,
            Err(err) => (forall|i: int| 0 <= i < entries@.len() ==> (#[trigger] entries@[i]).id@ != id@)
                && (err matches MediaError::NotFound(m) && m@ == "media id "@ + id@),
        },
{
    let idc = chars_of(id);
    let mut i: usize = 0;
    while i < entries.len()
        invariant
            idc@ == id@,
            i <= entries@.len(),
            forall|j: int| 0 <= j < i ==> (#[trigger] entries@[j]).id@ != id@,
        decreases entries.len() - i,
    {
        if chars_eq(&chars_of(entries[i].id.as_str()), &idc) {
            return Ok(copy_entry(&entries[i]));
        }
        i = i + 1;
    }
    let mut m = chars_of("media id ");
    crate::paths::push_chars(&mut m, &idc);
    Err(MediaError::NotFound(string_of(&m)))
}

} // verus!
