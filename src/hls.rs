use vstd::prelude::*;
use crate::text::{chars_of, string_of, decimal, decimal_chars};
use crate::paths::{join, join_path, within, is_within, extension, file_extension, last_component};
use crate::media::{MediaConfig, MediaEntry, HlsSession, MediaError};

verus! {

pub open spec fn views(v: Seq<String>) -> Seq<Seq<char>> {
    v.map_values(|s: String| s@)
}

/// The directory holding one media item's HLS output.
pub open spec fn output_dir(config: MediaConfig, id: Seq<char>) -> Seq<char> {
    join(join(config.cache_dir@, "hls"@), id)
}

pub fn hls_output_dir(config: &MediaConfig, id: &str) -> (r: String)
    ensures
        r@ == output_dir(*config, id@),
{
    let root = config.hls_root();
    join_path(root.as_str(), id)
}

/// The transcoder's arguments for turning `input` into an HLS playlist and
/// segments under `out`.
pub open spec fn transcode_args(input: Seq<char>, out: Seq<char>, config: MediaConfig) -> Seq<Seq<char>> {
    let codec = if config.transcode {
        seq![
            "-c:v"@, "libx264"@, "-preset"@, "veryfast"@, "-crf"@, "23"@, "-c:a"@, "aac"@,
            "-b:a"@, "128k"@,
        ]
    } else {
        seq!["-c"@, "copy"@]
    };
    seq!["-y"@, "-i"@, input] + codec + seq![
        "-start_number"@,
        "0"@,
        "-hls_time"@,
        decimal(config.hls_segment_secs as nat),
        "-hls_list_size"@,
        decimal(config.hls_playlist_len as nat),
        "-hls_playlist_type"@,
        "vod"@,
        "-hls_flags"@,
        "independent_segments"@,
        "-hls_segment_filename"@,
        join(out, "segment_%05d.ts"@),
        "-f"@,
        "hls"@,
        join(out, "index.m3u8"@),
    ]
}

/// A transcoder run: the program and its arguments.
#[derive(Debug, Clone)]
pub struct TranscodeCommand {
    pub program: String,
    pub args: Vec<String>,
}

fn push_arg(v: &mut Vec<String>, s: &str)
    ensures
        views(final(v)@) == views(old(v)@).push(s@),
{
    v.push(s.to_string());
    assert(views(v@) =~= views(old(v)@).push(s@));
}

fn push_owned(v: &mut Vec<String>, s: String)
    ensures
        views(final(v)@) == views(old(v)@).push(s@),
{
    v.push(s);
    assert(views(v@) =~= views(old(v)@).push(s@));
}

/// The command that writes the HLS output of `input` into `output_dir`.
pub fn transcode_command(input: &str, output_dir: &str, config: &MediaConfig) -> (r: TranscodeCommand)
    ensures
        r.program == config.ffmpeg_path,
        views(r.args@) == transcode_args(input@, output_dir@, *config),
{
    let mut a: Vec<String> = Vec::new();
    assert(views(a@) =~= Seq::<Seq<char>>::empty());
    push_arg(&mut a, "-y");
    push_arg(&mut a, "-i");
    push_arg(&mut a, input);
    if config.transcode {
        push_arg(&mut a, "-c:v");
        push_arg(&mut a, "libx264");
        push_arg(&mut a, "-preset");
        push_arg(&mut a, "veryfast");
        push_arg(&mut a, "-crf");
        push_arg(&mut a, "23");
        push_arg(&mut a, "-c:a");
        push_arg(&mut a, "aac");
        push_arg(&mut a, "-b:a");
        push_arg(&mut a, "128k");
    } else {
        push_arg(&mut a, "-c");
        push_arg(&mut a, "copy");
    }
    push_arg(&mut a, "-start_number");
    push_arg(&mut a, "0");
    push_arg(&mut a, "-hls_time");
    push_owned(&mut a, string_of(&decimal_chars(config.hls_segment_secs as u64)));
    push_arg(&mut a, "-hls_list_size");
    push_owned(&mut a, string_of(&decimal_chars(config.hls_playlist_len as u64)));
    push_arg(&mut a, "-hls_playlist_type");
    push_arg(&mut a, "vod");
    push_arg(&mut a, "-hls_flags");
    push_arg(&mut a, "independent_segments");
    push_arg(&mut a, "-hls_segment_filename");
    push_owned(&mut a, join_path(output_dir, "segment_%05d.ts"));
    push_arg(&mut a, "-f");
    push_arg(&mut a, "hls");
    push_owned(&mut a, join_path(output_dir, "index.m3u8"));
    assert(views(a@) =~= transcode_args(input@, output_dir@, *config));
    TranscodeCommand { program: config.ffmpeg_path.clone(), args: a }
}

/// The HLS output of a media item, and the transcoder run still needed to
/// produce it: none once the playlist exists.
pub fn ensure_hls(entry: &MediaEntry, config: &MediaConfig, playlist_exists: bool) -> (r: (
    HlsSession,
    Option<TranscodeCommand>,
))
    ensures
        r.0.id == entry.id,
        r.0.output_dir@ == output_dir(*config, entry.id@),
        r.0.playlist_path@ == join(output_dir(*config, entry.id@), "index.m3u8"@),
        playlist_exists <==> r.1 is None,
        r.1 matches Some(cmd) ==> cmd.program == config.ffmpeg_path && views(cmd.args@)
            == transcode_args(entry.path@, output_dir(*config, entry.id@), *config),
{
    let out = hls_output_dir(config, entry.id.as_str());
    let playlist = join_path(out.as_str(), "index.m3u8");
    let cmd = if playlist_exists {
        None
    } else {
        Some(transcode_command(entry.path.as_str(), out.as_str(), config))
    };
    (HlsSession { id: entry.id.clone(), output_dir: out, playlist_path: playlist }, cmd)
}

/// What a worker does about the lock sentinel of an output directory.
#[derive(PartialEq, Eq, Structural, Clone, Copy, Debug)]
pub enum LockDecision {
    /// No sentinel: create it and transcode.
    Acquire,
    /// The sentinel is older than the timeout: remove it and try again.
    BreakStale,
    /// Another worker is preparing the output.
    Skip,
}

/// The decision for a sentinel written at `lock_time` (if one exists).
pub open spec fn lock_decision(lock_time: Option<i64>, now: i64, timeout_secs: u64) -> LockDecision {
    match lock_time {
        None => LockDecision::Acquire,
        Some(t) => if (now as int) - (t as int) > timeout_secs as int {
            LockDecision::BreakStale
        } else {
            LockDecision::Skip
        },
    }
}

pub fn decide_lock(lock_time: Option<i64>, now: i64, timeout_secs: u64) -> (r: LockDecision)
    ensures
        r == lock_decision(lock_time, now, timeout_secs),
{
    match lock_time {
        None => LockDecision::Acquire,
        Some(t) => if (now as i128) - (t as i128) > timeout_secs as i128 {
            LockDecision::BreakStale
        } else {
            LockDecision::Skip
        },
    }
}

/// The on-disk state of one output directory: whether the playlist exists,
/// and when the lock sentinel (if any) was written.
#[derive(Debug, Clone)]
pub struct HlsDir {
    pub playlist: bool,
    pub lock_time: Option<i64>,
}

/// One attempt to prepare the output at `now`: it starts the transcoder
/// when no playlist exists and it creates the sentinel (breaking a stale one).
/// Returns whether it spawned, and the directory's state afterwards.
pub open spec fn attempt(d: HlsDir, now: i64, timeout_secs: u64) -> (bool, HlsDir) {
    if d.playlist {
        (false, d)
    } else {
        match lock_decision(d.lock_time, now, timeout_secs) {
            LockDecision::Skip => (false, d),
            _ => (true, HlsDir { playlist: false, lock_time: Some(now) }),
        }
    }
}

pub fn try_prepare(d: &HlsDir, now: i64, timeout_secs: u64) -> (r: (bool, HlsDir))
    ensures
        r == attempt(*d, now, timeout_secs),
{
    if d.playlist {
        (false, HlsDir { playlist: d.playlist, lock_time: d.lock_time })
    } else {
        match decide_lock(d.lock_time, now, timeout_secs) {
            LockDecision::Skip => (false, HlsDir { playlist: d.playlist, lock_time: d.lock_time }),
            _ => (true, HlsDir { playlist: false, lock_time: Some(now) }),
        }
    }
}

/// Of two attempts on one directory, the second made no later than
/// `timeout_secs` after the first, at most one starts the transcoder.
pub proof fn lemma_single_spawn(d: HlsDir, t1: i64, t2: i64, timeout_secs: u64)
    requires
        t1 <= t2,
        (t2 as int) - (t1 as int) <= timeout_secs as int,
    ensures
        !(attempt(d, t1, timeout_secs).0 && attempt(attempt(d, t1, timeout_secs).1, t2, timeout_secs).0),
{
}

/// A path segment that names an entry inside its directory: not empty, no
/// separator, and neither `.` nor `..`.
pub open spec fn plain_segment(s: Seq<char>) -> bool {
    &&& s.len() > 0
    &&& forall|i: int| 0 <= i < s.len() ==> s[i] != '/' && s[i] != '\\'
    &&& s != "."@
    &&& s != ".."@
}

pub fn is_plain_segment(s: &str) -> (r: bool)
    ensures
        r == plain_segment(s@),
{
    let cs = chars_of(s);
    if cs.len() == 0 {
        return false;
    }
    let mut i: usize = 0;
    while i < cs.len()
        invariant
            cs@ == s@,
            i <= cs@.len(),
            forall|k: int| 0 <= k < i ==> cs@[k] != '/' && cs@[k] != '\\',
        decreases cs.len() - i,
    {
        if cs[i] == '/' || cs[i] == '\\' {
            return false;
        }
        i = i + 1;
    }
    let dot = chars_of(".");
    let dots = chars_of("..");
    !crate::text::chars_eq(&cs, &dot) && !crate::text::chars_eq(&cs, &dots)
}

/// Why serving an HLS file was refused.
#[derive(PartialEq, Eq, Structural, Clone, Copy, Debug)]
pub enum ServeError {
    /// The HLS root itself cannot be resolved.
    BadRoot,
    /// No such file.
    NotFound,
    /// The request reaches outside the HLS root.
    Forbidden,
}

/// Checks a request for `${id}/${file}` under the HLS root before touching
/// the disk: both must be plain segments.
pub fn check_hls_request(id: &str, file: &str) -> (r: Result<(), ServeError>)
    ensures
        r is Ok <==> plain_segment(id@) && plain_segment(file@),
        r is Err ==> r == Err::<(), ServeError>(ServeError::Forbidden),
{
    if is_plain_segment(id) && is_plain_segment(file) {
        Ok(())
    } else {
        Err(ServeError::Forbidden)
    }
}

/// Accepts a resolved file only inside the resolved HLS root. `None` stands
/// for a path that could not be resolved.
pub fn ensure_within_root(root: Option<&str>, path: Option<&str>) -> (r: Result<String, ServeError>)
    ensures
        root is None ==> r == Err::<String, ServeError>(ServeError::BadRoot),
        root is Some && path is None ==> r == Err::<String, ServeError>(ServeError::NotFound),
        root is Some && path is Some ==> if within(root->0@, path->0@) {
            r is Ok && r->Ok_0@ == path->0@
        } else {
            r == Err::<String, ServeError>(ServeError::Forbidden)
        },
{
    let rt = match root {
        None => return Err(ServeError::BadRoot),
        Some(rt) => rt,
    };
    let p = match path {
        None => return Err(ServeError::NotFound),
        Some(p) => p,
    };
    if is_within(rt, p) {
        Ok(p.to_string())
    } else {
        Err(ServeError::Forbidden)
    }
}

/// The content type an HLS file is served with.
pub open spec fn content_type(path: Seq<char>) -> Seq<char> {
    let name_ext = extension(last_component(path));
    if name_ext == Some("m3u8"@) {
        "application/vnd.apple.mpegurl"@
    } else if name_ext == Some("ts"@) {
        "video/mp2t"@
    } else {
        "application/octet-stream"@
    }
}

pub fn hls_content_type(path: &str) -> (r: &'static str)
    ensures
        r@ == content_type(path@),
{
    let name = crate::paths::last_component_of(path);
    match file_extension(name.as_str()) {
        Some(e) => {
            if crate::text::chars_eq(&e, &chars_of("m3u8")) {
                "application/vnd.apple.mpegurl"
            } else if crate::text::chars_eq(&e, &chars_of("ts")) {
                "video/mp2t"
            } else {
                "application/octet-stream"
            }
        },
        None => "application/octet-stream",
    }
}

/// The playlist URL handed to players: the token travels as the first path
/// segment.
pub open spec fn playlist_url(token: Seq<char>, id: Seq<char>) -> Seq<char> {
    "/hls/"@ + token + "/"@ + id + "/index.m3u8"@
}

pub fn stream_playlist_url(token: &str, id: &str) -> (r: String)
    ensures
        r@ == playlist_url(token@, id@),
{
    let mut out = chars_of("/hls/");
    crate::paths::push_chars(&mut out, &chars_of(token));
    crate::paths::push_chars(&mut out, &chars_of("/"));
    crate::paths::push_chars(&mut out, &chars_of(id));
    crate::paths::push_chars(&mut out, &chars_of("/index.m3u8"));
    string_of(&out)
}

} // verus!
