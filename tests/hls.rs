use anicargo::hls::{
    check_hls_request, decide_lock, ensure_hls, ensure_within_root, hls_content_type,
    hls_output_dir, stream_playlist_url, transcode_command, try_prepare, HlsDir, LockDecision,
    ServeError,
};
use anicargo::media::{MediaConfig, MediaEntry};

fn config() -> MediaConfig {
    MediaConfig::new("/srv/media".to_string(), "/var/cache/ani".to_string())
}

#[test]
fn output_paths_follow_the_cache_dir() {
    let c = config();
    assert_eq!(c.hls_root(), "/var/cache/ani/hls");
    assert_eq!(hls_output_dir(&c, "abc"), "/var/cache/ani/hls/abc");
    assert_eq!(c.ffmpeg_path, "ffmpeg");
    assert_eq!(c.hls_segment_secs, 6);
}

#[test]
fn transcode_arguments_copy_mode() {
    let c = config();
    let cmd = transcode_command("/srv/media/a.mkv", "/out", &c);
    assert_eq!(cmd.program, "ffmpeg");
    let expected: Vec<&str> = vec![
        "-y", "-i", "/srv/media/a.mkv", "-c", "copy", "-start_number", "0", "-hls_time", "6",
        "-hls_list_size", "0", "-hls_playlist_type", "vod", "-hls_flags", "independent_segments",
        "-hls_segment_filename", "/out/segment_%05d.ts", "-f", "hls", "/out/index.m3u8",
    ];
    assert_eq!(cmd.args, expected.iter().map(|s| s.to_string()).collect::<Vec<_>>());
}

#[test]
fn transcode_arguments_reencode_mode() {
    let mut c = config();
    c.transcode = true;
    c.hls_segment_secs = 10;
    c.hls_playlist_len = 12;
    let cmd = transcode_command("in.mp4", "/o/", &c);
    assert_eq!(&cmd.args[3..13], &["-c:v", "libx264", "-preset", "veryfast", "-crf", "23", "-c:a", "aac", "-b:a", "128k"]);
    assert_eq!(cmd.args[16], "10");
    assert_eq!(cmd.args[18], "12");
    assert_eq!(cmd.args[cmd.args.len() - 1], "/o/index.m3u8");
}

#[test]
fn ensure_hls_plans_a_run_only_without_playlist() {
    let c = config();
    let e = MediaEntry { id: "abc".to_string(), filename: "a.mkv".to_string(), size: 1, path: "/srv/media/a.mkv".to_string() };
    let (session, cmd) = ensure_hls(&e, &c, false);
    assert_eq!(session.playlist_path, "/var/cache/ani/hls/abc/index.m3u8");
    assert!(cmd.is_some());
    let (_, cmd) = ensure_hls(&e, &c, true);
    assert!(cmd.is_none());
}

#[test]
fn lock_sentinel_decisions() {
    assert_eq!(decide_lock(None, 100, 3600), LockDecision::Acquire);
    assert_eq!(decide_lock(Some(100), 200, 3600), LockDecision::Skip);
    assert_eq!(decide_lock(Some(100), 3701, 3600), LockDecision::BreakStale);
    let d = HlsDir { playlist: false, lock_time: None };
    let (first, after) = try_prepare(&d, 10, 3600);
    let (second, _) = try_prepare(&after, 11, 3600);
    assert!(first);
    assert!(!second);
    let done = HlsDir { playlist: true, lock_time: None };
    assert!(!try_prepare(&done, 10, 3600).0);
}

#[test]
fn hls_path_traversal_is_forbidden() {
    assert_eq!(check_hls_request("abc", "../../etc/passwd"), Err(ServeError::Forbidden));
    assert_eq!(check_hls_request("..", "passwd"), Err(ServeError::Forbidden));
    assert_eq!(check_hls_request("abc", ""), Err(ServeError::Forbidden));
    assert_eq!(check_hls_request("abc", "index.m3u8"), Ok(()));
}

#[test]
fn serving_requires_containment_in_root() {
    assert_eq!(ensure_within_root(Some("/c/hls"), Some("/etc/passwd")), Err(ServeError::Forbidden));
    assert_eq!(ensure_within_root(Some("/c/hls"), Some("/c/hlsx/a.ts")), Err(ServeError::Forbidden));
    assert_eq!(ensure_within_root(Some("/c/hls"), Some("/c/hls/abc/a.ts")), Ok("/c/hls/abc/a.ts".to_string()));
    assert_eq!(ensure_within_root(None, Some("/c/hls/a")), Err(ServeError::BadRoot));
    assert_eq!(ensure_within_root(Some("/c/hls"), None), Err(ServeError::NotFound));
}

#[test]
fn content_types_and_playlist_url() {
    assert_eq!(hls_content_type("/c/hls/a/index.m3u8"), "application/vnd.apple.mpegurl");
    assert_eq!(hls_content_type("/c/hls/a/segment_00001.ts"), "video/mp2t");
    assert_eq!(hls_content_type("/c/hls/a/.hls.lock"), "application/octet-stream");
    assert_eq!(stream_playlist_url("tok", "abc"), "/hls/tok/abc/index.m3u8");
}

#[test]
fn content_type_reads_the_file_name_only() {
    assert_eq!(hls_content_type("/c/hls/x.ts/data"), "application/octet-stream");
    assert_eq!(hls_content_type("/c/hls/a/.ts"), "application/octet-stream");
    assert_eq!(hls_content_type("index.m3u8"), "application/vnd.apple.mpegurl");
}
