use anicargo::config::{
    env_first, parse_level, LogLevel, expand_tilde, parse_bool, parse_u32, parse_u64, resolve_path, split_config_args, split_csv,
    AppConfig, ConfigError, FileConfig, HlsConfigFile, MediaConfigFile, ServerConfigFile,
};

#[test]
fn parse_bool_accepts_common_values() {
    assert!(parse_bool("key", "true").unwrap());
    assert!(parse_bool("key", "YES").unwrap());
    assert!(parse_bool("key", "1").unwrap());
    assert!(!parse_bool("key", "false").unwrap());
    assert!(!parse_bool("key", "Off").unwrap());
    assert!(!parse_bool("key", "0").unwrap());
}

#[test]
fn parse_bool_rejects_invalid_values() {
    assert!(parse_bool("key", "maybe").is_err());
    assert!(parse_bool("key", "").is_err());
}

#[test]
fn parse_numbers_accept_valid_input() {
    assert_eq!(parse_u32("key", "12").unwrap(), 12);
    assert_eq!(parse_u64("key", "3600").unwrap(), 3600);
}

#[test]
fn parse_numbers_reject_invalid_input() {
    assert!(parse_u32("key", "12x").is_err());
    assert!(parse_u64("key", "not").is_err());
}

#[test]
fn split_config_args_extracts_path() {
    let args = vec![
        "anicargo".to_string(),
        "--config".to_string(),
        "cfg.toml".to_string(),
        "scan".to_string(),
    ];
    let (config, rest) = split_config_args(args.into_iter().skip(1).collect()).unwrap();
    assert_eq!(config, Some("cfg.toml".to_string()));
    assert_eq!(rest, vec!["scan".to_string()]);
}

#[test]
fn parse_bool_trims_and_names_the_key() {
    assert!(parse_bool("k", "  on \n").unwrap());
    match parse_bool("ANICARGO_X", "perhaps") {
        Err(ConfigError::InvalidValue(m)) => assert_eq!(m, "invalid ANICARGO_X: perhaps"),
        other => panic!("unexpected {:?}", other),
    }
}

#[test]
fn parse_numbers_edges() {
    assert_eq!(parse_u32("k", " +7 ").unwrap(), 7);
    assert_eq!(parse_u32("k", "4294967295").unwrap(), u32::MAX);
    assert!(parse_u32("k", "4294967296").is_err());
    assert!(parse_u32("k", "-1").is_err());
    assert!(parse_u32("k", "+").is_err());
    assert_eq!(parse_u64("k", "18446744073709551615").unwrap(), u64::MAX);
    assert!(parse_u64("k", "18446744073709551616").is_err());
}

#[test]
fn split_config_args_variants() {
    let args = vec!["--config=a.toml".to_string(), "x".to_string(), "--config".to_string(), "b.toml".to_string()];
    let (config, rest) = split_config_args(args).unwrap();
    assert_eq!(config, Some("b.toml".to_string()));
    assert_eq!(rest, vec!["x".to_string()]);
    assert!(split_config_args(vec!["--config".to_string()]).is_err());
    assert!(split_config_args(vec!["--config=".to_string()]).is_err());
    assert!(split_config_args(vec!["--config".to_string(), "".to_string()]).is_err());
    let (none, all) = split_config_args(vec!["scan".to_string()]).unwrap();
    assert_eq!(none, None);
    assert_eq!(all, vec!["scan".to_string()]);
}

#[test]
fn split_csv_trims_and_drops_blanks() {
    assert_eq!(split_csv(" a, b ,,c ,"), vec!["a".to_string(), "b".to_string(), "c".to_string()]);
    assert!(split_csv("").is_empty());
    assert!(split_csv(" , ").is_empty());
}

#[test]
fn paths_resolve_against_base_and_home() {
    assert_eq!(expand_tilde("~", Some("/home/u")), "/home/u");
    assert_eq!(expand_tilde("~/media", Some("/home/u")), "/home/u/media");
    assert_eq!(expand_tilde("~/media", None), "~/media");
    assert_eq!(resolve_path(Some("/etc/ani"), "media", None), "/etc/ani/media");
    assert_eq!(resolve_path(Some("/etc/ani"), "/srv/media", None), "/srv/media");
    assert_eq!(resolve_path(None, "media", None), "media");
}

fn empty_file() -> FileConfig {
    FileConfig {
        media: None,
        hls: None,
        db: None,
        auth: None,
        server: None,
        bangumi: None,
        logging: None,
        qbittorrent: None,
    }
}

#[test]
fn defaults_validate_and_file_overrides() {
    let mut c = AppConfig::defaults(Some("/home/u"));
    assert_eq!(c.media.media_dir, Some("/home/u/.local/share/anicargo/media".to_string()));
    assert_eq!(c.media.cache_dir, "/home/u/.cache/anicargo");
    assert!(c.validate().is_ok());
    let mut f = empty_file();
    f.media = Some(MediaConfigFile { media_dir: Some("videos".to_string()), cache_dir: None });
    f.hls = Some(HlsConfigFile {
        ffmpeg_path: None,
        segment_secs: Some(4),
        playlist_len: None,
        lock_timeout_secs: None,
        transcode: Some(true),
    });
    c.apply_file(f, Some("/etc/ani"), Some("/home/u"));
    assert_eq!(c.media.media_dir, Some("/etc/ani/videos".to_string()));
    assert_eq!(c.media.cache_dir, "/home/u/.cache/anicargo");
    assert_eq!(c.hls.segment_secs, 4);
    assert!(c.hls.transcode);
    assert_eq!(c.hls.playlist_len, 0);
    c.server.job_workers = 0;
    match c.validate() {
        Err(ConfigError::InvalidValue(m)) => assert_eq!(m, "server.job_workers must be > 0"),
        other => panic!("unexpected {:?}", other),
    }
    c.media.media_dir = None;
    assert!(matches!(c.validate(), Err(ConfigError::MissingValue(_))));
    assert!(c.media.require_media_dir().is_err());
    assert!(c.db.require_database_url().is_err());
}

#[test]
fn normalize_spreads_the_general_rate_limit() {
    let mut c = AppConfig::defaults(None);
    let mut f = empty_file();
    f.server = Some(ServerConfigFile {
        bind: None,
        max_scan_concurrency: None,
        max_hls_concurrency: None,
        max_in_flight: None,
        rate_limit_per_minute: Some(30),
        rate_limit_user_per_minute: None,
        rate_limit_ip_per_minute: None,
        rate_limit_allow_users: Some(vec!["alice".to_string()]),
        rate_limit_allow_ips: None,
        rate_limit_block_users: None,
        rate_limit_block_ips: None,
        job_workers: None,
        job_poll_interval_ms: None,
        job_max_attempts: None,
        job_retention_hours: None,
        job_cleanup_interval_secs: None,
        job_running_timeout_secs: None,
    });
    c.apply_file(f, None, None);
    c.normalize();
    assert_eq!(c.server.rate_limit_user_per_minute, 30);
    assert_eq!(c.server.rate_limit_ip_per_minute, 30);
    assert_eq!(c.server.rate_limit_allow_users, vec!["alice".to_string()]);
    assert_eq!(c.media.media_dir, Some("media".to_string()));
}

#[test]
fn env_lookup_prefers_the_first_key() {
    let env = vec![("MEDIA_DIR".to_string(), "/b".to_string()), ("ANICARGO_MEDIA_DIR".to_string(), "/a".to_string())];
    assert_eq!(env_first(&env, &vec!["ANICARGO_MEDIA_DIR", "MEDIA_DIR"]), Some("/a".to_string()));
    assert_eq!(env_first(&env, &vec!["CACHE_DIR", "MEDIA_DIR"]), Some("/b".to_string()));
    assert_eq!(env_first(&env, &vec!["CACHE_DIR"]), None);
}

#[test]
fn log_levels() {
    assert_eq!(parse_level("INFO").unwrap(), LogLevel::Info);
    assert_eq!(parse_level("Warning").unwrap(), LogLevel::Warn);
    match parse_level("loud") {
        Err(ConfigError::InvalidValue(m)) => assert_eq!(m, "invalid log level: loud"),
        other => panic!("unexpected {:?}", other),
    }
}
