use vstd::prelude::*;
use crate::text::{chars_of, string_of, trim, trimmed_chars, trim_chars, chars_eq};
use crate::paths::{push_chars, join, join_path};
use crate::text::starts_with;
use crate::media::{str_lower, lower_chars};

verus! {

/// Failures while loading the configuration. Outside errors carry their text.
#[derive(Debug, Clone)]
pub enum ConfigError {
    Io(String),
    Toml(String),
    InvalidValue(String),
    MissingValue(String),
    MissingConfigFile(String),
    Logger(String),
}

/// The message for a value that does not parse: `invalid <key>: <value>`.
pub open spec fn invalid_message(key: Seq<char>, value: Seq<char>) -> Seq<char> {
    "invalid "@ + key + ": "@ + value
}

fn invalid(key: &str, value: &str) -> (r: ConfigError)
    ensures
        r matches ConfigError::InvalidValue(m) && m@ == invalid_message(key@, value@),
{
    let mut m = chars_of("invalid ");
    push_chars(&mut m, &chars_of(key));
    push_chars(&mut m, &chars_of(": "));
    push_chars(&mut m, &chars_of(value));
    ConfigError::InvalidValue(string_of(&m))
}

/// The boolean that a lowercased word spells, if any.
pub open spec fn bool_word(w: Seq<char>) -> Option<bool> {
    if w == "1"@ || w == "true"@ || w == "yes"@ || w == "on"@ {
        Some(true)
    } else if w == "0"@ || w == "false"@ || w == "no"@ || w == "off"@ {
        Some(false)
    } else {
        None
    }
}

/// Reads a lowercased word as a boolean.
pub fn bool_from_word(w: &Vec<char>) -> (r: Option<bool>)
    ensures
        r == bool_word(w@),
{
    if chars_eq(w, &chars_of("1")) || chars_eq(w, &chars_of("true")) || chars_eq(w, &chars_of("yes"))
        || chars_eq(w, &chars_of("on")) {
        Some(true)
    } else if chars_eq(w, &chars_of("0")) || chars_eq(w, &chars_of("false")) || chars_eq(
        w,
        &chars_of("no"),
    ) || chars_eq(w, &chars_of("off")) {
        Some(false)
    } else {
        None
    }
}

/// Reads a boolean setting: the value, trimmed and lowercased, must be one of
/// 1/true/yes/on or 0/false/no/off.
pub fn parse_bool(key: &str, value: &str) -> (r: Result<bool, ConfigError>)
    ensures
        match bool_word(str_lower(trim(value@))) {
            Some(b) => r == Ok::<bool, ConfigError>(b),
            None => r matches Err(ConfigError::InvalidValue(m)) && m@ == invalid_message(key@, value@),
        },
{
    let t = trimmed_chars(value);
    let w = lower_chars(&t);
    match bool_from_word(&w) {
        Some(b) => Ok(b),
        None => Err(invalid(key, value)),
    }
}

pub open spec fn is_digit(c: char) -> bool {
    '0' <= c && c <= '9'
}

/// The value of a run of decimal digits.
pub open spec fn digits_value(s: Seq<char>) -> int
    decreases s.len(),
{
    if s.len() == 0 {
        0
    } else {
        digits_value(s.drop_last()) * 10 + (s.last() as int - 48)
    }
}

/// The number that `from_str` reads for an unsigned integer: an optional
/// `+`, then one or more digits.
pub open spec fn unsigned_text(s: Seq<char>) -> Option<int> {
    let body = unsigned_body(s);
    if body.len() > 0 && all_digits(body) {
        Some(digits_value(body))
    } else {
        None
    }
}

/// The text after an optional leading `+`.
pub open spec fn unsigned_body(s: Seq<char>) -> Seq<char> {
    if s.len() > 0 && s[0] == '+' { s.drop_first() } else { s }
}

pub open spec fn all_digits(s: Seq<char>) -> bool {
    forall|i: int| 0 <= i < s.len() ==> is_digit(#[trigger] s[i])
}

fn parse_unsigned(s: &Vec<char>, max: u64) -> (r: Option<u64>)
    requires
        max >= 9,
    ensures
        match unsigned_text(s@) {
            Some(v) => 0 <= v && if v <= max { r == Some(v as u64) } else { r is None },
            None => r is None,
        },
        r matches Some(x) ==> x <= max,
{
    let start: usize = if s.len() > 0 && s[0] == '+' { 1 } else { 0 };
    let ghost body = unsigned_body(s@);
    assert(body =~= s@.subrange(start as int, s@.len() as int));
    if start == s.len() {
        return None;
    }
    let mut v: u64 = 0;
    let mut over = false;
    let mut i: usize = start;
    while i < s.len()
        invariant
            max >= 9,
            body == unsigned_body(s@),
            start as int == s@.len() - body.len(),
            start <= i <= s@.len(),
            body == s@.subrange(start as int, s@.len() as int),
            forall|k: int| start <= k < i ==> is_digit(#[trigger] s@[k]),
            !over ==> v as int == digits_value(s@.subrange(start as int, i as int)) && v <= max,
            over ==> digits_value(s@.subrange(start as int, i as int)) > max,
        decreases s.len() - i,
    {
        let c = s[i];
        if !('0' <= c && c <= '9') {
            assert(!is_digit(body[i - start]));
            assert(!(forall|k: int| 0 <= k < body.len() ==> is_digit(#[trigger] body[k])));
            assert(unsigned_text(s@) is None);
            return None;
        }
        let ghost pre = s@.subrange(start as int, i as int);
        assert(s@.subrange(start as int, i + 1).drop_last() =~= pre);
        let d = (c as u32 - 48) as u64;
        assert(d <= 9);
        proof {
            assert(digits_value(pre) >= 0) by {
                lemma_digits_nonneg(pre);
            }
        }
        if !over {
            if v > (max - d) / 10 {
                over = true;
            } else {
                v = v * 10 + d;
            }
        }
        i = i + 1;
    }
    proof {
        assert forall|k: int| 0 <= k < body.len() implies is_digit(#[trigger] body[k]) by {
            assert(body[k] == s@[k + start]);
        }
        lemma_digits_nonneg(body);
    }
    if over { None } else { Some(v) }
}

proof fn lemma_digits_nonneg(s: Seq<char>)
    requires
        forall|i: int| 0 <= i < s.len() ==> is_digit(#[trigger] s[i]),
    ensures
        digits_value(s) >= 0,
    decreases s.len(),
{
    if s.len() > 0 {
        assert forall|i: int| 0 <= i < s.drop_last().len() implies is_digit(#[trigger] s.drop_last()[i]) by {
            assert(s.drop_last()[i] == s[i]);
        }
        lemma_digits_nonneg(s.drop_last());
        assert(is_digit(s[s.len() - 1]));
    }
}

/// Reads a `u32` setting from its trimmed text.
pub fn parse_u32(key: &str, value: &str) -> (r: Result<u32, ConfigError>)
    ensures
        match unsigned_text(trim(value@)) {
            Some(v) => if v <= u32::MAX {
                r == Ok::<u32, ConfigError>(v as u32)
            } else {
                r matches Err(ConfigError::InvalidValue(m)) && m@ == invalid_message(key@, value@)
            },
            None => r matches Err(ConfigError::InvalidValue(m)) && m@ == invalid_message(key@, value@),
        },
{
    let t = trimmed_chars(value);
    match parse_unsigned(&t, u32::MAX as u64) {
        Some(v) => Ok(v as u32),
        None => Err(invalid(key, value)),
    }
}

/// Reads a `u64` setting from its trimmed text.
pub fn parse_u64(key: &str, value: &str) -> (r: Result<u64, ConfigError>)
    ensures
        match unsigned_text(trim(value@)) {
            Some(v) => if v <= u64::MAX {
                r == Ok::<u64, ConfigError>(v as u64)
            } else {
                r matches Err(ConfigError::InvalidValue(m)) && m@ == invalid_message(key@, value@)
            },
            None => r matches Err(ConfigError::InvalidValue(m)) && m@ == invalid_message(key@, value@),
        },
{
    let t = trimmed_chars(value);
    match parse_unsigned(&t, u64::MAX) {
        Some(v) => Ok(v),
        None => Err(invalid(key, value)),
    }
}

/// The comma-separated fields of a string (one more than its commas).
pub open spec fn csv_fields(s: Seq<char>) -> Seq<Seq<char>>
    decreases s.len(),
{
    if s.len() == 0 {
        seq![Seq::empty()]
    } else {
        let f = csv_fields(s.drop_last());
        if s.last() == ',' {
            f.push(Seq::empty())
        } else {
            f.update(f.len() - 1, f.last().push(s.last()))
        }
    }
}

/// The trimmed fields that are not blank, in order.
pub open spec fn nonblank(fields: Seq<Seq<char>>) -> Seq<Seq<char>>
    decreases fields.len(),
{
    if fields.len() == 0 {
        Seq::empty()
    } else {
        let k = nonblank(fields.drop_last());
        if trim(fields.last()).len() > 0 {
            k.push(trim(fields.last()))
        } else {
            k
        }
    }
}

proof fn lemma_fields_nonempty(s: Seq<char>)
    ensures
        csv_fields(s).len() >= 1,
    decreases s.len(),
{
    if s.len() > 0 {
        lemma_fields_nonempty(s.drop_last());
    }
}

pub open spec fn string_views(v: Seq<String>) -> Seq<Seq<char>> {
    v.map_values(|s: String| s@)
}

/// Splits a comma-separated list, trimming each item and dropping blank ones.
pub fn split_csv(value: &str) -> (r: Vec<String>)
    ensures
        string_views(r@) == nonblank(csv_fields(value@)),
{
    let cs = chars_of(value);
    let mut out: Vec<String> = Vec::new();
    let mut cur: Vec<char> = Vec::new();
    let ghost mut done: Seq<Seq<char>> = Seq::empty();
    let mut i: usize = 0;
    assert(cs@.subrange(0, 0) =~= Seq::<char>::empty());
    while i < cs.len()
        invariant
            cs@ == value@,
            i <= cs@.len(),
            csv_fields(cs@.subrange(0, i as int)) == done.push(cur@),
            string_views(out@) == nonblank(done),
        decreases cs.len() - i,
    {
        let c = cs[i];
        let ghost pre = cs@.subrange(0, i as int);
        assert(cs@.subrange(0, i + 1).drop_last() =~= pre);
        proof {
            lemma_fields_nonempty(pre);
        }
        if c == ',' {
            let t = trim_chars(&cur);
            proof {
                assert(done.push(cur@).drop_last() =~= done);
            }
            if t.len() > 0 {
                out.push(string_of(&t));
                assert(string_views(out@) =~= nonblank(done).push(t@));
            }
            proof {
                done = done.push(cur@);
            }
            cur = Vec::new();
            assert(csv_fields(cs@.subrange(0, i + 1)) =~= done.push(cur@));
        } else {
            cur.push(c);
            assert(csv_fields(cs@.subrange(0, i + 1)) =~= done.push(cur@));
        }
        i = i + 1;
    }
    assert(cs@.subrange(0, i as int) =~= value@);
    let t = trim_chars(&cur);
    assert(done.push(cur@).drop_last() =~= done);
    if t.len() > 0 {
        out.push(string_of(&t));
        assert(string_views(out@) =~= nonblank(done).push(t@));
    }
    out
}

/// How the command line splits into a configuration path and the other
/// arguments, from position `i` on; `None` when a `--config` has no value.
/// A later `--config` wins.
pub open spec fn split_from(args: Seq<Seq<char>>, i: int) -> Option<(Option<Seq<char>>, Seq<Seq<char>>)>
    decreases args.len() - i,
{
    if i < 0 || i >= args.len() {
        Some((None, Seq::empty()))
    } else if args[i] == "--config"@ {
        if i + 1 >= args.len() || args[i + 1].len() == 0 {
            None
        } else {
            match split_from(args, i + 2) {
                None => None,
                Some((p, rest)) => Some((if p is Some { p } else { Some(args[i + 1]) }, rest)),
            }
        }
    } else if crate::text::starts_with(args[i], "--config="@) {
        let v = args[i].subrange(9, args[i].len() as int);
        if v.len() == 0 {
            None
        } else {
            match split_from(args, i + 1) {
                None => None,
                Some((p, rest)) => Some((if p is Some { p } else { Some(v) }, rest)),
            }
        }
    } else {
        match split_from(args, i + 1) {
            None => None,
            Some((p, rest)) => Some((p, seq![args[i]] + rest)),
        }
    }
}

/// The earlier part of a split (`p0`, `r0`) followed by the split of the rest.
pub open spec fn then_split(
    p0: Option<Seq<char>>,
    r0: Seq<Seq<char>>,
    tail: Option<(Option<Seq<char>>, Seq<Seq<char>>)>,
) -> Option<(Option<Seq<char>>, Seq<Seq<char>>)> {
    match tail {
        None => None,
        Some((p, r)) => Some((if p is Some { p } else { p0 }, r0 + r)),
    }
}

fn missing_config_value() -> (r: ConfigError)
    ensures
        r matches ConfigError::InvalidValue(m) && m@ == "missing value for --config"@,
{
    ConfigError::InvalidValue("missing value for --config".to_string())
}

/// Takes `--config <path>` or `--config=<path>` out of the command line and
/// returns the path (the last one given) with the remaining arguments.
pub fn split_config_args(args: Vec<String>) -> (r: Result<(Option<String>, Vec<String>), ConfigError>)
    ensures
        match split_from(string_views(args@), 0) {
            None => r matches Err(ConfigError::InvalidValue(m)) && m@ == "missing value for --config"@,
            Some((p, rest)) => r is Ok && opt_str(r->Ok_0.0) == p && string_views(r->Ok_0.1@) == rest,
        },
{
    let ghost a = string_views(args@);
    let flag = chars_of("--config");
    let prefix = chars_of("--config=");
    let mut path: Option<String> = None;
    let mut rest: Vec<String> = Vec::new();
    let mut i: usize = 0;
    assert(string_views(rest@) =~= Seq::<Seq<char>>::empty());
    assert(then_split(None, Seq::empty(), split_from(a, 0)) =~= split_from(a, 0)) by {
        match split_from(a, 0) {
            None => {},
            Some((p, r)) => { assert(Seq::<Seq<char>>::empty() + r =~= r); },
        }
    }
    while i < args.len()
        invariant
            a == string_views(args@),
            flag@ == "--config"@,
            prefix@ == "--config="@,
            i <= args@.len(),
            split_from(a, 0) == then_split(opt_str(path), string_views(rest@), split_from(a, i as int)),
        decreases args.len() - i,
    {
        let arg = chars_of(args[i].as_str());
        assert(arg@ == a[i as int]);
        if chars_eq(&arg, &flag) {
            if i + 1 >= args.len() || args[i + 1].as_str().unicode_len() == 0 {
                proof {
                    if i + 1 < args@.len() {
                        assert(a[i + 1].len() == 0);
                    }
                }
                return Err(missing_config_value());
            }
            proof {
                assert(args@[i + 1]@.len() > 0);
                match split_from(a, i + 2) {
                    None => {},
                    Some((p, r)) => {},
                }
            }
            path = Some(args[i + 1].clone());
            i = i + 2;
        } else if crate::text::chars_start_with(&arg, &prefix) {
            proof {
                reveal_strlit("--config=");
            }
            assert(prefix@.len() == 9);
            let mut v: Vec<char> = Vec::new();
            let mut k: usize = 9;
            while k < arg.len()
                invariant
                    9 <= k <= arg@.len(),
                    prefix@.len() == 9,
                    v@ == arg@.subrange(9, k as int),
                decreases arg.len() - k,
            {
                v.push(arg[k]);
                k = k + 1;
                assert(v@ =~= arg@.subrange(9, k as int));
            }
            if v.len() == 0 {
                return Err(missing_config_value());
            }
            path = Some(string_of(&v));
            i = i + 1;
        } else {
            let ghost r0 = string_views(rest@);
            rest.push(args[i].clone());
            assert(string_views(rest@) =~= r0.push(a[i as int]));
            proof {
                match split_from(a, i + 1) {
                    None => {},
                    Some((p, r)) => {
                        assert(r0.push(a[i as int]) + r =~= r0 + (seq![a[i as int]] + r));
                    },
                }
            }
            i = i + 1;
        }
    }
    proof {
        assert(string_views(rest@) + Seq::<Seq<char>>::empty() =~= string_views(rest@));
    }
    Ok((path, rest))
}

pub open spec fn opt_str(o: Option<String>) -> Option<Seq<char>> {
    match o {
        Some(s) => Some(s@),
        None => None,
    }
}

/// The `media` settings.
#[derive(Debug, Clone)]
pub struct MediaConfig {
    pub media_dir: Option<String>,
    pub cache_dir: String,
}

/// The `hls` settings.
#[derive(Debug, Clone)]
pub struct HlsConfig {
    pub ffmpeg_path: String,
    pub segment_secs: u32,
    pub playlist_len: u32,
    pub lock_timeout_secs: u64,
    pub transcode: bool,
}

/// The `db` settings.
#[derive(Debug, Clone)]
pub struct DbConfig {
    pub database_url: Option<String>,
    pub max_connections: u32,
}

/// The `auth` settings.
#[derive(Debug, Clone)]
pub struct AuthConfig {
    pub jwt_secret: String,
    pub token_ttl_secs: u64,
    pub admin_user: String,
    pub admin_password: String,
    pub invite_code: String,
}

/// The `server` settings.
#[derive(Debug, Clone)]
pub struct ServerConfig {
    pub bind: String,
    pub max_scan_concurrency: u32,
    pub max_hls_concurrency: u32,
    pub max_in_flight: u32,
    pub rate_limit_per_minute: u32,
    pub rate_limit_user_per_minute: u32,
    pub rate_limit_ip_per_minute: u32,
    pub rate_limit_allow_users: Vec<String>,
    pub rate_limit_allow_ips: Vec<String>,
    pub rate_limit_block_users: Vec<String>,
    pub rate_limit_block_ips: Vec<String>,
    pub job_workers: u32,
    pub job_poll_interval_ms: u64,
    pub job_max_attempts: u32,
    pub job_retention_hours: u64,
    pub job_cleanup_interval_secs: u64,
    pub job_running_timeout_secs: u64,
}

/// The `bangumi` settings.
#[derive(Debug, Clone)]
pub struct BangumiConfig {
    pub access_token: Option<String>,
    pub user_agent: String,
}

/// The `logging` settings.
#[derive(Debug, Clone)]
pub struct LoggingConfig {
    pub enabled: bool,
    pub path: String,
    pub level: String,
    pub max_total_mb: u64,
}

/// The `qbittorrent` settings.
#[derive(Debug, Clone)]
pub struct QbittorrentConfig {
    pub base_url: String,
    pub username: Option<String>,
    pub password: Option<String>,
    pub download_dir: Option<String>,
}

/// The whole configuration.
#[derive(Debug, Clone)]
pub struct AppConfig {
    pub media: MediaConfig,
    pub hls: HlsConfig,
    pub db: DbConfig,
    pub auth: AuthConfig,
    pub server: ServerConfig,
    pub bangumi: BangumiConfig,
    pub logging: LoggingConfig,
    pub qbittorrent: QbittorrentConfig,
}

/// The `[media]` table of a configuration file; every key is optional.
#[derive(Debug, Clone)]
pub struct MediaConfigFile {
    pub media_dir: Option<String>,
    pub cache_dir: Option<String>,
}

/// The `[hls]` table of a configuration file; every key is optional.
#[derive(Debug, Clone)]
pub struct HlsConfigFile {
    pub ffmpeg_path: Option<String>,
    pub segment_secs: Option<u32>,
    pub playlist_len: Option<u32>,
    pub lock_timeout_secs: Option<u64>,
    pub transcode: Option<bool>,
}

/// The `[db]` table of a configuration file; every key is optional.
#[derive(Debug, Clone)]
pub struct DbConfigFile {
    pub database_url: Option<String>,
    pub max_connections: Option<u32>,
}

/// The `[auth]` table of a configuration file; every key is optional.
#[derive(Debug, Clone)]
pub struct AuthConfigFile {
    pub jwt_secret: Option<String>,
    pub token_ttl_secs: Option<u64>,
    pub admin_user: Option<String>,
    pub admin_password: Option<String>,
    pub invite_code: Option<String>,
}

/// The `[server]` table of a configuration file; every key is optional.
#[derive(Debug, Clone)]
pub struct ServerConfigFile {
    pub bind: Option<String>,
    pub max_scan_concurrency: Option<u32>,
    pub max_hls_concurrency: Option<u32>,
    pub max_in_flight: Option<u32>,
    pub rate_limit_per_minute: Option<u32>,
    pub rate_limit_user_per_minute: Option<u32>,
    pub rate_limit_ip_per_minute: Option<u32>,
    pub rate_limit_allow_users: Option<Vec<String>>,
    pub rate_limit_allow_ips: Option<Vec<String>>,
    pub rate_limit_block_users: Option<Vec<String>>,
    pub rate_limit_block_ips: Option<Vec<String>>,
    pub job_workers: Option<u32>,
    pub job_poll_interval_ms: Option<u64>,
    pub job_max_attempts: Option<u32>,
    pub job_retention_hours: Option<u64>,
    pub job_cleanup_interval_secs: Option<u64>,
    pub job_running_timeout_secs: Option<u64>,
}

/// The `[bangumi]` table of a configuration file; every key is optional.
#[derive(Debug, Clone)]
pub struct BangumiConfigFile {
    pub access_token: Option<String>,
    pub user_agent: Option<String>,
}

/// The `[logging]` table of a configuration file; every key is optional.
#[derive(Debug, Clone)]
pub struct LoggingConfigFile {
    pub enabled: Option<bool>,
    pub path: Option<String>,
    pub level: Option<String>,
    pub max_total_mb: Option<u64>,
}

/// The `[qbittorrent]` table of a configuration file; every key is optional.
#[derive(Debug, Clone)]
pub struct QbittorrentConfigFile {
    pub base_url: Option<String>,
    pub username: Option<String>,
    pub password: Option<String>,
    pub download_dir: Option<String>,
}

/// A configuration file: every table is optional.
#[derive(Debug, Clone)]
pub struct FileConfig {
    pub media: Option<MediaConfigFile>,
    pub hls: Option<HlsConfigFile>,
    pub db: Option<DbConfigFile>,
    pub auth: Option<AuthConfigFile>,
    pub server: Option<ServerConfigFile>,
    pub bangumi: Option<BangumiConfigFile>,
    pub logging: Option<LoggingConfigFile>,
    pub qbittorrent: Option<QbittorrentConfigFile>,
}

pub open spec fn base_view(b: Option<&str>) -> Option<Seq<char>> {
    match b {
        Some(s) => Some(s@),
        None => None,
    }
}

/// A leading `~` read as the home directory, when one is known.
pub open spec fn expand(path: Seq<char>, home: Option<Seq<char>>) -> Seq<char> {
    if path == "~"@ && home is Some {
        home->0
    } else if starts_with(path, "~/"@) && home is Some {
        join(home->0, path.subrange(2, path.len() as int))
    } else {
        path
    }
}

/// A configured path: `~` expanded, then a relative path taken from `base`.
pub open spec fn resolve(base: Option<Seq<char>>, path: Seq<char>, home: Option<Seq<char>>) -> Seq<char> {
    let e = expand(path, home);
    if !(e.len() > 0 && e[0] == '/') && base is Some {
        join(base->0, e)
    } else {
        e
    }
}

pub fn expand_tilde(path: &str, home: Option<&str>) -> (r: String)
    ensures
        r@ == expand(path@, base_view(home)),
{
    let p = chars_of(path);
    match home {
        Some(h) => {
            if chars_eq(&p, &chars_of("~")) {
                return h.to_string();
            }
            if crate::text::chars_start_with(&p, &chars_of("~/")) {
                proof { reveal_strlit("~/"); }
                let mut rest: Vec<char> = Vec::new();
                let mut k: usize = 2;
                while k < p.len()
                    invariant
                        2 <= k <= p@.len(),
                        rest@ == p@.subrange(2, k as int),
                    decreases p.len() - k,
                {
                    rest.push(p[k]);
                    k = k + 1;
                    assert(rest@ =~= p@.subrange(2, k as int));
                }
                let rs = string_of(&rest);
                return join_path(h, rs.as_str());
            }
            path.to_string()
        },
        None => path.to_string(),
    }
}

/// Resolves a configured path against `base_dir` after expanding `~`.
pub fn resolve_path(base_dir: Option<&str>, path: &str, home: Option<&str>) -> (r: String)
    ensures
        r@ == resolve(base_view(base_dir), path@, base_view(home)),
{
    let e = expand_tilde(path, home);
    let ec = chars_of(e.as_str());
    let absolute = ec.len() > 0 && ec[0] == '/';
    match base_dir {
        Some(b) => if !absolute { join_path(b, e.as_str()) } else { e },
        None => e,
    }
}

/// `n` is `o` with the `[media]` table of a file applied.
pub open spec fn media_applied(o: MediaConfig, n: MediaConfig, file: Option<MediaConfigFile>, base_dir: Option<&str>, home: Option<&str>) -> bool {
    &&& opt_str(n.media_dir) == if file is Some && file->0.media_dir is Some {
        Some(resolve(base_view(base_dir), file->0.media_dir->0@, base_view(home)))
    } else {
        opt_str(o.media_dir)
    }
    &&& n.cache_dir@ == if file is Some && file->0.cache_dir is Some {
        resolve(base_view(base_dir), file->0.cache_dir->0@, base_view(home))
    } else {
        o.cache_dir@
    }
}

impl MediaConfig {
    /// Applies the `[media]` table of a configuration file.
    pub fn apply(&mut self, file: Option<MediaConfigFile>, base_dir: Option<&str>, home: Option<&str>)
        ensures
            media_applied(*old(self), *final(self), file, base_dir, home),
    {
        match file {
            Some(sec) => {
                match sec.media_dir {
                    Some(v) => {
                        self.media_dir = Some(resolve_path(base_dir, v.as_str(), home));
                    },
                    None => {},
                }
                match sec.cache_dir {
                    Some(v) => {
                        self.cache_dir = resolve_path(base_dir, v.as_str(), home);
                    },
                    None => {},
                }
            },
            None => {},
        }
    }
}

/// `n` is `o` with the `[hls]` table of a file applied.
pub open spec fn hls_applied(o: HlsConfig, n: HlsConfig, file: Option<HlsConfigFile>, base_dir: Option<&str>, home: Option<&str>) -> bool {
    &&& n.ffmpeg_path@ == if file is Some && file->0.ffmpeg_path is Some {
        file->0.ffmpeg_path->0@
    } else {
        o.ffmpeg_path@
    }
    &&& n.segment_secs == if file is Some && file->0.segment_secs is Some {
        file->0.segment_secs->0
    } else {
        o.segment_secs
    }
    &&& n.playlist_len == if file is Some && file->0.playlist_len is Some {
        file->0.playlist_len->0
    } else {
        o.playlist_len
    }
    &&& n.lock_timeout_secs == if file is Some && file->0.lock_timeout_secs is Some {
        file->0.lock_timeout_secs->0
    } else {
        o.lock_timeout_secs
    }
    &&& n.transcode == if file is Some && file->0.transcode is Some {
        file->0.transcode->0
    } else {
        o.transcode
    }
}

impl HlsConfig {
    /// Applies the `[hls]` table of a configuration file.
    pub fn apply(&mut self, file: Option<HlsConfigFile>, base_dir: Option<&str>, home: Option<&str>)
        ensures
            hls_applied(*old(self), *final(self), file, base_dir, home),
    {
        match file {
            Some(sec) => {
                match sec.ffmpeg_path {
                    Some(v) => {
                        self.ffmpeg_path = v;
                    },
                    None => {},
                }
                match sec.segment_secs {
                    Some(v) => {
                        self.segment_secs = v;
                    },
                    None => {},
                }
                match sec.playlist_len {
                    Some(v) => {
                        self.playlist_len = v;
                    },
                    None => {},
                }
                match sec.lock_timeout_secs {
                    Some(v) => {
                        self.lock_timeout_secs = v;
                    },
                    None => {},
                }
                match sec.transcode {
                    Some(v) => {
                        self.transcode = v;
                    },
                    None => {},
                }
            },
            None => {},
        }
    }
}

/// `n` is `o` with the `[db]` table of a file applied.
pub open spec fn db_applied(o: DbConfig, n: DbConfig, file: Option<DbConfigFile>, base_dir: Option<&str>, home: Option<&str>) -> bool {
    &&& opt_str(n.database_url) == if file is Some && file->0.database_url is Some {
        Some(file->0.database_url->0@)
    } else {
        opt_str(o.database_url)
    }
    &&& n.max_connections == if file is Some && file->0.max_connections is Some {
        file->0.max_connections->0
    } else {
        o.max_connections
    }
}

impl DbConfig {
    /// Applies the `[db]` table of a configuration file.
    pub fn apply(&mut self, file: Option<DbConfigFile>, base_dir: Option<&str>, home: Option<&str>)
        ensures
            db_applied(*old(self), *final(self), file, base_dir, home),
    {
        match file {
            Some(sec) => {
                match sec.database_url {
                    Some(v) => {
                        self.database_url = Some(v);
                    },
                    None => {},
                }
                match sec.max_connections {
                    Some(v) => {
                        self.max_connections = v;
                    },
                    None => {},
                }
            },
            None => {},
        }
    }
}

/// `n` is `o` with the `[auth]` table of a file applied.
pub open spec fn auth_applied(o: AuthConfig, n: AuthConfig, file: Option<AuthConfigFile>, base_dir: Option<&str>, home: Option<&str>) -> bool {
    &&& n.jwt_secret@ == if file is Some && file->0.jwt_secret is Some {
        file->0.jwt_secret->0@
    } else {
        o.jwt_secret@
    }
    &&& n.token_ttl_secs == if file is Some && file->0.token_ttl_secs is Some {
        file->0.token_ttl_secs->0
    } else {
        o.token_ttl_secs
    }
    &&& n.admin_user@ == if file is Some && file->0.admin_user is Some {
        file->0.admin_user->0@
    } else {
        o.admin_user@
    }
    &&& n.admin_password@ == if file is Some && file->0.admin_password is Some {
        file->0.admin_password->0@
    } else {
        o.admin_password@
    }
    &&& n.invite_code@ == if file is Some && file->0.invite_code is Some {
        file->0.invite_code->0@
    } else {
        o.invite_code@
    }
}

impl AuthConfig {
    /// Applies the `[auth]` table of a configuration file.
    pub fn apply(&mut self, file: Option<AuthConfigFile>, base_dir: Option<&str>, home: Option<&str>)
        ensures
            auth_applied(*old(self), *final(self), file, base_dir, home),
    {
        match file {
            Some(sec) => {
                match sec.jwt_secret {
                    Some(v) => {
                        self.jwt_secret = v;
                    },
                    None => {},
                }
                match sec.token_ttl_secs {
                    Some(v) => {
                        self.token_ttl_secs = v;
                    },
                    None => {},
                }
                match sec.admin_user {
                    Some(v) => {
                        self.admin_user = v;
                    },
                    None => {},
                }
                match sec.admin_password {
                    Some(v) => {
                        self.admin_password = v;
                    },
                    None => {},
                }
                match sec.invite_code {
                    Some(v) => {
                        self.invite_code = v;
                    },
                    None => {},
                }
            },
            None => {},
        }
    }
}

/// `n` is `o` with the `[server]` table of a file applied.
pub open spec fn server_applied(o: ServerConfig, n: ServerConfig, file: Option<ServerConfigFile>, base_dir: Option<&str>, home: Option<&str>) -> bool {
    &&& n.bind@ == if file is Some && file->0.bind is Some {
        file->0.bind->0@
    } else {
        o.bind@
    }
    &&& n.max_scan_concurrency == if file is Some && file->0.max_scan_concurrency is Some {
        file->0.max_scan_concurrency->0
    } else {
        o.max_scan_concurrency
    }
    &&& n.max_hls_concurrency == if file is Some && file->0.max_hls_concurrency is Some {
        file->0.max_hls_concurrency->0
    } else {
        o.max_hls_concurrency
    }
    &&& n.max_in_flight == if file is Some && file->0.max_in_flight is Some {
        file->0.max_in_flight->0
    } else {
        o.max_in_flight
    }
    &&& n.rate_limit_per_minute == if file is Some && file->0.rate_limit_per_minute is Some {
        file->0.rate_limit_per_minute->0
    } else {
        o.rate_limit_per_minute
    }
    &&& n.rate_limit_user_per_minute == if file is Some && file->0.rate_limit_user_per_minute is Some {
        file->0.rate_limit_user_per_minute->0
    } else {
        o.rate_limit_user_per_minute
    }
    &&& n.rate_limit_ip_per_minute == if file is Some && file->0.rate_limit_ip_per_minute is Some {
        file->0.rate_limit_ip_per_minute->0
    } else {
        o.rate_limit_ip_per_minute
    }
    &&& string_views(n.rate_limit_allow_users@) == if file is Some && file->0.rate_limit_allow_users is Some {
        string_views(file->0.rate_limit_allow_users->0@)
    } else {
        string_views(o.rate_limit_allow_users@)
    }
    &&& string_views(n.rate_limit_allow_ips@) == if file is Some && file->0.rate_limit_allow_ips is Some {
        string_views(file->0.rate_limit_allow_ips->0@)
    } else {
        string_views(o.rate_limit_allow_ips@)
    }
    &&& string_views(n.rate_limit_block_users@) == if file is Some && file->0.rate_limit_block_users is Some {
        string_views(file->0.rate_limit_block_users->0@)
    } else {
        string_views(o.rate_limit_block_users@)
    }
    &&& string_views(n.rate_limit_block_ips@) == if file is Some && file->0.rate_limit_block_ips is Some {
        string_views(file->0.rate_limit_block_ips->0@)
    } else {
        string_views(o.rate_limit_block_ips@)
    }
    &&& n.job_workers == if file is Some && file->0.job_workers is Some {
        file->0.job_workers->0
    } else {
        o.job_workers
    }
    &&& n.job_poll_interval_ms == if file is Some && file->0.job_poll_interval_ms is Some {
        file->0.job_poll_interval_ms->0
    } else {
        o.job_poll_interval_ms
    }
    &&& n.job_max_attempts == if file is Some && file->0.job_max_attempts is Some {
        file->0.job_max_attempts->0
    } else {
        o.job_max_attempts
    }
    &&& n.job_retention_hours == if file is Some && file->0.job_retention_hours is Some {
        file->0.job_retention_hours->0
    } else {
        o.job_retention_hours
    }
    &&& n.job_cleanup_interval_secs == if file is Some && file->0.job_cleanup_interval_secs is Some {
        file->0.job_cleanup_interval_secs->0
    } else {
        o.job_cleanup_interval_secs
    }
    &&& n.job_running_timeout_secs == if file is Some && file->0.job_running_timeout_secs is Some {
        file->0.job_running_timeout_secs->0
    } else {
        o.job_running_timeout_secs
    }
}

impl ServerConfig {
    /// Applies the `[server]` table of a configuration file.
    #[verifier::rlimit(60)]
    pub fn apply(&mut self, file: Option<ServerConfigFile>, base_dir: Option<&str>, home: Option<&str>)
        ensures
            server_applied(*old(self), *final(self), file, base_dir, home),
    {
        match file {
            Some(sec) => {
                match sec.bind {
                    Some(v) => {
                        self.bind = v;
                    },
                    None => {},
                }
                match sec.max_scan_concurrency {
                    Some(v) => {
                        self.max_scan_concurrency = v;
                    },
                    None => {},
                }
                match sec.max_hls_concurrency {
                    Some(v) => {
                        self.max_hls_concurrency = v;
                    },
                    None => {},
                }
                match sec.max_in_flight {
                    Some(v) => {
                        self.max_in_flight = v;
                    },
                    None => {},
                }
                match sec.rate_limit_per_minute {
                    Some(v) => {
                        self.rate_limit_per_minute = v;
                    },
                    None => {},
                }
                match sec.rate_limit_user_per_minute {
                    Some(v) => {
                        self.rate_limit_user_per_minute = v;
                    },
                    None => {},
                }
                match sec.rate_limit_ip_per_minute {
                    Some(v) => {
                        self.rate_limit_ip_per_minute = v;
                    },
                    None => {},
                }
                match sec.rate_limit_allow_users {
                    Some(v) => {
                        self.rate_limit_allow_users = v;
                    },
                    None => {},
                }
                match sec.rate_limit_allow_ips {
                    Some(v) => {
                        self.rate_limit_allow_ips = v;
                    },
                    None => {},
                }
                match sec.rate_limit_block_users {
                    Some(v) => {
                        self.rate_limit_block_users = v;
                    },
                    None => {},
                }
                match sec.rate_limit_block_ips {
                    Some(v) => {
                        self.rate_limit_block_ips = v;
                    },
                    None => {},
                }
                match sec.job_workers {
                    Some(v) => {
                        self.job_workers = v;
                    },
                    None => {},
                }
                match sec.job_poll_interval_ms {
                    Some(v) => {
                        self.job_poll_interval_ms = v;
                    },
                    None => {},
                }
                match sec.job_max_attempts {
                    Some(v) => {
                        self.job_max_attempts = v;
                    },
                    None => {},
                }
                match sec.job_retention_hours {
                    Some(v) => {
                        self.job_retention_hours = v;
                    },
                    None => {},
                }
                match sec.job_cleanup_interval_secs {
                    Some(v) => {
                        self.job_cleanup_interval_secs = v;
                    },
                    None => {},
                }
                match sec.job_running_timeout_secs {
                    Some(v) => {
                        self.job_running_timeout_secs = v;
                    },
                    None => {},
                }
            },
            None => {},
        }
    }
}

/// `n` is `o` with the `[bangumi]` table of a file applied.
pub open spec fn bangumi_applied(o: BangumiConfig, n: BangumiConfig, file: Option<BangumiConfigFile>, base_dir: Option<&str>, home: Option<&str>) -> bool {
    &&& opt_str(n.access_token) == if file is Some && file->0.access_token is Some {
        Some(file->0.access_token->0@)
    } else {
        opt_str(o.access_token)
    }
    &&& n.user_agent@ == if file is Some && file->0.user_agent is Some {
        file->0.user_agent->0@
    } else {
        o.user_agent@
    }
}

impl BangumiConfig {
    /// Applies the `[bangumi]` table of a configuration file.
    pub fn apply(&mut self, file: Option<BangumiConfigFile>, base_dir: Option<&str>, home: Option<&str>)
        ensures
            bangumi_applied(*old(self), *final(self), file, base_dir, home),
    {
        match file {
            Some(sec) => {
                match sec.access_token {
                    Some(v) => {
                        self.access_token = Some(v);
                    },
                    None => {},
                }
                match sec.user_agent {
                    Some(v) => {
                        self.user_agent = v;
                    },
                    None => {},
                }
            },
            None => {},
        }
    }
}

/// `n` is `o` with the `[logging]` table of a file applied.
pub open spec fn logging_applied(o: LoggingConfig, n: LoggingConfig, file: Option<LoggingConfigFile>, base_dir: Option<&str>, home: Option<&str>) -> bool {
    &&& n.enabled == if file is Some && file->0.enabled is Some {
        file->0.enabled->0
    } else {
        o.enabled
    }
    &&& n.path@ == if file is Some && file->0.path is Some {
        resolve(base_view(base_dir), file->0.path->0@, base_view(home))
    } else {
        o.path@
    }
    &&& n.level@ == if file is Some && file->0.level is Some {
        file->0.level->0@
    } else {
        o.level@
    }
    &&& n.max_total_mb == if file is Some && file->0.max_total_mb is Some {
        file->0.max_total_mb->0
    } else {
        o.max_total_mb
    }
}

impl LoggingConfig {
    /// Applies the `[logging]` table of a configuration file.
    pub fn apply(&mut self, file: Option<LoggingConfigFile>, base_dir: Option<&str>, home: Option<&str>)
        ensures
            logging_applied(*old(self), *final(self), file, base_dir, home),
    {
        match file {
            Some(sec) => {
                match sec.enabled {
                    Some(v) => {
                        self.enabled = v;
                    },
                    None => {},
                }
                match sec.path {
                    Some(v) => {
                        self.path = resolve_path(base_dir, v.as_str(), home);
                    },
                    None => {},
                }
                match sec.level {
                    Some(v) => {
                        self.level = v;
                    },
                    None => {},
                }
                match sec.max_total_mb {
                    Some(v) => {
                        self.max_total_mb = v;
                    },
                    None => {},
                }
            },
            None => {},
        }
    }
}

/// `n` is `o` with the `[qbittorrent]` table of a file applied.
pub open spec fn qbittorrent_applied(o: QbittorrentConfig, n: QbittorrentConfig, file: Option<QbittorrentConfigFile>, base_dir: Option<&str>, home: Option<&str>) -> bool {
    &&& n.base_url@ == if file is Some && file->0.base_url is Some {
        file->0.base_url->0@
    } else {
        o.base_url@
    }
    &&& opt_str(n.username) == if file is Some && file->0.username is Some {
        Some(file->0.username->0@)
    } else {
        opt_str(o.username)
    }
    &&& opt_str(n.password) == if file is Some && file->0.password is Some {
        Some(file->0.password->0@)
    } else {
        opt_str(o.password)
    }
    &&& opt_str(n.download_dir) == if file is Some && file->0.download_dir is Some {
        Some(resolve(base_view(base_dir), file->0.download_dir->0@, base_view(home)))
    } else {
        opt_str(o.download_dir)
    }
}

impl QbittorrentConfig {
    /// Applies the `[qbittorrent]` table of a configuration file.
    pub fn apply(&mut self, file: Option<QbittorrentConfigFile>, base_dir: Option<&str>, home: Option<&str>)
        ensures
            qbittorrent_applied(*old(self), *final(self), file, base_dir, home),
    {
        match file {
            Some(sec) => {
                match sec.base_url {
                    Some(v) => {
                        self.base_url = v;
                    },
                    None => {},
                }
                match sec.username {
                    Some(v) => {
                        self.username = Some(v);
                    },
                    None => {},
                }
                match sec.password {
                    Some(v) => {
                        self.password = Some(v);
                    },
                    None => {},
                }
                match sec.download_dir {
                    Some(v) => {
                        self.download_dir = Some(resolve_path(base_dir, v.as_str(), home));
                    },
                    None => {},
                }
            },
            None => {},
        }
    }
}

impl AppConfig {
    /// Overrides every setting that the file gives; paths are resolved
    /// against the file's directory.
    pub fn apply_file(&mut self, file: FileConfig, base_dir: Option<&str>, home: Option<&str>)
        ensures
            media_applied(old(self).media, final(self).media, file.media, base_dir, home),
            hls_applied(old(self).hls, final(self).hls, file.hls, base_dir, home),
            db_applied(old(self).db, final(self).db, file.db, base_dir, home),
            auth_applied(old(self).auth, final(self).auth, file.auth, base_dir, home),
            server_applied(old(self).server, final(self).server, file.server, base_dir, home),
            bangumi_applied(old(self).bangumi, final(self).bangumi, file.bangumi, base_dir, home),
            logging_applied(old(self).logging, final(self).logging, file.logging, base_dir, home),
            qbittorrent_applied(old(self).qbittorrent, final(self).qbittorrent, file.qbittorrent, base_dir, home),
    {
        self.media.apply(file.media, base_dir, home);
        self.hls.apply(file.hls, base_dir, home);
        self.db.apply(file.db, base_dir, home);
        self.auth.apply(file.auth, base_dir, home);
        self.server.apply(file.server, base_dir, home);
        self.bangumi.apply(file.bangumi, base_dir, home);
        self.logging.apply(file.logging, base_dir, home);
        self.qbittorrent.apply(file.qbittorrent, base_dir, home);
    }
}

impl MediaConfig {
    /// The media directory, which must be configured.
    pub fn require_media_dir(&self) -> (r: Result<String, ConfigError>)
        ensures
            match self.media_dir {
                Some(d) => r is Ok && r->Ok_0 == d,
                None => r matches Err(ConfigError::MissingValue(m)) && m@ == "media.media_dir"@,
            },
    {
        match &self.media_dir {
            Some(d) => Ok(d.clone()),
            None => Err(ConfigError::MissingValue("media.media_dir".to_string())),
        }
    }
}

impl DbConfig {
    /// The database URL, which must be configured.
    pub fn require_database_url(&self) -> (r: Result<String, ConfigError>)
        ensures
            match self.database_url {
                Some(d) => r is Ok && r->Ok_0 == d,
                None => r matches Err(ConfigError::MissingValue(m)) && m@ == "db.database_url"@,
            },
    {
        match &self.database_url {
            Some(d) => Ok(d.clone()),
            None => Err(ConfigError::MissingValue("db.database_url".to_string())),
        }
    }
}

/// The first rule a configuration breaks, as its message, if any. The media
/// directory itself is checked on disk by the caller.
pub open spec fn validation_error(c: AppConfig) -> Option<Seq<char>> {
    if c.media.media_dir is None {
        Some("media.media_dir"@)
    } else if c.db.max_connections == 0 {
        Some("db.max_connections must be > 0"@)
    } else if c.server.max_scan_concurrency == 0 {
        Some("server.max_scan_concurrency must be > 0"@)
    } else if c.server.max_hls_concurrency == 0 {
        Some("server.max_hls_concurrency must be > 0"@)
    } else if c.server.job_workers == 0 {
        Some("server.job_workers must be > 0"@)
    } else if c.server.job_poll_interval_ms == 0 {
        Some("server.job_poll_interval_ms must be > 0"@)
    } else if c.server.job_max_attempts == 0 {
        Some("server.job_max_attempts must be > 0"@)
    } else if (c.server.job_retention_hours > 0 || c.server.job_running_timeout_secs > 0)
        && c.server.job_cleanup_interval_secs == 0 {
        Some("server.job_cleanup_interval_secs must be > 0 when cleanup is enabled"@)
    } else if c.server.job_running_timeout_secs == 0 {
        Some("server.job_running_timeout_secs must be > 0"@)
    } else {
        None
    }
}

impl AppConfig {
    /// Checks the settings' ranges. A missing media directory is a missing
    /// value; every other rule is an invalid value.
    pub fn validate(&self) -> (r: Result<(), ConfigError>)
        ensures
            match validation_error(*self) {
                None => r is Ok,
                Some(m) => if self.media.media_dir is None {
                    r matches Err(ConfigError::MissingValue(x)) && x@ == m
                } else {
                    r matches Err(ConfigError::InvalidValue(x)) && x@ == m
                },
            },
    {
        if self.media.media_dir.is_none() {
            return Err(ConfigError::MissingValue("media.media_dir".to_string()));
        }
        if self.db.max_connections == 0 {
            return Err(ConfigError::InvalidValue("db.max_connections must be > 0".to_string()));
        }
        if self.server.max_scan_concurrency == 0 {
            return Err(ConfigError::InvalidValue("server.max_scan_concurrency must be > 0".to_string()));
        }
        if self.server.max_hls_concurrency == 0 {
            return Err(ConfigError::InvalidValue("server.max_hls_concurrency must be > 0".to_string()));
        }
        if self.server.job_workers == 0 {
            return Err(ConfigError::InvalidValue("server.job_workers must be > 0".to_string()));
        }
        if self.server.job_poll_interval_ms == 0 {
            return Err(ConfigError::InvalidValue("server.job_poll_interval_ms must be > 0".to_string()));
        }
        if self.server.job_max_attempts == 0 {
            return Err(ConfigError::InvalidValue("server.job_max_attempts must be > 0".to_string()));
        }
        if (self.server.job_retention_hours > 0 || self.server.job_running_timeout_secs > 0)
            && self.server.job_cleanup_interval_secs == 0 {
            return Err(
                ConfigError::InvalidValue(
                    "server.job_cleanup_interval_secs must be > 0 when cleanup is enabled".to_string(),
                ),
            );
        }
        if self.server.job_running_timeout_secs == 0 {
            return Err(ConfigError::InvalidValue("server.job_running_timeout_secs must be > 0".to_string()));
        }
        Ok(())
    }

    /// A single general rate limit applies to users and addresses alike when
    /// neither has a limit of its own.
    pub fn normalize(&mut self)
        ensures
            ({
                let o = old(self).server;
                let n = final(self).server;
                if o.rate_limit_user_per_minute == 0 && o.rate_limit_ip_per_minute == 0
                    && o.rate_limit_per_minute > 0 {
                    n.rate_limit_user_per_minute == o.rate_limit_per_minute
                        && n.rate_limit_ip_per_minute == o.rate_limit_per_minute
                } else {
                    n.rate_limit_user_per_minute == o.rate_limit_user_per_minute
                        && n.rate_limit_ip_per_minute == o.rate_limit_ip_per_minute
                }
            }),
            final(self).server.rate_limit_per_minute == old(self).server.rate_limit_per_minute,
            final(self).media == old(self).media,
            final(self).hls == old(self).hls,
            final(self).db == old(self).db,
            final(self).auth == old(self).auth,
            final(self).bangumi == old(self).bangumi,
            final(self).logging == old(self).logging,
            final(self).qbittorrent == old(self).qbittorrent,
    {
        if self.server.rate_limit_user_per_minute == 0 && self.server.rate_limit_ip_per_minute == 0
            && self.server.rate_limit_per_minute > 0 {
            self.server.rate_limit_user_per_minute = self.server.rate_limit_per_minute;
            self.server.rate_limit_ip_per_minute = self.server.rate_limit_per_minute;
        }
    }
}

/// A directory under the home directory, or the fallback when none is known.
pub open spec fn under_home(home: Option<Seq<char>>, rel: Seq<char>, fallback: Seq<char>) -> Seq<char> {
    match home {
        Some(h) => join(h, rel),
        None => fallback,
    }
}

fn home_or(home: Option<&str>, rel: &str, fallback: &str) -> (r: String)
    ensures
        r@ == under_home(base_view(home), rel@, fallback@),
{
    match home {
        Some(h) => join_path(h, rel),
        None => fallback.to_string(),
    }
}

pub fn default_log_path(home: Option<&str>) -> (r: String)
    ensures
        r@ == under_home(base_view(home), ".cache/anicargo/logs"@, ".cache/anicargo/logs"@),
{
    home_or(home, ".cache/anicargo/logs", ".cache/anicargo/logs")
}

pub fn default_media_dir(home: Option<&str>) -> (r: String)
    ensures
        r@ == under_home(base_view(home), ".local/share/anicargo/media"@, "media"@),
{
    home_or(home, ".local/share/anicargo/media", "media")
}

pub fn default_cache_dir(home: Option<&str>) -> (r: String)
    ensures
        r@ == under_home(base_view(home), ".cache/anicargo"@, ".cache/anicargo"@),
{
    home_or(home, ".cache/anicargo", ".cache/anicargo")
}

pub fn default_user_agent() -> (r: String)
    ensures
        r@ == "Anicargo/0.1"@,
{
    "Anicargo/0.1".to_string()
}

impl AppConfig {
    /// The built-in configuration, with directories under `home`.
    pub fn defaults(home: Option<&str>) -> (r: AppConfig)
        ensures
            opt_str(r.media.media_dir) == Some(under_home(base_view(home), ".local/share/anicargo/media"@, "media"@)),
            r.media.cache_dir@ == under_home(base_view(home), ".cache/anicargo"@, ".cache/anicargo"@),
            r.hls.ffmpeg_path@ == "ffmpeg"@,
            r.hls.segment_secs == 6 && r.hls.playlist_len == 0 && r.hls.lock_timeout_secs == 3600,
            !r.hls.transcode,
            r.db.database_url is None && r.db.max_connections == 5,
            r.auth.token_ttl_secs == 3600,
            r.auth.admin_user@ == "admin"@,
            r.server.bind@ == "0.0.0.0:3000"@,
            r.server.max_scan_concurrency == 1 && r.server.max_hls_concurrency == 2,
            r.server.max_in_flight == 256,
            r.server.rate_limit_per_minute == 0 && r.server.rate_limit_user_per_minute == 0
                && r.server.rate_limit_ip_per_minute == 0,
            r.server.rate_limit_allow_users@.len() == 0 && r.server.rate_limit_allow_ips@.len() == 0,
            r.server.rate_limit_block_users@.len() == 0 && r.server.rate_limit_block_ips@.len() == 0,
            r.server.job_workers == 2 && r.server.job_poll_interval_ms == 500,
            r.server.job_max_attempts == 3 && r.server.job_retention_hours == 168,
            r.server.job_cleanup_interval_secs == 3600 && r.server.job_running_timeout_secs == 3600,
            r.bangumi.access_token is None && r.bangumi.user_agent@ == "Anicargo/0.1"@,
            !r.logging.enabled && r.logging.level@ == "info"@ && r.logging.max_total_mb == 200,
            r.logging.path@ == under_home(base_view(home), ".cache/anicargo/logs"@, ".cache/anicargo/logs"@),
            r.qbittorrent.base_url@ == "http://127.0.0.1:8080"@,
            r.qbittorrent.username is None && r.qbittorrent.password is None,
            r.qbittorrent.download_dir is None,
    {
        AppConfig {
            media: MediaConfig { media_dir: Some(default_media_dir(home)), cache_dir: default_cache_dir(home) },
            hls: HlsConfig {
                ffmpeg_path: "ffmpeg".to_string(),
                segment_secs: 6,
                playlist_len: 0,
                lock_timeout_secs: 3600,
                transcode: false,
            },
            db: DbConfig { database_url: None, max_connections: 5 },
            auth: AuthConfig {
                jwt_secret: "dev-secret".to_string(),
                token_ttl_secs: 3600,
                admin_user: "admin".to_string(),
                admin_password: "adminpwd".to_string(),
                invite_code: "invitecode".to_string(),
            },
            server: ServerConfig {
                bind: "0.0.0.0:3000".to_string(),
                max_scan_concurrency: 1,
                max_hls_concurrency: 2,
                max_in_flight: 256,
                rate_limit_per_minute: 0,
                rate_limit_user_per_minute: 0,
                rate_limit_ip_per_minute: 0,
                rate_limit_allow_users: Vec::new(),
                rate_limit_allow_ips: Vec::new(),
                rate_limit_block_users: Vec::new(),
                rate_limit_block_ips: Vec::new(),
                job_workers: 2,
                job_poll_interval_ms: 500,
                job_max_attempts: 3,
                job_retention_hours: 168,
                job_cleanup_interval_secs: 3600,
                job_running_timeout_secs: 3600,
            },
            bangumi: BangumiConfig { access_token: None, user_agent: default_user_agent() },
            logging: LoggingConfig {
                enabled: false,
                path: default_log_path(home),
                level: "info".to_string(),
                max_total_mb: 200,
            },
            qbittorrent: QbittorrentConfig {
                base_url: "http://127.0.0.1:8080".to_string(),
                username: None,
                password: None,
                download_dir: None,
            },
        }
    }
}

/// The value of the first of `keys` that the environment defines.
pub open spec fn env_lookup(env: Seq<(String, String)>, keys: Seq<Seq<char>>) -> Option<Seq<char>>
    decreases keys.len(),
{
    if keys.len() == 0 {
        None
    } else if exists|i: int| 0 <= i < env.len() && (#[trigger] env[i]).0@ == keys[0] {
        let i = choose|i: int|
            0 <= i < env.len() && env[i].0@ == keys[0] && forall|j: int| 0 <= j < i ==> (#[trigger] env[j]).0@ != keys[0];
        Some(env[i].1@)
    } else {
        env_lookup(env, keys.drop_first())
    }
}

fn env_get(env: &Vec<(String, String)>, key: &str) -> (r: Option<String>)
    ensures
        match r {
            Some(v) => exists|i: int|
                0 <= i < env@.len() && env@[i].0@ == key@ && v == env@[i].1 && forall|j: int|
                    0 <= j < i ==> (#[trigger] env@[j]).0@ != key@,
            None => forall|i: int| 0 <= i < env@.len() ==> (#[trigger] env@[i]).0@ != key@,
        },
{
    let kc = chars_of(key);
    let mut i: usize = 0;
    while i < env.len()
        invariant
            kc@ == key@,
            i <= env@.len(),
            forall|j: int| 0 <= j < i ==> (#[trigger] env@[j]).0@ != key@,
        decreases env.len() - i,
    {
        if chars_eq(&chars_of(env[i].0.as_str()), &kc) {
            return Some(env[i].1.clone());
        }
        i = i + 1;
    }
    None
}

/// Looks up the first of several environment variables that is set.
pub fn env_first(env: &Vec<(String, String)>, keys: &Vec<&str>) -> (r: Option<String>)
    ensures
        opt_str(r) == env_lookup(env@, keys@.map_values(|k: &str| k@)),
{
    let ghost ks = keys@.map_values(|k: &str| k@);
    let mut i: usize = 0;
    assert(ks.subrange(0, ks.len() as int) =~= ks);
    while i < keys.len()
        invariant
            i <= keys@.len(),
            ks == keys@.map_values(|k: &str| k@),
            env_lookup(env@, ks) == env_lookup(env@, ks.subrange(i as int, ks.len() as int)),
        decreases keys.len() - i,
    {
        let ghost rest = ks.subrange(i as int, ks.len() as int);
        assert(rest.drop_first() =~= ks.subrange(i + 1, ks.len() as int));
        assert(rest[0] == keys@[i as int]@);
        match env_get(env, keys[i]) {
            Some(v) => {
                proof {
                    let w = choose|w: int|
                        0 <= w < env@.len() && env@[w].0@ == keys@[i as int]@ && v == env@[w].1 && forall|j: int|
                            0 <= j < w ==> (#[trigger] env@[j]).0@ != keys@[i as int]@;
                    let c = choose|c: int|
                        0 <= c < env@.len() && env@[c].0@ == rest[0] && forall|j: int| 0 <= j < c ==> (#[trigger] env@[j]).0@ != rest[0];
                    if c < w {
                        assert(env@[c].0@ != keys@[i as int]@);
                    } else if w < c {
                        assert(env@[w].0@ != rest[0]);
                    }
                }
                return Some(v);
            },
            None => {},
        }
        i = i + 1;
    }
    assert(ks.subrange(i as int, ks.len() as int).len() == 0);
    None
}

/// How much the service logs.
#[derive(PartialEq, Eq, Structural, Clone, Copy, Debug)]
pub enum LogLevel {
    Trace,
    Debug,
    Info,
    Warn,
    Error,
}

/// The level a lowercased name selects, if any.
pub open spec fn level_word(w: Seq<char>) -> Option<LogLevel> {
    if w == "trace"@ {
        Some(LogLevel::Trace)
    } else if w == "debug"@ {
        Some(LogLevel::Debug)
    } else if w == "info"@ {
        Some(LogLevel::Info)
    } else if w == "warn"@ || w == "warning"@ {
        Some(LogLevel::Warn)
    } else if w == "error"@ {
        Some(LogLevel::Error)
    } else {
        None
    }
}

/// Reads a lowercased level name.
pub fn level_from_word(w: &Vec<char>) -> (r: Option<LogLevel>)
    ensures
        r == level_word(w@),
{
    if chars_eq(w, &chars_of("trace")) {
        Some(LogLevel::Trace)
    } else if chars_eq(w, &chars_of("debug")) {
        Some(LogLevel::Debug)
    } else if chars_eq(w, &chars_of("info")) {
        Some(LogLevel::Info)
    } else if chars_eq(w, &chars_of("warn")) || chars_eq(w, &chars_of("warning")) {
        Some(LogLevel::Warn)
    } else if chars_eq(w, &chars_of("error")) {
        Some(LogLevel::Error)
    } else {
        None
    }
}

/// Reads the logging level setting, case-insensitively.
pub fn parse_level(value: &str) -> (r: Result<LogLevel, ConfigError>)
    ensures
        match level_word(str_lower(value@)) {
            Some(l) => r == Ok::<LogLevel, ConfigError>(l),
            None => r matches Err(ConfigError::InvalidValue(m)) && m@ == "invalid log level: "@ + value@,
        },
{
    let cs = chars_of(value);
    let w = lower_chars(&cs);
    match level_from_word(&w) {
        Some(l) => Ok(l),
        None => {
            let mut m = chars_of("invalid log level: ");
            push_chars(&mut m, &cs);
            Err(ConfigError::InvalidValue(string_of(&m)))
        },
    }
}

} // verus!
