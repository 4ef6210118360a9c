use vstd::prelude::*;
use crate::text::{chars_of, string_of, trim, trimmed_chars};
use crate::media::{str_lower, lower_chars};

verus! {

/// Failures of the torrent daemon client. Outside errors carry their text.
#[derive(Debug, Clone)]
pub enum QbittorrentError {
    Http(String),
    InvalidHeader(String),
    AuthFailed(String),
    InvalidInput(String),
    Io(String),
}

/// The magnet link that is submitted: the input trimmed; a blank one is refused.
pub fn magnet_input(magnet: &str) -> (r: Result<String, QbittorrentError>)
    ensures
        trim(magnet@).len() == 0 ==> (r matches Err(QbittorrentError::InvalidInput(m)) && m@ == "magnet is empty"@),
        trim(magnet@).len() > 0 ==> r is Ok && r->Ok_0@ == trim(magnet@),
{
    let t = trimmed_chars(magnet);
    if t.len() == 0 {
        Err(QbittorrentError::InvalidInput("magnet is empty".to_string()))
    } else {
        Ok(string_of(&t))
    }
}

/// A torrent file must not be empty.
pub fn torrent_input(bytes: &Vec<u8>) -> (r: Result<(), QbittorrentError>)
    ensures
        bytes@.len() == 0 ==> (r matches Err(QbittorrentError::InvalidInput(m)) && m@ == "torrent file is empty"@),
        bytes@.len() > 0 ==> r is Ok,
{
    if bytes.len() == 0 {
        Err(QbittorrentError::InvalidInput("torrent file is empty".to_string()))
    } else {
        Ok(())
    }
}

/// A base URL without its trailing slashes.
pub open spec fn without_trailing_slashes(s: Seq<char>) -> Seq<char>
    decreases s.len(),
{
    if s.len() > 0 && s.last() == '/' {
        without_trailing_slashes(s.drop_last())
    } else {
        s
    }
}

pub fn trim_base_url(url: &str) -> (r: String)
    ensures
        r@ == without_trailing_slashes(url@),
{
    let cs = chars_of(url);
    let mut n: usize = cs.len();
    assert(cs@.subrange(0, n as int) =~= url@);
    while n > 0 && cs[n - 1] == '/'
        invariant
            cs@ == url@,
            n <= cs@.len(),
            without_trailing_slashes(url@) == without_trailing_slashes(cs@.subrange(0, n as int)),
        decreases n,
    {
        assert(cs@.subrange(0, n as int).drop_last() =~= cs@.subrange(0, n - 1));
        n = n - 1;
    }
    let mut out: Vec<char> = Vec::new();
    let mut k: usize = 0;
    while k < n
        invariant
            cs@ == url@,
            k <= n <= cs@.len(),
            out@ == cs@.subrange(0, k as int),
        decreases n - k,
    {
        out.push(cs[k]);
        k = k + 1;
        assert(out@ =~= cs@.subrange(0, k as int));
    }
    string_of(&out)
}

pub open spec fn contains_ok(s: Seq<char>) -> bool {
    exists|i: int| 0 <= i && i + 1 < s.len() && s[i] == 'o' && #[trigger] s[i + 1] == 'k'
}

/// The daemon accepted a request: a success status whose body, lowercased,
/// contains "ok".
pub fn daemon_accepted(success: bool, body: &str) -> (r: bool)
    ensures
        r == (success && contains_ok(str_lower(body@))),
{
    if !success {
        return false;
    }
    let low = lower_chars(&chars_of(body));
    let mut i: usize = 0;
    while i < low.len()
        invariant
            success,
            low@ == str_lower(body@),
            i <= low@.len(),
            forall|j: int| 0 <= j < i && j + 1 < low@.len() ==> !(low@[j] == 'o' && #[trigger] low@[j + 1] == 'k'),
        decreases low.len() - i,
    {
        if i + 1 < low.len() && low[i] == 'o' && low[i + 1] == 'k' {
            assert(low@[i as int] == 'o' && low@[i + 1] == 'k');
            assert(contains_ok(low@));
            return true;
        }
        i = i + 1;
    }
    false
}

} // verus!
