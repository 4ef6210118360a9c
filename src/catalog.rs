use vstd::prelude::*;
use crate::text::{trimmed_chars, trim, string_of};

verus! {

/// A page of catalog results.
#[derive(Debug, Clone)]
pub struct Paged<T> {
    pub total: i64,
    pub limit: i64,
    pub offset: i64,
    pub data: Vec<T>,
}

/// A catalog work (series or season). `images` holds the catalog's JSON text.
#[derive(Debug, Clone)]
pub struct Subject {
    pub id: i64,
    pub subject_type: i32,
    pub name: String,
    pub name_cn: String,
    pub summary: String,
    pub date: Option<String>,
    pub total_episodes: Option<i64>,
    pub images: Option<String>,
}

/// A catalog episode. `sort` and `ep` are counted in hundredths
/// (episode 12.5 is 1250).
#[derive(Debug, Clone)]
pub struct Episode {
    pub id: i64,
    pub episode_type: i32,
    pub name: String,
    pub name_cn: String,
    pub sort: i64,
    pub ep: Option<i64>,
    pub airdate: Option<String>,
}

/// Failures of the catalog client.
#[derive(Debug, Clone)]
pub enum BangumiError {
    Http(String),
    InvalidHeader(String),
    InvalidInput(String),
}

/// The keyword that a catalog search sends: the input without surrounding
/// white space; a blank keyword is refused.
pub fn search_keyword(keyword: &str) -> (r: Result<String, BangumiError>)
    ensures
        trim(keyword@).len() == 0 <==> r is Err,
        r is Err ==> r->Err_0 is InvalidInput,
        r is Ok ==> r->Ok_0@ == trim(keyword@),
{
    let t = trimmed_chars(keyword);
    if t.len() == 0 {
        Err(BangumiError::InvalidInput("keyword must not be empty".to_string()))
    } else {
        Ok(string_of(&t))
    }
}

/// The offset of the next episode page, or `None` once the listing is complete.
pub fn next_episode_offset(offset: i64, page: &Paged<Episode>) -> (r: Option<i64>)
    ensures
        ({
            let next = offset + page.limit;
            if next < i64::MIN || next > i64::MAX || next >= page.total || page.limit == 0 {
                r is None
            } else {
                r == Some(next as i64)
            }
        }),
{
    let next = offset.checked_add(page.limit);
    match next {
        Some(n) => {
            if n >= page.total || page.limit == 0 {
                None
            } else {
                Some(n)
            }
        },
        None => None,
    }
}

/// An optional catalog text with blank values read as absent.
pub fn normalize_optional(value: &Option<String>) -> (r: Option<String>)
    ensures
        match value {
            Some(t) => if trim(t@).len() == 0 { r is None } else { r == Some(*t) },
            None => r is None,
        },
{
    match value {
        Some(t) => {
            if trimmed_chars(t.as_str()).len() == 0 {
                None
            } else {
                Some(t.clone())
            }
        },
        None => None,
    }
}

} // verus!
