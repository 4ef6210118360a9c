use vstd::prelude::*;
use anitomy::ElementCategory;
use crate::text::string_of;

verus! {

#[verifier::external_type_specification]
pub struct ExElementCategory(ElementCategory);

/// The snake_case key under which an element category is reported.
pub open spec fn category_name(c: ElementCategory) -> Seq<char> {
    match c {
        ElementCategory::AnimeSeason => "anime_season"@,
        ElementCategory::AnimeSeasonPrefix => "anime_season_prefix"@,
        ElementCategory::AnimeTitle => "anime_title"@,
        ElementCategory::AnimeType => "anime_type"@,
        ElementCategory::AnimeYear => "anime_year"@,
        ElementCategory::AudioTerm => "audio_term"@,
        ElementCategory::DeviceCompatibility => "device_compatibility"@,
        ElementCategory::EpisodeNumber => "episode_number"@,
        ElementCategory::EpisodeNumberAlt => "episode_number_alt"@,
        ElementCategory::EpisodePrefix => "episode_prefix"@,
        ElementCategory::EpisodeTitle => "episode_title"@,
        ElementCategory::FileChecksum => "file_checksum"@,
        ElementCategory::FileExtension => "file_extension"@,
        ElementCategory::FileName => "file_name"@,
        ElementCategory::Language => "language"@,
        ElementCategory::Other => "other"@,
        ElementCategory::ReleaseGroup => "release_group"@,
        ElementCategory::ReleaseInformation => "release_information"@,
        ElementCategory::ReleaseVersion => "release_version"@,
        ElementCategory::Source => "source"@,
        ElementCategory::Subtitles => "subtitles"@,
        ElementCategory::VideoResolution => "video_resolution"@,
        ElementCategory::VideoTerm => "video_term"@,
        ElementCategory::VolumeNumber => "volume_number"@,
        ElementCategory::VolumePrefix => "volume_prefix"@,
        ElementCategory::Unknown => "unknown"@,
    }
}

pub fn category_key(category: ElementCategory) -> (r: &'static str)
    ensures
        r@ == category_name(category),
{
    match category {
        ElementCategory::AnimeSeason => "anime_season",
        ElementCategory::AnimeSeasonPrefix => "anime_season_prefix",
        ElementCategory::AnimeTitle => "anime_title",
        ElementCategory::AnimeType => "anime_type",
        ElementCategory::AnimeYear => "anime_year",
        ElementCategory::AudioTerm => "audio_term",
        ElementCategory::DeviceCompatibility => "device_compatibility",
        ElementCategory::EpisodeNumber => "episode_number",
        ElementCategory::EpisodeNumberAlt => "episode_number_alt",
        ElementCategory::EpisodePrefix => "episode_prefix",
        ElementCategory::EpisodeTitle => "episode_title",
        ElementCategory::FileChecksum => "file_checksum",
        ElementCategory::FileExtension => "file_extension",
        ElementCategory::FileName => "file_name",
        ElementCategory::Language => "language",
        ElementCategory::Other => "other",
        ElementCategory::ReleaseGroup => "release_group",
        ElementCategory::ReleaseInformation => "release_information",
        ElementCategory::ReleaseVersion => "release_version",
        ElementCategory::Source => "source",
        ElementCategory::Subtitles => "subtitles",
        ElementCategory::VideoResolution => "video_resolution",
        ElementCategory::VideoTerm => "video_term",
        ElementCategory::VolumeNumber => "volume_number",
        ElementCategory::VolumePrefix => "volume_prefix",
        ElementCategory::Unknown => "unknown",
    }
}

fn same_category(a: ElementCategory, b: ElementCategory) -> (r: bool)
    ensures
        r == (a == b),
{
    match (a, b) {
        (ElementCategory::AnimeSeason, ElementCategory::AnimeSeason) => true,
        (ElementCategory::AnimeSeasonPrefix, ElementCategory::AnimeSeasonPrefix) => true,
        (ElementCategory::AnimeTitle, ElementCategory::AnimeTitle) => true,
        (ElementCategory::AnimeType, ElementCategory::AnimeType) => true,
        (ElementCategory::AnimeYear, ElementCategory::AnimeYear) => true,
        (ElementCategory::AudioTerm, ElementCategory::AudioTerm) => true,
        (ElementCategory::DeviceCompatibility, ElementCategory::DeviceCompatibility) => true,
        (ElementCategory::EpisodeNumber, ElementCategory::EpisodeNumber) => true,
        (ElementCategory::EpisodeNumberAlt, ElementCategory::EpisodeNumberAlt) => true,
        (ElementCategory::EpisodePrefix, ElementCategory::EpisodePrefix) => true,
        (ElementCategory::EpisodeTitle, ElementCategory::EpisodeTitle) => true,
        (ElementCategory::FileChecksum, ElementCategory::FileChecksum) => true,
        (ElementCategory::FileExtension, ElementCategory::FileExtension) => true,
        (ElementCategory::FileName, ElementCategory::FileName) => true,
        (ElementCategory::Language, ElementCategory::Language) => true,
        (ElementCategory::Other, ElementCategory::Other) => true,
        (ElementCategory::ReleaseGroup, ElementCategory::ReleaseGroup) => true,
        (ElementCategory::ReleaseInformation, ElementCategory::ReleaseInformation) => true,
        (ElementCategory::ReleaseVersion, ElementCategory::ReleaseVersion) => true,
        (ElementCategory::Source, ElementCategory::Source) => true,
        (ElementCategory::Subtitles, ElementCategory::Subtitles) => true,
        (ElementCategory::VideoResolution, ElementCategory::VideoResolution) => true,
        (ElementCategory::VideoTerm, ElementCategory::VideoTerm) => true,
        (ElementCategory::VolumeNumber, ElementCategory::VolumeNumber) => true,
        (ElementCategory::VolumePrefix, ElementCategory::VolumePrefix) => true,
        (ElementCategory::Unknown, ElementCategory::Unknown) => true,
        _ => false,
    }
}

/// A detected filename element: its category key and its text.
#[derive(Debug, Clone)]
pub struct ParsedElement {
    pub category: String,
    pub value: String,
}

/// What the filename parser extracts. `subtitles` and `language` join every
/// value found with ", "; `raw_elements` keeps every element in detection order.
#[derive(Debug, Clone)]
pub struct ParsedMedia {
    pub parse_ok: bool,
    pub title: Option<String>,
    pub episode: Option<String>,
    pub episode_alt: Option<String>,
    pub episode_title: Option<String>,
    pub season: Option<String>,
    pub year: Option<String>,
    pub release_group: Option<String>,
    pub resolution: Option<String>,
    pub source: Option<String>,
    pub audio_term: Option<String>,
    pub video_term: Option<String>,
    pub subtitles: Option<String>,
    pub language: Option<String>,
    pub raw_elements: Vec<ParsedElement>,
}

/// The elements as category and text.
pub open spec fn element_views(v: Seq<(ElementCategory, String)>) -> Seq<(ElementCategory, Seq<char>)> {
    v.map_values(|p: (ElementCategory, String)| (p.0, p.1@))
}

/// What anitomy's `Anitomy::parse` reports for a filename: whether it
/// classed the parse as a success, and the elements it found, in order.
pub uninterp spec fn anitomy_parse(filename: Seq<char>) -> (bool, Seq<(ElementCategory, Seq<char>)>);

/// Relies on anitomy's `Anitomy::parse`, which returns its elements in
/// either outcome; it panics on a filename holding a NUL character.
#[verifier::external_body]
fn run_anitomy(filename: &str) -> (r: (bool, Vec<(ElementCategory, String)>))
    requires
        !filename@.contains('\0'),
    ensures
        (r.0, element_views(r.1@)) == anitomy_parse(filename@),
{
    let mut parser = anitomy::Anitomy::new();
    let (ok, elements) = match parser.parse(filename) {
        Ok(e) => (true, e),
        Err(e) => (false, e),
    };
    (ok, elements.iter().map(|e| (e.category, e.value.clone())).collect())
}

/// The text of the first element of a category.
pub open spec fn first_of(els: Seq<(ElementCategory, Seq<char>)>, c: ElementCategory) -> Option<Seq<char>>
    decreases els.len(),
{
    if els.len() == 0 {
        None
    } else if els[0].0 == c {
        Some(els[0].1)
    } else {
        first_of(els.drop_first(), c)
    }
}

/// The texts of all elements of a category, in order.
pub open spec fn all_of(els: Seq<(ElementCategory, Seq<char>)>, c: ElementCategory) -> Seq<Seq<char>>
    decreases els.len(),
{
    if els.len() == 0 {
        Seq::empty()
    } else if els.last().0 == c {
        all_of(els.drop_last(), c).push(els.last().1)
    } else {
        all_of(els.drop_last(), c)
    }
}

/// Parts joined with a separator between neighbours.
pub open spec fn join_with(parts: Seq<Seq<char>>, sep: Seq<char>) -> Seq<char>
    decreases parts.len(),
{
    if parts.len() == 0 {
        Seq::empty()
    } else if parts.len() == 1 {
        parts[0]
    } else {
        join_with(parts.drop_last(), sep) + sep + parts.last()
    }
}

pub open spec fn opt_string_view(o: Option<String>) -> Option<Seq<char>> {
    match o {
        Some(s) => Some(s@),
        None => None,
    }
}

/// The first value of a category, if any.
pub fn get_element(elements: &Vec<(ElementCategory, String)>, category: ElementCategory) -> (r: Option<String>)
    ensures
        opt_string_view(r) == first_of(element_views(elements@), category),
{
    let mut i: usize = 0;
    assert(elements@.subrange(0, elements@.len() as int) =~= elements@);
    while i < elements.len()
        invariant
            i <= elements@.len(),
            first_of(element_views(elements@), category) == first_of(
                element_views(elements@.subrange(i as int, elements@.len() as int)),
                category,
            ),
        decreases elements.len() - i,
    {
        let ghost rest = elements@.subrange(i as int, elements@.len() as int);
        assert(element_views(rest).drop_first() =~= element_views(
            elements@.subrange(i + 1, elements@.len() as int),
        ));
        if same_category(elements[i].0, category) {
            return Some(elements[i].1.clone());
        }
        i = i + 1;
    }
    proof {
        assert(element_views(elements@.subrange(i as int, elements@.len() as int)).len() == 0);
    }
    None
}

/// All values of a category joined with ", ", or `None` when there is none.
pub fn join_elements(elements: &Vec<(ElementCategory, String)>, category: ElementCategory) -> (r: Option<String>)
    ensures
        all_of(element_views(elements@), category).len() == 0 ==> r is None,
        all_of(element_views(elements@), category).len() > 0 ==> r is Some && r->0@ == join_with(
            all_of(element_views(elements@), category),
            ", "@,
        ),
{
    let sep = crate::text::chars_of(", ");
    let mut out: Vec<char> = Vec::new();
    let mut count: usize = 0;
    let mut i: usize = 0;
    while i < elements.len()
        invariant
            i <= elements@.len(),
            sep@ == ", "@,
            count == all_of(element_views(elements@.subrange(0, i as int)), category).len(),
            out@ == join_with(all_of(element_views(elements@.subrange(0, i as int)), category), ", "@),
            count <= i,
        decreases elements.len() - i,
    {
        let ghost pre = element_views(elements@.subrange(0, i as int));
        let ghost nxt = element_views(elements@.subrange(0, i + 1));
        assert(nxt.drop_last() =~= pre);
        assert(nxt.last() == (elements@[i as int].0, elements@[i as int].1@));
        let ghost parts = all_of(pre, category);
        if same_category(elements[i].0, category) {
            assert(all_of(nxt, category) == parts.push(elements@[i as int].1@));
            assert(parts.push(elements@[i as int].1@).drop_last() =~= parts);
        } else {
            assert(all_of(nxt, category) == parts);
        }
        if same_category(elements[i].0, category) {
            if count > 0 {
                crate::paths::push_chars(&mut out, &sep);
            }
            let v = crate::text::chars_of(elements[i].1.as_str());
            crate::paths::push_chars(&mut out, &v);
            count = count + 1;
        }
        i = i + 1;
    }
    assert(elements@.subrange(0, i as int) =~= elements@);
    if count == 0 {
        None
    } else {
        Some(string_of(&out))
    }
}

pub open spec fn raw_views(v: Seq<ParsedElement>) -> Seq<(Seq<char>, Seq<char>)> {
    v.map_values(|p: ParsedElement| (p.category@, p.value@))
}

/// Every element as (category key, text), in order.
pub open spec fn raw_of(els: Seq<(ElementCategory, Seq<char>)>) -> Seq<(Seq<char>, Seq<char>)> {
    els.map_values(|p: (ElementCategory, Seq<char>)| (category_name(p.0), p.1))
}

/// The parse record built from a parser outcome and its elements.
pub open spec fn parsed_from(parse_ok: bool, els: Seq<(ElementCategory, Seq<char>)>, r: ParsedMedia) -> bool {
    &&& r.parse_ok == parse_ok
    &&& opt_string_view(r.title) == first_of(els, ElementCategory::AnimeTitle)
    &&& opt_string_view(r.episode) == first_of(els, ElementCategory::EpisodeNumber)
    &&& opt_string_view(r.episode_alt) == first_of(els, ElementCategory::EpisodeNumberAlt)
    &&& opt_string_view(r.episode_title) == first_of(els, ElementCategory::EpisodeTitle)
    &&& opt_string_view(r.season) == first_of(els, ElementCategory::AnimeSeason)
    &&& opt_string_view(r.year) == first_of(els, ElementCategory::AnimeYear)
    &&& opt_string_view(r.release_group) == first_of(els, ElementCategory::ReleaseGroup)
    &&& opt_string_view(r.resolution) == first_of(els, ElementCategory::VideoResolution)
    &&& opt_string_view(r.source) == first_of(els, ElementCategory::Source)
    &&& opt_string_view(r.audio_term) == first_of(els, ElementCategory::AudioTerm)
    &&& opt_string_view(r.video_term) == first_of(els, ElementCategory::VideoTerm)
    &&& (all_of(els, ElementCategory::Subtitles).len() == 0 ==> r.subtitles is None)
    &&& (all_of(els, ElementCategory::Subtitles).len() > 0 ==> opt_string_view(r.subtitles) == Some(
        join_with(all_of(els, ElementCategory::Subtitles), ", "@),
    ))
    &&& (all_of(els, ElementCategory::Language).len() == 0 ==> r.language is None)
    &&& (all_of(els, ElementCategory::Language).len() > 0 ==> opt_string_view(r.language) == Some(
        join_with(all_of(els, ElementCategory::Language), ", "@),
    ))
    &&& raw_views(r.raw_elements@) == raw_of(els)
}

/// Builds the parse record from the parser's outcome and elements.
pub fn build_parsed_media(parse_ok: bool, elements: &Vec<(ElementCategory, String)>) -> (r: ParsedMedia)
    ensures
        parsed_from(parse_ok, element_views(elements@), r),
{
    let mut raw: Vec<ParsedElement> = Vec::new();
    let mut i: usize = 0;
    while i < elements.len()
        invariant
            i <= elements@.len(),
            raw_views(raw@) == raw_of(element_views(elements@.subrange(0, i as int))),
        decreases elements.len() - i,
    {
        let key = category_key(elements[i].0);
        let ghost before = raw@;
        let item = ParsedElement { category: key.to_string(), value: elements[i].1.clone() };
        assert(item.category@ == category_name(elements@[i as int].0));
        assert(item.value@ == elements@[i as int].1@);
        raw.push(item);
        assert(raw@ == before.push(item));
        i = i + 1;
        assert(element_views(elements@.subrange(0, i as int)) =~= element_views(elements@.subrange(0, i - 1)).push((elements@[i - 1].0, elements@[i - 1].1@)));
        let ghost e = (elements@[i - 1].0, elements@[i - 1].1@);
        let ghost prev = element_views(elements@.subrange(0, i - 1));
        assert(raw_views(raw@) =~= raw_views(before).push((item.category@, item.value@)));
        assert(raw_of(prev.push(e)) =~= raw_of(prev).push((category_name(e.0), e.1)));
        assert(raw_views(raw@) =~= raw_of(element_views(elements@.subrange(0, i as int))));
    }
    assert(elements@.subrange(0, i as int) =~= elements@);
    ParsedMedia {
        parse_ok,
        title: get_element(elements, ElementCategory::AnimeTitle),
        episode: get_element(elements, ElementCategory::EpisodeNumber),
        episode_alt: get_element(elements, ElementCategory::EpisodeNumberAlt),
        episode_title: get_element(elements, ElementCategory::EpisodeTitle),
        season: get_element(elements, ElementCategory::AnimeSeason),
        year: get_element(elements, ElementCategory::AnimeYear),
        release_group: get_element(elements, ElementCategory::ReleaseGroup),
        resolution: get_element(elements, ElementCategory::VideoResolution),
        source: get_element(elements, ElementCategory::Source),
        audio_term: get_element(elements, ElementCategory::AudioTerm),
        video_term: get_element(elements, ElementCategory::VideoTerm),
        subtitles: join_elements(elements, ElementCategory::Subtitles),
        language: join_elements(elements, ElementCategory::Language),
        raw_elements: raw,
    }
}

/// Parses an anime video filename. Never fails: an unsuccessful parse comes
/// back with `parse_ok` false and whatever elements were found.
pub fn parse_filename(filename: &str) -> (r: ParsedMedia)
    requires
        !filename@.contains('\0'),
    ensures
        parsed_from(anitomy_parse(filename@).0, anitomy_parse(filename@).1, r),
{
    let (ok, elements) = run_anitomy(filename);
    build_parsed_media(ok, &elements)
}

} // verus!
