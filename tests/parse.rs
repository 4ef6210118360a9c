use anicargo::parse::{build_parsed_media, category_key, join_elements, parse_filename};
use anitomy::ElementCategory;

const SAMPLE_FILE: &str = "[Sakurato] Spy x Family (2025) [12][AVC-8 bit 1080p ACC][CHT].mp4";

fn normalize_title(value: &str) -> String {
    value
        .chars()
        .filter(|ch| ch.is_alphanumeric())
        .flat_map(|ch| ch.to_lowercase())
        .collect()
}

#[test]
fn parses_filename_with_anitomy() {
    let parsed = parse_filename(SAMPLE_FILE);
    println!("parsed media: {:?}", parsed);
    assert!(parsed.parse_ok, "expected filename parse to succeed");

    let title = parsed.title.as_deref().unwrap_or("");
    println!("parsed title: {}", title);
    let normalized = normalize_title(title);
    assert_eq!(normalized, "spyxfamily", "unexpected title: {}", title);

    let episode = parsed.episode.as_deref().unwrap_or("");
    println!("parsed episode: {}", episode);
    assert_eq!(episode, "12", "unexpected episode: {}", episode);

    let year = parsed.year.as_deref().unwrap_or("");
    println!("parsed year: {}", year);
    assert_eq!(year, "2025", "unexpected year: {}", year);

    let release_group = parsed.release_group.as_deref().unwrap_or("");
    println!("parsed release group: {}", release_group);
    assert_eq!(release_group, "Sakurato", "unexpected group: {}", release_group);

    let resolution = parsed.resolution.as_deref().unwrap_or("");
    println!("parsed resolution: {}", resolution);
    assert_eq!(resolution, "1080p", "unexpected resolution: {}", resolution);
}

#[test]
fn sample_filename_scenario() {
    let parsed = parse_filename(SAMPLE_FILE);
    assert!(parsed.parse_ok);
    assert_eq!(parsed.title.as_deref(), Some("Spy x Family"));
    assert!(parsed.raw_elements.iter().any(|e| e.category == "release_group" && e.value == "Sakurato"));
}

#[test]
fn elements_build_the_parse_record() {
    let elements = vec![
        (ElementCategory::AnimeTitle, "Show".to_string()),
        (ElementCategory::Subtitles, "ENG".to_string()),
        (ElementCategory::EpisodeNumber, "03".to_string()),
        (ElementCategory::Subtitles, "CHT".to_string()),
        (ElementCategory::AnimeTitle, "Other".to_string()),
    ];
    let p = build_parsed_media(false, &elements);
    assert!(!p.parse_ok);
    assert_eq!(p.title.as_deref(), Some("Show"));
    assert_eq!(p.episode.as_deref(), Some("03"));
    assert_eq!(p.subtitles.as_deref(), Some("ENG, CHT"));
    assert_eq!(p.language, None);
    assert_eq!(p.raw_elements.len(), 5);
    assert_eq!(p.raw_elements[1].category, "subtitles");
    assert_eq!(join_elements(&elements, ElementCategory::Language), None);
    assert_eq!(category_key(ElementCategory::VideoResolution), "video_resolution");
    assert_eq!(category_key(ElementCategory::EpisodeNumberAlt), "episode_number_alt");
}
