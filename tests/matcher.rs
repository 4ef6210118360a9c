use anicargo::catalog::{normalize_optional, next_episode_offset, search_keyword, BangumiError, Episode, Paged, Subject};
use anicargo::matcher::{
    bigrams, match_episode_id, normalize_title, parse_episode_number, plan_auto_match,
    score_subject, similarity, title_similarity, AutoMatchOptions,
};

fn subject(id: i64, name: &str, name_cn: &str, date: Option<&str>) -> Subject {
    Subject {
        id,
        subject_type: 2,
        name: name.to_string(),
        name_cn: name_cn.to_string(),
        summary: String::new(),
        date: date.map(|d| d.to_string()),
        total_episodes: None,
        images: None,
    }
}

fn episode(id: i64, sort: i64, ep: Option<i64>, name: &str) -> Episode {
    Episode {
        id,
        episode_type: 0,
        name: name.to_string(),
        name_cn: "".to_string(),
        sort,
        ep,
        airdate: None,
    }
}

#[test]
fn parse_episode_number_handles_suffix() {
    assert_eq!(parse_episode_number("12v2").map(|v| v as f64 / 100.0), Some(12.0));
    assert_eq!(parse_episode_number("03").map(|v| v as f64 / 100.0), Some(3.0));
    assert_eq!(parse_episode_number("SP"), None);
}

#[test]
fn match_episode_id_prefers_exact_match() {
    let episodes = vec![episode(100, 1100, Some(1100), "Ep 11"), episode(101, 1200, Some(1200), "Ep 12")];
    assert_eq!(match_episode_id("12", &episodes), Some(101));
}

#[test]
fn similarity_handles_basic_cases() {
    assert_eq!(similarity("abc", "abc") as f64 / 10000.0, 1.0);
    assert_eq!(similarity("", "abc") as f64 / 10000.0, 0.0);
    assert!(similarity("spyxfamily", "spyfamily") as f64 / 10000.0 > 0.5);
}

#[test]
fn normalize_title_removes_separators() {
    let normalized = normalize_title("Spy x Family!!");
    assert_eq!(normalized, "spyxfamily");
}

#[test]
fn normalize_is_idempotent_and_ignores_case() {
    let once = normalize_title("Spy x FAMILY: Code White");
    assert_eq!(normalize_title(&once), once);
    assert_eq!(normalize_title("SPY X FAMILY"), normalize_title("spy x family"));
    assert_eq!(normalize_title("Ça Va 2"), "çava2");
}

#[test]
fn similarity_branches() {
    assert_eq!(similarity("spyxfamily", "spyfamily"), 8235);
    assert_eq!(similarity("spyfamily", "spyxfamily"), 8235);
    assert_eq!(similarity("spy", "spyxfamily"), 8500);
    assert_eq!(similarity("night", "nacht"), 2500);
    assert_eq!(similarity("a", "b"), 0);
    assert_eq!(similarity("abc", ""), 0);
}

#[test]
fn similarity_of_symbol_separated_titles() {
    let a = normalize_title("Spy x Family!!");
    let b = normalize_title("Spy×Family");
    assert_eq!(b, "spyfamily");
    assert_eq!(similarity(&a, &b), 8235);
}

#[test]
fn bigrams_are_consecutive_pairs() {
    assert_eq!(bigrams("abcd"), vec!["ab".to_string(), "bc".to_string(), "cd".to_string()]);
    assert!(bigrams("a").is_empty());
}

#[test]
fn title_similarity_uses_chinese_name_when_present() {
    assert_eq!(title_similarity("Spy x Family", "Something", "SPY×FAMILY"), 8235);
    assert_eq!(title_similarity("Spy x Family", "Something", "   "), similarity("spyxfamily", "something"));
}

#[test]
fn score_subject_adds_year_boost() {
    let s = subject(1, "Spy x Family", "", Some("2025-10-04"));
    let (score, reason) = score_subject("Spy x Family", Some("2025"), &s);
    assert_eq!(score, 10000);
    assert_eq!(reason, "title=1.00;year=+0.05");
    let (score, reason) = score_subject("Family", Some("2025"), &s);
    assert_eq!(score, 9000);
    assert_eq!(reason, "title=0.85;year=+0.05");
    let (score, reason) = score_subject("Family", Some("2024"), &s);
    assert_eq!(score, 8500);
    assert_eq!(reason, "title=0.85");
    let (score, reason) = score_subject("Spy Family", None, &s);
    assert_eq!(score, 8235);
    assert_eq!(reason, "title=0.82");
}

#[test]
fn episode_resolution_scenarios() {
    let episodes = vec![episode(100, 1100, Some(1100), "Ep 11"), episode(101, 1200, Some(1200), "Ep 12")];
    assert_eq!(match_episode_id("12", &episodes), Some(101));
    assert_eq!(match_episode_id("SP", &episodes), None);
    assert_eq!(match_episode_id("12.5", &episodes), Some(101));
    assert_eq!(match_episode_id("14", &episodes), None);
    let by_sort = vec![episode(7, 300, None, "Ep 3")];
    assert_eq!(match_episode_id("03", &by_sort), Some(7));
    assert_eq!(match_episode_id("1.2.3", &by_sort), None);
    assert_eq!(parse_episode_number("ep 7.25x"), Some(725));
    assert_eq!(parse_episode_number(".5"), Some(50));
}

#[test]
fn plan_keeps_candidates_and_gates_the_match() {
    let subjects = vec![
        subject(1, "Spy x Family", "", Some("2022-04-09")),
        subject(2, "Unrelated Show", "", None),
        subject(3, "Spy x Family Season 2", "", Some("2023-10-07")),
    ];
    let plan = plan_auto_match("Spy x Family", Some("2022"), &subjects, &AutoMatchOptions::default());
    assert_eq!(plan.candidates.len(), 2);
    assert_eq!(plan.candidates[0].subject_id, 1);
    assert_eq!(plan.candidates[1].subject_id, 3);
    assert!(plan.candidates.iter().all(|c| c.score >= 5000));
    assert_eq!(plan.best, Some(0));
    assert!(plan.matched);
    let strict = AutoMatchOptions { limit: 8, min_candidate_score: 5000, min_confidence: 10001 };
    let plan = plan_auto_match("Spy x Family", None, &subjects, &strict);
    assert!(!plan.matched);
    assert_eq!(plan.best, Some(0));
    let none = plan_auto_match("Zzz", None, &subjects, &AutoMatchOptions::default());
    assert!(none.candidates.is_empty());
    assert_eq!(none.best, None);
    assert!(!none.matched);
}

#[test]
fn catalog_keyword_and_paging() {
    assert!(matches!(search_keyword("  "), Err(BangumiError::InvalidInput(_))));
    assert_eq!(search_keyword("  Spy x Family ").unwrap(), "Spy x Family");
    let page = Paged { total: 250, limit: 200, offset: 0, data: Vec::<Episode>::new() };
    assert_eq!(next_episode_offset(0, &page), Some(200));
    assert_eq!(next_episode_offset(200, &page), None);
    let empty = Paged { total: 250, limit: 0, offset: 0, data: Vec::<Episode>::new() };
    assert_eq!(next_episode_offset(0, &empty), None);
}

#[test]
fn blank_optional_text_is_absent() {
    assert_eq!(normalize_optional(&Some("  ".to_string())), None);
    assert_eq!(normalize_optional(&Some("2022-04-09".to_string())), Some("2022-04-09".to_string()));
    assert_eq!(normalize_optional(&None), None);
}

#[test]
fn empty_keyword_is_rejected() {
    let err = search_keyword("  ").unwrap_err();
    assert!(matches!(err, BangumiError::InvalidInput(_)));
}

#[test]
fn normalize_lowercases_before_filtering() {
    let once = normalize_title("\u{130}stanbul");
    assert_eq!(once, "istanbul");
    assert_eq!(normalize_title(&once), once);
}
