use filemover::matcher::MatchingEngine;
use filemover::normalize::TextNormalizer;
use filemover::pattern::{NormalizationOptions, PatternSpec};
use filemover::rule::Rule;

fn glob_rule(pattern: &str) -> Rule {
    Rule::new(PatternSpec::new_glob(pattern), "D:\\Archive".to_string(), "{name}".to_string())
}

#[test]
fn test_glob_matcher() {
    let rules = vec![glob_rule("report*"), glob_rule("*2024*")];
    let engine = MatchingEngine::new(rules, NormalizationOptions::default()).unwrap();

    assert!(engine.find_matching_rule("report_january").unwrap().is_some());
    assert!(engine.find_matching_rule("backup_2024_03").unwrap().is_some());
    assert!(engine.find_matching_rule("document").unwrap().is_none());
}

#[test]
fn test_regex_matcher() {
    let rules = vec![Rule::new(
        PatternSpec::new_regex(r"report_\d{4}"),
        "D:\\Archive".to_string(),
        "{name}".to_string(),
    )];
    let engine = MatchingEngine::new(rules, NormalizationOptions::default()).unwrap();

    assert!(engine.find_matching_rule("report_2024").unwrap().is_some());
    assert!(engine.find_matching_rule("report_abc").unwrap().is_none());
}

#[test]
fn test_contains_matcher() {
    let rules = vec![
        Rule::new(
            PatternSpec::new_contains("photo"),
            "D:\\Archive".to_string(),
            "{name}".to_string(),
        ),
        Rule::new(
            PatternSpec::new_contains("image"),
            "D:\\Archive".to_string(),
            "{name}".to_string(),
        ),
    ];
    let engine = MatchingEngine::new(rules, NormalizationOptions::default()).unwrap();

    assert!(engine.find_matching_rule("my_photo_album").unwrap().is_some());
    assert!(engine.find_matching_rule("image_backup").unwrap().is_some());
    assert!(engine.find_matching_rule("document_folder").unwrap().is_none());
}

#[test]
fn test_rule_matching_priority() {
    let rules = vec![
        Rule::new(
            PatternSpec::new_glob("*report*"),
            "D:\\Archive\\Reports".to_string(),
            "{yyyy}\\{name}".to_string(),
        )
        .with_priority(10),
        Rule::new(
            PatternSpec::new_glob("*"),
            "D:\\Archive\\General".to_string(),
            "{name}".to_string(),
        )
        .with_priority(100),
    ];

    let engine = MatchingEngine::new(rules, NormalizationOptions::default()).unwrap();

    let matched_rule = engine.find_matching_rule("monthly_report").unwrap();
    assert!(matched_rule.is_some());
    assert_eq!(matched_rule.unwrap().priority, 10);
}

#[test]
fn test_exclude_patterns() {
    let rules = vec![
        Rule::new(PatternSpec::new_glob("temp*").exclude(), "".to_string(), "".to_string()),
        Rule::new(PatternSpec::new_glob("*"), "D:\\Archive".to_string(), "{name}".to_string()),
    ];

    let engine = MatchingEngine::new(rules, NormalizationOptions::default()).unwrap();

    assert!(engine.find_matching_rule("temp_folder").unwrap().is_none());
    assert!(engine.find_matching_rule("normal_folder").unwrap().is_some());
}

#[test]
fn test_case_fold_matching() {
    let rules = vec![glob_rule("Report*")];
    let engine = MatchingEngine::new(rules, NormalizationOptions::default()).unwrap();

    assert!(engine.find_matching_rule("REPORT_X").unwrap().is_some());
    assert!(engine.find_matching_rule("report_y").unwrap().is_some());
}

#[test]
fn test_bad_glob_pattern_rejected() {
    let rules = vec![glob_rule("a[")];
    let built = MatchingEngine::new(rules, NormalizationOptions::default());
    assert!(matches!(built, Err(filemover::error::FileMoverError::Pattern { .. })));
}

#[test]
fn test_bad_regex_pattern_rejected() {
    let rules = vec![Rule::new(
        PatternSpec::new_regex("("),
        "D:\\Archive".to_string(),
        "{name}".to_string(),
    )];
    let built = MatchingEngine::new(rules, NormalizationOptions::default());
    assert!(matches!(built, Err(filemover::error::FileMoverError::Pattern { .. })));
}

#[test]
fn test_normalize_width() {
    let options = NormalizationOptions {
        normalize_unicode: false,
        normalize_width: true,
        strip_diacritics: false,
        normalize_case: false,
    };
    let normalizer = TextNormalizer::new(options);

    let result = normalizer.normalize("Ｈｅｌｌｏ１２３").unwrap();
    assert_eq!(result, "Hello123");
}

#[test]
fn test_strip_diacritics() {
    let options = NormalizationOptions {
        normalize_unicode: true,
        normalize_width: false,
        strip_diacritics: true,
        normalize_case: false,
    };
    let normalizer = TextNormalizer::new(options);

    let result = normalizer.normalize("café naïve résumé").unwrap();
    assert_eq!(result, "cafe naive resume");
}

#[test]
fn test_full_normalization() {
    let options = NormalizationOptions {
        normalize_unicode: true,
        normalize_width: true,
        strip_diacritics: true,
        normalize_case: true,
    };
    let normalizer = TextNormalizer::new(options);

    let result = normalizer.normalize("Ｃａｆé　Ｎａïｖｅ").unwrap();
    assert_eq!(result, "cafe naive");
}
