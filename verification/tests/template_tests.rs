use filemover::pattern::PatternSpec;
use filemover::rule::Rule;
use filemover::template::{PlanDate, TemplateEngine};

fn date() -> PlanDate {
    PlanDate { year: 2024, month: 7, day: 1 }
}

#[test]
fn test_basic_template_expansion() {
    let engine = TemplateEngine::new();
    let rule = Rule::new(
        PatternSpec::new_glob("*"),
        "D:\\Archive".to_string(),
        "{yyyy}\\{name}".to_string(),
    );

    let result = engine
        .expand_template(&rule, "C:\\Source\\test_folder", date())
        .unwrap();
    assert_eq!(result, "D:\\Archive\\2024\\test_folder");
}

#[test]
fn template_test_drive_extraction() {
    let engine = TemplateEngine::new();

    assert_eq!(engine.extract_drive_letter("C:\\Users\\Test"), "C");
    assert_eq!(engine.extract_drive_letter("D:\\Data\\Backup"), "D");
}

#[test]
fn test_parent_extraction() {
    let engine = TemplateEngine::new();

    assert_eq!(engine.extract_parent_name("C:\\Users\\TestUser\\Documents"), "TestUser");
}

#[test]
fn test_template_validation() {
    let valid_vars = TemplateEngine::validate_template("{yyyy}\\{name}").unwrap();
    assert_eq!(valid_vars, vec!["yyyy".to_string(), "name".to_string()]);

    let unknown = TemplateEngine::validate_template("{invalid_var}");
    assert!(unknown.is_err());

    let unclosed = TemplateEngine::validate_template("{unclosed");
    assert!(unclosed.is_err());
}

#[test]
fn test_complex_template() {
    let engine = TemplateEngine::new();
    let rule = Rule::new(
        PatternSpec::new_glob("*"),
        "D:\\Archive".to_string(),
        "{drive}\\{yyyy}\\{MM}\\{parent}\\{name}".to_string(),
    )
    .with_label("Photos".to_string());

    let result = engine
        .expand_template(&rule, "E:\\Camera\\2024\\vacation_photos", date())
        .unwrap();
    assert_eq!(result, "D:\\Archive\\E\\2024\\07\\2024\\vacation_photos");
}

#[test]
fn template_date_variables_are_zero_padded() {
    let engine = TemplateEngine::new();
    let rule = Rule::new(
        PatternSpec::new_glob("*"),
        "D:\\A".to_string(),
        "{yyyyMMdd}_{yy}_{dd}".to_string(),
    );
    let d = PlanDate { year: 987, month: 3, day: 9 };
    let result = engine.expand_template(&rule, "C:\\x\\y", d).unwrap();
    assert_eq!(result, "D:\\A\\09870309_87_09");
}

#[test]
fn template_label_and_depth_and_ext() {
    let engine = TemplateEngine::new();
    let rule = Rule::new(
        PatternSpec::new_glob("*"),
        "D:\\A".to_string(),
        "{label}-{depth}-{ext}".to_string(),
    )
    .with_label("L".to_string());
    let result = engine.expand_template(&rule, "C:\\one\\two.tar", date()).unwrap();
    assert_eq!(result, "D:\\A\\L-3-tar");
}

#[test]
fn template_unknown_variable_is_a_config_error() {
    let engine = TemplateEngine::new();
    let rule = Rule::new(
        PatternSpec::new_glob("*"),
        "D:\\A".to_string(),
        "{nope}".to_string(),
    );
    let result = engine.expand_template(&rule, "C:\\x", date());
    assert!(matches!(
        result,
        Err(filemover::error::FileMoverError::Config { .. })
    ));
}
