use filemover::config::ScanOptions;
use filemover::pattern::PatternSpec;
use filemover::rule::{Rule, Warning};
use filemover::scanner::{DirectoryEntry, DirectoryWalker, FolderScanner};
use filemover::template::{PlanDate, TemplateEngine};

fn date() -> PlanDate {
    PlanDate { year: 2024, month: 7, day: 1 }
}

fn dir_entry(path: &str) -> DirectoryEntry {
    DirectoryEntry {
        path: path.to_string(),
        is_directory: true,
        is_junction: false,
        access_denied: false,
        size_bytes: None,
    }
}

fn create_test_scanner() -> FolderScanner {
    let rules = vec![Rule::new(
        PatternSpec::new_glob("test*"),
        "D:\\Archive".to_string(),
        "{name}".to_string(),
    )];
    FolderScanner::new(rules, ScanOptions::default()).unwrap()
}

#[test]
fn test_template_expansion() {
    let rules = vec![Rule::new(
        PatternSpec::new_glob("*"),
        "D:\\Archive".to_string(),
        "{yyyy}\\{name}".to_string(),
    )];
    let scanner = FolderScanner::new(rules, ScanOptions::default()).unwrap();

    let hit = scanner
        .process_entry(&dir_entry("C:\\Source\\test_folder"), date())
        .unwrap()
        .unwrap();
    assert_eq!(hit.dest_preview.unwrap(), "D:\\Archive\\2024\\test_folder");
}

#[test]
fn scanner_test_drive_extraction() {
    let engine = TemplateEngine::new();
    assert_eq!(engine.extract_drive_letter("C:\\Users\\Test"), "C");
}

#[test]
fn test_protected_path_detection() {
    let walker = DirectoryWalker::new(ScanOptions::default());

    assert!(walker.is_protected_path("C:\\Windows\\System32"));
    assert!(walker.is_protected_path("C:\\Program Files\\Test"));
    assert!(!walker.is_protected_path("C:\\Users\\Test"));
}

#[test]
fn test_excluded_path_detection() {
    let mut options = ScanOptions::default();
    options.excluded_paths.push("C:\\Temp".to_string());

    let walker = DirectoryWalker::new(options);

    assert!(walker.is_excluded_path("C:\\Temp\\subfolder"));
    assert!(!walker.is_excluded_path("C:\\Users\\Test"));
}

#[test]
fn scenario_exclude_pattern_wins() {
    let rules = vec![
        Rule::new(PatternSpec::new_glob("temp*").exclude(), "".to_string(), "".to_string()),
        Rule::new(PatternSpec::new_glob("*"), "D:\\Archive".to_string(), "{name}".to_string()),
    ];
    let scanner = FolderScanner::new(rules, ScanOptions::default()).unwrap();

    let excluded = scanner
        .process_entry(&dir_entry("C:\\roots\\temp_x"), date())
        .unwrap();
    assert!(excluded.is_none());

    let routed = scanner
        .process_entry(&dir_entry("C:\\roots\\projectY"), date())
        .unwrap();
    assert!(routed.is_some());
    assert_eq!(routed.unwrap().name, "projectY");
}

#[test]
fn long_path_boundary() {
    let scanner = create_test_scanner();
    let short = format!("C:\\{}", "a".repeat(257));
    assert_eq!(short.chars().count(), 260);
    let entry = dir_entry(&short);
    let warnings = scanner.analyze_warnings(&entry);
    assert!(!warnings.contains(&Warning::LongPath));

    let long = format!("C:\\{}", "a".repeat(258));
    assert_eq!(long.chars().count(), 261);
    let entry = dir_entry(&long);
    let warnings = scanner.analyze_warnings(&entry);
    assert!(warnings.contains(&Warning::LongPath));
}

#[test]
fn junction_and_denied_warnings() {
    let scanner = create_test_scanner();
    let mut entry = dir_entry("C:\\roots\\test_1");
    entry.is_junction = true;
    entry.access_denied = true;
    let warnings = scanner.analyze_warnings(&entry);
    assert_eq!(warnings, vec![Warning::Junction, Warning::AccessDenied]);
}

#[test]
fn offline_placeholder_warning() {
    let scanner = create_test_scanner();
    let entry = dir_entry("C:\\Users\\me\\OneDrive - Personal\\test_1");
    let warnings = scanner.analyze_warnings(&entry);
    assert!(warnings.contains(&Warning::Offline));
}

#[test]
fn files_yield_no_hits() {
    let scanner = create_test_scanner();
    let mut entry = dir_entry("C:\\roots\\test_file");
    entry.is_directory = false;
    assert!(scanner.process_entry(&entry, date()).unwrap().is_none());
}

#[test]
fn scan_entries_collects_matches_in_order() {
    let rules = vec![Rule::new(
        PatternSpec::new_glob("test*"),
        "D:\\Archive".to_string(),
        "{name}".to_string(),
    )];
    let scanner = FolderScanner::new(rules, ScanOptions::default()).unwrap();
    let entries = vec![
        dir_entry("C:\\r\\test_a"),
        dir_entry("C:\\r\\other"),
        dir_entry("C:\\r\\test_b"),
    ];
    let hits = scanner.scan_entries(&entries, date()).unwrap();
    assert_eq!(hits.len(), 2);
    assert_eq!(hits[0].name, "test_a");
    assert_eq!(hits[1].name, "test_b");
}
