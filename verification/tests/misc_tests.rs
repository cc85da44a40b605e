use filemover::config::{Config, PlanOptions, Progress, ScanOptions};
use filemover::frontend::{
    check_long_path_support, get_available_drives, get_drive_type, is_system_protected_path,
    DriveType, GuiError,
};
use filemover::manager::ConfigManager;
use filemover::pattern::{NormalizationOptions, PatternSpec, PatternKind};
use filemover::rule::ConflictPolicy;

#[test]
fn test_is_system_protected_path() {
    assert!(is_system_protected_path("C:\\Windows\\System32"));
    assert!(is_system_protected_path("C:\\Program Files\\Test"));
    assert!(!is_system_protected_path("C:\\Users\\Test"));
}

#[test]
fn test_get_available_drives() {
    let drives = get_available_drives();
    assert!(!drives.is_empty());
}

#[test]
fn drive_probes_report_fixed_support() {
    assert!(check_long_path_support());
    assert_eq!(get_drive_type("C:\\"), DriveType::Fixed);
}

#[test]
fn frontend_error_shape() {
    let err = GuiError::SessionNotFound { id: "abc".to_string() };
    let fe = err.to_frontend_error();
    assert_eq!(fe.code, "SESSION_NOT_FOUND");
    assert_eq!(fe.message, "abc");
    assert_eq!(fe.details, Some("Session ID: abc".to_string()));

    let plain = GuiError::Scan { message: "bad root".to_string() }.to_frontend_error();
    assert_eq!(plain.code, "SCAN_ERROR");
    assert_eq!(plain.message, "bad root");
    assert!(plain.details.is_none());
}

#[test]
fn pattern_builders() {
    let p = PatternSpec::new_glob("x*");
    assert_eq!(p.kind, PatternKind::Glob);
    assert!(p.case_insensitive);
    assert!(!p.is_exclude);
    let p = p.exclude().case_sensitive();
    assert!(p.is_exclude);
    assert!(!p.case_insensitive);
    assert_eq!(PatternSpec::new_regex("a").kind, PatternKind::Regex);
    assert_eq!(PatternSpec::new_contains("a").kind, PatternKind::Contains);
}

#[test]
fn normalization_defaults() {
    let n = NormalizationOptions::default();
    assert!(n.normalize_unicode);
    assert!(n.normalize_width);
    assert!(!n.strip_diacritics);
    assert!(n.normalize_case);
}

#[test]
fn scan_and_plan_defaults() {
    let s = ScanOptions::default();
    assert!(!s.follow_junctions);
    assert!(s.system_protections);
    assert!(s.max_depth.is_none());
    assert_eq!(s.excluded_paths.len(), 5);
    assert!(s.excluded_paths.contains(&"C:\\Windows".to_string()));

    let p = PlanOptions::default();
    assert_eq!(p.default_conflict_policy, ConflictPolicy::AutoRename);
    assert!(p.enable_cross_volume);
    assert!(!p.dry_run_only);

    let c = Config::default();
    assert!(c.roots.is_empty());
    assert_eq!(c.profiles, vec!["Default".to_string()]);
}

#[test]
fn progress_percentage() {
    let done = Progress::new(0, None);
    assert_eq!(done.percentage(), 100);

    let mut part = Progress::new(8, Some(100));
    part.completed_ops = 2;
    assert_eq!(part.percentage(), 25);
}

#[test]
fn profile_paths() {
    let manager = ConfigManager::from_dir(
        "C:\\Users\\me\\cfg".to_string(),
        "C:\\Users\\me\\cfg\\config.json".to_string(),
    );
    assert_eq!(manager.get_profile_path("default"), "C:\\Users\\me\\cfg\\config.json");
    assert_eq!(manager.get_profile_path("work"), "C:\\Users\\me\\cfg\\work.json");
    assert_eq!(manager.get_config_dir(), "C:\\Users\\me\\cfg");
}

#[test]
fn path_helpers() {
    assert_eq!(filemover::path::last_segment("C:\\a\\b"), "b");
    assert_eq!(filemover::path::parent_path("C:\\a\\b"), "C:\\a");
    assert_eq!(filemover::path::first_component("C:\\a\\b"), "C:");
    assert_eq!(filemover::path::join_path("C:\\a", "b"), "C:\\a\\b");
    assert_eq!(filemover::path::join_path("", "b"), "b");
    assert_eq!(filemover::path::path_depth("C:\\a\\b"), 3);
    assert!(filemover::path::path_starts_with("C:\\a\\b", "C:\\a"));
    assert!(!filemover::path::path_starts_with("C:\\ab", "C:\\a"));
    let (stem, ext) = filemover::path::stem_and_extension("a.b.c");
    assert_eq!(stem, "a.b");
    assert_eq!(ext, Some("c".to_string()));
    let (stem, ext) = filemover::path::stem_and_extension(".hidden");
    assert_eq!(stem, ".hidden");
    assert!(ext.is_none());
}

#[test]
fn rule_builders() {
    let r = filemover::rule::Rule::new(
        PatternSpec::new_glob("*"),
        "D:\\x".to_string(),
        "{name}".to_string(),
    )
    .with_label("L".to_string())
    .with_policy(ConflictPolicy::Overwrite)
    .with_priority(7);
    assert!(r.enabled);
    assert_eq!(r.label, Some("L".to_string()));
    assert_eq!(r.policy, ConflictPolicy::Overwrite);
    assert_eq!(r.priority, 7);
}

#[test]
fn test_long_path_conversion() {
    assert_eq!(
        filemover::path::to_long_path("C:\\Users\\Test"),
        "\\\\?\\C:\\Users\\Test"
    );
    assert_eq!(
        filemover::path::to_long_path("\\\\server\\share\\folder"),
        "\\\\?\\UNC\\server\\share\\folder"
    );
    assert_eq!(
        filemover::path::to_long_path("\\\\?\\C:\\Already"),
        "\\\\?\\C:\\Already"
    );
}

#[test]
fn default_exclusions_name_the_system_trees() {
    let v = filemover::config::ScanOptions::default_excluded_paths();
    assert_eq!(
        v,
        vec![
            "C:\\Windows",
            "C:\\Program Files",
            "C:\\Program Files (x86)",
            "$Recycle.Bin",
            "System Volume Information",
        ]
    );
}

#[test]
fn test_wide_string_conversion() {
    let test_str = "test_folder";
    let wide: Vec<u16> = test_str.encode_utf16().chain(std::iter::once(0)).collect();
    let converted = filemover::text::utf16_to_string(&wide).unwrap();
    assert_eq!(converted, test_str);
}

#[test]
fn utf16_decoding_stops_at_the_terminator_and_rejects_lone_surrogates() {
    let mut with_tail: Vec<u16> = "File".encode_utf16().collect();
    with_tail.push(0);
    with_tail.push(0x0041);
    assert_eq!(filemover::text::utf16_to_string(&with_tail).unwrap(), "File");
    let unterminated: Vec<u16> = "File".encode_utf16().collect();
    assert_eq!(filemover::text::utf16_to_string(&unterminated).unwrap(), "File");
    let paired: Vec<u16> = vec![0x0041, 0xD83D, 0xDE00, 0];
    assert_eq!(filemover::text::utf16_to_string(&paired).unwrap(), "A\u{1F600}");
    let lone: Vec<u16> = vec![0xD800, 0x0042, 0];
    assert!(matches!(
        filemover::text::utf16_to_string(&lone),
        Err(filemover::error::FileMoverError::Pattern { .. })
    ));
}

#[test]
fn walk_descends_by_policy() {
    let mut limited = filemover::config::ScanOptions::default();
    limited.max_depth = Some(1);
    let walker = filemover::scanner::DirectoryWalker::new(limited);
    assert!(walker.should_descend(false, 1, false));
    assert!(!walker.should_descend(false, 2, false));
    assert!(!walker.should_descend(true, 1, false));
    let mut following = filemover::config::ScanOptions::default();
    following.follow_junctions = true;
    let follower = filemover::scanner::DirectoryWalker::new(following);
    assert!(follower.should_descend(true, 5, false));
    assert!(!follower.should_descend(true, 5, true));
}
