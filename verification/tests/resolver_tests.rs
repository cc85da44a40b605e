use filemover::plan::Conflict;
use filemover::resolver::ConflictResolver;
use filemover::rule::ConflictPolicy;

#[test]
fn test_dest_inside_source_detection() {
    let resolver = ConflictResolver::new();

    assert!(resolver.is_dest_inside_source("C:\\Source\\Folder", "C:\\Source\\Folder\\Subfolder"));
    assert!(!resolver.is_dest_inside_source("C:\\Source\\Folder", "C:\\Destination\\Folder"));
}

#[test]
fn test_auto_rename() {
    let mut resolver = ConflictResolver::new();
    resolver.add_existing_path("D:\\Pics\\photos".to_string());

    let (renamed, conflicts) = resolver
        .resolve_conflicts("D:\\Pics\\photos", ConflictPolicy::AutoRename)
        .unwrap();

    assert_ne!(renamed, "D:\\Pics\\photos");
    assert!(renamed.contains("_1"));
    assert!(conflicts.is_empty());
}

#[test]
fn test_skip_policy() {
    let mut resolver = ConflictResolver::new();
    resolver.add_existing_path("D:\\Pics\\photos".to_string());

    let (resolved, conflicts) = resolver
        .resolve_conflicts("D:\\Pics\\photos", ConflictPolicy::Skip)
        .unwrap();

    assert_eq!(resolved, "D:\\Pics\\photos");
    assert!(!conflicts.is_empty());
    assert!(matches!(conflicts[0], Conflict::NameExists { .. }));
}

#[test]
fn test_overwrite_policy() {
    let mut resolver = ConflictResolver::new();
    resolver.add_existing_path("D:\\Pics\\photos".to_string());

    let (resolved, conflicts) = resolver
        .resolve_conflicts("D:\\Pics\\photos", ConflictPolicy::Overwrite)
        .unwrap();

    assert_eq!(resolved, "D:\\Pics\\photos");
    assert!(!conflicts.is_empty());
    assert!(matches!(conflicts[0], Conflict::NameExists { .. }));
}

#[test]
fn auto_rename_counts_upward() {
    let mut resolver = ConflictResolver::new();
    resolver.add_existing_path("D:\\Pics\\photos".to_string());

    let (first, _) = resolver
        .resolve_conflicts("D:\\Pics\\photos", ConflictPolicy::AutoRename)
        .unwrap();
    let (second, _) = resolver
        .resolve_conflicts("D:\\Pics\\photos", ConflictPolicy::AutoRename)
        .unwrap();
    let (third, _) = resolver
        .resolve_conflicts("D:\\Pics\\photos", ConflictPolicy::AutoRename)
        .unwrap();

    assert_eq!(first, "D:\\Pics\\photos_1");
    assert_eq!(second, "D:\\Pics\\photos_2");
    assert_eq!(third, "D:\\Pics\\photos_3");
}

#[test]
fn auto_rename_keeps_extension() {
    let mut resolver = ConflictResolver::new();
    resolver.add_existing_path("D:\\Docs\\report.txt".to_string());

    let (renamed, _) = resolver
        .resolve_conflicts("D:\\Docs\\report.txt", ConflictPolicy::AutoRename)
        .unwrap();

    assert_eq!(renamed, "D:\\Docs\\report_1.txt");
}

#[test]
fn auto_rename_near_bound_produces_last_candidate() {
    let mut resolver = ConflictResolver::new();
    resolver.add_existing_path("D:\\Pics\\photos".to_string());
    resolver
        .auto_rename_counters
        .insert(0, ("D:\\Pics\\photos".to_string(), 9998));

    let (renamed, conflicts) = resolver
        .resolve_conflicts("D:\\Pics\\photos", ConflictPolicy::AutoRename)
        .unwrap();

    assert_eq!(renamed, "D:\\Pics\\photos_9999");
    assert!(conflicts.is_empty());
}

#[test]
fn auto_rename_exhaustion_fails_plan_validation() {
    let mut resolver = ConflictResolver::new();
    resolver.add_existing_path("D:\\Pics\\photos".to_string());
    resolver.add_existing_path("D:\\Pics\\photos_9999".to_string());
    resolver
        .auto_rename_counters
        .insert(0, ("D:\\Pics\\photos".to_string(), 9998));

    let outcome = resolver.resolve_conflicts("D:\\Pics\\photos", ConflictPolicy::AutoRename);
    assert!(matches!(
        outcome,
        Err(filemover::error::FileMoverError::PlanValidation { .. })
    ));

    let mut spent = ConflictResolver::new();
    spent.add_existing_path("D:\\Pics\\photos".to_string());
    spent
        .auto_rename_counters
        .insert(0, ("D:\\Pics\\photos".to_string(), 9999));
    let outcome = spent.resolve_conflicts("D:\\Pics\\photos", ConflictPolicy::AutoRename);
    assert!(matches!(
        outcome,
        Err(filemover::error::FileMoverError::PlanValidation { .. })
    ));
}

#[test]
fn reset_forgets_reservations() {
    let mut resolver = ConflictResolver::new();
    resolver.add_existing_path("D:\\Pics\\photos".to_string());
    assert!(resolver.path_exists("D:\\Pics\\photos"));
    resolver.reset();
    assert!(!resolver.path_exists("D:\\Pics\\photos"));
}

#[test]
fn release_frees_one_reservation() {
    let mut resolver = ConflictResolver::new();
    resolver.add_existing_path("D:\\Pics\\photos".to_string());
    resolver.add_existing_path("D:\\Pics\\photos".to_string());
    resolver.release_path("D:\\Pics\\photos");
    assert!(resolver.path_exists("D:\\Pics\\photos"));
    resolver.release_path("D:\\Pics\\photos");
    assert!(!resolver.path_exists("D:\\Pics\\photos"));
}

#[test]
fn volume_root_of_drive_path() {
    let resolver = ConflictResolver::new();
    assert_eq!(resolver.get_volume_root("D:\\Data\\x"), "D:\\");
    assert_eq!(resolver.get_volume_root("relative\\x"), "C:\\");
}
