use filemover::config::PlanOptions;
use filemover::pattern::PatternSpec;
use filemover::plan::{NodeChange, OpKind};
use filemover::planner::MovePlanner;
use filemover::rule::{ConflictPolicy, FolderHit, Rule};
use filemover::template::PlanDate;

fn date() -> PlanDate {
    PlanDate { year: 2024, month: 7, day: 1 }
}

fn create_test_rule() -> Rule {
    Rule::new(
        PatternSpec::new_glob("test*"),
        "D:\\Archive".to_string(),
        "{yyyy}\\{name}".to_string(),
    )
}

fn create_test_folder_hit() -> FolderHit {
    FolderHit {
        path: "C:\\Source\\test_folder".to_string(),
        name: "test_folder".to_string(),
        matched_rule: None,
        dest_preview: None,
        warnings: Vec::new(),
        size_bytes: Some(1024 * 1024),
    }
}

fn hit(path: &str, name: &str, rule_id: u64) -> FolderHit {
    FolderHit {
        path: path.to_string(),
        name: name.to_string(),
        matched_rule: Some(rule_id),
        dest_preview: None,
        warnings: Vec::new(),
        size_bytes: None,
    }
}

#[test]
fn test_plan_creation() {
    let mut planner = MovePlanner::new();
    let rule = create_test_rule();
    let mut hit = create_test_folder_hit();
    hit.matched_rule = Some(rule.id);

    let rules = vec![rule];
    let hits = vec![hit];
    let options = PlanOptions::default();

    let plan = planner.create_plan(&hits, &rules, options).unwrap();

    assert_eq!(plan.roots.len(), 1);
    assert_eq!(plan.nodes.len(), 1);
    assert_eq!(plan.summary.count_dirs, 1);
}

#[test]
fn planner_test_cross_volume_detection() {
    let planner = MovePlanner::new();

    assert!(!planner.is_cross_volume("C:\\Source", "C:\\Dest"));
    assert!(planner.is_cross_volume("C:\\Source", "D:\\Dest"));
}

#[test]
fn test_operation_kind_determination() {
    let planner = MovePlanner::new();

    assert_eq!(planner.determine_operation_kind("C:\\Source", "C:\\Dest"), OpKind::Move);
    assert_eq!(planner.determine_operation_kind("C:\\Source", "D:\\Dest"), OpKind::CopyDelete);
    assert_eq!(planner.determine_operation_kind("C:\\Source", "C:\\Source"), OpKind::NoOp);
}

#[test]
fn test_simulation_report() {
    let mut planner = MovePlanner::new();
    let rule = create_test_rule();
    let mut hit = create_test_folder_hit();
    hit.matched_rule = Some(rule.id);

    let rules = vec![rule];
    let hits = vec![hit];
    let options = PlanOptions::default();

    let plan = planner.create_plan(&hits, &rules, options).unwrap();
    let report = planner.simulate_plan(&plan).unwrap();

    assert_eq!(report.success_estimate + report.conflicts_remaining + report.skipped_count, 1);
}

#[test]
fn scenario_single_match_cross_volume() {
    let mut planner = MovePlanner::new();
    let rule = Rule::new(
        PatternSpec::new_glob("report*"),
        "D:/Archive".to_string(),
        "{yyyy}/{name}".to_string(),
    );
    let hits = vec![hit("C:/Work/report_q1", "report_q1", rule.id)];
    let plan = planner
        .create_plan_at(&hits, &vec![rule], PlanOptions::default(), date())
        .unwrap();

    assert_eq!(plan.nodes.len(), 1);
    let node = &plan.nodes[0];
    assert_eq!(node.kind, OpKind::CopyDelete);
    assert_eq!(node.path_after, "D:/Archive\\2024/report_q1");
    assert!(node.conflicts.is_empty());
    assert_eq!(plan.summary.count_dirs, 1);
    assert_eq!(plan.summary.cross_volume, 1);
    assert_eq!(plan.summary.conflicts, 0);
}

#[test]
fn scenario_collision_auto_rename() {
    let mut planner = MovePlanner::new();
    let rule = Rule::new(PatternSpec::new_glob("*"), "D:\\Pics".to_string(), "{name}".to_string());
    let hits = vec![
        hit("C:\\A\\photos", "photos", rule.id),
        hit("C:\\B\\photos", "photos", rule.id),
    ];
    let plan = planner
        .create_plan_at(&hits, &vec![rule], PlanOptions::default(), date())
        .unwrap();

    assert_eq!(plan.nodes.len(), 2);
    assert_eq!(plan.nodes[0].path_after, "D:\\Pics\\photos");
    assert_eq!(plan.nodes[1].path_after, "D:\\Pics\\photos_1");
    assert!(plan.nodes[0].conflicts.is_empty());
    assert!(plan.nodes[1].conflicts.is_empty());
}

#[test]
fn scenario_skip_policy_retains_conflict() {
    let mut planner = MovePlanner::new();
    planner.add_existing_path("D:\\Pics\\photos".to_string());
    let rule = Rule::new(PatternSpec::new_glob("*"), "D:\\Pics".to_string(), "{name}".to_string());
    let hits = vec![hit("C:\\A\\photos", "photos", rule.id)];
    let mut options = PlanOptions::default();
    options.default_conflict_policy = ConflictPolicy::Skip;
    let plan = planner.create_plan_at(&hits, &vec![rule], options, date()).unwrap();

    let node = &plan.nodes[0];
    assert_eq!(node.path_after, "D:\\Pics\\photos");
    assert_eq!(node.conflicts.len(), 1);
    assert!(matches!(
        &node.conflicts[0],
        filemover::plan::Conflict::NameExists { existing_path } if existing_path == "D:\\Pics\\photos"
    ));
    assert_eq!(plan.summary.conflicts, 1);
}

#[test]
fn scenario_dest_inside_source() {
    let mut planner = MovePlanner::new();
    let rule = Rule::new(
        PatternSpec::new_glob("*"),
        "C:/Work".to_string(),
        "Archive".to_string(),
    );
    let hits = vec![hit("C:/Work", "Work", rule.id)];
    let plan = planner
        .create_plan_at(&hits, &vec![rule], PlanOptions::default(), date())
        .unwrap();

    let node = &plan.nodes[0];
    assert!(node
        .conflicts
        .iter()
        .any(|c| matches!(c, filemover::plan::Conflict::DestInsideSource)));
    assert!(plan.summary.conflicts >= 1);
}

#[test]
fn scenario_incremental_set_skip() {
    let mut planner = MovePlanner::new();
    let rule = Rule::new(PatternSpec::new_glob("*"), "D:\\Pics".to_string(), "{name}".to_string());
    let hits = vec![
        hit("C:\\A\\photos", "photos", rule.id),
        hit("C:\\B\\photos", "photos", rule.id),
    ];
    let mut plan = planner
        .create_plan_at(&hits, &vec![rule], PlanOptions::default(), date())
        .unwrap();

    let first_id = plan
        .nodes
        .iter()
        .find(|n| n.path_after == "D:\\Pics\\photos")
        .unwrap()
        .id;
    let delta = planner
        .update_plan_with_change(&mut plan, NodeChange::SetSkip(first_id, true))
        .unwrap();

    assert_eq!(delta.affected_nodes, vec![first_id]);
    assert!(delta.resolved_conflicts.is_empty());
    assert_eq!(delta.summary_diff.count_dirs_delta, -1);
    assert_eq!(plan.summary.count_dirs, 1);
    assert!(!planner.conflict_resolver.path_exists("D:\\Pics\\photos"));
}

#[test]
fn skip_then_unskip_restores_node() {
    let mut planner = MovePlanner::new();
    let rule = Rule::new(PatternSpec::new_glob("*"), "D:\\Pics".to_string(), "{name}".to_string());
    let hits = vec![hit("C:\\A\\photos", "photos", rule.id)];
    let mut plan = planner
        .create_plan_at(&hits, &vec![rule], PlanOptions::default(), date())
        .unwrap();
    let id = plan.nodes[0].id;
    let before = plan.nodes[0].clone();
    let summary_before = plan.summary.clone();

    planner
        .update_plan_with_change(&mut plan, NodeChange::SetSkip(id, true))
        .unwrap();
    assert_eq!(plan.nodes[0].kind, OpKind::Skip);
    planner
        .update_plan_with_change(&mut plan, NodeChange::SetSkip(id, false))
        .unwrap();

    assert_eq!(plan.nodes[0].kind, before.kind);
    assert_eq!(plan.nodes[0].path_after, before.path_after);
    assert_eq!(plan.nodes[0].conflicts, before.conflicts);
    assert_eq!(plan.summary, summary_before);
}

#[test]
fn exclude_clears_node_and_summary() {
    let mut planner = MovePlanner::new();
    let rule = Rule::new(PatternSpec::new_glob("*"), "D:\\Pics".to_string(), "{name}".to_string());
    let hits = vec![hit("C:\\A\\photos", "photos", rule.id)];
    let mut plan = planner
        .create_plan_at(&hits, &vec![rule], PlanOptions::default(), date())
        .unwrap();
    let id = plan.nodes[0].id;

    let delta = planner
        .update_plan_with_change(&mut plan, NodeChange::ExcludeNode(id))
        .unwrap();

    assert_eq!(plan.nodes[0].kind, OpKind::NoOp);
    assert!(plan.nodes[0].conflicts.is_empty());
    assert_eq!(plan.summary.count_dirs, 0);
    assert_eq!(delta.summary_diff.count_dirs_delta, -1);
}

#[test]
fn noop_when_destination_is_source() {
    let mut planner = MovePlanner::new();
    let rule = Rule::new(PatternSpec::new_glob("*"), "C:\\Data".to_string(), "{name}".to_string());
    let hits = vec![hit("C:\\Data\\x", "x", rule.id)];
    let plan = planner
        .create_plan_at(&hits, &vec![rule], PlanOptions::default(), date())
        .unwrap();

    assert_eq!(plan.nodes[0].kind, OpKind::NoOp);
    assert_eq!(plan.summary.count_dirs, 0);
    assert_eq!(plan.summary.conflicts, 0);
    assert!(plan.summary.total_bytes.is_none());
}

#[test]
fn missing_rule_is_a_plan_validation_error() {
    let mut planner = MovePlanner::new();
    let hits = vec![hit("C:\\A\\photos", "photos", 77)];
    let rules: Vec<Rule> = Vec::new();
    let built = planner.create_plan_at(&hits, &rules, PlanOptions::default(), date());
    assert!(matches!(
        built,
        Err(filemover::error::FileMoverError::PlanValidation { .. })
    ));
}

#[test]
fn plan_order_follows_priority_then_path() {
    let mut planner = MovePlanner::new();
    let mut early = Rule::new(
        PatternSpec::new_glob("a*"),
        "D:\\X".to_string(),
        "{name}".to_string(),
    );
    early.id = 1;
    early.priority = 1;
    let mut late = Rule::new(
        PatternSpec::new_glob("b*"),
        "D:\\X".to_string(),
        "{name}".to_string(),
    );
    late.id = 2;
    late.priority = 5;
    let hits = vec![
        hit("C:\\zz\\b1", "b1", 2),
        hit("C:\\aa\\a2", "a2", 1),
        hit("C:\\bb\\a1", "a1", 1),
    ];
    let plan = planner
        .create_plan_at(&hits, &vec![early, late], PlanOptions::default(), date())
        .unwrap();

    assert_eq!(plan.nodes[0].path_before, "C:\\aa\\a2");
    assert_eq!(plan.nodes[1].path_before, "C:\\bb\\a1");
    assert_eq!(plan.nodes[2].path_before, "C:\\zz\\b1");
}

#[test]
fn nested_sources_hang_under_their_ancestor() {
    let mut planner = MovePlanner::new();
    let rule = create_test_rule();
    let outer = hit("C:\\Source\\test_outer", "test_outer", rule.id);
    let inner = hit("C:\\Source\\test_outer\\test_inner", "test_inner", rule.id);
    let rules = vec![rule];
    let hits = vec![outer, inner];

    let plan = planner.create_plan(&hits, &rules, PlanOptions::default()).unwrap();

    assert_eq!(plan.nodes.len(), 2);
    let outer_idx = plan
        .nodes
        .iter()
        .position(|n| n.path_before == "C:\\Source\\test_outer")
        .unwrap();
    let inner_idx = 1 - outer_idx;
    assert_eq!(plan.nodes[outer_idx].children, vec![plan.nodes[inner_idx].id]);
    assert!(plan.nodes[inner_idx].children.is_empty());
    assert_eq!(plan.roots, vec![plan.nodes[outer_idx].id]);
}

#[test]
fn sibling_sources_are_all_roots() {
    let mut planner = MovePlanner::new();
    let rule = create_test_rule();
    let a = hit("C:\\Source\\test_a", "test_a", rule.id);
    let b = hit("C:\\Source\\test_b", "test_b", rule.id);
    let rules = vec![rule];
    let hits = vec![a, b];

    let plan = planner.create_plan(&hits, &rules, PlanOptions::default()).unwrap();

    assert_eq!(plan.nodes.len(), 2);
    assert!(plan.nodes.iter().all(|n| n.children.is_empty()));
    let ids: Vec<_> = plan.nodes.iter().map(|n| n.id).collect();
    assert_eq!(plan.roots, ids);
}

#[test]
fn destination_on_another_source_is_flagged_cyclic() {
    let mut planner = MovePlanner::new();
    let mut r1 = Rule::new(
        PatternSpec::new_glob("alpha*"),
        "C:\\S".to_string(),
        "{name}".to_string(),
    );
    r1.id = 1;
    let mut r2 = Rule::new(
        PatternSpec::new_glob("alpha*"),
        "D:\\X".to_string(),
        "{name}".to_string(),
    );
    r2.id = 2;
    let a = hit("C:\\other\\alpha1", "alpha1", 1);
    let b = hit("C:\\S\\alpha1", "alpha1", 2);
    let plan = planner
        .create_plan(&vec![a, b], &vec![r1, r2], PlanOptions::default())
        .unwrap();
    let an = plan
        .nodes
        .iter()
        .find(|n| n.path_before == "C:\\other\\alpha1")
        .unwrap();
    assert_eq!(an.path_after, "C:\\S\\alpha1");
    assert!(an.conflicts.contains(&filemover::plan::Conflict::CycleDetected));
    let bn = plan
        .nodes
        .iter()
        .find(|n| n.path_before == "C:\\S\\alpha1")
        .unwrap();
    assert_eq!(bn.path_after, "D:\\X\\alpha1");
}
