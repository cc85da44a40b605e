use filemover::plan::{MovePlan, OpKind, PlanNode, PlanNodeId, PlanSummary};
use filemover::validator::{PlanValidator, APPROX_AVAILABLE_SPACE};

fn node(id: u64, before: &str, after: &str, children: Vec<PlanNodeId>) -> PlanNode {
    PlanNode {
        id: PlanNodeId(id),
        is_dir: true,
        name_before: before.rsplit('\\').next().unwrap().to_string(),
        path_before: before.to_string(),
        name_after: after.rsplit('\\').next().unwrap().to_string(),
        path_after: after.to_string(),
        kind: OpKind::Move,
        size_bytes: None,
        warnings: Vec::new(),
        conflicts: Vec::new(),
        children,
        rule_id: None,
        prior_kind: None,
        prior_conflicts: Vec::new(),
    }
}

#[test]
fn validator_test_cross_volume_detection() {
    let validator = PlanValidator::new();

    assert!(!validator.is_cross_volume("C:\\Source", "C:\\Dest"));
    assert!(validator.is_cross_volume("C:\\Source", "D:\\Dest"));
}

#[test]
fn test_cycle_detection() {
    let node1 = node(1, "C:\\node1", "D:\\node1", vec![PlanNodeId(2)]);
    let node2 = node(2, "C:\\node2", "D:\\node2", vec![PlanNodeId(1)]);

    let plan = MovePlan {
        roots: Vec::new(),
        nodes: vec![node1, node2],
        summary: PlanSummary::default(),
    };

    let validator = PlanValidator::new();
    assert!(validator.detect_cycle(&plan));
}

#[test]
fn nested_sources_are_not_a_cycle() {
    let parent = node(1, "C:\\a", "D:\\a", vec![PlanNodeId(2)]);
    let child = node(2, "C:\\a\\b", "D:\\b", Vec::new());

    let plan = MovePlan {
        roots: vec![PlanNodeId(1)],
        nodes: vec![parent, child],
        summary: PlanSummary::default(),
    };

    let validator = PlanValidator::new();
    assert!(!validator.detect_cycle(&plan));
}

#[test]
fn disk_space_check_uses_fixed_budget() {
    let validator = PlanValidator::new();
    assert!(validator.check_disk_space(APPROX_AVAILABLE_SPACE).is_none());
    let over = validator.check_disk_space(APPROX_AVAILABLE_SPACE + 1);
    assert!(matches!(
        over,
        Some(filemover::plan::Conflict::NoSpace { required, available })
            if required == APPROX_AVAILABLE_SPACE + 1 && available == APPROX_AVAILABLE_SPACE
    ));
}

#[test]
fn full_plan_validation_reports_structural_conflicts() {
    let mut inside = node(1, "C:\\w", "C:\\w\\sub", Vec::new());
    inside.size_bytes = Some(APPROX_AVAILABLE_SPACE + 5);
    let clean = node(2, "C:\\x", "D:\\x", Vec::new());

    let plan = MovePlan {
        roots: vec![PlanNodeId(1), PlanNodeId(2)],
        nodes: vec![inside, clean],
        summary: PlanSummary {
            count_dirs: 2,
            count_files: 0,
            total_bytes: Some(APPROX_AVAILABLE_SPACE + 5),
            cross_volume: 1,
            conflicts: 0,
            warnings: 0,
        },
    };

    let validator = PlanValidator::new();
    let delta = validator.validate_full_plan(&plan).unwrap();
    assert_eq!(delta.affected_nodes, vec![PlanNodeId(1)]);
    assert_eq!(delta.new_conflicts.len(), 2);
    assert!(matches!(delta.new_conflicts[0], filemover::plan::Conflict::DestInsideSource));
    assert!(matches!(delta.new_conflicts[1], filemover::plan::Conflict::NoSpace { .. }));
    assert!(delta.resolved_conflicts.is_empty());
}

#[test]
fn rename_updates_node_and_descendant_paths() {
    let mut planner = filemover::planner::MovePlanner::new();
    let rule = filemover::rule::Rule::new(
        filemover::pattern::PatternSpec::new_glob("*"),
        "D:\\Out".to_string(),
        "{name}".to_string(),
    );
    let hits = vec![filemover::rule::FolderHit {
        path: "C:\\A\\docs".to_string(),
        name: "docs".to_string(),
        matched_rule: Some(rule.id),
        dest_preview: None,
        warnings: Vec::new(),
        size_bytes: None,
    }];
    let mut plan = planner
        .create_plan_at(
            &hits,
            &vec![rule],
            filemover::config::PlanOptions::default(),
            filemover::template::PlanDate { year: 2024, month: 7, day: 1 },
        )
        .unwrap();
    let id = plan.nodes[0].id;

    planner
        .update_plan_with_change(
            &mut plan,
            filemover::plan::NodeChange::RenameNode(id, "papers".to_string()),
        )
        .unwrap();

    assert_eq!(plan.nodes[0].name_after, "papers");
    assert_eq!(plan.nodes[0].path_after, "D:\\Out\\papers");
}

#[test]
fn full_plan_validation_skips_already_recorded_conflicts() {
    let mut inside = node(1, "C:\\w", "C:\\w\\sub", Vec::new());
    inside.conflicts = vec![filemover::plan::Conflict::DestInsideSource];
    let plan = MovePlan {
        roots: vec![PlanNodeId(1)],
        nodes: vec![inside],
        summary: PlanSummary {
            count_dirs: 1,
            count_files: 0,
            total_bytes: None,
            cross_volume: 0,
            conflicts: 1,
            warnings: 0,
        },
    };
    let validator = PlanValidator::new();
    let delta = validator.validate_full_plan(&plan).unwrap();
    assert!(delta.affected_nodes.is_empty());
    assert_eq!(delta.new_conflicts.len(), 1);
}

#[test]
fn resource_conflicts_follow_the_probe_answers() {
    let both = PlanValidator::resource_conflicts(Some(10), Some(4), Some(false));
    assert_eq!(both.len(), 2);
    assert!(matches!(
        both[0],
        filemover::plan::Conflict::NoSpace { required: 10, available: 4 }
    ));
    assert!(matches!(
        both[1],
        filemover::plan::Conflict::Permission {
            required: filemover::plan::Permission::FileSystemWrite
        }
    ));
    assert!(PlanValidator::resource_conflicts(Some(4), Some(10), Some(true)).is_empty());
    assert!(PlanValidator::resource_conflicts(Some(10), None, None).is_empty());
    assert!(PlanValidator::resource_conflicts(None, Some(0), None).is_empty());
}

#[test]
fn full_plan_validation_reports_stale_conflicts() {
    let mut clean = node(1, "C:\\x", "D:\\x", Vec::new());
    clean.conflicts = vec![filemover::plan::Conflict::CycleDetected];
    let plan = MovePlan {
        roots: vec![PlanNodeId(1)],
        nodes: vec![clean],
        summary: PlanSummary {
            count_dirs: 1,
            count_files: 0,
            total_bytes: None,
            cross_volume: 1,
            conflicts: 1,
            warnings: 0,
        },
    };
    let validator = PlanValidator::new();
    let delta = validator.validate_full_plan(&plan).unwrap();
    assert_eq!(delta.affected_nodes, vec![PlanNodeId(1)]);
    assert!(delta.new_conflicts.is_empty());
}
