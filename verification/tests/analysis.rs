use cleanr::evidence::{
    CandidateId, ActivitySource, DecisionCode, OverlapEvidence, RecommendationPolicy, RecommendationState,
    RuleResolutionState, ScanIssue, ScanIssueCode,
};
use cleanr::model::{
    CleanupItemFingerprint, CleanupPlanBuildError, Confidence, EntryKind, RuleHit, RuleMatchRole,
    RuleTrust, ScanEntry,
};
use cleanr::planning::{
    build_cleanup_plan, build_cleanup_plan_from_analysis, inactivity_qualified_candidate_count,
};
use cleanr::activity::tree_fingerprints;
use cleanr::budget::ScanBudgetExceeded;
use cleanr::report::{
    build_analysis_report, build_analysis_report_with_budget, build_analysis_report_with_safety_policy,
    UserSelection,
};
use cleanr::safety::SafetyPolicy;

const SECOND: i64 = 1_000_000_000;
const DAY: i64 = 86_400 * SECOND;
const AS_OF: i64 = 1_750_000_000 * SECOND;

fn hit(confidence: Confidence, default_selected: bool, trust: RuleTrust) -> RuleHit {
    RuleHit {
        rule_pack_id: "builtin-dev".to_string(),
        rule_id: "cache".to_string(),
        label: "Cache".to_string(),
        category: "developer-cache".to_string(),
        confidence,
        reason: "rebuildable".to_string(),
        risk_note: "rebuild".to_string(),
        default_selected,
        trust,
        match_role: RuleMatchRole::Primary,
        sources: Vec::new(),
    }
}

fn named_hit(pack: &str, rule_id: &str, confidence: Confidence, default_selected: bool, trust: RuleTrust, reason: &str, risk_note: &str) -> RuleHit {
    RuleHit {
        rule_pack_id: pack.to_string(),
        rule_id: rule_id.to_string(),
        label: rule_id.to_string(),
        category: "developer-cache".to_string(),
        confidence,
        reason: reason.to_string(),
        risk_note: risk_note.to_string(),
        default_selected,
        trust,
        match_role: RuleMatchRole::Primary,
        sources: Vec::new(),
    }
}

fn entry(path: &str, modified_at: Option<i64>, rule_hits: Vec<RuleHit>) -> ScanEntry {
    ScanEntry {
        path: path.to_string(),
        kind: EntryKind::Directory,
        size_bytes: 1,
        modified_at,
        rule_hits,
    }
}

fn node(path: &str, kind: EntryKind, size_bytes: u64, modified_at: Option<i64>, rule_hits: Vec<RuleHit>) -> ScanEntry {
    ScanEntry {
        path: path.to_string(),
        kind,
        size_bytes,
        modified_at,
        rule_hits,
    }
}

fn repo() -> Vec<String> {
    vec!["/repo".to_string()]
}

#[test]
fn incomplete_descendant_blocks_a_parent_recommendation() {
    let entries = vec![
        entry("/repo/cache", Some(AS_OF - 100 * DAY), vec![hit(Confidence::High, true, RuleTrust::Builtin)]),
        entry("/repo/cache/child", Some(AS_OF - 100 * DAY), vec![hit(Confidence::High, true, RuleTrust::Builtin)]),
    ];
    let report = build_analysis_report(
        AS_OF,
        AS_OF,
        repo(),
        &entries,
        &[ScanIssue {
            code: ScanIssueCode::MetadataUnavailable,
            path: Some("/repo/cache/child/lost".to_string()),
        }],
        RecommendationPolicy::default(),
    )
    .expect("valid policy");
    let parent = report
        .candidates
        .iter()
        .find(|candidate| candidate.local_path == "/repo/cache")
        .expect("parent candidate");
    assert_eq!(parent.recommendation.state, RecommendationState::Review);
    assert!(parent
        .recommendation
        .codes
        .contains(&DecisionCode::CandidateCoveragePartial));
}

#[test]
fn age_boundaries_are_calculated_from_one_as_of_instant() {
    for (days, expected_state, expected_code) in [
        (89, RecommendationState::Available, DecisionCode::RecentObservedContent),
        (90, RecommendationState::Preselected, DecisionCode::AgeThresholdMet),
        (91, RecommendationState::Preselected, DecisionCode::AgeThresholdMet),
    ] {
        let report = build_analysis_report(
            AS_OF,
            AS_OF,
            repo(),
            &[entry(
                "/repo/cache",
                Some(AS_OF - days * DAY),
                vec![hit(Confidence::High, true, RuleTrust::Builtin)],
            )],
            &[],
            RecommendationPolicy::default(),
        )
        .expect("valid policy");
        let candidate = &report.candidates[0];
        assert_eq!(candidate.activity.age_days, Some(days as u32));
        assert_eq!(candidate.recommendation.state, expected_state);
        assert!(candidate.recommendation.codes.contains(&expected_code));
    }
}

#[test]
fn newer_descendant_makes_a_directory_recent() {
    let report = build_analysis_report(
        AS_OF,
        AS_OF,
        repo(),
        &[
            entry("/repo/cache", Some(AS_OF - 100 * DAY), vec![hit(Confidence::High, true, RuleTrust::Builtin)]),
            node("/repo/cache/new-file", EntryKind::File, 1, Some(AS_OF - DAY), vec![]),
        ],
        &[],
        RecommendationPolicy::default(),
    )
    .expect("valid policy");
    let candidate = &report.candidates[0];
    assert_eq!(candidate.activity.source, ActivitySource::Descendant);
    assert_eq!(candidate.activity.age_days, Some(1));
    assert_eq!(candidate.recommendation.state, RecommendationState::Available);
    assert!(candidate
        .recommendation
        .codes
        .contains(&DecisionCode::RecentObservedContent));
}

#[test]
fn future_timestamp_and_rule_conflict_require_review() {
    let mut conflicting_hit = hit(Confidence::Medium, false, RuleTrust::Builtin);
    conflicting_hit.rule_id = "other-cache".to_string();
    let report = build_analysis_report(
        AS_OF,
        AS_OF,
        repo(),
        &[entry(
            "/repo/cache",
            Some(AS_OF + SECOND),
            vec![conflicting_hit, hit(Confidence::High, true, RuleTrust::Builtin)],
        )],
        &[],
        RecommendationPolicy::default(),
    )
    .expect("valid policy");
    let candidate = &report.candidates[0];
    assert_eq!(candidate.rules.state, RuleResolutionState::UnresolvedConflict);
    assert_eq!(candidate.recommendation.state, RecommendationState::Review);
    assert!(candidate.recommendation.codes.contains(&DecisionCode::TimestampAfterAsOf));
    assert!(candidate
        .recommendation
        .codes
        .contains(&DecisionCode::UnresolvedRuleConflict));
}

#[test]
fn missing_timestamps_require_review_but_zero_disables_only_the_age_gate() {
    let missing_time_report = build_analysis_report(
        AS_OF,
        AS_OF,
        repo(),
        &[entry("/repo/cache", None, vec![hit(Confidence::High, true, RuleTrust::Builtin)])],
        &[],
        RecommendationPolicy::default(),
    )
    .expect("valid policy");
    assert_eq!(
        missing_time_report.candidates[0].recommendation.state,
        RecommendationState::Review
    );
    assert!(missing_time_report.candidates[0]
        .recommendation
        .codes
        .contains(&DecisionCode::TimestampMissing));

    let disabled_age_gate = RecommendationPolicy::new(0).expect("disabled age gate");
    let zero_threshold_report = build_analysis_report(
        AS_OF,
        AS_OF,
        repo(),
        &[entry("/repo/cache", Some(AS_OF - DAY), vec![hit(Confidence::High, true, RuleTrust::Builtin)])],
        &[],
        disabled_age_gate,
    )
    .expect("valid policy");
    assert_eq!(
        zero_threshold_report.candidates[0].recommendation.state,
        RecommendationState::Preselected
    );
    assert!(zero_threshold_report.candidates[0]
        .recommendation
        .codes
        .contains(&DecisionCode::AgeGateDisabled));
}

#[test]
fn overlap_keeps_the_suppressed_candidate_as_evidence() {
    let report = build_analysis_report(
        AS_OF,
        AS_OF,
        repo(),
        &[
            entry("/repo/cache", Some(AS_OF - 100 * DAY), vec![hit(Confidence::High, true, RuleTrust::Builtin)]),
            entry("/repo/cache/child", Some(AS_OF - 100 * DAY), vec![hit(Confidence::High, true, RuleTrust::Builtin)]),
        ],
        &[],
        RecommendationPolicy::default(),
    )
    .expect("valid policy");
    assert_eq!(report.candidates.len(), 2);
    let parent = report
        .candidates
        .iter()
        .find(|candidate| candidate.local_path == "/repo/cache")
        .expect("parent candidate");
    let child = report
        .candidates
        .iter()
        .find(|candidate| candidate.local_path == "/repo/cache/child")
        .expect("child candidate");
    assert!(matches!(parent.overlap, OverlapEvidence::Primary { .. }));
    assert!(matches!(child.overlap, OverlapEvidence::Suppressed { .. }));
    assert_eq!(child.recommendation.state, RecommendationState::Suppressed);
    assert!(child.recommendation.codes.contains(&DecisionCode::OverlapSuppressed));
}

#[test]
fn user_selection_does_not_change_recommendation_facts() {
    let report = build_analysis_report(
        AS_OF,
        AS_OF,
        repo(),
        &[entry("/repo/cache", Some(AS_OF - 100 * DAY), vec![hit(Confidence::High, true, RuleTrust::Builtin)])],
        &[],
        RecommendationPolicy::default(),
    )
    .expect("valid policy");
    let candidate = &report.candidates[0];
    let decision = candidate.recommendation.clone();
    let mut selection = UserSelection::from_recommendations(&report);
    selection.deselect(&candidate.id);

    assert!(selection.candidate_ids.is_empty());
    assert_eq!(report.candidates[0].recommendation, decision);
}

#[test]
fn plan_selects_only_high_confidence_defaults() {
    let entries = vec![
        node(
            "node_modules",
            EntryKind::Directory,
            10,
            None,
            vec![named_hit("builtin-dev", "node-modules", Confidence::High, true, RuleTrust::Builtin, "reinstallable dependency cache", "can be restored by package manager")],
        ),
        node(
            "Downloads/big.zip",
            EntryKind::File,
            20,
            None,
            vec![named_hit("builtin-general", "large-download", Confidence::Low, false, RuleTrust::Builtin, "large download", "user data review required")],
        ),
    ];

    let plan = build_cleanup_plan(vec![".".to_string()], vec![], &entries);
    assert_eq!(plan.summary.candidate_count, 2);
    assert_eq!(plan.summary.selected_count, 1);
    assert!(plan.items.iter().any(|item| item.selected));
    assert!(plan.source_scan.is_none());
}

#[test]
fn analysis_plan_uses_the_same_ninety_day_candidate_boundary() {
    let h = hit(Confidence::High, true, RuleTrust::Builtin);
    let entries = [89_i64, 90, 91, 1]
        .into_iter()
        .map(|days| entry(&format!("/repo/cache-{days}"), Some(AS_OF - days * DAY), vec![h.clone()]))
        .collect::<Vec<_>>();
    let safety = SafetyPolicy::default();
    let analysis = build_analysis_report_with_safety_policy(
        AS_OF,
        AS_OF,
        repo(),
        &entries,
        &[],
        RecommendationPolicy::default(),
        &safety,
    )
    .expect("default policy is valid");
    let selection = UserSelection::from_recommendations(&analysis);
    let plan = build_cleanup_plan_from_analysis(repo(), vec![], &entries, &analysis, &selection, &safety)
        .expect("supported complete analysis");

    let source_scan = plan
        .source_scan
        .as_ref()
        .expect("analysis plan retains scan provenance");
    assert_eq!(source_scan.analysis_id, analysis.analysis_id);
    assert_eq!(source_scan.integrity, analysis.scan.integrity);
    assert_eq!(source_scan.recommendation_policy.as_ref(), Some(&analysis.policy));
    assert!(source_scan.budget_exceeded.is_empty());

    let item = |path: &str| {
        plan.items
            .iter()
            .find(|item| item.path == path)
            .expect("inactive candidate appears in plan")
    };
    assert_eq!(plan.summary.candidate_count, 2);
    assert!(plan.items.iter().all(|item| item.selected));
    assert!(!plan.items.iter().any(|item| item.path == "/repo/cache-89"));
    assert!(item("/repo/cache-90").selected);
    assert!(item("/repo/cache-91").selected);
    assert!(!plan.items.iter().any(|item| item.path == "/repo/cache-1"));
    let evidence = plan.items[0]
        .evidence
        .as_ref()
        .expect("analysis plan keeps recommendation evidence");
    assert_eq!(evidence.matched_rules.len(), 1);
    assert_eq!(evidence.rule_resolution_state, RuleResolutionState::Single);
    assert!(!evidence.decision_codes.is_empty());
}

#[test]
fn v1_analysis_plan_keeps_below_threshold_candidates_for_legacy_validation() {
    let h = hit(Confidence::High, true, RuleTrust::Builtin);
    let entries = [1_i64, 100]
        .into_iter()
        .map(|days| entry(&format!("/repo/cache-{days}"), Some(AS_OF - days * DAY), vec![h.clone()]))
        .collect::<Vec<_>>();
    let safety = SafetyPolicy::default();
    let legacy_policy = RecommendationPolicy {
        version: "v1".to_string(),
        ..RecommendationPolicy::default()
    };
    let analysis = build_analysis_report_with_safety_policy(
        AS_OF,
        AS_OF,
        repo(),
        &entries,
        &[],
        legacy_policy,
        &safety,
    )
    .expect("v1 policy remains supported");
    let plan = build_cleanup_plan_from_analysis(
        repo(),
        Vec::new(),
        &entries,
        &analysis,
        &UserSelection::from_recommendations(&analysis),
        &safety,
    )
    .expect("v1 plan projection");

    assert_eq!(plan.items.len(), 2);
    assert_eq!(plan.summary.selected_count, 1);
    assert!(plan
        .items
        .iter()
        .any(|item| item.path == "/repo/cache-1" && !item.selected));
}

#[test]
fn explicit_selection_can_include_a_recent_review_candidate() {
    let recent_path = "/repo/recent-cache".to_string();
    let entries = vec![entry(&recent_path, Some(AS_OF - DAY), vec![hit(Confidence::High, true, RuleTrust::Builtin)])];
    let safety = SafetyPolicy::default();
    let analysis = build_analysis_report_with_safety_policy(
        AS_OF,
        AS_OF,
        repo(),
        &entries,
        &[],
        RecommendationPolicy::default(),
        &safety,
    )
    .expect("default policy is valid");

    let default_plan = build_cleanup_plan_from_analysis(
        repo(),
        vec![],
        &entries,
        &analysis,
        &UserSelection::from_recommendations(&analysis),
        &safety,
    )
    .expect("default plan");
    assert!(default_plan.items.is_empty());

    let mut explicit_selection = UserSelection::default();
    explicit_selection.select(analysis.candidates[0].id.clone());
    let explicit_plan = build_cleanup_plan_from_analysis(
        repo(),
        vec![],
        &entries,
        &analysis,
        &explicit_selection,
        &safety,
    )
    .expect("explicit plan");
    assert_eq!(explicit_plan.items.len(), 1);
    assert!(explicit_plan.items[0].selected);
    assert_eq!(explicit_plan.items[0].path, recent_path);
}

#[test]
fn analysis_plan_builder_rejects_budget_exhaustion_and_unknown_schemas() {
    let entries = vec![entry("/repo/cache", Some(AS_OF - 100 * DAY), vec![hit(Confidence::High, true, RuleTrust::Builtin)])];
    let safety = SafetyPolicy::default();
    let budget = [ScanBudgetExceeded::EntryCount { limit: 1, observed: 2 }];
    let analysis = build_analysis_report_with_budget(
        AS_OF,
        AS_OF,
        repo(),
        &entries,
        &[],
        &budget,
        RecommendationPolicy::default(),
    )
    .expect("valid policy");

    let error = build_cleanup_plan_from_analysis(
        repo(),
        vec![],
        &entries,
        &analysis,
        &UserSelection::default(),
        &safety,
    )
    .expect_err("budget analysis must not create a plan");
    assert_eq!(error, CleanupPlanBuildError::ScanBudgetExceeded);

    let mut future_analysis = analysis;
    future_analysis.scan.budget_exceeded.clear();
    future_analysis.schema_version = "cleanr.analysis.v999".to_string();
    let error = build_cleanup_plan_from_analysis(
        repo(),
        vec![],
        &entries,
        &future_analysis,
        &UserSelection::default(),
        &safety,
    )
    .expect_err("unknown analysis schemas must fail closed");
    assert_eq!(
        error,
        CleanupPlanBuildError::UnsupportedAnalysisSchema {
            found: "cleanr.analysis.v999".to_string(),
        }
    );
}

#[test]
fn overlapping_selections_are_refused() {
    let entries = vec![
        entry("/repo/cache", Some(AS_OF - 100 * DAY), vec![hit(Confidence::High, true, RuleTrust::Builtin)]),
        entry("/repo/cache/child", Some(AS_OF - 100 * DAY), vec![hit(Confidence::High, true, RuleTrust::Builtin)]),
    ];
    let safety = SafetyPolicy::default();
    let analysis = build_analysis_report(AS_OF, AS_OF, repo(), &entries, &[], RecommendationPolicy::default())
        .expect("valid policy");
    let mut selection = UserSelection::default();
    for candidate in &analysis.candidates {
        selection.select(candidate.id.clone());
    }
    let plan = build_cleanup_plan_from_analysis(repo(), vec![], &entries, &analysis, &selection, &safety)
        .expect("a suppressed candidate does not take part in the selection");
    assert_eq!(plan.items.len(), 1);
    assert_eq!(plan.items[0].path, "/repo/cache");

    let mut edited = analysis.clone();
    for candidate in &mut edited.candidates {
        candidate.recommendation.state = RecommendationState::Available;
    }
    let error = build_cleanup_plan_from_analysis(repo(), vec![], &entries, &edited, &selection, &safety)
        .expect_err("overlapping selection");
    assert_eq!(
        error,
        CleanupPlanBuildError::OverlappingSelection {
            left: "/repo/cache".to_string(),
            right: "/repo/cache/child".to_string()
        }
    );
}

#[test]
fn analysis_plan_does_not_let_a_safety_excluded_parent_hide_a_safe_child() {
    let h = hit(Confidence::High, true, RuleTrust::Builtin);
    let entries = vec![
        node("/repo/cache", EntryKind::Directory, 10, Some(AS_OF - 100 * DAY), vec![h.clone()]),
        node("/repo/cache/child", EntryKind::Directory, 5, Some(AS_OF - 100 * DAY), vec![h]),
    ];
    let safety = SafetyPolicy::new(vec!["/repo/cache/protected".to_string()], true);
    let analysis = build_analysis_report_with_safety_policy(
        AS_OF,
        AS_OF,
        repo(),
        &entries,
        &[],
        RecommendationPolicy::default(),
        &safety,
    )
    .expect("default policy is valid");
    let parent = analysis
        .candidates
        .iter()
        .find(|candidate| candidate.local_path == "/repo/cache")
        .expect("parent candidate");
    let child = analysis
        .candidates
        .iter()
        .find(|candidate| candidate.local_path == "/repo/cache/child")
        .expect("child candidate");
    assert_eq!(parent.recommendation.state, RecommendationState::Excluded);
    assert_ne!(child.recommendation.state, RecommendationState::Suppressed);

    let selection = UserSelection::from_recommendations(&analysis);
    let plan = build_cleanup_plan_from_analysis(repo(), vec![], &entries, &analysis, &selection, &safety)
        .expect("supported complete analysis");
    assert_eq!(plan.items.len(), 1);
    assert_eq!(plan.items[0].path, "/repo/cache/child");
    assert!(plan.items[0].selected);
}

#[test]
fn plan_rule_ties_use_a_stable_rule_key_not_input_order() {
    let h = |rule_id: &str| named_hit("builtin-dev", rule_id, Confidence::High, true, RuleTrust::Builtin, "equivalent generated cache", "rebuild");
    let make_entry = |rule_hits| node("/repo/cache", EntryKind::Directory, 1, None, rule_hits);

    let forward = build_cleanup_plan(repo(), vec![], &[make_entry(vec![h("z-rule"), h("a-rule")])]);
    let reverse = build_cleanup_plan(repo(), vec![], &[make_entry(vec![h("a-rule"), h("z-rule")])]);

    assert_eq!(forward.items[0].rule_id, "builtin-dev:a-rule");
    assert_eq!(forward.items[0].rule_id, reverse.items[0].rule_id);
}

#[test]
fn plan_removes_overlapping_parent_and_child_candidates() {
    let h = |rule_id: &str| named_hit("builtin-dev", rule_id, Confidence::High, true, RuleTrust::Builtin, "generated", "rebuild");
    let entries = vec![
        node("/repo/node_modules", EntryKind::Directory, 100, None, vec![h("node-modules")]),
        node("/repo/node_modules/pkg/node_modules", EntryKind::Directory, 40, None, vec![h("node-modules")]),
    ];

    let plan = build_cleanup_plan(repo(), vec![], &entries);
    assert_eq!(plan.summary.candidate_count, 1);
    assert_eq!(plan.summary.selected_size_bytes, 100);
    assert_eq!(plan.items[0].path, "/repo/node_modules");
}

#[test]
fn directory_candidates_include_tree_fingerprints() {
    let h = named_hit("builtin-dev", "cache", Confidence::High, true, RuleTrust::Builtin, "generated", "rebuild");
    let modified_at = AS_OF;
    let newer_modified_at = modified_at + SECOND;
    let entries = vec![
        node("/repo/cache", EntryKind::Directory, 7, Some(modified_at), vec![h]),
        node("/repo/cache/file", EntryKind::File, 3, Some(modified_at), Vec::new()),
        node("/repo/cache/nested", EntryKind::Directory, 4, Some(modified_at), Vec::new()),
        node("/repo/cache/nested/file", EntryKind::File, 4, Some(newer_modified_at), Vec::new()),
    ];

    let plan = build_cleanup_plan(repo(), vec![], &entries);

    assert_eq!(
        plan.items[0].tree_fingerprint,
        Some(CleanupItemFingerprint {
            descendants: 3,
            total_size_bytes: 7,
            latest_modified_at: Some(newer_modified_at),
        })
    );
}

#[test]
fn tree_fingerprints_are_order_independent_across_multiple_roots() {
    let modified_at = AS_OF;
    let newer_modified_at = modified_at + SECOND;
    let entries = vec![
        node("/first", EntryKind::Directory, 5, Some(modified_at), Vec::new()),
        node("/first/nested", EntryKind::Directory, 5, Some(modified_at), Vec::new()),
        node("/first/nested/file", EntryKind::File, 5, Some(newer_modified_at), Vec::new()),
        node("/second", EntryKind::Directory, 7, Some(modified_at), Vec::new()),
        node("/second/file", EntryKind::File, 7, Some(modified_at), Vec::new()),
    ];
    let reversed = entries.iter().cloned().rev().collect::<Vec<_>>();
    let paths = vec!["/first".to_string(), "/second".to_string()];

    let forward = tree_fingerprints(&entries, &paths);
    let backward = tree_fingerprints(&reversed, &paths);

    assert_eq!(forward, backward);
    assert_eq!(
        forward[0],
        Some(CleanupItemFingerprint {
            descendants: 2,
            total_size_bytes: 5,
            latest_modified_at: Some(newer_modified_at),
        })
    );
    assert_eq!(
        forward[1],
        Some(CleanupItemFingerprint {
            descendants: 1,
            total_size_bytes: 7,
            latest_modified_at: Some(modified_at),
        })
    );
}

#[test]
fn tree_fingerprints_stop_at_a_missing_immediate_parent() {
    let root_modified_at = AS_OF;
    let descendant_modified_at = root_modified_at + SECOND;
    let entries = vec![
        node("/repo/cache", EntryKind::Directory, 5, Some(root_modified_at), Vec::new()),
        node("/repo/cache/missing/file", EntryKind::File, 5, Some(descendant_modified_at), Vec::new()),
    ];

    let fingerprints = tree_fingerprints(&entries, &["/repo/cache".to_string()]);

    assert_eq!(
        fingerprints[0],
        Some(CleanupItemFingerprint {
            descendants: 0,
            total_size_bytes: 5,
            latest_modified_at: Some(root_modified_at),
        })
    );
}

#[test]
fn selected_child_wins_over_unselected_parent() {
    let entries = vec![
        node(
            "/repo/cache",
            EntryKind::Directory,
            100,
            None,
            vec![named_hit("custom", "review-parent", Confidence::Medium, false, RuleTrust::Trusted, "review", "review")],
        ),
        node(
            "/repo/cache/generated",
            EntryKind::Directory,
            40,
            None,
            vec![named_hit("custom", "safe-child", Confidence::High, true, RuleTrust::Trusted, "generated", "rebuild")],
        ),
    ];

    let plan = build_cleanup_plan(repo(), vec![], &entries);
    assert_eq!(plan.summary.candidate_count, 1);
    assert_eq!(plan.items[0].path, "/repo/cache/generated");
    assert!(plan.items[0].selected);
}

#[test]
fn scan_root_itself_is_never_a_cleanup_candidate() {
    for scan_root in ["/repo".to_string(), "cleanr-core-missing-scan-root-fixture".to_string()] {
        let e = node(
            &scan_root,
            EntryKind::Directory,
            100,
            None,
            vec![named_hit("trusted", "broad", Confidence::High, true, RuleTrust::Trusted, "generated", "dangerous")],
        );

        let plan = build_cleanup_plan(vec![scan_root.clone()], vec![], &[e]);

        assert!(plan.items.is_empty(), "scan root became a cleanup candidate: {}", scan_root);
    }
}

#[test]
fn legacy_plan_omits_unresolved_rule_conflicts() {
    let h = |rule_id: &str, trust: RuleTrust, confidence: Confidence, default_selected: bool| RuleHit {
        rule_pack_id: "pack".into(),
        rule_id: rule_id.into(),
        label: rule_id.into(),
        category: "cache".into(),
        confidence,
        reason: rule_id.into(),
        risk_note: "review".into(),
        default_selected,
        trust,
        match_role: RuleMatchRole::Primary,
        sources: Vec::new(),
    };
    let e = node(
        "/repo/cache",
        EntryKind::Directory,
        42,
        None,
        vec![
            h("untrusted", RuleTrust::Untrusted, Confidence::High, true),
            h("trusted", RuleTrust::Trusted, Confidence::Medium, false),
            h("builtin", RuleTrust::Builtin, Confidence::Low, false),
        ],
    );

    let plan = build_cleanup_plan(repo(), vec![], &[e]);

    assert!(plan.items.is_empty());
}

#[test]
fn inactive_candidates_are_counted_under_the_analysis_policy() {
    let h = hit(Confidence::High, true, RuleTrust::Builtin);
    let entries = [89_i64, 90, 200]
        .into_iter()
        .map(|days| entry(&format!("/repo/cache-{days}"), Some(AS_OF - days * DAY), vec![h.clone()]))
        .collect::<Vec<_>>();
    let analysis = build_analysis_report(AS_OF, AS_OF, repo(), &entries, &[], RecommendationPolicy::default())
        .expect("valid policy");
    assert_eq!(inactivity_qualified_candidate_count(&analysis), 2);
}

#[test]
fn overlap_primary_is_the_preferred_member_of_its_cluster() {
    let report = build_analysis_report(
        AS_OF,
        AS_OF,
        repo(),
        &[
            entry("/repo/cache", Some(AS_OF - 100 * DAY), vec![hit(Confidence::Medium, true, RuleTrust::Builtin)]),
            entry("/repo/cache/a", Some(AS_OF - 100 * DAY), vec![hit(Confidence::High, true, RuleTrust::Builtin)]),
            entry("/repo/cache/b", Some(AS_OF - 100 * DAY), vec![hit(Confidence::Medium, true, RuleTrust::Builtin)]),
        ],
        &[],
        RecommendationPolicy::default(),
    )
    .expect("valid policy");
    let by_path = |path: &str| {
        report
            .candidates
            .iter()
            .find(|candidate| candidate.local_path == path)
            .expect("candidate")
            .clone()
    };
    let parent = by_path("/repo/cache");
    let preferred = by_path("/repo/cache/a");
    let sibling = by_path("/repo/cache/b");
    assert_eq!(
        preferred.overlap,
        OverlapEvidence::Primary { alternatives: vec![parent.id.clone(), sibling.id.clone()] }
    );
    assert_eq!(preferred.recommendation.state, RecommendationState::Preselected);
    for member in [&parent, &sibling] {
        assert_eq!(member.overlap, OverlapEvidence::Suppressed { by: preferred.id.clone() });
        assert_eq!(member.recommendation.state, RecommendationState::Suppressed);
        assert!(!member.recommendation.initial_selected);
        assert!(member.recommendation.codes.contains(&DecisionCode::OverlapSuppressed));
    }
}

fn is_v4_uuid(text: &str) -> bool {
    let chars: Vec<char> = text.chars().collect();
    chars.len() == 36
        && chars.iter().enumerate().all(|(i, c)| {
            if [8, 13, 18, 23].contains(&i) {
                *c == '-'
            } else {
                c.is_ascii_digit() || ('a'..='f').contains(c)
            }
        })
        && chars[14] == '4'
        && ['8', '9', 'a', 'b'].contains(&chars[19])
}

#[test]
fn analysis_and_candidate_ids_are_v4_uuids() {
    let report = build_analysis_report(
        AS_OF,
        AS_OF,
        repo(),
        &[entry("/repo/cache", Some(AS_OF - 100 * DAY), vec![hit(Confidence::High, true, RuleTrust::Builtin)])],
        &[],
        RecommendationPolicy::default(),
    )
    .expect("valid policy");
    assert!(is_v4_uuid(report.analysis_id.as_str()));
    assert!(is_v4_uuid(report.candidates[0].id.as_str()));
}

#[test]
fn selections_keep_ids_in_ascending_order() {
    let mut selection = UserSelection::default();
    for id in ["c", "a", "b", "a"] {
        selection.select(CandidateId::from_text(id.to_string()));
    }
    let ids: Vec<&str> = selection.candidate_ids.iter().map(|id| id.as_str()).collect();
    assert_eq!(ids, vec!["a", "b", "c"]);
    selection.deselect(&CandidateId::from_text("b".to_string()));
    let ids: Vec<&str> = selection.candidate_ids.iter().map(|id| id.as_str()).collect();
    assert_eq!(ids, vec!["a", "c"]);
}
