use cleanr::agent::{command_palette, LocalAgent, PathContext};
use cleanr::config::{parse_bool, CleanupAction, UiTheme};
use cleanr::evidence::{
    CandidateCoverage, RecommendationPolicy, ReportIntegrity, RuleResolutionState, ScanIssue,
    ScanIssueCode, MAX_RECOMMENDATION_AGE_DAYS,
};
use cleanr::i18n::github_raw_language_url;
use cleanr::model::{
    default_global_scan_kinds, parse_global_scan_kind, CleanupPlanScanScope, Confidence,
    GlobalScanKind, RuleHit, RuleMatchRole, RuleTrust,
};
use cleanr::plugin::{
    github_raw_plugin_index_url, safe_plugin_file_path, PluginCapability, PluginHooks,
    PluginManifest, PLUGIN_API_VERSION,
};
use cleanr::recommend::{candidate_coverage, resolve_rules};
use cleanr::safety::SafetyPolicy;

fn hit(confidence: Confidence, default_selected: bool, trust: RuleTrust) -> RuleHit {
    RuleHit {
        rule_pack_id: "builtin-dev".to_string(),
        rule_id: "cache".to_string(),
        label: "Cache".to_string(),
        category: "developer-cache".to_string(),
        confidence,
        reason: "rebuildable".to_string(),
        risk_note: "rebuild".to_string(),
        default_selected,
        trust,
        match_role: RuleMatchRole::Primary,
        sources: Vec::new(),
    }
}

#[test]
fn command_palette_hides_scan_dependent_commands_until_results_exist() {
    let before_scan = command_palette(false);
    assert!(before_scan.iter().all(|command| !command.requires_scan));
    assert!(!before_scan.iter().any(|command| command.name == "/review"));
    assert!(before_scan.iter().any(|command| {
        command.name == "/scan --global" && command.description_key == "command_scan_global"
    }));
    assert!(before_scan.iter().any(|command| {
        command.name == "/usage --global" && command.description_key == "command_usage_global"
    }));

    let after_scan = command_palette(true);
    assert!(after_scan.iter().any(|command| command.name == "/review"));
    assert!(after_scan.iter().any(|command| command.name == "/clean --confirm"));
}

#[test]
fn local_path_explanations_distinguish_known_and_unknown_paths() {
    let known = LocalAgent.explain_path("/repo/node_modules", &PathContext::default());
    assert_eq!(known.source, "npm / yarn / pnpm");
    assert_eq!(known.risk, "low");

    let unknown = LocalAgent.explain_path("/repo/user-data", &PathContext::default());
    assert_eq!(unknown.source, "unknown");
    assert_eq!(unknown.risk, "medium");
}

#[test]
fn boolean_parser_accepts_cli_friendly_spellings() {
    for value in ["true", "TRUE", "1", "yes", "on"] {
        assert!(parse_bool(value).expect(value));
    }
    for value in ["false", "FALSE", "0", "no", "off"] {
        assert!(!parse_bool(value).expect(value));
    }
    assert!(parse_bool("maybe").is_err());
}

#[test]
fn github_plugin_index_url_is_constrained_to_safe_repo_refs() {
    assert_eq!(
        github_raw_plugin_index_url("owner/repo", "main").expect("url"),
        "https://raw.githubusercontent.com/owner/repo/main/plugins/index.json"
    );
    assert!(github_raw_plugin_index_url("owner", "main").is_err());
    assert!(github_raw_plugin_index_url("owner/repo", "../main").is_err());
}

#[test]
fn plugin_file_paths_cannot_escape_install_root() {
    assert_eq!(
        safe_plugin_file_path(&"rules/caches.toml".to_string()).expect("path"),
        "rules/caches.toml"
    );
    assert!(safe_plugin_file_path(&"../plugin.toml".to_string()).is_err());
    assert!(safe_plugin_file_path(&"/tmp/plugin.toml".to_string()).is_err());
    assert!(safe_plugin_file_path(&String::new()).is_err());
}

#[test]
fn text_enums_are_case_insensitive_and_reject_unknown_values() {
    assert_eq!("DARK".parse::<UiTheme>().expect("theme"), UiTheme::Dark);
    assert!("delete".parse::<CleanupAction>().is_err());
    assert!("system".parse::<UiTheme>().is_err());
}

#[test]
fn policy_rejects_ages_larger_than_ten_years() {
    assert!(RecommendationPolicy::new(MAX_RECOMMENDATION_AGE_DAYS).is_ok());
    assert!(RecommendationPolicy::new(MAX_RECOMMENDATION_AGE_DAYS + 1).is_err());
}

#[test]
fn report_integrity_ignores_intentional_exclusions() {
    let ignored = ScanIssue {
        code: ScanIssueCode::IgnoredByConfig,
        path: Some("/repo/.git".to_string()),
    };
    assert_eq!(ReportIntegrity::from_issues(&[ignored]), ReportIntegrity::Complete);
}

#[test]
fn unknown_issue_scope_makes_candidate_coverage_unknown() {
    assert_eq!(
        candidate_coverage(
            "/repo/cache",
            &[ScanIssue {
                code: ScanIssueCode::TraversalError,
                path: None,
            }]
        ),
        CandidateCoverage::Unknown
    );
}

#[test]
fn differing_rule_risk_notes_are_an_unresolved_conflict() {
    let safe = hit(Confidence::High, true, RuleTrust::Builtin);
    let mut inspect = safe.clone();
    inspect.rule_id = "cache-inspect".to_string();
    inspect.risk_note = "inspect before removal".to_string();

    let resolution = resolve_rules(&[safe, inspect]);

    assert_eq!(resolution.state, RuleResolutionState::UnresolvedConflict);
    assert!(resolution.primary.is_none());
}

#[test]
fn protected_subtrees_reject_their_children_and_parents() {
    let policy = SafetyPolicy::new(vec![], true)
        .with_protected_subtrees(vec!["/repo/.cleanr".to_string()]);

    assert!(!policy.allows_candidate("/repo"));
    assert!(!policy.allows_candidate("/repo/.cleanr/history"));
    assert!(policy.allows_candidate("/repo/target"));
}

#[test]
fn nonexistent_relative_protected_paths_are_made_absolute() {
    let relative = "cleanr-missing-config-for-safety-test.toml".to_string();
    let expected = std::path::absolute(&relative).expect("absolute path");
    let policy = SafetyPolicy::new(vec![relative.clone()], true);

    assert_eq!(
        policy.protected_paths(),
        &[expected.to_string_lossy().into_owned()]
    );
    assert!(!policy.allows_candidate(&relative));
}

#[test]
fn filesystem_root_is_never_allowed() {
    assert!(!SafetyPolicy::default().allows_candidate("/"));
}

#[test]
fn builds_github_raw_language_url() {
    let url = github_raw_language_url("owner/repo", "main", "zh_CN").expect("url");
    assert_eq!(
        url,
        "https://raw.githubusercontent.com/owner/repo/main/crates/i18n/locales/zh-CN.yml"
    );
}

#[test]
fn manifest_validation_covers_identity_version_and_capabilities() {
    let valid = PluginManifest {
        api_version: PLUGIN_API_VERSION.to_string(),
        id: "example.rules_1".to_string(),
        name: "Example".to_string(),
        version: "1.2.3".to_string(),
        description: String::new(),
        cleanr_version: Some(">=0.1, <0.2".to_string()),
        capabilities: vec![PluginCapability::Rules],
        categories: Vec::new(),
        keywords: Vec::new(),
        homepage: None,
        repository: None,
        license: None,
        hooks: PluginHooks::default(),
    };
    valid.validate("0.1.5").expect("valid manifest");

    for invalid_id in ["", ".", "..", "contains space", "slash/name"] {
        let mut manifest = valid.clone();
        manifest.id = invalid_id.to_string();
        assert!(manifest.validate("0.1.5").is_err(), "{invalid_id}");
    }

    let mut manifest = valid.clone();
    manifest.version = "latest".to_string();
    assert!(manifest.validate("0.1.5").is_err());

    let mut manifest = valid.clone();
    manifest.capabilities.clear();
    assert!(manifest.validate("0.1.5").is_err());

    assert!(valid.validate("0.2.0").is_err());
    assert!(valid.validate("not-semver").is_err());
}

#[test]
fn global_kind_names_read_back_in_any_case() {
    let kinds = default_global_scan_kinds();
    for kind in &kinds {
        let name = kind.as_str();
        assert_eq!(parse_global_scan_kind(name), Ok(*kind));
        assert_eq!(parse_global_scan_kind(&name.to_ascii_uppercase()), Ok(*kind));
        for other in &kinds {
            assert_eq!(other.as_str() == name, other == kind);
        }
    }
}

#[test]
fn scan_scope_normalizes_once() {
    let scope = CleanupPlanScanScope::new(
        vec!["/b".to_string(), "/a".to_string(), "/b".to_string()],
        vec![GlobalScanKind::Logs, GlobalScanKind::DeveloperCaches, GlobalScanKind::Logs],
    );
    assert_eq!(scope.explicit_roots, vec!["/a".to_string(), "/b".to_string()]);
    assert_eq!(scope.global_kinds, vec![GlobalScanKind::DeveloperCaches, GlobalScanKind::Logs]);
    let again = CleanupPlanScanScope::new(scope.explicit_roots.clone(), scope.global_kinds.clone());
    assert_eq!(again, scope);
}

#[test]
fn rule_resolution_ignores_hit_order() {
    let a = hit(Confidence::High, true, RuleTrust::Builtin);
    let mut b = a.clone();
    b.rule_id = "another-cache".to_string();
    let mut c = a.clone();
    c.rule_pack_id = "acme".to_string();
    let forward = resolve_rules(&[a.clone(), b.clone(), c.clone()]);
    let backward = resolve_rules(&[c, b, a]);
    assert_eq!(forward, backward);
    assert_eq!(forward.state, RuleResolutionState::Equivalent);
    assert_eq!(forward.matched[0].key.rule_pack_id, "acme");
}

#[test]
fn protected_paths_are_kept_and_made_absolute() {
    let policy = SafetyPolicy::new(vec!["relative-protected-dir".to_string(), "/".to_string()], false);
    assert_eq!(policy.protected_paths().len(), 2);
    assert!(policy.protected_paths().iter().all(|p| p.starts_with('/')));
    let resolved = cleanr::safety::normalize_path("some/relative/path");
    assert!(resolved.starts_with('/'));
}

#[test]
fn plan_verdicts_keep_out_roots_and_protected_paths() {
    let policy = SafetyPolicy::from_normalized(vec!["/repo/keep".to_string()], false);
    let paths = vec![
        "/repo".to_string(),
        "/repo/keep".to_string(),
        "/repo/cache".to_string(),
        "/repo/other".to_string(),
    ];
    let verdicts = cleanr::safety::plan_verdicts(&[true, true, true, false], &paths, &["/repo/".to_string()], &policy);
    assert_eq!(verdicts, vec![false, false, true, false]);
}
