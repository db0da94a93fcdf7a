use cleanr::model::{
    Confidence, EntryKind, GlobalScanKind, RuleMatchRole, RulePlatform, RuleSource,
    RuleSourceRelation, RuleTrust, ScanEntry, ScanLocationBase, ScanLocationDefinition,
    ScanLocationMode, ScanLocationPack,
};
use cleanr::i18n::has_language_extension;
use cleanr::plugin::{PluginSource, TrustLevel};
use cleanr::rules::{
    has_toml_extension, matches_rule, project_artifact_components, validate_scan_location_pack,
    LocationPackErrorKind, ProjectMatcher, RegistryError, RuleAction, RuleDefinition, RuleMatcher,
    RulePack, RulePackErrorKind, RuleRegistry, NANOS_PER_DAY,
};

fn rule(id: &str, matcher: RuleMatcher) -> RuleDefinition {
    RuleDefinition {
        id: id.to_string(),
        label: format!("{id} label"),
        category: "cache".to_string(),
        matcher,
        confidence: Confidence::High,
        default_selected: false,
        match_role: RuleMatchRole::Primary,
        action: RuleAction::Trash,
        reason: "rebuildable".to_string(),
        risk_note: "rebuild".to_string(),
        platforms: Vec::new(),
        source_refs: Vec::new(),
    }
}

fn dir_matcher(name: &str) -> RuleMatcher {
    RuleMatcher {
        dir_name: Some(name.to_string()),
        ..RuleMatcher::default()
    }
}

fn pack(id: &str, rules: Vec<RuleDefinition>) -> RulePack {
    RulePack {
        id: id.to_string(),
        name: "Example".to_string(),
        version: "1.0.0".to_string(),
        description: String::new(),
        categories: vec!["cache".to_string()],
        sources: Vec::new(),
        rules,
    }
}

fn source(id: &str) -> RuleSource {
    RuleSource {
        id: id.to_string(),
        repository: "https://example.com/repo".to_string(),
        revision: "abc123".to_string(),
        license: "MIT".to_string(),
        relation: RuleSourceRelation::Adapted,
    }
}

fn entry(path: &str, kind: EntryKind) -> ScanEntry {
    ScanEntry {
        path: path.to_string(),
        kind,
        size_bytes: 10,
        modified_at: None,
        rule_hits: Vec::new(),
    }
}

fn project_rule(id: &str, project: ProjectMatcher) -> RuleDefinition {
    rule(
        id,
        RuleMatcher {
            kind: Some(EntryKind::Directory),
            project: Some(project),
            ..RuleMatcher::default()
        },
    )
}

fn cargo_project() -> ProjectMatcher {
    ProjectMatcher {
        marker_globs: vec!["Cargo.toml".to_string()],
        artifact_paths: vec!["target".to_string()],
        ..ProjectMatcher::default()
    }
}

fn kind_of(p: &RulePack) -> Option<RulePackErrorKind> {
    p.validate().err().map(|e| e.kind)
}

#[test]
fn valid_pack_passes_validation() {
    let mut p = pack("example", vec![rule("node-modules", dir_matcher("node_modules"))]);
    p.sources = vec![source("upstream")];
    p.rules[0].source_refs = vec!["upstream".to_string()];
    assert!(p.validate().is_ok());
}

#[test]
fn pack_identity_and_version_are_checked_first() {
    let mut p = pack(" ", vec![]);
    assert_eq!(kind_of(&p), Some(RulePackErrorKind::EmptyId));
    assert_eq!(p.validate().unwrap_err().message(), "rule pack id cannot be empty");
    p.id = "example".to_string();
    p.version = "  ".to_string();
    assert_eq!(kind_of(&p), Some(RulePackErrorKind::EmptyVersion));
    p.version = "latest".to_string();
    assert_eq!(kind_of(&p), Some(RulePackErrorKind::InvalidVersion));
    p.version = "1.0.0".to_string();
    assert_eq!(kind_of(&p), Some(RulePackErrorKind::NoRules));
    assert_eq!(p.validate().unwrap_err().message(), "rule pack example contains no rules");
}

#[test]
fn plugin_rejects_default_selected_non_high_confidence() {
    let mut r = rule("cache", dir_matcher("cache"));
    r.default_selected = true;
    r.confidence = Confidence::Medium;
    let p = pack("example", vec![r]);
    let error = p.validate().unwrap_err();
    assert_eq!(error.kind, RulePackErrorKind::DefaultSelectedNotHigh);
    assert_eq!(
        error.message(),
        "rule example:cache cannot be default_selected unless confidence is high"
    );
}

#[test]
fn plugin_rejects_default_selected_fallback_rule() {
    let mut r = rule("cache", dir_matcher("cache"));
    r.default_selected = true;
    r.match_role = RuleMatchRole::Fallback;
    assert_eq!(
        kind_of(&pack("example", vec![r])),
        Some(RulePackErrorKind::FallbackDefaultSelected)
    );
}

#[test]
fn duplicate_ids_sources_and_platforms_are_refused() {
    let p = pack(
        "example",
        vec![rule("a", dir_matcher("a")), rule("a", dir_matcher("b"))],
    );
    let error = p.validate().unwrap_err();
    assert_eq!(error.kind, RulePackErrorKind::DuplicateRule);
    assert_eq!(error.message(), "rule pack example contains duplicate rule id a");

    let mut p = pack("example", vec![rule("a", dir_matcher("a"))]);
    p.sources = vec![source("s"), source("s")];
    assert_eq!(kind_of(&p), Some(RulePackErrorKind::DuplicateSource));

    let mut p = pack("example", vec![rule("a", dir_matcher("a"))]);
    p.sources = vec![source("s")];
    p.sources[0].license = String::new();
    assert_eq!(kind_of(&p), Some(RulePackErrorKind::IncompleteSource));

    let mut r = rule("a", dir_matcher("a"));
    r.platforms = vec![RulePlatform::Linux, RulePlatform::Linux];
    assert_eq!(
        kind_of(&pack("example", vec![r])),
        Some(RulePackErrorKind::DuplicatePlatforms)
    );
}

#[test]
fn source_references_and_categories_must_be_declared() {
    let mut r = rule("a", dir_matcher("a"));
    r.source_refs = vec!["missing".to_string()];
    let error = pack("example", vec![r]).validate().unwrap_err();
    assert_eq!(error.kind, RulePackErrorKind::UnknownSource);
    assert_eq!(error.detail, "missing");

    let mut p = pack("example", vec![rule("a", dir_matcher("a"))]);
    p.sources = vec![source("s")];
    p.rules[0].source_refs = vec!["s".to_string(), "s".to_string()];
    assert_eq!(kind_of(&p), Some(RulePackErrorKind::DuplicateSourceRef));

    let mut r = rule("a", dir_matcher("a"));
    r.category = "elsewhere".to_string();
    let error = pack("example", vec![r]).validate().unwrap_err();
    assert_eq!(error.kind, RulePackErrorKind::UndeclaredCategory);
    assert_eq!(error.message(), "rule example:a uses undeclared category elsewhere");
}

#[test]
fn matchers_are_checked() {
    let r = rule("a", RuleMatcher::default());
    assert_eq!(kind_of(&pack("example", vec![r])), Some(RulePackErrorKind::NoMatcher));

    let r = rule(
        "a",
        RuleMatcher {
            max_age_days: Some(-1),
            ..RuleMatcher::default()
        },
    );
    assert_eq!(kind_of(&pack("example", vec![r])), Some(RulePackErrorKind::NegativeMaxAge));

    let r = rule(
        "a",
        RuleMatcher {
            path_glob: Some("**/{unclosed".to_string()),
            ..RuleMatcher::default()
        },
    );
    assert_eq!(kind_of(&pack("example", vec![r])), Some(RulePackErrorKind::InvalidPathGlob));
}

#[test]
fn project_matcher_rejects_unsafe_or_ambiguous_declarations() {
    let mut r = project_rule("p", cargo_project());
    r.matcher.kind = None;
    assert_eq!(
        kind_of(&pack("example", vec![r])),
        Some(RulePackErrorKind::ProjectNeedsDirectory)
    );

    let mut r = project_rule("p", cargo_project());
    r.matcher.dir_name = Some("target".to_string());
    assert_eq!(
        kind_of(&pack("example", vec![r])),
        Some(RulePackErrorKind::ProjectCombined)
    );

    let mut project = cargo_project();
    project.marker_globs.clear();
    assert_eq!(
        kind_of(&pack("example", vec![project_rule("p", project)])),
        Some(RulePackErrorKind::NoMarkerGlobs)
    );

    let mut project = cargo_project();
    project.artifact_paths.clear();
    assert_eq!(
        kind_of(&pack("example", vec![project_rule("p", project)])),
        Some(RulePackErrorKind::NoArtifactPaths)
    );

    let mut project = cargo_project();
    project.root_dir_globs = vec!["nested/dir".to_string()];
    let error = pack("example", vec![project_rule("p", project)]).validate().unwrap_err();
    assert_eq!(error.kind, RulePackErrorKind::InvalidProjectPattern);
    assert_eq!(error.message(), "rule example:p has an invalid project root_dir_globs pattern");

    for artifact in ["../target", "/target", "a//b", "a/./b", "a\\b", ""] {
        let mut project = cargo_project();
        project.artifact_paths = vec![artifact.to_string()];
        assert_eq!(
            kind_of(&pack("example", vec![project_rule("p", project)])),
            Some(RulePackErrorKind::InvalidArtifactPath),
            "{artifact}"
        );
    }
}

#[test]
fn artifact_paths_split_into_components() {
    let components = project_artifact_components("build/intermediates").expect("components");
    let texts: Vec<String> = components.iter().map(|c| c.iter().collect()).collect();
    assert_eq!(texts, vec!["build".to_string(), "intermediates".to_string()]);
    assert!(project_artifact_components("build/../x").is_none());
}

fn registry_with(p: RulePack, trust: TrustLevel) -> RuleRegistry {
    let mut registry = RuleRegistry::empty();
    p.validate().expect("valid pack");
    registry.add_pack(p, PluginSource::Builtin, trust, None).expect("added");
    registry
}

#[test]
fn directory_and_extension_rules_match_entries() {
    let extension = rule(
        "logs",
        RuleMatcher {
            extension: Some("LOG".to_string()),
            ..RuleMatcher::default()
        },
    );
    let registry = registry_with(
        pack("example", vec![rule("nm", dir_matcher("node_modules")), extension]),
        TrustLevel::Builtin,
    );
    let hits = registry.hits_for_at(&entry("/repo/node_modules", EntryKind::Directory), 0, None);
    assert_eq!(hits.len(), 1);
    assert_eq!(hits[0].rule_id, "nm");
    assert_eq!(hits[0].trust, RuleTrust::Builtin);

    assert!(registry
        .hits_for_at(&entry("/repo/node_modules", EntryKind::File), 0, None)
        .is_empty());
    let hits = registry.hits_for_at(&entry("/var/app.Log", EntryKind::File), 0, None);
    assert_eq!(hits.len(), 1);
    assert_eq!(hits[0].rule_id, "logs");
    assert!(registry
        .hits_for_at(&entry("/var/.log", EntryKind::File), 0, None)
        .is_empty());
}

#[test]
fn path_globs_treat_single_star_as_one_path_segment() {
    let r = rule(
        "glob",
        RuleMatcher {
            path_glob: Some("/repo/*/cache".to_string()),
            ..RuleMatcher::default()
        },
    );
    assert!(matches_rule(&entry("/repo/a/cache", EntryKind::Directory), &r, 0, None));
    assert!(!matches_rule(&entry("/repo/a/b/cache", EntryKind::Directory), &r, 0, None));
}

#[test]
fn age_matchers_use_one_caller_provided_reference_time() {
    let r = rule(
        "old",
        RuleMatcher {
            max_age_days: Some(30),
            ..RuleMatcher::default()
        },
    );
    let as_of: i64 = 100 * NANOS_PER_DAY;
    let mut old = entry("/repo/old", EntryKind::File);
    old.modified_at = Some(as_of - 31 * NANOS_PER_DAY);
    let mut recent = entry("/repo/recent", EntryKind::File);
    recent.modified_at = Some(as_of - 29 * NANOS_PER_DAY);
    let missing = entry("/repo/missing", EntryKind::File);
    assert!(matches_rule(&old, &r, as_of, None));
    assert!(!matches_rule(&recent, &r, as_of, None));
    assert!(!matches_rule(&missing, &r, as_of, None));
    assert!(matches_rule(&recent, &r, as_of + 2 * NANOS_PER_DAY, None));
}

#[test]
fn platform_scoped_rules_only_match_on_their_platforms() {
    let mut r = rule("mac", dir_matcher("DerivedData"));
    r.platforms = vec![RulePlatform::Macos];
    let registry = registry_with(pack("example", vec![r]), TrustLevel::Builtin);
    let e = entry("/Users/me/DerivedData", EntryKind::Directory);
    assert_eq!(registry.hits_for_at(&e, 0, Some(RulePlatform::Macos)).len(), 1);
    assert!(registry.hits_for_at(&e, 0, Some(RulePlatform::Linux)).is_empty());
    assert!(registry.hits_for_at(&e, 0, None).is_empty());
}

#[test]
fn project_matcher_uses_scan_snapshot_and_exact_artifact_paths() {
    let registry = registry_with(
        pack("example", vec![project_rule("cargo-target", cargo_project())]),
        TrustLevel::Builtin,
    );
    let mut entries = vec![
        entry("/rust/Cargo.toml", EntryKind::File),
        entry("/rust/target", EntryKind::Directory),
        entry("/other/target", EntryKind::Directory),
    ];
    assert!(registry
        .hits_for_at(&entry("/rust/target", EntryKind::Directory), 0, None)
        .is_empty());
    registry.annotate_entries_at(&mut entries, 0, None);
    assert!(entries[0].rule_hits.is_empty());
    assert_eq!(entries[1].rule_hits.len(), 1);
    assert_eq!(entries[1].rule_hits[0].rule_id, "cargo-target");
    assert!(entries[2].rule_hits.is_empty());
    assert_eq!(entries[1].path, "/rust/target");
}

#[test]
fn project_matcher_supports_required_and_excluded_root_children() {
    let project = ProjectMatcher {
        marker_globs: vec!["package.json".to_string()],
        root_dir_globs: vec!["src".to_string()],
        excluded_marker_globs: vec!["*.keep".to_string()],
        artifact_paths: vec!["dist".to_string()],
        ..ProjectMatcher::default()
    };
    let registry = registry_with(pack("example", vec![project_rule("dist", project)]), TrustLevel::Builtin);

    let mut without_src = vec![
        entry("/web/package.json", EntryKind::File),
        entry("/web/dist", EntryKind::Directory),
    ];
    registry.annotate_entries_at(&mut without_src, 0, None);
    assert!(without_src[1].rule_hits.is_empty());

    let mut complete = vec![
        entry("/web/package.json", EntryKind::File),
        entry("/web/src", EntryKind::Directory),
        entry("/web/dist", EntryKind::Directory),
    ];
    registry.annotate_entries_at(&mut complete, 0, None);
    assert_eq!(complete[2].rule_hits.len(), 1);

    let mut excluded = vec![
        entry("/web/package.json", EntryKind::File),
        entry("/web/src", EntryKind::Directory),
        entry("/web/dist", EntryKind::Directory),
        entry("/web/dist.keep", EntryKind::File),
    ];
    registry.annotate_entries_at(&mut excluded, 0, None);
    assert!(excluded[2].rule_hits.is_empty());
}

#[test]
fn duplicate_rule_packs_are_refused() {
    let mut registry = registry_with(pack("example", vec![rule("a", dir_matcher("a"))]), TrustLevel::Builtin);
    let again = pack("example", vec![rule("b", dir_matcher("b"))]);
    let error = registry
        .add_pack(again, PluginSource::Builtin, TrustLevel::Builtin, None)
        .unwrap_err();
    assert_eq!(
        error,
        RegistryError::DuplicatePack {
            id: "example".to_string()
        }
    );
    assert_eq!(error.message(), "duplicate rule pack id example");
    assert_eq!(registry.packs().len(), 1);
    assert_eq!(registry.versions()[0].id, "example");
}

#[test]
fn untrusted_rules_asking_for_preselection_are_loaded_with_a_warning() {
    let mut r = rule("a", dir_matcher("a"));
    r.default_selected = true;
    let mut registry = RuleRegistry::empty();
    registry
        .add_pack(
            pack("example", vec![r]),
            PluginSource::LegacyFile("/plugins/example.toml".to_string()),
            TrustLevel::Untrusted,
            None,
        )
        .expect("added");
    assert_eq!(registry.diagnostics().len(), 1);
    assert_eq!(registry.diagnostics()[0].code, "untrusted-default-selection-disabled");
    assert_eq!(
        registry.diagnostics()[0].message,
        "rule pack example requested default selection, but it is not trusted"
    );
    assert_eq!(registry.diagnostics()[0].path.as_deref(), Some("/plugins/example.toml"));
    let hits = registry.hits_for_at(&entry("/x/a", EntryKind::Directory), 0, None);
    assert_eq!(hits[0].trust, RuleTrust::Untrusted);
}

#[test]
fn enabled_packs_are_kept_and_missing_ones_reported() {
    let mut registry = registry_with(pack("one", vec![rule("a", dir_matcher("a"))]), TrustLevel::Builtin);
    registry
        .add_pack(pack("two", vec![rule("b", dir_matcher("b"))]), PluginSource::Builtin, TrustLevel::Builtin, None)
        .expect("added");
    registry.retain_enabled(&["two".to_string(), "three".to_string()]);
    assert_eq!(registry.packs().len(), 1);
    assert_eq!(registry.packs()[0].definition.id, "two");
    assert_eq!(registry.diagnostics().len(), 1);
    assert_eq!(registry.diagnostics()[0].message, "enabled rule pack three was not found");
}

fn location(id: &str, relative_path: &str) -> ScanLocationDefinition {
    ScanLocationDefinition {
        id: id.to_string(),
        label: format!("{id} label"),
        kind: GlobalScanKind::DeveloperCaches,
        platforms: vec![RulePlatform::Linux],
        base: ScanLocationBase::Home,
        relative_path: relative_path.to_string(),
        mode: ScanLocationMode::Scan,
        expansion: None,
    }
}

#[test]
fn scan_locations_are_kept_in_id_order_without_repeats() {
    let mut registry = RuleRegistry::empty();
    registry
        .add_builtin_locations(vec![location("b", ".cache/b"), location("a", ".cache/a")])
        .expect("added");
    let ids: Vec<&str> = registry.scan_locations().iter().map(|l| l.id.as_str()).collect();
    assert_eq!(ids, vec!["a", "b"]);
    let error = registry
        .add_builtin_locations(vec![location("a", ".cache/other")])
        .unwrap_err();
    assert_eq!(error, RegistryError::DuplicateLocation { id: "a".to_string() });

    registry.add_plugin_locations(vec![location("c", ".cache/c"), location("b", ".x")], "/p/loc.toml");
    let ids: Vec<&str> = registry.scan_locations().iter().map(|l| l.id.as_str()).collect();
    assert_eq!(ids, vec!["a", "b", "c"]);
    assert_eq!(registry.diagnostics().len(), 1);
    assert_eq!(registry.diagnostics()[0].message, "duplicate scan location id b");
}

#[test]
fn scan_location_packs_reject_escaping_or_globbed_paths() {
    let make = |path: &str| ScanLocationPack {
        id: "locations".to_string(),
        version: "1.0.0".to_string(),
        locations: vec![location("l", path)],
    };
    assert!(validate_scan_location_pack(&make(".cache/tool")).is_ok());
    let cases = [
        ("../escape", LocationPackErrorKind::AbnormalComponents),
        ("/absolute", LocationPackErrorKind::AbnormalComponents),
        ("./here", LocationPackErrorKind::AbnormalComponents),
        ("c:\\tool", LocationPackErrorKind::NonPortablePath),
        (".cache/*", LocationPackErrorKind::GlobInPath),
        ("", LocationPackErrorKind::EmptyRelativePath),
    ];
    for (path, kind) in cases {
        let error = validate_scan_location_pack(&make(path)).unwrap_err();
        assert_eq!(error.kind, kind, "{path}");
    }
    let mut duplicated = make(".cache/tool");
    duplicated.locations.push(location("l", ".cache/other"));
    let error = validate_scan_location_pack(&duplicated).unwrap_err();
    assert_eq!(error.kind, LocationPackErrorKind::DuplicateLocation);
    assert_eq!(error.message(), "scan location pack locations contains duplicate location id l");
}

#[test]
fn matcher_kind_restricts_rule_matches() {
    let mut r = rule(
        "directory-cache",
        RuleMatcher {
            kind: Some(EntryKind::Directory),
            path_glob: Some("**/Cache".to_string()),
            ..RuleMatcher::default()
        },
    );
    r.label = "Directory Cache".to_string();
    r.confidence = Confidence::Medium;
    r.reason = "cache".to_string();
    r.risk_note = "review".to_string();
    let mut p = pack("kind-test", vec![r]);
    p.name = "Kind Test".to_string();
    p.description = "Kind matcher".to_string();
    let registry = registry_with(p, TrustLevel::Builtin);

    assert!(registry
        .hits_for_at(&entry("/repo/Cache", EntryKind::Directory), 0, None)
        .iter()
        .any(|hit| hit.rule_id == "directory-cache"));
    assert!(registry
        .hits_for_at(&entry("/repo/Cache", EntryKind::File), 0, None)
        .is_empty());
}

#[test]
fn entries_name_their_last_component() {
    assert_eq!(entry("/repo/target", EntryKind::Directory).file_name(), Some("target".to_string()));
    assert_eq!(entry("/repo/a.log/", EntryKind::File).file_name(), Some("a.log".to_string()));
    assert_eq!(entry("/", EntryKind::Directory).file_name(), None);
    assert_eq!(entry("/repo/..", EntryKind::Directory).file_name(), None);
}

#[test]
fn pack_files_are_recognised_by_extension() {
    assert!(has_toml_extension("/packs/dev.toml"));
    assert!(!has_toml_extension("/packs/dev.TOML"));
    assert!(!has_toml_extension("/packs/.toml"));
    assert!(!has_toml_extension("/packs/dev.toml.bak"));
    assert!(has_language_extension("/l/zh-CN.yml"));
    assert!(has_language_extension("/l/zh-CN.yaml"));
    assert!(!has_language_extension("/l/zh-CN.json"));
}

#[test]
fn checked_packs_are_loaded_or_reported() {
    let mut registry = RuleRegistry::empty();
    registry.load_checked_pack(
        pack("one", vec![rule("a", dir_matcher("a"))]),
        "/plugins/one.toml",
        PluginSource::Builtin,
        TrustLevel::Builtin,
        None,
    );
    assert_eq!(registry.packs().len(), 1);
    assert!(registry.diagnostics().is_empty());

    registry.load_checked_pack(
        pack("one", vec![rule("b", dir_matcher("b"))]),
        "/plugins/again.toml",
        PluginSource::Builtin,
        TrustLevel::Builtin,
        None,
    );
    assert_eq!(registry.packs().len(), 1);
    assert_eq!(registry.diagnostics().len(), 1);
    assert_eq!(registry.diagnostics()[0].code, "rule-pack-invalid");
    assert_eq!(registry.diagnostics()[0].message, "duplicate rule pack id one");
    assert_eq!(registry.diagnostics()[0].path, Some("/plugins/again.toml".to_string()));

    registry.load_checked_pack(pack("empty", vec![]), "/plugins/empty.toml", PluginSource::Builtin, TrustLevel::Builtin, None);
    assert_eq!(registry.packs().len(), 1);
    assert_eq!(registry.diagnostics().len(), 2);
    assert_eq!(registry.diagnostics()[1].code, "rule-pack-invalid");
    assert_eq!(registry.diagnostics()[1].path, Some("/plugins/empty.toml".to_string()));
}
