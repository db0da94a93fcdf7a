use cleanr::evidence::ScanIssue;
use cleanr::model::{
    GlobalScanKind, RulePlatform, ScanLocationBase, ScanLocationDefinition, ScanLocationMode,
    ScanRequest,
};
use cleanr::roots::{
    allows_global_root_exec, builtin_global_candidates, definition_anchor_path,
    global_locations_within, global_scan_evidence, join_path, managed_locations,
    normalize_global_locations, normalize_global_roots, select_expansion_leaves,
    GlobalManagedLocationEvidence, GlobalScanEnvironment, GlobalScanEvidence, GlobalScanRoot,
    ResolvedScanRoots,
};

fn root(path: &str, kind: GlobalScanKind, label: &str) -> GlobalScanRoot {
    GlobalScanRoot {
        path: path.to_string(),
        kind,
        label: label.to_string(),
    }
}

fn home_env() -> GlobalScanEnvironment {
    GlobalScanEnvironment {
        home_dir: Some("/home/u".to_string()),
        ..GlobalScanEnvironment::default()
    }
}

fn definition(id: &str, mode: ScanLocationMode, platforms: Vec<RulePlatform>) -> ScanLocationDefinition {
    ScanLocationDefinition {
        id: id.to_string(),
        label: format!("{id} label"),
        kind: GlobalScanKind::AppCaches,
        platforms,
        base: ScanLocationBase::Home,
        relative_path: "Library/Caches/x".to_string(),
        mode,
        expansion: None,
    }
}

#[test]
fn paths_are_joined_with_one_separator() {
    assert_eq!(join_path("/home/u", ".npm"), "/home/u/.npm");
    assert_eq!(join_path("/home/u/", ".npm"), "/home/u/.npm");
    assert_eq!(join_path("", ".npm"), ".npm");
    assert_eq!(join_path("/home/u", "/abs"), "/abs");
}

#[test]
fn developer_caches_are_found_below_home_and_cache_directories() {
    let env = GlobalScanEnvironment {
        home_dir: Some("/home/u".to_string()),
        cache_dir: Some("/home/u/.cache".to_string()),
        ..GlobalScanEnvironment::default()
    };
    let roots = builtin_global_candidates(
        &[GlobalScanKind::DeveloperCaches],
        &env,
        Some(RulePlatform::Linux),
    );
    assert_eq!(roots.len(), 16);
    assert_eq!(
        roots[0],
        root("/home/u/.cargo/registry", GlobalScanKind::DeveloperCaches, "Cargo registry cache")
    );
    assert_eq!(
        roots[10],
        root("/home/u/go/pkg/mod", GlobalScanKind::DeveloperCaches, "Go module cache")
    );
    assert_eq!(
        roots[11],
        root("/home/u/.cache/npm", GlobalScanKind::DeveloperCaches, "npm cache")
    );
    assert!(roots.iter().all(|r| r.kind == GlobalScanKind::DeveloperCaches));
}

#[test]
fn temp_and_download_roots_follow_the_environment() {
    let env = GlobalScanEnvironment {
        home_dir: Some("/home/u".to_string()),
        temp_dir: Some("/tmp".to_string()),
        ..GlobalScanEnvironment::default()
    };
    let roots = builtin_global_candidates(
        &[GlobalScanKind::Downloads, GlobalScanKind::TempFiles],
        &env,
        None,
    );
    assert_eq!(
        roots,
        vec![
            root("/tmp", GlobalScanKind::TempFiles, "User temporary files"),
            root("/home/u/Downloads", GlobalScanKind::Downloads, "Downloads"),
        ]
    );
    assert!(builtin_global_candidates(&[], &env, None).is_empty());
}

#[test]
fn the_filesystem_root_and_home_itself_are_never_global_roots() {
    let env = home_env();
    assert!(!allows_global_root_exec("/", &env));
    assert!(!allows_global_root_exec("/home/u/", &env));
    assert!(allows_global_root_exec("/home/u/.npm", &env));
}

#[test]
fn found_locations_are_ordered_and_deduplicated() {
    let env = home_env();
    let found = normalize_global_locations(
        vec![
            root("/home/u/.npm/_cacache", GlobalScanKind::DeveloperCaches, "npm cache"),
            root("/home/u/.npm", GlobalScanKind::DeveloperCaches, "npm cache"),
            root("/home/u", GlobalScanKind::DeveloperCaches, "home"),
            root("/home/u/.npm/", GlobalScanKind::DeveloperCaches, "npm cache"),
        ],
        &env,
    );
    assert_eq!(found.len(), 2);
    assert_eq!(found[0].path, "/home/u/.npm");
    assert_eq!(found[1].path, "/home/u/.npm/_cacache");
}

#[test]
fn nested_roots_are_merged_into_the_outermost() {
    let env = home_env();
    let roots = normalize_global_roots(
        vec![
            root("/home/u/.cache/pip", GlobalScanKind::DeveloperCaches, "pip cache"),
            root("/home/u/.cache", GlobalScanKind::AppCaches, "caches"),
            root("/home/u/.npm", GlobalScanKind::DeveloperCaches, "npm cache"),
        ],
        &env,
    );
    assert_eq!(
        roots.iter().map(|r| r.path.as_str()).collect::<Vec<_>>(),
        vec!["/home/u/.cache", "/home/u/.npm"]
    );
}

#[test]
fn only_locations_inside_scanned_roots_are_kept() {
    let kept = global_locations_within(
        vec![
            root("/home/u/.npm/_cacache", GlobalScanKind::DeveloperCaches, "npm"),
            root("/home/u/.gradle/caches", GlobalScanKind::DeveloperCaches, "gradle"),
        ],
        &[root("/home/u/.npm", GlobalScanKind::DeveloperCaches, "npm")],
    );
    assert_eq!(kept.len(), 1);
    assert_eq!(kept[0].label, "npm");
}

#[test]
fn expansion_leaves_are_sorted_and_capped() {
    let (leaves, truncated) = select_expansion_leaves(
        vec!["/c".to_string(), "/a".to_string(), "/b".to_string(), "/a".to_string()],
        2,
    );
    assert_eq!(leaves, vec!["/a".to_string(), "/b".to_string()]);
    assert!(truncated);
    let (leaves, truncated) = select_expansion_leaves(vec!["/b".to_string(), "/a".to_string()], 2);
    assert_eq!(leaves, vec!["/a".to_string(), "/b".to_string()]);
    assert!(!truncated);
}

#[test]
fn managed_locations_are_reported_for_the_current_platform() {
    let definitions = vec![
        definition("b-managed", ScanLocationMode::OsManaged, vec![RulePlatform::Macos]),
        definition("a-managed", ScanLocationMode::OsManaged, vec![RulePlatform::Macos]),
        definition("scan", ScanLocationMode::Scan, vec![RulePlatform::Macos]),
        definition("linux-managed", ScanLocationMode::OsManaged, vec![RulePlatform::Linux]),
    ];
    let managed = managed_locations(&definitions, &[GlobalScanKind::AppCaches], Some(RulePlatform::Macos));
    assert_eq!(
        managed.iter().map(|m| m.id.as_str()).collect::<Vec<_>>(),
        vec!["a-managed", "b-managed"]
    );
    assert!(managed_locations(&definitions, &[GlobalScanKind::Logs], Some(RulePlatform::Macos)).is_empty());
    assert!(managed_locations(&definitions, &[GlobalScanKind::AppCaches], None).is_empty());
}

#[test]
fn definitions_are_anchored_below_their_base_directory() {
    let d = definition("x", ScanLocationMode::Scan, vec![RulePlatform::Macos]);
    assert_eq!(
        definition_anchor_path(&d, &home_env()),
        Some("/home/u/Library/Caches/x".to_string())
    );
    assert_eq!(definition_anchor_path(&d, &GlobalScanEnvironment::default()), None);
}

#[test]
fn explicit_path_analysis_does_not_invent_global_coverage() {
    let request = ScanRequest::paths(vec!["/tmp/project".to_string()]);
    let roots = request.paths.clone();
    let evidence = global_scan_evidence(
        &request,
        &[GlobalScanKind::Logs, GlobalScanKind::AppCaches],
        &ResolvedScanRoots::default(),
        &roots,
    );
    assert_eq!(
        evidence,
        GlobalScanEvidence {
            requested_kinds: Vec::new(),
            locations: Vec::new(),
            os_managed: Vec::new()
        }
    );
}

#[test]
fn global_analysis_preserves_requested_kind_when_no_location_exists() {
    let request = ScanRequest::global(vec![GlobalScanKind::BrowserCaches]);
    let evidence = global_scan_evidence(&request, &[], &ResolvedScanRoots::default(), &[]);
    assert_eq!(evidence.requested_kinds, vec![GlobalScanKind::BrowserCaches]);
    assert!(evidence.locations.is_empty());
}

#[test]
fn global_evidence_names_each_covered_location_with_its_root() {
    let request = ScanRequest::global(vec![
        GlobalScanKind::AppCaches,
        GlobalScanKind::DeveloperCaches,
        GlobalScanKind::BrowserCaches,
        GlobalScanKind::DeveloperCaches,
    ]);
    let resolved = ResolvedScanRoots {
        roots: vec!["/tmp/cleanr-cache".to_string()],
        global_roots: vec![root("/tmp/cleanr-cache", GlobalScanKind::AppCaches, "Application caches")],
        global_locations: vec![
            root("/tmp/cleanr-cache/pnpm", GlobalScanKind::DeveloperCaches, "pnpm cache"),
            root("/tmp/cleanr-cache", GlobalScanKind::AppCaches, "Application caches"),
            root("/elsewhere/yarn", GlobalScanKind::DeveloperCaches, "Yarn cache"),
        ],
        os_managed: vec![GlobalManagedLocationEvidence {
            id: "photos".to_string(),
            kind: GlobalScanKind::AppCaches,
            label: "Photos".to_string(),
        }],
        issues: Vec::<ScanIssue>::new(),
    };
    let evidence = global_scan_evidence(&request, &[], &resolved, &["/tmp/cleanr-cache".to_string()]);
    assert_eq!(
        evidence.requested_kinds,
        vec![
            GlobalScanKind::DeveloperCaches,
            GlobalScanKind::BrowserCaches,
            GlobalScanKind::AppCaches
        ]
    );
    assert_eq!(evidence.locations.len(), 2);
    assert_eq!(evidence.locations[0].kind, GlobalScanKind::DeveloperCaches);
    assert_eq!(evidence.locations[0].local_path, "/tmp/cleanr-cache/pnpm");
    assert_eq!(evidence.locations[0].scan_root, "/tmp/cleanr-cache");
    assert_eq!(evidence.locations[1].kind, GlobalScanKind::AppCaches);
    assert_eq!(evidence.os_managed, resolved.os_managed);
}

#[test]
fn resolved_paths_are_absolute() {
    let resolved = cleanr::safety::normalize_path("cleanr-missing-relative-fixture");
    assert!(resolved.starts_with('/'));
    assert!(resolved.ends_with("cleanr-missing-relative-fixture"));
    let all = cleanr::safety::normalize_paths(vec!["/".to_string(), "a".to_string()]);
    assert_eq!(all[0], "/");
    assert!(all[1].starts_with('/'));
}

#[test]
fn expansion_children_are_matching_directories_in_listing_order() {
    let children = vec![
        ("IntelliJIdea2024.1".to_string(), true),
        ("notes.txt".to_string(), false),
        ("PyCharm2023.3".to_string(), true),
        ("IntelliJIdea-link".to_string(), false),
        ("Other".to_string(), true),
    ];
    let globs = vec!["IntelliJIdea*".to_string(), "PyCharm*".to_string()];
    assert_eq!(
        cleanr::roots::expansion_children(&children, &globs),
        Ok(vec!["IntelliJIdea2024.1".to_string(), "PyCharm2023.3".to_string()])
    );
    assert_eq!(
        cleanr::roots::expansion_children(&children, &["a[".to_string(), "b[".to_string()]),
        Err("a[".to_string())
    );
    assert_eq!(cleanr::roots::expansion_children(&children, &[]), Ok(vec![]));
}
