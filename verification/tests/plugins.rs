use cleanr::commands::{
    index_base_url, index_entry_for_bundle, index_file_for, join_paths, register_plugin, slash_path,
    trust_plugin,
    unlink_plugin_dir, untrust_plugin, update_wanted, UpdateCheckError,
};
use cleanr::config::Config;
use cleanr::plugin::{
    check_requirement, format_capabilities, matches_query, percent_encode, plugin_index_url,
    plugin_template, url_path, validate_expected_sha256, validate_plugin_id, verify_index_file,
    PluginCapability, PluginError, PluginHookCommand, PluginHooks, PluginIndexEntry,
    PluginIndexFile, PluginManifest, RequirementCheck, PLUGIN_API_VERSION,
};
use cleanr::update::{
    after_fetch, newer_release, plan_update_check, trim_leading_v, ReleaseInfo, UpdateCache,
    UpdateStep,
};

const HOST: &str = "0.1.0";

fn entry() -> PluginIndexEntry {
    PluginIndexEntry {
        id: "example.caches".to_string(),
        name: "Example".to_string(),
        version: "1.0.0".to_string(),
        description: String::new(),
        cleanr_version: Some(">=0.1.0".to_string()),
        capabilities: vec![PluginCapability::Rules],
        categories: Vec::new(),
        keywords: Vec::new(),
        author: None,
        homepage: None,
        repository: None,
        license: None,
        source: None,
        files: vec![PluginIndexFile {
            path: "plugin.toml".to_string(),
            url: "https://example.invalid/plugin.toml".to_string(),
            sha256: "0".repeat(64),
            size: 12,
        }],
    }
}

fn manifest() -> PluginManifest {
    PluginManifest {
        api_version: PLUGIN_API_VERSION.to_string(),
        id: "example.rules".to_string(),
        name: "Example".to_string(),
        version: "1.0.0".to_string(),
        description: String::new(),
        cleanr_version: None,
        capabilities: vec![PluginCapability::Rules],
        categories: Vec::new(),
        keywords: Vec::new(),
        homepage: None,
        repository: None,
        license: None,
        hooks: PluginHooks::default(),
    }
}

fn release(version: &str) -> ReleaseInfo {
    ReleaseInfo {
        version: version.to_string(),
        release_url: "https://example.com/release".to_string(),
    }
}

fn defaults() -> Config {
    Config::defaults_from(None, None)
}

#[test]
fn plugin_index_entries_require_manifest_and_hashes() {
    let mut entry = entry();
    entry.validate(HOST).expect("valid entry");

    entry.files[0].sha256 = "not-a-hash".to_string();
    assert!(entry.validate(HOST).is_err());
}

#[test]
fn index_entries_name_their_first_fault() {
    let mut e = entry();
    e.files[0].path = "rules.toml".to_string();
    assert_eq!(
        e.validate(HOST),
        Err(PluginError::MissingManifestFile { id: "example.caches".to_string() })
    );

    let mut e = entry();
    e.files.push(e.files[0].clone());
    assert_eq!(
        e.validate(HOST),
        Err(PluginError::DuplicateFile {
            id: "example.caches".to_string(),
            path: "plugin.toml".to_string()
        })
    );

    let mut e = entry();
    e.files[0].url = "  ".to_string();
    assert_eq!(
        e.validate(HOST),
        Err(PluginError::EmptyFileUrl {
            id: "example.caches".to_string(),
            path: "plugin.toml".to_string()
        })
    );

    let mut e = entry();
    e.files[0].size = 4 * 1024 * 1024 + 1;
    assert_eq!(
        e.validate(HOST),
        Err(PluginError::FileTooLarge {
            id: "example.caches".to_string(),
            path: "plugin.toml".to_string()
        })
    );

    let mut e = entry();
    e.files.clear();
    assert_eq!(e.validate(HOST), Err(PluginError::NoFiles { id: "example.caches".to_string() }));

    let mut e = entry();
    e.cleanr_version = Some(">=9.0.0".to_string());
    assert_eq!(
        e.validate(HOST),
        Err(PluginError::IncompatibleHost {
            id: "example.caches".to_string(),
            requirement: ">=9.0.0".to_string(),
            host: HOST.to_string()
        })
    );
}

#[test]
fn rejects_incompatible_plugin_api() {
    let mut m = manifest();
    m.api_version = "2".to_string();
    assert_eq!(
        m.validate(HOST),
        Err(PluginError::UnsupportedApiVersion {
            id: "example.rules".to_string(),
            found: "2".to_string()
        })
    );
    assert_eq!(
        PluginError::UnsupportedApiVersion {
            id: "example.rules".to_string(),
            found: "2".to_string()
        }
        .message(),
        "plugin example.rules requires API version 2; supported version is 1"
    );
}

#[test]
fn dynamic_candidate_hooks_require_explicit_capability() {
    let hook = PluginHookCommand {
        command: "cleanr-example".to_string(),
        args: vec!["scan".to_string()],
        timeout_ms: Some(1000),
    };
    let mut m = manifest();
    m.id = "example.dynamic".to_string();
    m.capabilities = vec![PluginCapability::DynamicCandidates];
    m.hooks = PluginHooks { dynamic_candidates: vec![hook.clone()] };
    m.validate(HOST).expect("dynamic plugin");

    let mut missing_capability = m.clone();
    missing_capability.capabilities = vec![PluginCapability::Rules];
    assert_eq!(
        missing_capability.validate(HOST),
        Err(PluginError::UnexpectedDynamicHooks { id: "example.dynamic".to_string() })
    );

    let mut invalid_timeout = m.clone();
    invalid_timeout.hooks.dynamic_candidates[0].timeout_ms = Some(30001);
    assert_eq!(
        invalid_timeout.validate(HOST),
        Err(PluginError::HookTimeout { id: "example.dynamic".to_string() })
    );

    let mut no_hooks = m.clone();
    no_hooks.hooks = PluginHooks::default();
    assert_eq!(
        no_hooks.validate(HOST),
        Err(PluginError::MissingDynamicHooks { id: "example.dynamic".to_string() })
    );

    let mut blank = m;
    blank.hooks.dynamic_candidates[0].command = " ".to_string();
    assert_eq!(
        blank.validate(HOST),
        Err(PluginError::EmptyHookCommand { id: "example.dynamic".to_string() })
    );
}

#[test]
fn requirements_are_checked_against_the_host() {
    assert_eq!(check_requirement(">=0.1, <0.2", "0.1.5"), RequirementCheck::Met);
    assert_eq!(check_requirement(">=0.1, <0.2", "0.2.0"), RequirementCheck::Unmet);
    assert_eq!(check_requirement(">=0.1", "not-semver"), RequirementCheck::InvalidHost);
    assert_eq!(check_requirement("wrong", "0.1.0"), RequirementCheck::InvalidRequirement);
}

#[test]
fn plugin_identifiers_are_single_safe_components() {
    assert_eq!(validate_plugin_id("example.rules_1-a"), Ok(()));
    for id in ["", ".", "..", "a/b", "with space", "ü"] {
        assert_eq!(validate_plugin_id(id), Err(PluginError::InvalidId), "{id}");
    }
    assert!(validate_plugin_id(&"a".repeat(129)).is_err());
    assert!(validate_plugin_id(&"a".repeat(128)).is_ok());
}

#[test]
fn reports_only_newer_semantic_versions() {
    assert!(newer_release("0.1.0", release("0.2.0")).is_some());
    assert!(newer_release("0.2.0", release("0.2.0")).is_none());
    assert!(newer_release("0.3.0", release("0.2.0")).is_none());
    assert!(newer_release("not-semver", release("0.2.0")).is_none());
}

#[test]
fn accepts_v_prefix_and_builds_default_release_url() {
    let update = newer_release(
        "v0.1.0",
        ReleaseInfo {
            version: "v0.2.0".to_string(),
            release_url: String::new(),
        },
    )
    .expect("newer release");

    assert_eq!(update.version, "0.2.0");
    assert_eq!(
        update.release_url,
        "https://github.com/drl990114/cleanr/releases/tag/v0.2.0"
    );
}

#[test]
fn leading_v_characters_are_dropped() {
    assert_eq!(trim_leading_v("vv1.0"), "1.0");
    assert_eq!(trim_leading_v("1.0v"), "1.0v");
}

#[test]
fn a_fresh_cache_is_reused_and_a_stale_one_refetched() {
    let cache = UpdateCache { checked_at: 100, release: Some(release("1.2.3")) };
    assert_eq!(
        plan_update_check(Some(cache.clone()), 150, 60),
        UpdateStep::UseCached(Some(release("1.2.3")))
    );
    assert_eq!(plan_update_check(Some(cache.clone()), 160, 60), UpdateStep::Fetch);
    assert_eq!(
        plan_update_check(Some(cache), 50, 60),
        UpdateStep::UseCached(Some(release("1.2.3")))
    );
    assert_eq!(plan_update_check(None, 0, 60), UpdateStep::Fetch);
}

#[test]
fn a_failed_fetch_keeps_the_cached_release() {
    let cache = UpdateCache { checked_at: 100, release: Some(release("1.2.3")) };
    let (stored, compared) = after_fetch(Some(cache), None, 500);
    assert_eq!(stored.checked_at, 500);
    assert_eq!(compared, Some(release("1.2.3")));
    assert_eq!(stored.release, compared);

    let (stored, compared) = after_fetch(None, Some(release("2.0.0")), 7);
    assert_eq!(stored, UpdateCache { checked_at: 7, release: Some(release("2.0.0")) });
    assert_eq!(compared, Some(release("2.0.0")));
}

#[test]
fn updates_are_wanted_for_greater_versions_or_when_forced() {
    assert_eq!(update_wanted("p", "1.0.0", "1.1.0", false), Ok(true));
    assert_eq!(update_wanted("p", "1.1.0", "1.1.0", false), Ok(false));
    assert_eq!(update_wanted("p", "1.1.0", "1.0.0", true), Ok(true));
    assert_eq!(
        update_wanted("p", "x", "1.0.0", false),
        Err(UpdateCheckError::InvalidInstalledVersion { id: "p".to_string() })
    );
    assert_eq!(
        update_wanted("p", "1.0.0", "y", false),
        Err(UpdateCheckError::InvalidIndexVersion { id: "p".to_string() })
    );
}

#[test]
fn index_bases_are_http_addresses_without_trailing_slashes() {
    assert_eq!(
        index_base_url("https://example.invalid/plugins//"),
        Some("https://example.invalid/plugins".to_string())
    );
    assert_eq!(index_base_url("http://x"), Some("http://x".to_string()));
    assert_eq!(index_base_url("ftp://example.invalid"), None);
}

#[test]
fn published_files_are_hashed_and_addressed_below_the_base() {
    let file = index_file_for("https://example.invalid/plugins", "my bundle", "rules/a b.toml", b"abc");
    assert_eq!(file.path, "rules/a b.toml");
    assert_eq!(
        file.url,
        "https://example.invalid/plugins/my%20bundle/rules/a%20b.toml"
    );
    assert_eq!(
        file.sha256,
        "ba7816bf8f01cfea414140de5dae2223b00361a396177a9cb410ff61f20015ad"
    );
    assert_eq!(file.size, 3);
    assert_eq!(verify_index_file(&file, b"abc"), Ok(()));
    assert_eq!(
        verify_index_file(&file, b"abd"),
        Err(PluginError::FileHashMismatch {
            path: "rules/a b.toml".to_string(),
            expected: "ba7816bf8f01cfea414140de5dae2223b00361a396177a9cb410ff61f20015ad"
                .to_string(),
            actual: "a52d159f262b2c6ddb724a61840befc36eb30c88877a4030b65cbe86298449c9"
                .to_string()
        })
    );
    assert_eq!(
        verify_index_file(&file, b"ab"),
        Err(PluginError::FileSizeMismatch {
            path: "rules/a b.toml".to_string(),
            expected: 3,
            actual: 2
        })
    );
}

#[test]
fn index_entries_are_built_from_the_manifest() {
    let mut m = manifest();
    m.repository = Some("owner/repo".to_string());
    let e = index_entry_for_bundle(m.clone(), "example", Vec::new());
    assert_eq!(e.id, m.id);
    assert_eq!(e.capabilities, m.capabilities);
    let source = e.source.expect("source");
    assert_eq!(source.kind, "github");
    assert_eq!(source.repo.as_deref(), Some("owner/repo"));
    assert_eq!(source.path.as_deref(), Some("plugins/example"));
    assert_eq!(source.url, None);

    let e = index_entry_for_bundle(manifest(), "example", Vec::new());
    assert_eq!(e.source, None);
}

#[test]
fn urls_are_percent_encoded_by_segment() {
    assert_eq!(percent_encode("a b/c~"), "a%20b%2Fc~");
    assert_eq!(url_path("a b/c~"), "a%20b/c~");
}

#[test]
fn capabilities_are_listed_in_canonical_order() {
    assert_eq!(
        format_capabilities(&vec![PluginCapability::DynamicCandidates, PluginCapability::Rules]),
        "rules, dynamic-candidates"
    );
    assert_eq!(format_capabilities(&Vec::new()), "");
}

#[test]
fn search_matches_identity_text_case_insensitively() {
    let mut e = entry();
    e.keywords = vec!["cache".to_string()];
    assert!(matches_query(&e, ""));
    assert!(matches_query(&e, "example"));
    assert!(matches_query(&e, "cach"));
    assert!(!matches_query(&e, "python"));
}

#[test]
fn index_addresses_come_from_the_option_or_a_checked_repository() {
    assert_eq!(
        plugin_index_url(Some("https://example.invalid/index.json".to_string()), "bad repo", "x y"),
        Ok("https://example.invalid/index.json".to_string())
    );
    assert_eq!(plugin_index_url(None, "bad repo", "main"), Err(PluginError::InvalidGithubRepo));
    assert_eq!(plugin_index_url(None, "owner/repo", "bad ref"), Err(PluginError::InvalidGithubRef));
}

#[test]
fn templates_name_the_plugin() {
    let text = plugin_template("example.cache", "Example");
    let value: toml::Value = toml::from_str(&text).expect("template parses");
    assert_eq!(value["id"].as_str(), Some("example.cache"));
    assert_eq!(value["name"].as_str(), Some("Example"));
    assert_eq!(value["api_version"].as_str(), Some("1"));
}

#[test]
fn expected_language_hashes_are_checked_before_download() {
    assert!(validate_expected_sha256(None).is_ok());
    assert!(validate_expected_sha256(Some(&"A".repeat(64))).is_ok());
    assert!(validate_expected_sha256(Some("abc")).is_err());
}

#[test]
fn registering_a_plugin_adds_each_setting_once() {
    let mut config = defaults();
    config.plugins.dirs.clear();
    config.plugins.trusted.clear();
    config.cleanup.enabled_rule_packs = vec!["builtin-dev".to_string()];
    let packs = vec!["example.pack".to_string(), "builtin-dev".to_string()];
    register_plugin(&mut config, "/plugins/example", "example.rules", true, true, &packs);
    register_plugin(&mut config, "/plugins/example", "example.rules", true, true, &packs);
    assert_eq!(config.plugins.dirs, vec!["/plugins/example".to_string()]);
    assert_eq!(config.plugins.trusted, vec!["example.rules".to_string()]);
    assert_eq!(
        config.cleanup.enabled_rule_packs,
        vec!["builtin-dev".to_string(), "example.pack".to_string()]
    );

    assert!(unlink_plugin_dir(&mut config, "/plugins/example"));
    assert!(!unlink_plugin_dir(&mut config, "/plugins/example"));
    assert!(config.plugins.dirs.is_empty());
}

#[test]
fn trust_is_given_once_and_taken_back() {
    let mut config = defaults();
    config.plugins.trusted.clear();
    trust_plugin(&mut config, "example.rules").expect("trust");
    trust_plugin(&mut config, "example.rules").expect("trust again");
    assert_eq!(config.plugins.trusted, vec!["example.rules".to_string()]);
    untrust_plugin(&mut config, "example.rules").expect("untrust");
    assert!(config.plugins.trusted.is_empty());
    assert_eq!(trust_plugin(&mut config, "../x"), Err(PluginError::InvalidId));
}

#[test]
fn bundle_paths_are_written_with_slashes() {
    assert_eq!(slash_path("rules//caches.toml"), Ok("rules/caches.toml".to_string()));
    assert_eq!(slash_path("./rules/./a.toml"), Err(PluginError::UnsupportedPathComponent));
    assert_eq!(slash_path("../a"), Err(PluginError::UnsupportedPathComponent));
    assert_eq!(slash_path("/abs"), Err(PluginError::UnsupportedPathComponent));
    assert_eq!(
        PluginError::UnsupportedPathComponent.message(),
        "plugin path contains unsupported component"
    );
}

#[test]
fn listed_paths_are_comma_separated() {
    assert_eq!(join_paths(&[]), "(none)");
    assert_eq!(
        join_paths(&["/a".to_string(), "/b c".to_string()]),
        "/a, /b c"
    );
}

#[test]
fn installed_manifest_must_name_the_index_entry() {
    assert_eq!(cleanr::commands::check_manifest_id("acme.cache", "acme.cache"), Ok(()));
    assert_eq!(
        cleanr::commands::check_manifest_id("acme.cache", "evil.cache"),
        Err("plugin index id acme.cache does not match manifest id evil.cache".to_string())
    );
}
