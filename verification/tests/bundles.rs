use cleanr::bundles::plan_bundle_load;
use cleanr::plugin::{DiagnosticSeverity, PluginCapability};

fn listing(items: &[(&str, bool)]) -> Result<Vec<(String, bool)>, String> {
    Ok(items.iter().map(|(p, f)| (p.to_string(), *f)).collect())
}

#[test]
fn rule_bundle_loads_its_toml_files_in_order() {
    let (diagnostics, files) = plan_bundle_load(
        &[PluginCapability::Rules],
        "acme",
        "/plugins/acme",
        listing(&[
            ("/plugins/acme/rules/a.toml", true),
            ("/plugins/acme/rules/notes.md", true),
            ("/plugins/acme/rules/dir.toml", false),
            ("/plugins/acme/rules/b.toml", true),
        ]),
    );
    assert!(diagnostics.is_empty());
    assert_eq!(files, vec!["/plugins/acme/rules/a.toml".to_string(), "/plugins/acme/rules/b.toml".to_string()]);
}

#[test]
fn dynamic_candidates_are_warned_about() {
    let (diagnostics, files) = plan_bundle_load(
        &[PluginCapability::DynamicCandidates, PluginCapability::Translations],
        "hooks",
        "/plugins/hooks",
        listing(&[]),
    );
    assert!(files.is_empty());
    assert_eq!(diagnostics.len(), 1);
    assert_eq!(diagnostics[0].severity, DiagnosticSeverity::Warning);
    assert_eq!(diagnostics[0].code, "dynamic-candidates-runtime-disabled");
    assert_eq!(
        diagnostics[0].message,
        "plugin hooks declares dynamic-candidates, but hook execution is not enabled in this release"
    );
    assert_eq!(diagnostics[0].path, Some("/plugins/hooks".to_string()));
}

#[test]
fn missing_rules_directory_is_warned_twice() {
    let (diagnostics, files) = plan_bundle_load(
        &[PluginCapability::Rules],
        "acme",
        "/plugins/acme/",
        Err("No such file or directory (os error 2)".to_string()),
    );
    assert!(files.is_empty());
    assert_eq!(diagnostics.len(), 2);
    assert_eq!(diagnostics[0].code, "plugin-rules-directory-missing");
    assert_eq!(diagnostics[0].message, "No such file or directory (os error 2)");
    assert_eq!(diagnostics[0].path, Some("/plugins/acme/rules".to_string()));
    assert_eq!(diagnostics[1].code, "plugin-rules-empty");
    assert_eq!(diagnostics[1].message, "plugin acme declares rules but contains no rule packs");
    assert_eq!(diagnostics[1].path, Some("/plugins/acme/rules".to_string()));
}

#[test]
fn rules_directory_without_packs_is_warned() {
    let (diagnostics, files) = plan_bundle_load(
        &[PluginCapability::Rules],
        "acme",
        "/plugins/acme",
        listing(&[("/plugins/acme/rules/readme.txt", true)]),
    );
    assert!(files.is_empty());
    assert_eq!(diagnostics.len(), 1);
    assert_eq!(diagnostics[0].code, "plugin-rules-empty");
}
