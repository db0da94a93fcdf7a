use cleanr::config::{
    apply_value, default_enabled_rule_packs, get_value, normalize_opt_string, Config, ConfigError,
    ScanBudgetConfig, ScanBudgetLimits, UiTheme,
};
use cleanr::evidence::MAX_RECOMMENDATION_AGE_DAYS;
use cleanr::model::GlobalScanKind;

fn defaults() -> Config {
    Config::defaults_from(None, None)
}

#[test]
fn supported_values_round_trip_through_get_and_apply() {
    let mut config = defaults();
    for (key, value, expected) in [
        ("scan.stay_on_filesystem", "yes", "true"),
        ("cleanup.default_action", "trash", "trash"),
        ("cleanup.require_confirm", "off", "false"),
        ("recommendations.preselect_after_days", "120", "120"),
        ("i18n.locale", "zh-CN", "zh-CN"),
        ("ui.theme", "dark", "dark"),
    ] {
        apply_value(&mut config, key, value).expect(key);
        assert_eq!(get_value(&config, key).expect(key), expected);
    }

    assert!(apply_value(&mut config, "missing.key", "value").is_err());
    assert!(get_value(&config, "missing.key").is_err());
}

#[test]
fn empty_optional_strings_clear_locale_values() {
    let mut config = defaults();
    config.i18n.locale = Some("zh-CN".to_string());

    let key = "i18n.locale";
    apply_value(&mut config, key, "").expect(key);
    assert_eq!(get_value(&config, key).expect(key), "");
}

#[test]
fn rejects_duplicate_plugin_ids() {
    let mut config = defaults();
    config.plugins.trusted = vec!["example".to_string(), "example".to_string()];
    assert!(config.validate().is_err());
}

#[test]
fn rejects_a_recommendation_age_above_the_supported_limit() {
    let mut config = defaults();
    config.recommendations.preselect_after_days = MAX_RECOMMENDATION_AGE_DAYS + 1;

    assert!(config.validate().is_err());
}

#[test]
fn allows_zero_to_disable_the_recommendation_age_gate() {
    let mut config = defaults();
    config.recommendations.preselect_after_days = 0;

    assert!(config.validate().is_ok());
}

#[test]
fn scan_budget_memory_unit_overflow_is_rejected() {
    let mut config = defaults();
    config.scan.budgets.max_estimated_memory_mib = u64::MAX;

    let error = config.validate().expect_err("overflow must be rejected");

    assert!(error.message().contains("max_estimated_memory_mib"));
}

#[test]
fn scan_budget_time_unit_overflow_is_rejected() {
    let mut config = defaults();
    config.scan.budgets.max_elapsed_seconds = u64::MAX;

    let error = config.validate().expect_err("overflow must be rejected");

    assert!(error.message().contains("max_elapsed_seconds"));
}

#[test]
fn scan_budget_limits_convert_persistable_boundary_units_without_narrowing_counts() {
    const MIB: u64 = 1024 * 1024;
    let budgets = ScanBudgetConfig {
        max_entries: i64::MAX as u64,
        max_elapsed_seconds: u64::MAX / 1000,
        max_estimated_memory_mib: u64::MAX / MIB,
        max_issue_details: i64::MAX as u64,
    };

    let limits = budgets.limits().expect("boundary limits convert");

    assert_eq!(limits.entries, i64::MAX as u64);
    assert_eq!(limits.elapsed_millis, (u64::MAX / 1000) * 1000);
    assert_eq!(limits.estimated_memory_bytes, (u64::MAX / MIB) * MIB);
    assert_eq!(limits.issue_details, i64::MAX as u64);
}

#[test]
fn scan_budget_counts_above_the_toml_integer_range_are_rejected() {
    let mut config = defaults();
    config.scan.budgets.max_entries = u64::MAX;
    let error = config
        .validate()
        .expect_err("entry count must be persistable");
    assert!(error.message().contains("max_entries"));

    config.scan.budgets.max_entries = 0;
    config.scan.budgets.max_issue_details = u64::MAX;
    let error = config
        .validate()
        .expect_err("issue detail count must be persistable");
    assert!(error.message().contains("max_issue_details"));
}

#[test]
fn validation_rejects_empty_values_and_duplicate_rule_packs() {
    let mut config = defaults();
    config.plugins.trusted = vec!["valid".to_string(), " ".to_string()];
    assert!(config.validate().is_err());

    let mut config = defaults();
    config.cleanup.enabled_rule_packs = vec!["same".to_string(), "same".to_string()];
    assert!(config.validate().is_err());

    let mut config = defaults();
    config.scan.global_kinds = vec![GlobalScanKind::Logs, GlobalScanKind::Logs];
    assert!(config.validate().is_err());
}

#[test]
fn defaults_are_valid_and_unlimited() {
    let config = defaults();
    assert_eq!(config.validate(), Ok(()));
    assert_eq!(config.recommendations.preselect_after_days, 90);
    assert_eq!(config.ui.theme, UiTheme::Auto);
    assert!(config.cleanup.require_confirm);
    assert_eq!(config.scan.budgets, ScanBudgetConfig::default());
    assert_eq!(
        config.scan.budgets.limits(),
        Ok(ScanBudgetLimits {
            entries: 0,
            elapsed_millis: 0,
            estimated_memory_bytes: 0,
            issue_details: 0
        })
    );
    assert!(config.scan.budgets.is_unlimited());
    assert_eq!(
        default_enabled_rule_packs(),
        vec![
            "builtin-dev".to_string(),
            "builtin-general".to_string(),
            "builtin-system".to_string()
        ]
    );
}

#[test]
fn budget_units_are_converted_exactly() {
    let budgets = ScanBudgetConfig {
        max_entries: 10,
        max_elapsed_seconds: 3,
        max_estimated_memory_mib: 2,
        max_issue_details: 5,
    };
    assert_eq!(
        budgets.limits(),
        Ok(ScanBudgetLimits {
            entries: 10,
            elapsed_millis: 3000,
            estimated_memory_bytes: 2 * 1024 * 1024,
            issue_details: 5
        })
    );
    assert!(!budgets.is_unlimited());
}

#[test]
fn validation_reports_the_first_fault_in_order() {
    let mut config = defaults();
    config.recommendations.preselect_after_days = MAX_RECOMMENDATION_AGE_DAYS + 1;
    config.plugins.trusted = vec![" ".to_string()];
    assert_eq!(config.validate(), Err(ConfigError::AgeAboveLimit));

    let mut config = defaults();
    config.plugins.trusted = vec!["a".to_string(), "a".to_string()];
    assert_eq!(config.validate(), Err(ConfigError::DuplicateTrustedPlugin));

    let mut config = defaults();
    config.cleanup.enabled_rule_packs = vec!["".to_string()];
    assert_eq!(config.validate(), Err(ConfigError::EmptyRulePack));
}

#[test]
fn refused_values_leave_the_configuration_unchanged() {
    let mut config = defaults();
    let before = config.clone();
    assert_eq!(
        apply_value(&mut config, "ui.theme", "neon"),
        Err(ConfigError::UnsupportedValue { value: "neon".to_string() })
    );
    assert_eq!(
        apply_value(&mut config, "cleanup.require_confirm", "perhaps"),
        Err(ConfigError::ExpectedBoolean { value: "perhaps".to_string() })
    );
    assert_eq!(
        apply_value(&mut config, "recommendations.preselect_after_days", "soon"),
        Err(ConfigError::ExpectedInteger)
    );
    assert_eq!(
        get_value(&config, "nope"),
        Err(ConfigError::UnknownKey { key: "nope".to_string() })
    );
    assert_eq!(config, before);
}

#[test]
fn empty_optional_text_is_no_value() {
    assert_eq!(normalize_opt_string(String::new()), None);
    assert_eq!(normalize_opt_string(" zh-CN".to_string()), Some(" zh-CN".to_string()));
}

#[test]
fn the_documented_file_names_every_default() {
    let text = Config::default_file_content();
    let value: toml::Value = toml::from_str(text).expect("default file parses");
    let config = defaults();
    assert_eq!(
        value["recommendations"]["preselect_after_days"].as_integer(),
        Some(i64::from(config.recommendations.preselect_after_days))
    );
    assert_eq!(value["ui"]["theme"].as_str(), Some(config.ui.theme.as_str()));
    assert_eq!(
        value["cleanup"]["default_action"].as_str(),
        Some(config.cleanup.default_action.as_str())
    );
    assert_eq!(
        value["cleanup"]["require_confirm"].as_bool(),
        Some(config.cleanup.require_confirm)
    );
    let packs: Vec<String> = value["cleanup"]["enabled_rule_packs"]
        .as_array()
        .expect("packs")
        .iter()
        .map(|v| v.as_str().expect("pack").to_string())
        .collect();
    assert_eq!(packs, config.cleanup.enabled_rule_packs);
    let kinds = value["scan"]["global_kinds"].as_array().expect("kinds");
    assert_eq!(kinds.len(), config.scan.global_kinds.len());
}

#[test]
fn the_legacy_default_pack_list_gains_the_system_pack() {
    let mut config = defaults();
    config.cleanup.enabled_rule_packs =
        vec!["builtin-dev".to_string(), "builtin-general".to_string()];
    assert_eq!(
        config.cleanup.effective_enabled_rule_packs(),
        default_enabled_rule_packs()
    );

    config.cleanup.enabled_rule_packs = vec!["builtin-general".to_string(), "builtin-dev".to_string()];
    assert_eq!(
        config.cleanup.effective_enabled_rule_packs(),
        vec!["builtin-general".to_string(), "builtin-dev".to_string()]
    );
}
