//! User configuration: its settings, their defaults, validation and the `config` command's
//! key/value access.
use vstd::prelude::*;

use crate::evidence::MAX_RECOMMENDATION_AGE_DAYS;
use crate::model::{default_global_scan_kinds, GlobalScanKind};
use crate::text::{blank, chars_of, concat, is_blank, lower_all, str_eq, to_ascii_lowercase};

verus! {

/// The largest integer a TOML document can hold.
pub const TOML_MAX_INTEGER: u64 = 9_223_372_036_854_775_807;

/// Why a configuration, or a value for one of its keys, is refused.
#[derive(Debug, PartialEq, Eq)]
pub enum ConfigError {
    AgeAboveLimit,
    EmptyTrustedPlugin,
    EmptyRulePack,
    DuplicateTrustedPlugin,
    DuplicateRulePack,
    DuplicateGlobalKind,
    EntriesAboveTomlRange,
    IssueDetailsAboveTomlRange,
    ElapsedSecondsTooLarge,
    MemoryMibTooLarge,
    UnsupportedValue { value: String },
    ExpectedBoolean { value: String },
    ExpectedInteger,
    UnknownKey { key: String },
}

/// The message for a refused configuration value.
pub open spec fn config_error_text(e: ConfigError) -> Seq<char> {
    match e {
        ConfigError::AgeAboveLimit => "recommendations.preselect_after_days must be in 0..=3650"@,
        ConfigError::EmptyTrustedPlugin => "plugins.trusted cannot contain empty plugin IDs"@,
        ConfigError::EmptyRulePack => "cleanup.enabled_rule_packs cannot contain empty rule pack IDs"@,
        ConfigError::DuplicateTrustedPlugin => "plugins.trusted cannot contain duplicate plugin IDs"@,
        ConfigError::DuplicateRulePack => "cleanup.enabled_rule_packs cannot contain duplicate rule pack IDs"@,
        ConfigError::DuplicateGlobalKind => "scan.global_kinds cannot contain duplicate global scan kinds"@,
        ConfigError::EntriesAboveTomlRange => "scan.budgets.max_entries exceeds the largest TOML integer"@,
        ConfigError::IssueDetailsAboveTomlRange => "scan.budgets.max_issue_details exceeds the largest TOML integer"@,
        ConfigError::ElapsedSecondsTooLarge => "scan.budgets.max_elapsed_seconds is too large"@,
        ConfigError::MemoryMibTooLarge => "scan.budgets.max_estimated_memory_mib is too large"@,
        ConfigError::UnsupportedValue { value } => "unsupported value: "@ + value@,
        ConfigError::ExpectedBoolean { value } => "expected boolean, got: "@ + value@,
        ConfigError::ExpectedInteger => "recommendations.preselect_after_days must be an integer"@,
        ConfigError::UnknownKey { key } => "unknown config key: "@ + key@,
    }
}

impl ConfigError {
    /// The message shown to the user.
    pub fn message(&self) -> (res: String)
        ensures
            res@ == config_error_text(*self),
    {
        match self {
            ConfigError::AgeAboveLimit => "recommendations.preselect_after_days must be in 0..=3650".to_owned(),
            ConfigError::EmptyTrustedPlugin => "plugins.trusted cannot contain empty plugin IDs".to_owned(),
            ConfigError::EmptyRulePack => "cleanup.enabled_rule_packs cannot contain empty rule pack IDs".to_owned(),
            ConfigError::DuplicateTrustedPlugin => "plugins.trusted cannot contain duplicate plugin IDs".to_owned(),
            ConfigError::DuplicateRulePack => "cleanup.enabled_rule_packs cannot contain duplicate rule pack IDs".to_owned(),
            ConfigError::DuplicateGlobalKind => "scan.global_kinds cannot contain duplicate global scan kinds".to_owned(),
            ConfigError::EntriesAboveTomlRange => "scan.budgets.max_entries exceeds the largest TOML integer".to_owned(),
            ConfigError::IssueDetailsAboveTomlRange => "scan.budgets.max_issue_details exceeds the largest TOML integer".to_owned(),
            ConfigError::ElapsedSecondsTooLarge => "scan.budgets.max_elapsed_seconds is too large".to_owned(),
            ConfigError::MemoryMibTooLarge => "scan.budgets.max_estimated_memory_mib is too large".to_owned(),
            ConfigError::UnsupportedValue { value } => concat("unsupported value: ", value.as_str()),
            ConfigError::ExpectedBoolean { value } => concat("expected boolean, got: ", value.as_str()),
            ConfigError::ExpectedInteger => "recommendations.preselect_after_days must be an integer".to_owned(),
            ConfigError::UnknownKey { key } => concat("unknown config key: ", key.as_str()),
        }
    }
}

/// Scan limits in the base units that scan backends consume. Zero means unlimited.
#[derive(Debug, Clone, Copy, PartialEq, Eq)]
pub struct ScanBudgetLimits {
    pub entries: u64,
    pub elapsed_millis: u64,
    pub estimated_memory_bytes: u64,
    pub issue_details: u64,
}

/// Optional soft limits for a scan. Zero keeps the unlimited behavior.
#[derive(Debug, Clone, Copy, PartialEq, Eq)]
pub struct ScanBudgetConfig {
    pub max_entries: u64,
    pub max_elapsed_seconds: u64,
    pub max_estimated_memory_mib: u64,
    pub max_issue_details: u64,
}

impl Default for ScanBudgetConfig {
    fn default() -> (res: Self)
        ensures
            res.max_entries == 0 && res.max_elapsed_seconds == 0 && res.max_estimated_memory_mib == 0
                && res.max_issue_details == 0,
    {
        ScanBudgetConfig { max_entries: 0, max_elapsed_seconds: 0, max_estimated_memory_mib: 0, max_issue_details: 0 }
    }
}

/// The budget error of `b`, checked in order: entries, issue details, elapsed time, memory.
pub open spec fn budget_error(b: ScanBudgetConfig) -> Option<ConfigError> {
    if b.max_entries > TOML_MAX_INTEGER {
        Some(ConfigError::EntriesAboveTomlRange)
    } else if b.max_issue_details > TOML_MAX_INTEGER {
        Some(ConfigError::IssueDetailsAboveTomlRange)
    } else if b.max_elapsed_seconds * 1000 > u64::MAX {
        Some(ConfigError::ElapsedSecondsTooLarge)
    } else if b.max_estimated_memory_mib * (1024 * 1024) > u64::MAX {
        Some(ConfigError::MemoryMibTooLarge)
    } else {
        None
    }
}

impl ScanBudgetConfig {
    /// Whether every limit is zero, that is, the scan is unlimited.
    pub fn is_unlimited(&self) -> (res: bool)
        ensures
            res == (self.max_entries == 0 && self.max_elapsed_seconds == 0 && self.max_estimated_memory_mib == 0
                && self.max_issue_details == 0),
    {
        self.max_entries == 0 && self.max_elapsed_seconds == 0 && self.max_estimated_memory_mib == 0
            && self.max_issue_details == 0
    }

    /// Normalize user-facing units to the stable base units consumed by scan backends.
    pub fn limits(&self) -> (res: Result<ScanBudgetLimits, ConfigError>)
        ensures
            match budget_error(*self) {
                Some(e) => res == Err::<ScanBudgetLimits, ConfigError>(e),
                None => res matches Ok(l) && l.entries == self.max_entries
                    && l.elapsed_millis == self.max_elapsed_seconds * 1000
                    && l.estimated_memory_bytes == self.max_estimated_memory_mib * (1024 * 1024)
                    && l.issue_details == self.max_issue_details,
            },
    {
        if self.max_entries > TOML_MAX_INTEGER {
            return Err(ConfigError::EntriesAboveTomlRange);
        }
        if self.max_issue_details > TOML_MAX_INTEGER {
            return Err(ConfigError::IssueDetailsAboveTomlRange);
        }
        let elapsed_millis = match self.max_elapsed_seconds.checked_mul(1000) {
            Some(v) => v,
            None => {
                return Err(ConfigError::ElapsedSecondsTooLarge);
            },
        };
        let estimated_memory_bytes = match self.max_estimated_memory_mib.checked_mul(1024 * 1024) {
            Some(v) => v,
            None => {
                return Err(ConfigError::MemoryMibTooLarge);
            },
        };
        Ok(ScanBudgetLimits {
            entries: self.max_entries,
            elapsed_millis,
            estimated_memory_bytes,
            issue_details: self.max_issue_details,
        })
    }
}

/// What a cleanup does with the selected items.
#[derive(Debug, Clone, Copy, PartialEq, Eq, Structural)]
pub enum CleanupAction {
    Trash,
}

/// The terminal color theme.
#[derive(Debug, Clone, Copy, PartialEq, Eq, Structural)]
pub enum UiTheme {
    Auto,
    Dark,
    Light,
}

impl Default for CleanupAction {
    fn default() -> (res: Self)
        ensures
            res == CleanupAction::Trash,
    {
        CleanupAction::Trash
    }
}

impl Default for UiTheme {
    fn default() -> (res: Self)
        ensures
            res == UiTheme::Auto,
    {
        UiTheme::Auto
    }
}

pub open spec fn cleanup_action_text(a: CleanupAction) -> Seq<char> {
    match a {
        CleanupAction::Trash => "trash"@,
    }
}

pub open spec fn ui_theme_text(t: UiTheme) -> Seq<char> {
    match t {
        UiTheme::Auto => "auto"@,
        UiTheme::Dark => "dark"@,
        UiTheme::Light => "light"@,
    }
}

/// The action named by `s`, in any ASCII case.
pub open spec fn cleanup_action_named(s: Seq<char>) -> Option<CleanupAction> {
    if lower_all(s) == "trash"@ {
        Some(CleanupAction::Trash)
    } else {
        None
    }
}

/// The theme named by `s`, in any ASCII case.
pub open spec fn ui_theme_named(s: Seq<char>) -> Option<UiTheme> {
    if lower_all(s) == "auto"@ {
        Some(UiTheme::Auto)
    } else if lower_all(s) == "dark"@ {
        Some(UiTheme::Dark)
    } else if lower_all(s) == "light"@ {
        Some(UiTheme::Light)
    } else {
        None
    }
}

impl CleanupAction {
    /// The action's configuration text.
    pub fn as_str(&self) -> (res: &'static str)
        ensures
            res@ == cleanup_action_text(*self),
    {
        proof {
            reveal_strlit("trash");
        }
        match self {
            CleanupAction::Trash => "trash",
        }
    }

    /// Parse an action name, in any ASCII case.
    pub fn parse(value: &str) -> (res: Result<CleanupAction, ConfigError>)
        ensures
            match cleanup_action_named(value@) {
                Some(a) => res == Ok::<CleanupAction, ConfigError>(a),
                None => res matches Err(ConfigError::UnsupportedValue { value: v }) && v@ == value@,
            },
    {
        let lower = to_ascii_lowercase(value);
        let text = crate::text::string_from_chars(lower.as_slice());
        if str_eq(text.as_str(), "trash") {
            Ok(CleanupAction::Trash)
        } else {
            Err(ConfigError::UnsupportedValue { value: value.to_owned() })
        }
    }
}

impl UiTheme {
    /// The theme's configuration text.
    pub fn as_str(&self) -> (res: &'static str)
        ensures
            res@ == ui_theme_text(*self),
    {
        proof {
            reveal_strlit("auto");
            reveal_strlit("dark");
            reveal_strlit("light");
        }
        match self {
            UiTheme::Auto => "auto",
            UiTheme::Dark => "dark",
            UiTheme::Light => "light",
        }
    }

    /// Parse a theme name, in any ASCII case.
    pub fn parse(value: &str) -> (res: Result<UiTheme, ConfigError>)
        ensures
            match ui_theme_named(value@) {
                Some(t) => res == Ok::<UiTheme, ConfigError>(t),
                None => res matches Err(ConfigError::UnsupportedValue { value: v }) && v@ == value@,
            },
    {
        let lower = to_ascii_lowercase(value);
        let text = crate::text::string_from_chars(lower.as_slice());
        if str_eq(text.as_str(), "auto") {
            Ok(UiTheme::Auto)
        } else if str_eq(text.as_str(), "dark") {
            Ok(UiTheme::Dark)
        } else if str_eq(text.as_str(), "light") {
            Ok(UiTheme::Light)
        } else {
            Err(ConfigError::UnsupportedValue { value: value.to_owned() })
        }
    }
}

impl core::str::FromStr for CleanupAction {
    type Err = ConfigError;

    fn from_str(value: &str) -> (res: Result<CleanupAction, ConfigError>)
        ensures
            match cleanup_action_named(value@) {
                Some(a) => res == Ok::<CleanupAction, ConfigError>(a),
                None => res matches Err(ConfigError::UnsupportedValue { value: v }) && v@ == value@,
            },
    {
        CleanupAction::parse(value)
    }
}

impl core::str::FromStr for UiTheme {
    type Err = ConfigError;

    fn from_str(value: &str) -> (res: Result<UiTheme, ConfigError>)
        ensures
            match ui_theme_named(value@) {
                Some(t) => res == Ok::<UiTheme, ConfigError>(t),
                None => res matches Err(ConfigError::UnsupportedValue { value: v }) && v@ == value@,
            },
    {
        UiTheme::parse(value)
    }
}

#[derive(Debug, Clone, PartialEq, Eq)]
pub struct ScanConfig {
    pub stay_on_filesystem: bool,
    pub ignore_dirs: Vec<String>,
    pub ignore_patterns: Vec<String>,
    pub global_kinds: Vec<GlobalScanKind>,
    pub budgets: ScanBudgetConfig,
}

impl Default for ScanConfig {
    fn default() -> (res: Self)
        ensures
            !res.stay_on_filesystem,
            res.ignore_dirs@.len() == 0,
            res.ignore_patterns@.len() == 2,
            res.ignore_patterns@[0]@ == "**/.git"@,
            res.ignore_patterns@[1]@ == "**/.git/**"@,
            res.global_kinds@ == crate::model::all_global_kinds(),
            res.budgets == (ScanBudgetConfig { max_entries: 0, max_elapsed_seconds: 0, max_estimated_memory_mib: 0, max_issue_details: 0 }),
    {
        let mut ignore_patterns: Vec<String> = Vec::new();
        ignore_patterns.push("**/.git".to_owned());
        ignore_patterns.push("**/.git/**".to_owned());
        ScanConfig {
            stay_on_filesystem: false,
            ignore_dirs: Vec::new(),
            ignore_patterns,
            global_kinds: default_global_scan_kinds(),
            budgets: ScanBudgetConfig::default(),
        }
    }
}

#[derive(Debug, Clone, PartialEq, Eq)]
pub struct CleanupConfig {
    pub default_action: CleanupAction,
    pub require_confirm: bool,
    pub enabled_rule_packs: Vec<String>,
}

/// The rule packs enabled by default.
pub open spec fn default_rule_pack_names() -> Seq<Seq<char>> {
    seq!["builtin-dev"@, "builtin-general"@, "builtin-system"@]
}

/// The rule packs that earlier releases enabled by default.
pub open spec fn legacy_rule_pack_names() -> Seq<Seq<char>> {
    seq!["builtin-dev"@, "builtin-general"@]
}

/// The texts of `v`.
pub open spec fn string_views(v: Seq<String>) -> Seq<Seq<char>> {
    Seq::new(v.len(), |i: int| v[i]@)
}

/// The rule packs enabled by default.
pub fn default_enabled_rule_packs() -> (res: Vec<String>)
    ensures
        string_views(res@) == default_rule_pack_names(),
{
    let mut res: Vec<String> = Vec::new();
    res.push("builtin-dev".to_owned());
    res.push("builtin-general".to_owned());
    res.push("builtin-system".to_owned());
    assert(string_views(res@) =~= default_rule_pack_names());
    res
}

impl Default for CleanupConfig {
    fn default() -> (res: Self)
        ensures
            res.default_action == CleanupAction::Trash,
            res.require_confirm,
            string_views(res.enabled_rule_packs@) == default_rule_pack_names(),
    {
        CleanupConfig {
            default_action: CleanupAction::Trash,
            require_confirm: true,
            enabled_rule_packs: default_enabled_rule_packs(),
        }
    }
}

fn copy_strings(v: &Vec<String>) -> (res: Vec<String>)
    ensures
        res@ == v@,
{
    let mut res: Vec<String> = Vec::new();
    let mut i: usize = 0;
    while i < v.len()
        invariant
            i <= v@.len(),
            res@ == v@.take(i as int),
        decreases v.len() - i,
    {
        res.push(v[i].clone());
        assert(v@.take(i + 1) =~= v@.take(i as int).push(v@[i as int]));
        i = i + 1;
    }
    assert(v@.take(v@.len() as int) =~= v@);
    res
}

impl CleanupConfig {
    /// The rule packs to load: the current defaults where the configuration still names the
    /// earlier default list, the configured packs otherwise.
    pub fn effective_enabled_rule_packs(&self) -> (res: Vec<String>)
        ensures
            string_views(res@) == if string_views(self.enabled_rule_packs@) == legacy_rule_pack_names() {
                default_rule_pack_names()
            } else {
                string_views(self.enabled_rule_packs@)
            },
    {
        let packs = &self.enabled_rule_packs;
        proof {
            reveal_strlit("builtin-dev");
            reveal_strlit("builtin-general");
        }
        if packs.len() == 2 && str_eq(packs[0].as_str(), "builtin-dev") && str_eq(packs[1].as_str(), "builtin-general") {
            assert(string_views(packs@) =~= legacy_rule_pack_names());
            return default_enabled_rule_packs();
        }
        proof {
            if string_views(packs@) == legacy_rule_pack_names() {
                assert(legacy_rule_pack_names().len() == 2);
                assert(packs@.len() == 2);
                assert(string_views(packs@)[0] == packs@[0]@);
                assert(string_views(packs@)[1] == packs@[1]@);
            }
        }
        copy_strings(packs)
    }
}

/// Shared recommendation policy used by the interactive and non-interactive workflows.
#[derive(Debug, Clone, Copy, PartialEq, Eq)]
pub struct RecommendationConfig {
    /// Number of inactive days required for automatic preselection. Zero disables this age gate.
    pub preselect_after_days: u16,
}

impl Default for RecommendationConfig {
    fn default() -> (res: Self)
        ensures
            res.preselect_after_days == 90,
    {
        RecommendationConfig { preselect_after_days: 90 }
    }
}

#[derive(Debug, Clone, PartialEq, Eq)]
pub struct PluginConfig {
    pub dirs: Vec<String>,
    pub trusted: Vec<String>,
}

impl PluginConfig {
    /// The defaults: the platform plugin directory where there is one, and no trusted plugins.
    pub fn defaults_from(plugin_dir: Option<String>) -> (res: Self)
        ensures
            res.dirs@ == match plugin_dir { Some(d) => seq![d], None => Seq::empty() },
            res.trusted@.len() == 0,
    {
        let mut dirs: Vec<String> = Vec::new();
        match plugin_dir {
            Some(d) => dirs.push(d),
            None => {},
        }
        PluginConfig { dirs, trusted: Vec::new() }
    }
}

#[derive(Debug, Clone, PartialEq, Eq)]
pub struct I18nConfig {
    pub locale: Option<String>,
    pub dirs: Vec<String>,
}

impl I18nConfig {
    /// The defaults: no locale override, and the platform language directory where there is one.
    pub fn defaults_from(language_dir: Option<String>) -> (res: Self)
        ensures
            res.locale is None,
            res.dirs@ == match language_dir { Some(d) => seq![d], None => Seq::empty() },
    {
        let mut dirs: Vec<String> = Vec::new();
        match language_dir {
            Some(d) => dirs.push(d),
            None => {},
        }
        I18nConfig { locale: None, dirs }
    }
}

#[derive(Debug, Clone, Copy, PartialEq, Eq)]
pub struct UiConfig {
    pub theme: UiTheme,
}

impl Default for UiConfig {
    fn default() -> (res: Self)
        ensures
            res.theme == UiTheme::Auto,
    {
        UiConfig { theme: UiTheme::Auto }
    }
}

#[derive(Debug, Clone, PartialEq, Eq)]
pub struct Config {
    pub scan: ScanConfig,
    pub cleanup: CleanupConfig,
    pub recommendations: RecommendationConfig,
    pub plugins: PluginConfig,
    pub i18n: I18nConfig,
    pub ui: UiConfig,
}

/// Some text of `v` is empty or whitespace only.
pub open spec fn has_blank(v: Seq<String>) -> bool {
    exists|i: int| 0 <= i < v.len() && is_blank((#[trigger] v[i])@)
}

/// Two entries of `v` hold the same text.
pub open spec fn has_duplicate_text(v: Seq<String>) -> bool {
    exists|i: int, j: int| 0 <= i < j < v.len() && (#[trigger] v[i])@ == (#[trigger] v[j])@
}

/// Two entries of `v` are the same kind.
pub open spec fn has_duplicate_kind(v: Seq<GlobalScanKind>) -> bool {
    exists|i: int, j: int| 0 <= i < j < v.len() && #[trigger] v[i] == #[trigger] v[j]
}

/// The first check that `c` fails, in the order they are made.
pub open spec fn config_error(c: Config) -> Option<ConfigError> {
    if c.recommendations.preselect_after_days > MAX_RECOMMENDATION_AGE_DAYS {
        Some(ConfigError::AgeAboveLimit)
    } else if has_blank(c.plugins.trusted@) {
        Some(ConfigError::EmptyTrustedPlugin)
    } else if has_blank(c.cleanup.enabled_rule_packs@) {
        Some(ConfigError::EmptyRulePack)
    } else if has_duplicate_text(c.plugins.trusted@) {
        Some(ConfigError::DuplicateTrustedPlugin)
    } else if has_duplicate_text(c.cleanup.enabled_rule_packs@) {
        Some(ConfigError::DuplicateRulePack)
    } else if has_duplicate_kind(c.scan.global_kinds@) {
        Some(ConfigError::DuplicateGlobalKind)
    } else {
        budget_error(c.scan.budgets)
    }
}

fn any_blank(v: &Vec<String>) -> (res: bool)
    ensures
        res == has_blank(v@),
{
    let mut i: usize = 0;
    while i < v.len()
        invariant
            i <= v@.len(),
            forall|k: int| 0 <= k < i ==> !is_blank((#[trigger] v@[k])@),
        decreases v.len() - i,
    {
        if blank(v[i].as_str()) {
            return true;
        }
        i = i + 1;
    }
    false
}

fn any_duplicate_text(v: &Vec<String>) -> (res: bool)
    ensures
        res == has_duplicate_text(v@),
{
    let mut j: usize = 0;
    while j < v.len()
        invariant
            j <= v@.len(),
            forall|a: int, b: int| 0 <= a < b < j ==> (#[trigger] v@[a])@ != (#[trigger] v@[b])@,
        decreases v.len() - j,
    {
        let mut i: usize = 0;
        while i < j
            invariant
                i <= j < v@.len(),
                forall|a: int, b: int| 0 <= a < b < j ==> (#[trigger] v@[a])@ != (#[trigger] v@[b])@,
                forall|a: int| 0 <= a < i ==> (#[trigger] v@[a])@ != v@[j as int]@,
            decreases j - i,
        {
            if str_eq(v[i].as_str(), v[j].as_str()) {
                return true;
            }
            i = i + 1;
        }
        j = j + 1;
    }
    false
}

fn any_duplicate_kind(v: &Vec<GlobalScanKind>) -> (res: bool)
    ensures
        res == has_duplicate_kind(v@),
{
    let mut j: usize = 0;
    while j < v.len()
        invariant
            j <= v@.len(),
            forall|a: int, b: int| 0 <= a < b < j ==> #[trigger] v@[a] != #[trigger] v@[b],
        decreases v.len() - j,
    {
        let mut i: usize = 0;
        while i < j
            invariant
                i <= j < v@.len(),
                forall|a: int, b: int| 0 <= a < b < j ==> #[trigger] v@[a] != #[trigger] v@[b],
                forall|a: int| 0 <= a < i ==> #[trigger] v@[a] != v@[j as int],
            decreases j - i,
        {
            if v[i] == v[j] {
                return true;
            }
            i = i + 1;
        }
        j = j + 1;
    }
    false
}

/// The configuration file written for a new user: every default, with comments.
pub const DEFAULT_CONFIG_FILE: &'static str = "# cleanr configuration\n\
\n\
[scan]\n\
stay_on_filesystem = false\n\
ignore_dirs = []\n\
ignore_patterns = [\"**/.git\", \"**/.git/**\"]\n\
global_kinds = [\"developer-caches\", \"browser-caches\", \"app-caches\", \"temp-files\", \"logs\", \"downloads\"]\n\
\n\
[cleanup]\n\
default_action = \"trash\"\n\
require_confirm = true\n\
enabled_rule_packs = [\"builtin-dev\", \"builtin-general\", \"builtin-system\"]\n\
\n\
[recommendations]\n\
# Set to 0 to disable the age gate for automatic preselection.\n\
preselect_after_days = 90\n\
\n\
[plugins]\n\
# dirs defaults to ~/.config/cleanr/plugins\n\
trusted = []\n\
\n\
[i18n]\n\
# locale defaults to LC_ALL, LC_MESSAGES, LANG, then en-US.\n\
# locale = \"zh-CN\"\n\
# dirs defaults to ~/.config/cleanr/languages\n\
\n\
[ui]\n\
# Theme: \"auto\" detects from terminal background, or \"dark\"/\"light\".\n\
theme = \"auto\"\n";

impl Config {
    /// The documented default configuration file.
    pub fn default_file_content() -> (res: &'static str)
        ensures
            res@ == DEFAULT_CONFIG_FILE@,
    {
        DEFAULT_CONFIG_FILE
    }

    /// The defaults, with the platform plugin and language directories where there are some.
    pub fn defaults_from(plugin_dir: Option<String>, language_dir: Option<String>) -> (res: Self)
        ensures
            res.recommendations.preselect_after_days == 90,
            res.ui.theme == UiTheme::Auto,
            res.cleanup.require_confirm,
            config_error(res) is None,
    {
        let config = Config {
            scan: ScanConfig::default(),
            cleanup: CleanupConfig::default(),
            recommendations: RecommendationConfig::default(),
            plugins: PluginConfig::defaults_from(plugin_dir),
            i18n: I18nConfig::defaults_from(language_dir),
            ui: UiConfig::default(),
        };
        proof {
            reveal_strlit("builtin-dev");
            reveal_strlit("builtin-general");
            reveal_strlit("builtin-system");
            let packs = config.cleanup.enabled_rule_packs@;
            assert(string_views(packs) == default_rule_pack_names());
            assert(default_rule_pack_names().len() == 3);
            assert(string_views(packs).len() == packs.len());
            assert(packs.len() == 3);
            assert(string_views(packs).len() == 3);
            assert(string_views(packs)[0] == packs[0]@);
            assert(string_views(packs)[1] == packs[1]@);
            assert(string_views(packs)[2] == packs[2]@);
            assert forall|i: int| 0 <= i < packs.len() implies !is_blank((#[trigger] packs[i])@) by {
                assert(string_views(packs)[i] == packs[i]@);
                assert(!crate::text::is_whitespace(packs[i]@[0]));
            }
            assert forall|i: int, j: int| 0 <= i < j < packs.len() implies (#[trigger] packs[i])@ != (#[trigger] packs[j])@ by {
                assert(string_views(packs)[i] == packs[i]@);
                assert(string_views(packs)[j] == packs[j]@);
                assert(packs[i]@.len() != packs[j]@.len());
            }
            assert(!has_blank(packs));
            assert(!has_duplicate_text(packs));
            let kinds = config.scan.global_kinds@;
            assert(kinds == crate::model::all_global_kinds());
            assert forall|i: int, j: int| 0 <= i < j < kinds.len() implies #[trigger] kinds[i] != #[trigger] kinds[j] by {
                assert(crate::model::global_kind_rank(kinds[i]) == i);
                assert(crate::model::global_kind_rank(kinds[j]) == j);
            }
            assert(!has_duplicate_kind(kinds));
            assert(config.plugins.trusted@.len() == 0);
            assert(!has_blank(config.plugins.trusted@));
            assert(!has_duplicate_text(config.plugins.trusted@));
            assert(config.scan.budgets.max_elapsed_seconds == 0 && config.scan.budgets.max_estimated_memory_mib == 0);
            assert(budget_error(config.scan.budgets) is None) by {
                let b = config.scan.budgets;
                assert(b.max_entries == 0 && b.max_issue_details == 0);
                assert(b.max_elapsed_seconds * 1000 == 0) by (nonlinear_arith)
                    requires
                        b.max_elapsed_seconds == 0,
                ;
                assert(b.max_estimated_memory_mib * (1024 * 1024) == 0) by (nonlinear_arith)
                    requires
                        b.max_estimated_memory_mib == 0,
                ;
            }
            assert(config.recommendations.preselect_after_days == 90);
        }
        config
    }

    /// Check the settings: the age threshold, empty and repeated identifiers, repeated scan
    /// kinds and the scan budget, in that order.
    pub fn validate(&self) -> (res: Result<(), ConfigError>)
        ensures
            match config_error(*self) {
                Some(e) => res == Err::<(), ConfigError>(e),
                None => res is Ok,
            },
    {
        if self.recommendations.preselect_after_days > MAX_RECOMMENDATION_AGE_DAYS {
            return Err(ConfigError::AgeAboveLimit);
        }
        if any_blank(&self.plugins.trusted) {
            return Err(ConfigError::EmptyTrustedPlugin);
        }
        if any_blank(&self.cleanup.enabled_rule_packs) {
            return Err(ConfigError::EmptyRulePack);
        }
        if any_duplicate_text(&self.plugins.trusted) {
            return Err(ConfigError::DuplicateTrustedPlugin);
        }
        if any_duplicate_text(&self.cleanup.enabled_rule_packs) {
            return Err(ConfigError::DuplicateRulePack);
        }
        if any_duplicate_kind(&self.scan.global_kinds) {
            return Err(ConfigError::DuplicateGlobalKind);
        }
        match self.scan.budgets.limits() {
            Ok(_) => Ok(()),
            Err(e) => Err(e),
        }
    }
}

// ---------------------------------------------------------------- key/value access

/// The boolean that `s` spells, in any ASCII case.
pub open spec fn bool_named(s: Seq<char>) -> Option<bool> {
    let l = lower_all(s);
    if l == "true"@ || l == "1"@ || l == "yes"@ || l == "on"@ {
        Some(true)
    } else if l == "false"@ || l == "0"@ || l == "no"@ || l == "off"@ {
        Some(false)
    } else {
        None
    }
}

/// Parse a command-line boolean: true, 1, yes or on; false, 0, no or off; in any case.
pub fn parse_bool(value: &str) -> (res: Result<bool, ConfigError>)
    ensures
        match bool_named(value@) {
            Some(b) => res == Ok::<bool, ConfigError>(b),
            None => res matches Err(ConfigError::ExpectedBoolean { value: v }) && v@ == value@,
        },
{
    let lower = to_ascii_lowercase(value);
    let l = crate::text::string_from_chars(lower.as_slice());
    let t = l.as_str();
    if str_eq(t, "true") || str_eq(t, "1") || str_eq(t, "yes") || str_eq(t, "on") {
        Ok(true)
    } else if str_eq(t, "false") || str_eq(t, "0") || str_eq(t, "no") || str_eq(t, "off") {
        Ok(false)
    } else {
        Err(ConfigError::ExpectedBoolean { value: value.to_owned() })
    }
}

/// An empty value clears an optional setting.
pub fn normalize_opt_string(value: String) -> (res: Option<String>)
    ensures
        res == if value@.len() == 0 { None } else { Some(value) },
{
    if chars_of(value.as_str()).len() == 0 {
        None
    } else {
        Some(value)
    }
}

pub open spec fn bool_text(b: bool) -> Seq<char> {
    if b { "true"@ } else { "false"@ }
}

fn bool_string(b: bool) -> (res: String)
    ensures
        res@ == bool_text(b),
{
    if b { "true".to_owned() } else { "false".to_owned() }
}

/// The text of the setting at `key`, or `None` for a key that is not supported.
pub open spec fn key_value(c: Config, key: Seq<char>) -> Option<Seq<char>> {
    if key == "scan.stay_on_filesystem"@ {
        Some(bool_text(c.scan.stay_on_filesystem))
    } else if key == "cleanup.default_action"@ {
        Some(cleanup_action_text(c.cleanup.default_action))
    } else if key == "cleanup.require_confirm"@ {
        Some(bool_text(c.cleanup.require_confirm))
    } else if key == "recommendations.preselect_after_days"@ {
        Some(crate::text::decimal_text(c.recommendations.preselect_after_days as nat))
    } else if key == "i18n.locale"@ {
        Some(match c.i18n.locale { Some(l) => l@, None => Seq::empty() })
    } else if key == "ui.theme"@ {
        Some(ui_theme_text(c.ui.theme))
    } else {
        None
    }
}

/// The text of the setting at `key`.
pub fn get_value(config: &Config, key: &str) -> (res: Result<String, ConfigError>)
    ensures
        match key_value(*config, key@) {
            Some(v) => res matches Ok(s) && s@ == v,
            None => res matches Err(ConfigError::UnknownKey { key: k }) && k@ == key@,
        },
{
    if str_eq(key, "scan.stay_on_filesystem") {
        Ok(bool_string(config.scan.stay_on_filesystem))
    } else if str_eq(key, "cleanup.default_action") {
        Ok(config.cleanup.default_action.as_str().to_owned())
    } else if str_eq(key, "cleanup.require_confirm") {
        Ok(bool_string(config.cleanup.require_confirm))
    } else if str_eq(key, "recommendations.preselect_after_days") {
        Ok(crate::text::decimal(config.recommendations.preselect_after_days as u64))
    } else if str_eq(key, "i18n.locale") {
        Ok(match &config.i18n.locale {
            Some(l) => l.clone(),
            None => String::new(),
        })
    } else if str_eq(key, "ui.theme") {
        Ok(config.ui.theme.as_str().to_owned())
    } else {
        Err(ConfigError::UnknownKey { key: key.to_owned() })
    }
}

/// `c` with the scan's filesystem boundary setting replaced.
pub open spec fn with_stay_on_filesystem(c: Config, b: bool) -> Config {
    Config { scan: ScanConfig { stay_on_filesystem: b, ..c.scan }, ..c }
}

pub open spec fn with_default_action(c: Config, a: CleanupAction) -> Config {
    Config { cleanup: CleanupConfig { default_action: a, ..c.cleanup }, ..c }
}

pub open spec fn with_require_confirm(c: Config, b: bool) -> Config {
    Config { cleanup: CleanupConfig { require_confirm: b, ..c.cleanup }, ..c }
}

pub open spec fn with_preselect_after_days(c: Config, days: u16) -> Config {
    Config { recommendations: RecommendationConfig { preselect_after_days: days }, ..c }
}

pub open spec fn with_locale(c: Config, locale: Option<String>) -> Config {
    Config { i18n: I18nConfig { locale, ..c.i18n }, ..c }
}

pub open spec fn with_theme(c: Config, t: UiTheme) -> Config {
    Config { ui: UiConfig { theme: t }, ..c }
}

/// Set the setting at `key` from its text `value`. Nothing changes when the key is not
/// supported or the value does not parse.
pub fn apply_value(config: &mut Config, key: &str, value: &str) -> (res: Result<(), ConfigError>)
    ensures
        res is Err ==> *final(config) == *old(config),
        key@ == "scan.stay_on_filesystem"@ ==> match bool_named(value@) {
            Some(b) => res is Ok && *final(config) == with_stay_on_filesystem(*old(config), b),
            None => res matches Err(ConfigError::ExpectedBoolean { value: v }) && v@ == value@,
        },
        key@ == "cleanup.default_action"@ ==> match cleanup_action_named(value@) {
            Some(a) => res is Ok && *final(config) == with_default_action(*old(config), a),
            None => res matches Err(ConfigError::UnsupportedValue { value: v }) && v@ == value@,
        },
        key@ == "cleanup.require_confirm"@ ==> match bool_named(value@) {
            Some(b) => res is Ok && *final(config) == with_require_confirm(*old(config), b),
            None => res matches Err(ConfigError::ExpectedBoolean { value: v }) && v@ == value@,
        },
        key@ == "recommendations.preselect_after_days"@ ==> match crate::text::unsigned_value(value@) {
            Some(n) => if n <= u16::MAX {
                res is Ok && *final(config) == with_preselect_after_days(*old(config), n as u16)
            } else {
                res == Err::<(), ConfigError>(ConfigError::ExpectedInteger)
            },
            None => res == Err::<(), ConfigError>(ConfigError::ExpectedInteger),
        },
        key@ == "i18n.locale"@ ==> res is Ok && final(config).i18n.locale == (if value@.len() == 0 {
            None::<String>
        } else {
            Some(final(config).i18n.locale->0)
        }) && (value@.len() > 0 ==> final(config).i18n.locale->0@ == value@)
            && *final(config) == with_locale(*old(config), final(config).i18n.locale),
        key@ == "ui.theme"@ ==> match ui_theme_named(value@) {
            Some(t) => res is Ok && *final(config) == with_theme(*old(config), t),
            None => res matches Err(ConfigError::UnsupportedValue { value: v }) && v@ == value@,
        },
        key_value(*old(config), key@) is None ==> (res matches Err(ConfigError::UnknownKey { key: k }) && k@ == key@),
{
    proof {
        reveal_strlit("scan.stay_on_filesystem");
        reveal_strlit("cleanup.default_action");
        reveal_strlit("cleanup.require_confirm");
        reveal_strlit("recommendations.preselect_after_days");
        reveal_strlit("i18n.locale");
        reveal_strlit("ui.theme");
        assert("scan.stay_on_filesystem"@[0] == 's');
        assert("cleanup.default_action"@[0] == 'c' && "cleanup.default_action"@.len() == 22);
        assert("cleanup.require_confirm"@[0] == 'c' && "cleanup.require_confirm"@.len() == 23);
        assert("recommendations.preselect_after_days"@[0] == 'r');
        assert("i18n.locale"@[0] == 'i');
        assert("ui.theme"@[0] == 'u');
    }
    if str_eq(key, "scan.stay_on_filesystem") {
        let b = parse_bool(value)?;
        config.scan.stay_on_filesystem = b;
    } else if str_eq(key, "cleanup.default_action") {
        let a = CleanupAction::parse(value)?;
        config.cleanup.default_action = a;
    } else if str_eq(key, "cleanup.require_confirm") {
        let b = parse_bool(value)?;
        config.cleanup.require_confirm = b;
    } else if str_eq(key, "recommendations.preselect_after_days") {
        match crate::text::parse_unsigned(value, 65535) {
            Some(n) => {
                config.recommendations.preselect_after_days = n as u16;
            },
            None => {
                return Err(ConfigError::ExpectedInteger);
            },
        }
    } else if str_eq(key, "i18n.locale") {
        config.i18n.locale = normalize_opt_string(value.to_owned());
    } else if str_eq(key, "ui.theme") {
        let t = UiTheme::parse(value)?;
        config.ui.theme = t;
    } else {
        return Err(ConfigError::UnknownKey { key: key.to_owned() });
    }
    Ok(())
}

} // verus!
