//! Scan entries, rule hits, requests and cleanup plans.
//!
//! Paths are held as text and compared by component (see [`crate::path`]). Timestamps are
//! nanoseconds since the Unix epoch.
use vstd::prelude::*;

use crate::budget::ScanBudgetExceeded;
use crate::evidence::{
    AnalysisId, DecisionCode, RecommendationPolicy, RecommendationState, ReportIntegrity,
    RuleEvidence, RuleKey, RuleResolutionState,
};
use crate::safety::{sort_and_dedup_paths, sorted_unique_paths_of};
use crate::sort::{adjacent_distinct, dedup_by_eq, dedup_spec, lemma_dedup_sorted, sort_by_le, sorted_by_le};
use crate::text::{chars_match, concat, lower_all, to_ascii_lowercase};

verus! {

pub const CLEANUP_PLAN_SCHEMA_VERSION: &'static str = "cleanr.cleanup-plan.v1";

pub const EXECUTION_SCHEMA_VERSION: &'static str = "cleanr.execution.v1";

pub const RESTORE_SCHEMA_VERSION: &'static str = "cleanr.restore.v1";

pub const ROLLBACK_METHOD: &'static str = "system-trash+manifest";

#[derive(Debug, Clone, Copy, PartialEq, Eq, Structural, PartialOrd, Ord)]
pub enum Confidence {
    Low,
    Medium,
    High,
}

/// The order of confidence levels: low, medium, high.
pub open spec fn confidence_rank(c: Confidence) -> int {
    match c {
        Confidence::Low => 0,
        Confidence::Medium => 1,
        Confidence::High => 2,
    }
}

pub fn confidence_rank_exec(c: Confidence) -> (res: u8)
    ensures
        res as int == confidence_rank(c),
{
    match c {
        Confidence::Low => 0,
        Confidence::Medium => 1,
        Confidence::High => 2,
    }
}

#[derive(Debug, Clone, Copy, PartialEq, Eq, Structural)]
pub enum EntryKind {
    File,
    Directory,
    Symlink,
    Other,
}

#[derive(Debug, Clone, Copy, PartialEq, Eq, Structural, PartialOrd, Ord, Hash)]
pub enum GlobalScanKind {
    DeveloperCaches,
    BrowserCaches,
    AppCaches,
    TempFiles,
    Logs,
    Downloads,
}

/// The stable name of each global scan kind.
pub open spec fn global_kind_name(kind: GlobalScanKind) -> Seq<char> {
    match kind {
        GlobalScanKind::DeveloperCaches => "developer-caches"@,
        GlobalScanKind::BrowserCaches => "browser-caches"@,
        GlobalScanKind::AppCaches => "app-caches"@,
        GlobalScanKind::TempFiles => "temp-files"@,
        GlobalScanKind::Logs => "logs"@,
        GlobalScanKind::Downloads => "downloads"@,
    }
}

/// Distinct global scan kinds have distinct names.
pub proof fn lemma_global_kind_name_injective(a: GlobalScanKind, b: GlobalScanKind)
    ensures
        global_kind_name(a) == global_kind_name(b) ==> a == b,
{
    reveal_strlit("developer-caches");
    reveal_strlit("browser-caches");
    reveal_strlit("app-caches");
    reveal_strlit("temp-files");
    reveal_strlit("logs");
    reveal_strlit("downloads");
    if global_kind_name(a) == global_kind_name(b) && a != b {
        assert(global_kind_name(a).len() == global_kind_name(b).len());
        assert(global_kind_name(a)[0] == global_kind_name(b)[0]);
    }
}

/// The position of each global scan kind in their declared order.
pub open spec fn global_kind_rank(kind: GlobalScanKind) -> int {
    match kind {
        GlobalScanKind::DeveloperCaches => 0,
        GlobalScanKind::BrowserCaches => 1,
        GlobalScanKind::AppCaches => 2,
        GlobalScanKind::TempFiles => 3,
        GlobalScanKind::Logs => 4,
        GlobalScanKind::Downloads => 5,
    }
}

pub fn global_kind_rank_exec(kind: GlobalScanKind) -> (res: u8)
    ensures
        res as int == global_kind_rank(kind),
{
    match kind {
        GlobalScanKind::DeveloperCaches => 0,
        GlobalScanKind::BrowserCaches => 1,
        GlobalScanKind::AppCaches => 2,
        GlobalScanKind::TempFiles => 3,
        GlobalScanKind::Logs => 4,
        GlobalScanKind::Downloads => 5,
    }
}

/// Every global scan kind, in declared order.
pub open spec fn all_global_kinds() -> Seq<GlobalScanKind> {
    seq![
        GlobalScanKind::DeveloperCaches,
        GlobalScanKind::BrowserCaches,
        GlobalScanKind::AppCaches,
        GlobalScanKind::TempFiles,
        GlobalScanKind::Logs,
        GlobalScanKind::Downloads,
    ]
}

impl GlobalScanKind {
    pub fn as_str(self) -> (res: &'static str)
        ensures
            res@ == global_kind_name(self),
    {
        match self {
            GlobalScanKind::DeveloperCaches => "developer-caches",
            GlobalScanKind::BrowserCaches => "browser-caches",
            GlobalScanKind::AppCaches => "app-caches",
            GlobalScanKind::TempFiles => "temp-files",
            GlobalScanKind::Logs => "logs",
            GlobalScanKind::Downloads => "downloads",
        }
    }
}

/// Every global scan kind, in declared order.
pub fn default_global_scan_kinds() -> (res: Vec<GlobalScanKind>)
    ensures
        res@ == all_global_kinds(),
{
    let mut res: Vec<GlobalScanKind> = Vec::new();
    res.push(GlobalScanKind::DeveloperCaches);
    res.push(GlobalScanKind::BrowserCaches);
    res.push(GlobalScanKind::AppCaches);
    res.push(GlobalScanKind::TempFiles);
    res.push(GlobalScanKind::Logs);
    res.push(GlobalScanKind::Downloads);
    assert(res@ =~= all_global_kinds());
    res
}

/// `res` is what reading `value` as a global scan kind gives: the kind whose name is `value` in
/// lower case, or a message naming `value` where there is none.
pub open spec fn kind_parsed(value: Seq<char>, res: Result<GlobalScanKind, String>) -> bool {
    &&& res matches Ok(kind) ==> global_kind_name(kind) == lower_all(value)
    &&& res is Err <==> (forall|k: GlobalScanKind| global_kind_name(k) != lower_all(value))
    &&& res matches Err(message) ==> message@ == "unsupported global scan kind: "@ + value
}

/// Read a global scan kind by its name, ignoring ASCII case.
///
/// The error text is `unsupported global scan kind: ` followed by `value`.
pub fn parse_global_scan_kind(value: &str) -> (res: Result<GlobalScanKind, String>)
    ensures
        kind_parsed(value@, res),
        res matches Ok(kind) ==> global_kind_name(kind) == lower_all(value@),
        res is Err <==> (forall|k: GlobalScanKind| global_kind_name(k) != lower_all(value@)),
        res matches Err(message) ==> message@ == "unsupported global scan kind: "@ + value@,
{
    let lowered = to_ascii_lowercase(value);
    let kinds = default_global_scan_kinds();
    let mut i: usize = 0;
    while i < kinds.len()
        invariant
            kinds@ == all_global_kinds(),
            lowered@ == lower_all(value@),
            i <= kinds.len(),
            forall|j: int| 0 <= j < i ==> global_kind_name(#[trigger] kinds@[j]) != lowered@,
        decreases kinds.len() - i,
    {
        let kind = kinds[i];
        if chars_match(&lowered, kind.as_str()) {
            return Ok(kind);
        }
        i = i + 1;
    }
    assert forall|k: GlobalScanKind| global_kind_name(k) != lower_all(value@) by {
        let j = global_kind_rank(k);
        assert(kinds@[j] == k);
    }
    Err(concat("unsupported global scan kind: ", value))
}

impl core::str::FromStr for GlobalScanKind {
    type Err = String;

    fn from_str(value: &str) -> (res: Result<Self, Self::Err>)
        ensures
            kind_parsed(value@, res),
            res matches Ok(kind) ==> global_kind_name(kind) == lower_all(value@),
            res is Err <==> (forall|k: GlobalScanKind| global_kind_name(k) != lower_all(value@)),
            res matches Err(message) ==> message@ == "unsupported global scan kind: "@ + value@,
    {
        parse_global_scan_kind(value)
    }
}

/// A constrained platform directory used as the anchor for plugin-provided scan locations.
#[derive(Debug, Clone, Copy, PartialEq, Eq, Structural)]
pub enum ScanLocationBase {
    Home,
    Cache,
    DataLocal,
    Data,
    Temp,
    Downloads,
}

/// Whether a known location may be traversed or is only reported as operating-system managed.
#[derive(Debug, Clone, Copy, PartialEq, Eq, Structural)]
pub enum ScanLocationMode {
    Scan,
    OsManaged,
}

impl Default for ScanLocationMode {
    fn default() -> (res: Self)
        ensures
            res == ScanLocationMode::Scan,
    {
        ScanLocationMode::Scan
    }
}

/// A bounded way to resolve cache leaves below direct children of a known location.
#[derive(Debug, Clone, PartialEq, Eq)]
pub struct ScanLocationExpansion {
    pub child_globs: Vec<String>,
    pub suffixes: Vec<String>,
    pub max_matches: u16,
}

/// The number of expansion matches used when a location does not say.
pub fn default_scan_location_max_matches() -> (res: u16)
    ensures
        res == 64,
{
    64
}

/// Declarative, path-relative global coverage contributed by a built-in or trusted plugin.
#[derive(Debug, Clone, PartialEq, Eq)]
pub struct ScanLocationDefinition {
    pub id: String,
    pub label: String,
    pub kind: GlobalScanKind,
    pub platforms: Vec<RulePlatform>,
    pub base: ScanLocationBase,
    pub relative_path: String,
    pub mode: ScanLocationMode,
    pub expansion: Option<ScanLocationExpansion>,
}

#[derive(Debug, Clone, PartialEq, Eq)]
pub struct ScanLocationPack {
    pub id: String,
    pub version: String,
    pub locations: Vec<ScanLocationDefinition>,
}

#[derive(Debug, Clone, PartialEq, Eq)]
pub struct ScanRequest {
    pub paths: Vec<String>,
    pub include_global: bool,
    pub global_kinds: Vec<GlobalScanKind>,
    /// One-scan override for the shared inactivity threshold used by recommendations.
    pub inactive_days: Option<u16>,
}

impl Default for ScanRequest {
    fn default() -> (res: Self)
        ensures
            res.paths@.len() == 0,
            !res.include_global,
            res.global_kinds@.len() == 0,
            res.inactive_days is None,
    {
        ScanRequest {
            paths: Vec::new(),
            include_global: false,
            global_kinds: Vec::new(),
            inactive_days: None,
        }
    }
}

impl ScanRequest {
    /// A request to scan exactly `paths`.
    pub fn paths(paths: Vec<String>) -> (res: Self)
        ensures
            res.paths@ == paths@,
            !res.include_global,
            res.global_kinds@.len() == 0,
            res.inactive_days is None,
    {
        ScanRequest { paths, include_global: false, global_kinds: Vec::new(), inactive_days: None }
    }

    /// A request to scan the known global locations of `global_kinds`.
    pub fn global(global_kinds: Vec<GlobalScanKind>) -> (res: Self)
        ensures
            res.paths@.len() == 0,
            res.include_global,
            res.global_kinds@ == global_kinds@,
            res.inactive_days is None,
    {
        ScanRequest { paths: Vec::new(), include_global: true, global_kinds, inactive_days: None }
    }
}

#[derive(Debug, Clone, Copy, PartialEq, Eq, Structural)]
pub enum PlannedAction {
    Trash,
}

#[derive(Debug, Clone, Copy, PartialEq, Eq, Structural, PartialOrd, Ord)]
pub enum RuleTrust {
    Untrusted,
    Trusted,
    Builtin,
}

impl Default for RuleTrust {
    fn default() -> (res: Self)
        ensures
            res == RuleTrust::Untrusted,
    {
        RuleTrust::Untrusted
    }
}

/// The order of trust levels: untrusted, trusted, built-in.
pub open spec fn trust_rank(t: RuleTrust) -> int {
    match t {
        RuleTrust::Untrusted => 0,
        RuleTrust::Trusted => 1,
        RuleTrust::Builtin => 2,
    }
}

pub fn trust_rank_exec(t: RuleTrust) -> (res: u8)
    ensures
        res as int == trust_rank(t),
{
    match t {
        RuleTrust::Untrusted => 0,
        RuleTrust::Trusted => 1,
        RuleTrust::Builtin => 2,
    }
}

/// Operating systems a declarative cleanup rule may target.
#[derive(Debug, Clone, Copy, PartialEq, Eq, Structural, PartialOrd, Ord)]
pub enum RulePlatform {
    Macos,
    Windows,
    Linux,
}

/// How a rule used an upstream open-source project during review.
#[derive(Debug, Clone, Copy, PartialEq, Eq, Structural)]
pub enum RuleSourceRelation {
    Adapted,
    AuditedAgainst,
    IndependentlyVerified,
}

/// Non-sensitive, revision-pinned provenance for a cleanup rule.
#[derive(Debug, PartialEq, Eq)]
pub struct RuleSource {
    pub id: String,
    pub repository: String,
    pub revision: String,
    pub license: String,
    pub relation: RuleSourceRelation,
}

impl Clone for RuleSource {
    fn clone(&self) -> (res: Self)
        ensures
            res == *self,
    {
        RuleSource {
            id: self.id.clone(),
            repository: self.repository.clone(),
            revision: self.revision.clone(),
            license: self.license.clone(),
            relation: self.relation,
        }
    }
}

/// Whether a matching rule is authoritative or only a broad fallback.
#[derive(Debug, Clone, Copy, PartialEq, Eq, Structural)]
pub enum RuleMatchRole {
    Primary,
    Fallback,
}

impl Default for RuleMatchRole {
    fn default() -> (res: Self)
        ensures
            res == RuleMatchRole::Primary,
    {
        RuleMatchRole::Primary
    }
}

#[derive(Debug, Clone, PartialEq, Eq)]
pub struct RuleHit {
    pub rule_pack_id: String,
    pub rule_id: String,
    pub label: String,
    pub category: String,
    pub confidence: Confidence,
    pub reason: String,
    pub risk_note: String,
    pub default_selected: bool,
    pub trust: RuleTrust,
    pub match_role: RuleMatchRole,
    pub sources: Vec<RuleSource>,
}

#[derive(Debug, Clone, PartialEq, Eq)]
pub struct ScanEntry {
    pub path: String,
    pub kind: EntryKind,
    pub size_bytes: u64,
    /// Nanoseconds since the Unix epoch.
    pub modified_at: Option<i64>,
    pub rule_hits: Vec<RuleHit>,
}

#[derive(Debug, Clone, PartialEq, Eq)]
pub struct ScanSummary {
    pub roots: Vec<String>,
    pub entries_seen: usize,
    pub errors: usize,
    pub total_size_bytes: u64,
}

#[derive(Debug, Clone, PartialEq, Eq)]
pub struct CleanupPlan {
    pub schema_version: String,
    /// Nanoseconds since the Unix epoch.
    pub created_at: i64,
    pub scan_roots: Vec<String>,
    pub ruleset_versions: Vec<RulesetVersion>,
    pub source_scan: Option<CleanupPlanSourceScan>,
    pub summary: PlanSummary,
    pub items: Vec<CleanupItem>,
    pub safety: PlanSafety,
}

/// Read-only scan provenance retained by plans built from an analysis report.
#[derive(Debug, Clone, PartialEq, Eq)]
pub struct CleanupPlanSourceScan {
    pub analysis_id: AnalysisId,
    pub integrity: ReportIntegrity,
    /// The scan limits the analysis reached; empty for every plan that gets built.
    pub budget_exceeded: Vec<ScanBudgetExceeded>,
    /// Exact recommendation policy used to derive the reviewed candidate set.
    pub recommendation_policy: Option<RecommendationPolicy>,
    /// Semantic scan scope needed to reproduce global-category suppression during re-scan.
    pub scope: Option<CleanupPlanScanScope>,
}

#[derive(Debug, Clone, PartialEq, Eq)]
pub struct CleanupPlanScanScope {
    pub explicit_roots: Vec<String>,
    pub global_kinds: Vec<GlobalScanKind>,
}

/// Global scan kinds ordered by their declared position.
pub open spec fn global_kind_le() -> spec_fn(GlobalScanKind, GlobalScanKind) -> bool {
    |a: GlobalScanKind, b: GlobalScanKind| global_kind_rank(a) <= global_kind_rank(b)
}

/// Equality of global scan kinds.
pub open spec fn global_kind_same() -> spec_fn(GlobalScanKind, GlobalScanKind) -> bool {
    |a: GlobalScanKind, b: GlobalScanKind| a == b
}

/// `kept` is `v` in declared order with each kind kept once.
pub open spec fn sorted_unique_kinds_of(v: Seq<GlobalScanKind>, kept: Seq<GlobalScanKind>) -> bool {
    exists|sorted: Seq<GlobalScanKind>|
        #![trigger dedup_spec(sorted, global_kind_same())]
        sorted.to_multiset() == v.to_multiset() && sorted_by_le(sorted, global_kind_le()) && kept
            == dedup_spec(sorted, global_kind_same())
}

fn global_kind_le_exec(a: &GlobalScanKind, b: &GlobalScanKind) -> (res: bool)
    ensures
        res == global_kind_le()(*a, *b),
{
    global_kind_rank_exec(*a) <= global_kind_rank_exec(*b)
}

fn global_kind_same_exec(a: &GlobalScanKind, b: &GlobalScanKind) -> (res: bool)
    ensures
        res == global_kind_same()(*a, *b),
{
    *a == *b
}

/// The kinds of `kinds` in declared order, each once.
pub(crate) fn sorted_unique_kinds(kinds: Vec<GlobalScanKind>) -> (res: Vec<GlobalScanKind>)
    ensures
        sorted_unique_kinds_of(kinds@, res@),
        sorted_by_le(res@, global_kind_le()),
        adjacent_distinct(res@, global_kind_same()),
{
    let ghost input = kinds@;
    let sorted = sort_by_le(kinds, global_kind_le_exec, Ghost(global_kind_le()));
    proof {
        input.to_multiset_ensures();
        sorted@.to_multiset_ensures();
    }
    let unique = dedup_by_eq(sorted, global_kind_same_exec, Ghost(global_kind_same()));
    proof {
        lemma_dedup_sorted(sorted@, global_kind_le(), global_kind_same());
    }
    unique
}

impl CleanupPlanScanScope {
    /// A scope over `explicit_roots` and `global_kinds`, each sorted and without repeats.
    pub fn new(explicit_roots: Vec<String>, global_kinds: Vec<GlobalScanKind>) -> (res: Self)
        ensures
            sorted_unique_paths_of(explicit_roots@, res.explicit_roots@),
            sorted_unique_kinds_of(global_kinds@, res.global_kinds@),
            sorted_by_le(res.global_kinds@, global_kind_le()),
            adjacent_distinct(res.global_kinds@, global_kind_same()),
    {
        let roots = sort_and_dedup_paths(explicit_roots);
        let kinds = sorted_unique_kinds(global_kinds);
        CleanupPlanScanScope { explicit_roots: roots, global_kinds: kinds }
    }

    /// The scan request that reproduces this scope.
    pub fn to_scan_request(&self) -> (res: ScanRequest)
        ensures
            res.paths@ == self.explicit_roots@,
            res.include_global == (self.global_kinds@.len() > 0),
            res.global_kinds@ == self.global_kinds@,
            res.inactive_days is None,
    {
        let paths = self.explicit_roots.clone();
        assert(paths@ =~= self.explicit_roots@);
        let kinds = self.global_kinds.clone();
        assert(kinds@ =~= self.global_kinds@);
        ScanRequest {
            paths,
            include_global: self.global_kinds.len() > 0,
            global_kinds: kinds,
            inactive_days: None,
        }
    }
}

/// Why an analysis report cannot be promoted into an executable cleanup plan.
#[derive(Debug, Clone, PartialEq, Eq)]
pub enum CleanupPlanBuildError {
    UnsupportedAnalysisSchema { found: String },
    ScanBudgetExceeded,
    OverlappingSelection { left: String, right: String },
}

#[derive(Debug, Clone, PartialEq, Eq)]
pub struct RulesetVersion {
    pub id: String,
    pub version: String,
    /// Immutable upstream inputs that materially shaped this ruleset version.
    pub sources: Vec<RuleSource>,
}

#[derive(Debug, Clone, PartialEq, Eq)]
pub struct PlanSummary {
    pub candidate_count: usize,
    pub selected_count: usize,
    pub selected_size_bytes: u64,
    pub total_candidate_size_bytes: u64,
}

#[derive(Debug, Clone, PartialEq, Eq)]
pub struct PlanSafety {
    pub default_action: PlannedAction,
    pub requires_confirmation: bool,
    pub rollback_method: String,
    pub protected_paths: Vec<String>,
    pub protected_subtrees: Vec<String>,
}

impl Default for PlanSafety {
    fn default() -> (res: Self)
        ensures
            res.default_action == PlannedAction::Trash,
            res.requires_confirmation,
            res.rollback_method@ == ROLLBACK_METHOD@,
            res.protected_paths@.len() == 0,
            res.protected_subtrees@.len() == 0,
    {
        PlanSafety {
            default_action: PlannedAction::Trash,
            requires_confirmation: true,
            rollback_method: ROLLBACK_METHOD.to_owned(),
            protected_paths: Vec::new(),
            protected_subtrees: Vec::new(),
        }
    }
}

#[derive(Debug, Clone, PartialEq, Eq)]
pub struct CleanupItem {
    pub path: String,
    pub kind: EntryKind,
    pub size_bytes: u64,
    /// Nanoseconds since the Unix epoch.
    pub modified_at: Option<i64>,
    pub tree_fingerprint: Option<CleanupItemFingerprint>,
    pub rule_id: String,
    pub category: String,
    pub confidence: Confidence,
    pub reason: String,
    pub risk_note: String,
    pub evidence: Option<CleanupItemEvidence>,
    pub selected: bool,
    pub planned_action: PlannedAction,
    pub rollback_method: String,
}

/// Recommendation and rule evidence retained in a cleanup plan for human review.
#[derive(Debug, Clone, PartialEq, Eq)]
pub struct CleanupItemEvidence {
    pub recommendation_state: RecommendationState,
    pub decision_codes: Vec<DecisionCode>,
    pub rule_resolution_state: RuleResolutionState,
    pub matched_rules: Vec<RuleEvidence>,
    pub shadowed_rules: Vec<RuleKey>,
}

#[derive(Debug, Clone, Copy, PartialEq, Eq)]
pub struct CleanupItemFingerprint {
    pub descendants: usize,
    pub total_size_bytes: u64,
    /// Nanoseconds since the Unix epoch.
    pub latest_modified_at: Option<i64>,
}

} // verus!
