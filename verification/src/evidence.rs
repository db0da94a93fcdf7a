//! Analysis evidence: scan integrity, rule resolution and deterministic recommendations.
use vstd::prelude::*;

use crate::model::{
    confidence_rank, trust_rank, Confidence, EntryKind, RuleHit, RuleTrust, ScanEntry,
    ROLLBACK_METHOD,
};
use crate::budget::ScanBudgetExceeded;
use crate::path::{path_starts_with, same_path};

verus! {

/// The schema identifier for the read-only local analysis contract.
pub const ANALYSIS_REPORT_SCHEMA_VERSION: &'static str = "cleanr.analysis.v1";

/// The largest supported recommendation age threshold. Zero disables the age gate.
pub const MAX_RECOMMENDATION_AGE_DAYS: u16 = 3650;

/// Whether unexpected scan failures left the report incomplete.
#[derive(Debug, Clone, Copy, PartialEq, Eq, Structural)]
pub enum ReportIntegrity {
    Complete,
    Partial,
}

impl Default for ReportIntegrity {
    fn default() -> (res: Self)
        ensures
            res == ReportIntegrity::Complete,
    {
        ReportIntegrity::Complete
    }
}

/// A structured local scan condition.
#[derive(Debug, PartialEq, Eq)]
pub struct ScanIssue {
    pub code: ScanIssueCode,
    pub path: Option<String>,
}

impl Clone for ScanIssue {
    fn clone(&self) -> (res: Self)
        ensures
            res == *self,
    {
        ScanIssue {
            code: self.code,
            path: match &self.path {
                Some(p) => Some(p.clone()),
                None => None,
            },
        }
    }
}

/// Stable classifications for scan failures and intentional exclusions.
#[derive(Debug, Clone, Copy, PartialEq, Eq, Structural, PartialOrd, Ord)]
pub enum ScanIssueCode {
    PermissionDenied,
    MetadataUnavailable,
    RootUnavailable,
    TraversalError,
    IgnoredByConfig,
    CrossFilesystemSkipped,
    Unknown,
}

/// Intentional exclusions are auditable but do not make a report partial.
pub open spec fn issue_makes_partial(code: ScanIssueCode) -> bool {
    !(code == ScanIssueCode::IgnoredByConfig || code == ScanIssueCode::CrossFilesystemSkipped)
}

impl ScanIssueCode {
    /// Intentional exclusions are auditable but do not make the whole report partial.
    pub fn makes_report_partial(self) -> (res: bool)
        ensures
            res == issue_makes_partial(self),
    {
        match self {
            ScanIssueCode::IgnoredByConfig | ScanIssueCode::CrossFilesystemSkipped => false,
            ScanIssueCode::PermissionDenied
            | ScanIssueCode::MetadataUnavailable
            | ScanIssueCode::RootUnavailable
            | ScanIssueCode::TraversalError
            | ScanIssueCode::Unknown => true,
        }
    }
}

/// A report is partial exactly when some issue is not an intentional exclusion.
pub open spec fn integrity_of(issues: Seq<ScanIssue>) -> ReportIntegrity {
    if exists|i: int| 0 <= i < issues.len() && issue_makes_partial(#[trigger] issues[i].code) {
        ReportIntegrity::Partial
    } else {
        ReportIntegrity::Complete
    }
}

impl ReportIntegrity {
    /// Derive the report-wide integrity state from its structured issue ledger.
    pub fn from_issues(issues: &[ScanIssue]) -> (res: Self)
        ensures
            res == integrity_of(issues@),
    {
        let mut i: usize = 0;
        while i < issues.len()
            invariant
                i <= issues@.len(),
                forall|j: int| 0 <= j < i ==> !issue_makes_partial(#[trigger] issues@[j].code),
            decreases issues.len() - i,
        {
            if issues[i].code.makes_report_partial() {
                return ReportIntegrity::Partial;
            }
            i = i + 1;
        }
        ReportIntegrity::Complete
    }
}

/// Coverage of one candidate's tree at the scan reference time.
#[derive(Debug, Clone, Copy, PartialEq, Eq, Structural)]
pub enum CandidateCoverage {
    Complete,
    Partial,
    Unknown,
}

/// Which observed metadata timestamps contributed the candidate activity value.
#[derive(Debug, Clone, Copy, PartialEq, Eq, Structural)]
pub enum ActivitySource {
    Own,
    Descendant,
    OwnAndDescendant,
    Unavailable,
}

/// Reliability of a candidate's observed modification timestamp.
#[derive(Debug, Clone, Copy, PartialEq, Eq, Structural)]
pub enum ActivityStatus {
    Complete,
    Missing,
    Partial,
    AfterAsOf,
}

/// Modification-time evidence; timestamps are nanoseconds since the Unix epoch.
#[derive(Debug, Clone, PartialEq, Eq)]
pub struct ActivityEvidence {
    pub latest_observed_modified_at: Option<i64>,
    pub effective_modified_at: Option<i64>,
    pub source: ActivitySource,
    pub status: ActivityStatus,
    pub age_days: Option<u32>,
}

/// An opaque identifier scoped to one analysis report. It is never derived from a path.
#[derive(Debug, PartialEq, Eq, PartialOrd, Ord)]
pub struct CandidateId(String);

impl Clone for CandidateId {
    fn clone(&self) -> (res: Self)
        ensures
            res@ == self@,
    {
        CandidateId(self.0.clone())
    }
}

impl View for CandidateId {
    type V = Seq<char>;

    closed spec fn view(&self) -> Seq<char> {
        self.0@
    }
}

impl CandidateId {
    pub fn as_str(&self) -> (res: &str)
        ensures
            res@ == self@,
    {
        self.0.as_str()
    }

    /// An identifier holding `value`.
    pub fn from_text(value: String) -> (res: Self)
        ensures
            res@ == value@,
    {
        CandidateId(value)
    }

    pub fn new_random() -> (res: Self)
        ensures
            uuid_v4_text(res@),
    {
        CandidateId(random_uuid_text())
    }

    /// Whether two identifiers are equal.
    pub fn same(&self, other: &CandidateId) -> (res: bool)
        ensures
            res == (self@ == other@),
    {
        self.0 == other.0
    }
}

/// An opaque identifier scoped to one analysis report.
#[derive(Debug, PartialEq, Eq)]
pub struct AnalysisId(String);

impl Clone for AnalysisId {
    fn clone(&self) -> (res: Self)
        ensures
            res == *self,
    {
        AnalysisId(self.0.clone())
    }
}

impl View for AnalysisId {
    type V = Seq<char>;

    closed spec fn view(&self) -> Seq<char> {
        self.0@
    }
}

impl AnalysisId {
    pub fn as_str(&self) -> (res: &str)
        ensures
            res@ == self@,
    {
        self.0.as_str()
    }

    /// An identifier holding `value`.
    pub fn from_text(value: String) -> (res: Self)
        ensures
            res@ == value@,
    {
        AnalysisId(value)
    }

    pub fn new_random() -> (res: Self)
        ensures
            uuid_v4_text(res@),
    {
        AnalysisId(random_uuid_text())
    }
}

/// The hyphenated lower-case text of a version 4 UUID: 36 characters, hyphens at 8, 13, 18
/// and 23, hexadecimal digits elsewhere, the version digit `4` at 14 and a variant digit of
/// `8`, `9`, `a` or `b` at 19.
pub open spec fn uuid_v4_text(s: Seq<char>) -> bool {
    &&& s.len() == 36
    &&& forall|i: int| 0 <= i < 36 ==> if i == 8 || i == 13 || i == 18 || i == 23 {
        #[trigger] s[i] == '-'
    } else {
        ('0' <= s[i] <= '9') || ('a' <= s[i] <= 'f')
    }
    &&& s[14] == '4'
    &&& (s[19] == '8' || s[19] == '9' || s[19] == 'a' || s[19] == 'b')
}

/// A fresh random version 4 UUID in its hyphenated text form (`uuid::Uuid::new_v4` and its
/// `Display`, which writes the lower-case hyphenated form).
///
/// The value is random; only its layout is stated.
#[verifier::external_body]
fn random_uuid_text() -> (res: String)
    ensures
        uuid_v4_text(res@),
{
    uuid::Uuid::new_v4().to_string()
}

/// A versioned policy for a deterministic recommendation pass.
#[derive(Debug, PartialEq, Eq)]
pub struct RecommendationPolicy {
    pub version: String,
    pub preselect_after_days: u16,
    pub strict_report_integrity: bool,
}

impl Clone for RecommendationPolicy {
    fn clone(&self) -> (res: Self)
        ensures
            res == *self,
    {
        RecommendationPolicy {
            version: self.version.clone(),
            preselect_after_days: self.preselect_after_days,
            strict_report_integrity: self.strict_report_integrity,
        }
    }
}

/// The version of the current recommendation policy. Plans made under it hold only candidates
/// that meet the inactivity threshold, unless the user selected them.
pub const RECOMMENDATION_POLICY_VERSION: &'static str = "v2";

/// The version of the legacy policy, kept to validate plans made under it: its plans hold every
/// reviewable candidate.
pub const LEGACY_RECOMMENDATION_POLICY_VERSION: &'static str = "v1";

impl Default for RecommendationPolicy {
    fn default() -> (res: Self)
        ensures
            res.version@ == RECOMMENDATION_POLICY_VERSION@,
            res.preselect_after_days == 90,
            res.strict_report_integrity,
    {
        RecommendationPolicy {
            version: RECOMMENDATION_POLICY_VERSION.to_owned(),
            preselect_after_days: 90,
            strict_report_integrity: true,
        }
    }
}

impl RecommendationPolicy {
    /// Create the current policy after validating its bounded age threshold.
    pub fn new(preselect_after_days: u16) -> (res: Result<Self, RecommendationPolicyError>)
        ensures
            res is Ok <==> preselect_after_days <= MAX_RECOMMENDATION_AGE_DAYS,
            res matches Ok(policy) ==> policy.version@ == RECOMMENDATION_POLICY_VERSION@ && policy.preselect_after_days
                == preselect_after_days && policy.strict_report_integrity,
            res matches Err(error) ==> error.supplied() == preselect_after_days,
    {
        let policy = RecommendationPolicy {
            version: RECOMMENDATION_POLICY_VERSION.to_owned(),
            preselect_after_days,
            strict_report_integrity: true,
        };
        match policy.validate() {
            Ok(()) => Ok(policy),
            Err(error) => Err(error),
        }
    }

    /// Plans made under this policy leave out unselected candidates whose activity does not
    /// meet the inactivity threshold; every policy but the legacy one does.
    pub open spec fn filters_projection(self) -> bool {
        self.version@ != LEGACY_RECOMMENDATION_POLICY_VERSION@
    }

    /// Complete activity evidence at least as old as the threshold.
    pub open spec fn activity_meets(self, activity: ActivityEvidence) -> bool {
        activity.status == ActivityStatus::Complete && (activity.age_days matches Some(days)
            && days >= self.preselect_after_days)
    }

    /// Whether plans made under this policy leave out unselected candidates that are not
    /// inactive long enough.
    pub fn filters_candidate_projection_by_inactivity(&self) -> (res: bool)
        ensures
            res == self.filters_projection(),
    {
        !crate::text::str_eq(self.version.as_str(), LEGACY_RECOMMENDATION_POLICY_VERSION)
    }

    /// Whether `activity` is complete and at least as old as the threshold.
    pub fn activity_meets_inactivity_threshold(&self, activity: &ActivityEvidence) -> (res: bool)
        ensures
            res == self.activity_meets(*activity),
    {
        activity.status == ActivityStatus::Complete && match activity.age_days {
            Some(days) => days >= self.preselect_after_days as u32,
            None => false,
        }
    }

    /// Reject thresholds that make an age recommendation unintelligible.
    pub fn validate(&self) -> (res: Result<(), RecommendationPolicyError>)
        ensures
            res is Ok <==> self.preselect_after_days <= MAX_RECOMMENDATION_AGE_DAYS,
            res matches Err(error) ==> error.supplied() == self.preselect_after_days,
    {
        if self.preselect_after_days > MAX_RECOMMENDATION_AGE_DAYS {
            return Err(RecommendationPolicyError { supplied: self.preselect_after_days });
        }
        Ok(())
    }
}

/// An invalid recommendation age threshold.
#[derive(Debug, Clone, PartialEq, Eq)]
pub struct RecommendationPolicyError {
    supplied: u16,
}

impl RecommendationPolicyError {
    pub closed spec fn supplied(&self) -> u16 {
        self.supplied
    }

    /// The threshold that was rejected.
    pub fn supplied_days(&self) -> (res: u16)
        ensures
            res == self.supplied(),
    {
        self.supplied
    }
}

/// A non-sensitive key identifying a matched rule within a local analysis report.
#[derive(Debug, PartialEq, Eq, PartialOrd, Ord)]
pub struct RuleKey {
    pub rule_pack_id: String,
    pub rule_id: String,
}

impl View for RuleKey {
    type V = (Seq<char>, Seq<char>);

    open spec fn view(&self) -> (Seq<char>, Seq<char>) {
        (self.rule_pack_id@, self.rule_id@)
    }
}

impl Clone for RuleKey {
    fn clone(&self) -> (res: Self)
        ensures
            res@ == self@,
    {
        RuleKey { rule_pack_id: self.rule_pack_id.clone(), rule_id: self.rule_id.clone() }
    }
}

/// The rule facts that informed one candidate's recommendation.
#[derive(Debug, PartialEq, Eq)]
pub struct RuleEvidence {
    pub key: RuleKey,
    pub label: String,
    pub category: String,
    pub confidence: Confidence,
    pub default_selected: bool,
    pub trust: RuleTrust,
    pub reason: String,
    pub risk_note: String,
}

/// The plain facts of a rule's evidence.
pub type RuleEvidenceView = (
    (Seq<char>, Seq<char>),
    Seq<char>,
    Seq<char>,
    Confidence,
    bool,
    RuleTrust,
    Seq<char>,
    Seq<char>,
);

impl View for RuleEvidence {
    type V = RuleEvidenceView;

    open spec fn view(&self) -> RuleEvidenceView {
        (
            self.key@,
            self.label@,
            self.category@,
            self.confidence,
            self.default_selected,
            self.trust,
            self.reason@,
            self.risk_note@,
        )
    }
}

impl Clone for RuleEvidence {
    fn clone(&self) -> (res: Self)
        ensures
            res@ == self@,
    {
        RuleEvidence {
            key: self.key.clone(),
            label: self.label.clone(),
            category: self.category.clone(),
            confidence: self.confidence,
            default_selected: self.default_selected,
            trust: self.trust,
            reason: self.reason.clone(),
            risk_note: self.risk_note.clone(),
        }
    }
}

/// How matching rules were resolved for recommendation purposes.
#[derive(Debug, Clone, Copy, PartialEq, Eq, Structural)]
pub enum RuleResolutionState {
    Single,
    Equivalent,
    UnresolvedConflict,
}

/// All rule matches, plus an explicit decision about whether they can safely decide selection.
#[derive(Debug, Clone, PartialEq, Eq)]
pub struct RuleResolution {
    pub matched: Vec<RuleEvidence>,
    pub primary: Option<RuleKey>,
    pub state: RuleResolutionState,
}

/// Relationship to candidates covering the same local filesystem tree.
#[derive(Debug, Clone, PartialEq, Eq)]
pub enum OverlapEvidence {
    /// No other candidate covers the same tree.
    NoOverlap,
    Primary { alternatives: Vec<CandidateId> },
    Suppressed { by: CandidateId },
}

/// The recommendation level. It is distinct from a user's later selection.
#[derive(Debug, Clone, Copy, PartialEq, Eq, Structural)]
pub enum RecommendationState {
    Preselected,
    Available,
    Review,
    Suppressed,
    Excluded,
}

/// Machine-readable reasons for a recommendation or non-selection.
#[derive(Debug, Clone, Copy, PartialEq, Eq, Structural, PartialOrd, Ord)]
pub enum DecisionCode {
    AgeThresholdMet,
    AgeGateDisabled,
    RecentObservedContent,
    RuleNotDefaultSelected,
    ConfidenceBelowHigh,
    UntrustedRule,
    TimestampMissing,
    TimestampAfterAsOf,
    ScanReportPartial,
    CandidateCoveragePartial,
    CandidateCoverageUnknown,
    UnresolvedRuleConflict,
    CoveredDescendantHasBlocker,
    OverlapSuppressed,
    ScanRoot,
    SafetyPolicyExcluded,
}

/// A deterministic decision whose codes explain both selection and non-selection.
#[derive(Debug, Clone, PartialEq, Eq)]
pub struct RecommendationDecision {
    pub state: RecommendationState,
    pub initial_selected: bool,
    pub codes: Vec<DecisionCode>,
}

/// Local-only evidence for a cleanup candidate.
#[derive(Debug, Clone, PartialEq, Eq)]
pub struct CandidateEvidence {
    pub id: CandidateId,
    pub local_path: String,
    pub kind: EntryKind,
    pub size_bytes: u64,
    pub activity: ActivityEvidence,
    pub coverage: CandidateCoverage,
    pub rules: RuleResolution,
    pub overlap: OverlapEvidence,
    pub recommendation: RecommendationDecision,
    pub rollback_method: String,
}

/// Local scan facts attached to an analysis report.
#[derive(Debug, Clone, PartialEq, Eq)]
pub struct ScanEvidence {
    pub roots: Vec<String>,
    pub integrity: ReportIntegrity,
    pub issues: Vec<ScanIssue>,
    /// The scan limits that were reached; a plan is never built from such a scan.
    pub budget_exceeded: Vec<ScanBudgetExceeded>,
}

/// Immutable analysis facts and their deterministic recommendations.
#[derive(Debug, Clone, PartialEq, Eq)]
pub struct AnalysisReport {
    pub schema_version: String,
    pub analysis_id: AnalysisId,
    /// Nanoseconds since the Unix epoch.
    pub as_of: i64,
    /// Nanoseconds since the Unix epoch.
    pub completed_at: i64,
    pub policy: RecommendationPolicy,
    pub scan: ScanEvidence,
    pub candidates: Vec<CandidateEvidence>,
}

} // verus!
