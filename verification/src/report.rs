//! Building an immutable analysis report from scan entries, and the user's later selection.
use vstd::prelude::*;

use crate::activity::{activity_by_entry, evidence_of, facts_of, ActivityFacts};
use crate::evidence::{
    integrity_of, AnalysisId, AnalysisReport, CandidateEvidence, CandidateId, OverlapEvidence,
    RecommendationPolicy, RecommendationPolicyError, ReportIntegrity, RuleResolution,
    ScanEvidence, ScanIssue, uuid_v4_text, ANALYSIS_REPORT_SCHEMA_VERSION, MAX_RECOMMENDATION_AGE_DAYS,
};
use crate::model::{ScanEntry, ROLLBACK_METHOD};
use crate::overlap::{
    all_well_formed, no_overlapping_selection, overlap_step_allowed, overlaps_resolved, resolve_overlaps, same_facts,
};
use crate::path::{chars_le, chars_le_exec, path_le};
use crate::recommend::{
    candidate_coverage, coverage_of, decides, evidence_views, hit_views, is_scan_root,
    recommend_candidate, resolution_state_of, resolve_rules, RecommendationContext,
};
use crate::budget::ScanBudgetExceeded;
use crate::safety::SafetyPolicy;
use crate::sort::{sort_by_le, sorted_by_le};
use crate::evidence::RuleResolutionState;
use crate::path::lemma_path_le_preorder;

verus! {

/// An entry is a cleanup candidate when some rule matched it.
pub open spec fn is_candidate_entry(e: ScanEntry) -> bool {
    e.rule_hits@.len() > 0
}

/// `rules` is what resolving the rule hits `hits` gives.
pub open spec fn resolves(rules: RuleResolution, hits: Seq<crate::model::RuleHit>) -> bool {
    &&& evidence_views(rules.matched@).to_multiset() == hit_views(hits).to_multiset()
    &&& sorted_by_le(rules.matched@, crate::recommend::evidence_key_le())
    &&& rules.state == resolution_state_of(rules.matched@)
    &&& rules.state == RuleResolutionState::UnresolvedConflict ==> rules.primary is None
    &&& rules.state != RuleResolutionState::UnresolvedConflict ==> (if rules.matched@.len() > 0 {
        rules.primary matches Some(k) && k@ == rules.matched@[0].key@
    } else {
        rules.primary is None
    })
}

/// `c` is the evidence for candidate entry `i`, before overlapping candidates are resolved.
///
/// Where a safety policy applies (`checks_safety`), its verdict rests on the filesystem: the
/// decision is the one for an allowed path or the one for an excluded path.
pub open spec fn evaluates(
    c: CandidateEvidence,
    entries: Seq<ScanEntry>,
    i: int,
    as_of: i64,
    issues: Seq<ScanIssue>,
    roots: Seq<String>,
    policy: RecommendationPolicy,
    checks_safety: bool,
) -> bool {
    let e = entries[i];
    let coverage = coverage_of(e.path@, issues);
    let activity = evidence_of(facts_of(entries, i, as_of, issues), coverage, as_of);
    let integrity = integrity_of(issues);
    let root = is_scan_root(roots, e.path@);
    &&& uuid_v4_text(c.id@)
    &&& c.local_path == e.path
    &&& c.kind == e.kind
    &&& c.size_bytes == e.size_bytes
    &&& c.activity == activity
    &&& c.coverage == coverage
    &&& resolves(c.rules, e.rule_hits@)
    &&& c.overlap == OverlapEvidence::NoOverlap
    &&& c.rollback_method@ == ROLLBACK_METHOD@
    &&& (decides(c.recommendation, root, true, c.rules, activity, coverage, integrity, policy)
        || (checks_safety && decides(c.recommendation, root, false, c.rules, activity, coverage, integrity, policy)))
}

/// `evaluated` holds the evidence for the candidate entries, in entry order, `idx` their positions.
pub open spec fn evaluations(
    evaluated: Seq<CandidateEvidence>,
    idx: Seq<int>,
    entries: Seq<ScanEntry>,
    as_of: i64,
    issues: Seq<ScanIssue>,
    roots: Seq<String>,
    policy: RecommendationPolicy,
    checks_safety: bool,
) -> bool {
    &&& idx.len() == evaluated.len()
    &&& forall|k: int| 0 <= k < idx.len() ==> 0 <= #[trigger] idx[k] < entries.len() && is_candidate_entry(entries[idx[k]])
        && evaluates(evaluated[k], entries, idx[k], as_of, issues, roots, policy, checks_safety)
    &&& forall|k: int, m: int| 0 <= k < m < idx.len() ==> #[trigger] idx[k] < #[trigger] idx[m]
    &&& forall|i: int| 0 <= i < entries.len() && is_candidate_entry(#[trigger] entries[i]) ==> idx.contains(i)
}

/// Candidates ordered by their paths.
pub open spec fn candidate_path_le() -> spec_fn(CandidateEvidence, CandidateEvidence) -> bool {
    |a: CandidateEvidence, b: CandidateEvidence| path_le(a.local_path@, b.local_path@)
}

/// `candidates` are the `evaluated` ones ordered by path, after overlapping candidates were
/// resolved cluster by cluster: each keeps its facts and changes its decision only as overlap
/// resolution may.
pub open spec fn resolved_from(candidates: Seq<CandidateEvidence>, evaluated: Seq<CandidateEvidence>) -> bool {
    exists|sorted: Seq<CandidateEvidence>|
        #![trigger sorted.to_multiset()]
        sorted.to_multiset() == evaluated.to_multiset() && sorted_by_le(sorted, candidate_path_le())
        && sorted.len() == candidates.len()
        && overlaps_resolved(sorted, candidates)
        && (forall|i: int| 0 <= i < candidates.len() ==> same_facts(#[trigger] candidates[i], sorted[i])
            && overlap_step_allowed(sorted[i].recommendation, candidates[i].recommendation))
}

/// `report` is the analysis of `entries` and `issues` under `policy` at `as_of`.
pub open spec fn analyses(
    report: AnalysisReport,
    as_of: i64,
    completed_at: i64,
    roots: Seq<String>,
    entries: Seq<ScanEntry>,
    issues: Seq<ScanIssue>,
    policy: RecommendationPolicy,
    checks_safety: bool,
) -> bool {
    &&& report.schema_version@ == ANALYSIS_REPORT_SCHEMA_VERSION@
    &&& uuid_v4_text(report.analysis_id@)
    &&& report.as_of == as_of
    &&& report.completed_at == completed_at
    &&& report.policy == policy
    &&& report.scan.roots@ == roots
    &&& report.scan.integrity == integrity_of(issues)
    &&& report.scan.issues@ == issues
    &&& sorted_by_le(report.candidates@, candidate_path_le())
    &&& all_well_formed(report.candidates@)
    &&& no_overlapping_selection(report.candidates@)
    &&& exists|evaluated: Seq<CandidateEvidence>, idx: Seq<int>|
        #![trigger evaluations(evaluated, idx, entries, as_of, issues, roots, policy, checks_safety)]
        evaluations(evaluated, idx, entries, as_of, issues, roots, policy, checks_safety)
        && resolved_from(report.candidates@, evaluated)
}

fn candidate_path_le_exec(a: &CandidateEvidence, b: &CandidateEvidence) -> (res: bool)
    ensures
        res == path_le(a.local_path@, b.local_path@),
{
    crate::path::path_le_exec(a.local_path.as_str(), b.local_path.as_str())
}

proof fn lemma_candidate_path_le_preorder()
    ensures
        crate::sort::total_preorder(candidate_path_le()),
{
    lemma_path_le_preorder();
    let f = |x: String, y: String| path_le(x@, y@);
    assert forall|a: CandidateEvidence, b: CandidateEvidence|
        #[trigger] candidate_path_le()(a, b) || candidate_path_le()(b, a) by {
        assert(f(a.local_path, b.local_path) || f(b.local_path, a.local_path));
    }
    assert forall|a: CandidateEvidence, b: CandidateEvidence, c: CandidateEvidence|
        #[trigger] candidate_path_le()(a, b) && #[trigger] candidate_path_le()(b, c) implies candidate_path_le()(a, c) by {
        assert(f(a.local_path, b.local_path) && f(b.local_path, c.local_path) ==> f(a.local_path, c.local_path));
    }
}

fn copy_issues(issues: &[ScanIssue]) -> (res: Vec<ScanIssue>)
    ensures
        res@ == issues@,
{
    let mut res: Vec<ScanIssue> = Vec::new();
    let mut i: usize = 0;
    while i < issues.len()
        invariant
            i <= issues@.len(),
            res@ == issues@.take(i as int),
        decreases issues.len() - i,
    {
        res.push(issues[i].clone());
        assert(issues@.take(i + 1) =~= issues@.take(i as int).push(issues@[i as int]));
        i = i + 1;
    }
    assert(issues@.take(issues@.len() as int) =~= issues@);
    res
}

/// The evidence for every candidate entry, in entry order.
fn evaluate_entries(
    entries: &[ScanEntry],
    issues: &[ScanIssue],
    as_of: i64,
    context: &RecommendationContext,
) -> (res: (Vec<CandidateEvidence>, Ghost<Seq<int>>))
    requires
        context.integrity == integrity_of(issues@),
    ensures
        evaluations(res.0@, res.1@, entries@, as_of, issues@, context.scan_roots@, *context.policy, context.safety_policy is Some),
        all_well_formed(res.0@),
{
    let activity = activity_by_entry(entries, as_of, issues);
    let mut evaluated: Vec<CandidateEvidence> = Vec::new();
    let ghost mut idx: Seq<int> = Seq::empty();
    let ghost roots = context.scan_roots@;
    let ghost policy = *context.policy;
    let ghost checks = context.safety_policy is Some;
    let mut i: usize = 0;
    while i < entries.len()
        invariant
            i <= entries@.len(),
            roots == context.scan_roots@,
            policy == *context.policy,
            checks == (context.safety_policy is Some),
            context.integrity == integrity_of(issues@),
            activity@.len() == entries@.len(),
            forall|k: int| 0 <= k < entries@.len() ==> (#[trigger] activity@[k] is Some <==> entries@[k].rule_hits@.len() > 0),
            forall|k: int| 0 <= k < entries@.len() && #[trigger] activity@[k] is Some ==> activity@[k]->0 == facts_of(entries@, k, as_of, issues@),
            idx.len() == evaluated@.len(),
            forall|k: int| 0 <= k < idx.len() ==> 0 <= #[trigger] idx[k] < i && is_candidate_entry(entries@[idx[k]])
                && evaluates(evaluated@[k], entries@, idx[k], as_of, issues@, roots, policy, checks),
            forall|k: int, m: int| 0 <= k < m < idx.len() ==> #[trigger] idx[k] < #[trigger] idx[m],
            forall|q: int| 0 <= q < i && is_candidate_entry(#[trigger] entries@[q]) ==> idx.contains(q),
            all_well_formed(evaluated@),
        decreases entries.len() - i,
    {
        let entry = &entries[i];
        match &activity[i] {
            Some(facts) => {
                let coverage = candidate_coverage(entry.path.as_str(), issues);
                let rules = resolve_rules(entry.rule_hits.as_slice());
                let facts = ActivityFacts {
                    latest_observed_modified_at: facts.latest_observed_modified_at,
                    own_latest: facts.own_latest,
                    descendant_latest: facts.descendant_latest,
                    has_missing_timestamp: facts.has_missing_timestamp,
                    has_after_as_of: facts.has_after_as_of,
                };
                let evidence = facts.into_evidence(coverage, as_of);
                let recommendation = recommend_candidate(entry.path.as_str(), &rules, &evidence, coverage, context);
                let candidate = CandidateEvidence {
                    id: CandidateId::new_random(),
                    local_path: entry.path.clone(),
                    kind: entry.kind,
                    size_bytes: entry.size_bytes,
                    activity: evidence,
                    coverage,
                    rules,
                    overlap: OverlapEvidence::NoOverlap,
                    recommendation,
                    rollback_method: ROLLBACK_METHOD.to_owned(),
                };
                let ghost before = evaluated@;
                let ghost idx_before = idx;
                evaluated.push(candidate);
                proof {
                    idx = idx.push(i as int);
                    assert(evaluated@[evaluated@.len() - 1] == candidate);
                    assert forall|k: int| 0 <= k < idx.len() implies 0 <= #[trigger] idx[k] < i + 1 && is_candidate_entry(entries@[idx[k]])
                        && evaluates(evaluated@[k], entries@, idx[k], as_of, issues@, roots, policy, checks) by {
                        if k < idx_before.len() {
                            assert(idx[k] == idx_before[k]);
                            assert(evaluated@[k] == before[k]);
                        }
                    }
                    assert forall|q: int| 0 <= q < i + 1 && is_candidate_entry(#[trigger] entries@[q]) implies idx.contains(q) by {
                        if q < i {
                            let k = choose|k: int| 0 <= k < idx_before.len() && idx_before[k] == q;
                            assert(idx[k] == q);
                        } else {
                            assert(idx[idx.len() - 1] == q);
                        }
                    }
                    assert forall|k: int| 0 <= k < evaluated@.len() implies crate::overlap::well_formed_decision(#[trigger] evaluated@[k].recommendation) by {
                        if k < before.len() {
                            assert(evaluated@[k] == before[k]);
                        }
                    }
                }
            },
            None => {
                proof {
                    assert forall|q: int| 0 <= q < i + 1 && is_candidate_entry(#[trigger] entries@[q]) implies idx.contains(q) by {
                        if q == i {
                            assert(activity@[q] is Some);
                        }
                    }
                }
            },
        }
        i = i + 1;
    }
    (evaluated, Ghost(idx))
}

/// The limits of `budget`, as a vector.
fn copy_budget(budget: &[ScanBudgetExceeded]) -> (res: Vec<ScanBudgetExceeded>)
    ensures
        res@ == budget@,
{
    let mut res: Vec<ScanBudgetExceeded> = Vec::new();
    let mut i: usize = 0;
    while i < budget.len()
        invariant
            i <= budget@.len(),
            res@ == budget@.take(i as int),
        decreases budget.len() - i,
    {
        res.push(budget[i]);
        proof {
            assert(budget@.take(i + 1) =~= budget@.take(i as int).push(budget@[i as int]));
        }
        i = i + 1;
    }
    proof {
        assert(budget@.take(budget@.len() as int) =~= budget@);
    }
    res
}

/// Build an immutable evidence report without mutating the user's later selection.
///
/// Fails exactly when the policy's age threshold is above the supported maximum.
pub fn build_analysis_report(
    as_of: i64,
    completed_at: i64,
    scan_roots: Vec<String>,
    entries: &[ScanEntry],
    issues: &[ScanIssue],
    policy: RecommendationPolicy,
) -> (res: Result<AnalysisReport, RecommendationPolicyError>)
    ensures
        res is Err <==> policy.preselect_after_days > MAX_RECOMMENDATION_AGE_DAYS,
        res matches Err(e) ==> e.supplied() == policy.preselect_after_days,
        res matches Ok(report) ==> analyses(report, as_of, completed_at, scan_roots@, entries@, issues@, policy, false)
            && report.scan.budget_exceeded@.len() == 0,
{
    build_analysis_report_inner(as_of, completed_at, scan_roots, entries, issues, &[], policy, None)
}

/// Build an evidence report for a scan that reached the limits `budget`; the report keeps them,
/// and no plan is built from it while it holds any.
///
/// Fails exactly when the policy's age threshold is above the supported maximum.
pub fn build_analysis_report_with_budget(
    as_of: i64,
    completed_at: i64,
    scan_roots: Vec<String>,
    entries: &[ScanEntry],
    issues: &[ScanIssue],
    budget: &[ScanBudgetExceeded],
    policy: RecommendationPolicy,
) -> (res: Result<AnalysisReport, RecommendationPolicyError>)
    ensures
        res is Err <==> policy.preselect_after_days > MAX_RECOMMENDATION_AGE_DAYS,
        res matches Err(e) ==> e.supplied() == policy.preselect_after_days,
        res matches Ok(report) ==> analyses(report, as_of, completed_at, scan_roots@, entries@, issues@, policy, false)
            && report.scan.budget_exceeded@ == budget@,
{
    build_analysis_report_inner(as_of, completed_at, scan_roots, entries, issues, budget, policy, None)
}

/// Build an immutable evidence report with the local cleanup safety policy applied before
/// recommendations are made. Candidates that safety excludes remain visible as evidence but are
/// never eligible for an initial or later plan selection.
pub fn build_analysis_report_with_safety_policy(
    as_of: i64,
    completed_at: i64,
    scan_roots: Vec<String>,
    entries: &[ScanEntry],
    issues: &[ScanIssue],
    policy: RecommendationPolicy,
    safety_policy: &SafetyPolicy,
) -> (res: Result<AnalysisReport, RecommendationPolicyError>)
    ensures
        res is Err <==> policy.preselect_after_days > MAX_RECOMMENDATION_AGE_DAYS,
        res matches Err(e) ==> e.supplied() == policy.preselect_after_days,
        res matches Ok(report) ==> analyses(report, as_of, completed_at, scan_roots@, entries@, issues@, policy, true)
            && report.scan.budget_exceeded@.len() == 0,
{
    build_analysis_report_inner(as_of, completed_at, scan_roots, entries, issues, &[], policy, Some(safety_policy))
}

fn build_analysis_report_inner(
    as_of: i64,
    completed_at: i64,
    scan_roots: Vec<String>,
    entries: &[ScanEntry],
    issues: &[ScanIssue],
    budget: &[ScanBudgetExceeded],
    policy: RecommendationPolicy,
    safety_policy: Option<&SafetyPolicy>,
) -> (res: Result<AnalysisReport, RecommendationPolicyError>)
    ensures
        res is Err <==> policy.preselect_after_days > MAX_RECOMMENDATION_AGE_DAYS,
        res matches Err(e) ==> e.supplied() == policy.preselect_after_days,
        res matches Ok(report) ==> analyses(report, as_of, completed_at, scan_roots@, entries@, issues@, policy, safety_policy is Some)
            && report.scan.budget_exceeded@ == budget@,
{
    match policy.validate() {
        Ok(()) => {},
        Err(error) => {
            return Err(error);
        },
    }
    let integrity = ReportIntegrity::from_issues(issues);
    let (evaluated, Ghost(idx)) = {
        let context = RecommendationContext {
            scan_roots: scan_roots.as_slice(),
            integrity,
            policy: &policy,
            safety_policy,
        };
        evaluate_entries(entries, issues, as_of, &context)
    };
    let ghost unsorted = evaluated@;
    proof {
        lemma_candidate_path_le_preorder();
    }
    let sorted = sort_by_le(evaluated, candidate_path_le_exec, Ghost(candidate_path_le()));
    let ghost sorted_view = sorted@;
    proof {
        assert forall|k: int| 0 <= k < sorted_view.len() implies crate::overlap::well_formed_decision(#[trigger] sorted_view[k].recommendation) by {
            vstd::seq_lib::to_multiset_contains(sorted_view, sorted_view[k]);
            vstd::seq_lib::to_multiset_contains(unsorted, sorted_view[k]);
            assert(sorted_view.contains(sorted_view[k]));
            let j = choose|j: int| 0 <= j < unsorted.len() && unsorted[j] == sorted_view[k];
            assert(crate::overlap::well_formed_decision(unsorted[j].recommendation));
        }
    }
    let mut candidates = sorted;
    resolve_overlaps(&mut candidates);
    proof {
        assert forall|a: int, b: int| 0 <= a < b < candidates@.len() implies candidate_path_le()(#[trigger] candidates@[a], #[trigger] candidates@[b]) by {
            assert(same_facts(candidates@[a], sorted_view[a]));
            assert(same_facts(candidates@[b], sorted_view[b]));
            assert(candidate_path_le()(sorted_view[a], sorted_view[b]));
        }
        assert(resolved_from(candidates@, unsorted));
    }
    let report = AnalysisReport {
        schema_version: ANALYSIS_REPORT_SCHEMA_VERSION.to_owned(),
        analysis_id: AnalysisId::new_random(),
        as_of,
        completed_at,
        policy,
        scan: ScanEvidence { roots: scan_roots, integrity, issues: copy_issues(issues), budget_exceeded: copy_budget(budget) },
        candidates,
    };
    Ok(report)
}

/// A user-owned set of candidate identifiers. It intentionally has no recommendation fields.
#[derive(Debug, Clone, PartialEq, Eq)]
pub struct UserSelection {
    pub candidate_ids: Vec<CandidateId>,
}

/// The identifiers held by `ids`.
pub open spec fn id_set(ids: Seq<CandidateId>) -> Set<Seq<char>> {
    Set::new(|v: Seq<char>| exists|i: int| 0 <= i < ids.len() && (#[trigger] ids[i])@ == v)
}

/// `ids` are in strictly ascending order of their text, as a sorted set keeps them.
pub open spec fn ids_ascending(ids: Seq<CandidateId>) -> bool {
    forall|i: int, j: int| 0 <= i < j < ids.len()
        ==> chars_le((#[trigger] ids[i])@, (#[trigger] ids[j])@) && ids[i]@ != ids[j]@
}

impl View for UserSelection {
    type V = Set<Seq<char>>;

    open spec fn view(&self) -> Set<Seq<char>> {
        id_set(self.candidate_ids@)
    }
}

impl Default for UserSelection {
    fn default() -> (res: Self)
        ensures
            res@ == Set::<Seq<char>>::empty(),
            ids_ascending(res.candidate_ids@),
    {
        let res = UserSelection { candidate_ids: Vec::new() };
        assert(res@ =~= Set::<Seq<char>>::empty());
        res
    }
}

impl UserSelection {
    /// Start from only candidates that the deterministic policy preselected.
    pub fn from_recommendations(report: &AnalysisReport) -> (res: Self)
        ensures
            res@ == Set::new(|v: Seq<char>| exists|i: int| 0 <= i < report.candidates@.len()
                && (#[trigger] report.candidates@[i]).recommendation.initial_selected && report.candidates@[i].id@ == v),
            ids_ascending(res.candidate_ids@),
    {
        let mut selection = UserSelection::default();
        let ghost cands = report.candidates@;
        let mut i: usize = 0;
        while i < report.candidates.len()
            invariant
                i <= cands.len(),
                cands == report.candidates@,
                ids_ascending(selection.candidate_ids@),
                selection@ == Set::new(|v: Seq<char>| exists|k: int| 0 <= k < i
                    && (#[trigger] cands[k]).recommendation.initial_selected && cands[k].id@ == v),
            decreases cands.len() - i,
        {
            let candidate = &report.candidates[i];
            if candidate.recommendation.initial_selected {
                selection.select(candidate.id.clone());
            }
            proof {
                assert(selection@ =~= Set::new(|v: Seq<char>| exists|k: int| 0 <= k < i + 1
                    && (#[trigger] cands[k]).recommendation.initial_selected && cands[k].id@ == v)) by {
                    assert forall|v: Seq<char>| (exists|k: int| 0 <= k < i + 1
                        && (#[trigger] cands[k]).recommendation.initial_selected && cands[k].id@ == v)
                        ==> selection@.contains(v) by {
                        if exists|k: int| 0 <= k < i + 1 && (#[trigger] cands[k]).recommendation.initial_selected && cands[k].id@ == v {
                            let k = choose|k: int| 0 <= k < i + 1 && (#[trigger] cands[k]).recommendation.initial_selected && cands[k].id@ == v;
                            if k < i {
                                assert(cands[k].recommendation.initial_selected && cands[k].id@ == v);
                            }
                        }
                    }
                }
            }
            i = i + 1;
        }
        selection
    }

    /// Whether `candidate_id` is selected.
    pub fn contains(&self, candidate_id: &CandidateId) -> (res: bool)
        ensures
            res == self@.contains(candidate_id@),
    {
        let mut i: usize = 0;
        while i < self.candidate_ids.len()
            invariant
                i <= self.candidate_ids@.len(),
                forall|k: int| 0 <= k < i ==> (#[trigger] self.candidate_ids@[k])@ != candidate_id@,
            decreases self.candidate_ids.len() - i,
        {
            if self.candidate_ids[i].same(candidate_id) {
                return true;
            }
            i = i + 1;
        }
        false
    }

    /// Add `candidate_id`, keeping the identifiers in ascending order.
    pub fn select(&mut self, candidate_id: CandidateId)
        ensures
            final(self)@ == old(self)@.insert(candidate_id@),
            ids_ascending(old(self).candidate_ids@) ==> ids_ascending(final(self).candidate_ids@),
    {
        if self.contains(&candidate_id) {
            assert(self@.insert(candidate_id@) =~= self@);
            return;
        }
        let ghost before = self.candidate_ids@;
        let ghost v = candidate_id@;
        let key = crate::text::chars_of(candidate_id.as_str());
        let mut pos: usize = 0;
        while pos < self.candidate_ids.len() && chars_le_exec(&crate::text::chars_of(self.candidate_ids[pos].as_str()), &key)
            invariant
                pos <= before.len(),
                self.candidate_ids@ == before,
                key@ == v,
                forall|m: int| 0 <= m < pos ==> chars_le((#[trigger] before[m])@, v),
            decreases before.len() - pos,
        {
            pos = pos + 1;
        }
        proof {
            assert(!id_set(before).contains(v));
            assert forall|m: int| 0 <= m < before.len() implies (#[trigger] before[m])@ != v by {
                if before[m]@ == v {
                    assert(id_set(before).contains(v));
                }
            }
        }
        self.candidate_ids.insert(pos, candidate_id);
        proof {
            let after = self.candidate_ids@;
            assert(after == before.insert(pos as int, after[pos as int]));
            assert(after[pos as int]@ == v);
            assert forall|x: Seq<char>| id_set(after).contains(x) <==> id_set(before).insert(v).contains(x) by {
                if id_set(after).contains(x) {
                    let m = choose|m: int| 0 <= m < after.len() && (#[trigger] after[m])@ == x;
                    if m < pos {
                        assert(after[m] == before[m]);
                    } else if m > pos {
                        assert(after[m] == before[m - 1]);
                    }
                }
                if id_set(before).contains(x) {
                    let m = choose|m: int| 0 <= m < before.len() && (#[trigger] before[m])@ == x;
                    if m < pos {
                        assert(after[m] == before[m]);
                    } else {
                        assert(after[m + 1] == before[m]);
                    }
                }
            }
            assert(id_set(after) =~= id_set(before).insert(v));
            if ids_ascending(before) {
                if pos < before.len() {
                    crate::path::lemma_chars_le_total(before[pos as int]@, v);
                }
                assert forall|m: int| pos <= m < before.len() implies chars_le(v, #[trigger] before[m]@) by {
                    if m > pos {
                        crate::path::lemma_chars_le_transitive(v, before[pos as int]@, before[m]@);
                    }
                }
                assert forall|i: int, j: int| 0 <= i < j < after.len()
                    implies chars_le((#[trigger] after[i])@, (#[trigger] after[j])@) && after[i]@ != after[j]@ by {
                    if j < pos {
                        assert(after[i] == before[i] && after[j] == before[j]);
                    } else if j == pos {
                        assert(after[i] == before[i]);
                    } else if i < pos {
                        assert(after[i] == before[i] && after[j] == before[j - 1]);
                        crate::path::lemma_chars_le_transitive(before[i]@, v, before[j - 1]@);
                        if before[i]@ == before[j - 1]@ {
                            crate::path::lemma_chars_le_total(v, before[j - 1]@);
                        }
                    } else if i == pos {
                        assert(after[j] == before[j - 1]);
                    } else {
                        assert(after[i] == before[i - 1] && after[j] == before[j - 1]);
                    }
                }
            }
        }
    }

    pub fn deselect(&mut self, candidate_id: &CandidateId)
        ensures
            final(self)@ == old(self)@.remove(candidate_id@),
            ids_ascending(old(self).candidate_ids@) ==> ids_ascending(final(self).candidate_ids@),
    {
        let ghost before = self.candidate_ids@;
        let mut kept: Vec<CandidateId> = Vec::new();
        let mut rest: Vec<CandidateId> = Vec::new();
        std::mem::swap(&mut rest, &mut self.candidate_ids);
        assert(rest@ == before);
        let ghost n = before.len();
        let len = rest.len();
        assert(n == len);
        assert(before.skip(0) =~= before);
        let mut k: usize = 0;
        while rest.len() > 0
            invariant
                k <= n,
                n == before.len(),
                n <= usize::MAX,
                rest@ == before.skip(k as int),
                id_set(kept@) == id_set(before.take(k as int)).remove(candidate_id@),
                ids_ascending(before) ==> ids_ascending(kept@),
                ids_ascending(before) ==> forall|m: int, q: int| 0 <= m < kept@.len() && k <= q < n
                    ==> chars_le((#[trigger] kept@[m])@, (#[trigger] before[q])@) && kept@[m]@ != before[q]@,
            decreases rest.len(),
        {
            let id = rest.remove(0);
            assert(id == before[k as int]);
            assert(rest@ =~= before.skip(k + 1));
            let ghost kept_before = kept@;
            let ghost id_view = id@;
            let keep = !id.same(candidate_id);
            if keep {
                kept.push(id);
            }
            proof {
                assert(keep ==> kept@ == kept_before.push(before[k as int]));
                assert(!keep ==> kept@ == kept_before);
                assert(keep == (before[k as int]@ != candidate_id@));
                assert(forall|m: int| 0 <= m < kept_before.len() ==> kept@[m] == kept_before[m]);
                let t = before.take(k + 1);
                assert(t =~= before.take(k as int).push(before[k as int]));
                assert forall|x: Seq<char>| id_set(kept@).contains(x) <==> id_set(t).remove(candidate_id@).contains(x) by {
                    if id_set(kept@).contains(x) {
                        let m = choose|m: int| 0 <= m < kept@.len() && (#[trigger] kept@[m])@ == x;
                        if m < kept_before.len() {
                            assert(kept_before[m] == kept@[m]);
                            assert(id_set(kept_before).contains(x));
                            let q = choose|q: int| 0 <= q < k && (#[trigger] before.take(k as int)[q])@ == x;
                            assert(t[q] == before.take(k as int)[q]);
                        } else {
                            assert(keep);
                            assert(t[k as int]@ == x);
                            assert(id_set(t).contains(x));
                        }
                    }
                    if id_set(t).remove(candidate_id@).contains(x) {
                        let q = choose|q: int| 0 <= q < t.len() && (#[trigger] t[q])@ == x;
                        if q < k {
                            assert(before.take(k as int)[q] == t[q]);
                            assert(id_set(before.take(k as int)).contains(x));
                            assert(id_set(kept_before).contains(x));
                            let m = choose|m: int| 0 <= m < kept_before.len() && (#[trigger] kept_before[m])@ == x;
                            assert(kept@[m] == kept_before[m]);
                        } else {
                            assert(kept@[kept_before.len() as int]@ == x);
                        }
                    }
                }
                assert(id_set(kept@) =~= id_set(t).remove(candidate_id@));
                if ids_ascending(before) {
                    assert forall|i: int, j: int| 0 <= i < j < kept@.len()
                        implies chars_le((#[trigger] kept@[i])@, (#[trigger] kept@[j])@) && kept@[i]@ != kept@[j]@ by {
                        if j < kept_before.len() {
                            assert(kept@[i] == kept_before[i] && kept@[j] == kept_before[j]);
                        } else {
                            assert(kept@[i] == kept_before[i] && kept@[j] == before[k as int]);
                        }
                    }
                    assert forall|m: int, q: int| 0 <= m < kept@.len() && k + 1 <= q < n
                        implies chars_le((#[trigger] kept@[m])@, (#[trigger] before[q])@) && kept@[m]@ != before[q]@ by {
                        if m < kept_before.len() {
                            assert(kept@[m] == kept_before[m]);
                        } else {
                            assert(kept@[m] == before[k as int]);
                        }
                    }
                }
            }
            k = k + 1;
        }
        assert(before.take(n as int) =~= before);
        self.candidate_ids = kept;
    }
}

} // verus!
