//! Candidate coverage, rule resolution and the deterministic recommendation decision.
use vstd::prelude::*;
use vstd::multiset::Multiset;

use crate::evidence::{
    ActivityEvidence, ActivityStatus, CandidateCoverage, DecisionCode, RecommendationDecision,
    RecommendationPolicy, RecommendationState, ReportIntegrity, RuleEvidence, RuleEvidenceView, RuleKey, RuleResolution,
    RuleResolutionState, ScanIssue,
};
use crate::model::{confidence_rank, Confidence, RuleHit, RuleTrust};
use crate::path::{chars_le, chars_le_exec, path_starts_with, same_path, paths_equal, starts_with};
use crate::safety::SafetyPolicy;
use crate::sort::{sort_by_le, sorted_by_le, total_preorder};

verus! {

broadcast use vstd::seq_lib::group_to_multiset_ensures;

// ---------------------------------------------------------------- coverage

/// Some issue has no path, so its scope is unknown.
pub open spec fn has_unknown_scope(issues: Seq<ScanIssue>) -> bool {
    exists|i: int| 0 <= i < issues.len() && (#[trigger] issues[i]).path is None
}

/// Some issue lies at or below `path`.
pub open spec fn has_issue_below(issues: Seq<ScanIssue>, path: Seq<char>) -> bool {
    exists|i: int|
        0 <= i < issues.len() && ((#[trigger] issues[i]).path matches Some(scope)
            && path_starts_with(scope@, path))
}

/// Coverage of the tree at `path`: unknown when some issue has no scope, partial when some
/// issue lies in the tree, complete otherwise.
pub open spec fn coverage_of(path: Seq<char>, issues: Seq<ScanIssue>) -> CandidateCoverage {
    if has_unknown_scope(issues) {
        CandidateCoverage::Unknown
    } else if has_issue_below(issues, path) {
        CandidateCoverage::Partial
    } else {
        CandidateCoverage::Complete
    }
}

/// Whether some issue has no path.
pub fn issue_with_unknown_scope(issues: &[ScanIssue]) -> (res: bool)
    ensures
        res == has_unknown_scope(issues@),
{
    let mut i: usize = 0;
    while i < issues.len()
        invariant
            i <= issues@.len(),
            forall|j: int| 0 <= j < i ==> (#[trigger] issues@[j]).path is Some,
        decreases issues.len() - i,
    {
        if issues[i].path.is_none() {
            return true;
        }
        i = i + 1;
    }
    false
}

/// Coverage of the tree at `path` given the scan's issues.
pub fn candidate_coverage(path: &str, issues: &[ScanIssue]) -> (res: CandidateCoverage)
    ensures
        res == coverage_of(path@, issues@),
{
    if issue_with_unknown_scope(issues) {
        return CandidateCoverage::Unknown;
    }
    assert(!has_unknown_scope(issues@));
    let mut i: usize = 0;
    while i < issues.len()
        invariant
            i <= issues@.len(),
            !has_unknown_scope(issues@),
            forall|j: int|
                0 <= j < i ==> !((#[trigger] issues@[j]).path matches Some(scope) && path_starts_with(
                    scope@,
                    path@,
                )),
        decreases issues.len() - i,
    {
        match &issues[i].path {
            Some(scope) => {
                if starts_with(scope.as_str(), path) {
                    assert(issues@[i as int].path == Some(*scope));
                    assert(has_issue_below(issues@, path@));
                    assert(coverage_of(path@, issues@) == CandidateCoverage::Partial);
                    return CandidateCoverage::Partial;
                }
            },
            None => {},
        }
        i = i + 1;
    }
    CandidateCoverage::Complete
}

// ---------------------------------------------------------------- rules

/// The evidence facts of a rule hit.
pub open spec fn hit_evidence_view(hit: RuleHit) -> RuleEvidenceView {
    (
        (hit.rule_pack_id@, hit.rule_id@),
        hit.label@,
        hit.category@,
        hit.confidence,
        hit.default_selected,
        hit.trust,
        hit.reason@,
        hit.risk_note@,
    )
}

/// The evidence facts of a rule.
pub open spec fn evidence_view(e: RuleEvidence) -> RuleEvidenceView {
    e@
}

/// The evidence retained for one rule hit.
pub fn rule_evidence(hit: &RuleHit) -> (res: RuleEvidence)
    ensures
        res@ == hit_evidence_view(*hit),
{
    RuleEvidence {
        key: RuleKey { rule_pack_id: hit.rule_pack_id.clone(), rule_id: hit.rule_id.clone() },
        label: hit.label.clone(),
        category: hit.category.clone(),
        confidence: hit.confidence,
        default_selected: hit.default_selected,
        trust: hit.trust,
        reason: hit.reason.clone(),
        risk_note: hit.risk_note.clone(),
    }
}

/// Two rules say the same about safety: category, confidence, default selection, trust,
/// reason and risk note are equal.
pub open spec fn same_semantics(left: RuleEvidenceView, right: RuleEvidenceView) -> bool {
    left.2 == right.2 && left.3 == right.3 && left.4 == right.4 && left.5 == right.5 && left.6
        == right.6 && left.7 == right.7
}

/// Whether two rules say the same about safety.
pub fn same_safety_semantics(left: &RuleEvidence, right: &RuleEvidence) -> (res: bool)
    ensures
        res == same_semantics(left@, right@),
{
    left.category == right.category && left.confidence == right.confidence
        && left.default_selected == right.default_selected && left.trust == right.trust
        && left.reason == right.reason && left.risk_note == right.risk_note
}

/// Text strictly before other text in character order.
pub open spec fn chars_lt(a: Seq<char>, b: Seq<char>) -> bool {
    chars_le(a, b) && a != b
}

/// Rule keys ordered by rule pack, then by rule id.
pub open spec fn key_le(a: (Seq<char>, Seq<char>), b: (Seq<char>, Seq<char>)) -> bool {
    chars_lt(a.0, b.0) || (a.0 == b.0 && chars_le(a.1, b.1))
}

/// Rule evidence ordered by key.
pub open spec fn evidence_key_le() -> spec_fn(RuleEvidence, RuleEvidence) -> bool {
    |a: RuleEvidence, b: RuleEvidence| key_le(a.key@, b.key@)
}

proof fn lemma_evidence_key_le_preorder()
    ensures
        total_preorder(evidence_key_le()),
{
    assert forall|a: RuleEvidence, b: RuleEvidence|
        key_le(a.key@, b.key@) || key_le(b.key@, a.key@) by {
        crate::path::lemma_chars_le_total(a.key@.0, b.key@.0);
        crate::path::lemma_chars_le_total(a.key@.1, b.key@.1);
    }
    assert forall|a: RuleEvidence, b: RuleEvidence, c: RuleEvidence|
        key_le(a.key@, b.key@) && key_le(b.key@, c.key@) implies key_le(a.key@, c.key@) by {
        crate::path::lemma_chars_le_total(a.key@.0, b.key@.0);
        crate::path::lemma_chars_le_total(b.key@.0, c.key@.0);
        crate::path::lemma_chars_le_total(a.key@.0, c.key@.0);
        if chars_le(a.key@.0, b.key@.0) && chars_le(b.key@.0, c.key@.0) {
            crate::path::lemma_chars_le_transitive(a.key@.0, b.key@.0, c.key@.0);
        }
        if chars_le(a.key@.1, b.key@.1) && chars_le(b.key@.1, c.key@.1) {
            crate::path::lemma_chars_le_transitive(a.key@.1, b.key@.1, c.key@.1);
        }
    }
}

/// Whether rule evidence `a` is ordered at or before `b` by key.
pub fn evidence_key_le_exec(a: &RuleEvidence, b: &RuleEvidence) -> (res: bool)
    ensures
        res == key_le(a.key@, b.key@),
{
    let pa = crate::text::chars_of(a.key.rule_pack_id.as_str());
    let pb = crate::text::chars_of(b.key.rule_pack_id.as_str());
    if crate::path::chars_equal(&pa, &pb) {
        let ia = crate::text::chars_of(a.key.rule_id.as_str());
        let ib = crate::text::chars_of(b.key.rule_id.as_str());
        chars_le_exec(&ia, &ib)
    } else {
        chars_le_exec(&pa, &pb)
    }
}

/// How a sorted list of matched rules resolves.
pub open spec fn resolution_state_of(matched: Seq<RuleEvidence>) -> RuleResolutionState {
    if matched.len() == 1 {
        RuleResolutionState::Single
    } else if forall|i: int|
        0 <= i < matched.len() - 1 ==> same_semantics(#[trigger] matched[i]@, matched[i + 1]@) {
        RuleResolutionState::Equivalent
    } else {
        RuleResolutionState::UnresolvedConflict
    }
}

/// The views of a sequence of rule evidence.
pub open spec fn evidence_views(s: Seq<RuleEvidence>) -> Seq<RuleEvidenceView> {
    Seq::new(s.len(), |i: int| s[i]@)
}

/// The evidence views of a sequence of rule hits.
pub open spec fn hit_views(s: Seq<RuleHit>) -> Seq<RuleEvidenceView> {
    Seq::new(s.len(), |i: int| hit_evidence_view(s[i]))
}

/// A map of equal multisets is a map of equal multisets.
pub proof fn lemma_multiset_map<A, B>(a: Seq<A>, b: Seq<A>, f: spec_fn(A) -> B)
    requires
        a.to_multiset() == b.to_multiset(),
    ensures
        Seq::new(a.len(), |i: int| f(a[i])).to_multiset() == Seq::new(
            b.len(),
            |i: int| f(b[i]),
        ).to_multiset(),
    decreases a.len(),
{
    a.to_multiset_ensures();
    b.to_multiset_ensures();
    let fa = Seq::new(a.len(), |i: int| f(a[i]));
    let fb = Seq::new(b.len(), |i: int| f(b[i]));
    if a.len() == 0 {
        assert(b.len() == 0);
        assert(fa =~= fb);
    } else {
        let x = a.last();
        let a1 = a.drop_last();
        assert(a =~= a1.push(x));
        a1.to_multiset_ensures();
        assert(a.to_multiset().count(x) > 0) by {
            assert(a.contains(x)) by {
                assert(a[a.len() - 1] == x);
            }
        }
        assert(b.contains(x));
        let j = choose|j: int| 0 <= j < b.len() && b[j] == x;
        let b1 = b.remove(j);
        assert(b1.to_multiset() == b.to_multiset().remove(x));
        assert(a1.to_multiset() == a.to_multiset().remove(x)) by {
            assert(a.to_multiset() =~= a1.to_multiset().insert(x));
        }
        lemma_multiset_map(a1, b1, f);
        let fa1 = Seq::new(a1.len(), |i: int| f(a1[i]));
        let fb1 = Seq::new(b1.len(), |i: int| f(b1[i]));
        assert(fa =~= fa1.push(f(x)));
        fa1.to_multiset_ensures();
        fb.to_multiset_ensures();
        assert(fb.remove(j) =~= fb1) by {
            b.remove_ensures(j);
            fb.remove_ensures(j);
        }
        assert(fb[j] == f(x));
        assert(fb1.to_multiset() == fb.to_multiset().remove(f(x)));
        assert(fb.to_multiset().count(f(x)) > 0) by {
            assert(fb.contains(f(x)));
        }
        assert(fb.to_multiset() =~= fb1.to_multiset().insert(f(x)));
    }
}

/// `res` resolves `hits`: its matched rules are the evidence of the hits ordered by key, its
/// state follows from them, and its primary rule is the first one unless the conflict is
/// unresolved.
pub open spec fn rules_resolved(hits: Seq<RuleHit>, res: RuleResolution) -> bool {
    &&& evidence_views(res.matched@).to_multiset() == hit_views(hits).to_multiset()
    &&& sorted_by_le(res.matched@, evidence_key_le())
    &&& res.state == resolution_state_of(res.matched@)
    &&& res.state == RuleResolutionState::UnresolvedConflict ==> res.primary is None
    &&& res.state != RuleResolutionState::UnresolvedConflict ==> (if res.matched@.len() > 0 {
        res.primary matches Some(k) && k@ == res.matched@[0].key@
    } else {
        res.primary is None
    })
}

/// Resolve the rules that matched one candidate.
///
/// The matched rules are ordered by key. One rule resolves as single; several rules that all
/// say the same about safety (adjacent in key order) resolve as equivalent, and so does an
/// empty list; otherwise the conflict is unresolved. The primary rule is the first in key
/// order unless the conflict is unresolved.
pub fn resolve_rules(hits: &[RuleHit]) -> (res: RuleResolution)
    ensures
        rules_resolved(hits@, res),
        evidence_views(res.matched@).to_multiset() == hit_views(hits@).to_multiset(),
        sorted_by_le(res.matched@, evidence_key_le()),
        res.state == resolution_state_of(res.matched@),
        res.state == RuleResolutionState::UnresolvedConflict ==> res.primary is None,
        res.state != RuleResolutionState::UnresolvedConflict ==> (if res.matched@.len() > 0 {
            res.primary matches Some(k) && k@ == res.matched@[0].key@
        } else {
            res.primary is None
        }),
{
    let mut matched: Vec<RuleEvidence> = Vec::new();
    for i in 0..hits.len()
        invariant
            matched@.len() == i,
            i <= hits@.len(),
            evidence_views(matched@) == hit_views(hits@).take(i as int),
    {
        let ghost before = matched@;
        let evidence = rule_evidence(&hits[i]);
        matched.push(evidence);
        assert(matched@ == before.push(evidence));
        assert forall|k: int| 0 <= k < i + 1 implies evidence_views(matched@)[k] == hit_views(hits@).take(i + 1)[k] by {
            if k < i {
                assert(evidence_views(matched@)[k] == evidence_views(before)[k]);
            } else {
                assert(evidence_views(matched@)[k] == matched@[k]@);
                assert(hit_views(hits@)[k] == hit_evidence_view(hits@[k]));
            }
        }
        assert(evidence_views(matched@) =~= hit_views(hits@).take(i + 1));
    }
    assert(hit_views(hits@).take(hits@.len() as int) =~= hit_views(hits@));
    let ghost unsorted = matched@;
    proof {
        lemma_evidence_key_le_preorder();
    }
    let matched = sort_by_le(matched, evidence_key_le_exec, Ghost(evidence_key_le()));
    proof {
        lemma_multiset_map(matched@, unsorted, |e: RuleEvidence| e@);
        assert(evidence_views(matched@) =~= Seq::new(matched@.len(), |i: int| (|e: RuleEvidence| e@)(matched@[i])));
        assert(evidence_views(unsorted) =~= Seq::new(unsorted.len(), |i: int| (|e: RuleEvidence| e@)(unsorted[i])));
    }
    let state = if matched.len() == 1 {
        RuleResolutionState::Single
    } else {
        let n = matched.len();
        let mut all_same = true;
        let mut i: usize = 0;
        while i < n
            invariant
                i <= n,
                n == matched@.len(),
                all_same == (forall|j: int|
                    0 <= j < i && j < n - 1 ==> same_semantics(
                        #[trigger] matched@[j]@,
                        matched@[j + 1]@,
                    )),
            decreases n - i,
        {
            if i + 1 < n && !same_safety_semantics(&matched[i], &matched[i + 1]) {
                all_same = false;
            }
            i = i + 1;
        }
        if all_same {
            RuleResolutionState::Equivalent
        } else {
            RuleResolutionState::UnresolvedConflict
        }
    };
    let primary = match state {
        RuleResolutionState::UnresolvedConflict => None,
        _ => {
            if matched.len() > 0 {
                Some(matched[0].key.clone())
            } else {
                None
            }
        },
    };
    RuleResolution { matched, primary, state }
}

// ---------------------------------------------------------------- decisions

/// The position of each decision code in its declared order.
pub open spec fn code_rank(c: DecisionCode) -> int {
    match c {
        DecisionCode::AgeThresholdMet => 0,
        DecisionCode::AgeGateDisabled => 1,
        DecisionCode::RecentObservedContent => 2,
        DecisionCode::RuleNotDefaultSelected => 3,
        DecisionCode::ConfidenceBelowHigh => 4,
        DecisionCode::UntrustedRule => 5,
        DecisionCode::TimestampMissing => 6,
        DecisionCode::TimestampAfterAsOf => 7,
        DecisionCode::ScanReportPartial => 8,
        DecisionCode::CandidateCoveragePartial => 9,
        DecisionCode::CandidateCoverageUnknown => 10,
        DecisionCode::UnresolvedRuleConflict => 11,
        DecisionCode::CoveredDescendantHasBlocker => 12,
        DecisionCode::OverlapSuppressed => 13,
        DecisionCode::ScanRoot => 14,
        DecisionCode::SafetyPolicyExcluded => 15,
    }
}

/// The decision code at each position of the declared order.
pub open spec fn code_at(rank: int) -> DecisionCode {
    if rank == 0 {
        DecisionCode::AgeThresholdMet
    } else if rank == 1 {
        DecisionCode::AgeGateDisabled
    } else if rank == 2 {
        DecisionCode::RecentObservedContent
    } else if rank == 3 {
        DecisionCode::RuleNotDefaultSelected
    } else if rank == 4 {
        DecisionCode::ConfidenceBelowHigh
    } else if rank == 5 {
        DecisionCode::UntrustedRule
    } else if rank == 6 {
        DecisionCode::TimestampMissing
    } else if rank == 7 {
        DecisionCode::TimestampAfterAsOf
    } else if rank == 8 {
        DecisionCode::ScanReportPartial
    } else if rank == 9 {
        DecisionCode::CandidateCoveragePartial
    } else if rank == 10 {
        DecisionCode::CandidateCoverageUnknown
    } else if rank == 11 {
        DecisionCode::UnresolvedRuleConflict
    } else if rank == 12 {
        DecisionCode::CoveredDescendantHasBlocker
    } else if rank == 13 {
        DecisionCode::OverlapSuppressed
    } else if rank == 14 {
        DecisionCode::ScanRoot
    } else {
        DecisionCode::SafetyPolicyExcluded
    }
}

fn code_at_exec(rank: usize) -> (res: DecisionCode)
    requires
        rank < 16,
    ensures
        res == code_at(rank as int),
        code_rank(res) == rank,
{
    if rank == 0 {
        DecisionCode::AgeThresholdMet
    } else if rank == 1 {
        DecisionCode::AgeGateDisabled
    } else if rank == 2 {
        DecisionCode::RecentObservedContent
    } else if rank == 3 {
        DecisionCode::RuleNotDefaultSelected
    } else if rank == 4 {
        DecisionCode::ConfidenceBelowHigh
    } else if rank == 5 {
        DecisionCode::UntrustedRule
    } else if rank == 6 {
        DecisionCode::TimestampMissing
    } else if rank == 7 {
        DecisionCode::TimestampAfterAsOf
    } else if rank == 8 {
        DecisionCode::ScanReportPartial
    } else if rank == 9 {
        DecisionCode::CandidateCoveragePartial
    } else if rank == 10 {
        DecisionCode::CandidateCoverageUnknown
    } else if rank == 11 {
        DecisionCode::UnresolvedRuleConflict
    } else if rank == 12 {
        DecisionCode::CoveredDescendantHasBlocker
    } else if rank == 13 {
        DecisionCode::OverlapSuppressed
    } else if rank == 14 {
        DecisionCode::ScanRoot
    } else {
        DecisionCode::SafetyPolicyExcluded
    }
}

pub fn code_rank_exec(c: DecisionCode) -> (res: usize)
    ensures
        res == code_rank(c),
        res < 16,
{
    match c {
        DecisionCode::AgeThresholdMet => 0,
        DecisionCode::AgeGateDisabled => 1,
        DecisionCode::RecentObservedContent => 2,
        DecisionCode::RuleNotDefaultSelected => 3,
        DecisionCode::ConfidenceBelowHigh => 4,
        DecisionCode::UntrustedRule => 5,
        DecisionCode::TimestampMissing => 6,
        DecisionCode::TimestampAfterAsOf => 7,
        DecisionCode::ScanReportPartial => 8,
        DecisionCode::CandidateCoveragePartial => 9,
        DecisionCode::CandidateCoverageUnknown => 10,
        DecisionCode::UnresolvedRuleConflict => 11,
        DecisionCode::CoveredDescendantHasBlocker => 12,
        DecisionCode::OverlapSuppressed => 13,
        DecisionCode::ScanRoot => 14,
        DecisionCode::SafetyPolicyExcluded => 15,
    }
}

proof fn lemma_code_rank_roundtrip(c: DecisionCode)
    ensures
        0 <= code_rank(c) < 16,
        code_at(code_rank(c)) == c,
{
}

/// Different codes have different positions.
pub proof fn lemma_code_rank_injective(a: DecisionCode, b: DecisionCode)
    ensures
        code_rank(a) == code_rank(b) ==> a == b,
{
}

/// Codes that keep a candidate from being preselected.
pub open spec fn is_blocker(c: DecisionCode) -> bool {
    c == DecisionCode::UnresolvedRuleConflict || c == DecisionCode::ConfidenceBelowHigh || c
        == DecisionCode::UntrustedRule || c == DecisionCode::TimestampMissing || c
        == DecisionCode::TimestampAfterAsOf || c == DecisionCode::ScanReportPartial || c
        == DecisionCode::CandidateCoveragePartial || c == DecisionCode::CandidateCoverageUnknown
}

/// `codes` lists exactly the codes for which `present` holds, once each, in declared order.
pub open spec fn lists_codes(codes: Seq<DecisionCode>, present: spec_fn(DecisionCode) -> bool) -> bool {
    &&& forall|i: int, j: int| 0 <= i < j < codes.len() ==> code_rank(#[trigger] codes[i]) < code_rank(#[trigger] codes[j])
    &&& forall|c: DecisionCode| codes.contains(c) <==> #[trigger] present(c)
}

/// The codes at the positions whose flag is set, in declared order.
pub fn codes_from_flags(flags: &Vec<bool>) -> (res: Vec<DecisionCode>)
    requires
        flags@.len() == 16,
    ensures
        lists_codes(res@, |c: DecisionCode| flags@[code_rank(c)]),
{
    let mut res: Vec<DecisionCode> = Vec::new();
    for r in 0..16
        invariant
            flags@.len() == 16,
            forall|i: int| 0 <= i < res@.len() ==> code_rank(#[trigger] res@[i]) < r,
            forall|i: int, j: int| 0 <= i < j < res@.len() ==> code_rank(#[trigger] res@[i]) < code_rank(#[trigger] res@[j]),
            forall|c: DecisionCode| res@.contains(c) <==> (code_rank(c) < r && flags@[code_rank(c)]),
    {
        if flags[r] {
            let c = code_at_exec(r);
            let ghost before = res@;
            res.push(c);
            proof {
                assert forall|d: DecisionCode| res@.contains(d) <==> (code_rank(d) < r + 1 && flags@[code_rank(d)]) by {
                    if res@.contains(d) {
                        let k = choose|k: int| 0 <= k < res@.len() && res@[k] == d;
                        if k < before.len() {
                            assert(before.contains(d));
                        }
                    }
                    if code_rank(d) < r + 1 && flags@[code_rank(d)] {
                        if code_rank(d) < r {
                            assert(before.contains(d));
                            let k = choose|k: int| 0 <= k < before.len() && before[k] == d;
                            assert(res@[k] == d);
                        } else {
                            lemma_code_rank_roundtrip(d);
                            assert(res@[before.len() as int] == d);
                        }
                    }
                }
            }
        } else {
            proof {
                assert forall|d: DecisionCode| res@.contains(d) <==> (code_rank(d) < r + 1 && flags@[code_rank(d)]) by {
                    if res@.contains(d) {
                        let k = choose|k: int| 0 <= k < res@.len() && res@[k] == d;
                        assert(code_rank(res@[k]) < r);
                    }
                }
            }
        }
    }
    res
}

/// The first matched rule with key `key`.
pub open spec fn find_rule(matched: Seq<RuleEvidence>, key: (Seq<char>, Seq<char>)) -> Option<RuleEvidence>
    decreases matched.len(),
{
    if matched.len() == 0 {
        None
    } else if matched[0].key@ == key {
        Some(matched[0])
    } else {
        find_rule(matched.drop_first(), key)
    }
}

/// The primary rule of a resolution, when it has one that is among its matched rules.
pub open spec fn primary_rule_of(rules: RuleResolution) -> Option<RuleEvidence> {
    match rules.primary {
        Some(key) => find_rule(rules.matched@, key@),
        None => None,
    }
}

/// Whether two rule keys are equal.
pub fn rule_key_eq(a: &RuleKey, b: &RuleKey) -> (res: bool)
    ensures
        res == (a@ == b@),
{
    a.rule_pack_id == b.rule_pack_id && a.rule_id == b.rule_id
}

/// The index of the first matched rule with the resolution's primary key.
pub fn primary_rule_index(rules: &RuleResolution) -> (res: Option<usize>)
    ensures
        match res {
            Some(i) => i < rules.matched@.len() && primary_rule_of(*rules) == Some(rules.matched@[i as int]),
            None => primary_rule_of(*rules) is None,
        },
{
    match &rules.primary {
        None => None,
        Some(key) => {
            let mut i: usize = 0;
            assert(rules.matched@.skip(0) =~= rules.matched@);
            while i < rules.matched.len()
                invariant
                    i <= rules.matched@.len(),
                    rules.primary == Some(*key),
                    find_rule(rules.matched@, key@) == find_rule(rules.matched@.skip(i as int), key@),
                decreases rules.matched.len() - i,
            {
                assert(rules.matched@.skip(i as int).drop_first() =~= rules.matched@.skip(i + 1));
                if rule_key_eq(&rules.matched[i].key, key) {
                    return Some(i);
                }
                i = i + 1;
            }
            None
        },
    }
}

/// The decision codes of a candidate that is neither a scan root nor excluded by safety.
pub open spec fn evaluated_code(
    c: DecisionCode,
    rules: RuleResolution,
    activity: ActivityEvidence,
    coverage: CandidateCoverage,
    integrity: ReportIntegrity,
    policy: RecommendationPolicy,
) -> bool {
    let primary = primary_rule_of(rules);
    let days = policy.preselect_after_days;
    let complete = activity.status == ActivityStatus::Complete;
    let old_enough = activity.age_days matches Some(age) && age >= days;
    match c {
        DecisionCode::UnresolvedRuleConflict => rules.state == RuleResolutionState::UnresolvedConflict
            || primary is None,
        DecisionCode::RuleNotDefaultSelected => primary matches Some(r) && !r.default_selected,
        DecisionCode::ConfidenceBelowHigh => primary matches Some(r) && r.confidence != Confidence::High,
        DecisionCode::UntrustedRule => primary matches Some(r) && r.trust == RuleTrust::Untrusted,
        DecisionCode::CandidateCoveragePartial => coverage == CandidateCoverage::Partial,
        DecisionCode::CandidateCoverageUnknown => coverage == CandidateCoverage::Unknown,
        DecisionCode::ScanReportPartial => integrity == ReportIntegrity::Partial
            && policy.strict_report_integrity,
        DecisionCode::AgeGateDisabled => complete && days == 0,
        DecisionCode::AgeThresholdMet => complete && days != 0 && old_enough,
        DecisionCode::RecentObservedContent => complete && days != 0 && !old_enough,
        DecisionCode::TimestampMissing => activity.status == ActivityStatus::Missing || activity.status
            == ActivityStatus::Partial,
        DecisionCode::TimestampAfterAsOf => activity.status == ActivityStatus::AfterAsOf,
        _ => false,
    }
}

/// Whether a code is part of the decision for a candidate.
pub open spec fn decision_code(
    c: DecisionCode,
    is_root: bool,
    allowed: bool,
    rules: RuleResolution,
    activity: ActivityEvidence,
    coverage: CandidateCoverage,
    integrity: ReportIntegrity,
    policy: RecommendationPolicy,
) -> bool {
    if is_root {
        c == DecisionCode::ScanRoot
    } else if !allowed {
        c == DecisionCode::SafetyPolicyExcluded
    } else {
        evaluated_code(c, rules, activity, coverage, integrity, policy)
    }
}

/// Some blocker code is part of the evaluation of a candidate.
pub open spec fn has_blocker(
    rules: RuleResolution,
    activity: ActivityEvidence,
    coverage: CandidateCoverage,
    integrity: ReportIntegrity,
    policy: RecommendationPolicy,
) -> bool {
    exists|c: DecisionCode| is_blocker(c) && #[trigger] evaluated_code(c, rules, activity, coverage, integrity, policy)
}

/// The recommendation state of a candidate.
///
/// Scan roots and paths that safety excludes are excluded. A candidate is preselected when its
/// primary rule is default-selected, high confidence and not untrusted, the age gate is
/// disabled or met, and nothing blocks it; otherwise it needs review when something blocks it,
/// and is available when nothing does.
pub open spec fn decision_state(
    is_root: bool,
    allowed: bool,
    rules: RuleResolution,
    activity: ActivityEvidence,
    coverage: CandidateCoverage,
    integrity: ReportIntegrity,
    policy: RecommendationPolicy,
) -> RecommendationState {
    let primary = primary_rule_of(rules);
    let high_trusted_default = primary matches Some(r) && r.default_selected && r.confidence
        == Confidence::High && r.trust != RuleTrust::Untrusted;
    let age_gate = policy.preselect_after_days == 0 || evaluated_code(
        DecisionCode::AgeThresholdMet,
        rules,
        activity,
        coverage,
        integrity,
        policy,
    );
    let blocked = has_blocker(rules, activity, coverage, integrity, policy);
    if is_root || !allowed {
        RecommendationState::Excluded
    } else if high_trusted_default && age_gate && !blocked {
        RecommendationState::Preselected
    } else if blocked {
        RecommendationState::Review
    } else {
        RecommendationState::Available
    }
}

/// `d` is the decision with state `state` and the codes for which `present` holds.
pub open spec fn is_decision(
    d: RecommendationDecision,
    state: RecommendationState,
    present: spec_fn(DecisionCode) -> bool,
) -> bool {
    &&& d.state == state
    &&& d.initial_selected == (state == RecommendationState::Preselected)
    &&& lists_codes(d.codes@, present)
}

/// `d` is the decision for a candidate under the given facts.
pub open spec fn decides(
    d: RecommendationDecision,
    is_root: bool,
    allowed: bool,
    rules: RuleResolution,
    activity: ActivityEvidence,
    coverage: CandidateCoverage,
    integrity: ReportIntegrity,
    policy: RecommendationPolicy,
) -> bool {
    is_decision(
        d,
        decision_state(is_root, allowed, rules, activity, coverage, integrity, policy),
        |c: DecisionCode| decision_code(c, is_root, allowed, rules, activity, coverage, integrity, policy),
    )
}

/// A decision with `state` and the codes whose flags are set.
pub fn decision(state: RecommendationState, flags: &Vec<bool>) -> (res: RecommendationDecision)
    requires
        flags@.len() == 16,
    ensures
        is_decision(res, state, |c: DecisionCode| flags@[code_rank(c)]),
{
    RecommendationDecision {
        state,
        initial_selected: state == RecommendationState::Preselected,
        codes: codes_from_flags(flags),
    }
}

/// Whether `path` is one of `roots`.
pub open spec fn is_scan_root(roots: Seq<String>, path: Seq<char>) -> bool {
    exists|i: int| 0 <= i < roots.len() && same_path((#[trigger] roots[i])@, path)
}

/// Whether `path` is one of `roots`.
pub fn path_is_scan_root(roots: &[String], path: &str) -> (res: bool)
    ensures
        res == is_scan_root(roots@, path@),
{
    let mut i: usize = 0;
    while i < roots.len()
        invariant
            i <= roots@.len(),
            forall|j: int| 0 <= j < i ==> !same_path((#[trigger] roots@[j])@, path@),
        decreases roots.len() - i,
    {
        if paths_equal(roots[i].as_str(), path) {
            return true;
        }
        i = i + 1;
    }
    false
}

/// The scan-wide facts that every candidate's recommendation shares.
pub struct RecommendationContext<'a> {
    pub scan_roots: &'a [String],
    pub integrity: ReportIntegrity,
    pub policy: &'a RecommendationPolicy,
    pub safety_policy: Option<&'a SafetyPolicy>,
}

/// Flags listing the given codes by position.
fn flags_of(b: [bool; 16]) -> (res: Vec<bool>)
    ensures
        res@ == b@,
{
    let mut res: Vec<bool> = Vec::new();
    for i in 0..16
        invariant
            res@ == b@.take(i as int),
    {
        res.push(b[i]);
        assert(b@.take(i + 1) =~= b@.take(i as int).push(b@[i as int]));
    }
    assert(b@.take(16) =~= b@);
    res
}

/// Whether the primary rule is default-selected, high confidence and not untrusted.
pub open spec fn high_trusted_default(rules: RuleResolution) -> bool {
    primary_rule_of(rules) matches Some(r) && r.default_selected && r.confidence == Confidence::High
        && r.trust != RuleTrust::Untrusted
}

/// The flags, by code position, of a candidate that is evaluated.
fn evaluation_flags(
    rules: &RuleResolution,
    activity: &ActivityEvidence,
    coverage: CandidateCoverage,
    integrity: ReportIntegrity,
    policy: &RecommendationPolicy,
) -> (res: (Vec<bool>, bool))
    ensures
        res.0@.len() == 16,
        forall|c: DecisionCode| #[trigger] res.0@[code_rank(c)] == evaluated_code(c, *rules, *activity, coverage, integrity, *policy),
        res.1 == high_trusted_default(*rules),
{
    let primary = primary_rule_index(rules);
    let conflict = rules.state == RuleResolutionState::UnresolvedConflict || primary.is_none();
    let (not_default, below_high, untrusted, htd) = match primary {
        Some(index) => {
            let rule = &rules.matched[index];
            (!rule.default_selected, rule.confidence != Confidence::High, rule.trust == RuleTrust::Untrusted,
             rule.default_selected && rule.confidence == Confidence::High && rule.trust != RuleTrust::Untrusted)
        },
        None => (false, false, false, false),
    };
    let days = policy.preselect_after_days;
    let complete = activity.status == ActivityStatus::Complete;
    let old_enough = match activity.age_days {
        Some(age) => age >= days as u32,
        None => false,
    };
    let flags = flags_of([
        complete && days != 0 && old_enough,
        complete && days == 0,
        complete && days != 0 && !old_enough,
        not_default,
        below_high,
        untrusted,
        activity.status == ActivityStatus::Missing || activity.status == ActivityStatus::Partial,
        activity.status == ActivityStatus::AfterAsOf,
        integrity == ReportIntegrity::Partial && policy.strict_report_integrity,
        coverage == CandidateCoverage::Partial,
        coverage == CandidateCoverage::Unknown,
        conflict,
        false,
        false,
        false,
        false,
    ]);
    proof {
        assert forall|c: DecisionCode| #[trigger] flags@[code_rank(c)] == evaluated_code(c, *rules, *activity, coverage, integrity, *policy) by {
            lemma_code_rank_roundtrip(c);
        }
    }
    (flags, htd)
}

/// Recommend a candidate from its rules, activity and coverage.
///
/// Where a safety policy is given, its verdict depends on the filesystem; the decision is the
/// one for an allowed path, or the safety exclusion.
pub fn recommend_candidate(
    path: &str,
    rules: &RuleResolution,
    activity: &ActivityEvidence,
    coverage: CandidateCoverage,
    context: &RecommendationContext,
) -> (res: RecommendationDecision)
    ensures
        decides(res, is_scan_root(context.scan_roots@, path@), true, *rules, *activity, coverage, context.integrity, *context.policy)
        || (context.safety_policy is Some && decides(res, is_scan_root(context.scan_roots@, path@), false, *rules, *activity, coverage, context.integrity, *context.policy)),
{
    let allowed = match context.safety_policy {
        Some(safety) => safety.allows_candidate(path),
        None => true,
    };
    let is_root = path_is_scan_root(context.scan_roots, path);
    recommend_with_verdict(is_root, allowed, rules, activity, coverage, context.integrity, context.policy)
}

/// Recommend a candidate whose scan-root status and safety verdict are known.
pub fn recommend_with_verdict(
    is_root: bool,
    allowed: bool,
    rules: &RuleResolution,
    activity: &ActivityEvidence,
    coverage: CandidateCoverage,
    integrity: ReportIntegrity,
    policy: &RecommendationPolicy,
) -> (res: RecommendationDecision)
    ensures
        decides(res, is_root, allowed, *rules, *activity, coverage, integrity, *policy),
{
    let ghost present = |c: DecisionCode| decision_code(c, is_root, allowed, *rules, *activity, coverage, integrity, *policy);
    if is_root || !allowed {
        let flags = flags_of([
            false, false, false, false, false, false, false, false,
            false, false, false, false, false, false, is_root, !is_root,
        ]);
        let res = decision(RecommendationState::Excluded, &flags);
        proof {
            assert forall|c: DecisionCode| #[trigger] flags@[code_rank(c)] == present(c) by {
                lemma_code_rank_roundtrip(c);
            }
            assert((|c: DecisionCode| flags@[code_rank(c)]) =~= present);
        }
        return res;
    }
    let (flags, htd) = evaluation_flags(rules, activity, coverage, integrity, policy);
    let blocked = flags[11] || flags[4] || flags[5] || flags[6] || flags[7] || flags[8] || flags[9] || flags[10];
    let age_gate = policy.preselect_after_days == 0 || flags[0];
    proof {
        assert forall|c: DecisionCode| #[trigger] flags@[code_rank(c)] == present(c) by {}
        assert((|c: DecisionCode| flags@[code_rank(c)]) =~= present);
        assert(flags@[0] == flags@[code_rank(DecisionCode::AgeThresholdMet)]);
        let blockers = seq![DecisionCode::UnresolvedRuleConflict, DecisionCode::ConfidenceBelowHigh,
            DecisionCode::UntrustedRule, DecisionCode::TimestampMissing, DecisionCode::TimestampAfterAsOf,
            DecisionCode::ScanReportPartial, DecisionCode::CandidateCoveragePartial, DecisionCode::CandidateCoverageUnknown];
        assert(flags@[11] == flags@[code_rank(blockers[0])]);
        assert(flags@[4] == flags@[code_rank(blockers[1])]);
        assert(flags@[5] == flags@[code_rank(blockers[2])]);
        assert(flags@[6] == flags@[code_rank(blockers[3])]);
        assert(flags@[7] == flags@[code_rank(blockers[4])]);
        assert(flags@[8] == flags@[code_rank(blockers[5])]);
        assert(flags@[9] == flags@[code_rank(blockers[6])]);
        assert(flags@[10] == flags@[code_rank(blockers[7])]);
        if !blocked {
            assert forall|c: DecisionCode| is_blocker(c) implies !evaluated_code(c, *rules, *activity, coverage, integrity, *policy) by {
                assert(flags@[code_rank(c)] == evaluated_code(c, *rules, *activity, coverage, integrity, *policy));
            }
        }
    }
    let state = if htd && age_gate && !blocked {
        RecommendationState::Preselected
    } else if blocked {
        RecommendationState::Review
    } else {
        RecommendationState::Available
    };
    decision(state, &flags)
}

} // verus!
