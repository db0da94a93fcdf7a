//! Candidates that cover the same filesystem tree.
use vstd::prelude::*;

use crate::evidence::{
    CandidateEvidence, CandidateId, DecisionCode, OverlapEvidence, RecommendationDecision,
    RecommendationState,
};
use crate::model::{confidence_rank, confidence_rank_exec, trust_rank, trust_rank_exec};
use crate::path::{depth, path_depth, path_le, path_le_exec, path_starts_with, same_path, paths_equal, starts_with};
use crate::recommend::{code_rank, code_rank_exec, is_blocker, lists_codes, primary_rule_index, primary_rule_of};

verus! {

/// Two different paths overlap when one lies below the other.
pub open spec fn paths_overlap(left: Seq<char>, right: Seq<char>) -> bool {
    !same_path(left, right) && (path_starts_with(left, right) || path_starts_with(right, left))
}

/// Whether two candidate paths overlap.
pub fn candidates_overlap(left: &str, right: &str) -> (res: bool)
    ensures
        res == paths_overlap(left@, right@),
{
    !paths_equal(left, right) && (starts_with(left, right) || starts_with(right, left))
}

/// Whether a decision carries a code that blocks preselection.
pub open spec fn decision_has_blocker(d: RecommendationDecision) -> bool {
    exists|i: int| 0 <= i < d.codes@.len() && is_blocker(#[trigger] d.codes@[i])
}

/// Whether a decision carries a code that blocks preselection.
pub fn recommendation_has_preselection_blocker(decision: &RecommendationDecision) -> (res: bool)
    ensures
        res == decision_has_blocker(*decision),
{
    let mut i: usize = 0;
    while i < decision.codes.len()
        invariant
            i <= decision.codes@.len(),
            forall|j: int| 0 <= j < i ==> !is_blocker(#[trigger] decision.codes@[j]),
        decreases decision.codes.len() - i,
    {
        let c = decision.codes[i];
        if c == DecisionCode::UnresolvedRuleConflict || c == DecisionCode::ConfidenceBelowHigh
            || c == DecisionCode::UntrustedRule || c == DecisionCode::TimestampMissing
            || c == DecisionCode::TimestampAfterAsOf || c == DecisionCode::ScanReportPartial
            || c == DecisionCode::CandidateCoveragePartial
            || c == DecisionCode::CandidateCoverageUnknown {
            return true;
        }
        i = i + 1;
    }
    false
}

/// The priority of a candidate in an overlap cluster; smaller is preferred. Included
/// candidates come first, then preselected ones, then by higher trust and higher confidence of
/// the primary rule (zero where there is none).
pub open spec fn candidate_priority_spec(c: CandidateEvidence) -> (int, int, int, int) {
    let primary = primary_rule_of(c.rules);
    let excluded = if c.recommendation.state == RecommendationState::Excluded { 1int } else { 0 };
    let preselected = if c.recommendation.initial_selected { 1int } else { 0 };
    let trust = match primary { Some(r) => trust_rank(r.trust), None => 0 };
    let confidence = match primary { Some(r) => confidence_rank(r.confidence), None => 0 };
    (excluded, 255 - preselected, 255 - trust, 255 - confidence)
}

/// The priority of a candidate in an overlap cluster.
pub fn candidate_priority(candidate: &CandidateEvidence) -> (res: (u8, u8, u8, u8))
    ensures
        (res.0 as int, res.1 as int, res.2 as int, res.3 as int) == candidate_priority_spec(*candidate),
{
    let excluded: u8 = if candidate.recommendation.state == RecommendationState::Excluded { 1 } else { 0 };
    let preselected: u8 = if candidate.recommendation.initial_selected { 1 } else { 0 };
    let (trust, confidence) = match primary_rule_index(&candidate.rules) {
        Some(index) => {
            let rule = &candidate.rules.matched[index];
            (trust_rank_exec(rule.trust), confidence_rank_exec(rule.confidence))
        },
        None => (0, 0),
    };
    (excluded, 255 - preselected, 255 - trust, 255 - confidence)
}

/// Lexicographic order on priorities.
pub open spec fn priority_lt(a: (int, int, int, int), b: (int, int, int, int)) -> bool {
    a.0 < b.0 || (a.0 == b.0 && (a.1 < b.1 || (a.1 == b.1 && (a.2 < b.2 || (a.2 == b.2 && a.3 < b.3)))))
}

/// Candidate `a` is strictly preferred to `b` as the primary of a cluster: lower priority,
/// then fewer path components, then earlier path.
pub open spec fn preferred(a: CandidateEvidence, b: CandidateEvidence) -> bool {
    let pa = candidate_priority_spec(a);
    let pb = candidate_priority_spec(b);
    priority_lt(pa, pb) || (pa == pb && (depth(a.local_path@) < depth(b.local_path@) || (depth(
        a.local_path@,
    ) == depth(b.local_path@) && path_le(a.local_path@, b.local_path@) && !path_le(
        b.local_path@,
        a.local_path@,
    ))))
}

fn preferred_exec(a: &CandidateEvidence, b: &CandidateEvidence) -> (res: bool)
    ensures
        res == preferred(*a, *b),
{
    let pa = candidate_priority(a);
    let pb = candidate_priority(b);
    if pa.0 != pb.0 {
        return pa.0 < pb.0;
    }
    if pa.1 != pb.1 {
        return pa.1 < pb.1;
    }
    if pa.2 != pb.2 {
        return pa.2 < pb.2;
    }
    if pa.3 != pb.3 {
        return pa.3 < pb.3;
    }
    let da = path_depth(a.local_path.as_str());
    let db = path_depth(b.local_path.as_str());
    if da != db {
        return da < db;
    }
    path_le_exec(a.local_path.as_str(), b.local_path.as_str()) && !path_le_exec(
        b.local_path.as_str(),
        a.local_path.as_str(),
    )
}

/// The first index of `cluster` whose candidate no other member is preferred to.
pub fn choose_primary(cluster: &Vec<usize>, candidates: &Vec<CandidateEvidence>) -> (res: usize)
    requires
        cluster@.len() > 0,
        forall|i: int| 0 <= i < cluster@.len() ==> #[trigger] cluster@[i] < candidates@.len(),
    ensures
        cluster@.contains(res),
        forall|i: int|
            0 <= i < cluster@.len() ==> !preferred(
                candidates@[#[trigger] cluster@[i] as int],
                candidates@[res as int],
            ),
{
    let mut best = cluster[0];
    let mut k: usize = 1;
    assert(cluster@.subrange(0, 1)[0] == best);
    while k < cluster.len()
        invariant
            1 <= k <= cluster@.len(),
            forall|i: int| 0 <= i < cluster@.len() ==> #[trigger] cluster@[i] < candidates@.len(),
            cluster@.subrange(0, k as int).contains(best),
            forall|i: int|
                0 <= i < k ==> !preferred(candidates@[#[trigger] cluster@[i] as int], candidates@[best as int]),
        decreases cluster.len() - k,
    {
        if preferred_exec(&candidates[cluster[k]], &candidates[best]) {
            proof {
                lemma_preferred_strict_order(candidates@, cluster@, k as int, best);
            }
            best = cluster[k];
        }
        proof {
            let sub = cluster@.subrange(0, k + 1);
            if cluster@.subrange(0, k as int).contains(best) {
                let j = choose|j: int| 0 <= j < k && cluster@.subrange(0, k as int)[j] == best;
                assert(sub[j] == best);
            } else {
                assert(sub[k as int] == best);
            }
        }
        k = k + 1;
    }
    proof {
        assert(cluster@.subrange(0, cluster@.len() as int) =~= cluster@);
    }
    best
}

/// Preference is a strict order: irreflexive and transitive.
proof fn lemma_preferred_strict_order(candidates: Seq<CandidateEvidence>, cluster: Seq<usize>, k: int, best: usize)
    requires
        0 <= k < cluster.len(),
        forall|i: int| 0 <= i < cluster.len() ==> #[trigger] cluster[i] < candidates.len(),
        best < candidates.len(),
        preferred(candidates[cluster[k] as int], candidates[best as int]),
        forall|i: int| 0 <= i < k ==> !preferred(candidates[#[trigger] cluster[i] as int], candidates[best as int]),
    ensures
        forall|i: int| 0 <= i < k + 1 ==> !preferred(candidates[#[trigger] cluster[i] as int], candidates[cluster[k] as int]),
{
    let n = candidates[cluster[k] as int];
    let b = candidates[best as int];
    assert forall|i: int| 0 <= i < k + 1 implies !preferred(candidates[#[trigger] cluster[i] as int], n) by {
        let x = candidates[cluster[i] as int];
        if i < k && preferred(x, n) {
            lemma_preferred_transitive(x, n, b);
        }
    }
}

proof fn lemma_preferred_transitive(a: CandidateEvidence, b: CandidateEvidence, c: CandidateEvidence)
    requires
        preferred(a, b),
        preferred(b, c),
    ensures
        preferred(a, c),
{
    let (pa, pb, pc) = (a.local_path@, b.local_path@, c.local_path@);
    if path_le(pa, pb) && path_le(pb, pc) {
        crate::path::lemma_comps_le_transitive(
            crate::path::components(pa),
            crate::path::components(pb),
            crate::path::components(pc),
        );
    }
    if path_le(pc, pa) && path_le(pa, pb) {
        crate::path::lemma_comps_le_transitive(
            crate::path::components(pc),
            crate::path::components(pa),
            crate::path::components(pb),
        );
    }
    if path_le(pb, pc) && path_le(pc, pa) {
        crate::path::lemma_comps_le_transitive(
            crate::path::components(pb),
            crate::path::components(pc),
            crate::path::components(pa),
        );
    }
}

/// `codes` with `c` added, keeping the listing in declared order without repeats.
pub fn add_code(codes: &mut Vec<DecisionCode>, c: DecisionCode)
    requires
        forall|i: int, j: int| 0 <= i < j < old(codes)@.len() ==> code_rank(#[trigger] old(codes)@[i]) < code_rank(#[trigger] old(codes)@[j]),
    ensures
        forall|i: int, j: int| 0 <= i < j < final(codes)@.len() ==> code_rank(#[trigger] final(codes)@[i]) < code_rank(#[trigger] final(codes)@[j]),
        forall|d: DecisionCode| final(codes)@.contains(d) <==> (old(codes)@.contains(d) || d == c),
{
    let r = code_rank_exec(c);
    let mut k: usize = 0;
    while k < codes.len() && code_rank_exec(codes[k]) < r
        invariant
            k <= codes@.len(),
            forall|i: int| 0 <= i < k ==> code_rank(#[trigger] codes@[i]) < r,
        decreases codes.len() - k,
    {
        k = k + 1;
    }
    if k < codes.len() && code_rank_exec(codes[k]) == r {
        proof {
            assert(codes@[k as int] == c) by {
                crate::recommend::lemma_code_rank_injective(codes@[k as int], c);
            }
        }
        return;
    }
    let ghost before = codes@;
    codes.insert(k, c);
    proof {
        before.insert_ensures(k as int, c);
        assert forall|d: DecisionCode| codes@.contains(d) <==> (before.contains(d) || d == c) by {
            if codes@.contains(d) {
                let j = choose|j: int| 0 <= j < codes@.len() && codes@[j] == d;
                if j < k {
                    assert(before[j] == d);
                } else if j > k {
                    assert(before[j - 1] == d);
                }
            }
            if before.contains(d) {
                let j = choose|j: int| 0 <= j < before.len() && before[j] == d;
                if j < k {
                    assert(codes@[j] == d);
                } else {
                    assert(codes@[j + 1] == d);
                }
            }
            if d == c {
                assert(codes@[k as int] == d);
            }
        }
        assert forall|i: int, j: int| 0 <= i < j < codes@.len() implies code_rank(#[trigger] codes@[i]) < code_rank(#[trigger] codes@[j]) by {
            if k < before.len() {
                assert(code_rank(before[k as int]) > r);
            }
            if i < k && j == k {
            } else if i < k && j > k {
                assert(codes@[j] == before[j - 1]);
                if j - 1 > k {
                    assert(code_rank(before[k as int]) < code_rank(before[j - 1]));
                }
            } else if i == k && j > k {
                assert(codes@[j] == before[j - 1]);
                if j - 1 > k {
                    assert(code_rank(before[k as int]) < code_rank(before[j - 1]));
                }
            }
        }
    }
}

/// The facts of a candidate that overlap resolution leaves alone.
pub open spec fn same_facts(a: CandidateEvidence, b: CandidateEvidence) -> bool {
    &&& a.id == b.id
    &&& a.local_path == b.local_path
    &&& a.kind == b.kind
    &&& a.size_bytes == b.size_bytes
    &&& a.activity == b.activity
    &&& a.coverage == b.coverage
    &&& a.rules == b.rules
    &&& a.rollback_method == b.rollback_method
}

/// A decision is well formed when it is initially selected exactly when it is preselected,
/// and it lists its codes once each in declared order.
pub open spec fn well_formed_decision(d: RecommendationDecision) -> bool {
    &&& d.initial_selected == (d.state == RecommendationState::Preselected)
    &&& forall|i: int, j: int| 0 <= i < j < d.codes@.len() ==> code_rank(#[trigger] d.codes@[i]) < code_rank(#[trigger] d.codes@[j])
}

/// How overlap resolution may change one decision: it stays, or it becomes suppressed with
/// `OverlapSuppressed` added, or it needs review with `CoveredDescendantHasBlocker` added (and,
/// after a later cluster, possibly both). An excluded decision never changes.
pub open spec fn overlap_step_allowed(before: RecommendationDecision, after: RecommendationDecision) -> bool {
    &&& well_formed_decision(after)
    &&& before.state == RecommendationState::Excluded ==> after == before
    &&& (after.state == before.state || after.state == RecommendationState::Suppressed
        || after.state == RecommendationState::Review)
    &&& (!before.initial_selected ==> !after.initial_selected)
    &&& after.state != before.state ==> !after.initial_selected
    &&& forall|c: DecisionCode| #[trigger] after.codes@.contains(c) <==> (before.codes@.contains(c) || (
        after.codes@.contains(c) && (c == DecisionCode::OverlapSuppressed
            || c == DecisionCode::CoveredDescendantHasBlocker)))
}

proof fn lemma_overlap_step_transitive(a: RecommendationDecision, b: RecommendationDecision, c: RecommendationDecision)
    requires
        overlap_step_allowed(a, b),
        overlap_step_allowed(b, c),
    ensures
        overlap_step_allowed(a, c),
{
}

/// Every decision in `v` is well formed.
pub open spec fn all_well_formed(v: Seq<CandidateEvidence>) -> bool {
    forall|i: int| 0 <= i < v.len() ==> well_formed_decision(#[trigger] v[i].recommendation)
}

/// No two overlapping candidates of `v` are both initially selected.
pub open spec fn no_overlapping_selection(v: Seq<CandidateEvidence>) -> bool {
    forall|i: int, j: int|
        0 <= i < v.len() && 0 <= j < v.len() && i != j && paths_overlap(
            (#[trigger] v[i]).local_path@,
            (#[trigger] v[j]).local_path@,
        ) ==> !(v[i].recommendation.initial_selected && v[j].recommendation.initial_selected)
}

proof fn lemma_overlap_symmetric(a: Seq<char>, b: Seq<char>)
    ensures
        paths_overlap(a, b) == paths_overlap(b, a),
{
}

/// The candidate at `index` with its overlap evidence replaced.
fn set_overlap(candidates: &mut Vec<CandidateEvidence>, index: usize, overlap: OverlapEvidence)
    requires
        index < old(candidates)@.len(),
    ensures
        final(candidates)@.len() == old(candidates)@.len(),
        forall|i: int| 0 <= i < final(candidates)@.len() && i != index ==> #[trigger] final(candidates)@[i] == old(candidates)@[i],
        same_facts(final(candidates)@[index as int], old(candidates)@[index as int]),
        final(candidates)@[index as int].recommendation == old(candidates)@[index as int].recommendation,
        final(candidates)@[index as int].overlap == overlap,
{
    let mut candidate = candidates.remove(index);
    candidate.overlap = overlap;
    candidates.insert(index, candidate);
}

/// The candidate at `index` with `code` added, its state set to `state` and not initially selected.
fn demote(candidates: &mut Vec<CandidateEvidence>, index: usize, code: DecisionCode, state: RecommendationState)
    requires
        index < old(candidates)@.len(),
        state != RecommendationState::Preselected,
        well_formed_decision(old(candidates)@[index as int].recommendation),
    ensures
        final(candidates)@.len() == old(candidates)@.len(),
        forall|i: int| 0 <= i < final(candidates)@.len() && i != index ==> #[trigger] final(candidates)@[i] == old(candidates)@[i],
        same_facts(final(candidates)@[index as int], old(candidates)@[index as int]),
        final(candidates)@[index as int].overlap == old(candidates)@[index as int].overlap,
        final(candidates)@[index as int].recommendation.state == state,
        !final(candidates)@[index as int].recommendation.initial_selected,
        well_formed_decision(final(candidates)@[index as int].recommendation),
        forall|c: DecisionCode| #[trigger] final(candidates)@[index as int].recommendation.codes@.contains(c)
            <==> (old(candidates)@[index as int].recommendation.codes@.contains(c) || c == code),
{
    let mut candidate = candidates.remove(index);
    add_code(&mut candidate.recommendation.codes, code);
    candidate.recommendation.state = state;
    candidate.recommendation.initial_selected = false;
    candidates.insert(index, candidate);
}

/// The cluster that `left` leads among the candidates before `right`: `left` and, in order,
/// each later candidate whose path overlaps it.
pub open spec fn cluster_upto(v: Seq<CandidateEvidence>, left: int, right: int) -> Seq<usize>
    decreases right - left,
{
    if right <= left + 1 {
        seq![left as usize]
    } else {
        let before = cluster_upto(v, left, right - 1);
        if paths_overlap(v[left].local_path@, v[right - 1].local_path@) {
            before.push((right - 1) as usize)
        } else {
            before
        }
    }
}

/// The cluster that `left` leads.
pub open spec fn cluster_of(v: Seq<CandidateEvidence>, left: int) -> Seq<usize> {
    cluster_upto(v, left, v.len() as int)
}

/// The identifiers of the members of `cluster` other than `p`, in cluster order.
pub open spec fn alternative_ids(v: Seq<CandidateEvidence>, cluster: Seq<usize>, p: usize) -> Seq<Seq<char>>
    decreases cluster.len(),
{
    if cluster.len() == 0 {
        Seq::empty()
    } else {
        let rest = alternative_ids(v, cluster.drop_last(), p);
        if cluster.last() == p {
            rest
        } else {
            rest.push(v[cluster.last() as int].id@)
        }
    }
}

/// Member `m` lies below `p`, is not excluded and carries a preselection blocker.
pub open spec fn blocks_primary(v: Seq<CandidateEvidence>, m: usize, p: usize) -> bool {
    &&& m != p
    &&& path_starts_with(v[m as int].local_path@, v[p as int].local_path@)
    &&& v[m as int].recommendation.state != RecommendationState::Excluded
    &&& decision_has_blocker(v[m as int].recommendation)
}

/// Some member of `cluster` blocks its primary `p`.
pub open spec fn covers_blocked_descendant(v: Seq<CandidateEvidence>, cluster: Seq<usize>, p: usize) -> bool {
    exists|m: int| 0 <= m < cluster.len() && #[trigger] blocks_primary(v, cluster[m], p)
}

/// `after` is `before` with `code` added, in state `state` and not initially selected.
pub open spec fn demoted(
    before: RecommendationDecision,
    after: RecommendationDecision,
    code: DecisionCode,
    state: RecommendationState,
) -> bool {
    &&& after.state == state
    &&& !after.initial_selected
    &&& well_formed_decision(after)
    &&& forall|c: DecisionCode| #[trigger] after.codes@.contains(c) <==> (before.codes@.contains(c) || c == code)
}

/// `after` is the settled primary `p` of `cluster`: it lists the other members as its
/// alternatives, and needs review when a covered descendant blocks it (unless it is excluded).
pub open spec fn primary_settled(before: Seq<CandidateEvidence>, cluster: Seq<usize>, p: usize, after: CandidateEvidence) -> bool {
    let b = before[p as int];
    &&& same_facts(after, b)
    &&& after.overlap matches OverlapEvidence::Primary { alternatives }
        && alternatives@.map_values(|a: CandidateId| a@) == alternative_ids(before, cluster, p)
    &&& if covers_blocked_descendant(before, cluster, p) && b.recommendation.state != RecommendationState::Excluded {
        demoted(b.recommendation, after.recommendation, DecisionCode::CoveredDescendantHasBlocker, RecommendationState::Review)
    } else {
        after.recommendation == b.recommendation
    }
}

/// `after` is the member `b` settled under `primary`: it records the primary, and unless it is
/// excluded it is suppressed with `OverlapSuppressed`.
pub open spec fn member_settled(b: CandidateEvidence, primary: CandidateEvidence, after: CandidateEvidence) -> bool {
    &&& same_facts(after, b)
    &&& after.overlap matches OverlapEvidence::Suppressed { by } && by@ == primary.id@
    &&& if b.recommendation.state == RecommendationState::Excluded {
        after.recommendation == b.recommendation
    } else {
        demoted(b.recommendation, after.recommendation, DecisionCode::OverlapSuppressed, RecommendationState::Suppressed)
    }
}

/// Settling `cluster` under the primary `p`, the member that no other member is preferred to,
/// takes `before` (with suppression marks `marks_before`) to `after` (with `marks_after`):
/// the members other than `p` are settled and marked, and nothing outside the cluster changes.
pub open spec fn cluster_settled(
    before: Seq<CandidateEvidence>,
    marks_before: Seq<bool>,
    cluster: Seq<usize>,
    p: usize,
    after: Seq<CandidateEvidence>,
    marks_after: Seq<bool>,
) -> bool {
    &&& after.len() == before.len()
    &&& marks_after.len() == marks_before.len()
    &&& cluster.contains(p)
    &&& forall|m: int| 0 <= m < cluster.len() ==> !preferred(before[#[trigger] cluster[m] as int], before[p as int])
    &&& primary_settled(before, cluster, p, after[p as int])
    &&& marks_after[p as int] == marks_before[p as int]
    &&& forall|m: int| 0 <= m < cluster.len() && #[trigger] cluster[m] != p
        ==> member_settled(before[cluster[m] as int], before[p as int], after[cluster[m] as int]) && marks_after[cluster[m] as int]
    &&& forall|i: int| 0 <= i < before.len() && !cluster.contains(i as usize)
        ==> #[trigger] after[i] == before[i] && marks_after[i] == marks_before[i]
}

/// Step `left` of overlap resolution: a candidate already marked as suppressed, or one that
/// overlaps no later candidate, leaves everything as it is; otherwise its cluster is settled.
pub open spec fn resolution_step(
    before: Seq<CandidateEvidence>,
    marks_before: Seq<bool>,
    left: int,
    after: Seq<CandidateEvidence>,
    marks_after: Seq<bool>,
) -> bool {
    let cluster = cluster_of(before, left);
    if marks_before[left] || cluster.len() == 1 {
        after == before && marks_after == marks_before
    } else {
        exists|p: usize| cluster_settled(before, marks_before, cluster, p, after, marks_after)
    }
}

/// Step `l` of `trace` and `marks` is a resolution step.
pub open spec fn trace_step(trace: Seq<Seq<CandidateEvidence>>, marks: Seq<Seq<bool>>, l: int) -> bool {
    resolution_step(trace[l], marks[l], l, trace[l + 1], marks[l + 1])
}

/// `after` comes from `before` by taking each candidate in turn as `left`, from the first,
/// with no candidate marked at the start.
pub open spec fn overlaps_resolved(before: Seq<CandidateEvidence>, after: Seq<CandidateEvidence>) -> bool {
    exists|trace: Seq<Seq<CandidateEvidence>>, marks: Seq<Seq<bool>>|
        #![trigger trace.len(), marks.len()]
        trace.len() == before.len() + 1 && marks.len() == before.len() + 1
        && trace[0] == before && marks[0] == Seq::new(before.len(), |i: int| false)
        && trace[before.len() as int] == after
        && forall|l: int| 0 <= l < before.len() ==> #[trigger] trace_step(trace, marks, l)
}

/// A candidate that did not come in suppressed, leaves suppressed and is not excluded: it is in
/// the suppressed state, not initially selected, and carries `OverlapSuppressed`.
pub open spec fn suppressed_consistent(before: CandidateEvidence, after: CandidateEvidence) -> bool {
    !(before.overlap is Suppressed) && after.overlap is Suppressed
        && after.recommendation.state != RecommendationState::Excluded
        ==> after.recommendation.state == RecommendationState::Suppressed
            && !after.recommendation.initial_selected
            && after.recommendation.codes@.contains(DecisionCode::OverlapSuppressed)
}

/// Settle one cluster: choose its primary, record the alternatives and the suppressions.
fn settle_cluster(candidates: &mut Vec<CandidateEvidence>, suppressed: &mut Vec<bool>, cluster: &Vec<usize>) -> (primary: usize)
    requires
        cluster@.len() > 1,
        old(suppressed)@.len() == old(candidates)@.len(),
        forall|m: int| 0 <= m < cluster@.len() ==> #[trigger] cluster@[m] < old(candidates)@.len(),
        forall|m: int, q: int| 0 <= m < q < cluster@.len() ==> #[trigger] cluster@[m] < #[trigger] cluster@[q],
        all_well_formed(old(candidates)@),
    ensures
        cluster_settled(old(candidates)@, old(suppressed)@, cluster@, primary, final(candidates)@, final(suppressed)@),
        all_well_formed(final(candidates)@),
        forall|i: int| 0 <= i < final(candidates)@.len() ==> overlap_step_allowed(old(candidates)@[i].recommendation, #[trigger] final(candidates)@[i].recommendation),
        forall|i: int| 0 <= i < final(candidates)@.len() ==> (#[trigger] final(candidates)@[i].recommendation.initial_selected ==> old(candidates)@[i].recommendation.initial_selected),
        forall|m: int| 0 <= m < cluster@.len() && #[trigger] cluster@[m] != primary ==> !final(candidates)@[cluster@[m] as int].recommendation.initial_selected,
        forall|i: int| 0 <= i < final(candidates)@.len() && #[trigger] final(suppressed)@[i] && !old(suppressed)@[i] ==> !final(candidates)@[i].recommendation.initial_selected,
{
    let ghost before = candidates@;
    let ghost marks0 = suppressed@;
    let n = candidates.len();
    let primary = choose_primary(cluster, candidates);
    let mut alternatives: Vec<CandidateId> = Vec::new();
    let mut descendant_has_blocker = false;
    let mut k: usize = 0;
    while k < cluster.len()
        invariant
            candidates@ == before,
            n == before.len(),
            primary < n,
            0 <= k <= cluster@.len(),
            forall|m: int| 0 <= m < cluster@.len() ==> #[trigger] cluster@[m] < n,
            alternatives@.map_values(|a: CandidateId| a@) == alternative_ids(before, cluster@.take(k as int), primary),
            descendant_has_blocker == exists|m: int| 0 <= m < k && #[trigger] blocks_primary(before, cluster@[m], primary),
        decreases cluster.len() - k,
    {
        proof {
            assert(cluster@.take(k + 1).drop_last() =~= cluster@.take(k as int));
            assert(cluster@.take(k + 1).last() == cluster@[k as int]);
        }
        let index = cluster[k];
        if index != primary {
            let ghost prev = alternatives@;
            alternatives.push(candidates[index].id.clone());
            proof {
                assert(alternatives@.map_values(|a: CandidateId| a@) =~= prev.map_values(|a: CandidateId| a@).push(before[index as int].id@));
            }
            if starts_with(candidates[index].local_path.as_str(), candidates[primary].local_path.as_str())
                && candidates[index].recommendation.state != RecommendationState::Excluded
                && recommendation_has_preselection_blocker(&candidates[index].recommendation) {
                descendant_has_blocker = true;
                assert(blocks_primary(before, cluster@[k as int], primary));
            }
        }
        k = k + 1;
    }
    proof {
        assert(cluster@.take(cluster@.len() as int) =~= cluster@);
    }
    let primary_id = candidates[primary].id.clone();
    set_overlap(candidates, primary, OverlapEvidence::Primary { alternatives });
    if descendant_has_blocker && candidates[primary].recommendation.state != RecommendationState::Excluded {
        demote(candidates, primary, DecisionCode::CoveredDescendantHasBlocker, RecommendationState::Review);
    }
    let ghost after_primary = candidates@;
    proof {
        assert(primary_settled(before, cluster@, primary, after_primary[primary as int]));
        assert(overlap_step_allowed(before[primary as int].recommendation, after_primary[primary as int].recommendation));
    }
    let mut k: usize = 0;
    while k < cluster.len()
        invariant
            n == candidates@.len(),
            n == before.len(),
            suppressed@.len() == n,
            marks0.len() == n,
            primary < n,
            cluster@.contains(primary),
            primary_id@ == before[primary as int].id@,
            forall|m: int| 0 <= m < cluster@.len() ==> #[trigger] cluster@[m] < n,
            forall|m: int, q: int| 0 <= m < q < cluster@.len() ==> #[trigger] cluster@[m] < #[trigger] cluster@[q],
            0 <= k <= cluster@.len(),
            all_well_formed(before),
            all_well_formed(after_primary),
            forall|i: int| 0 <= i < n && i != primary ==> #[trigger] after_primary[i] == before[i],
            all_well_formed(candidates@),
            forall|i: int| 0 <= i < n ==> overlap_step_allowed(before[i].recommendation, #[trigger] candidates@[i].recommendation),
            forall|i: int| 0 <= i < n ==> (#[trigger] candidates@[i].recommendation.initial_selected ==> before[i].recommendation.initial_selected),
            forall|m: int| 0 <= m < k && #[trigger] cluster@[m] != primary ==> member_settled(before[cluster@[m] as int], before[primary as int], candidates@[cluster@[m] as int])
                && suppressed@[cluster@[m] as int],
            forall|i: int| 0 <= i < n && (i == primary || !cluster@.take(k as int).contains(i as usize))
                ==> #[trigger] candidates@[i] == after_primary[i] && suppressed@[i] == marks0[i],
        decreases cluster.len() - k,
    {
        let index = cluster[k];
        let ghost start = candidates@;
        let ghost smarks = suppressed@;
        proof {
            assert(cluster@.take(k + 1) =~= cluster@.take(k as int).push(index));
            if cluster@.take(k as int).contains(index) {
                let m = choose|m: int| 0 <= m < k && cluster@.take(k as int)[m] == index;
                assert(cluster@[m] < cluster@[k as int]);
            }
        }
        if index != primary {
            let ghost prior = candidates@;
            set_overlap(candidates, index, OverlapEvidence::Suppressed { by: primary_id.clone() });
            if candidates[index].recommendation.state != RecommendationState::Excluded {
                demote(candidates, index, DecisionCode::OverlapSuppressed, RecommendationState::Suppressed);
            }
            suppressed.set(index, true);
            proof {
                assert(prior[index as int] == before[index as int]);
                assert(member_settled(before[index as int], before[primary as int], candidates@[index as int]));
                lemma_overlap_step_transitive(before[index as int].recommendation, prior[index as int].recommendation, candidates@[index as int].recommendation);
                assert forall|m: int| 0 <= m < k + 1 && #[trigger] cluster@[m] != primary implies member_settled(before[cluster@[m] as int], before[primary as int], candidates@[cluster@[m] as int])
                    && suppressed@[cluster@[m] as int] by {
                    if m < k {
                        assert(cluster@[m] < cluster@[k as int]);
                    }
                }
            }
        }
        proof {
            assert forall|i: int| 0 <= i < n && (i == primary || !cluster@.take(k + 1).contains(i as usize))
                implies #[trigger] candidates@[i] == after_primary[i] && suppressed@[i] == marks0[i] by {
                assert(start[i] == after_primary[i] && smarks[i] == marks0[i]);
                if i != primary {
                    assert(cluster@.take(k + 1)[k as int] == index);
                    assert(i != index);
                }
            }
        }
        k = k + 1;
    }
    proof {
        assert(cluster@.take(cluster@.len() as int) =~= cluster@);
        let after = candidates@;
        assert forall|i: int| 0 <= i < before.len() && !cluster@.contains(i as usize)
            implies #[trigger] after[i] == before[i] && suppressed@[i] == marks0[i] by {
            assert(i != primary);
            assert(!cluster@.take(k as int).contains(i as usize));
            assert(candidates@[i] == after_primary[i]);
            assert(suppressed@[i] == marks0[i]);
            assert(after_primary[i] == before[i]);
        }
        assert forall|m: int| 0 <= m < cluster@.len() && #[trigger] cluster@[m] != primary
            implies !after[cluster@[m] as int].recommendation.initial_selected by {
            let b = before[cluster@[m] as int];
            if b.recommendation.state == RecommendationState::Excluded {
                assert(well_formed_decision(b.recommendation));
            }
        }
        assert forall|i: int| 0 <= i < after.len() && #[trigger] suppressed@[i] && !marks0[i]
            implies !after[i].recommendation.initial_selected by {
            if !cluster@.contains(i as usize) || i == primary {
            } else {
                let m = choose|m: int| 0 <= m < cluster@.len() && cluster@[m] == i as usize;
                assert(cluster@[m] != primary);
            }
        }
    }
    primary
}

proof fn lemma_trace_push(
    trace: Seq<Seq<CandidateEvidence>>,
    marks: Seq<Seq<bool>>,
    left: int,
    after: Seq<CandidateEvidence>,
    marks_after: Seq<bool>,
)
    requires
        0 <= left,
        trace.len() == left + 1,
        marks.len() == left + 1,
        forall|l: int| 0 <= l < left ==> #[trigger] trace_step(trace, marks, l),
        resolution_step(trace[left], marks[left], left, after, marks_after),
    ensures
        forall|l: int| 0 <= l < left + 1 ==> #[trigger] trace_step(trace.push(after), marks.push(marks_after), l),
{
    let tp = trace.push(after);
    let mp = marks.push(marks_after);
    assert forall|l: int| 0 <= l < left + 1 implies #[trigger] trace_step(tp, mp, l) by {
        assert(tp[l] == trace[l] && mp[l] == marks[l]);
        if l < left {
            assert(trace_step(trace, marks, l));
            assert(tp[l + 1] == trace[l + 1] && mp[l + 1] == marks[l + 1]);
        } else {
            assert(tp[l + 1] == after && mp[l + 1] == marks_after);
        }
    }
}

proof fn lemma_cluster_upto_len(v: Seq<CandidateEvidence>, left: int, right: int)
    requires
        left < right,
    ensures
        cluster_upto(v, left, right).len() >= 1,
        cluster_upto(v, left, right)[0] == left as usize,
    decreases right - left,
{
    if right > left + 1 {
        lemma_cluster_upto_len(v, left, right - 1);
    }
}

/// Resolve candidates that cover the same tree.
///
/// Each candidate in turn that has not been suppressed forms a cluster with the later
/// candidates that overlap it. The preferred member becomes the cluster's primary and lists
/// the others as alternatives; it needs review when a covered descendant that is not excluded
/// carries a preselection blocker. Every other member records the primary, and unless it is
/// excluded it is suppressed. As a result no two overlapping candidates stay selected.
pub fn resolve_overlaps(candidates: &mut Vec<CandidateEvidence>)
    requires
        all_well_formed(old(candidates)@),
    ensures
        overlaps_resolved(old(candidates)@, final(candidates)@),
        final(candidates)@.len() == old(candidates)@.len(),
        all_well_formed(final(candidates)@),
        forall|i: int| 0 <= i < final(candidates)@.len() ==> same_facts(#[trigger] final(candidates)@[i], old(candidates)@[i]),
        forall|i: int| 0 <= i < final(candidates)@.len() ==> overlap_step_allowed(old(candidates)@[i].recommendation, #[trigger] final(candidates)@[i].recommendation),
        forall|i: int| 0 <= i < final(candidates)@.len() ==> suppressed_consistent(old(candidates)@[i], #[trigger] final(candidates)@[i]),
        no_overlapping_selection(final(candidates)@),
{
    let ghost original = candidates@;
    let n = candidates.len();
    let mut suppressed: Vec<bool> = Vec::new();
    for i in 0..n
        invariant
            suppressed@.len() == i,
            forall|k: int| 0 <= k < i ==> !suppressed@[k],
    {
        suppressed.push(false);
    }
    let ghost mut trace: Seq<Seq<CandidateEvidence>> = seq![candidates@];
    let ghost mut marks: Seq<Seq<bool>> = seq![suppressed@];
    proof {
        assert(suppressed@ =~= Seq::new(n as nat, |i: int| false));
    }
    let mut left: usize = 0;
    while left < n
        invariant
            n == candidates@.len(),
            n == original.len(),
            suppressed@.len() == n,
            left <= n,
            trace.len() == left + 1,
            marks.len() == left + 1,
            trace[0] == original,
            marks[0] == Seq::new(n as nat, |i: int| false),
            trace[left as int] == candidates@,
            marks[left as int] == suppressed@,
            forall|l: int| 0 <= l < left ==> #[trigger] trace_step(trace, marks, l),
            all_well_formed(candidates@),
            forall|i: int| 0 <= i < n ==> same_facts(#[trigger] candidates@[i], original[i]),
            forall|i: int| 0 <= i < n ==> overlap_step_allowed(original[i].recommendation, #[trigger] candidates@[i].recommendation),
            forall|i: int| 0 <= i < n ==> suppressed_consistent(original[i], #[trigger] candidates@[i]),
            forall|i: int| 0 <= i < n && #[trigger] suppressed@[i] ==> !candidates@[i].recommendation.initial_selected,
            forall|a: int, b: int|
                0 <= a < left && 0 <= b < n && a != b && paths_overlap(
                    (#[trigger] candidates@[a]).local_path@,
                    (#[trigger] candidates@[b]).local_path@,
                ) ==> !(candidates@[a].recommendation.initial_selected && candidates@[b].recommendation.initial_selected),
        decreases n - left,
    {
        let ghost before = candidates@;
        let ghost marks_before = suppressed@;
        proof {
            lemma_cluster_upto_len(before, left as int, n as int);
        }
        if suppressed[left] {
            proof {
                assert(resolution_step(before, marks_before, left as int, candidates@, suppressed@));
                lemma_trace_push(trace, marks, left as int, candidates@, suppressed@);
                trace = trace.push(candidates@);
                marks = marks.push(suppressed@);
            }
            left = left + 1;
            continue;
        }
        let mut cluster: Vec<usize> = Vec::new();
        cluster.push(left);
        let mut right = left + 1;
        while right < n
            invariant
                n == candidates@.len(),
                candidates@ == before,
                left < right <= n,
                cluster@ == cluster_upto(before, left as int, right as int),
                cluster@.len() >= 1,
                cluster@[0] == left,
                forall|k: int| 0 <= k < cluster@.len() ==> #[trigger] cluster@[k] < n,
                forall|k: int| 0 <= k < cluster@.len() ==> #[trigger] cluster@[k] < right,
                forall|k: int| 1 <= k < cluster@.len() ==> left < #[trigger] cluster@[k],
                forall|b: int| left < b < right && paths_overlap(candidates@[left as int].local_path@, candidates@[b].local_path@) ==> #[trigger] cluster@.contains(b as usize),
                forall|k: int, m: int| 0 <= k < m < cluster@.len() ==> #[trigger] cluster@[k] < #[trigger] cluster@[m],
            decreases n - right,
        {
            if candidates_overlap(candidates[left].local_path.as_str(), candidates[right].local_path.as_str()) {
                let ghost prev = cluster@;
                cluster.push(right);
                proof {
                    assert(cluster@ == prev.push(right));
                    assert(cluster@[cluster@.len() - 1] == right);
                    assert forall|b: int| left < b < right + 1 && paths_overlap(candidates@[left as int].local_path@, candidates@[b].local_path@) implies #[trigger] cluster@.contains(b as usize) by {
                        if b < right {
                            assert(prev.contains(b as usize));
                            let k = choose|k: int| 0 <= k < prev.len() && prev[k] == b as usize;
                            assert(cluster@[k] == b as usize);
                        } else {
                            assert(cluster@[prev.len() as int] == b as usize);
                        }
                    }
                }
            }
            right = right + 1;
        }
        if cluster.len() == 1 {
            proof {
                assert forall|b: int| 0 <= b < n && left != b && paths_overlap(candidates@[left as int].local_path@, candidates@[b].local_path@)
                    implies !(candidates@[left as int].recommendation.initial_selected && candidates@[b].recommendation.initial_selected) by {
                    if b > left {
                        assert(cluster@.contains(b as usize));
                        let k = choose|k: int| 0 <= k < cluster@.len() && cluster@[k] == b as usize;
                        assert(k == 0);
                    } else {
                        lemma_overlap_symmetric(candidates@[left as int].local_path@, candidates@[b].local_path@);
                    }
                }
                assert(resolution_step(before, marks_before, left as int, candidates@, suppressed@));
                lemma_trace_push(trace, marks, left as int, candidates@, suppressed@);
                trace = trace.push(candidates@);
                marks = marks.push(suppressed@);
            }
            left = left + 1;
            continue;
        }
        let primary = settle_cluster(candidates, &mut suppressed, &cluster);
        proof {
            let after = candidates@;
            assert(cluster_settled(before, marks_before, cluster@, primary, after, suppressed@));
            assert(resolution_step(before, marks_before, left as int, after, suppressed@));
            lemma_trace_push(trace, marks, left as int, after, suppressed@);
            trace = trace.push(after);
            marks = marks.push(suppressed@);
            assert forall|i: int| 0 <= i < n implies same_facts(#[trigger] after[i], original[i]) by {
                if cluster@.contains(i as usize) {
                    let m = choose|m: int| 0 <= m < cluster@.len() && cluster@[m] == i as usize;
                    if cluster@[m] != primary {
                        assert(member_settled(before[cluster@[m] as int], before[primary as int], after[cluster@[m] as int]));
                    }
                }
            }
            assert forall|i: int| 0 <= i < n implies overlap_step_allowed(original[i].recommendation, #[trigger] after[i].recommendation) by {
                lemma_overlap_step_transitive(original[i].recommendation, before[i].recommendation, after[i].recommendation);
            }
            assert forall|i: int| 0 <= i < n implies suppressed_consistent(original[i], #[trigger] after[i]) by {
                if cluster@.contains(i as usize) {
                    let m = choose|m: int| 0 <= m < cluster@.len() && cluster@[m] == i as usize;
                    if cluster@[m] != primary {
                        assert(member_settled(before[cluster@[m] as int], before[primary as int], after[cluster@[m] as int]));
                        if before[i].recommendation.state == RecommendationState::Excluded {
                            assert(overlap_step_allowed(original[i].recommendation, before[i].recommendation));
                        }
                    }
                }
            }
            assert forall|i: int| 0 <= i < n && #[trigger] suppressed@[i] implies !after[i].recommendation.initial_selected by {
                if marks_before[i] {
                    assert(!before[i].recommendation.initial_selected);
                }
            }
            assert forall|a: int, b: int|
                0 <= a < left + 1 && 0 <= b < n && a != b && paths_overlap(
                    (#[trigger] after[a]).local_path@,
                    (#[trigger] after[b]).local_path@,
                ) implies !(after[a].recommendation.initial_selected && after[b].recommendation.initial_selected) by {
                assert(same_facts(after[a], before[a]) && same_facts(after[b], before[b]));
                if a == left {
                    if b > left {
                        assert(paths_overlap(before[left as int].local_path@, before[b].local_path@));
                        assert(cluster@.contains(b as usize));
                        let m = choose|m: int| 0 <= m < cluster@.len() && cluster@[m] == b as usize;
                        if b as usize == primary {
                            assert(cluster@[0] == left);
                            assert(cluster@[0] != primary);
                        }
                    } else {
                        lemma_overlap_symmetric(after[a].local_path@, after[b].local_path@);
                    }
                } else {
                    assert(paths_overlap(before[a].local_path@, before[b].local_path@));
                }
            }
        }
        left = left + 1;
    }
    proof {
        assert(overlaps_resolved(original, candidates@)) by {
            assert(trace.len() == original.len() + 1 && marks.len() == original.len() + 1);
        }
    }
}

} // verus!
