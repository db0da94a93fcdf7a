//! Turning analysis evidence into a reviewable cleanup plan.
use vstd::prelude::*;

use crate::budget::ScanBudgetExceeded;
use vstd::assert_seqs_equal;

use crate::activity::{fingerprint_of, path_time, tree_fingerprints};
use crate::evidence::{CandidateEvidence, DecisionCode, RecommendationState, RuleEvidence, RuleResolution};
use crate::model::{
    confidence_rank, confidence_rank_exec, CleanupItem, CleanupItemEvidence, CleanupItemFingerprint,
    CleanupPlan, CleanupPlanSourceScan, EntryKind, PlanSafety, PlanSummary, PlannedAction,
    RulesetVersion, ScanEntry, CLEANUP_PLAN_SCHEMA_VERSION, ROLLBACK_METHOD,
};
use crate::recommend::{primary_rule_index, primary_rule_of, resolve_rules};
use crate::report::resolves;
use crate::model::{Confidence, RuleHit, RuleTrust};
use crate::report::UserSelection;
use crate::text::{concat, str_eq};
use crate::control::{always_cancels, check_work, never_cancelled, never_cancels, uninterrupted, WorkError};
use crate::evidence::{AnalysisReport, RecommendationPolicy, ANALYSIS_REPORT_SCHEMA_VERSION};
use crate::model::CleanupPlanBuildError;
use crate::path::{paths_equal, same_path};
use crate::safety::{
    cache_has, cache_ok, lemma_cache_extends, lemma_cache_resolution, lists_root, plan_verdicts,
    resolution_of, resolution_ok, resolve_cached,
};
use crate::path::{components, components_equal, components_prefix, path_components, path_le, path_le_exec, texts};
use crate::safety::SafetyPolicy;
use crate::sort::{sort_by_le, sorted_by_le, total_preorder};

verus! {

// ---------------------------------------------------------------- sizes

/// The total size of `s`.
pub open spec fn size_total(s: Seq<CleanupItem>) -> int
    decreases s.len(),
{
    if s.len() == 0 {
        0
    } else {
        size_total(s.drop_last()) + s.last().size_bytes
    }
}

/// The total size of the selected items of `s`.
pub open spec fn selected_size_total(s: Seq<CleanupItem>) -> int
    decreases s.len(),
{
    if s.len() == 0 {
        0
    } else {
        selected_size_total(s.drop_last()) + if s.last().selected { s.last().size_bytes as int } else { 0 }
    }
}

/// The number of selected items of `s`.
pub open spec fn selected_count(s: Seq<CleanupItem>) -> int
    decreases s.len(),
{
    if s.len() == 0 {
        0
    } else {
        selected_count(s.drop_last()) + if s.last().selected { 1int } else { 0 }
    }
}

proof fn lemma_totals_bounded(s: Seq<CleanupItem>)
    ensures
        0 <= selected_size_total(s) <= size_total(s),
        0 <= selected_count(s) <= s.len(),
    decreases s.len(),
{
    if s.len() > 0 {
        lemma_totals_bounded(s.drop_last());
    }
}

proof fn lemma_size_total_remove(s: Seq<CleanupItem>, i: int)
    requires
        0 <= i < s.len(),
    ensures
        size_total(s) == size_total(s.remove(i)) + s[i].size_bytes,
    decreases s.len(),
{
    if i < s.len() - 1 {
        lemma_size_total_remove(s.drop_last(), i);
        assert(s.remove(i).drop_last() =~= s.drop_last().remove(i));
        assert(s.remove(i).last() == s.last());
    } else {
        assert(s.remove(i) =~= s.drop_last());
    }
}

/// Reordering items keeps their total size.
proof fn lemma_size_total_permutation(a: Seq<CleanupItem>, b: Seq<CleanupItem>)
    requires
        a.to_multiset() == b.to_multiset(),
    ensures
        size_total(a) == size_total(b),
    decreases a.len(),
{
    a.to_multiset_ensures();
    b.to_multiset_ensures();
    if a.len() > 0 {
        let x = a.last();
        assert(a.contains(x)) by {
            assert(a[a.len() - 1] == x);
        }
        assert(b.to_multiset().count(x) > 0);
        assert(b.contains(x));
        let i = choose|i: int| 0 <= i < b.len() && b[i] == x;
        assert(a.remove(a.len() - 1) =~= a.drop_last());
        assert(a.drop_last().to_multiset() =~= a.to_multiset().remove(x));
        assert(b.remove(i).to_multiset() =~= b.to_multiset().remove(x));
        lemma_size_total_permutation(a.drop_last(), b.remove(i));
        lemma_size_total_remove(b, i);
    } else {
        assert(b.len() == 0);
    }
}

/// `x`, or the largest `u64` where `x` is beyond it.
pub open spec fn saturated(x: int) -> int {
    if x > u64::MAX { u64::MAX as int } else { x }
}

/// `total + x`, or the largest `u64` where that is beyond it.
fn add_saturating(total: u64, x: u64) -> (res: u64)
    ensures
        res == saturated(total + x),
{
    if total > 18446744073709551615 - x {
        18446744073709551615
    } else {
        total + x
    }
}

/// The number of selected items, and the sizes of the selected and of all items, each summed
/// up to the largest `u64`.
fn sum_sizes(items: &Vec<CleanupItem>) -> (res: (usize, u64, u64))
    ensures
        res.0 == selected_count(items@),
        res.1 == saturated(selected_size_total(items@)),
        res.2 == saturated(size_total(items@)),
{
    let mut count: usize = 0;
    let mut selected: u64 = 0;
    let mut total: u64 = 0;
    let mut i: usize = 0;
    while i < items.len()
        invariant
            i <= items@.len(),
            count == selected_count(items@.take(i as int)),
            count <= i,
            selected == saturated(selected_size_total(items@.take(i as int))),
            total == saturated(size_total(items@.take(i as int))),
        decreases items.len() - i,
    {
        proof {
            let t = items@.take(i + 1);
            assert(t.drop_last() =~= items@.take(i as int));
            lemma_totals_bounded(t);
            lemma_totals_bounded(items@.take(i as int));
        }
        if items[i].selected {
            count = count + 1;
            selected = add_saturating(selected, items[i].size_bytes);
        }
        total = add_saturating(total, items[i].size_bytes);
        i = i + 1;
    }
    assert(items@.take(items@.len() as int) =~= items@);
    (count, selected, total)
}

// ---------------------------------------------------------------- orders

/// The plan order: selected first, then higher confidence, then larger, then by path.
pub open spec fn plan_item_le(a: CleanupItem, b: CleanupItem) -> bool {
    if a.selected != b.selected {
        a.selected
    } else if a.confidence != b.confidence {
        confidence_rank(a.confidence) > confidence_rank(b.confidence)
    } else if a.size_bytes != b.size_bytes {
        a.size_bytes > b.size_bytes
    } else {
        path_le(a.path@, b.path@)
    }
}

/// The order in which overlapping items compete: the plan order, with shallower paths
/// before deeper ones of equal rank.
pub open spec fn removal_item_le(a: CleanupItem, b: CleanupItem) -> bool {
    if a.selected != b.selected {
        a.selected
    } else if a.confidence != b.confidence {
        confidence_rank(a.confidence) > confidence_rank(b.confidence)
    } else if a.size_bytes != b.size_bytes {
        a.size_bytes > b.size_bytes
    } else if components(a.path@).len() != components(b.path@).len() {
        components(a.path@).len() < components(b.path@).len()
    } else {
        path_le(a.path@, b.path@)
    }
}

pub open spec fn plan_order() -> spec_fn(CleanupItem, CleanupItem) -> bool {
    |a: CleanupItem, b: CleanupItem| plan_item_le(a, b)
}

pub open spec fn removal_order() -> spec_fn(CleanupItem, CleanupItem) -> bool {
    |a: CleanupItem, b: CleanupItem| removal_item_le(a, b)
}

proof fn lemma_confidence_rank_injective(a: crate::model::Confidence, b: crate::model::Confidence)
    ensures
        confidence_rank(a) == confidence_rank(b) ==> a == b,
{
}

proof fn lemma_path_le_facts(a: Seq<char>, b: Seq<char>, c: Seq<char>)
    ensures
        path_le(a, b) || path_le(b, a),
        path_le(a, b) && path_le(b, c) ==> path_le(a, c),
{
    crate::path::lemma_comps_le_total(components(a), components(b));
    if path_le(a, b) && path_le(b, c) {
        crate::path::lemma_comps_le_transitive(components(a), components(b), components(c));
    }
}

proof fn lemma_orders_preorder()
    ensures
        total_preorder(plan_order()),
        total_preorder(removal_order()),
{
    assert forall|a: CleanupItem, b: CleanupItem| #[trigger] plan_order()(a, b) || plan_order()(b, a) by {
        lemma_path_le_facts(a.path@, b.path@, b.path@);
        lemma_confidence_rank_injective(a.confidence, b.confidence);
    }
    assert forall|a: CleanupItem, b: CleanupItem, c: CleanupItem|
        #[trigger] plan_order()(a, b) && #[trigger] plan_order()(b, c) implies plan_order()(a, c) by {
        lemma_path_le_facts(a.path@, b.path@, c.path@);
        lemma_confidence_rank_injective(a.confidence, b.confidence);
        lemma_confidence_rank_injective(b.confidence, c.confidence);
        lemma_confidence_rank_injective(a.confidence, c.confidence);
    }
    assert forall|a: CleanupItem, b: CleanupItem| #[trigger] removal_order()(a, b) || removal_order()(b, a) by {
        lemma_path_le_facts(a.path@, b.path@, b.path@);
        lemma_confidence_rank_injective(a.confidence, b.confidence);
    }
    assert forall|a: CleanupItem, b: CleanupItem, c: CleanupItem|
        #[trigger] removal_order()(a, b) && #[trigger] removal_order()(b, c) implies removal_order()(a, c) by {
        lemma_path_le_facts(a.path@, b.path@, c.path@);
        lemma_confidence_rank_injective(a.confidence, b.confidence);
        lemma_confidence_rank_injective(b.confidence, c.confidence);
        lemma_confidence_rank_injective(a.confidence, c.confidence);
    }
}

fn plan_item_le_exec(a: &CleanupItem, b: &CleanupItem) -> (res: bool)
    ensures
        res == plan_item_le(*a, *b),
{
    if a.selected != b.selected {
        a.selected
    } else if a.confidence != b.confidence {
        confidence_rank_exec(a.confidence) > confidence_rank_exec(b.confidence)
    } else if a.size_bytes != b.size_bytes {
        a.size_bytes > b.size_bytes
    } else {
        path_le_exec(a.path.as_str(), b.path.as_str())
    }
}

fn removal_item_le_exec(a: &CleanupItem, b: &CleanupItem) -> (res: bool)
    ensures
        res == removal_item_le(*a, *b),
{
    if a.selected != b.selected {
        a.selected
    } else if a.confidence != b.confidence {
        confidence_rank_exec(a.confidence) > confidence_rank_exec(b.confidence)
    } else if a.size_bytes != b.size_bytes {
        a.size_bytes > b.size_bytes
    } else {
        let da = path_components(a.path.as_str()).len();
        let db = path_components(b.path.as_str()).len();
        if da != db {
            da < db
        } else {
            path_le_exec(a.path.as_str(), b.path.as_str())
        }
    }
}

// ---------------------------------------------------------------- overlap removal

/// Two item paths overlap when one is the other or lies below it; the empty path is nobody's
/// ancestor.
pub open spec fn item_paths_overlap(a: Seq<char>, b: Seq<char>) -> bool {
    let ca = components(a);
    let cb = components(b);
    (ca.len() > 0 && ca.is_prefix_of(cb)) || (cb.len() > 0 && cb.is_prefix_of(ca))
}

/// Some item of `kept` overlaps `item`.
pub open spec fn overlaps_kept(kept: Seq<CleanupItem>, item: CleanupItem) -> bool {
    exists|m: int| 0 <= m < kept.len() && item_paths_overlap(#[trigger] kept[m].path@, item.path@)
}

/// The items of the first `k` of `s` that survive when each one in turn is kept unless it
/// overlaps an item kept before it.
pub open spec fn greedy_kept(s: Seq<CleanupItem>, k: int) -> Seq<CleanupItem>
    decreases k,
{
    if k <= 0 {
        Seq::empty()
    } else {
        let prev = greedy_kept(s, k - 1);
        if overlaps_kept(prev, s[k - 1]) {
            prev
        } else {
            prev.push(s[k - 1])
        }
    }
}

/// `kept` is what remains of `items` ordered for removal, when each item in turn is kept
/// unless it overlaps one kept before it.
pub open spec fn removal_of(kept: Seq<CleanupItem>, items: Seq<CleanupItem>) -> bool {
    exists|sorted: Seq<CleanupItem>|
        #![trigger greedy_kept(sorted, sorted.len() as int)]
        sorted.to_multiset() == items.to_multiset() && sorted_by_le(sorted, removal_order())
        && kept == greedy_kept(sorted, sorted.len() as int)
}

/// No two items of `s` overlap.
pub open spec fn pairwise_disjoint(s: Seq<CleanupItem>) -> bool {
    forall|i: int, j: int| 0 <= i < s.len() && 0 <= j < s.len() && i != j ==> !item_paths_overlap(#[trigger] s[i].path@, #[trigger] s[j].path@)
}

proof fn lemma_greedy_disjoint(s: Seq<CleanupItem>, k: int)
    requires
        0 <= k <= s.len(),
    ensures
        pairwise_disjoint(greedy_kept(s, k)),
        size_total(greedy_kept(s, k)) <= size_total(s.take(k)),
    decreases k,
{
    if k > 0 {
        lemma_greedy_disjoint(s, k - 1);
        let prev = greedy_kept(s, k - 1);
        assert(s.take(k).drop_last() =~= s.take(k - 1));
        if !overlaps_kept(prev, s[k - 1]) {
            let cur = prev.push(s[k - 1]);
            assert(cur.drop_last() =~= prev);
            assert forall|i: int, j: int| 0 <= i < cur.len() && 0 <= j < cur.len() && i != j implies !item_paths_overlap(#[trigger] cur[i].path@, #[trigger] cur[j].path@) by {
                if i == cur.len() - 1 {
                    assert(!item_paths_overlap(prev[j].path@, s[k - 1].path@));
                } else if j == cur.len() - 1 {
                    assert(!item_paths_overlap(prev[i].path@, s[k - 1].path@));
                } else {
                    assert(cur[i] == prev[i] && cur[j] == prev[j]);
                }
            }
        }
    }
}

fn overlaps_kept_exec(kept: &Vec<CleanupItem>, item: &CleanupItem) -> (res: bool)
    ensures
        res == overlaps_kept(kept@, *item),
{
    let ci = path_components(item.path.as_str());
    let mut m: usize = 0;
    while m < kept.len()
        invariant
            m <= kept@.len(),
            texts(ci@) == components(item.path@),
            forall|q: int| 0 <= q < m ==> !item_paths_overlap(#[trigger] kept@[q].path@, item.path@),
        decreases kept.len() - m,
    {
        let ck = path_components(kept[m].path.as_str());
        if (ck.len() > 0 && components_prefix(&ck, &ci)) || (ci.len() > 0 && components_prefix(&ci, &ck)) {
            return true;
        }
        m = m + 1;
    }
    false
}

/// Keep, of items that overlap, only the one that comes first in removal order.
pub fn remove_overlapping_items(items: Vec<CleanupItem>) -> (res: Vec<CleanupItem>)
    ensures
        removal_of(res@, items@),
        pairwise_disjoint(res@),
        size_total(res@) <= size_total(items@),
{
    proof {
        lemma_orders_preorder();
    }
    let ghost original = items@;
    let sorted = sort_by_le(items, removal_item_le_exec, Ghost(removal_order()));
    let ghost sv = sorted@;
    let mut kept: Vec<CleanupItem> = Vec::new();
    let mut rest = sorted;
    let ghost n = sv.len();
    assert(n == rest.len());
    assert(sv.skip(0) =~= sv);
    let mut k: usize = 0;
    while rest.len() > 0
        invariant
            k <= n,
            n == sv.len(),
            n <= usize::MAX,
            rest@ == sv.skip(k as int),
            kept@ == greedy_kept(sv, k as int),
        decreases rest.len(),
    {
        let item = rest.remove(0);
        assert(item == sv[k as int]);
        assert(rest@ =~= sv.skip(k + 1));
        if !overlaps_kept_exec(&kept, &item) {
            kept.push(item);
        }
        k = k + 1;
    }
    proof {
        lemma_greedy_disjoint(sv, n as int);
        assert(sv.take(n as int) =~= sv);
        lemma_size_total_permutation(sv, original);
    }
    kept
}

// ---------------------------------------------------------------- plan assembly

/// The current time in nanoseconds since the Unix epoch (`chrono::Utc::now`), where it fits
/// an `i64`. Nothing is stated of the value: it is the clock's.
#[verifier::external_body]
fn current_time_nanos() -> (res: Option<i64>) {
    chrono::Utc::now().timestamp_nanos_opt()
}

fn copy_paths(paths: &[String]) -> (res: Vec<String>)
    ensures
        res@ == paths@,
{
    let mut res: Vec<String> = Vec::new();
    let mut i: usize = 0;
    while i < paths.len()
        invariant
            i <= paths@.len(),
            res@ == paths@.take(i as int),
        decreases paths.len() - i,
    {
        res.push(paths[i].clone());
        assert(paths@.take(i + 1) =~= paths@.take(i as int).push(paths@[i as int]));
        i = i + 1;
    }
    assert(paths@.take(paths@.len() as int) =~= paths@);
    res
}

/// `plan` holds `items` in plan order, summarised, with the safety settings of `policy`.
pub open spec fn assembles(
    plan: CleanupPlan,
    scan_roots: Seq<String>,
    ruleset_versions: Seq<RulesetVersion>,
    items: Seq<CleanupItem>,
    policy: SafetyPolicy,
    source_scan: Option<CleanupPlanSourceScan>,
) -> bool {
    &&& plan.schema_version@ == CLEANUP_PLAN_SCHEMA_VERSION@
    &&& plan.scan_roots@ == scan_roots
    &&& plan.ruleset_versions@ == ruleset_versions
    &&& plan.source_scan == source_scan
    &&& plan.items@.to_multiset() == items.to_multiset()
    &&& sorted_by_le(plan.items@, plan_order())
    &&& plan.summary.candidate_count == plan.items@.len()
    &&& plan.summary.selected_count == selected_count(plan.items@)
    &&& plan.summary.selected_size_bytes == saturated(selected_size_total(plan.items@))
    &&& plan.summary.total_candidate_size_bytes == saturated(size_total(plan.items@))
    &&& plan.safety.default_action == PlannedAction::Trash
    &&& plan.safety.requires_confirmation == policy.spec_requires_confirmation()
    &&& plan.safety.rollback_method@ == ROLLBACK_METHOD@
    &&& plan.safety.protected_paths@ == policy.spec_protected_paths()
    &&& plan.safety.protected_subtrees@ == policy.spec_protected_subtrees()
}

/// Order the items, summarise them and attach the safety settings, at `created_at`.
pub fn finish_cleanup_plan(
    scan_roots: Vec<String>,
    ruleset_versions: Vec<RulesetVersion>,
    items: Vec<CleanupItem>,
    policy: &SafetyPolicy,
    source_scan: Option<CleanupPlanSourceScan>,
    created_at: i64,
) -> (res: CleanupPlan)
    ensures
        assembles(res, scan_roots@, ruleset_versions@, items@, *policy, source_scan),
        res.created_at == created_at,
{
    proof {
        lemma_orders_preorder();
    }
    let ghost original = items@;
    let items = sort_by_le(items, plan_item_le_exec, Ghost(plan_order()));
    proof {
        lemma_size_total_permutation(items@, original);
    }
    let (selected_count, selected_size_bytes, total) = sum_sizes(&items);
    let summary = PlanSummary {
        candidate_count: items.len(),
        selected_count,
        selected_size_bytes,
        total_candidate_size_bytes: total,
    };
    let safety = PlanSafety {
        default_action: PlannedAction::Trash,
        requires_confirmation: policy.requires_confirmation(),
        rollback_method: ROLLBACK_METHOD.to_owned(),
        protected_paths: copy_paths(policy.protected_paths()),
        protected_subtrees: copy_paths(policy.protected_subtrees()),
    };
    CleanupPlan {
        schema_version: CLEANUP_PLAN_SCHEMA_VERSION.to_owned(),
        created_at,
        scan_roots,
        ruleset_versions,
        source_scan,
        summary,
        items,
        safety,
    }
}

/// The time a plan is stamped with: now, saturating past the range of nanosecond timestamps.
fn plan_timestamp() -> (res: i64) {
    match current_time_nanos() {
        Some(t) => t,
        None => i64::MAX,
    }
}

// ---------------------------------------------------------------- items from analysis

/// The rule a plan item shows: the primary rule, or else the first matched rule.
pub open spec fn display_rule(rules: RuleResolution) -> Option<RuleEvidence> {
    match primary_rule_of(rules) {
        Some(r) => Some(r),
        None => if rules.matched@.len() > 0 { Some(rules.matched@[0]) } else { None },
    }
}

/// The identifier a plan shows for a rule: its pack, a colon, and its own identifier.
pub open spec fn rule_id_text(pack: Seq<char>, id: Seq<char>) -> Seq<char> {
    pack + seq![':'] + id
}

/// The timestamp of the last entry at `path`, if any entry is there and it has one.
pub open spec fn entry_time_at(entries: Seq<ScanEntry>, path: Seq<char>) -> Option<i64> {
    match path_time(entries, components(path), entries.len() as int) {
        Some(t) => t,
        None => None,
    }
}

/// `item` is the plan item for candidate `c`, showing rule `rule`.
pub open spec fn candidate_item(item: CleanupItem, c: CandidateEvidence, rule: RuleEvidence, entries: Seq<ScanEntry>, selected: bool) -> bool {
    &&& item.path == c.local_path
    &&& item.kind == c.kind
    &&& item.size_bytes == c.size_bytes
    &&& item.modified_at == entry_time_at(entries, c.local_path@)
    &&& item.tree_fingerprint == if c.kind == EntryKind::Directory { fingerprint_of(entries, components(c.local_path@)) } else { None }
    &&& item.rule_id@ == rule_id_text(rule.key.rule_pack_id@, rule.key.rule_id@)
    &&& item.category == rule.category
    &&& item.confidence == rule.confidence
    &&& item.reason == rule.reason
    &&& item.risk_note == rule.risk_note
    &&& item.evidence matches Some(e) && e.recommendation_state == c.recommendation.state
        && e.decision_codes@ == c.recommendation.codes@ && e.rule_resolution_state == c.rules.state
        && e.matched_rules@.map_values(|r: RuleEvidence| r@) == c.rules.matched@.map_values(|r: RuleEvidence| r@)
        && e.shadowed_rules@.len() == 0
    &&& item.selected == selected
    &&& item.planned_action == PlannedAction::Trash
    &&& item.rollback_method == c.rollback_method
}

/// A candidate that the recommendation policy lets into a plan: one the user selected, any
/// under a policy that does not filter, otherwise one whose activity meets the threshold.
pub open spec fn projected(c: CandidateEvidence, recommendation: RecommendationPolicy, selection: Set<Seq<char>>) -> bool {
    selection.contains(c.id@) || !recommendation.filters_projection() || recommendation.activity_meets(c.activity)
}

/// A candidate the plan may hold: neither suppressed nor excluded.
pub open spec fn plannable(c: CandidateEvidence) -> bool {
    c.recommendation.state != RecommendationState::Suppressed && c.recommendation.state != RecommendationState::Excluded
}

/// `items` are, in order, the items for the plannable candidates that the filesystem
/// verdict allows, that the recommendation policy lets in, and that have a rule to show.
pub open spec fn projects_candidates(
    items: Seq<CleanupItem>,
    candidates: Seq<CandidateEvidence>,
    entries: Seq<ScanEntry>,
    selection: Set<Seq<char>>,
    verdicts: Seq<bool>,
    recommendation: RecommendationPolicy,
) -> bool {
    exists|idx: Seq<int>|
        #![trigger idx.len()]
        idx.len() == items.len()
        && (forall|k: int, m: int| 0 <= k < m < idx.len() ==> #[trigger] idx[k] < #[trigger] idx[m])
        && (forall|k: int| 0 <= k < idx.len() ==> 0 <= #[trigger] idx[k] < candidates.len())
        && (forall|i: int| 0 <= i < candidates.len() ==> (#[trigger] idx.contains(i) <==> (plannable(candidates[i]) && verdicts[i]
            && display_rule(candidates[i].rules) is Some && projected(candidates[i], recommendation, selection))))
        && (forall|k: int| 0 <= k < idx.len() ==> #[trigger] candidate_item(items[k], candidates[idx[k]],
            display_rule(candidates[idx[k]].rules)->0, entries, selection.contains(candidates[idx[k]].id@)))
}

fn copy_codes(codes: &Vec<DecisionCode>) -> (res: Vec<DecisionCode>)
    ensures
        res@ == codes@,
{
    let mut res: Vec<DecisionCode> = Vec::new();
    let mut i: usize = 0;
    while i < codes.len()
        invariant
            i <= codes@.len(),
            res@ == codes@.take(i as int),
        decreases codes.len() - i,
    {
        res.push(codes[i]);
        assert(codes@.take(i + 1) =~= codes@.take(i as int).push(codes@[i as int]));
        i = i + 1;
    }
    assert(codes@.take(codes@.len() as int) =~= codes@);
    res
}

fn copy_rules(rules: &Vec<RuleEvidence>) -> (res: Vec<RuleEvidence>)
    ensures
        res@.map_values(|r: RuleEvidence| r@) == rules@.map_values(|r: RuleEvidence| r@),
{
    let mut res: Vec<RuleEvidence> = Vec::new();
    let mut i: usize = 0;
    while i < rules.len()
        invariant
            i <= rules@.len(),
            res@.len() == i,
            forall|k: int| 0 <= k < i ==> (#[trigger] res@[k])@ == rules@[k]@,
        decreases rules.len() - i,
    {
        res.push(rules[i].clone());
        i = i + 1;
    }
    assert(res@.map_values(|r: RuleEvidence| r@) =~= rules@.map_values(|r: RuleEvidence| r@));
    res
}

/// The timestamp of the last entry at `path`.
fn entry_time(entries: &[ScanEntry], path: &str) -> (res: Option<i64>)
    ensures
        res == entry_time_at(entries@, path@),
{
    let target = path_components(path);
    let ghost base = components(path@);
    let mut found: Option<Option<i64>> = None;
    let mut j: usize = 0;
    while j < entries.len()
        invariant
            j <= entries@.len(),
            texts(target@) == base,
            found == path_time(entries@, base, j as int),
        decreases entries.len() - j,
    {
        let cj = path_components(entries[j].path.as_str());
        if components_equal(&cj, &target) {
            found = Some(entries[j].modified_at);
        }
        j = j + 1;
    }
    match found {
        Some(t) => t,
        None => None,
    }
}

/// The rule a plan item shows for `rules`.
fn display_rule_index(rules: &RuleResolution) -> (res: Option<usize>)
    ensures
        match res {
            Some(i) => i < rules.matched@.len() && display_rule(*rules) == Some(rules.matched@[i as int]),
            None => display_rule(*rules) is None,
        },
{
    match primary_rule_index(rules) {
        Some(i) => Some(i),
        None => if rules.matched.len() > 0 { Some(0) } else { None },
    }
}

/// The plan item for candidate `c`, showing matched rule `rule_index`.
fn item_for_candidate(
    c: &CandidateEvidence,
    rule_index: usize,
    entries: &[ScanEntry],
    fingerprint: Option<CleanupItemFingerprint>,
    selected: bool,
) -> (res: CleanupItem)
    requires
        rule_index < c.rules.matched@.len(),
        fingerprint == (if c.kind == EntryKind::Directory { fingerprint_of(entries@, components(c.local_path@)) } else { None }),
    ensures
        candidate_item(res, *c, c.rules.matched@[rule_index as int], entries@, selected),
{
    let rule = &c.rules.matched[rule_index];
    let with_colon = concat(rule.key.rule_pack_id.as_str(), ":");
    let rule_id = concat(with_colon.as_str(), rule.key.rule_id.as_str());
    proof {
        reveal_strlit(":");
        assert(rule_id@ =~= rule_id_text(rule.key.rule_pack_id@, rule.key.rule_id@));
    }
    CleanupItem {
        path: c.local_path.clone(),
        kind: c.kind,
        size_bytes: c.size_bytes,
        modified_at: entry_time(entries, c.local_path.as_str()),
        tree_fingerprint: fingerprint,
        rule_id,
        category: rule.category.clone(),
        confidence: rule.confidence,
        reason: rule.reason.clone(),
        risk_note: rule.risk_note.clone(),
        evidence: Some(CleanupItemEvidence {
            recommendation_state: c.recommendation.state,
            decision_codes: copy_codes(&c.recommendation.codes),
            rule_resolution_state: c.rules.state,
            matched_rules: copy_rules(&c.rules.matched),
            shadowed_rules: Vec::new(),
        }),
        selected,
        planned_action: PlannedAction::Trash,
        rollback_method: c.rollback_method.clone(),
    }
}

/// The plan items for the plannable candidates that `verdicts` allows, in candidate order.
pub fn project_candidates(
    candidates: &[CandidateEvidence],
    entries: &[ScanEntry],
    selection: &UserSelection,
    verdicts: &[bool],
    recommendation: &RecommendationPolicy,
) -> (res: Vec<CleanupItem>)
    requires
        verdicts@.len() == candidates@.len(),
    ensures
        projects_candidates(res@, candidates@, entries@, selection@, verdicts@, *recommendation),
{
    let mut dir_paths: Vec<String> = Vec::new();
    let mut i: usize = 0;
    while i < candidates.len()
        invariant
            i <= candidates@.len(),
            dir_paths@.len() == i,
            forall|k: int| 0 <= k < i ==> (#[trigger] dir_paths@[k]) == candidates@[k].local_path,
        decreases candidates.len() - i,
    {
        dir_paths.push(candidates[i].local_path.clone());
        i = i + 1;
    }
    let fingerprints = tree_fingerprints(entries, dir_paths.as_slice());
    let mut items: Vec<CleanupItem> = Vec::new();
    let ghost mut idx: Seq<int> = Seq::empty();
    let mut i: usize = 0;
    while i < candidates.len()
        invariant
            i <= candidates@.len(),
            verdicts@.len() == candidates@.len(),
            fingerprints@.len() == candidates@.len(),
            forall|k: int| 0 <= k < candidates@.len() ==> #[trigger] fingerprints@[k] == fingerprint_of(entries@, components(candidates@[k].local_path@)),
            idx.len() == items@.len(),
            forall|k: int, m: int| 0 <= k < m < idx.len() ==> #[trigger] idx[k] < #[trigger] idx[m],
            forall|k: int| 0 <= k < idx.len() ==> 0 <= #[trigger] idx[k] < i,
            forall|q: int| 0 <= q < i ==> (#[trigger] idx.contains(q) <==> (plannable(candidates@[q]) && verdicts@[q]
                && display_rule(candidates@[q].rules) is Some && projected(candidates@[q], *recommendation, selection@))),
            forall|k: int| 0 <= k < idx.len() ==> #[trigger] candidate_item(items@[k], candidates@[idx[k]],
                display_rule(candidates@[idx[k]].rules)->0, entries@, selection@.contains(candidates@[idx[k]].id@)),
        decreases candidates.len() - i,
    {
        let c = &candidates[i];
        proof {
            assert(candidates@.take(i + 1).drop_last() =~= candidates@.take(i as int));
        }
        let state = c.recommendation.state;
        let selected = selection.contains(&c.id);
        let shown = selected || !recommendation.filters_candidate_projection_by_inactivity()
            || recommendation.activity_meets_inactivity_threshold(&c.activity);
        if state != RecommendationState::Suppressed && state != RecommendationState::Excluded && verdicts[i] && shown {
            match display_rule_index(&c.rules) {
                Some(r) => {
                    let fingerprint = if c.kind == EntryKind::Directory { fingerprints[i] } else { None };
                    let item = item_for_candidate(c, r, entries, fingerprint, selected);
                    let ghost before = items@;
                    let ghost idx_before = idx;
                    items.push(item);
                    proof {
                        idx = idx.push(i as int);
                        assert(items@.drop_last() =~= before);
                        assert forall|k: int| 0 <= k < idx.len() implies #[trigger] candidate_item(items@[k], candidates@[idx[k]],
                            display_rule(candidates@[idx[k]].rules)->0, entries@, selection@.contains(candidates@[idx[k]].id@)) by {
                            if k < idx_before.len() {
                                assert(items@[k] == before[k]);
                                assert(idx[k] == idx_before[k]);
                            }
                        }
                        assert forall|q: int| 0 <= q < i + 1 implies (#[trigger] idx.contains(q) <==> (plannable(candidates@[q]) && verdicts@[q]
                            && display_rule(candidates@[q].rules) is Some && projected(candidates@[q], *recommendation, selection@))) by {
                            if q < i {
                                if idx_before.contains(q) {
                                    let k = choose|k: int| 0 <= k < idx_before.len() && idx_before[k] == q;
                                    assert(idx[k] == q);
                                }
                                if idx.contains(q) {
                                    let k = choose|k: int| 0 <= k < idx.len() && idx[k] == q;
                                    assert(k < idx_before.len());
                                    assert(idx_before[k] == q);
                                }
                            } else {
                                assert(idx[idx.len() - 1] == q);
                            }
                        }
                    }
                },
                None => {
                    proof {
                        assert forall|q: int| 0 <= q < i + 1 implies (#[trigger] idx.contains(q) <==> (plannable(candidates@[q]) && verdicts@[q]
                            && display_rule(candidates@[q].rules) is Some && projected(candidates@[q], *recommendation, selection@))) by {
                            if q == i && idx.contains(q) {
                                let k = choose|k: int| 0 <= k < idx.len() && idx[k] == q;
                            }
                        }
                    }
                },
            }
        } else {
            proof {
                assert forall|q: int| 0 <= q < i + 1 implies (#[trigger] idx.contains(q) <==> (plannable(candidates@[q]) && verdicts@[q]
                    && display_rule(candidates@[q].rules) is Some && projected(candidates@[q], *recommendation, selection@))) by {
                    if q == i && idx.contains(q) {
                        let k = choose|k: int| 0 <= k < idx.len() && idx[k] == q;
                    }
                }
            }
        }
        i = i + 1;
    }
    proof {
        assert(candidates@.take(candidates@.len() as int) =~= candidates@);
        assert(idx.len() == items@.len());
    }
    items
}

// ---------------------------------------------------------------- selected overlaps

/// A candidate that the user selected and that the plan may hold.
pub open spec fn selected_plannable(c: CandidateEvidence, selection: Set<Seq<char>>) -> bool {
    selection.contains(c.id@) && plannable(c)
}

/// Two selected plannable candidates, the first at or above the second.
pub open spec fn selected_pair(candidates: Seq<CandidateEvidence>, selection: Set<Seq<char>>, a: int, b: int) -> bool {
    &&& 0 <= a < candidates.len()
    &&& 0 <= b < candidates.len()
    &&& a != b
    &&& selected_plannable(candidates[a], selection)
    &&& selected_plannable(candidates[b], selection)
    &&& components(candidates[a].local_path@).is_prefix_of(components(candidates[b].local_path@))
}

/// The user selected two candidates of which one lies at or below the other.
pub open spec fn selection_overlaps(candidates: Seq<CandidateEvidence>, selection: Set<Seq<char>>) -> bool {
    exists|a: int, b: int| #[trigger] selected_pair(candidates, selection, a, b)
}

/// A selected candidate's position, depth and path.
struct SelectedPath {
    index: usize,
    depth: usize,
    path: String,
}

spec fn selected_le(x: SelectedPath, y: SelectedPath) -> bool {
    x.depth < y.depth || (x.depth == y.depth && path_le(x.path@, y.path@))
}

spec fn selected_order() -> spec_fn(SelectedPath, SelectedPath) -> bool {
    |x: SelectedPath, y: SelectedPath| selected_le(x, y)
}

fn selected_le_exec(x: &SelectedPath, y: &SelectedPath) -> (res: bool)
    ensures
        res == selected_le(*x, *y),
{
    x.depth < y.depth || (x.depth == y.depth && path_le_exec(x.path.as_str(), y.path.as_str()))
}

proof fn lemma_selected_order()
    ensures
        total_preorder(selected_order()),
{
    assert forall|a: SelectedPath, b: SelectedPath| #[trigger] selected_order()(a, b) || selected_order()(b, a) by {
        lemma_path_le_facts(a.path@, b.path@, b.path@);
    }
    assert forall|a: SelectedPath, b: SelectedPath, c: SelectedPath|
        #[trigger] selected_order()(a, b) && #[trigger] selected_order()(b, c) implies selected_order()(a, c) by {
        lemma_path_le_facts(a.path@, b.path@, c.path@);
    }
}

/// The first pair of selected plannable candidates, in order of depth and then path, of which
/// the first lies at or above the second; `None` when there is none.
pub fn selection_conflict(candidates: &[CandidateEvidence], selection: &UserSelection) -> (res: Option<(String, String)>)
    ensures
        res is None <==> !selection_overlaps(candidates@, selection@),
        res matches Some((left, right)) ==> exists|a: int, b: int| #[trigger] selected_pair(candidates@, selection@, a, b)
            && left == candidates@[a].local_path && right == candidates@[b].local_path,
{
    let ghost cands = candidates@;
    let ghost sel = selection@;
    let mut collected: Vec<SelectedPath> = Vec::new();
    let mut i: usize = 0;
    while i < candidates.len()
        invariant
            i <= cands.len(),
            cands == candidates@,
            sel == selection@,
            forall|k: int| 0 <= k < collected@.len() ==> (#[trigger] collected@[k]).index < i
                && selected_plannable(cands[collected@[k].index as int], sel)
                && collected@[k].path == cands[collected@[k].index as int].local_path
                && collected@[k].depth == components(collected@[k].path@).len(),
            forall|k: int, m: int| 0 <= k < m < collected@.len() ==> (#[trigger] collected@[k]).index < (#[trigger] collected@[m]).index,
            forall|q: int| 0 <= q < i && selected_plannable(#[trigger] cands[q], sel) ==> exists|k: int| 0 <= k < collected@.len() && (#[trigger] collected@[k]).index == q,
        decreases cands.len() - i,
    {
        let c = &candidates[i];
        let state = c.recommendation.state;
        if selection.contains(&c.id) && state != RecommendationState::Suppressed && state != RecommendationState::Excluded {
            let depth = path_components(c.local_path.as_str()).len();
            let ghost before = collected@;
            collected.push(SelectedPath { index: i, depth, path: c.local_path.clone() });
            proof {
                assert forall|q: int| 0 <= q < i + 1 && selected_plannable(#[trigger] cands[q], sel) implies exists|k: int| 0 <= k < collected@.len() && (#[trigger] collected@[k]).index == q by {
                    if q < i {
                        let k = choose|k: int| 0 <= k < before.len() && (#[trigger] before[k]).index == q;
                        assert(collected@[k] == before[k]);
                    } else {
                        assert(collected@[before.len() as int].index == q);
                    }
                }
            }
        }
        i = i + 1;
    }
    let ghost unsorted = collected@;
    proof {
        lemma_selected_order();
    }
    let sorted = sort_by_le(collected, selected_le_exec, Ghost(selected_order()));
    let ghost sv = sorted@;
    proof {
        sv.to_multiset_ensures();
        unsorted.to_multiset_ensures();
        assert forall|p: int| 0 <= p < sv.len() implies #[trigger] unsorted.contains(sv[p]) by {
            assert(sv.to_multiset().count(sv[p]) > 0);
        }
    }
    let mut comps: Vec<Vec<Vec<char>>> = Vec::new();
    let mut j: usize = 0;
    while j < sorted.len()
        invariant
            j <= sv.len(),
            sv == sorted@,
            cands == candidates@,
            sel == selection@,
            sv.to_multiset() == unsorted.to_multiset(),
            forall|p: int| 0 <= p < sv.len() ==> #[trigger] unsorted.contains(sv[p]),
            forall|k: int| 0 <= k < unsorted.len() ==> selected_plannable(cands[(#[trigger] unsorted[k]).index as int], sel)
                && unsorted[k].index < cands.len()
                && unsorted[k].path == cands[unsorted[k].index as int].local_path
                && unsorted[k].depth == components(unsorted[k].path@).len(),
            forall|k: int, m: int| 0 <= k < m < unsorted.len() ==> (#[trigger] unsorted[k]).index < (#[trigger] unsorted[m]).index,
            comps@.len() == j,
            forall|p: int| 0 <= p < j ==> texts(#[trigger] comps@[p]@) == components(sv[p].path@),
            forall|p: int, q: int| 0 <= p < q < j ==> !components((#[trigger] sv[p]).path@).is_prefix_of(components((#[trigger] sv[q]).path@)),
        decreases sv.len() - j,
    {
        let cj = path_components(sorted[j].path.as_str());
        let mut best: Option<usize> = None;
        let mut p: usize = 0;
        while p < j
            invariant
                p <= j,
                j < sv.len(),
                comps@.len() == j,
                forall|r: int| 0 <= r < j ==> texts(#[trigger] comps@[r]@) == components(sv[r].path@),
                texts(cj@) == components(sv[j as int].path@),
                match best {
                    Some(b) => b < p && components(sv[b as int].path@).is_prefix_of(components(sv[j as int].path@)),
                    None => forall|r: int| 0 <= r < p ==> !components((#[trigger] sv[r]).path@).is_prefix_of(components(sv[j as int].path@)),
                },
            decreases j - p,
        {
            if components_prefix(&comps[p], &cj) {
                let better = match best {
                    Some(b) => comps[p].len() > comps[b].len(),
                    None => true,
                };
                if better {
                    best = Some(p);
                }
            }
            p = p + 1;
        }
        match best {
            Some(b) => {
                proof {
                    let ib = sv[b as int].index as int;
                    let ij = sv[j as int].index as int;
                    assert(unsorted.contains(sv[b as int]));
                    assert(unsorted.contains(sv[j as int]));
                    let kb = choose|k: int| 0 <= k < unsorted.len() && unsorted[k] == sv[b as int];
                    let kj = choose|k: int| 0 <= k < unsorted.len() && unsorted[k] == sv[j as int];
                    if ib == ij {
                        if kb < kj {
                            assert(unsorted[kb].index < unsorted[kj].index);
                        } else if kj < kb {
                            assert(unsorted[kj].index < unsorted[kb].index);
                        } else {
                            lemma_sorted_distinct_positions(sv, unsorted, b as int, j as int);
                        }
                    }
                    assert(selected_pair(cands, sel, ib, ij));
                }
                return Some((sorted[b].path.clone(), sorted[j].path.clone()));
            },
            None => {},
        }
        comps.push(cj);
        proof {
            assert forall|p: int| 0 <= p < j + 1 implies texts(#[trigger] comps@[p]@) == components(sv[p].path@) by {
                if p < j {
                    assert(comps@[p] == comps@.drop_last()[p]);
                }
            }
        }
        j = j + 1;
    }
    proof {
        assert forall|a: int, b: int| !(#[trigger] selected_pair(cands, sel, a, b)) by {
            if selected_pair(cands, sel, a, b) {
                let ka = choose|k: int| 0 <= k < unsorted.len() && (#[trigger] unsorted[k]).index == a;
                let kb = choose|k: int| 0 <= k < unsorted.len() && (#[trigger] unsorted[k]).index == b;
                assert(unsorted.to_multiset().count(unsorted[ka]) > 0);
                assert(sv.contains(unsorted[ka]));
                assert(unsorted.to_multiset().count(unsorted[kb]) > 0);
                assert(sv.contains(unsorted[kb]));
                let pa = choose|p: int| 0 <= p < sv.len() && sv[p] == unsorted[ka];
                let pb = choose|p: int| 0 <= p < sv.len() && sv[p] == unsorted[kb];
                assert(pa != pb);
                if pb < pa {
                    assert(selected_le(sv[pb], sv[pa]));
                    assert(components(cands[a].local_path@).len() <= components(cands[b].local_path@).len());
                    assert(components(cands[b].local_path@) =~= components(cands[a].local_path@));
                }
            }
        }
    }
    None
}

/// Distinct positions of a reordering of elements with distinct indices hold distinct indices.
proof fn lemma_sorted_distinct_positions(sv: Seq<SelectedPath>, unsorted: Seq<SelectedPath>, b: int, j: int)
    requires
        sv.to_multiset() == unsorted.to_multiset(),
        forall|k: int, m: int| 0 <= k < m < unsorted.len() ==> (#[trigger] unsorted[k]).index < (#[trigger] unsorted[m]).index,
        0 <= b < j < sv.len(),
    ensures
        sv[b] != sv[j],
{
    if sv[b] == sv[j] {
        let x = sv[b];
        assert(sv.to_multiset().count(x) >= 2) by {
            lemma_count_two(sv, b, j);
        }
        assert(unsorted.to_multiset().count(x) >= 2);
        lemma_count_at_most_one(unsorted, x);
    }
}

proof fn lemma_count_two<A>(s: Seq<A>, b: int, j: int)
    requires
        0 <= b < j < s.len(),
        s[b] == s[j],
    ensures
        s.to_multiset().count(s[b]) >= 2,
    decreases s.len(),
{
    s.to_multiset_ensures();
    let x = s[b];
    if j < s.len() - 1 {
        lemma_count_two(s.drop_last(), b, j);
        assert(s.drop_last().push(s.last()) =~= s);
        s.drop_last().to_multiset_ensures();
    } else {
        assert(s.drop_last().push(s.last()) =~= s);
        s.drop_last().to_multiset_ensures();
        assert(s.drop_last()[b] == x);
        assert(s.drop_last().contains(x));
    }
}

proof fn lemma_count_at_most_one(s: Seq<SelectedPath>, x: SelectedPath)
    requires
        forall|k: int, m: int| 0 <= k < m < s.len() ==> (#[trigger] s[k]).index < (#[trigger] s[m]).index,
    ensures
        s.to_multiset().count(x) <= 1,
    decreases s.len(),
{
    s.to_multiset_ensures();
    if s.len() > 0 {
        let t = s.drop_last();
        assert(t.push(s.last()) =~= s);
        t.to_multiset_ensures();
        lemma_count_at_most_one(t, x);
        if s.last() == x {
            if t.contains(x) {
                let k = choose|k: int| 0 <= k < t.len() && t[k] == x;
                assert(s[k] == x);
                assert(s[k].index < s[s.len() - 1].index);
            }
            assert(t.to_multiset().count(x) == 0);
        }
    }
}

// ---------------------------------------------------------------- plan builders

/// The provenance a plan built from `analysis` records, with the exceeded limits `budget`.
pub open spec fn source_scan_of(analysis: AnalysisReport, budget: Vec<ScanBudgetExceeded>) -> CleanupPlanSourceScan {
    CleanupPlanSourceScan {
        analysis_id: analysis.analysis_id,
        integrity: analysis.scan.integrity,
        budget_exceeded: budget,
        recommendation_policy: Some(analysis.policy),
        scope: None,
    }
}

/// `plan` holds the plannable candidates of `analysis` whose resolved path names no resolved
/// scan root and that `policy` allows, and that the analysis's recommendation policy lets in,
/// with overlapping ones removed, ordered and summarised; its provenance records the analysis
/// and an empty list of exceeded limits. Each path text resolves, once, to itself or to an
/// absolute path; which one rests on the disk.
pub open spec fn plans_analysis(
    plan: CleanupPlan,
    scan_roots: Seq<String>,
    ruleset_versions: Seq<RulesetVersion>,
    entries: Seq<ScanEntry>,
    analysis: AnalysisReport,
    selection: Set<Seq<char>>,
    policy: SafetyPolicy,
) -> bool {
    exists|f: spec_fn(Seq<char>) -> Seq<char>, items: Seq<CleanupItem>, kept: Seq<CleanupItem>|
        #![trigger projects_candidates(items, analysis.candidates@, entries, selection, candidate_verdicts_under(analysis.candidates@, scan_roots, f, policy), analysis.policy), removal_of(kept, items)]
        resolution_ok(f)
        && projects_candidates(items, analysis.candidates@, entries, selection, candidate_verdicts_under(analysis.candidates@, scan_roots, f, policy), analysis.policy)
        && removal_of(kept, items)
        && (plan.source_scan matches Some(s) && s.budget_exceeded@.len() == 0
            && assembles(plan, scan_roots, ruleset_versions, kept, policy, Some(source_scan_of(analysis, s.budget_exceeded))))
}

/// Permuting items keeps them pairwise disjoint.
proof fn lemma_disjoint_permutation(a: Seq<CleanupItem>, b: Seq<CleanupItem>)
    requires
        pairwise_disjoint(a),
        a.to_multiset() == b.to_multiset(),
    ensures
        pairwise_disjoint(b),
{
    a.to_multiset_ensures();
    b.to_multiset_ensures();
    assert forall|i: int, j: int| 0 <= i < b.len() && 0 <= j < b.len() && i != j implies !item_paths_overlap(#[trigger] b[i].path@, #[trigger] b[j].path@) by {
        if item_paths_overlap(b[i].path@, b[j].path@) {
            assert(b.to_multiset().count(b[i]) > 0);
            assert(b.to_multiset().count(b[j]) > 0);
            let ai = choose|k: int| 0 <= k < a.len() && a[k] == b[i];
            let aj = choose|k: int| 0 <= k < a.len() && a[k] == b[j];
            if ai == aj {
                assert(b[i] == b[j]);
                lemma_count_two(b, if i < j { i } else { j }, if i < j { j } else { i });
                assert(a.to_multiset().count(b[i]) >= 2);
                lemma_disjoint_count(a, b[i]);
            }
        }
    }
}

/// An item that overlaps itself occurs at most once among pairwise disjoint items.
proof fn lemma_disjoint_count(a: Seq<CleanupItem>, x: CleanupItem)
    requires
        pairwise_disjoint(a),
        item_paths_overlap(x.path@, x.path@),
    ensures
        a.to_multiset().count(x) <= 1,
    decreases a.len(),
{
    a.to_multiset_ensures();
    if a.len() > 0 {
        let t = a.drop_last();
        assert(t.push(a.last()) =~= a);
        t.to_multiset_ensures();
        assert(pairwise_disjoint(t)) by {
            assert forall|i: int, j: int| 0 <= i < t.len() && 0 <= j < t.len() && i != j implies !item_paths_overlap(#[trigger] t[i].path@, #[trigger] t[j].path@) by {
                assert(t[i] == a[i] && t[j] == a[j]);
            }
        }
        lemma_disjoint_count(t, x);
        if a.last() == x && t.contains(x) {
            let k = choose|k: int| 0 <= k < t.len() && t[k] == x;
            assert(a[k] == x);
            assert(!item_paths_overlap(a[k].path@, a[a.len() - 1].path@));
        }
    }
}

/// Whether the path `path`, resolved by `f`, may go into a plan: it names no scan root of
/// `roots` (resolved by `f` too) and `policy` allows it.
pub open spec fn resolved_verdict(path: Seq<char>, roots: Seq<String>, f: spec_fn(Seq<char>) -> Seq<char>, policy: SafetyPolicy) -> bool {
    !(exists|r: int| 0 <= r < roots.len() && same_path(f((#[trigger] roots[r])@), f(path))) && policy.allows(f(path))
}

/// The verdict on each candidate under the resolution `f`: a plannable candidate whose resolved
/// path may go into a plan.
pub open spec fn candidate_verdicts_under(
    candidates: Seq<CandidateEvidence>,
    roots: Seq<String>,
    f: spec_fn(Seq<char>) -> Seq<char>,
    policy: SafetyPolicy,
) -> Seq<bool> {
    Seq::new(candidates.len(), |i: int| plannable(candidates[i]) && resolved_verdict(candidates[i].local_path@, roots, f, policy))
}

/// The verdict on each entry under the resolution `f`.
pub open spec fn entry_verdicts_under(
    entries: Seq<ScanEntry>,
    roots: Seq<String>,
    f: spec_fn(Seq<char>) -> Seq<char>,
    policy: SafetyPolicy,
) -> Seq<bool> {
    Seq::new(entries.len(), |i: int| resolved_verdict(entries[i].path@, roots, f, policy))
}

/// `out` holds, for each text of `texts` marked in `keep`, what `cache` resolves it to, and
/// `cache` holds that text.
pub open spec fn resolves_marked(cache: Seq<(String, String)>, texts: Seq<Seq<char>>, keep: Seq<bool>, out: Seq<String>) -> bool {
    forall|q: int| 0 <= q < texts.len() && #[trigger] keep[q] ==> cache_has(cache, texts[q]) && out[q]@ == resolution_of(cache)(texts[q])
}

proof fn lemma_resolves_marked_extends(
    before: Seq<(String, String)>,
    after: Seq<(String, String)>,
    texts: Seq<Seq<char>>,
    keep: Seq<bool>,
    out: Seq<String>,
)
    requires
        cache_ok(after),
        before.len() <= after.len(),
        forall|i: int| 0 <= i < before.len() ==> #[trigger] after[i] == before[i],
        resolves_marked(before, texts, keep, out),
    ensures
        resolves_marked(after, texts, keep, out),
{
    assert forall|q: int| 0 <= q < texts.len() && #[trigger] keep[q] implies cache_has(after, texts[q])
        && out[q]@ == resolution_of(after)(texts[q]) by {
        lemma_cache_extends(before, after, texts[q]);
    }
}

/// The texts of `v`.
pub open spec fn string_texts(v: Seq<String>) -> Seq<Seq<char>> {
    Seq::new(v.len(), |i: int| v[i]@)
}

/// Each scan root resolved through `cache`.
fn resolve_roots(cache: &mut Vec<(String, String)>, scan_roots: &[String]) -> (res: Vec<String>)
    requires
        cache_ok(old(cache)@),
    ensures
        cache_ok(final(cache)@),
        old(cache)@.len() <= final(cache)@.len(),
        forall|i: int| 0 <= i < old(cache)@.len() ==> #[trigger] final(cache)@[i] == old(cache)@[i],
        res@.len() == scan_roots@.len(),
        resolves_marked(final(cache)@, string_texts(scan_roots@), Seq::new(scan_roots@.len(), |q: int| true), res@),
{
    let ghost start = cache@;
    let ghost texts = string_texts(scan_roots@);
    let ghost all = Seq::new(scan_roots@.len(), |q: int| true);
    let mut res: Vec<String> = Vec::new();
    let mut j: usize = 0;
    while j < scan_roots.len()
        invariant
            j <= scan_roots@.len(),
            texts == string_texts(scan_roots@),
            all == Seq::new(scan_roots@.len(), |q: int| true),
            cache_ok(cache@),
            start.len() <= cache@.len(),
            forall|i: int| 0 <= i < start.len() ==> #[trigger] cache@[i] == start[i],
            res@.len() == j,
            resolves_marked(cache@, texts.take(j as int), all.take(j as int), res@),
        decreases scan_roots.len() - j,
    {
        let ghost before = cache@;
        let ghost out = res@;
        let r = resolve_cached(cache, scan_roots[j].as_str());
        res.push(r);
        proof {
            lemma_resolves_marked_extends(before, cache@, texts.take(j as int), all.take(j as int), out);
            assert forall|q: int| 0 <= q < texts.take(j + 1).len() && #[trigger] all.take(j + 1)[q]
                implies cache_has(cache@, texts.take(j + 1)[q]) && res@[q]@ == resolution_of(cache@)(texts.take(j + 1)[q]) by {
                if q < j {
                    assert(all.take(j as int)[q] && texts.take(j as int)[q] == texts.take(j + 1)[q]);
                    assert(res@[q] == out[q]);
                }
            }
        }
        j = j + 1;
    }
    proof {
        assert(texts.take(j as int) =~= texts);
        assert(all.take(j as int) =~= all);
    }
    res
}

/// Whether each candidate may be planned as far as the filesystem decides: it is not a scan
/// root and the safety policy allows it, both judged on resolved paths, each text resolved
/// once. Candidates that are not plannable are not looked at.
fn candidate_verdicts<F: Fn() -> bool>(
    candidates: &[CandidateEvidence],
    scan_roots: &[String],
    policy: &SafetyPolicy,
    cancelled: &F,
) -> (res: Result<(Vec<bool>, Ghost<spec_fn(Seq<char>) -> Seq<char>>), WorkError<CleanupPlanBuildError>>)
    requires
        forall|| #[trigger] call_requires(*cancelled, ()),
    ensures
        res matches Ok((v, f)) ==> resolution_ok(f@) && v@ == candidate_verdicts_under(candidates@, scan_roots@, f@, *policy),
        res is Ok || res matches Err(WorkError::Cancelled),
        never_cancels(*cancelled) ==> res is Ok,
{
    let mut cache: Vec<(String, String)> = Vec::new();
    let roots = resolve_roots(&mut cache, scan_roots);
    let ghost root_texts = string_texts(scan_roots@);
    let ghost all = Seq::new(scan_roots@.len(), |q: int| true);
    let ghost cand_texts = Seq::new(candidates@.len(), |i: int| candidates@[i].local_path@);
    let mut flags: Vec<bool> = Vec::new();
    let mut paths: Vec<String> = Vec::new();
    let mut i: usize = 0;
    while i < candidates.len()
        invariant
            i <= candidates@.len(),
            forall|| #[trigger] call_requires(*cancelled, ()),
            cache_ok(cache@),
            root_texts == string_texts(scan_roots@),
            all == Seq::new(scan_roots@.len(), |q: int| true),
            cand_texts == Seq::new(candidates@.len(), |i: int| candidates@[i].local_path@),
            roots@.len() == scan_roots@.len(),
            resolves_marked(cache@, root_texts, all, roots@),
            flags@.len() == i,
            paths@.len() == i,
            forall|k: int| 0 <= k < i ==> #[trigger] flags@[k] == plannable(candidates@[k]),
            resolves_marked(cache@, cand_texts.take(i as int), flags@, paths@),
        decreases candidates.len() - i,
    {
        if i % 256 == 0 {
            match check_work(cancelled) {
                Err(stop) => {
                    return Err(stop);
                },
                Ok(()) => {},
            }
        }
        let c = &candidates[i];
        let state = c.recommendation.state;
        let keep = !(state == RecommendationState::Suppressed || state == RecommendationState::Excluded);
        let ghost before = cache@;
        let ghost out = paths@;
        let ghost marks = flags@;
        if keep {
            let p = resolve_cached(&mut cache, c.local_path.as_str());
            paths.push(p);
            proof {
                lemma_resolves_marked_extends(before, cache@, root_texts, all, roots@);
                lemma_resolves_marked_extends(before, cache@, cand_texts.take(i as int), marks, out);
            }
        } else {
            paths.push(c.local_path.clone());
        }
        flags.push(keep);
        proof {
            assert forall|q: int| 0 <= q < cand_texts.take(i + 1).len() && #[trigger] flags@[q]
                implies cache_has(cache@, cand_texts.take(i + 1)[q]) && paths@[q]@ == resolution_of(cache@)(cand_texts.take(i + 1)[q]) by {
                if q < i {
                    assert(marks[q] == flags@[q] && out[q] == paths@[q]);
                    assert(cand_texts.take(i as int)[q] == cand_texts.take(i + 1)[q]);
                }
            }
        }
        i = i + 1;
    }
    let verdicts = plan_verdicts(flags.as_slice(), paths.as_slice(), roots.as_slice(), policy);
    let ghost f = resolution_of(cache@);
    proof {
        lemma_cache_resolution(cache@);
        assert(cand_texts.take(i as int) =~= cand_texts);
        assert forall|k: int| 0 <= k < candidates@.len() implies #[trigger] verdicts@[k]
            == candidate_verdicts_under(candidates@, scan_roots@, f, *policy)[k] by {
            if plannable(candidates@[k]) {
                assert(flags@[k]);
                let p = paths@[k]@;
                assert(p == f(candidates@[k].local_path@));
                assert(lists_root(roots@, p) == (exists|r: int| 0 <= r < scan_roots@.len() && same_path(f((#[trigger] scan_roots@[r])@), p))) by {
                    if lists_root(roots@, p) {
                        let r = choose|r: int| 0 <= r < roots@.len() && same_path((#[trigger] roots@[r])@, p);
                        assert(all[r] && root_texts[r] == scan_roots@[r]@);
                    }
                    if exists|r: int| 0 <= r < scan_roots@.len() && same_path(f((#[trigger] scan_roots@[r])@), p) {
                        let r = choose|r: int| 0 <= r < scan_roots@.len() && same_path(f((#[trigger] scan_roots@[r])@), p);
                        assert(all[r] && root_texts[r] == scan_roots@[r]@);
                        assert(same_path(roots@[r]@, p));
                    }
                }
            } else {
                assert(!flags@[k]);
            }
        }
        assert(verdicts@ =~= candidate_verdicts_under(candidates@, scan_roots@, f, *policy));
    }
    Ok((verdicts, Ghost(f)))
}

/// Build a cleanup plan from a single immutable analysis report and its user-owned selection,
/// asking `cancelled` between steps whether to stop.
///
/// Recommendation and overlap decisions come only from `analysis`, while `selection` records
/// the user's later choices. Scan roots and candidates are resolved on the filesystem, each text
/// once; the plan holds the plannable candidates that are no scan root and that the local safety
/// policy allows.
pub fn build_cleanup_plan_from_analysis_cancellable<F: Fn() -> bool>(
    scan_roots: Vec<String>,
    ruleset_versions: Vec<RulesetVersion>,
    entries: &[ScanEntry],
    analysis: &AnalysisReport,
    selection: &UserSelection,
    policy: &SafetyPolicy,
    cancelled: &F,
) -> (res: Result<CleanupPlan, WorkError<CleanupPlanBuildError>>)
    requires
        forall|| #[trigger] call_requires(*cancelled, ()),
    ensures
        never_cancels(*cancelled) ==> !(res matches Err(WorkError::Cancelled)),
        exists|first: bool| #[trigger] call_ensures(*cancelled, (), first)
            && (first ==> res == Err::<CleanupPlan, WorkError<CleanupPlanBuildError>>(WorkError::Cancelled)),
        always_cancels(*cancelled) ==> res == Err::<CleanupPlan, WorkError<CleanupPlanBuildError>>(WorkError::Cancelled),
        res matches Err(WorkError::Failed(e)) ==> if analysis.schema_version@ != ANALYSIS_REPORT_SCHEMA_VERSION@ {
            e == CleanupPlanBuildError::UnsupportedAnalysisSchema { found: analysis.schema_version }
        } else if analysis.scan.budget_exceeded@.len() > 0 {
            e == CleanupPlanBuildError::ScanBudgetExceeded
        } else {
            e matches CleanupPlanBuildError::OverlappingSelection { left, right }
                && exists|a: int, b: int| #[trigger] selected_pair(analysis.candidates@, selection@, a, b)
                    && left == analysis.candidates@[a].local_path && right == analysis.candidates@[b].local_path
        },
        res matches Ok(plan) ==> analysis.schema_version@ == ANALYSIS_REPORT_SCHEMA_VERSION@
            && analysis.scan.budget_exceeded@.len() == 0
            && !selection_overlaps(analysis.candidates@, selection@)
            && plans_analysis(plan, scan_roots@, ruleset_versions@, entries@, *analysis, selection@, *policy)
            && pairwise_disjoint(plan.items@),
        never_cancels(*cancelled) && analysis.schema_version@ == ANALYSIS_REPORT_SCHEMA_VERSION@
            && analysis.scan.budget_exceeded@.len() == 0
            && !selection_overlaps(analysis.candidates@, selection@) ==> res is Ok,
        analysis.schema_version@ != ANALYSIS_REPORT_SCHEMA_VERSION@ || analysis.scan.budget_exceeded@.len() > 0
            || selection_overlaps(analysis.candidates@, selection@) ==> res is Err,
{
    match check_work(cancelled) {
        Err(stop) => {
            return Err(stop);
        },
        Ok(()) => {},
    }
    if !str_eq(analysis.schema_version.as_str(), ANALYSIS_REPORT_SCHEMA_VERSION) {
        return Err(WorkError::Failed(CleanupPlanBuildError::UnsupportedAnalysisSchema {
            found: analysis.schema_version.clone(),
        }));
    }
    if analysis.scan.budget_exceeded.len() > 0 {
        return Err(WorkError::Failed(CleanupPlanBuildError::ScanBudgetExceeded));
    }
    match selection_conflict(analysis.candidates.as_slice(), selection) {
        Some((left, right)) => {
            return Err(WorkError::Failed(CleanupPlanBuildError::OverlappingSelection { left, right }));
        },
        None => {},
    }
    check_work(cancelled)?;
    let (verdicts, Ghost(f)) = match candidate_verdicts(analysis.candidates.as_slice(), scan_roots.as_slice(), policy, cancelled) {
        Ok(found) => found,
        Err(stop) => {
            return Err(stop);
        },
    };
    check_work(cancelled)?;
    let items = project_candidates(analysis.candidates.as_slice(), entries, selection, verdicts.as_slice(), &analysis.policy);
    let ghost items_view = items@;
    let kept = remove_overlapping_items(items);
    let source_scan = CleanupPlanSourceScan {
        analysis_id: analysis.analysis_id.clone(),
        integrity: analysis.scan.integrity,
        budget_exceeded: Vec::new(),
        recommendation_policy: Some(analysis.policy.clone()),
        scope: None,
    };
    check_work(cancelled)?;
    let ghost kept_view = kept@;
    let plan = finish_cleanup_plan(scan_roots, ruleset_versions, kept, policy, Some(source_scan), plan_timestamp());
    proof {
        lemma_disjoint_permutation(kept_view, plan.items@);
        assert(plans_analysis(plan, scan_roots@, ruleset_versions@, entries@, *analysis, selection@, *policy)) by {
            assert(projects_candidates(items_view, analysis.candidates@, entries@, selection@, candidate_verdicts_under(analysis.candidates@, scan_roots@, f, *policy), analysis.policy));
            assert(removal_of(kept_view, items_view));
        }
    }
    check_work(cancelled)?;
    Ok(plan)
}

/// Build a cleanup plan from a single immutable analysis report and its user-owned selection.
pub fn build_cleanup_plan_from_analysis(
    scan_roots: Vec<String>,
    ruleset_versions: Vec<RulesetVersion>,
    entries: &[ScanEntry],
    analysis: &AnalysisReport,
    selection: &UserSelection,
    policy: &SafetyPolicy,
) -> (res: Result<CleanupPlan, CleanupPlanBuildError>)
    ensures
        res matches Err(e) ==> if analysis.schema_version@ != ANALYSIS_REPORT_SCHEMA_VERSION@ {
            e == CleanupPlanBuildError::UnsupportedAnalysisSchema { found: analysis.schema_version }
        } else if analysis.scan.budget_exceeded@.len() > 0 {
            e == CleanupPlanBuildError::ScanBudgetExceeded
        } else {
            e matches CleanupPlanBuildError::OverlappingSelection { left, right }
                && exists|a: int, b: int| #[trigger] selected_pair(analysis.candidates@, selection@, a, b)
                    && left == analysis.candidates@[a].local_path && right == analysis.candidates@[b].local_path
        },
        res is Ok <==> analysis.schema_version@ == ANALYSIS_REPORT_SCHEMA_VERSION@
            && analysis.scan.budget_exceeded@.len() == 0
            && !selection_overlaps(analysis.candidates@, selection@),
        res matches Ok(plan) ==> plans_analysis(plan, scan_roots@, ruleset_versions@, entries@, *analysis, selection@, *policy)
            && pairwise_disjoint(plan.items@),
{
    let never = never_cancelled;
    assert(never_cancels(never));
    uninterrupted(build_cleanup_plan_from_analysis_cancellable(
        scan_roots,
        ruleset_versions,
        entries,
        analysis,
        selection,
        policy,
        &never,
    ))
}

// ---------------------------------------------------------------- legacy entry plans

/// The position of the first hit with key `key`.
pub open spec fn first_hit_with_key(hits: Seq<RuleHit>, key: (Seq<char>, Seq<char>)) -> Option<int>
    decreases hits.len(),
{
    if hits.len() == 0 {
        None
    } else if (hits.last().rule_pack_id@, hits.last().rule_id@) == key && first_hit_with_key(hits.drop_last(), key) is None {
        Some(hits.len() - 1)
    } else {
        first_hit_with_key(hits.drop_last(), key)
    }
}

/// `best` is the hit of `hits` that its rule resolution's primary key names, if any.
pub open spec fn best_hit_of(hits: Seq<RuleHit>, best: Option<usize>) -> bool {
    exists|rules: RuleResolution|
        #![trigger resolves(rules, hits)]
        resolves(rules, hits) && match rules.primary {
            None => best is None,
            Some(key) => match first_hit_with_key(hits, key@) {
                Some(i) => best == Some(i as usize),
                None => best is None,
            },
        }
}

proof fn lemma_first_hit_bounds(hits: Seq<RuleHit>, key: (Seq<char>, Seq<char>))
    ensures
        first_hit_with_key(hits, key) matches Some(i) ==> 0 <= i < hits.len() && (hits[i].rule_pack_id@, hits[i].rule_id@) == key,
    decreases hits.len(),
{
    if hits.len() > 0 {
        lemma_first_hit_bounds(hits.drop_last(), key);
    }
}

/// The hit that the primary rule of `entry`'s resolved hits names.
pub fn best_hit(entry: &ScanEntry) -> (res: Option<usize>)
    ensures
        best_hit_of(entry.rule_hits@, res),
        res matches Some(i) ==> i < entry.rule_hits@.len(),
{
    let rules = resolve_rules(entry.rule_hits.as_slice());
    let ghost hits = entry.rule_hits@;
    match &rules.primary {
        None => {
            assert(resolves(rules, hits));
            None
        },
        Some(key) => {
            let mut found: Option<usize> = None;
            let mut i: usize = 0;
            while i < entry.rule_hits.len()
                invariant
                    i <= hits.len(),
                    hits == entry.rule_hits@,
                    match found {
                        Some(f) => first_hit_with_key(hits.take(i as int), key@) == Some(f as int),
                        None => first_hit_with_key(hits.take(i as int), key@) is None,
                    },
                decreases hits.len() - i,
            {
                let hit = &entry.rule_hits[i];
                proof {
                    assert(hits.take(i + 1).drop_last() =~= hits.take(i as int));
                    assert(hits.take(i + 1).last() == hit);
                }
                if found.is_none() && hit.rule_pack_id == key.rule_pack_id && hit.rule_id == key.rule_id {
                    found = Some(i);
                }
                i = i + 1;
            }
            proof {
                assert(hits.take(hits.len() as int) =~= hits);
                lemma_first_hit_bounds(hits, key@);
                assert(resolves(rules, hits));
            }
            found
        },
    }
}

/// A hit preselects its entry when it is default-selected, high confidence and trusted.
pub open spec fn hit_preselects(hit: RuleHit) -> bool {
    hit.default_selected && hit.confidence == Confidence::High && hit.trust != RuleTrust::Untrusted
}

/// `item` is the plan item for `entry` and its best hit `hit`.
pub open spec fn entry_item(item: CleanupItem, entry: ScanEntry, hit: RuleHit, entries: Seq<ScanEntry>) -> bool {
    &&& item.path == entry.path
    &&& item.kind == entry.kind
    &&& item.size_bytes == entry.size_bytes
    &&& item.modified_at == entry.modified_at
    &&& item.tree_fingerprint == if entry.kind == EntryKind::Directory { fingerprint_of(entries, components(entry.path@)) } else { None }
    &&& item.rule_id@ == rule_id_text(hit.rule_pack_id@, hit.rule_id@)
    &&& item.category == hit.category
    &&& item.confidence == hit.confidence
    &&& item.reason == hit.reason
    &&& item.risk_note == hit.risk_note
    &&& item.evidence is None
    &&& item.selected == hit_preselects(hit)
    &&& item.planned_action == PlannedAction::Trash
    &&& item.rollback_method@ == ROLLBACK_METHOD@
}

/// `items` are, in order, the items for the entries with a best hit that `verdicts` allows.
pub open spec fn projects_entries(items: Seq<CleanupItem>, entries: Seq<ScanEntry>, verdicts: Seq<bool>) -> bool {
    exists|idx: Seq<int>, best: Seq<Option<usize>>|
        #![trigger idx.len(), best.len()]
        idx.len() == items.len() && best.len() == entries.len()
        && (forall|i: int| 0 <= i < entries.len() ==> best_hit_of(entries[i].rule_hits@, #[trigger] best[i]))
        && (forall|k: int, m: int| 0 <= k < m < idx.len() ==> #[trigger] idx[k] < #[trigger] idx[m])
        && (forall|k: int| 0 <= k < idx.len() ==> 0 <= #[trigger] idx[k] < entries.len())
        && (forall|i: int| 0 <= i < entries.len() ==> (#[trigger] idx.contains(i) <==> (best[i] is Some && verdicts[i])))
        && (forall|k: int| 0 <= k < idx.len() ==> #[trigger] entry_item(items[k], entries[idx[k]],
            entries[idx[k]].rule_hits@[best[idx[k]]->0 as int], entries))
}

/// The plan items for the entries with a best hit that `verdicts` allows, in entry order.
pub fn project_entries(entries: &[ScanEntry], verdicts: &[bool]) -> (res: Vec<CleanupItem>)
    requires
        verdicts@.len() == entries@.len(),
    ensures
        projects_entries(res@, entries@, verdicts@),
{
    let mut dir_paths: Vec<String> = Vec::new();
    let mut i: usize = 0;
    while i < entries.len()
        invariant
            i <= entries@.len(),
            dir_paths@.len() == i,
            forall|k: int| 0 <= k < i ==> (#[trigger] dir_paths@[k]) == entries@[k].path,
        decreases entries.len() - i,
    {
        dir_paths.push(entries[i].path.clone());
        i = i + 1;
    }
    let fingerprints = tree_fingerprints(entries, dir_paths.as_slice());
    let mut items: Vec<CleanupItem> = Vec::new();
    let ghost mut idx: Seq<int> = Seq::empty();
    let ghost mut best: Seq<Option<usize>> = Seq::empty();
    let mut i: usize = 0;
    while i < entries.len()
        invariant
            i <= entries@.len(),
            verdicts@.len() == entries@.len(),
            fingerprints@.len() == entries@.len(),
            forall|k: int| 0 <= k < entries@.len() ==> #[trigger] fingerprints@[k] == fingerprint_of(entries@, components(entries@[k].path@)),
            idx.len() == items@.len(),
            best.len() == i,
            forall|q: int| 0 <= q < i ==> best_hit_of(entries@[q].rule_hits@, #[trigger] best[q]),
            forall|q: int| 0 <= q < i ==> (#[trigger] best[q] matches Some(h) ==> h < entries@[q].rule_hits@.len()),
            forall|k: int, m: int| 0 <= k < m < idx.len() ==> #[trigger] idx[k] < #[trigger] idx[m],
            forall|k: int| 0 <= k < idx.len() ==> 0 <= #[trigger] idx[k] < i,
            forall|q: int| 0 <= q < i ==> (#[trigger] idx.contains(q) <==> (best[q] is Some && verdicts@[q])),
            forall|k: int| 0 <= k < idx.len() ==> #[trigger] entry_item(items@[k], entries@[idx[k]],
                entries@[idx[k]].rule_hits@[best[idx[k]]->0 as int], entries@),
        decreases entries.len() - i,
    {
        let entry = &entries[i];
        proof {
            assert(entries@.take(i + 1).drop_last() =~= entries@.take(i as int));
        }
        let hit_index = best_hit(entry);
        let ghost best_before = best;
        proof {
            best = best.push(hit_index);
            assert forall|k: int| 0 <= k < idx.len() implies #[trigger] entry_item(items@[k], entries@[idx[k]],
                entries@[idx[k]].rule_hits@[best[idx[k]]->0 as int], entries@) by {
                assert(best[idx[k]] == best_before[idx[k]]);
            }
        }
        match hit_index {
            Some(h) => {
                if verdicts[i] {
                    let hit = &entry.rule_hits[h];
                    let with_colon = concat(hit.rule_pack_id.as_str(), ":");
                    let rule_id = concat(with_colon.as_str(), hit.rule_id.as_str());
                    proof {
                        reveal_strlit(":");
                        assert(rule_id@ =~= rule_id_text(hit.rule_pack_id@, hit.rule_id@));
                    }
                    let fingerprint = if entry.kind == EntryKind::Directory { fingerprints[i] } else { None };
                    let item = CleanupItem {
                        path: entry.path.clone(),
                        kind: entry.kind,
                        size_bytes: entry.size_bytes,
                        modified_at: entry.modified_at,
                        tree_fingerprint: fingerprint,
                        rule_id,
                        category: hit.category.clone(),
                        confidence: hit.confidence,
                        reason: hit.reason.clone(),
                        risk_note: hit.risk_note.clone(),
                        evidence: None,
                        selected: hit.default_selected && hit.confidence == Confidence::High && hit.trust != RuleTrust::Untrusted,
                        planned_action: PlannedAction::Trash,
                        rollback_method: ROLLBACK_METHOD.to_owned(),
                    };
                    let ghost before = items@;
                    let ghost idx_before = idx;
                    items.push(item);
                    proof {
                        idx = idx.push(i as int);
                        assert(items@.drop_last() =~= before);
                        assert forall|k: int| 0 <= k < idx.len() implies #[trigger] entry_item(items@[k], entries@[idx[k]],
                            entries@[idx[k]].rule_hits@[best[idx[k]]->0 as int], entries@) by {
                            if k < idx_before.len() {
                                assert(items@[k] == before[k]);
                                assert(idx[k] == idx_before[k]);
                            }
                        }
                        assert forall|q: int| 0 <= q < i + 1 implies (#[trigger] idx.contains(q) <==> (best[q] is Some && verdicts@[q])) by {
                            if q < i {
                                if idx_before.contains(q) {
                                    let k = choose|k: int| 0 <= k < idx_before.len() && idx_before[k] == q;
                                    assert(idx[k] == q);
                                }
                                if idx.contains(q) {
                                    let k = choose|k: int| 0 <= k < idx.len() && idx[k] == q;
                                    assert(k < idx_before.len());
                                    assert(idx_before[k] == q);
                                }
                            } else {
                                assert(idx[idx.len() - 1] == q);
                            }
                        }
                    }
                } else {
                    proof {
                        assert forall|q: int| 0 <= q < i + 1 implies (#[trigger] idx.contains(q) <==> (best[q] is Some && verdicts@[q])) by {
                            if q == i && idx.contains(q) {
                                let k = choose|k: int| 0 <= k < idx.len() && idx[k] == q;
                            }
                        }
                    }
                }
            },
            None => {
                proof {
                    assert forall|q: int| 0 <= q < i + 1 implies (#[trigger] idx.contains(q) <==> (best[q] is Some && verdicts@[q])) by {
                        if q == i && idx.contains(q) {
                            let k = choose|k: int| 0 <= k < idx.len() && idx[k] == q;
                        }
                    }
                }
            },
        }
        i = i + 1;
    }
    proof {
        assert(entries@.take(entries@.len() as int) =~= entries@);
        assert(idx.len() == items@.len() && best.len() == entries@.len());
    }
    items
}

/// Whether each entry may be planned as far as the filesystem decides: it is not a scan root
/// and the safety policy allows it, both judged on resolved paths, each text resolved once.
fn entry_verdicts(entries: &[ScanEntry], scan_roots: &[String], policy: &SafetyPolicy) -> (res: (Vec<bool>, Ghost<spec_fn(Seq<char>) -> Seq<char>>))
    ensures
        resolution_ok(res.1@),
        res.0@ == entry_verdicts_under(entries@, scan_roots@, res.1@, *policy),
{
    let mut cache: Vec<(String, String)> = Vec::new();
    let roots = resolve_roots(&mut cache, scan_roots);
    let ghost root_texts = string_texts(scan_roots@);
    let ghost all = Seq::new(scan_roots@.len(), |q: int| true);
    let ghost entry_texts = Seq::new(entries@.len(), |i: int| entries@[i].path@);
    let mut flags: Vec<bool> = Vec::new();
    let mut paths: Vec<String> = Vec::new();
    let mut i: usize = 0;
    while i < entries.len()
        invariant
            i <= entries@.len(),
            cache_ok(cache@),
            root_texts == string_texts(scan_roots@),
            all == Seq::new(scan_roots@.len(), |q: int| true),
            entry_texts == Seq::new(entries@.len(), |i: int| entries@[i].path@),
            roots@.len() == scan_roots@.len(),
            resolves_marked(cache@, root_texts, all, roots@),
            flags@.len() == i,
            paths@.len() == i,
            forall|k: int| 0 <= k < i ==> #[trigger] flags@[k],
            resolves_marked(cache@, entry_texts.take(i as int), flags@, paths@),
        decreases entries.len() - i,
    {
        let ghost before = cache@;
        let ghost out = paths@;
        let ghost marks = flags@;
        let p = resolve_cached(&mut cache, entries[i].path.as_str());
        paths.push(p);
        flags.push(true);
        proof {
            lemma_resolves_marked_extends(before, cache@, root_texts, all, roots@);
            lemma_resolves_marked_extends(before, cache@, entry_texts.take(i as int), marks, out);
            assert forall|q: int| 0 <= q < entry_texts.take(i + 1).len() && #[trigger] flags@[q]
                implies cache_has(cache@, entry_texts.take(i + 1)[q]) && paths@[q]@ == resolution_of(cache@)(entry_texts.take(i + 1)[q]) by {
                if q < i {
                    assert(marks[q] == flags@[q] && out[q] == paths@[q]);
                    assert(entry_texts.take(i as int)[q] == entry_texts.take(i + 1)[q]);
                }
            }
        }
        i = i + 1;
    }
    let verdicts = plan_verdicts(flags.as_slice(), paths.as_slice(), roots.as_slice(), policy);
    let ghost f = resolution_of(cache@);
    proof {
        lemma_cache_resolution(cache@);
        assert(entry_texts.take(i as int) =~= entry_texts);
        assert forall|k: int| 0 <= k < entries@.len() implies #[trigger] verdicts@[k]
            == entry_verdicts_under(entries@, scan_roots@, f, *policy)[k] by {
            assert(flags@[k]);
            let p = paths@[k]@;
            assert(p == f(entries@[k].path@));
            assert(lists_root(roots@, p) == (exists|r: int| 0 <= r < scan_roots@.len() && same_path(f((#[trigger] scan_roots@[r])@), p))) by {
                if lists_root(roots@, p) {
                    let r = choose|r: int| 0 <= r < roots@.len() && same_path((#[trigger] roots@[r])@, p);
                    assert(all[r] && root_texts[r] == scan_roots@[r]@);
                }
                if exists|r: int| 0 <= r < scan_roots@.len() && same_path(f((#[trigger] scan_roots@[r])@), p) {
                    let r = choose|r: int| 0 <= r < scan_roots@.len() && same_path(f((#[trigger] scan_roots@[r])@), p);
                    assert(all[r] && root_texts[r] == scan_roots@[r]@);
                    assert(same_path(roots@[r]@, p));
                }
            }
        }
        assert(verdicts@ =~= entry_verdicts_under(entries@, scan_roots@, f, *policy));
    }
    (verdicts, Ghost(f))
}

/// `plan` holds the entries with a best hit whose resolved path names no resolved scan root and
/// that `policy` allows, with overlapping ones removed, ordered and summarised, without analysis
/// provenance. Each path text resolves, once, to itself or to an absolute path.
pub open spec fn plans_entries(
    plan: CleanupPlan,
    scan_roots: Seq<String>,
    ruleset_versions: Seq<RulesetVersion>,
    entries: Seq<ScanEntry>,
    policy: SafetyPolicy,
) -> bool {
    exists|f: spec_fn(Seq<char>) -> Seq<char>, items: Seq<CleanupItem>, kept: Seq<CleanupItem>|
        #![trigger projects_entries(items, entries, entry_verdicts_under(entries, scan_roots, f, policy)), removal_of(kept, items)]
        resolution_ok(f)
        && projects_entries(items, entries, entry_verdicts_under(entries, scan_roots, f, policy))
        && removal_of(kept, items)
        && assembles(plan, scan_roots, ruleset_versions, kept, policy, None)
}

/// Legacy policy-aware entry-only builder for callers that already know their scan is
/// complete. Scan roots and entries are resolved on the filesystem, each text once; scan roots
/// and what the safety policy refuses stay out.
pub fn build_cleanup_plan_with_policy(
    scan_roots: Vec<String>,
    ruleset_versions: Vec<RulesetVersion>,
    entries: &[ScanEntry],
    policy: &SafetyPolicy,
) -> (res: CleanupPlan)
    ensures
        plans_entries(res, scan_roots@, ruleset_versions@, entries@, *policy),
        pairwise_disjoint(res.items@),
{
    let (verdicts, Ghost(f)) = entry_verdicts(entries, scan_roots.as_slice(), policy);
    let items = project_entries(entries, verdicts.as_slice());
    let ghost items_view = items@;
    let kept = remove_overlapping_items(items);
    let ghost kept_view = kept@;
    let plan = finish_cleanup_plan(scan_roots, ruleset_versions, kept, policy, None, plan_timestamp());
    proof {
        lemma_disjoint_permutation(kept_view, plan.items@);
        assert(projects_entries(items_view, entries@, entry_verdicts_under(entries@, scan_roots@, f, *policy)));
        assert(removal_of(kept_view, items_view));
    }
    plan
}

/// Legacy entry-only builder with the default safety policy, which protects nothing and asks
/// for confirmation.
pub fn build_cleanup_plan(
    scan_roots: Vec<String>,
    ruleset_versions: Vec<RulesetVersion>,
    entries: &[ScanEntry],
) -> (res: CleanupPlan)
    ensures
        exists|policy: SafetyPolicy| #![trigger policy.spec_requires_confirmation()]
            policy.spec_protected_paths().len() == 0 && policy.spec_protected_subtrees().len() == 0
            && policy.spec_requires_confirmation() && plans_entries(res, scan_roots@, ruleset_versions@, entries@, policy),
        pairwise_disjoint(res.items@),
{
    let policy = SafetyPolicy::new(Vec::new(), true);
    build_cleanup_plan_with_policy(scan_roots, ruleset_versions, entries, &policy)
}


/// A candidate that counts as inactive under `policy`: one a plan may hold whose activity
/// meets the inactivity threshold.
pub open spec fn inactivity_qualified(c: CandidateEvidence, policy: RecommendationPolicy) -> bool {
    plannable(c) && policy.activity_meets(c.activity)
}

/// The number of candidates of `candidates` that count as inactive under `policy`.
pub open spec fn qualified_count(candidates: Seq<CandidateEvidence>, policy: RecommendationPolicy) -> nat
    decreases candidates.len(),
{
    if candidates.len() == 0 {
        0
    } else {
        qualified_count(candidates.drop_last(), policy) + if inactivity_qualified(candidates.last(), policy) { 1nat } else { 0nat }
    }
}

/// How many candidates of `analysis` a plan may hold whose activity meets the inactivity
/// threshold of the analysis's policy.
pub fn inactivity_qualified_candidate_count(analysis: &AnalysisReport) -> (res: usize)
    ensures
        res == qualified_count(analysis.candidates@, analysis.policy),
{
    let candidates = &analysis.candidates;
    let mut count: usize = 0;
    let mut i: usize = 0;
    while i < candidates.len()
        invariant
            i <= candidates@.len(),
            count <= i,
            count == qualified_count(candidates@.take(i as int), analysis.policy),
        decreases candidates.len() - i,
    {
        let c = &candidates[i];
        assert(candidates@.take(i + 1).drop_last() =~= candidates@.take(i as int));
        let state = c.recommendation.state;
        if state != RecommendationState::Suppressed && state != RecommendationState::Excluded
            && analysis.policy.activity_meets_inactivity_threshold(&c.activity) {
            count = count + 1;
        }
        i = i + 1;
    }
    assert(candidates@.take(candidates@.len() as int) =~= candidates@);
    count
}

} // verus!
