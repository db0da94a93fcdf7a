//! Properties the library keeps across its operations, stated over the models that the
//! operations' own contracts use.
use vstd::prelude::*;

use crate::agent::{all_commands, palette, usable};
use crate::planning::{candidate_verdicts_under, entry_verdicts_under};
use crate::config::{
    bool_named, bool_text, cleanup_action_named, cleanup_action_text, key_value, ui_theme_named,
    ui_theme_text, with_default_action, with_locale, with_preselect_after_days,
    with_require_confirm, with_stay_on_filesystem, with_theme, CleanupAction, Config, UiTheme,
};
use crate::evidence::{
    ActivityEvidence, CandidateCoverage, CandidateEvidence, RecommendationPolicy, RecommendationState, ReportIntegrity,
    RuleEvidenceView, RuleResolution, RuleResolutionState,
};
use crate::model::{
    global_kind_le, global_kind_name, global_kind_same, kind_parsed, sorted_unique_kinds_of, Confidence,
    GlobalScanKind, RuleHit, RuleMatchRole, RuleTrust, ScanEntry,
};
use crate::model::CleanupItem;
use crate::recommend::{
    decision_state, evidence_key_le, evidence_views, has_blocker, hit_evidence_view, hit_views,
    high_trusted_default, key_le, lemma_multiset_map, primary_rule_of, resolution_state_of,
    rules_resolved,
};
use crate::overlap::paths_overlap;
use crate::path::{is_filesystem_root, path_starts_with};
use crate::rules::{pack_valid, rule_matches, RuleDefinition, RulePack, NANOS_PER_DAY};
use crate::safety::{path_texts, sorted_unique_paths_of, string_path_le, string_same_path, SafetyPolicy};
use crate::sort::{adjacent_distinct, dedup_spec, lemma_dedup_sorted, sorted_by_le, total_preorder};
use crate::text::{ascii_lower, ascii_upper, contains_text, lower_all, occurs_at, replace_all, upper_all};

verus! {

// ---------------------------------------------------------------- safety

/// The filesystem root is never a cleanup candidate, whatever the policy protects.
pub proof fn law_filesystem_root_never_allowed(policy: SafetyPolicy, path: Seq<char>)
    requires
        is_filesystem_root(path),
    ensures
        !policy.allows(path),
{
}

/// A protected path blocks itself and every path above it.
pub proof fn law_protected_path_blocks_itself_and_ancestors(policy: SafetyPolicy, i: int, path: Seq<char>)
    requires
        0 <= i < policy.spec_protected_paths().len(),
        path_starts_with(policy.spec_protected_paths()[i]@, path),
    ensures
        !policy.allows(path),
{
    assert(path_texts(policy.spec_protected_paths())[i] == policy.spec_protected_paths()[i]@);
}

/// A protected subtree blocks itself, every path above it and every path below it.
pub proof fn law_protected_subtree_blocks_children_and_parents(policy: SafetyPolicy, i: int, path: Seq<char>)
    requires
        0 <= i < policy.spec_protected_subtrees().len(),
        path_starts_with(policy.spec_protected_subtrees()[i]@, path) || path_starts_with(path, policy.spec_protected_subtrees()[i]@),
    ensures
        !policy.allows(path),
{
    assert(path_texts(policy.spec_protected_subtrees())[i] == policy.spec_protected_subtrees()[i]@);
}

/// Overlap of two candidates does not depend on which is named first.
pub proof fn law_overlap_is_symmetric(a: Seq<char>, b: Seq<char>)
    ensures
        paths_overlap(a, b) == paths_overlap(b, a),
{
}

// ---------------------------------------------------------------- recommendations

/// A scan root, and a path that safety excludes, is excluded whatever its rules say.
pub proof fn law_roots_and_protected_paths_are_excluded(is_root: bool, allowed: bool, rules: RuleResolution, activity: ActivityEvidence, coverage: CandidateCoverage, integrity: ReportIntegrity, policy: RecommendationPolicy)
    requires
        is_root || !allowed,
    ensures
        decision_state(is_root, allowed, rules, activity, coverage, integrity, policy) == RecommendationState::Excluded,
{
}

/// A candidate is preselected only when its primary rule is selected by default, of high
/// confidence and trusted, and nothing blocks it.
pub proof fn law_preselection_needs_a_trusted_high_confidence_default(is_root: bool, allowed: bool, rules: RuleResolution, activity: ActivityEvidence, coverage: CandidateCoverage, integrity: ReportIntegrity, policy: RecommendationPolicy)
    requires
        decision_state(is_root, allowed, rules, activity, coverage, integrity, policy) == RecommendationState::Preselected,
    ensures
        !is_root && allowed,
        high_trusted_default(rules),
        !has_blocker(rules, activity, coverage, integrity, policy),
{
}

/// A candidate whose primary rule is untrusted is never preselected.
pub proof fn law_untrusted_rules_never_preselect(is_root: bool, allowed: bool, rules: RuleResolution, activity: ActivityEvidence, coverage: CandidateCoverage, integrity: ReportIntegrity, policy: RecommendationPolicy)
    requires
        primary_rule_of(rules) matches Some(r) && r.trust == RuleTrust::Untrusted,
    ensures
        decision_state(is_root, allowed, rules, activity, coverage, integrity, policy) != RecommendationState::Preselected,
{
}

// ---------------------------------------------------------------- selection

/// Selecting a candidate that was not selected and then deselecting it restores the selection.
pub proof fn law_select_then_deselect_restores(selection: Set<Seq<char>>, id: Seq<char>)
    requires
        !selection.contains(id),
    ensures
        selection.insert(id).remove(id) == selection,
{
    assert(selection.insert(id).remove(id) =~= selection);
}

/// Selecting is idempotent: selecting an already selected candidate changes nothing.
pub proof fn law_select_is_idempotent(selection: Set<Seq<char>>, id: Seq<char>)
    ensures
        selection.insert(id).insert(id) == selection.insert(id),
{
    assert(selection.insert(id).insert(id) =~= selection.insert(id));
}

// ---------------------------------------------------------------- settings

proof fn lemma_lower_literal(s: Seq<char>)
    requires
        forall|i: int| 0 <= i < s.len() ==> !('A' <= #[trigger] s[i] <= 'Z'),
    ensures
        lower_all(s) == s,
{
    assert(lower_all(s) =~= s);
}

/// A boolean setting reads back as the value it was given.
pub proof fn law_bool_text_round_trip(b: bool)
    ensures
        bool_named(bool_text(b)) == Some(b),
{
    reveal_strlit("true");
    reveal_strlit("false");
    reveal_strlit("1");
    reveal_strlit("yes");
    reveal_strlit("on");
    reveal_strlit("0");
    reveal_strlit("no");
    reveal_strlit("off");
    lemma_lower_literal(bool_text(b));
    if b {
        assert(bool_text(b) == "true"@);
    } else {
        assert(bool_text(b) != "true"@);
        assert(bool_text(b) != "1"@);
        assert(bool_text(b) != "yes"@);
        assert(bool_text(b) != "on"@);
    }
}

/// The name of a cleanup action reads back as that action.
pub proof fn law_cleanup_action_round_trip(a: CleanupAction)
    ensures
        cleanup_action_named(cleanup_action_text(a)) == Some(a),
{
    reveal_strlit("trash");
    lemma_lower_literal(cleanup_action_text(a));
}

/// The name of a theme reads back as that theme.
pub proof fn law_ui_theme_round_trip(t: UiTheme)
    ensures
        ui_theme_named(ui_theme_text(t)) == Some(t),
{
    reveal_strlit("auto");
    reveal_strlit("dark");
    reveal_strlit("light");
    lemma_lower_literal(ui_theme_text(t));
    assert("auto"@ != "dark"@) by {
        assert("auto"@[0] != "dark"@[0]);
    }
    assert("auto"@ != "light"@) by {
        assert("auto"@[0] != "light"@[0]);
    }
    assert("dark"@ != "light"@) by {
        assert("dark"@[0] != "light"@[0]);
    }
}

/// Each setting reads back as what was last written to it, and writing one setting leaves the
/// others as they were.
pub proof fn law_setting_reads_back(c: Config, stay: bool, action: CleanupAction, confirm: bool, days: u16, locale: Option<String>, theme: UiTheme, key: Seq<char>)
    ensures
        key_value(with_stay_on_filesystem(c, stay), "scan.stay_on_filesystem"@) == Some(bool_text(stay)),
        key_value(with_default_action(c, action), "cleanup.default_action"@) == Some(cleanup_action_text(action)),
        key_value(with_require_confirm(c, confirm), "cleanup.require_confirm"@) == Some(bool_text(confirm)),
        key_value(with_preselect_after_days(c, days), "recommendations.preselect_after_days"@) == Some(crate::text::decimal_text(days as nat)),
        key_value(with_theme(c, theme), "ui.theme"@) == Some(ui_theme_text(theme)),
        key != "scan.stay_on_filesystem"@ ==> key_value(with_stay_on_filesystem(c, stay), key) == key_value(c, key),
        key != "cleanup.default_action"@ ==> key_value(with_default_action(c, action), key) == key_value(c, key),
        key != "cleanup.require_confirm"@ ==> key_value(with_require_confirm(c, confirm), key) == key_value(c, key),
        key != "recommendations.preselect_after_days"@ ==> key_value(with_preselect_after_days(c, days), key) == key_value(c, key),
        key != "i18n.locale"@ ==> key_value(with_locale(c, locale), key) == key_value(c, key),
        key != "ui.theme"@ ==> key_value(with_theme(c, theme), key) == key_value(c, key),
{
    reveal_strlit("scan.stay_on_filesystem");
    reveal_strlit("cleanup.default_action");
    reveal_strlit("cleanup.require_confirm");
    reveal_strlit("recommendations.preselect_after_days");
    reveal_strlit("i18n.locale");
    reveal_strlit("ui.theme");
    assert("cleanup.default_action"@[0] != "scan.stay_on_filesystem"@[0]);
    assert("cleanup.require_confirm"@[0] != "scan.stay_on_filesystem"@[0]);
    assert("cleanup.require_confirm"@[8] != "cleanup.default_action"@[8]);
    assert("recommendations.preselect_after_days"@[0] != "scan.stay_on_filesystem"@[0]);
    assert("recommendations.preselect_after_days"@[0] != "cleanup.default_action"@[0]);
    assert("i18n.locale"@[0] != "scan.stay_on_filesystem"@[0]);
    assert("i18n.locale"@[0] != "cleanup.default_action"@[0]);
    assert("i18n.locale"@[0] != "recommendations.preselect_after_days"@[0]);
    assert("ui.theme"@[0] != "scan.stay_on_filesystem"@[0]);
    assert("ui.theme"@[0] != "cleanup.default_action"@[0]);
    assert("ui.theme"@[0] != "recommendations.preselect_after_days"@[0]);
    assert("ui.theme"@[0] != "i18n.locale"@[0]);
}

// ---------------------------------------------------------------- rules

/// In a valid rule pack every rule that is selected by default is of high confidence and is a
/// primary rule, never a fallback.
pub proof fn law_valid_pack_preselects_only_high_confidence_primary_rules(p: RulePack, j: int)
    requires
        pack_valid(p),
        0 <= j < p.rules@.len(),
        p.rules@[j].default_selected,
    ensures
        p.rules@[j].confidence == Confidence::High,
        p.rules@[j].match_role == RuleMatchRole::Primary,
{
    crate::rules::lemma_rule_fault_none(p, p.rules@.len() as int);
    assert(crate::rules::rule_fault(p, j) is None);
}

/// A project rule needs the whole scan: judged on one entry alone it never matches.
pub proof fn law_project_rules_need_the_scan(e: ScanEntry, r: RuleDefinition, as_of: i64)
    requires
        r.matcher.project is Some,
    ensures
        !rule_matches(e, r, as_of, None),
{
}

/// Age rules only gain matches as the reference time moves on: what matches at one time matches
/// at every later time.
pub proof fn law_rule_matches_stay_as_time_passes(e: ScanEntry, r: RuleDefinition, earlier: i64, later: i64, context: Option<Seq<ScanEntry>>)
    requires
        earlier <= later,
        rule_matches(e, r, earlier, context),
    ensures
        rule_matches(e, r, later, context),
{
    if let Some(d) = r.matcher.max_age_days {
        assert(earlier - d * NANOS_PER_DAY <= later - d * NANOS_PER_DAY);
    }
}

// ---------------------------------------------------------------- text

/// Replacing a pattern that does not occur leaves the text as it was.
pub proof fn law_replace_without_occurrence_is_identity(s: Seq<char>, pattern: Seq<char>, value: Seq<char>)
    requires
        pattern.len() > 0,
        !contains_text(s, pattern),
    ensures
        replace_all(s, pattern, value) == s,
    decreases s.len(),
{
    if s.len() >= pattern.len() {
        if s.take(pattern.len() as int) == pattern {
            assert(occurs_at(s, pattern, 0)) by {
                assert(s.subrange(0, pattern.len() as int) =~= s.take(pattern.len() as int));
            }
        }
        assert(!contains_text(s.drop_first(), pattern)) by {
            if contains_text(s.drop_first(), pattern) {
                let at = choose|at: int| occurs_at(s.drop_first(), pattern, at);
                assert(s.subrange(at + 1, at + 1 + pattern.len()) =~= s.drop_first().subrange(at, at + pattern.len()));
                assert(occurs_at(s, pattern, at + 1));
            }
        }
        law_replace_without_occurrence_is_identity(s.drop_first(), pattern, value);
        assert(seq![s[0]] + s.drop_first() =~= s);
    }
}

// ---------------------------------------------------------------- global scan kinds

proof fn lemma_lower_upper_literal(s: Seq<char>)
    requires
        forall|i: int| 0 <= i < s.len() ==> !('A' <= #[trigger] s[i] <= 'Z'),
    ensures
        lower_all(upper_all(s)) == s,
{
    assert forall|i: int| 0 <= i < s.len() implies ascii_lower(ascii_upper(#[trigger] s[i])) == s[i] by {
        let c = s[i];
        if 'a' <= c && c <= 'z' {
            let u = ((c as u32) - 32) as char;
            assert(u as u32 == (c as u32) - 32);
            assert('A' <= u && u <= 'Z');
            assert(((u as u32) + 32) as char == c);
        }
    }
    assert(lower_all(upper_all(s)) =~= s);
}

/// The name of each global scan kind is its own lower-case form, so it reads back as that kind
/// in any letter case, and no two kinds share a name.
pub proof fn law_global_kind_names_round_trip(kind: GlobalScanKind, other: GlobalScanKind)
    ensures
        lower_all(global_kind_name(kind)) == global_kind_name(kind),
        lower_all(upper_all(global_kind_name(kind))) == global_kind_name(kind),
        global_kind_name(other) == global_kind_name(kind) ==> other == kind,
{
    reveal_strlit("developer-caches");
    reveal_strlit("browser-caches");
    reveal_strlit("app-caches");
    reveal_strlit("temp-files");
    reveal_strlit("logs");
    reveal_strlit("downloads");
    lemma_lower_literal(global_kind_name(kind));
    lemma_lower_upper_literal(global_kind_name(kind));
    if global_kind_name(other) == global_kind_name(kind) && other != kind {
        assert(global_kind_name(other)[0] == global_kind_name(kind)[0]);
        assert(global_kind_name(other).len() == global_kind_name(kind).len());
    }
}

/// Reading the name of a global scan kind, in lower or in upper case, gives that kind.
pub proof fn law_global_kinds_parse_in_any_case(
    kind: GlobalScanKind,
    from_lower: Result<GlobalScanKind, String>,
    from_upper: Result<GlobalScanKind, String>,
)
    requires
        kind_parsed(global_kind_name(kind), from_lower),
        kind_parsed(upper_all(global_kind_name(kind)), from_upper),
    ensures
        from_lower == Ok::<GlobalScanKind, String>(kind),
        from_upper == Ok::<GlobalScanKind, String>(kind),
{
    law_global_kind_names_round_trip(kind, kind);
    assert(global_kind_name(kind) == lower_all(global_kind_name(kind)));
    if let Ok(k) = from_lower {
        law_global_kind_names_round_trip(kind, k);
    }
    if let Ok(k) = from_upper {
        law_global_kind_names_round_trip(kind, k);
    }
}

proof fn lemma_dedup_of_distinct<T>(s: Seq<T>, eq: spec_fn(T, T) -> bool)
    requires
        adjacent_distinct(s, eq),
    ensures
        dedup_spec(s, eq) == s,
    decreases s.len(),
{
    if s.len() > 1 {
        let t = s.drop_last();
        assert(adjacent_distinct(t, eq)) by {
            assert forall|i: int| 0 <= i < t.len() - 1 implies !eq(#[trigger] t[i], t[i + 1]) by {
                assert(t[i] == s[i] && t[i + 1] == s[i + 1]);
            }
        }
        lemma_dedup_of_distinct(t, eq);
        assert(!eq(s[s.len() - 2], s[s.len() - 1]));
        assert(t.last() == s[s.len() - 2]);
        assert(t.push(s.last()) =~= s);
    }
}

/// Normalizing the global kinds of a scan scope a second time changes nothing.
pub proof fn law_scope_kinds_normalize_once(
    kinds: Seq<GlobalScanKind>,
    once: Seq<GlobalScanKind>,
    twice: Seq<GlobalScanKind>,
)
    requires
        sorted_unique_kinds_of(kinds, once),
        sorted_by_le(once, global_kind_le()),
        adjacent_distinct(once, global_kind_same()),
        sorted_unique_kinds_of(once, twice),
    ensures
        twice == once,
{
    let sorted = choose|sorted: Seq<GlobalScanKind>|
        #![trigger dedup_spec(sorted, global_kind_same())]
        sorted.to_multiset() == once.to_multiset() && sorted_by_le(sorted, global_kind_le()) && twice
            == dedup_spec(sorted, global_kind_same());
    let le = global_kind_le();
    assert(vstd::relations::total_ordering(le)) by {
        assert(vstd::relations::antisymmetric(le)) by {
            assert forall|a: GlobalScanKind, b: GlobalScanKind| #[trigger] le(a, b) && #[trigger] le(b, a) implies a == b by {
                assert(crate::model::global_kind_rank(a) == crate::model::global_kind_rank(b));
            }
        }
    }
    assert(vstd::relations::sorted_by(sorted, le));
    assert(vstd::relations::sorted_by(once, le));
    vstd::seq_lib::lemma_sorted_unique(sorted, once, le);
    lemma_dedup_of_distinct(once, global_kind_same());
}

/// Two sequences with the same elements, both sorted by the total preorder `le`, are equal when
/// no two positions of the first hold elements that `le` orders both ways.
proof fn lemma_sorted_unique_strict<T>(x: Seq<T>, y: Seq<T>, le: spec_fn(T, T) -> bool)
    requires
        total_preorder(le),
        sorted_by_le(x, le),
        sorted_by_le(y, le),
        x.to_multiset() == y.to_multiset(),
        forall|i: int, j: int| 0 <= i < x.len() && 0 <= j < x.len() && i != j ==> !(le(#[trigger] x[i], #[trigger] x[j]) && le(x[j], x[i])),
    ensures
        x == y,
    decreases x.len(),
{
    broadcast use vstd::multiset::group_multiset_axioms;
    broadcast use vstd::seq_lib::group_to_multiset_ensures;

    if x.len() == 0 || y.len() == 0 {
        assert(x.to_multiset().len() == x.len());
        assert(y.to_multiset().len() == y.len());
        assert(x =~= y);
    } else {
        assert(x.to_multiset().contains(y[0]));
        let i = choose|i: int| 0 <= i < x.len() && x[i] == y[0];
        assert(y.to_multiset().contains(x[0]));
        let j = choose|j: int| 0 <= j < y.len() && y[j] == x[0];
        assert(le(x[0], x[0]));
        if i != 0 {
            assert(le(x[0], x[i]));
            if j != 0 {
                assert(le(y[0], y[j]));
            }
            assert(le(x[i], x[0]));
        }
        assert(x[0] == y[0]);
        let xs = x.drop_first();
        let ys = y.drop_first();
        vstd::seq_lib::to_multiset_remove(x, 0);
        vstd::seq_lib::to_multiset_remove(y, 0);
        assert(x.remove(0) =~= xs);
        assert(y.remove(0) =~= ys);
        assert(sorted_by_le(xs, le)) by {
            assert forall|a: int, b: int| 0 <= a < b < xs.len() implies le(#[trigger] xs[a], #[trigger] xs[b]) by {
                assert(xs[a] == x[a + 1] && xs[b] == x[b + 1]);
            }
        }
        assert(sorted_by_le(ys, le)) by {
            assert forall|a: int, b: int| 0 <= a < b < ys.len() implies le(#[trigger] ys[a], #[trigger] ys[b]) by {
                assert(ys[a] == y[a + 1] && ys[b] == y[b + 1]);
            }
        }
        assert forall|a: int, b: int| 0 <= a < xs.len() && 0 <= b < xs.len() && a != b
            implies !(le(#[trigger] xs[a], #[trigger] xs[b]) && le(xs[b], xs[a])) by {
            assert(xs[a] == x[a + 1] && xs[b] == x[b + 1]);
        }
        lemma_sorted_unique_strict(xs, ys, le);
        assert(x =~= y) by {
            assert forall|k: int| 0 <= k < x.len() implies x[k] == y[k] by {
                if k > 0 {
                    assert(x[k] == xs[k - 1] && y[k] == ys[k - 1]);
                }
            }
        }
    }
}

/// Paths kept in order, each once, are pairwise ordered in one direction only.
proof fn lemma_kept_paths_strict(once: Seq<String>)
    requires
        sorted_by_le(once, string_path_le()),
        adjacent_distinct(once, string_same_path()),
    ensures
        forall|i: int, j: int| 0 <= i < once.len() && 0 <= j < once.len() && i != j
            ==> !(string_path_le()(#[trigger] once[i], #[trigger] once[j]) && string_path_le()(once[j], once[i])),
{
    let le = string_path_le();
    let same = string_same_path();
    assert forall|i: int, j: int| 0 <= i < once.len() && 0 <= j < once.len() && i != j
        implies !(le(#[trigger] once[i], #[trigger] once[j]) && le(once[j], once[i])) by {
        if le(once[i], once[j]) && le(once[j], once[i]) {
            let (a, b) = if i < j { (i, j) } else { (j, i) };
            crate::path::lemma_comps_le_antisymmetric(
                crate::path::components(once[a]@),
                crate::path::components(once[b]@),
            );
            let n = once[a + 1];
            assert(le(once[a], n));
            if a + 1 < b {
                assert(le(n, once[b]));
                crate::path::lemma_comps_le_transitive(
                    crate::path::components(n@),
                    crate::path::components(once[b]@),
                    crate::path::components(once[a]@),
                );
            }
            crate::path::lemma_comps_le_antisymmetric(
                crate::path::components(once[a]@),
                crate::path::components(n@),
            );
            assert(same(once[a], once[a + 1]));
            assert(!same(once[a], once[a + 1]));
        }
    }
}

/// Normalizing the explicit roots of a scan scope a second time changes nothing.
pub proof fn law_scope_roots_normalize_once(roots: Seq<String>, once: Seq<String>, twice: Seq<String>)
    requires
        sorted_unique_paths_of(roots, once),
        sorted_unique_paths_of(once, twice),
    ensures
        twice == once,
{
    let le = string_path_le();
    let same = string_same_path();
    crate::path::lemma_path_le_preorder();
    assert(total_preorder(le)) by {
        assert(le == (|a: String, b: String| crate::path::path_le(a@, b@)));
    }
    let first = choose|sorted: Seq<String>|
        #![trigger dedup_spec(sorted, same)]
        sorted.to_multiset() == roots.to_multiset() && sorted_by_le(sorted, le) && once == dedup_spec(sorted, same);
    lemma_dedup_sorted(first, le, same);
    let second = choose|sorted: Seq<String>|
        #![trigger dedup_spec(sorted, same)]
        sorted.to_multiset() == once.to_multiset() && sorted_by_le(sorted, le) && twice == dedup_spec(sorted, same);
    lemma_kept_paths_strict(once);
    lemma_sorted_unique_strict(once, second, le);
    lemma_dedup_of_distinct(once, same);
}

// ---------------------------------------------------------------- rule resolution

/// Rule evidence views ordered by key.
pub open spec fn view_key_le() -> spec_fn(RuleEvidenceView, RuleEvidenceView) -> bool {
    |a: RuleEvidenceView, b: RuleEvidenceView| key_le(a.0, b.0)
}

proof fn lemma_view_key_le_preorder()
    ensures
        total_preorder(view_key_le()),
{
    let le = view_key_le();
    assert forall|a: RuleEvidenceView, b: RuleEvidenceView| #[trigger] le(a, b) || le(b, a) by {
        crate::path::lemma_chars_le_total(a.0.0, b.0.0);
        crate::path::lemma_chars_le_total(a.0.1, b.0.1);
    }
    assert forall|a: RuleEvidenceView, b: RuleEvidenceView, c: RuleEvidenceView|
        #[trigger] le(a, b) && #[trigger] le(b, c) implies le(a, c) by {
        crate::path::lemma_chars_le_total(a.0.0, b.0.0);
        crate::path::lemma_chars_le_total(b.0.0, c.0.0);
        crate::path::lemma_chars_le_total(a.0.0, c.0.0);
        if crate::path::chars_le(a.0.0, b.0.0) && crate::path::chars_le(b.0.0, c.0.0) {
            crate::path::lemma_chars_le_transitive(a.0.0, b.0.0, c.0.0);
        }
        if crate::path::chars_le(a.0.1, b.0.1) && crate::path::chars_le(b.0.1, c.0.1) {
            crate::path::lemma_chars_le_transitive(a.0.1, b.0.1, c.0.1);
        }
    }
}

proof fn lemma_count_two<A>(s: Seq<A>, i: int, j: int)
    requires
        0 <= i < s.len(),
        0 <= j < s.len(),
        i != j,
        s[i] == s[j],
    ensures
        s.to_multiset().count(s[i]) >= 2,
{
    broadcast use vstd::multiset::group_multiset_axioms;
    broadcast use vstd::seq_lib::group_to_multiset_ensures;

    vstd::seq_lib::to_multiset_remove(s, i);
    let r = s.remove(i);
    let k = if j < i { j } else { j - 1 };
    assert(r[k] == s[j]);
    assert(r.contains(s[i]));
    vstd::seq_lib::to_multiset_contains(r, s[i]);
}

proof fn lemma_two_positions<A>(s: Seq<A>, v: A)
    requires
        s.to_multiset().count(v) >= 2,
    ensures
        exists|a: int, b: int| 0 <= a < s.len() && 0 <= b < s.len() && a != b && s[a] == v && s[b] == v,
{
    broadcast use vstd::multiset::group_multiset_axioms;
    broadcast use vstd::seq_lib::group_to_multiset_ensures;

    vstd::seq_lib::to_multiset_contains(s, v);
    let a = choose|a: int| 0 <= a < s.len() && s[a] == v;
    vstd::seq_lib::to_multiset_remove(s, a);
    let r = s.remove(a);
    vstd::seq_lib::to_multiset_contains(r, v);
    let k = choose|k: int| 0 <= k < r.len() && r[k] == v;
    let b = if k < a { k } else { k + 1 };
    assert(s[b] == v);
}

/// Resolving rule hits does not depend on their order: for hits that name no rule twice, a
/// resolution of the hits and one of any reordering of them list the same evidence in the same
/// order, reach the same state and name the same primary rule.
pub proof fn law_rule_resolution_ignores_hit_order(
    hits: Seq<RuleHit>,
    reordered: Seq<RuleHit>,
    first: RuleResolution,
    second: RuleResolution,
)
    requires
        reordered.to_multiset() == hits.to_multiset(),
        forall|a: int, b: int| 0 <= a < hits.len() && 0 <= b < hits.len() && a != b
            ==> hit_evidence_view(#[trigger] hits[a]).0 != hit_evidence_view(#[trigger] hits[b]).0,
        rules_resolved(hits, first),
        rules_resolved(reordered, second),
    ensures
        evidence_views(first.matched@) == evidence_views(second.matched@),
        first.state == second.state,
        first.primary is None <==> second.primary is None,
        first.primary matches Some(k) ==> second.primary matches Some(l) && k@ == l@,
{
    broadcast use vstd::multiset::group_multiset_axioms;
    broadcast use vstd::seq_lib::group_to_multiset_ensures;

    let h = hit_views(hits);
    let f = |r: RuleHit| hit_evidence_view(r);
    lemma_multiset_map(reordered, hits, f);
    assert(Seq::new(reordered.len(), |i: int| f(reordered[i])) =~= hit_views(reordered));
    assert(Seq::new(hits.len(), |i: int| f(hits[i])) =~= h);
    assert(hit_views(reordered).to_multiset() == h.to_multiset());
    let x = evidence_views(first.matched@);
    let y = evidence_views(second.matched@);
    let le = view_key_le();
    lemma_view_key_le_preorder();
    assert(sorted_by_le(x, le)) by {
        assert forall|i: int, j: int| 0 <= i < j < x.len() implies le(#[trigger] x[i], #[trigger] x[j]) by {
            assert(evidence_key_le()(first.matched@[i], first.matched@[j]));
        }
    }
    assert(sorted_by_le(y, le)) by {
        assert forall|i: int, j: int| 0 <= i < j < y.len() implies le(#[trigger] y[i], #[trigger] y[j]) by {
            assert(evidence_key_le()(second.matched@[i], second.matched@[j]));
        }
    }
    assert forall|i: int, j: int| 0 <= i < x.len() && 0 <= j < x.len() && i != j
        implies !(le(#[trigger] x[i], #[trigger] x[j]) && le(x[j], x[i])) by {
        if le(x[i], x[j]) && le(x[j], x[i]) {
            crate::path::lemma_chars_le_total(x[i].0.0, x[j].0.0);
            crate::path::lemma_chars_le_total(x[i].0.1, x[j].0.1);
            assert(x[i].0 == x[j].0);
            if x[i] == x[j] {
                lemma_count_two(x, i, j);
                lemma_two_positions(h, x[i]);
                let (a, b) = choose|a: int, b: int| 0 <= a < h.len() && 0 <= b < h.len() && a != b && h[a] == x[i] && h[b] == x[i];
                assert(hit_evidence_view(hits[a]).0 != hit_evidence_view(hits[b]).0);
            } else {
                vstd::seq_lib::to_multiset_contains(x, x[i]);
                vstd::seq_lib::to_multiset_contains(x, x[j]);
                vstd::seq_lib::to_multiset_contains(h, x[i]);
                vstd::seq_lib::to_multiset_contains(h, x[j]);
                let a = choose|a: int| 0 <= a < h.len() && h[a] == x[i];
                let b = choose|b: int| 0 <= b < h.len() && h[b] == x[j];
                assert(hit_evidence_view(hits[a]).0 != hit_evidence_view(hits[b]).0);
            }
        }
    }
    lemma_sorted_unique_strict(x, y, le);
    assert(first.matched@.len() == second.matched@.len());
    assert forall|i: int| 0 <= i < first.matched@.len() implies #[trigger] first.matched@[i]@ == second.matched@[i]@ by {
        assert(x[i] == y[i]);
    }
    assert(resolution_state_of(first.matched@) == resolution_state_of(second.matched@)) by {
        let m1 = first.matched@;
        let m2 = second.matched@;
        assert((forall|i: int| 0 <= i < m1.len() - 1 ==> crate::recommend::same_semantics(#[trigger] m1[i]@, m1[i + 1]@))
            == (forall|i: int| 0 <= i < m2.len() - 1 ==> crate::recommend::same_semantics(#[trigger] m2[i]@, m2[i + 1]@))) by {
            assert forall|i: int| 0 <= i < m1.len() - 1 implies (crate::recommend::same_semantics(#[trigger] m1[i]@, m1[i + 1]@)
                == crate::recommend::same_semantics(m2[i]@, m2[i + 1]@)) by {
                assert(m1[i]@ == m2[i]@ && m1[i + 1]@ == m2[i + 1]@);
            }
            assert forall|i: int| 0 <= i < m2.len() - 1 implies (crate::recommend::same_semantics(#[trigger] m2[i]@, m2[i + 1]@)
                == crate::recommend::same_semantics(m1[i]@, m1[i + 1]@)) by {
                assert(m1[i]@ == m2[i]@ && m1[i + 1]@ == m2[i + 1]@);
            }
        }
    }
    if first.matched@.len() > 0 {
        assert(first.matched@[0]@ == second.matched@[0]@);
    }
}

// ---------------------------------------------------------------- command palette

proof fn lemma_filter_keeps_all<A>(s: Seq<A>, keep: spec_fn(A) -> bool)
    requires
        forall|x: A| #[trigger] keep(x),
    ensures
        s.filter(keep) == s,
    decreases s.len(),
{
    reveal(Seq::filter);
    if s.len() > 0 {
        lemma_filter_keeps_all(s.drop_last(), keep);
        assert(s.drop_last().push(s.last()) =~= s);
    }
}

/// With scan results the palette holds every command; without them it holds, in the same order,
/// exactly those of the full palette that need no scan results.
pub proof fn law_palette_without_scan_is_the_filtered_palette()
    ensures
        palette(true) == all_commands(),
        palette(false) == palette(true).filter(|c: (Seq<char>, Seq<char>, Seq<char>, bool)| !c.3),
{
    let all = all_commands();
    let with = |c: (Seq<char>, Seq<char>, Seq<char>, bool)| !c.3 || true;
    let without = |c: (Seq<char>, Seq<char>, Seq<char>, bool)| !c.3 || false;
    let no_scan = |c: (Seq<char>, Seq<char>, Seq<char>, bool)| !c.3;
    assert(usable(true) =~= with);
    lemma_filter_keeps_all(all, with);
    assert(usable(false) =~= no_scan);
}

/// Five commands of the full palette need scan results.
pub proof fn law_palette_scan_commands()
    ensures
        all_commands().len() == 16,
        all_commands().filter(|c: (Seq<char>, Seq<char>, Seq<char>, bool)| c.3).len() == 5,
{
    reveal_with_fuel(Seq::filter, 17);
}

/// The commands of the full palette have pairwise different names.
#[verifier::rlimit(60)]
pub proof fn law_palette_names_differ()
    ensures
        forall|i: int, j: int| 0 <= i < all_commands().len() && 0 <= j < all_commands().len() && i != j
            ==> #[trigger] all_commands()[i].0 != #[trigger] all_commands()[j].0,
{
    reveal_strlit("/scan [path...]");
    reveal_strlit("/scan --global");
    reveal_strlit("/usage [path...]");
    reveal_strlit("/usage --global");
    reveal_strlit("/review");
    reveal_strlit("/plan");
    reveal_strlit("/clean");
    reveal_strlit("/clean --confirm");
    reveal_strlit("/export-plan [path]");
    reveal_strlit("/restore");
    reveal_strlit("/rules");
    reveal_strlit("/plugins");
    reveal_strlit("/languages");
    reveal_strlit("/tasks");
    reveal_strlit("/help");
    reveal_strlit("/quit");
    let all = all_commands();
    assert forall|i: int, j: int| 0 <= i < all.len() && 0 <= j < all.len() && i != j implies #[trigger] all[i].0 != #[trigger] all[j].0 by {
        if all[i].0 == all[j].0 {
            assert(all[i].0.len() == all[j].0.len());
            assert(all[i].0[1] == all[j].0[1]);
            assert(all[i].0[2] == all[j].0[2]);
            assert(all[i].0[3] == all[j].0[3]);
        }
    }
}

// ---------------------------------------------------------------- scan scope elements

proof fn lemma_dedup_covers<T>(s: Seq<T>, eq: spec_fn(T, T) -> bool)
    requires
        forall|a: T| #[trigger] eq(a, a),
        forall|a: T, b: T| #[trigger] eq(a, b) ==> eq(b, a),
    ensures
        forall|i: int| 0 <= i < s.len() ==> exists|j: int| 0 <= j < dedup_spec(s, eq).len() && eq(#[trigger] s[i], dedup_spec(s, eq)[j]),
    decreases s.len(),
{
    let d = dedup_spec(s, eq);
    if s.len() == 1 {
        assert(eq(s[0], d[0]));
    } else if s.len() > 1 {
        let t = s.drop_last();
        let prev = dedup_spec(t, eq);
        lemma_dedup_covers(t, eq);
        assert forall|i: int| 0 <= i < s.len() implies exists|j: int| 0 <= j < d.len() && eq(#[trigger] s[i], d[j]) by {
            if i < s.len() - 1 {
                assert(s[i] == t[i]);
                let j = choose|j: int| 0 <= j < prev.len() && eq(t[i], prev[j]);
                assert(d[j] == prev[j]);
            } else if prev.len() > 0 && eq(prev.last(), s.last()) {
                assert(eq(s[i], d[prev.len() - 1]));
            } else {
                assert(d[prev.len() as int] == s.last());
                assert(eq(s[i], d[prev.len() as int]));
            }
        }
    }
}

/// Normalizing the global kinds of a scan scope keeps exactly the given kinds, in strictly
/// ascending declared order.
pub proof fn law_scope_kinds_keep_the_given_kinds(kinds: Seq<GlobalScanKind>, kept: Seq<GlobalScanKind>)
    requires
        sorted_unique_kinds_of(kinds, kept),
    ensures
        forall|k: GlobalScanKind| kinds.contains(k) <==> kept.contains(k),
        forall|i: int, j: int| 0 <= i < j < kept.len()
            ==> crate::model::global_kind_rank(#[trigger] kept[i]) < crate::model::global_kind_rank(#[trigger] kept[j]),
{
    broadcast use vstd::seq_lib::group_to_multiset_ensures;

    let same = global_kind_same();
    let le = global_kind_le();
    let sorted = choose|sorted: Seq<GlobalScanKind>|
        #![trigger dedup_spec(sorted, same)]
        sorted.to_multiset() == kinds.to_multiset() && sorted_by_le(sorted, le) && kept == dedup_spec(sorted, same);
    lemma_dedup_sorted(sorted, le, same);
    lemma_dedup_covers(sorted, same);
    assert forall|k: GlobalScanKind| kinds.contains(k) <==> kept.contains(k) by {
        vstd::seq_lib::to_multiset_contains(kinds, k);
        vstd::seq_lib::to_multiset_contains(sorted, k);
        if kinds.contains(k) {
            let i = choose|i: int| 0 <= i < sorted.len() && sorted[i] == k;
            let j = choose|j: int| 0 <= j < kept.len() && same(sorted[i], kept[j]);
            assert(kept[j] == k);
        }
        if kept.contains(k) {
            let j = choose|j: int| 0 <= j < kept.len() && kept[j] == k;
            assert(sorted.contains(kept[j]));
        }
    }
    assert forall|i: int, j: int| 0 <= i < j < kept.len()
        implies crate::model::global_kind_rank(#[trigger] kept[i]) < crate::model::global_kind_rank(#[trigger] kept[j]) by {
        assert(le(kept[i], kept[j]));
        if crate::model::global_kind_rank(kept[i]) == crate::model::global_kind_rank(kept[j]) {
            assert(le(kept[i], kept[i + 1]));
            if i + 1 < j {
                assert(le(kept[i + 1], kept[j]));
            }
            assert(kept[i] == kept[i + 1]);
            assert(!same(kept[i], kept[i + 1]));
        }
    }
}

/// Some path of `v` names the path `p`.
pub open spec fn lists_path(v: Seq<String>, p: Seq<char>) -> bool {
    exists|i: int| 0 <= i < v.len() && crate::path::same_path(#[trigger] v[i]@, p)
}

/// Normalizing the explicit roots of a scan scope keeps exactly the given paths (a path counts
/// once however it is spelled), in strictly ascending path order.
pub proof fn law_scope_roots_keep_the_given_paths(roots: Seq<String>, kept: Seq<String>)
    requires
        sorted_unique_paths_of(roots, kept),
    ensures
        forall|p: Seq<char>| #[trigger] lists_path(roots, p) <==> lists_path(kept, p),
        forall|i: int, j: int| 0 <= i < j < kept.len() ==> crate::path::path_le(#[trigger] kept[i]@, #[trigger] kept[j]@)
            && !crate::path::same_path(kept[i]@, kept[j]@),
{
    broadcast use vstd::seq_lib::group_to_multiset_ensures;

    let same = string_same_path();
    let le = string_path_le();
    let sorted = choose|sorted: Seq<String>|
        #![trigger dedup_spec(sorted, same)]
        sorted.to_multiset() == roots.to_multiset() && sorted_by_le(sorted, le) && kept == dedup_spec(sorted, same);
    lemma_dedup_sorted(sorted, le, same);
    lemma_dedup_covers(sorted, same);
    lemma_kept_paths_strict(kept);
    assert forall|p: Seq<char>| #[trigger] lists_path(roots, p) <==> lists_path(kept, p) by {
        if exists|i: int| 0 <= i < roots.len() && crate::path::same_path(#[trigger] roots[i]@, p) {
            let i = choose|i: int| 0 <= i < roots.len() && crate::path::same_path(#[trigger] roots[i]@, p);
            vstd::seq_lib::to_multiset_contains(roots, roots[i]);
            vstd::seq_lib::to_multiset_contains(sorted, roots[i]);
            let m = choose|m: int| 0 <= m < sorted.len() && sorted[m] == roots[i];
            let j = choose|j: int| 0 <= j < kept.len() && same(sorted[m], kept[j]);
            assert(crate::path::same_path(kept[j]@, p));
        }
        if exists|j: int| 0 <= j < kept.len() && crate::path::same_path(#[trigger] kept[j]@, p) {
            let j = choose|j: int| 0 <= j < kept.len() && crate::path::same_path(#[trigger] kept[j]@, p);
            assert(sorted.contains(kept[j]));
            vstd::seq_lib::to_multiset_contains(sorted, kept[j]);
            vstd::seq_lib::to_multiset_contains(roots, kept[j]);
            let i = choose|i: int| 0 <= i < roots.len() && roots[i] == kept[j];
            assert(crate::path::same_path(roots[i]@, p));
        }
    }
    assert forall|i: int, j: int| 0 <= i < j < kept.len() implies crate::path::path_le(#[trigger] kept[i]@, #[trigger] kept[j]@)
        && !crate::path::same_path(kept[i]@, kept[j]@) by {
        assert(le(kept[i], kept[j]));
        if crate::path::same_path(kept[i]@, kept[j]@) {
            crate::path::lemma_comps_le_total(crate::path::components(kept[j]@), crate::path::components(kept[i]@));
            assert(le(kept[j], kept[i]));
        }
    }
}

// ---------------------------------------------------------------- plan verdicts

/// A candidate or an entry whose path is written as a scan root is written never gets into a
/// plan, and neither does one whose resolved path the safety policy refuses, however paths
/// resolve.
pub proof fn law_scan_roots_and_protected_paths_stay_out_of_plans(
    candidates: Seq<CandidateEvidence>,
    entries: Seq<ScanEntry>,
    roots: Seq<String>,
    f: spec_fn(Seq<char>) -> Seq<char>,
    policy: SafetyPolicy,
)
    ensures
        forall|i: int, r: int| 0 <= i < candidates.len() && 0 <= r < roots.len()
            && (#[trigger] candidates[i]).local_path@ == (#[trigger] roots[r])@
            ==> !candidate_verdicts_under(candidates, roots, f, policy)[i],
        forall|i: int, r: int| 0 <= i < entries.len() && 0 <= r < roots.len()
            && (#[trigger] entries[i]).path@ == (#[trigger] roots[r])@
            ==> !entry_verdicts_under(entries, roots, f, policy)[i],
        forall|i: int| 0 <= i < candidates.len() && !policy.allows(f((#[trigger] candidates[i]).local_path@))
            ==> !candidate_verdicts_under(candidates, roots, f, policy)[i],
        forall|i: int| 0 <= i < entries.len() && !policy.allows(f((#[trigger] entries[i]).path@))
            ==> !entry_verdicts_under(entries, roots, f, policy)[i],
{
    assert forall|i: int, r: int| 0 <= i < candidates.len() && 0 <= r < roots.len()
        && (#[trigger] candidates[i]).local_path@ == (#[trigger] roots[r])@
        implies !candidate_verdicts_under(candidates, roots, f, policy)[i] by {
        assert(crate::path::same_path(f(roots[r]@), f(candidates[i].local_path@)));
    }
    assert forall|i: int, r: int| 0 <= i < entries.len() && 0 <= r < roots.len()
        && (#[trigger] entries[i]).path@ == (#[trigger] roots[r])@
        implies !entry_verdicts_under(entries, roots, f, policy)[i] by {
        assert(crate::path::same_path(f(roots[r]@), f(entries[i].path@)));
    }
}

// ---------------------------------------------------------------- overlap primaries

/// Two candidates are alike for choosing a primary, but for confidence: both or neither are
/// excluded, both or neither are initially selected, and both have primary rules of the same
/// trust.
pub open spec fn alike_but_confidence(a: CandidateEvidence, b: CandidateEvidence) -> bool {
    &&& (a.recommendation.state == RecommendationState::Excluded) == (b.recommendation.state == RecommendationState::Excluded)
    &&& a.recommendation.initial_selected == b.recommendation.initial_selected
    &&& primary_rule_of(a.rules) is Some
    &&& primary_rule_of(b.rules) is Some
    &&& primary_rule_of(a.rules)->0.trust == primary_rule_of(b.rules)->0.trust
}

/// Among candidates alike but for confidence, one whose primary rule has strictly higher
/// confidence is preferred as a cluster's primary, and not the other way round.
pub proof fn law_higher_confidence_is_the_preferred_primary(a: CandidateEvidence, b: CandidateEvidence)
    requires
        alike_but_confidence(a, b),
        crate::model::confidence_rank(primary_rule_of(a.rules)->0.confidence)
            > crate::model::confidence_rank(primary_rule_of(b.rules)->0.confidence),
    ensures
        crate::overlap::preferred(a, b),
        !crate::overlap::preferred(b, a),
{
}

/// In a settled cluster, no member alike its primary but for confidence has a primary rule of
/// strictly higher confidence than the primary's.
pub proof fn law_cluster_primary_has_the_highest_confidence(
    before: Seq<CandidateEvidence>,
    marks_before: Seq<bool>,
    cluster: Seq<usize>,
    p: usize,
    after: Seq<CandidateEvidence>,
    marks_after: Seq<bool>,
    m: int,
)
    requires
        crate::overlap::cluster_settled(before, marks_before, cluster, p, after, marks_after),
        0 <= m < cluster.len(),
        cluster[m] < before.len(),
        p < before.len(),
        alike_but_confidence(before[cluster[m] as int], before[p as int]),
    ensures
        crate::model::confidence_rank(primary_rule_of(before[cluster[m] as int].rules)->0.confidence)
            <= crate::model::confidence_rank(primary_rule_of(before[p as int].rules)->0.confidence),
{
    let c = before[cluster[m] as int];
    let q = before[p as int];
    assert(!crate::overlap::preferred(c, q));
    if crate::model::confidence_rank(primary_rule_of(c.rules)->0.confidence)
        > crate::model::confidence_rank(primary_rule_of(q.rules)->0.confidence) {
        law_higher_confidence_is_the_preferred_primary(c, q);
    }
}

// ---------------------------------------------------------------- removing overlapping items

/// Item `a` outranks item `b` when an overlap leaves one of them: a selected item outranks an
/// unselected one; of two alike in selection, one of higher confidence does; and of two alike
/// in both, one at least as large does.
pub open spec fn outranks(a: CleanupItem, b: CleanupItem) -> bool {
    ||| (a.selected && !b.selected)
    ||| (a.selected == b.selected
        && crate::model::confidence_rank(a.confidence) > crate::model::confidence_rank(b.confidence))
    ||| (a.selected == b.selected && a.confidence == b.confidence && a.size_bytes >= b.size_bytes)
}

proof fn lemma_greedy_grows(s: Seq<CleanupItem>, k: int, n: int)
    requires
        0 <= k <= n <= s.len(),
    ensures
        crate::planning::greedy_kept(s, k).len() <= crate::planning::greedy_kept(s, n).len(),
        forall|i: int| 0 <= i < crate::planning::greedy_kept(s, k).len()
            ==> #[trigger] crate::planning::greedy_kept(s, n)[i] == crate::planning::greedy_kept(s, k)[i],
    decreases n - k,
{
    if k < n {
        lemma_greedy_grows(s, k, n - 1);
    }
}

proof fn lemma_greedy_from(s: Seq<CleanupItem>, k: int)
    requires
        0 <= k <= s.len(),
    ensures
        forall|i: int| 0 <= i < crate::planning::greedy_kept(s, k).len()
            ==> exists|j: int| 0 <= j < k && s[j] == #[trigger] crate::planning::greedy_kept(s, k)[i],
    decreases k,
{
    if k > 0 {
        lemma_greedy_from(s, k - 1);
        let prev = crate::planning::greedy_kept(s, k - 1);
        let cur = crate::planning::greedy_kept(s, k);
        assert forall|i: int| 0 <= i < cur.len() implies exists|j: int| 0 <= j < k && s[j] == #[trigger] cur[i] by {
            if i < prev.len() {
                assert(cur[i] == prev[i]);
                let j = choose|j: int| 0 <= j < k - 1 && s[j] == prev[i];
            } else {
                assert(cur[i] == s[k - 1]);
            }
        }
    }
}

/// Removing overlapping items drops an item only for an overlapping item that is kept and
/// outranks it: every item is kept, or some kept item overlaps it and outranks it.
pub proof fn law_dropped_items_yield_to_outranking_kept_items(kept: Seq<CleanupItem>, items: Seq<CleanupItem>)
    requires
        crate::planning::removal_of(kept, items),
    ensures
        forall|x: CleanupItem| #[trigger] items.contains(x) ==> kept.contains(x) || exists|m: int|
            0 <= m < kept.len() && crate::planning::item_paths_overlap((#[trigger] kept[m]).path@, x.path@)
                && outranks(kept[m], x),
{
    broadcast use vstd::seq_lib::group_to_multiset_ensures;

    let sorted = choose|sorted: Seq<CleanupItem>|
        #![trigger crate::planning::greedy_kept(sorted, sorted.len() as int)]
        sorted.to_multiset() == items.to_multiset() && sorted_by_le(sorted, crate::planning::removal_order())
        && kept == crate::planning::greedy_kept(sorted, sorted.len() as int);
    let n = sorted.len() as int;
    assert forall|x: CleanupItem| #[trigger] items.contains(x) implies kept.contains(x) || exists|m: int|
        0 <= m < kept.len() && crate::planning::item_paths_overlap((#[trigger] kept[m]).path@, x.path@)
            && outranks(kept[m], x) by {
        vstd::seq_lib::to_multiset_contains(items, x);
        vstd::seq_lib::to_multiset_contains(sorted, x);
        let k = choose|k: int| 0 <= k < n && sorted[k] == x;
        let prev = crate::planning::greedy_kept(sorted, k);
        lemma_greedy_grows(sorted, k, n);
        lemma_greedy_grows(sorted, k + 1, n);
        if crate::planning::overlaps_kept(prev, x) {
            let m = choose|m: int| 0 <= m < prev.len() && crate::planning::item_paths_overlap(#[trigger] prev[m].path@, x.path@);
            lemma_greedy_from(sorted, k);
            let j = choose|j: int| 0 <= j < k && sorted[j] == prev[m];
            assert(crate::planning::removal_order()(sorted[j], sorted[k]));
            assert(kept[m] == prev[m]);
        } else {
            let cur = crate::planning::greedy_kept(sorted, k + 1);
            assert(cur[prev.len() as int] == x);
            assert(kept[prev.len() as int] == x);
        }
    }
}

// ---------------------------------------------------------------- rule resolution state

/// Two matched rules disagree about safety: in category, confidence, default selection, trust,
/// reason or risk note.
pub open spec fn rules_disagree(a: crate::evidence::RuleEvidence, b: crate::evidence::RuleEvidence) -> bool {
    ||| a.category@ != b.category@
    ||| a.confidence != b.confidence
    ||| a.default_selected != b.default_selected
    ||| a.trust != b.trust
    ||| a.reason@ != b.reason@
    ||| a.risk_note@ != b.risk_note@
}

proof fn lemma_adjacent_agreement_spreads(m: Seq<crate::evidence::RuleEvidence>, i: int, j: int)
    requires
        0 <= i <= j < m.len(),
        forall|k: int| 0 <= k < m.len() - 1 ==> crate::recommend::same_semantics(#[trigger] m[k]@, m[k + 1]@),
    ensures
        !rules_disagree(m[i], m[j]),
    decreases j - i,
{
    if i < j {
        lemma_adjacent_agreement_spreads(m, i, j - 1);
        assert(crate::recommend::same_semantics(m[j - 1]@, m[j]@));
    }
}

/// How matched rules resolve: one rule is single; several rules resolve as equivalent when no
/// two of them disagree about safety, and otherwise as an unresolved conflict with no primary
/// rule.
pub proof fn law_rule_resolution_state(hits: Seq<RuleHit>, res: RuleResolution)
    requires
        rules_resolved(hits, res),
    ensures
        res.matched@.len() == 1 ==> res.state == RuleResolutionState::Single,
        res.matched@.len() != 1 && (exists|i: int, j: int| 0 <= i < res.matched@.len() && 0 <= j < res.matched@.len()
            && rules_disagree(#[trigger] res.matched@[i], #[trigger] res.matched@[j]))
            ==> res.state == RuleResolutionState::UnresolvedConflict && res.primary is None,
        res.matched@.len() != 1 && (forall|i: int, j: int| 0 <= i < res.matched@.len() && 0 <= j < res.matched@.len()
            ==> !rules_disagree(#[trigger] res.matched@[i], #[trigger] res.matched@[j]))
            ==> res.state == RuleResolutionState::Equivalent,
{
    let m = res.matched@;
    if m.len() != 1 {
        if forall|k: int| 0 <= k < m.len() - 1 ==> crate::recommend::same_semantics(#[trigger] m[k]@, m[k + 1]@) {
            assert forall|i: int, j: int| 0 <= i < m.len() && 0 <= j < m.len()
                implies !rules_disagree(#[trigger] m[i], #[trigger] m[j]) by {
                if i <= j {
                    lemma_adjacent_agreement_spreads(m, i, j);
                } else {
                    lemma_adjacent_agreement_spreads(m, j, i);
                }
            }
        } else {
            let k = choose|k: int| 0 <= k < m.len() - 1 && !crate::recommend::same_semantics(#[trigger] m[k]@, m[k + 1]@);
            assert(rules_disagree(m[k], m[k + 1]));
        }
        if forall|i: int, j: int| 0 <= i < m.len() && 0 <= j < m.len() ==> !rules_disagree(#[trigger] m[i], #[trigger] m[j]) {
            assert forall|k: int| 0 <= k < m.len() - 1 implies crate::recommend::same_semantics(#[trigger] m[k]@, m[k + 1]@) by {
                assert(!rules_disagree(m[k], m[k + 1]));
            }
        }
    }
}

// ---------------------------------------------------------------- single matcher fields

/// The matcher gives no field but the one numbered `field` (kind, directory name, file name,
/// extension, minimum size, maximum age, path glob, project, in that order).
pub open spec fn only_field(m: crate::rules::RuleMatcher, field: int) -> bool {
    &&& (field != 0 ==> m.kind is None)
    &&& (field != 1 ==> m.dir_name is None)
    &&& (field != 2 ==> m.file_name is None)
    &&& (field != 3 ==> m.extension is None)
    &&& (field != 4 ==> m.min_size is None)
    &&& (field != 5 ==> m.max_age_days is None)
    &&& (field != 6 ==> m.path_glob is None)
    &&& (field != 7 ==> m.project is None)
}

/// A rule whose only matcher is a minimum size `s` matches exactly the entries of at least `s`
/// bytes.
pub proof fn law_min_size_matches_large_entries(e: ScanEntry, r: RuleDefinition, as_of: i64, context: Option<Seq<ScanEntry>>, s: u64)
    requires
        only_field(r.matcher, 4),
        r.matcher.min_size == Some(s),
    ensures
        rule_matches(e, r, as_of, context) <==> e.size_bytes >= s,
{
}

/// A rule whose only matcher is a maximum age of `d` days matches exactly the entries with a
/// timestamp at least `d` days before `as_of`.
pub proof fn law_max_age_matches_old_entries(e: ScanEntry, r: RuleDefinition, as_of: i64, context: Option<Seq<ScanEntry>>, d: i64)
    requires
        only_field(r.matcher, 5),
        r.matcher.max_age_days == Some(d),
    ensures
        rule_matches(e, r, as_of, context) <==> (e.modified_at matches Some(t) && as_of - t >= d * NANOS_PER_DAY),
{
}

/// A rule whose only matcher is an entry kind matches exactly the entries of that kind.
pub proof fn law_kind_matches_that_kind(e: ScanEntry, r: RuleDefinition, as_of: i64, context: Option<Seq<ScanEntry>>, k: crate::model::EntryKind)
    requires
        only_field(r.matcher, 0),
        r.matcher.kind == Some(k),
    ensures
        rule_matches(e, r, as_of, context) <==> e.kind == k,
{
}

/// A rule whose only matcher is a directory name matches exactly the directories of that name.
pub proof fn law_dir_name_matches_named_directories(e: ScanEntry, r: RuleDefinition, as_of: i64, context: Option<Seq<ScanEntry>>, n: String)
    requires
        only_field(r.matcher, 1),
        r.matcher.dir_name == Some(n),
    ensures
        rule_matches(e, r, as_of, context) <==> (e.kind == crate::model::EntryKind::Directory
            && crate::rules::name_of(e.path@) == Some(n@)),
{
}

/// A rule whose only matcher is a file name matches exactly the entries of that name that are
/// no directories.
pub proof fn law_file_name_matches_named_files(e: ScanEntry, r: RuleDefinition, as_of: i64, context: Option<Seq<ScanEntry>>, n: String)
    requires
        only_field(r.matcher, 2),
        r.matcher.file_name == Some(n),
    ensures
        rule_matches(e, r, as_of, context) <==> (e.kind != crate::model::EntryKind::Directory
            && crate::rules::name_of(e.path@) == Some(n@)),
{
}

/// A rule whose only matcher is an extension matches exactly the entries with that extension in
/// any letter case.
pub proof fn law_extension_matches_in_any_case(e: ScanEntry, r: RuleDefinition, as_of: i64, context: Option<Seq<ScanEntry>>, x: String)
    requires
        only_field(r.matcher, 3),
        r.matcher.extension == Some(x),
    ensures
        rule_matches(e, r, as_of, context) <==> (crate::rules::path_extension(e.path@) matches Some(y)
            && lower_all(y) == lower_all(x@)),
{
}

// ---------------------------------------------------------------- activity source

/// Which timestamps the latest observed one of a candidate came from: its own alone where it is
/// strictly later than every descendant's (or there is none of those), the descendants' alone
/// in the opposite case, both where they tie, and none where there are neither.
pub proof fn law_activity_source(facts: crate::activity::ActivityFacts, coverage: CandidateCoverage, as_of: i64)
    ensures ({
        let source = crate::activity::evidence_of(facts, coverage, as_of).source;
        &&& (source == crate::evidence::ActivitySource::Own) <==> (facts.own_latest matches Some(o)
            && (facts.descendant_latest matches Some(d) ==> o > d))
        &&& (source == crate::evidence::ActivitySource::Descendant) <==> (facts.descendant_latest matches Some(d)
            && (facts.own_latest matches Some(o) ==> d > o))
        &&& (source == crate::evidence::ActivitySource::OwnAndDescendant) <==> (facts.own_latest is Some
            && facts.own_latest == facts.descendant_latest)
        &&& (source == crate::evidence::ActivitySource::Unavailable) <==> (facts.own_latest is None
            && facts.descendant_latest is None)
    }),
{
}

proof fn lemma_descendant_latest_is_observed(entries: Seq<ScanEntry>, base: Seq<Seq<char>>, as_of: i64, k: int)
    requires
        0 <= k <= entries.len(),
    ensures
        crate::activity::descendant_facts(entries, base, as_of, k).0 matches Some(x) ==> exists|j: int|
            0 <= j < k && crate::activity::contributes(entries, base, j) && (#[trigger] entries[j]).modified_at == Some(x),
    decreases k,
{
    if k > 0 {
        lemma_descendant_latest_is_observed(entries, base, as_of, k - 1);
    }
}

/// A candidate whose own timestamp is strictly later than the timestamp of every entry that
/// counts towards its tree's activity reports its own timestamp as the source of its activity.
pub proof fn law_own_latest_timestamp_is_the_source(
    entries: Seq<ScanEntry>,
    own: int,
    as_of: i64,
    issues: Seq<crate::evidence::ScanIssue>,
    coverage: CandidateCoverage,
)
    requires
        0 <= own < entries.len(),
        crate::activity::facts_of(entries, own, as_of, issues).own_latest is Some,
        forall|j: int| 0 <= j < entries.len()
            && crate::activity::contributes(entries, crate::activity::entry_comps(entries, own), j)
            && (#[trigger] entries[j]).modified_at is Some
            ==> entries[j].modified_at->0 < crate::activity::facts_of(entries, own, as_of, issues).own_latest->0,
    ensures
        crate::activity::evidence_of(crate::activity::facts_of(entries, own, as_of, issues), coverage, as_of).source
            == crate::evidence::ActivitySource::Own,
{
    let base = crate::activity::entry_comps(entries, own);
    lemma_descendant_latest_is_observed(entries, base, as_of, entries.len() as int);
    law_activity_source(crate::activity::facts_of(entries, own, as_of, issues), coverage, as_of);
}

// ---------------------------------------------------------------- preference and plan order

/// Whether the candidate is excluded.
pub open spec fn excluded(c: CandidateEvidence) -> bool {
    c.recommendation.state == RecommendationState::Excluded
}

/// How a cluster chooses between two candidates, tier by tier: an included candidate over an
/// excluded one; then an initially selected one over one that is not; then, for primary rules of
/// different trust, the more trusted; then the more confident; then the shallower path.
pub proof fn law_primary_preference_tiers(a: CandidateEvidence, b: CandidateEvidence)
    ensures
        !excluded(a) && excluded(b) ==> crate::overlap::preferred(a, b) && !crate::overlap::preferred(b, a),
        excluded(a) == excluded(b) && a.recommendation.initial_selected && !b.recommendation.initial_selected
            ==> crate::overlap::preferred(a, b) && !crate::overlap::preferred(b, a),
        excluded(a) == excluded(b) && a.recommendation.initial_selected == b.recommendation.initial_selected
            && primary_rule_of(a.rules) is Some && primary_rule_of(b.rules) is Some
            && crate::model::trust_rank(primary_rule_of(a.rules)->0.trust) > crate::model::trust_rank(primary_rule_of(b.rules)->0.trust)
            ==> crate::overlap::preferred(a, b) && !crate::overlap::preferred(b, a),
        alike_but_confidence(a, b) && primary_rule_of(a.rules)->0.confidence == primary_rule_of(b.rules)->0.confidence
            && crate::path::depth(a.local_path@) < crate::path::depth(b.local_path@)
            ==> crate::overlap::preferred(a, b) && !crate::overlap::preferred(b, a),
{
}

/// The items of a plan come selected first; then by higher confidence; then larger first.
pub proof fn law_plan_items_order(
    plan: crate::model::CleanupPlan,
    scan_roots: Seq<String>,
    ruleset_versions: Seq<crate::model::RulesetVersion>,
    items: Seq<CleanupItem>,
    policy: SafetyPolicy,
    source_scan: Option<crate::model::CleanupPlanSourceScan>,
)
    requires
        crate::planning::assembles(plan, scan_roots, ruleset_versions, items, policy, source_scan),
    ensures
        forall|i: int, j: int| 0 <= i < j < plan.items@.len() ==> {
            let a = #[trigger] plan.items@[i];
            let b = #[trigger] plan.items@[j];
            &&& b.selected ==> a.selected
            &&& a.selected == b.selected ==> crate::model::confidence_rank(a.confidence) >= crate::model::confidence_rank(b.confidence)
            &&& a.selected == b.selected && a.confidence == b.confidence ==> a.size_bytes >= b.size_bytes
        },
{
    assert forall|i: int, j: int| 0 <= i < j < plan.items@.len() implies {
        let a = #[trigger] plan.items@[i];
        let b = #[trigger] plan.items@[j];
        &&& b.selected ==> a.selected
        &&& a.selected == b.selected ==> crate::model::confidence_rank(a.confidence) >= crate::model::confidence_rank(b.confidence)
        &&& a.selected == b.selected && a.confidence == b.confidence ==> a.size_bytes >= b.size_bytes
    } by {
        assert(crate::planning::plan_order()(plan.items@[i], plan.items@[j]));
    }
}

} // verus!
