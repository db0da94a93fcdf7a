//! Declarative cleanup rules: rule packs, their validation, and matching scan entries.
//!
//! Globs are evaluated by the `globset` crate; what a glob accepts and matches is named, not
//! restated, here.
use vstd::prelude::*;

use crate::model::{
    Confidence, EntryKind, RuleHit, RuleTrust, RulesetVersion, ScanEntry, RuleMatchRole, RulePlatform, RuleSource, ScanLocationDefinition,
    ScanLocationMode, ScanLocationPack,
};
use crate::path::{chars_le, components, path_components, texts};
use crate::plugin::{
    is_semver, version_parses, DiagnosticSeverity, PluginDiagnostic, PluginSource, TrustLevel,
};
use crate::text::{blank, chars_of, is_blank, lower_all, str_eq};

verus! {

// ---------------------------------------------------------------- globs

/// Whether `globset::GlobBuilder` builds `pattern` as a segment-aware path glob (`*` does not
/// cross `/`, and `\` is an ordinary character) and a `GlobSet` of it builds.
pub uninterp spec fn path_glob_valid(pattern: Seq<char>) -> bool;

/// Whether the `GlobSet` of the segment-aware path glob `pattern` matches `path`.
pub uninterp spec fn path_glob_match(pattern: Seq<char>, path: Seq<char>) -> bool;

/// Whether `globset::Glob::new` accepts `pattern` and a `GlobSet` of it builds.
pub uninterp spec fn name_glob_valid(pattern: Seq<char>) -> bool;

/// Whether the `GlobSet` of the glob `pattern`, with `globset`'s default options, matches
/// `name`.
pub uninterp spec fn name_glob_match(pattern: Seq<char>, name: Seq<char>) -> bool;

/// A path glob a rule may hold: one whose glob set builds.
pub open spec fn path_glob_ok(pattern: Seq<char>) -> bool {
    path_glob_valid(pattern)
}

/// A name glob a rule may hold: one whose glob set builds.
pub open spec fn name_glob_ok(pattern: Seq<char>) -> bool {
    name_glob_valid(pattern)
}

/// `globset::GlobBuilder::new(pattern)` with `literal_separator(true)` and
/// `backslash_escape(false)`: whether `build` succeeds and `GlobSetBuilder::build` of the glob
/// succeeds. The set build reports a regular expression past `globset`'s size limit as an error.
#[verifier::external_body]
fn compile_path_glob(pattern: &str) -> (res: bool)
    ensures
        res == path_glob_valid(pattern@),
{
    match globset::GlobBuilder::new(pattern).literal_separator(true).backslash_escape(false).build() {
        Ok(glob) => globset::GlobSetBuilder::new().add(glob).build().is_ok(),
        Err(_) => false,
    }
}

/// `GlobSet::is_match` on `path` for the set of the segment-aware path glob `pattern`.
///
/// The set is built with `GlobSetBuilder::build`, which returns an error, not a panic, for a
/// regular expression past the size limit; `requires` admits only patterns whose set builds.
#[verifier::external_body]
fn path_glob_is_match(pattern: &str, path: &str) -> (res: bool)
    requires
        path_glob_ok(pattern@),
    ensures
        res == path_glob_match(pattern@, path@),
{
    match globset::GlobBuilder::new(pattern).literal_separator(true).backslash_escape(false).build() {
        Ok(glob) => match globset::GlobSetBuilder::new().add(glob).build() {
            Ok(set) => set.is_match(path),
            Err(_) => false,
        },
        Err(_) => false,
    }
}

/// `globset::Glob::new(pattern)`: whether the pattern parses and `GlobSetBuilder::build` of it
/// succeeds.
#[verifier::external_body]
pub(crate) fn name_glob_parses(pattern: &str) -> (res: bool)
    ensures
        res == name_glob_valid(pattern@),
{
    match globset::Glob::new(pattern) {
        Ok(glob) => globset::GlobSetBuilder::new().add(glob).build().is_ok(),
        Err(_) => false,
    }
}

/// `GlobSet::is_match` on `name` for the set of the glob `pattern` with default options, built
/// as for path globs.
#[verifier::external_body]
pub(crate) fn name_glob_is_match(pattern: &str, name: &str) -> (res: bool)
    requires
        name_glob_ok(pattern@),
    ensures
        res == name_glob_match(pattern@, name@),
{
    match globset::Glob::new(pattern) {
        Ok(glob) => match globset::GlobSetBuilder::new().add(glob).build() {
            Ok(set) => set.is_match(name),
            Err(_) => false,
        },
        Err(_) => false,
    }
}

// ---------------------------------------------------------------- rule packs

/// A versioned set of cleanup rules with the provenance they cite.
#[derive(Debug, Clone, PartialEq, Eq)]
pub struct RulePack {
    pub id: String,
    pub name: String,
    pub version: String,
    pub description: String,
    pub categories: Vec<String>,
    pub sources: Vec<RuleSource>,
    pub rules: Vec<RuleDefinition>,
}

/// One cleanup rule.
#[derive(Debug, Clone, PartialEq, Eq)]
pub struct RuleDefinition {
    pub id: String,
    pub label: String,
    pub category: String,
    pub matcher: RuleMatcher,
    pub confidence: Confidence,
    pub default_selected: bool,
    pub match_role: RuleMatchRole,
    pub action: RuleAction,
    pub reason: String,
    pub risk_note: String,
    pub platforms: Vec<RulePlatform>,
    pub source_refs: Vec<String>,
}

/// What an entry must satisfy for a rule to match it; every given field must hold.
#[derive(Debug, Clone, PartialEq, Eq)]
pub struct RuleMatcher {
    pub kind: Option<EntryKind>,
    pub dir_name: Option<String>,
    pub path_glob: Option<String>,
    pub file_name: Option<String>,
    pub extension: Option<String>,
    pub project: Option<ProjectMatcher>,
    pub max_age_days: Option<i64>,
    pub min_size: Option<u64>,
}

impl Default for RuleMatcher {
    fn default() -> (res: Self)
        ensures
            res.kind is None && res.dir_name is None && res.path_glob is None && res.file_name is None
                && res.extension is None && res.project is None && res.max_age_days is None
                && res.min_size is None,
    {
        RuleMatcher {
            kind: None,
            dir_name: None,
            path_glob: None,
            file_name: None,
            extension: None,
            project: None,
            max_age_days: None,
            min_size: None,
        }
    }
}

/// Match generated directories relative to a project root identified by direct children.
///
/// Name fields use glob syntax and are evaluated against the entries captured by the same scan.
/// Each non-empty positive group uses any-of semantics; excluded groups must have no matches.
/// Exclusions only veto children present in that snapshot and are not a standalone safety boundary.
#[derive(Debug, Clone, PartialEq, Eq)]
pub struct ProjectMatcher {
    pub marker_globs: Vec<String>,
    pub root_dir_globs: Vec<String>,
    pub excluded_marker_globs: Vec<String>,
    pub excluded_root_dir_globs: Vec<String>,
    pub artifact_paths: Vec<String>,
}

impl Default for ProjectMatcher {
    fn default() -> (res: Self)
        ensures
            res.marker_globs@.len() == 0 && res.root_dir_globs@.len() == 0
                && res.excluded_marker_globs@.len() == 0 && res.excluded_root_dir_globs@.len() == 0
                && res.artifact_paths@.len() == 0,
    {
        ProjectMatcher {
            marker_globs: Vec::new(),
            root_dir_globs: Vec::new(),
            excluded_marker_globs: Vec::new(),
            excluded_root_dir_globs: Vec::new(),
            artifact_paths: Vec::new(),
        }
    }
}

#[derive(Debug, Clone, Copy, PartialEq, Eq, Structural)]
pub enum RuleAction {
    Trash,
}


// ---------------------------------------------------------------- validation

/// Why a rule pack is refused.
#[derive(Debug, Clone, Copy, PartialEq, Eq, Structural)]
pub enum RulePackErrorKind {
    EmptyId,
    EmptyVersion,
    InvalidVersion,
    NoRules,
    IncompleteSource,
    DuplicateSource,
    EmptyRuleId,
    DefaultSelectedNotHigh,
    FallbackDefaultSelected,
    DuplicateRule,
    DuplicatePlatforms,
    DuplicateSourceRef,
    UnknownSource,
    UndeclaredCategory,
    NegativeMaxAge,
    NoMatcher,
    InvalidPathGlob,
    ProjectNeedsDirectory,
    ProjectCombined,
    NoMarkerGlobs,
    NoArtifactPaths,
    InvalidProjectPattern,
    InvalidArtifactPath,
}

/// A refused rule pack: why, which pack and rule, and the offending value where there is one
/// (a source id, a category, a project field name or an artifact path).
#[derive(Debug, Clone, PartialEq, Eq)]
pub struct RulePackError {
    pub kind: RulePackErrorKind,
    pub pack: String,
    pub rule: String,
    pub detail: String,
}

/// A refusal as values: kind, pack id, rule id, detail.
pub type PackFault = (RulePackErrorKind, Seq<char>, Seq<char>, Seq<char>);

/// The message for a refused rule pack of kind `kind`, naming the pack, the rule and the
/// offending value as the kind calls for.
pub open spec fn pack_error_text(kind: RulePackErrorKind, pack: Seq<char>, rule: Seq<char>, detail: Seq<char>) -> Seq<char> {
    match kind {
        RulePackErrorKind::EmptyId => "rule pack id cannot be empty"@,
        RulePackErrorKind::EmptyVersion => "rule pack "@ + pack + " has an empty version"@,
        RulePackErrorKind::InvalidVersion => "rule pack "@ + pack + " has an invalid semantic version"@,
        RulePackErrorKind::NoRules => "rule pack "@ + pack + " contains no rules"@,
        RulePackErrorKind::IncompleteSource => "rule pack "@ + pack + " has incomplete source provenance"@,
        RulePackErrorKind::DuplicateSource => "rule pack "@ + pack + " contains duplicate source id "@ + detail,
        RulePackErrorKind::EmptyRuleId => "rule pack "@ + pack + " contains a rule with an empty id"@,
        RulePackErrorKind::DefaultSelectedNotHigh => "rule "@ + pack + ":"@ + rule + " cannot be default_selected unless confidence is high"@,
        RulePackErrorKind::FallbackDefaultSelected => "rule "@ + pack + ":"@ + rule + " cannot be both fallback and default_selected"@,
        RulePackErrorKind::DuplicateRule => "rule pack "@ + pack + " contains duplicate rule id "@ + rule,
        RulePackErrorKind::DuplicatePlatforms => "rule "@ + pack + ":"@ + rule + " contains duplicate platforms"@,
        RulePackErrorKind::DuplicateSourceRef => "rule "@ + pack + ":"@ + rule + " contains duplicate source reference "@ + detail,
        RulePackErrorKind::UnknownSource => "rule "@ + pack + ":"@ + rule + " references unknown source "@ + detail,
        RulePackErrorKind::UndeclaredCategory => "rule "@ + pack + ":"@ + rule + " uses undeclared category "@ + detail,
        RulePackErrorKind::NegativeMaxAge => "rule "@ + pack + ":"@ + rule + " has a negative max_age_days"@,
        RulePackErrorKind::NoMatcher => "rule "@ + pack + ":"@ + rule + " has no matcher"@,
        RulePackErrorKind::InvalidPathGlob => "rule "@ + pack + ":"@ + rule + " has an invalid path_glob"@,
        RulePackErrorKind::ProjectNeedsDirectory => "rule "@ + pack + ":"@ + rule + " project matcher requires kind = directory"@,
        RulePackErrorKind::ProjectCombined => "rule "@ + pack + ":"@ + rule + " project matcher cannot be combined with another path matcher"@,
        RulePackErrorKind::NoMarkerGlobs => "rule "@ + pack + ":"@ + rule + " project matcher has no marker_globs"@,
        RulePackErrorKind::NoArtifactPaths => "rule "@ + pack + ":"@ + rule + " project matcher has no artifact_paths"@,
        RulePackErrorKind::InvalidProjectPattern => "rule "@ + pack + ":"@ + rule + " has an invalid project "@ + detail + " pattern"@,
        RulePackErrorKind::InvalidArtifactPath => "rule "@ + pack + ":"@ + rule + " has an invalid project artifact path \""@ + detail + "\""@,
    }
}

impl RulePackError {
    pub open spec fn fault(&self) -> PackFault {
        (self.kind, self.pack@, self.rule@, self.detail@)
    }

    /// The message shown to the user.
    pub fn message(&self) -> (res: String)
        ensures
            res@ == pack_error_text(self.kind, self.pack@, self.rule@, self.detail@),
    {
        proof {
            reveal_with_fuel(joined_texts, 8);
        }
        let p = self.pack.as_str();
        let r = self.rule.as_str();
        let d = self.detail.as_str();
        match self.kind {
            RulePackErrorKind::EmptyId => "rule pack id cannot be empty".to_owned(),
            RulePackErrorKind::EmptyVersion => join(&["rule pack ", p, " has an empty version"]),
            RulePackErrorKind::InvalidVersion => join(&["rule pack ", p, " has an invalid semantic version"]),
            RulePackErrorKind::NoRules => join(&["rule pack ", p, " contains no rules"]),
            RulePackErrorKind::IncompleteSource => join(&["rule pack ", p, " has incomplete source provenance"]),
            RulePackErrorKind::DuplicateSource => join(&["rule pack ", p, " contains duplicate source id ", d]),
            RulePackErrorKind::EmptyRuleId => join(&["rule pack ", p, " contains a rule with an empty id"]),
            RulePackErrorKind::DefaultSelectedNotHigh => join(&["rule ", p, ":", r, " cannot be default_selected unless confidence is high"]),
            RulePackErrorKind::FallbackDefaultSelected => join(&["rule ", p, ":", r, " cannot be both fallback and default_selected"]),
            RulePackErrorKind::DuplicateRule => join(&["rule pack ", p, " contains duplicate rule id ", r]),
            RulePackErrorKind::DuplicatePlatforms => join(&["rule ", p, ":", r, " contains duplicate platforms"]),
            RulePackErrorKind::DuplicateSourceRef => join(&["rule ", p, ":", r, " contains duplicate source reference ", d]),
            RulePackErrorKind::UnknownSource => join(&["rule ", p, ":", r, " references unknown source ", d]),
            RulePackErrorKind::UndeclaredCategory => join(&["rule ", p, ":", r, " uses undeclared category ", d]),
            RulePackErrorKind::NegativeMaxAge => join(&["rule ", p, ":", r, " has a negative max_age_days"]),
            RulePackErrorKind::NoMatcher => join(&["rule ", p, ":", r, " has no matcher"]),
            RulePackErrorKind::InvalidPathGlob => join(&["rule ", p, ":", r, " has an invalid path_glob"]),
            RulePackErrorKind::ProjectNeedsDirectory => join(&["rule ", p, ":", r, " project matcher requires kind = directory"]),
            RulePackErrorKind::ProjectCombined => join(&["rule ", p, ":", r, " project matcher cannot be combined with another path matcher"]),
            RulePackErrorKind::NoMarkerGlobs => join(&["rule ", p, ":", r, " project matcher has no marker_globs"]),
            RulePackErrorKind::NoArtifactPaths => join(&["rule ", p, ":", r, " project matcher has no artifact_paths"]),
            RulePackErrorKind::InvalidProjectPattern => join(&["rule ", p, ":", r, " has an invalid project ", d, " pattern"]),
            RulePackErrorKind::InvalidArtifactPath => join(&["rule ", p, ":", r, " has an invalid project artifact path \"", d, "\""]),
        }
    }
}

/// The texts of `parts` one after another.
pub open spec fn joined_texts(parts: Seq<&str>) -> Seq<char>
    decreases parts.len(),
{
    if parts.len() == 0 {
        Seq::empty()
    } else {
        joined_texts(parts.drop_last()) + parts.last()@
    }
}

/// The texts concatenated.
fn join(parts: &[&str]) -> (res: String)
    ensures
        res@ == joined_texts(parts@),
{
    let mut out = String::new();
    let mut i: usize = 0;
    while i < parts.len()
        invariant
            i <= parts@.len(),
            out@ == joined_texts(parts@.take(i as int)),
        decreases parts.len() - i,
    {
        assert(parts@.take(i + 1).drop_last() =~= parts@.take(i as int));
        out = crate::text::concat(out.as_str(), parts[i]);
        i = i + 1;
    }
    assert(parts@.take(parts@.len() as int) =~= parts@);
    out
}

pub open spec fn fault(kind: RulePackErrorKind, pack: Seq<char>, rule: Seq<char>, detail: Seq<char>) -> Option<PackFault> {
    Some((kind, pack, rule, detail))
}

/// The texts of `v`.
pub open spec fn strs(v: Seq<String>) -> Seq<Seq<char>> {
    Seq::new(v.len(), |i: int| v[i]@)
}

/// `s[i]` equals an element before it.
pub open spec fn repeats_earlier<T>(s: Seq<T>, i: int) -> bool {
    exists|k: int| 0 <= k < i && s[k] == s[i]
}

/// Some element of `s` occurs twice.
pub open spec fn has_repeat<T>(s: Seq<T>) -> bool {
    exists|i: int, j: int| 0 <= i < j < s.len() && s[i] == s[j]
}

/// `s` split at every `/`, as `str::split` does.
pub open spec fn split_slash(s: Seq<char>) -> Seq<Seq<char>>
    decreases s.len(),
{
    if s.len() == 0 {
        seq![Seq::empty()]
    } else {
        let prev = split_slash(s.drop_last());
        if s.last() == '/' {
            prev.push(Seq::empty())
        } else {
            prev.update(prev.len() - 1, prev.last().push(s.last()))
        }
    }
}

/// A component that an artifact path may not hold: empty, `.` or `..`.
pub open spec fn bad_artifact_component(c: Seq<char>) -> bool {
    c.len() == 0 || c == seq!['.'] || c == seq!['.', '.']
}

/// The components of an artifact path: a non-empty relative path written with `/`, whose
/// components are names.
pub open spec fn artifact_components(path: Seq<char>) -> Option<Seq<Seq<char>>> {
    if path.len() == 0 || path[0] == '/' || path.contains('\\') {
        None
    } else if exists|k: int| 0 <= k < split_slash(path).len() && bad_artifact_component(#[trigger] split_slash(path)[k]) {
        None
    } else {
        Some(split_slash(path))
    }
}

/// A glob that names one direct child: not blank, without separators, and parseable.
pub open spec fn child_glob_ok(pattern: Seq<char>) -> bool {
    !is_blank(pattern) && !pattern.contains('/') && !pattern.contains('\\') && name_glob_ok(pattern)
}

/// A source without an id, repository, revision or license.
pub open spec fn source_incomplete(s: RuleSource) -> bool {
    is_blank(s.id@) || is_blank(s.repository@) || is_blank(s.revision@) || is_blank(s.license@)
}

pub open spec fn source_ids(p: RulePack) -> Seq<Seq<char>> {
    Seq::new(p.sources@.len(), |i: int| p.sources@[i].id@)
}

pub open spec fn rule_ids(p: RulePack) -> Seq<Seq<char>> {
    Seq::new(p.rules@.len(), |i: int| p.rules@[i].id@)
}

pub open spec fn source_fault(p: RulePack, i: int) -> Option<PackFault> {
    if source_incomplete(p.sources@[i]) {
        fault(RulePackErrorKind::IncompleteSource, p.id@, Seq::empty(), Seq::empty())
    } else if repeats_earlier(source_ids(p), i) {
        fault(RulePackErrorKind::DuplicateSource, p.id@, Seq::empty(), p.sources@[i].id@)
    } else {
        None
    }
}

/// The fault of the first of the first `n` sources that has one.
pub open spec fn first_source_fault(p: RulePack, n: int) -> Option<PackFault>
    decreases n,
{
    if n <= 0 {
        None
    } else {
        match first_source_fault(p, n - 1) {
            Some(f) => Some(f),
            None => source_fault(p, n - 1),
        }
    }
}

pub open spec fn ref_fault(p: RulePack, r: RuleDefinition, k: int) -> Option<PackFault> {
    let refs = strs(r.source_refs@);
    if repeats_earlier(refs, k) {
        fault(RulePackErrorKind::DuplicateSourceRef, p.id@, r.id@, refs[k])
    } else if !source_ids(p).contains(refs[k]) {
        fault(RulePackErrorKind::UnknownSource, p.id@, r.id@, refs[k])
    } else {
        None
    }
}

pub open spec fn first_ref_fault(p: RulePack, r: RuleDefinition, n: int) -> Option<PackFault>
    decreases n,
{
    if n <= 0 {
        None
    } else {
        match first_ref_fault(p, r, n - 1) {
            Some(f) => Some(f),
            None => ref_fault(p, r, n - 1),
        }
    }
}

/// The matcher names an entry by a path feature: directory or file name, path glob or extension.
pub open spec fn has_path_matcher(m: RuleMatcher) -> bool {
    m.dir_name is Some || m.path_glob is Some || m.file_name is Some || m.extension is Some
}

/// The matcher constrains entries at all.
pub open spec fn has_matcher(m: RuleMatcher) -> bool {
    has_path_matcher(m) || m.kind is Some || m.project is Some || m.max_age_days is Some
        || m.min_size is Some
}

/// The project matcher's name glob groups in the order they are checked.
pub open spec fn pattern_group(pm: ProjectMatcher, g: int) -> Seq<Seq<char>> {
    if g == 0 {
        strs(pm.marker_globs@)
    } else if g == 1 {
        strs(pm.root_dir_globs@)
    } else if g == 2 {
        strs(pm.excluded_marker_globs@)
    } else {
        strs(pm.excluded_root_dir_globs@)
    }
}

/// The field name of each glob group.
pub open spec fn pattern_field(g: int) -> Seq<char> {
    if g == 0 {
        "marker_globs"@
    } else if g == 1 {
        "root_dir_globs"@
    } else if g == 2 {
        "excluded_marker_globs"@
    } else {
        "excluded_root_dir_globs"@
    }
}

pub open spec fn first_pattern_fault(pack: Seq<char>, rule: Seq<char>, pm: ProjectMatcher, g: int, n: int) -> Option<PackFault>
    decreases n,
{
    if n <= 0 {
        None
    } else {
        match first_pattern_fault(pack, rule, pm, g, n - 1) {
            Some(f) => Some(f),
            None => if !child_glob_ok(pattern_group(pm, g)[n - 1]) {
                fault(RulePackErrorKind::InvalidProjectPattern, pack, rule, pattern_field(g))
            } else {
                None
            },
        }
    }
}

pub open spec fn first_group_fault(pack: Seq<char>, rule: Seq<char>, pm: ProjectMatcher, n: int) -> Option<PackFault>
    decreases n,
{
    if n <= 0 {
        None
    } else {
        match first_group_fault(pack, rule, pm, n - 1) {
            Some(f) => Some(f),
            None => first_pattern_fault(pack, rule, pm, n - 1, pattern_group(pm, n - 1).len() as int),
        }
    }
}

pub open spec fn first_artifact_fault(pack: Seq<char>, rule: Seq<char>, pm: ProjectMatcher, n: int) -> Option<PackFault>
    decreases n,
{
    if n <= 0 {
        None
    } else {
        match first_artifact_fault(pack, rule, pm, n - 1) {
            Some(f) => Some(f),
            None => if artifact_components(pm.artifact_paths@[n - 1]@) is None {
                fault(RulePackErrorKind::InvalidArtifactPath, pack, rule, pm.artifact_paths@[n - 1]@)
            } else {
                None
            },
        }
    }
}

/// Why a project matcher is refused, if it is.
pub open spec fn project_fault(pack: Seq<char>, rule: Seq<char>, pm: ProjectMatcher) -> Option<PackFault> {
    if pm.marker_globs@.len() == 0 {
        fault(RulePackErrorKind::NoMarkerGlobs, pack, rule, Seq::empty())
    } else if pm.artifact_paths@.len() == 0 {
        fault(RulePackErrorKind::NoArtifactPaths, pack, rule, Seq::empty())
    } else {
        match first_group_fault(pack, rule, pm, 4) {
            Some(f) => Some(f),
            None => first_artifact_fault(pack, rule, pm, pm.artifact_paths@.len() as int),
        }
    }
}

/// Why the matcher of rule `r` is refused, if it is.
pub open spec fn matcher_fault(p: RulePack, r: RuleDefinition) -> Option<PackFault> {
    let m = r.matcher;
    if m.max_age_days matches Some(d) && d < 0 {
        fault(RulePackErrorKind::NegativeMaxAge, p.id@, r.id@, Seq::empty())
    } else if !has_matcher(m) {
        fault(RulePackErrorKind::NoMatcher, p.id@, r.id@, Seq::empty())
    } else if m.path_glob matches Some(g) && !path_glob_ok(g@) {
        fault(RulePackErrorKind::InvalidPathGlob, p.id@, r.id@, Seq::empty())
    } else {
        match m.project {
            Some(pm) => if m.kind != Some(EntryKind::Directory) {
                fault(RulePackErrorKind::ProjectNeedsDirectory, p.id@, r.id@, Seq::empty())
            } else if has_path_matcher(m) {
                fault(RulePackErrorKind::ProjectCombined, p.id@, r.id@, Seq::empty())
            } else {
                project_fault(p.id@, r.id@, pm)
            },
            None => None,
        }
    }
}

/// Why rule `j` of `p` is refused, if it is.
pub open spec fn rule_fault(p: RulePack, j: int) -> Option<PackFault> {
    let r = p.rules@[j];
    if is_blank(r.id@) {
        fault(RulePackErrorKind::EmptyRuleId, p.id@, Seq::empty(), Seq::empty())
    } else if r.default_selected && r.confidence != Confidence::High {
        fault(RulePackErrorKind::DefaultSelectedNotHigh, p.id@, r.id@, Seq::empty())
    } else if r.match_role == RuleMatchRole::Fallback && r.default_selected {
        fault(RulePackErrorKind::FallbackDefaultSelected, p.id@, r.id@, Seq::empty())
    } else if repeats_earlier(rule_ids(p), j) {
        fault(RulePackErrorKind::DuplicateRule, p.id@, r.id@, Seq::empty())
    } else if has_repeat(r.platforms@) {
        fault(RulePackErrorKind::DuplicatePlatforms, p.id@, r.id@, Seq::empty())
    } else {
        match first_ref_fault(p, r, r.source_refs@.len() as int) {
            Some(f) => Some(f),
            None => if !strs(p.categories@).contains(r.category@) {
                fault(RulePackErrorKind::UndeclaredCategory, p.id@, r.id@, r.category@)
            } else {
                matcher_fault(p, r)
            },
        }
    }
}

pub open spec fn first_rule_fault(p: RulePack, n: int) -> Option<PackFault>
    decreases n,
{
    if n <= 0 {
        None
    } else {
        match first_rule_fault(p, n - 1) {
            Some(f) => Some(f),
            None => rule_fault(p, n - 1),
        }
    }
}

/// Why a rule pack is refused: the first failed check, in the order the pack is read.
pub open spec fn pack_fault(p: RulePack) -> Option<PackFault> {
    if is_blank(p.id@) {
        fault(RulePackErrorKind::EmptyId, Seq::empty(), Seq::empty(), Seq::empty())
    } else if is_blank(p.version@) {
        fault(RulePackErrorKind::EmptyVersion, p.id@, Seq::empty(), Seq::empty())
    } else if !is_semver(p.version@) {
        fault(RulePackErrorKind::InvalidVersion, p.id@, Seq::empty(), Seq::empty())
    } else if p.rules@.len() == 0 {
        fault(RulePackErrorKind::NoRules, p.id@, Seq::empty(), Seq::empty())
    } else {
        match first_source_fault(p, p.sources@.len() as int) {
            Some(f) => Some(f),
            None => first_rule_fault(p, p.rules@.len() as int),
        }
    }
}

/// A rule pack that passes validation.
pub open spec fn pack_valid(p: RulePack) -> bool {
    pack_fault(p) is None
}

/// The refusal carrying `kind` and the given texts.
fn pack_error(kind: RulePackErrorKind, pack: &str, rule: &str, detail: &str) -> (res: RulePackError)
    ensures
        res.fault() == (kind, pack@, rule@, detail@),
{
    RulePackError { kind, pack: pack.to_owned(), rule: rule.to_owned(), detail: detail.to_owned() }
}

/// The components of an artifact path, or `None` where the path is refused.
pub fn project_artifact_components(path: &str) -> (res: Option<Vec<Vec<char>>>)
    ensures
        match artifact_components(path@) {
            Some(c) => res matches Some(v) && crate::path::texts(v@) == c,
            None => res is None,
        },
{
    let chars = chars_of(path);
    if chars.len() == 0 || chars[0] == '/' {
        return None;
    }
    let mut parts: Vec<Vec<char>> = Vec::new();
    let mut current: Vec<char> = Vec::new();
    let mut i: usize = 0;
    assert(chars@.take(0) =~= Seq::<char>::empty());
    while i < chars.len()
        invariant
            i <= chars@.len(),
            chars@ == path@,
            crate::path::texts(parts@).push(current@) == split_slash(chars@.take(i as int)),
            forall|k: int| 0 <= k < i ==> chars@[k] != '\\',
        decreases chars.len() - i,
    {
        let c = chars[i];
        if c == '\\' {
            assert(path@.contains('\\'));
            return None;
        }
        let ghost before = crate::path::texts(parts@).push(current@);
        assert(chars@.take(i + 1).drop_last() =~= chars@.take(i as int));
        if c == '/' {
            parts.push(current);
            current = Vec::new();
            assert(crate::path::texts(parts@).push(current@) =~= before.push(Seq::empty()));
        } else {
            current.push(c);
            assert(crate::path::texts(parts@).push(current@) =~= before.update(before.len() - 1, before.last().push(c)));
        }
        i = i + 1;
    }
    assert(chars@.take(chars@.len() as int) =~= chars@);
    assert(!path@.contains('\\'));
    parts.push(current);
    let ghost all = crate::path::texts(parts@);
    let mut k: usize = 0;
    while k < parts.len()
        invariant
            k <= parts@.len(),
            all == crate::path::texts(parts@),
            all == split_slash(path@),
            forall|j: int| 0 <= j < k ==> !bad_artifact_component(#[trigger] all[j]),
        decreases parts.len() - k,
    {
        let part = &parts[k];
        assert(all[k as int] == part@);
        if part.len() == 0 || (part.len() == 1 && part[0] == '.') || (part.len() == 2 && part[0] == '.' && part[1] == '.') {
            proof {
                if part@.len() == 1 {
                    assert(part@ =~= seq!['.']);
                }
                if part@.len() == 2 {
                    assert(part@ =~= seq!['.', '.']);
                }
                assert(bad_artifact_component(split_slash(path@)[k as int]));
            }
            return None;
        }
        proof {
            if part@ == seq!['.'] {
                assert(part@.len() == 1);
            }
            if part@ == seq!['.', '.'] {
                assert(part@.len() == 2);
            }
        }
        k = k + 1;
    }
    Some(parts)
}

/// Whether `pattern` names one direct child: not blank, without separators, and parseable.
fn validate_child_name_glob(pattern: &str) -> (res: bool)
    ensures
        res == child_glob_ok(pattern@),
{
    if blank(pattern) {
        return false;
    }
    let chars = chars_of(pattern);
    let mut i: usize = 0;
    while i < chars.len()
        invariant
            i <= chars@.len(),
            chars@ == pattern@,
            forall|k: int| 0 <= k < i ==> chars@[k] != '/' && chars@[k] != '\\',
        decreases chars.len() - i,
    {
        if chars[i] == '/' || chars[i] == '\\' {
            assert(pattern@[i as int] == chars@[i as int]);
            return false;
        }
        i = i + 1;
    }
    assert(!pattern@.contains('/') && !pattern@.contains('\\'));
    name_glob_parses(pattern)
}


/// The fault of the first pattern of one glob group that names no single child, if any.
fn check_pattern_group(
    patterns: &Vec<String>,
    field: &str,
    pack: &str,
    rule: &str,
    Ghost(pm): Ghost<ProjectMatcher>,
    Ghost(g): Ghost<int>,
) -> (res: Result<(), RulePackError>)
    requires
        strs(patterns@) == pattern_group(pm, g),
        field@ == pattern_field(g),
    ensures
        match first_pattern_fault(pack@, rule@, pm, g, patterns@.len() as int) {
            None => res is Ok,
            Some(f) => res matches Err(e) && e.fault() == f,
        },
{
    let mut k: usize = 0;
    while k < patterns.len()
        invariant
            k <= patterns@.len(),
            strs(patterns@) == pattern_group(pm, g),
            field@ == pattern_field(g),
            first_pattern_fault(pack@, rule@, pm, g, k as int) is None,
        decreases patterns.len() - k,
    {
        assert(pattern_group(pm, g)[k as int] == patterns@[k as int]@);
        if !validate_child_name_glob(patterns[k].as_str()) {
            assert(first_pattern_fault(pack@, rule@, pm, g, k + 1) is Some);
            proof {
                lemma_pattern_fault_stays(pack@, rule@, pm, g, k + 1, patterns@.len() as int);
            }
            return Err(pack_error(RulePackErrorKind::InvalidProjectPattern, pack, rule, field));
        }
        k = k + 1;
    }
    Ok(())
}

proof fn lemma_pattern_fault_stays(pack: Seq<char>, rule: Seq<char>, pm: ProjectMatcher, g: int, k: int, n: int)
    requires
        0 <= k <= n,
        first_pattern_fault(pack, rule, pm, g, k) is Some,
    ensures
        first_pattern_fault(pack, rule, pm, g, n) == first_pattern_fault(pack, rule, pm, g, k),
    decreases n - k,
{
    if k < n {
        lemma_pattern_fault_stays(pack, rule, pm, g, k, n - 1);
    }
}

proof fn lemma_group_fault_stays(pack: Seq<char>, rule: Seq<char>, pm: ProjectMatcher, k: int, n: int)
    requires
        0 <= k <= n,
        first_group_fault(pack, rule, pm, k) is Some,
    ensures
        first_group_fault(pack, rule, pm, n) == first_group_fault(pack, rule, pm, k),
    decreases n - k,
{
    if k < n {
        lemma_group_fault_stays(pack, rule, pm, k, n - 1);
    }
}

proof fn lemma_artifact_fault_stays(pack: Seq<char>, rule: Seq<char>, pm: ProjectMatcher, k: int, n: int)
    requires
        0 <= k <= n,
        first_artifact_fault(pack, rule, pm, k) is Some,
    ensures
        first_artifact_fault(pack, rule, pm, n) == first_artifact_fault(pack, rule, pm, k),
    decreases n - k,
{
    if k < n {
        lemma_artifact_fault_stays(pack, rule, pm, k, n - 1);
    }
}

impl ProjectMatcher {
    /// Check the project matcher of rule `rule_id` in pack `pack_id`.
    fn validate(&self, pack_id: &str, rule_id: &str) -> (res: Result<(), RulePackError>)
        ensures
            match project_fault(pack_id@, rule_id@, *self) {
                None => res is Ok,
                Some(f) => res matches Err(e) && e.fault() == f,
            },
    {
        proof {
            reveal_strlit("");
        }
        if self.marker_globs.len() == 0 {
            return Err(pack_error(RulePackErrorKind::NoMarkerGlobs, pack_id, rule_id, ""));
        }
        if self.artifact_paths.len() == 0 {
            return Err(pack_error(RulePackErrorKind::NoArtifactPaths, pack_id, rule_id, ""));
        }
        let ghost pm = *self;
        assert(strs(self.marker_globs@) == pattern_group(pm, 0));
        assert(first_group_fault(pack_id@, rule_id@, pm, 0) is None);
        let r0 = check_pattern_group(&self.marker_globs, "marker_globs", pack_id, rule_id, Ghost(pm), Ghost(0));
        assert(first_group_fault(pack_id@, rule_id@, pm, 1) == first_pattern_fault(pack_id@, rule_id@, pm, 0, pattern_group(pm, 0).len() as int));
        if let Err(e) = r0 {
            proof { lemma_group_fault_stays(pack_id@, rule_id@, pm, 1, 4); }
            return Err(e);
        }
        assert(strs(self.root_dir_globs@) == pattern_group(pm, 1));
        let r1 = check_pattern_group(&self.root_dir_globs, "root_dir_globs", pack_id, rule_id, Ghost(pm), Ghost(1));
        assert(first_group_fault(pack_id@, rule_id@, pm, 2) == first_pattern_fault(pack_id@, rule_id@, pm, 1, pattern_group(pm, 1).len() as int));
        if let Err(e) = r1 {
            proof { lemma_group_fault_stays(pack_id@, rule_id@, pm, 2, 4); }
            return Err(e);
        }
        assert(strs(self.excluded_marker_globs@) == pattern_group(pm, 2));
        let r2 = check_pattern_group(&self.excluded_marker_globs, "excluded_marker_globs", pack_id, rule_id, Ghost(pm), Ghost(2));
        assert(first_group_fault(pack_id@, rule_id@, pm, 3) == first_pattern_fault(pack_id@, rule_id@, pm, 2, pattern_group(pm, 2).len() as int));
        if let Err(e) = r2 {
            proof { lemma_group_fault_stays(pack_id@, rule_id@, pm, 3, 4); }
            return Err(e);
        }
        assert(strs(self.excluded_root_dir_globs@) == pattern_group(pm, 3));
        let r3 = check_pattern_group(&self.excluded_root_dir_globs, "excluded_root_dir_globs", pack_id, rule_id, Ghost(pm), Ghost(3));
        assert(first_group_fault(pack_id@, rule_id@, pm, 4) == first_pattern_fault(pack_id@, rule_id@, pm, 3, pattern_group(pm, 3).len() as int));
        if let Err(e) = r3 {
            return Err(e);
        }
        let mut k: usize = 0;
        while k < self.artifact_paths.len()
            invariant
                k <= self.artifact_paths@.len(),
                pm == *self,
                pm.marker_globs@.len() > 0,
                pm.artifact_paths@.len() > 0,
                first_group_fault(pack_id@, rule_id@, pm, 4) is None,
                first_artifact_fault(pack_id@, rule_id@, pm, k as int) is None,
            decreases self.artifact_paths.len() - k,
        {
            if project_artifact_components(self.artifact_paths[k].as_str()).is_none() {
                proof {
                    lemma_artifact_fault_stays(pack_id@, rule_id@, pm, k + 1, self.artifact_paths@.len() as int);
                }
                return Err(pack_error(RulePackErrorKind::InvalidArtifactPath, pack_id, rule_id, self.artifact_paths[k].as_str()));
            }
            k = k + 1;
        }
        Ok(())
    }
}


/// Whether `v[i]` repeats an earlier element of `v`.
fn string_repeats_before(v: &Vec<String>, i: usize) -> (res: bool)
    requires
        i < v@.len(),
    ensures
        res == repeats_earlier(strs(v@), i as int),
{
    let mut k: usize = 0;
    while k < i
        invariant
            k <= i < v@.len(),
            forall|m: int| 0 <= m < k ==> strs(v@)[m] != strs(v@)[i as int],
        decreases i - k,
    {
        if str_eq(v[k].as_str(), v[i].as_str()) {
            assert(strs(v@)[k as int] == strs(v@)[i as int]);
            return true;
        }
        k = k + 1;
    }
    false
}

/// Whether `s` occurs in `v`.
fn contains_string(v: &Vec<String>, s: &str) -> (res: bool)
    ensures
        res == strs(v@).contains(s@),
{
    let mut k: usize = 0;
    while k < v.len()
        invariant
            k <= v@.len(),
            forall|m: int| 0 <= m < k ==> strs(v@)[m] != s@,
        decreases v.len() - k,
    {
        if str_eq(v[k].as_str(), s) {
            assert(strs(v@)[k as int] == s@);
            return true;
        }
        k = k + 1;
    }
    false
}

/// Whether some platform occurs twice in `v`.
fn platforms_repeat(v: &Vec<RulePlatform>) -> (res: bool)
    ensures
        res == has_repeat(v@),
{
    let mut j: usize = 0;
    while j < v.len()
        invariant
            j <= v@.len(),
            forall|a: int, b: int| 0 <= a < b < j ==> v@[a] != v@[b],
        decreases v.len() - j,
    {
        let mut k: usize = 0;
        while k < j
            invariant
                k <= j < v@.len(),
                forall|a: int| 0 <= a < k ==> v@[a] != v@[j as int],
            decreases j - k,
        {
            if v[k] == v[j] {
                return true;
            }
            k = k + 1;
        }
        j = j + 1;
    }
    false
}

proof fn lemma_source_fault_stays(p: RulePack, k: int, n: int)
    requires
        0 <= k <= n,
        first_source_fault(p, k) is Some,
    ensures
        first_source_fault(p, n) == first_source_fault(p, k),
    decreases n - k,
{
    if k < n {
        lemma_source_fault_stays(p, k, n - 1);
    }
}

proof fn lemma_rule_fault_stays(p: RulePack, k: int, n: int)
    requires
        0 <= k <= n,
        first_rule_fault(p, k) is Some,
    ensures
        first_rule_fault(p, n) == first_rule_fault(p, k),
    decreases n - k,
{
    if k < n {
        lemma_rule_fault_stays(p, k, n - 1);
    }
}

proof fn lemma_ref_fault_stays(p: RulePack, r: RuleDefinition, k: int, n: int)
    requires
        0 <= k <= n,
        first_ref_fault(p, r, k) is Some,
    ensures
        first_ref_fault(p, r, n) == first_ref_fault(p, r, k),
    decreases n - k,
{
    if k < n {
        lemma_ref_fault_stays(p, r, k, n - 1);
    }
}

impl RulePack {
    /// Whether source `id` is declared by this pack.
    fn declares_source(&self, id: &str) -> (res: bool)
        ensures
            res == source_ids(*self).contains(id@),
    {
        let mut k: usize = 0;
        while k < self.sources.len()
            invariant
                k <= self.sources@.len(),
                forall|m: int| 0 <= m < k ==> source_ids(*self)[m] != id@,
            decreases self.sources.len() - k,
        {
            if str_eq(self.sources[k].id.as_str(), id) {
                assert(source_ids(*self)[k as int] == id@);
                return true;
            }
            k = k + 1;
        }
        false
    }

    /// Whether source `i`'s id repeats an earlier source's.
    fn source_id_repeats(&self, i: usize) -> (res: bool)
        requires
            i < self.sources@.len(),
        ensures
            res == repeats_earlier(source_ids(*self), i as int),
    {
        let mut k: usize = 0;
        while k < i
            invariant
                k <= i < self.sources@.len(),
                forall|m: int| 0 <= m < k ==> source_ids(*self)[m] != source_ids(*self)[i as int],
            decreases i - k,
        {
            if str_eq(self.sources[k].id.as_str(), self.sources[i].id.as_str()) {
                assert(source_ids(*self)[k as int] == source_ids(*self)[i as int]);
                return true;
            }
            k = k + 1;
        }
        false
    }

    /// Whether rule `j`'s id repeats an earlier rule's.
    fn rule_id_repeats(&self, j: usize) -> (res: bool)
        requires
            j < self.rules@.len(),
        ensures
            res == repeats_earlier(rule_ids(*self), j as int),
    {
        let mut k: usize = 0;
        while k < j
            invariant
                k <= j < self.rules@.len(),
                forall|m: int| 0 <= m < k ==> rule_ids(*self)[m] != rule_ids(*self)[j as int],
            decreases j - k,
        {
            if str_eq(self.rules[k].id.as_str(), self.rules[j].id.as_str()) {
                assert(rule_ids(*self)[k as int] == rule_ids(*self)[j as int]);
                return true;
            }
            k = k + 1;
        }
        false
    }

    /// The fault of rule `j`'s first source reference that repeats or names no declared source.
    fn check_refs(&self, j: usize) -> (res: Result<(), RulePackError>)
        requires
            j < self.rules@.len(),
        ensures
            match first_ref_fault(*self, self.rules@[j as int], self.rules@[j as int].source_refs@.len() as int) {
                None => res is Ok,
                Some(f) => res matches Err(e) && e.fault() == f,
            },
    {
        let rule = &self.rules[j];
        let pack = self.id.as_str();
        let ghost r = self.rules@[j as int];
        let mut k: usize = 0;
        while k < rule.source_refs.len()
            invariant
                j < self.rules@.len(),
                r == self.rules@[j as int],
                *rule == r,
                pack@ == self.id@,
                k <= r.source_refs@.len(),
                first_ref_fault(*self, r, k as int) is None,
            decreases rule.source_refs.len() - k,
        {
            let source_ref = rule.source_refs[k].as_str();
            assert(strs(r.source_refs@)[k as int] == source_ref@);
            if string_repeats_before(&rule.source_refs, k) {
                proof {
                    lemma_ref_fault_stays(*self, r, k + 1, r.source_refs@.len() as int);
                }
                return Err(pack_error(RulePackErrorKind::DuplicateSourceRef, pack, rule.id.as_str(), source_ref));
            }
            if !self.declares_source(source_ref) {
                proof {
                    lemma_ref_fault_stays(*self, r, k + 1, r.source_refs@.len() as int);
                }
                return Err(pack_error(RulePackErrorKind::UnknownSource, pack, rule.id.as_str(), source_ref));
            }
            k = k + 1;
        }
        Ok(())
    }

    /// Why source `i` is refused, if it is.
    fn check_source(&self, i: usize) -> (res: Result<(), RulePackError>)
        requires
            i < self.sources@.len(),
        ensures
            match source_fault(*self, i as int) {
                None => res is Ok,
                Some(f) => res matches Err(e) && e.fault() == f,
            },
    {
        proof {
            reveal_strlit("");
        }
        let source = &self.sources[i];
        if blank(source.id.as_str()) || blank(source.repository.as_str()) || blank(source.revision.as_str())
            || blank(source.license.as_str()) {
            return Err(pack_error(RulePackErrorKind::IncompleteSource, self.id.as_str(), "", ""));
        }
        if self.source_id_repeats(i) {
            return Err(pack_error(RulePackErrorKind::DuplicateSource, self.id.as_str(), "", self.sources[i].id.as_str()));
        }
        Ok(())
    }

    /// Why rule `j`'s matcher is refused, if it is.
    fn check_matcher(&self, j: usize) -> (res: Result<(), RulePackError>)
        requires
            j < self.rules@.len(),
        ensures
            match matcher_fault(*self, self.rules@[j as int]) {
                None => res is Ok,
                Some(f) => res matches Err(e) && e.fault() == f,
            },
    {
        proof {
            reveal_strlit("");
        }
        let rule = &self.rules[j];
        let m = &rule.matcher;
        let pack = self.id.as_str();
        let id = rule.id.as_str();
        if let Some(days) = m.max_age_days {
            if days < 0 {
                return Err(pack_error(RulePackErrorKind::NegativeMaxAge, pack, id, ""));
            }
        }
        let path_matcher = m.dir_name.is_some() || m.path_glob.is_some() || m.file_name.is_some() || m.extension.is_some();
        if !(path_matcher || m.kind.is_some() || m.project.is_some() || m.max_age_days.is_some() || m.min_size.is_some()) {
            return Err(pack_error(RulePackErrorKind::NoMatcher, pack, id, ""));
        }
        if let Some(glob) = &m.path_glob {
            if !compile_path_glob(glob.as_str()) {
                return Err(pack_error(RulePackErrorKind::InvalidPathGlob, pack, id, ""));
            }
        }
        match &m.project {
            Some(project) => {
                let directory = match m.kind {
                    Some(EntryKind::Directory) => true,
                    _ => false,
                };
                if !directory {
                    return Err(pack_error(RulePackErrorKind::ProjectNeedsDirectory, pack, id, ""));
                }
                if path_matcher {
                    return Err(pack_error(RulePackErrorKind::ProjectCombined, pack, id, ""));
                }
                project.validate(pack, id)
            },
            None => Ok(()),
        }
    }

    /// Why rule `j` is refused, if it is.
    fn check_rule(&self, j: usize) -> (res: Result<(), RulePackError>)
        requires
            j < self.rules@.len(),
        ensures
            match rule_fault(*self, j as int) {
                None => res is Ok,
                Some(f) => res matches Err(e) && e.fault() == f,
            },
    {
        proof {
            reveal_strlit("");
        }
        let rule = &self.rules[j];
        let pack = self.id.as_str();
        if blank(rule.id.as_str()) {
            return Err(pack_error(RulePackErrorKind::EmptyRuleId, pack, "", ""));
        }
        let high = match rule.confidence {
            Confidence::High => true,
            _ => false,
        };
        if rule.default_selected && !high {
            return Err(pack_error(RulePackErrorKind::DefaultSelectedNotHigh, pack, rule.id.as_str(), ""));
        }
        let fallback = match rule.match_role {
            RuleMatchRole::Fallback => true,
            RuleMatchRole::Primary => false,
        };
        if fallback && rule.default_selected {
            return Err(pack_error(RulePackErrorKind::FallbackDefaultSelected, pack, rule.id.as_str(), ""));
        }
        if self.rule_id_repeats(j) {
            return Err(pack_error(RulePackErrorKind::DuplicateRule, pack, rule.id.as_str(), ""));
        }
        if platforms_repeat(&rule.platforms) {
            return Err(pack_error(RulePackErrorKind::DuplicatePlatforms, pack, rule.id.as_str(), ""));
        }
        let refs = self.check_refs(j);
        if let Err(e) = refs {
            return Err(e);
        }
        if !contains_string(&self.categories, rule.category.as_str()) {
            return Err(pack_error(RulePackErrorKind::UndeclaredCategory, pack, rule.id.as_str(), rule.category.as_str()));
        }
        self.check_matcher(j)
    }

    /// Check the pack: identity and version, provenance, and each rule in order.
    pub fn validate(&self) -> (res: Result<(), RulePackError>)
        ensures
            match pack_fault(*self) {
                None => res is Ok,
                Some(f) => res matches Err(e) && e.fault() == f,
            },
    {
        proof {
            reveal_strlit("");
        }
        let pack = self.id.as_str();
        if blank(pack) {
            return Err(pack_error(RulePackErrorKind::EmptyId, "", "", ""));
        }
        if blank(self.version.as_str()) {
            return Err(pack_error(RulePackErrorKind::EmptyVersion, pack, "", ""));
        }
        if !version_parses(self.version.as_str()) {
            return Err(pack_error(RulePackErrorKind::InvalidVersion, pack, "", ""));
        }
        if self.rules.len() == 0 {
            return Err(pack_error(RulePackErrorKind::NoRules, pack, "", ""));
        }
        let mut i: usize = 0;
        while i < self.sources.len()
            invariant
                i <= self.sources@.len(),
                !is_blank(self.id@) && !is_blank(self.version@) && is_semver(self.version@),
                self.rules@.len() > 0,
                first_source_fault(*self, i as int) is None,
            decreases self.sources.len() - i,
        {
            let checked = self.check_source(i);
            if let Err(e) = checked {
                proof {
                    lemma_source_fault_stays(*self, i + 1, self.sources@.len() as int);
                }
                return Err(e);
            }
            i = i + 1;
        }
        let mut j: usize = 0;
        while j < self.rules.len()
            invariant
                j <= self.rules@.len(),
                !is_blank(self.id@) && !is_blank(self.version@) && is_semver(self.version@),
                self.rules@.len() > 0,
                first_source_fault(*self, self.sources@.len() as int) is None,
                first_rule_fault(*self, j as int) is None,
            decreases self.rules.len() - j,
        {
            let checked = self.check_rule(j);
            if let Err(e) = checked {
                proof {
                    lemma_rule_fault_stays(*self, j + 1, self.rules@.len() as int);
                }
                return Err(e);
            }
            j = j + 1;
        }
        Ok(())
    }
}


// ---------------------------------------------------------------- scan location packs

/// Why a scan location pack is refused.
#[derive(Debug, Clone, Copy, PartialEq, Eq, Structural)]
pub enum LocationPackErrorKind {
    EmptyId,
    InvalidVersion,
    NoLocations,
    IncompleteLocation,
    DuplicateLocation,
    NoPlatforms,
    DuplicatePlatforms,
    EmptyRelativePath,
    NonPortablePath,
    AbnormalComponents,
    GlobInPath,
}

/// A refused scan location pack: why, the pack, and the location where one is at fault.
#[derive(Debug, Clone, PartialEq, Eq)]
pub struct LocationPackError {
    pub kind: LocationPackErrorKind,
    pub pack: String,
    pub location: String,
}

/// A refusal as values: kind, pack id, location id.
pub type LocationFault = (LocationPackErrorKind, Seq<char>, Seq<char>);

/// The message for a refused scan location pack of kind `kind`, naming the pack or the
/// location as the kind calls for.
pub open spec fn location_error_text(kind: LocationPackErrorKind, pack: Seq<char>, location: Seq<char>) -> Seq<char> {
    match kind {
        LocationPackErrorKind::EmptyId => "scan location pack id cannot be empty"@,
        LocationPackErrorKind::InvalidVersion => "scan location pack "@ + pack + " has an invalid version"@,
        LocationPackErrorKind::NoLocations => "scan location pack "@ + pack + " contains no locations"@,
        LocationPackErrorKind::IncompleteLocation => "scan location pack "@ + pack + " has an incomplete location"@,
        LocationPackErrorKind::DuplicateLocation => "scan location pack "@ + pack + " contains duplicate location id "@ + location,
        LocationPackErrorKind::NoPlatforms => "scan location "@ + location + " declares no platforms"@,
        LocationPackErrorKind::DuplicatePlatforms => "scan location "@ + location + " contains duplicate platforms"@,
        LocationPackErrorKind::EmptyRelativePath => "scan location "@ + location + " requires a non-empty relative_path"@,
        LocationPackErrorKind::NonPortablePath => "scan location "@ + location + " relative_path must use portable forward-slash components"@,
        LocationPackErrorKind::AbnormalComponents => "scan location "@ + location + " relative_path must contain only normal relative components"@,
        LocationPackErrorKind::GlobInPath => "scan location "@ + location + " relative_path cannot contain globs"@,
    }
}

impl LocationPackError {
    pub open spec fn fault(&self) -> LocationFault {
        (self.kind, self.pack@, self.location@)
    }

    /// The message shown to the user.
    pub fn message(&self) -> (res: String)
        ensures
            res@ == location_error_text(self.kind, self.pack@, self.location@),
    {
        proof {
            reveal_with_fuel(joined_texts, 8);
        }
        let p = self.pack.as_str();
        let l = self.location.as_str();
        match self.kind {
            LocationPackErrorKind::EmptyId => "scan location pack id cannot be empty".to_owned(),
            LocationPackErrorKind::InvalidVersion => join(&["scan location pack ", p, " has an invalid version"]),
            LocationPackErrorKind::NoLocations => join(&["scan location pack ", p, " contains no locations"]),
            LocationPackErrorKind::IncompleteLocation => join(&["scan location pack ", p, " has an incomplete location"]),
            LocationPackErrorKind::DuplicateLocation => join(&["scan location pack ", p, " contains duplicate location id ", l]),
            LocationPackErrorKind::NoPlatforms => join(&["scan location ", l, " declares no platforms"]),
            LocationPackErrorKind::DuplicatePlatforms => join(&["scan location ", l, " contains duplicate platforms"]),
            LocationPackErrorKind::EmptyRelativePath => join(&["scan location ", l, " requires a non-empty relative_path"]),
            LocationPackErrorKind::NonPortablePath => join(&["scan location ", l, " relative_path must use portable forward-slash components"]),
            LocationPackErrorKind::AbnormalComponents => join(&["scan location ", l, " relative_path must contain only normal relative components"]),
            LocationPackErrorKind::GlobInPath => join(&["scan location ", l, " relative_path cannot contain globs"]),
        }
    }
}

/// Every component of the path `s` is a name: no root, `.` or `..`.
pub open spec fn only_normal_components(s: Seq<char>) -> bool {
    forall|k: int| 0 <= k < components(s).len() ==> {
        let c = #[trigger] components(s)[k];
        c != seq!['/'] && c != seq!['.'] && c != seq!['.', '.']
    }
}

/// `s` holds a glob character.
pub open spec fn has_glob_char(s: Seq<char>) -> bool {
    s.contains('*') || s.contains('?') || s.contains('[') || s.contains(']') || s.contains('{')
        || s.contains('}')
}

pub open spec fn location_ids(p: ScanLocationPack) -> Seq<Seq<char>> {
    Seq::new(p.locations@.len(), |i: int| p.locations@[i].id@)
}

/// Why location `i` of `p` is refused, if it is.
pub open spec fn location_fault(p: ScanLocationPack, i: int) -> Option<LocationFault> {
    let l = p.locations@[i];
    let path = l.relative_path@;
    if is_blank(l.id@) || is_blank(l.label@) {
        Some((LocationPackErrorKind::IncompleteLocation, p.id@, Seq::empty()))
    } else if repeats_earlier(location_ids(p), i) {
        Some((LocationPackErrorKind::DuplicateLocation, p.id@, l.id@))
    } else if l.platforms@.len() == 0 {
        Some((LocationPackErrorKind::NoPlatforms, p.id@, l.id@))
    } else if has_repeat(l.platforms@) {
        Some((LocationPackErrorKind::DuplicatePlatforms, p.id@, l.id@))
    } else if l.mode == ScanLocationMode::Scan && is_blank(path) {
        Some((LocationPackErrorKind::EmptyRelativePath, p.id@, l.id@))
    } else if path.contains('\\') || path.contains(':') {
        Some((LocationPackErrorKind::NonPortablePath, p.id@, l.id@))
    } else if !only_normal_components(path) {
        Some((LocationPackErrorKind::AbnormalComponents, p.id@, l.id@))
    } else if has_glob_char(path) {
        Some((LocationPackErrorKind::GlobInPath, p.id@, l.id@))
    } else {
        None
    }
}

pub open spec fn first_location_fault(p: ScanLocationPack, n: int) -> Option<LocationFault>
    decreases n,
{
    if n <= 0 {
        None
    } else {
        match first_location_fault(p, n - 1) {
            Some(f) => Some(f),
            None => location_fault(p, n - 1),
        }
    }
}

/// Why a scan location pack is refused: the first failed check, in the order it is read.
pub open spec fn location_pack_fault(p: ScanLocationPack) -> Option<LocationFault> {
    if is_blank(p.id@) {
        Some((LocationPackErrorKind::EmptyId, Seq::empty(), Seq::empty()))
    } else if !is_semver(p.version@) {
        Some((LocationPackErrorKind::InvalidVersion, p.id@, Seq::empty()))
    } else if p.locations@.len() == 0 {
        Some((LocationPackErrorKind::NoLocations, p.id@, Seq::empty()))
    } else {
        first_location_fault(p, p.locations@.len() as int)
    }
}

proof fn lemma_location_fault_stays(p: ScanLocationPack, k: int, n: int)
    requires
        0 <= k <= n,
        first_location_fault(p, k) is Some,
    ensures
        first_location_fault(p, n) == first_location_fault(p, k),
    decreases n - k,
{
    if k < n {
        lemma_location_fault_stays(p, k, n - 1);
    }
}

fn location_error(kind: LocationPackErrorKind, pack: &str, location: &str) -> (res: LocationPackError)
    ensures
        res.fault() == (kind, pack@, location@),
{
    LocationPackError { kind, pack: pack.to_owned(), location: location.to_owned() }
}

/// Whether `s` holds one of the characters of `set`.
fn holds_any(s: &str, set: &[char]) -> (res: bool)
    ensures
        res == exists|k: int| 0 <= k < set@.len() && s@.contains(#[trigger] set@[k]),
{
    let chars = chars_of(s);
    let mut i: usize = 0;
    while i < chars.len()
        invariant
            i <= chars@.len(),
            chars@ == s@,
            forall|m: int, k: int| 0 <= m < i && 0 <= k < set@.len() ==> chars@[m] != set@[k],
        decreases chars.len() - i,
    {
        let mut k: usize = 0;
        while k < set.len()
            invariant
                i < chars@.len(),
                chars@ == s@,
                k <= set@.len(),
                forall|j: int| 0 <= j < k ==> chars@[i as int] != set@[j],
            decreases set.len() - k,
        {
            if chars[i] == set[k] {
                assert(s@.contains(set@[k as int]) && s@[i as int] == set@[k as int]);
                return true;
            }
            k = k + 1;
        }
        i = i + 1;
    }
    proof {
        assert forall|k: int| 0 <= k < set@.len() implies !s@.contains(#[trigger] set@[k]) by {
            if s@.contains(set@[k]) {
                let m = choose|m: int| 0 <= m < s@.len() && s@[m] == set@[k];
                assert(chars@[m] != set@[k]);
            }
        }
    }
    false
}

/// Whether every component of `path` is a name.
fn normal_components_only(path: &str) -> (res: bool)
    ensures
        res == only_normal_components(path@),
{
    let comps = path_components(path);
    let ghost c = components(path@);
    let mut k: usize = 0;
    while k < comps.len()
        invariant
            k <= comps@.len(),
            texts(comps@) == c,
            c == components(path@),
            forall|j: int| 0 <= j < k ==> {
                let x = #[trigger] c[j];
                x != seq!['/'] && x != seq!['.'] && x != seq!['.', '.']
            },
        decreases comps.len() - k,
    {
        let part = &comps[k];
        assert(c[k as int] == part@);
        let root = part.len() == 1 && part[0] == '/';
        let cur = part.len() == 1 && part[0] == '.';
        let up = part.len() == 2 && part[0] == '.' && part[1] == '.';
        proof {
            if part@ == seq!['/'] || part@ == seq!['.'] {
                assert(part@.len() == 1);
            }
            if part@ == seq!['.', '.'] {
                assert(part@.len() == 2);
            }
            if root {
                assert(part@ =~= seq!['/']);
            }
            if cur {
                assert(part@ =~= seq!['.']);
            }
            if up {
                assert(part@ =~= seq!['.', '.']);
            }
        }
        if root || cur || up {
            return false;
        }
        k = k + 1;
    }
    true
}

impl ScanLocationPack {
    /// Whether location `i`'s id repeats an earlier location's.
    fn location_id_repeats(&self, i: usize) -> (res: bool)
        requires
            i < self.locations@.len(),
        ensures
            res == repeats_earlier(location_ids(*self), i as int),
    {
        let mut k: usize = 0;
        while k < i
            invariant
                k <= i < self.locations@.len(),
                forall|m: int| 0 <= m < k ==> location_ids(*self)[m] != location_ids(*self)[i as int],
            decreases i - k,
        {
            if str_eq(self.locations[k].id.as_str(), self.locations[i].id.as_str()) {
                assert(location_ids(*self)[k as int] == location_ids(*self)[i as int]);
                return true;
            }
            k = k + 1;
        }
        false
    }

    /// Why location `i` is refused, if it is.
    fn check_location(&self, i: usize) -> (res: Result<(), LocationPackError>)
        requires
            i < self.locations@.len(),
        ensures
            match location_fault(*self, i as int) {
                None => res is Ok,
                Some(f) => res matches Err(e) && e.fault() == f,
            },
    {
        proof {
            reveal_strlit("");
        }
        let pack = self.id.as_str();
        let location = &self.locations[i];
        let id = location.id.as_str();
        if blank(id) || blank(location.label.as_str()) {
            return Err(location_error(LocationPackErrorKind::IncompleteLocation, pack, ""));
        }
        if self.location_id_repeats(i) {
            return Err(location_error(LocationPackErrorKind::DuplicateLocation, pack, id));
        }
        let location = &self.locations[i];
        let id = location.id.as_str();
        if location.platforms.len() == 0 {
            return Err(location_error(LocationPackErrorKind::NoPlatforms, pack, id));
        }
        if platforms_repeat(&location.platforms) {
            return Err(location_error(LocationPackErrorKind::DuplicatePlatforms, pack, id));
        }
        let path = location.relative_path.as_str();
        let scan = match location.mode {
            ScanLocationMode::Scan => true,
            ScanLocationMode::OsManaged => false,
        };
        if scan && blank(path) {
            return Err(location_error(LocationPackErrorKind::EmptyRelativePath, pack, id));
        }
        let separators: [char; 2] = ['\\', ':'];
        let non_portable = holds_any(path, &separators);
        proof {
            if path@.contains('\\') {
                assert(separators@[0] == '\\');
            }
            if path@.contains(':') {
                assert(separators@[1] == ':');
            }
        }
        if non_portable {
            return Err(location_error(LocationPackErrorKind::NonPortablePath, pack, id));
        }
        if !normal_components_only(path) {
            return Err(location_error(LocationPackErrorKind::AbnormalComponents, pack, id));
        }
        let globs: [char; 6] = ['*', '?', '[', ']', '{', '}'];
        let globbed = holds_any(path, &globs);
        proof {
            if path@.contains('*') { assert(globs@[0] == '*'); }
            if path@.contains('?') { assert(globs@[1] == '?'); }
            if path@.contains('[') { assert(globs@[2] == '['); }
            if path@.contains(']') { assert(globs@[3] == ']'); }
            if path@.contains('{') { assert(globs@[4] == '{'); }
            if path@.contains('}') { assert(globs@[5] == '}'); }
        }
        if globbed {
            return Err(location_error(LocationPackErrorKind::GlobInPath, pack, id));
        }
        Ok(())
    }
}

/// Check a scan location pack: identity and version, then each location in order.
pub fn validate_scan_location_pack(pack: &ScanLocationPack) -> (res: Result<(), LocationPackError>)
    ensures
        match location_pack_fault(*pack) {
            None => res is Ok,
            Some(f) => res matches Err(e) && e.fault() == f,
        },
{
    proof {
        reveal_strlit("");
    }
    if blank(pack.id.as_str()) {
        return Err(location_error(LocationPackErrorKind::EmptyId, "", ""));
    }
    if !version_parses(pack.version.as_str()) {
        return Err(location_error(LocationPackErrorKind::InvalidVersion, pack.id.as_str(), ""));
    }
    if pack.locations.len() == 0 {
        return Err(location_error(LocationPackErrorKind::NoLocations, pack.id.as_str(), ""));
    }
    let mut i: usize = 0;
    while i < pack.locations.len()
        invariant
            i <= pack.locations@.len(),
            !is_blank(pack.id@) && is_semver(pack.version@) && pack.locations@.len() > 0,
            first_location_fault(*pack, i as int) is None,
        decreases pack.locations.len() - i,
    {
        let checked = pack.check_location(i);
        if let Err(e) = checked {
            proof {
                lemma_location_fault_stays(*pack, i + 1, pack.locations@.len() as int);
            }
            return Err(e);
        }
        i = i + 1;
    }
    Ok(())
}


// ---------------------------------------------------------------- matching

/// Nanoseconds in a day.
pub const NANOS_PER_DAY: i64 = 86_400_000_000_000;

/// A path component that is a name: not the root, `.` or `..`.
pub open spec fn is_name(c: Seq<char>) -> bool {
    c != seq!['/'] && c != seq!['.'] && c != seq!['.', '.']
}

/// The file name of a path: its last component, when that is a name.
pub open spec fn name_of(path: Seq<char>) -> Option<Seq<char>> {
    let c = components(path);
    if c.len() > 0 && is_name(c.last()) {
        Some(c.last())
    } else {
        None
    }
}

/// The position of the last `.` in `s`, or -1.
pub open spec fn last_dot(s: Seq<char>) -> int
    decreases s.len(),
{
    if s.len() == 0 {
        -1
    } else if s.last() == '.' {
        s.len() - 1
    } else {
        last_dot(s.drop_last())
    }
}

/// The extension of a file name: the text after its last `.`, unless that `.` begins the name.
pub open spec fn extension_of(name: Seq<char>) -> Option<Seq<char>> {
    if last_dot(name) <= 0 {
        None
    } else {
        Some(name.skip(last_dot(name) + 1))
    }
}

/// The extension of the path `path`.
pub open spec fn path_extension(path: Seq<char>) -> Option<Seq<char>> {
    match name_of(path) {
        Some(name) => extension_of(name),
        None => None,
    }
}

/// Where the artifact components `ap` end `path`, the components of the project root above them.
pub open spec fn project_root_of(path: Seq<char>, ap: Seq<Seq<char>>) -> Option<Seq<Seq<char>>> {
    let c = components(path);
    if ap.len() <= c.len() && c.skip(c.len() - ap.len()) == ap {
        Some(c.take(c.len() - ap.len()))
    } else {
        None
    }
}

/// The name of entry `e` where it lies directly inside the directory with components `root`.
pub open spec fn child_of(e: ScanEntry, root: Seq<Seq<char>>) -> Option<Seq<char>> {
    child_of_path(e.path@, root)
}

/// The name of `path` where it lies directly inside the directory with components `root`.
pub open spec fn child_of_path(path: Seq<char>, root: Seq<Seq<char>>) -> Option<Seq<char>> {
    let c = components(path);
    if c.len() > 0 && is_name(c.last()) && c.drop_last() == root {
        Some(c.last())
    } else {
        None
    }
}

/// Some entry of kind `kind` directly inside `root` has a name that one of `globs` matches.
pub open spec fn group_hit(globs: Seq<Seq<char>>, entries: Seq<ScanEntry>, root: Seq<Seq<char>>, kind: EntryKind) -> bool {
    exists|i: int, j: int|
        0 <= i < globs.len() && 0 <= j < entries.len() && entries[j].kind == kind
            && ((#[trigger] child_of(entries[j], root)) matches Some(n) && name_glob_match(#[trigger] globs[i], n))
}

/// The children of `root` among `entries` satisfy the project matcher's groups.
pub open spec fn project_children_ok(pm: ProjectMatcher, entries: Seq<ScanEntry>, root: Seq<Seq<char>>) -> bool {
    &&& (pm.marker_globs@.len() == 0 || group_hit(strs(pm.marker_globs@), entries, root, EntryKind::File))
    &&& (pm.root_dir_globs@.len() == 0 || group_hit(strs(pm.root_dir_globs@), entries, root, EntryKind::Directory))
    &&& !group_hit(strs(pm.excluded_marker_globs@), entries, root, EntryKind::File)
    &&& !group_hit(strs(pm.excluded_root_dir_globs@), entries, root, EntryKind::Directory)
}

/// Entry `e` is an artifact of a project that the scan `entries` shows.
pub open spec fn project_matches(pm: ProjectMatcher, e: ScanEntry, entries: Seq<ScanEntry>) -> bool {
    project_matches_path(pm, e.path@, entries)
}

/// `path` is an artifact of a project that the scan `entries` shows: it ends with one of the
/// artifact paths, and the children of the root above it satisfy the groups.
pub open spec fn project_matches_path(pm: ProjectMatcher, path: Seq<char>, entries: Seq<ScanEntry>) -> bool {
    exists|k: int|
        0 <= k < pm.artifact_paths@.len() && ((#[trigger] artifact_components(pm.artifact_paths@[k]@)) matches Some(ap)
            && (project_root_of(path, ap) matches Some(root) && project_children_ok(pm, entries, root)))
}

/// Every given field of the matcher holds of entry `e` at time `as_of`; project matchers need
/// the whole scan as `context`.
pub open spec fn rule_matches(e: ScanEntry, r: RuleDefinition, as_of: i64, context: Option<Seq<ScanEntry>>) -> bool {
    let m = r.matcher;
    let name = name_of(e.path@);
    &&& (m.kind matches Some(k) ==> e.kind == k)
    &&& (m.dir_name matches Some(d) ==> e.kind == EntryKind::Directory && name == Some(d@))
    &&& (m.file_name matches Some(f) ==> e.kind != EntryKind::Directory && name == Some(f@))
    &&& (m.extension matches Some(x) ==> (path_extension(e.path@) matches Some(y) && lower_all(y) == lower_all(x@)))
    &&& (m.min_size matches Some(s) ==> e.size_bytes >= s)
    &&& (m.max_age_days matches Some(d) ==> (e.modified_at matches Some(t) && t <= as_of - d * NANOS_PER_DAY))
    &&& (m.path_glob matches Some(g) ==> path_glob_match(g@, e.path@))
    &&& (m.project matches Some(pm) ==> (context matches Some(entries) && project_matches(pm, e, entries)))
}

/// Every glob of a project matcher names one child, it has markers and artifact paths, and every
/// artifact path is well formed.
pub open spec fn project_sound(pm: ProjectMatcher) -> bool {
    &&& pm.marker_globs@.len() > 0
    &&& pm.artifact_paths@.len() > 0
    &&& forall|g: int, k: int| 0 <= g < 4 && 0 <= k < pattern_group(pm, g).len() ==> child_glob_ok(#[trigger] pattern_group(pm, g)[k])
    &&& forall|k: int| 0 <= k < pm.artifact_paths@.len() ==> (#[trigger] artifact_components(pm.artifact_paths@[k]@)) is Some
}

/// What matching relies on in a validated rule.
pub open spec fn matcher_sound(m: RuleMatcher) -> bool {
    &&& (m.path_glob matches Some(g) ==> path_glob_ok(g@))
    &&& (m.project matches Some(pm) ==> project_sound(pm))
}

proof fn lemma_pattern_fault_none(pack: Seq<char>, rule: Seq<char>, pm: ProjectMatcher, g: int, n: int)
    requires
        first_pattern_fault(pack, rule, pm, g, n) is None,
    ensures
        forall|k: int| 0 <= k < n ==> child_glob_ok(#[trigger] pattern_group(pm, g)[k]),
    decreases n,
{
    if n > 0 {
        lemma_pattern_fault_none(pack, rule, pm, g, n - 1);
    }
}

proof fn lemma_group_fault_none(pack: Seq<char>, rule: Seq<char>, pm: ProjectMatcher, n: int)
    requires
        first_group_fault(pack, rule, pm, n) is None,
    ensures
        forall|g: int| 0 <= g < n ==> (#[trigger] first_pattern_fault(pack, rule, pm, g, pattern_group(pm, g).len() as int)) is None,
    decreases n,
{
    if n > 0 {
        lemma_group_fault_none(pack, rule, pm, n - 1);
    }
}

proof fn lemma_artifact_fault_none(pack: Seq<char>, rule: Seq<char>, pm: ProjectMatcher, n: int)
    requires
        first_artifact_fault(pack, rule, pm, n) is None,
    ensures
        forall|k: int| 0 <= k < n ==> (#[trigger] artifact_components(pm.artifact_paths@[k]@)) is Some,
    decreases n,
{
    if n > 0 {
        lemma_artifact_fault_none(pack, rule, pm, n - 1);
    }
}

pub proof fn lemma_rule_fault_none(p: RulePack, n: int)
    requires
        first_rule_fault(p, n) is None,
    ensures
        forall|j: int| 0 <= j < n ==> (#[trigger] rule_fault(p, j)) is None,
    decreases n,
{
    if n > 0 {
        lemma_rule_fault_none(p, n - 1);
    }
}

/// Every rule of a valid pack has a matcher that matching can rely on.
pub proof fn lemma_valid_pack_sound(p: RulePack)
    requires
        pack_valid(p),
    ensures
        forall|j: int| 0 <= j < p.rules@.len() ==> matcher_sound(#[trigger] p.rules@[j].matcher),
{
    lemma_rule_fault_none(p, p.rules@.len() as int);
    assert forall|j: int| 0 <= j < p.rules@.len() implies matcher_sound(#[trigger] p.rules@[j].matcher) by {
        assert(rule_fault(p, j) is None);
        let r = p.rules@[j];
        assert(matcher_fault(p, r) is None);
        if let Some(pm) = r.matcher.project {
            assert(project_fault(p.id@, r.id@, pm) is None);
            lemma_group_fault_none(p.id@, r.id@, pm, 4);
            assert forall|g: int, k: int| 0 <= g < 4 && 0 <= k < pattern_group(pm, g).len() implies child_glob_ok(#[trigger] pattern_group(pm, g)[k]) by {
                assert(first_pattern_fault(p.id@, r.id@, pm, g, pattern_group(pm, g).len() as int) is None);
                lemma_pattern_fault_none(p.id@, r.id@, pm, g, pattern_group(pm, g).len() as int);
            }
            lemma_artifact_fault_none(p.id@, r.id@, pm, pm.artifact_paths@.len() as int);
        }
    }
}

/// The name of the path `path`, if its last component is one.
pub(crate) fn name_chars(path: &str) -> (res: Option<Vec<char>>)
    ensures
        match name_of(path@) {
            Some(n) => res matches Some(v) && v@ == n,
            None => res is None,
        },
{
    let comps = path_components(path);
    if comps.len() == 0 {
        return None;
    }
    let last = &comps[comps.len() - 1];
    assert(texts(comps@).last() == last@);
    if is_name_exec(last) {
        let name = last.clone();
        assert(name@ =~= last@);
        Some(name)
    } else {
        None
    }
}

/// Whether the component `c` is a name.
pub(crate) fn is_name_exec(c: &Vec<char>) -> (res: bool)
    ensures
        res == is_name(c@),
{
    let root = c.len() == 1 && c[0] == '/';
    let cur = c.len() == 1 && c[0] == '.';
    let up = c.len() == 2 && c[0] == '.' && c[1] == '.';
    proof {
        if c@ == seq!['/'] || c@ == seq!['.'] {
            assert(c@.len() == 1);
        }
        if c@ == seq!['.', '.'] {
            assert(c@.len() == 2);
        }
        if root {
            assert(c@ =~= seq!['/']);
        }
        if cur {
            assert(c@ =~= seq!['.']);
        }
        if up {
            assert(c@ =~= seq!['.', '.']);
        }
    }
    !(root || cur || up)
}

/// The extension of the file name `name`.
pub(crate) fn extension_chars(name: &Vec<char>) -> (res: Option<Vec<char>>)
    ensures
        match extension_of(name@) {
            Some(x) => res matches Some(v) && v@ == x,
            None => res is None,
        },
{
    let mut i: usize = name.len();
    assert(name@.take(name@.len() as int) =~= name@);
    while i > 0 && name[i - 1] != '.'
        invariant
            i <= name@.len(),
            last_dot(name@) == last_dot(name@.take(i as int)),
        decreases i,
    {
        assert(name@.take(i as int).drop_last() =~= name@.take(i - 1));
        i = i - 1;
    }
    assert(name@.take(name@.len() as int) =~= name@);
    proof {
        if i > 0 {
            assert(name@.take(i as int).last() == '.');
        } else {
            assert(name@.take(0) =~= Seq::<char>::empty());
        }
    }
    if i <= 1 {
        return None;
    }
    let mut out: Vec<char> = Vec::new();
    let mut k: usize = i;
    while k < name.len()
        invariant
            i <= k <= name@.len(),
            out@ == name@.subrange(i as int, k as int),
        decreases name.len() - k,
    {
        out.push(name[k]);
        assert(name@.subrange(i as int, k + 1) =~= name@.subrange(i as int, k as int).push(name@[k as int]));
        k = k + 1;
    }
    assert(name@.skip(i as int) =~= name@.subrange(i as int, name@.len() as int));
    Some(out)
}

/// The characters of `v` with ASCII letters in lower case.
fn lower_vec(v: &Vec<char>) -> (res: Vec<char>)
    ensures
        res@ == lower_all(v@),
{
    let mut res: Vec<char> = Vec::new();
    let mut i: usize = 0;
    while i < v.len()
        invariant
            i <= v@.len(),
            res@ == lower_all(v@).take(i as int),
        decreases v.len() - i,
    {
        res.push(crate::text::ascii_lower_char(v[i]));
        assert(lower_all(v@).take(i + 1) =~= lower_all(v@).take(i as int).push(crate::text::ascii_lower(v@[i as int])));
        i = i + 1;
    }
    assert(lower_all(v@).take(v@.len() as int) =~= lower_all(v@));
    res
}

/// Where the artifact components `ap` end `path`, the components of the project root.
fn project_root(path: &str, ap: &Vec<Vec<char>>) -> (res: Option<Vec<Vec<char>>>)
    ensures
        match project_root_of(path@, texts(ap@)) {
            Some(root) => res matches Some(v) && texts(v@) == root,
            None => res is None,
        },
{
    let comps = path_components(path);
    let ghost c = texts(comps@);
    if ap.len() > comps.len() {
        return None;
    }
    let base = comps.len() - ap.len();
    let mut k: usize = 0;
    while k < ap.len()
        invariant
            k <= ap@.len(),
            base + ap@.len() == comps@.len(),
            comps@.len() <= usize::MAX,
            c == texts(comps@),
            c == components(path@),
            forall|m: int| 0 <= m < k ==> c[base + m] == texts(ap@)[m],
        decreases ap.len() - k,
    {
        if !crate::path::chars_equal(&comps[base + k], &ap[k]) {
            assert(c.skip(base as int)[k as int] != texts(ap@)[k as int]);
            return None;
        }
        k = k + 1;
    }
    assert(c.skip(base as int) =~= texts(ap@));
    let mut root: Vec<Vec<char>> = Vec::new();
    let mut m: usize = 0;
    while m < base
        invariant
            m <= base <= comps@.len(),
            c == texts(comps@),
            texts(root@) == c.take(m as int),
        decreases base - m,
    {
        let part = comps[m].clone();
        assert(part@ =~= comps@[m as int]@);
        let ghost before = root@;
        root.push(part);
        assert(root@ == before.push(part));
        assert(c[m as int] == part@);
        assert(texts(root@) =~= texts(before).push(part@));
        assert(c.take(m + 1) =~= c.take(m as int).push(c[m as int]));
        m = m + 1;
    }
    Some(root)
}

/// The name of entry path `path` where it lies directly inside `root`.
fn child_name(path: &str, root: &Vec<Vec<char>>) -> (res: Option<Vec<char>>)
    ensures
        match child_of_path(path@, texts(root@)) {
            Some(n) => res matches Some(v) && v@ == n,
            None => res is None,
        },
{
    let comps = path_components(path);
    let ghost c = texts(comps@);
    if comps.len() == 0 || comps.len() - 1 != root.len() {
        proof {
            if comps@.len() > 0 {
                assert(c.drop_last().len() != texts(root@).len());
            }
        }
        return None;
    }
    let last = &comps[comps.len() - 1];
    assert(c.last() == last@);
    if !is_name_exec(last) {
        return None;
    }
    let mut k: usize = 0;
    while k < root.len()
        invariant
            k <= root@.len(),
            root@.len() + 1 == comps@.len(),
            c == texts(comps@),
            c == components(path@),
            forall|m: int| 0 <= m < k ==> c[m] == texts(root@)[m],
        decreases root.len() - k,
    {
        if !crate::path::chars_equal(&comps[k], &root[k]) {
            assert(c.drop_last()[k as int] != texts(root@)[k as int]);
            return None;
        }
        k = k + 1;
    }
    assert(c.drop_last() =~= texts(root@));
    let name = last.clone();
    assert(name@ =~= last@);
    Some(name)
}

/// Whether some entry of kind `kind` directly inside `root` has a name one of `globs` matches.
fn group_hit_exec(globs: &Vec<String>, entries: &[ScanEntry], root: &Vec<Vec<char>>, kind: EntryKind) -> (res: bool)
    requires
        forall|i: int| 0 <= i < globs@.len() ==> name_glob_ok(#[trigger] globs@[i]@),
    ensures
        res == group_hit(strs(globs@), entries@, texts(root@), kind),
{
    let ghost g = strs(globs@);
    let mut j: usize = 0;
    while j < entries.len()
        invariant
            j <= entries@.len(),
            g == strs(globs@),
            forall|i: int| 0 <= i < globs@.len() ==> name_glob_ok(#[trigger] globs@[i]@),
            forall|i: int, m: int|
                0 <= i < g.len() && 0 <= m < j && entries@[m].kind == kind ==> !((#[trigger] child_of(entries@[m], texts(root@))) matches Some(n)
                    && name_glob_match(#[trigger] g[i], n)),
        decreases entries.len() - j,
    {
        if entries[j].kind == kind {
            let name = child_name(entries[j].path.as_str(), root);
            assert(child_of(entries@[j as int], texts(root@)) == child_of(entries@[j as int], texts(root@)));
            if let Some(n) = name {
                let text = crate::text::string_from_chars(n.as_slice());
                let mut i: usize = 0;
                while i < globs.len()
                    invariant
                        i <= globs@.len(),
                        j < entries@.len(),
                        g == strs(globs@),
                        entries@[j as int].kind == kind,
                        child_of(entries@[j as int], texts(root@)) == Some(text@),
                        forall|q: int| 0 <= q < globs@.len() ==> name_glob_ok(#[trigger] globs@[q]@),
                        forall|q: int| 0 <= q < i ==> !name_glob_match(#[trigger] g[q], text@),
                    decreases globs.len() - i,
                {
                    assert(g[i as int] == globs@[i as int]@);
                    if name_glob_is_match(globs[i].as_str(), text.as_str()) {
                        assert(group_hit(g, entries@, texts(root@), kind)) by {
                            assert(child_of(entries@[j as int], texts(root@)) matches Some(n) && name_glob_match(g[i as int], n));
                        }
                        return true;
                    }
                    i = i + 1;
                }
            }
        }
        j = j + 1;
    }
    false
}


/// Whether `path` is an artifact of a project that the scan `entries` shows.
fn project_matches_exec(pm: &ProjectMatcher, path: &str, entries: &[ScanEntry]) -> (res: bool)
    requires
        project_sound(*pm),
    ensures
        res == project_matches_path(*pm, path@, entries@),
{
    assert forall|i: int| 0 <= i < pm.marker_globs@.len() implies name_glob_ok(#[trigger] pm.marker_globs@[i]@) by {
        assert(pattern_group(*pm, 0)[i] == pm.marker_globs@[i]@);
    }
    assert forall|i: int| 0 <= i < pm.root_dir_globs@.len() implies name_glob_ok(#[trigger] pm.root_dir_globs@[i]@) by {
        assert(pattern_group(*pm, 1)[i] == pm.root_dir_globs@[i]@);
    }
    assert forall|i: int| 0 <= i < pm.excluded_marker_globs@.len() implies name_glob_ok(#[trigger] pm.excluded_marker_globs@[i]@) by {
        assert(pattern_group(*pm, 2)[i] == pm.excluded_marker_globs@[i]@);
    }
    assert forall|i: int| 0 <= i < pm.excluded_root_dir_globs@.len() implies name_glob_ok(#[trigger] pm.excluded_root_dir_globs@[i]@) by {
        assert(pattern_group(*pm, 3)[i] == pm.excluded_root_dir_globs@[i]@);
    }
    let mut k: usize = 0;
    while k < pm.artifact_paths.len()
        invariant
            k <= pm.artifact_paths@.len(),
            project_sound(*pm),
            forall|i: int| 0 <= i < pm.marker_globs@.len() ==> name_glob_ok(#[trigger] pm.marker_globs@[i]@),
            forall|i: int| 0 <= i < pm.root_dir_globs@.len() ==> name_glob_ok(#[trigger] pm.root_dir_globs@[i]@),
            forall|i: int| 0 <= i < pm.excluded_marker_globs@.len() ==> name_glob_ok(#[trigger] pm.excluded_marker_globs@[i]@),
            forall|i: int| 0 <= i < pm.excluded_root_dir_globs@.len() ==> name_glob_ok(#[trigger] pm.excluded_root_dir_globs@[i]@),
            forall|m: int| 0 <= m < k ==> !((#[trigger] artifact_components(pm.artifact_paths@[m]@)) matches Some(ap)
                && (project_root_of(path@, ap) matches Some(root) && project_children_ok(*pm, entries@, root))),
        decreases pm.artifact_paths.len() - k,
    {
        let components = project_artifact_components(pm.artifact_paths[k].as_str());
        if let Some(ap) = components {
            let root = project_root(path, &ap);
            if let Some(root) = root {
                let markers = pm.marker_globs.len() == 0 || group_hit_exec(&pm.marker_globs, entries, &root, EntryKind::File);
                let dirs = pm.root_dir_globs.len() == 0 || group_hit_exec(&pm.root_dir_globs, entries, &root, EntryKind::Directory);
                let excluded_markers = group_hit_exec(&pm.excluded_marker_globs, entries, &root, EntryKind::File);
                let excluded_dirs = group_hit_exec(&pm.excluded_root_dir_globs, entries, &root, EntryKind::Directory);
                if markers && dirs && !excluded_markers && !excluded_dirs {
                    assert(artifact_components(pm.artifact_paths@[k as int]@) matches Some(a)
                        && (project_root_of(path@, a) matches Some(r) && project_children_ok(*pm, entries@, r)));
                    return true;
                }
            }
        }
        k = k + 1;
    }
    false
}

/// The scan a match may consult, as values.
pub open spec fn context_view(context: Option<&[ScanEntry]>) -> Option<Seq<ScanEntry>> {
    match context {
        Some(c) => Some(c@),
        None => None,
    }
}

/// Whether rule `rule` matches `entry` at time `as_of`, consulting the scan `context` for
/// project matchers.
pub fn matches_rule(entry: &ScanEntry, rule: &RuleDefinition, as_of: i64, context: Option<&[ScanEntry]>) -> (res: bool)
    requires
        matcher_sound(rule.matcher),
    ensures
        res == rule_matches(*entry, *rule, as_of, context_view(context)),
{
    let m = &rule.matcher;
    if let Some(kind) = m.kind {
        if entry.kind != kind {
            return false;
        }
    }
    let name = name_chars(entry.path.as_str());
    if let Some(dir_name) = &m.dir_name {
        if entry.kind != EntryKind::Directory {
            return false;
        }
        match &name {
            Some(n) => {
                let expected = chars_of(dir_name.as_str());
                if !crate::path::chars_equal(n, &expected) {
                    return false;
                }
            },
            None => {
                return false;
            },
        }
    }
    if let Some(file_name) = &m.file_name {
        if entry.kind == EntryKind::Directory {
            return false;
        }
        match &name {
            Some(n) => {
                let expected = chars_of(file_name.as_str());
                if !crate::path::chars_equal(n, &expected) {
                    return false;
                }
            },
            None => {
                return false;
            },
        }
    }
    if let Some(extension) = &m.extension {
        let actual = match &name {
            Some(n) => extension_chars(n),
            None => None,
        };
        match actual {
            Some(x) => {
                let a = lower_vec(&x);
                let b = crate::text::to_ascii_lowercase(extension.as_str());
                if !crate::path::chars_equal(&a, &b) {
                    return false;
                }
            },
            None => {
                return false;
            },
        }
    }
    if let Some(min_size) = m.min_size {
        if entry.size_bytes < min_size {
            return false;
        }
    }
    if let Some(days) = m.max_age_days {
        match entry.modified_at {
            Some(modified_at) => {
                let cutoff: i128 = as_of as i128 - (days as i128) * (NANOS_PER_DAY as i128);
                if (modified_at as i128) > cutoff {
                    return false;
                }
            },
            None => {
                return false;
            },
        }
    }
    if let Some(glob) = &m.path_glob {
        if !path_glob_is_match(glob.as_str(), entry.path.as_str()) {
            return false;
        }
    }
    if let Some(project) = &m.project {
        match context {
            Some(entries) => {
                if !project_matches_exec(project, entry.path.as_str(), entries) {
                    return false;
                }
            },
            None => {
                return false;
            },
        }
    }
    true
}


// ---------------------------------------------------------------- the registry

/// A rule pack as loaded, with where it came from and how far it is trusted.
#[derive(Debug, Clone)]
pub struct LoadedRulePack {
    pub definition: RulePack,
    pub source: PluginSource,
    pub trust: TrustLevel,
    pub plugin_id: Option<String>,
}

/// Why the registry refuses an addition.
#[derive(Debug, Clone, PartialEq, Eq)]
pub enum RegistryError {
    DuplicatePack { id: String },
    DuplicateLocation { id: String },
}

/// `d` is the error recorded for a rule pack file `path` that was not loaded, with `message`.
pub open spec fn pack_refusal(d: PluginDiagnostic, message: Seq<char>, path: Seq<char>) -> bool {
    &&& d.severity == DiagnosticSeverity::Error
    &&& d.code@ == "rule-pack-invalid"@
    &&& d.message@ == message
    &&& d.path matches Some(p) && p@ == path
}

/// The message for a refused registry change.
pub open spec fn registry_error_text(e: RegistryError) -> Seq<char> {
    match e {
        RegistryError::DuplicatePack { id } => "duplicate rule pack id "@ + id@,
        RegistryError::DuplicateLocation { id } => "duplicate built-in scan location id "@ + id@,
    }
}

impl RegistryError {
    /// The message shown to the user.
    pub fn message(&self) -> (res: String)
        ensures
            res@ == registry_error_text(*self),
    {
        match self {
            RegistryError::DuplicatePack { id } => crate::text::concat("duplicate rule pack id ", id.as_str()),
            RegistryError::DuplicateLocation { id } => crate::text::concat("duplicate built-in scan location id ", id.as_str()),
        }
    }
}

/// The rule trust that a plugin trust level grants.
pub open spec fn trust_of(t: TrustLevel) -> RuleTrust {
    match t {
        TrustLevel::Builtin => RuleTrust::Builtin,
        TrustLevel::Trusted => RuleTrust::Trusted,
        TrustLevel::Untrusted => RuleTrust::Untrusted,
    }
}

/// The first source in `sources` with id `id`.
pub open spec fn source_with_id(sources: Seq<RuleSource>, id: Seq<char>) -> Option<RuleSource>
    decreases sources.len(),
{
    if sources.len() == 0 {
        None
    } else if sources[0].id@ == id {
        Some(sources[0])
    } else {
        source_with_id(sources.drop_first(), id)
    }
}

/// The sources cited by the first `n` references of rule `r`, skipping references to none.
pub open spec fn cited_sources(p: RulePack, r: RuleDefinition, n: int) -> Seq<RuleSource>
    decreases n,
{
    if n <= 0 {
        Seq::empty()
    } else {
        let prev = cited_sources(p, r, n - 1);
        match source_with_id(p.sources@, r.source_refs@[n - 1]@) {
            Some(s) => prev.push(s),
            None => prev,
        }
    }
}

/// `h` reports rule `r` of pack `lp`.
pub open spec fn hit_of(h: RuleHit, lp: LoadedRulePack, r: RuleDefinition) -> bool {
    &&& h.rule_pack_id == lp.definition.id
    &&& h.rule_id == r.id
    &&& h.label == r.label
    &&& h.category == r.category
    &&& h.confidence == r.confidence
    &&& h.reason == r.reason
    &&& h.risk_note == r.risk_note
    &&& h.default_selected == r.default_selected
    &&& h.match_role == r.match_role
    &&& h.trust == trust_of(lp.trust)
    &&& h.sources@ == cited_sources(lp.definition, r, r.source_refs@.len() as int)
}

/// Rule `r` is meant for `platform`: it names no platform, or names this one.
pub open spec fn platform_allows(r: RuleDefinition, platform: Option<RulePlatform>) -> bool {
    r.platforms@.len() == 0 || (platform matches Some(p) && r.platforms@.contains(p))
}

/// Rule `r` applies to entry `e`.
pub open spec fn rule_applies(r: RuleDefinition, e: ScanEntry, as_of: i64, platform: Option<RulePlatform>, context: Option<Seq<ScanEntry>>) -> bool {
    platform_allows(r, platform) && rule_matches(e, r, as_of, context)
}

/// The positions `(pack, rule)` of the first `n` rules of pack `pi` that apply to `e`.
pub open spec fn pack_keys(packs: Seq<LoadedRulePack>, pi: int, e: ScanEntry, as_of: i64, platform: Option<RulePlatform>, context: Option<Seq<ScanEntry>>, n: int) -> Seq<(int, int)>
    decreases n,
{
    if n <= 0 {
        Seq::empty()
    } else {
        let prev = pack_keys(packs, pi, e, as_of, platform, context, n - 1);
        if rule_applies(packs[pi].definition.rules@[n - 1], e, as_of, platform, context) {
            prev.push((pi, n - 1))
        } else {
            prev
        }
    }
}

/// The positions of the rules of the first `m` packs that apply to `e`, in pack and rule order.
pub open spec fn matching_keys(packs: Seq<LoadedRulePack>, e: ScanEntry, as_of: i64, platform: Option<RulePlatform>, context: Option<Seq<ScanEntry>>, m: int) -> Seq<(int, int)>
    decreases m,
{
    if m <= 0 {
        Seq::empty()
    } else {
        matching_keys(packs, e, as_of, platform, context, m - 1) + pack_keys(packs, m - 1, e, as_of, platform, context, packs[m - 1].definition.rules@.len() as int)
    }
}

/// `hits` reports, in order, the rules of `packs` that apply to `e`.
pub open spec fn hits_are(hits: Seq<RuleHit>, packs: Seq<LoadedRulePack>, e: ScanEntry, as_of: i64, platform: Option<RulePlatform>, context: Option<Seq<ScanEntry>>) -> bool {
    let keys = matching_keys(packs, e, as_of, platform, context, packs.len() as int);
    &&& hits.len() == keys.len()
    &&& forall|k: int| 0 <= k < keys.len() ==> hit_of(#[trigger] hits[k], packs[keys[k].0], packs[keys[k].0].definition.rules@[keys[k].1])
}

/// The ids of the scan locations `v`.
pub open spec fn location_id_texts(v: Seq<ScanLocationDefinition>) -> Seq<Seq<char>> {
    Seq::new(v.len(), |i: int| v[i].id@)
}

/// Scan locations in strictly ascending order of id, so no id occurs twice.
pub open spec fn ids_ascending(v: Seq<ScanLocationDefinition>) -> bool {
    forall|i: int, j: int| 0 <= i < j < v.len() ==> chars_le(v[i].id@, v[j].id@) && v[i].id@ != v[j].id@
}

/// Some location of `v` has id `id`.
pub open spec fn location_id_in(v: Seq<ScanLocationDefinition>, id: Seq<char>) -> bool {
    exists|i: int| 0 <= i < v.len() && (#[trigger] v[i]).id@ == id
}

/// A pack with id `id` is among `packs`.
pub open spec fn pack_id_loaded(packs: Seq<LoadedRulePack>, id: Seq<char>) -> bool {
    exists|i: int| 0 <= i < packs.len() && (#[trigger] packs[i]).definition.id@ == id
}

/// Some rule of `p` asks to be selected by default.
pub open spec fn asks_preselection(p: RulePack) -> bool {
    exists|j: int| 0 <= j < p.rules@.len() && (#[trigger] p.rules@[j]).default_selected
}

/// The loaded form of a pack.
pub open spec fn loaded_pack(pack: RulePack, source: PluginSource, trust: TrustLevel, plugin_id: Option<String>) -> LoadedRulePack {
    LoadedRulePack { definition: pack, source, trust, plugin_id }
}

/// `path` is where `source` lies on disk.
pub open spec fn source_path_is(path: Option<String>, source: PluginSource) -> bool {
    match source {
        PluginSource::Builtin => path is None,
        PluginSource::Bundle(p) => path matches Some(q) && q@ == p@,
        PluginSource::LegacyFile(p) => path matches Some(q) && q@ == p@,
    }
}

/// `d` warns that the untrusted pack `pack_id` from `source` asked for default selection.
pub open spec fn untrusted_preselection_warning(d: PluginDiagnostic, pack_id: Seq<char>, source: PluginSource) -> bool {
    &&& d.severity == DiagnosticSeverity::Warning
    &&& d.code@ == "untrusted-default-selection-disabled"@
    &&& d.message@ == "rule pack "@ + pack_id + " requested default selection, but it is not trusted"@
    &&& source_path_is(d.path, source)
}

/// Rules for cleanup, loaded from packs, with the scan locations plugins contribute and what
/// went wrong while loading them.
#[derive(Debug, Clone)]
pub struct RuleRegistry {
    packs: Vec<LoadedRulePack>,
    scan_locations: Vec<ScanLocationDefinition>,
    diagnostics: Vec<PluginDiagnostic>,
}

impl RuleRegistry {
    pub closed spec fn spec_packs(&self) -> Seq<LoadedRulePack> {
        self.packs@
    }

    pub closed spec fn spec_scan_locations(&self) -> Seq<ScanLocationDefinition> {
        self.scan_locations@
    }

    pub closed spec fn spec_diagnostics(&self) -> Seq<PluginDiagnostic> {
        self.diagnostics@
    }

    /// Every pack is valid and no two packs, nor two scan locations, share an id.
    pub open spec fn wf(&self) -> bool {
        &&& forall|i: int| 0 <= i < self.spec_packs().len() ==> pack_valid(#[trigger] self.spec_packs()[i].definition)
        &&& forall|i: int, j: int| 0 <= i < j < self.spec_packs().len() ==> self.spec_packs()[i].definition.id@ != self.spec_packs()[j].definition.id@
        &&& ids_ascending(self.spec_scan_locations())
    }

    /// A registry with nothing loaded.
    pub fn empty() -> (res: Self)
        ensures
            res.wf(),
            res.spec_packs().len() == 0,
            res.spec_scan_locations().len() == 0,
            res.spec_diagnostics().len() == 0,
    {
        RuleRegistry { packs: Vec::new(), scan_locations: Vec::new(), diagnostics: Vec::new() }
    }

    /// The loaded packs, in load order.
    pub fn packs(&self) -> (res: &[LoadedRulePack])
        ensures
            res@ == self.spec_packs(),
    {
        self.packs.as_slice()
    }

    /// What went wrong while loading.
    pub fn diagnostics(&self) -> (res: &[PluginDiagnostic])
        ensures
            res@ == self.spec_diagnostics(),
    {
        self.diagnostics.as_slice()
    }

    /// The scan locations contributed by plugins, ordered by id.
    pub fn scan_locations(&self) -> (res: &[ScanLocationDefinition])
        ensures
            res@ == self.spec_scan_locations(),
    {
        self.scan_locations.as_slice()
    }

    /// Record a diagnostic found while loading.
    pub fn push_diagnostic(&mut self, diagnostic: PluginDiagnostic)
        requires
            old(self).wf(),
        ensures
            final(self).wf(),
            final(self).spec_packs() == old(self).spec_packs(),
            final(self).spec_scan_locations() == old(self).spec_scan_locations(),
            final(self).spec_diagnostics() == old(self).spec_diagnostics().push(diagnostic),
    {
        self.diagnostics.push(diagnostic);
    }

    /// The id, version and sources of each loaded pack.
    pub fn versions(&self) -> (res: Vec<RulesetVersion>)
        ensures
            res@.len() == self.spec_packs().len(),
            forall|i: int| 0 <= i < res@.len() ==> {
                &&& (#[trigger] res@[i]).id == self.spec_packs()[i].definition.id
                &&& res@[i].version == self.spec_packs()[i].definition.version
                &&& res@[i].sources@ == self.spec_packs()[i].definition.sources@
            },
    {
        let mut res: Vec<RulesetVersion> = Vec::new();
        let mut i: usize = 0;
        while i < self.packs.len()
            invariant
                i <= self.packs@.len(),
                res@.len() == i,
                forall|k: int| 0 <= k < i ==> {
                    &&& (#[trigger] res@[k]).id == self.packs@[k].definition.id
                    &&& res@[k].version == self.packs@[k].definition.version
                    &&& res@[k].sources@ == self.packs@[k].definition.sources@
                },
            decreases self.packs.len() - i,
        {
            let d = &self.packs[i].definition;
            let sources = d.sources.clone();
            assert(sources@ =~= d.sources@);
            res.push(RulesetVersion { id: d.id.clone(), version: d.version.clone(), sources });
            i = i + 1;
        }
        res
    }

    /// Whether a pack with id `id` is loaded.
    fn has_pack(&self, id: &str) -> (res: bool)
        ensures
            res == exists|i: int| 0 <= i < self.packs@.len() && (#[trigger] self.packs@[i]).definition.id@ == id@,
    {
        let mut i: usize = 0;
        while i < self.packs.len()
            invariant
                i <= self.packs@.len(),
                forall|k: int| 0 <= k < i ==> (#[trigger] self.packs@[k]).definition.id@ != id@,
            decreases self.packs.len() - i,
        {
            if str_eq(self.packs[i].definition.id.as_str(), id) {
                return true;
            }
            i = i + 1;
        }
        false
    }

    /// Check `pack`, read from the file `path`, and load it. A pack that does not check, or whose
    /// id is already loaded, is left out, and the registry records an error naming the reason
    /// and the file; a loaded pack is recorded as [`RuleRegistry::add_pack`] says.
    pub fn load_checked_pack(&mut self, pack: RulePack, path: &str, source: PluginSource, trust: TrustLevel, plugin_id: Option<String>)
        requires
            old(self).wf(),
        ensures
            final(self).wf(),
            final(self).spec_scan_locations() == old(self).spec_scan_locations(),
            match pack_fault(pack) {
                Some(f) => final(self).spec_packs() == old(self).spec_packs()
                    && final(self).spec_diagnostics() == old(self).spec_diagnostics().push(final(self).spec_diagnostics().last())
                    && pack_refusal(final(self).spec_diagnostics().last(), pack_error_text(f.0, f.1, f.2, f.3), path@),
                None => if pack_id_loaded(old(self).spec_packs(), pack.id@) {
                    final(self).spec_packs() == old(self).spec_packs()
                        && final(self).spec_diagnostics() == old(self).spec_diagnostics().push(final(self).spec_diagnostics().last())
                        && pack_refusal(final(self).spec_diagnostics().last(),
                            registry_error_text(RegistryError::DuplicatePack { id: pack.id }), path@)
                } else {
                    &&& final(self).spec_packs() == old(self).spec_packs().push(loaded_pack(pack, source, trust, plugin_id))
                    &&& !(trust == TrustLevel::Untrusted && asks_preselection(pack)) ==> final(self).spec_diagnostics() == old(self).spec_diagnostics()
                    &&& trust == TrustLevel::Untrusted && asks_preselection(pack) ==> final(self).spec_diagnostics() == old(self).spec_diagnostics().push(final(self).spec_diagnostics().last())
                        && untrusted_preselection_warning(final(self).spec_diagnostics().last(), pack.id@, source)
                },
            },
    {
        match pack.validate() {
            Err(error) => {
                let message = error.message();
                self.push_diagnostic(PluginDiagnostic::error("rule-pack-invalid", message, Some(path.to_owned())));
            },
            Ok(()) => {
                match self.add_pack(pack, source, trust, plugin_id) {
                    Err(error) => {
                        let message = error.message();
                        self.push_diagnostic(PluginDiagnostic::error("rule-pack-invalid", message, Some(path.to_owned())));
                    },
                    Ok(()) => {},
                }
            },
        }
    }

    /// Load a validated pack. A pack whose id is already loaded is refused and the registry is
    /// unchanged; an untrusted pack that asks for default selection is loaded with a warning.
    pub fn add_pack(&mut self, pack: RulePack, source: PluginSource, trust: TrustLevel, plugin_id: Option<String>) -> (res: Result<(), RegistryError>)
        requires
            old(self).wf(),
            pack_valid(pack),
        ensures
            final(self).wf(),
            (res is Err) == pack_id_loaded(old(self).spec_packs(), pack.id@),
            res matches Err(e) ==> e == (RegistryError::DuplicatePack { id: pack.id }) && *final(self) == *old(self),
            res is Ok ==> final(self).spec_packs() == old(self).spec_packs().push(loaded_pack(pack, source, trust, plugin_id)),
            res is Ok ==> final(self).spec_scan_locations() == old(self).spec_scan_locations(),
            res is Ok && !(trust == TrustLevel::Untrusted && asks_preselection(pack)) ==> final(self).spec_diagnostics() == old(self).spec_diagnostics(),
            res is Ok && trust == TrustLevel::Untrusted && asks_preselection(pack) ==> final(self).spec_diagnostics() == old(self).spec_diagnostics().push(final(self).spec_diagnostics().last()),
            res is Ok && trust == TrustLevel::Untrusted && asks_preselection(pack) ==> untrusted_preselection_warning(final(self).spec_diagnostics().last(), pack.id@, source),
    {
        if self.has_pack(pack.id.as_str()) {
            return Err(RegistryError::DuplicatePack { id: pack.id });
        }
        let untrusted = match trust {
            TrustLevel::Untrusted => true,
            _ => false,
        };
        let mut preselects = false;
        let mut j: usize = 0;
        while j < pack.rules.len()
            invariant
                j <= pack.rules@.len(),
                preselects == exists|k: int| 0 <= k < j && (#[trigger] pack.rules@[k]).default_selected,
            decreases pack.rules.len() - j,
        {
            if pack.rules[j].default_selected {
                preselects = true;
            }
            j = j + 1;
        }
        if untrusted && preselects {
            let a = crate::text::concat("rule pack ", pack.id.as_str());
            let message = crate::text::concat(a.as_str(), " requested default selection, but it is not trusted");
            let path = match source.path() {
                Some(p) => Some(p.to_owned()),
                None => None,
            };
            self.diagnostics.push(PluginDiagnostic::warning("untrusted-default-selection-disabled", message, path));
        }
        let ghost before = self.packs@;
        self.packs.push(LoadedRulePack { definition: pack, source, trust, plugin_id });
        assert forall|i: int, k: int| 0 <= i < k < self.packs@.len() implies self.packs@[i].definition.id@ != self.packs@[k].definition.id@ by {
            if k == self.packs@.len() - 1 {
                assert(before[i] == self.packs@[i]);
            }
        }
        Ok(())
    }
}


/// The first source in `sources` with id `id`, copied.
fn find_source(sources: &Vec<RuleSource>, id: &str) -> (res: Option<RuleSource>)
    ensures
        res == source_with_id(sources@, id@),
{
    let mut i: usize = 0;
    assert(sources@.skip(0) =~= sources@);
    while i < sources.len()
        invariant
            i <= sources@.len(),
            source_with_id(sources@, id@) == source_with_id(sources@.skip(i as int), id@),
        decreases sources.len() - i,
    {
        assert(sources@.skip(i as int)[0] == sources@[i as int]);
        if str_eq(sources[i].id.as_str(), id) {
            return Some(sources[i].clone());
        }
        assert(sources@.skip(i as int).drop_first() =~= sources@.skip(i + 1));
        i = i + 1;
    }
    assert(sources@.skip(i as int).len() == 0);
    None
}

/// The report of rule `r` of pack `lp`.
fn make_hit(lp: &LoadedRulePack, r: &RuleDefinition) -> (res: RuleHit)
    ensures
        hit_of(res, *lp, *r),
{
    let mut sources: Vec<RuleSource> = Vec::new();
    let mut k: usize = 0;
    while k < r.source_refs.len()
        invariant
            k <= r.source_refs@.len(),
            sources@ == cited_sources(lp.definition, *r, k as int),
        decreases r.source_refs.len() - k,
    {
        if let Some(s) = find_source(&lp.definition.sources, r.source_refs[k].as_str()) {
            sources.push(s);
        }
        k = k + 1;
    }
    let trust = match lp.trust {
        TrustLevel::Builtin => RuleTrust::Builtin,
        TrustLevel::Trusted => RuleTrust::Trusted,
        TrustLevel::Untrusted => RuleTrust::Untrusted,
    };
    RuleHit {
        rule_pack_id: lp.definition.id.clone(),
        rule_id: r.id.clone(),
        label: r.label.clone(),
        category: r.category.clone(),
        confidence: r.confidence,
        reason: r.reason.clone(),
        risk_note: r.risk_note.clone(),
        default_selected: r.default_selected,
        trust,
        match_role: r.match_role,
        sources,
    }
}

/// Whether rule `r` is meant for `platform`.
fn platform_allows_exec(r: &RuleDefinition, platform: Option<RulePlatform>) -> (res: bool)
    ensures
        res == platform_allows(*r, platform),
{
    if r.platforms.len() == 0 {
        return true;
    }
    match platform {
        Some(p) => {
            let mut k: usize = 0;
            while k < r.platforms.len()
                invariant
                    k <= r.platforms@.len(),
                    platform == Some(p),
                    forall|m: int| 0 <= m < k ==> r.platforms@[m] != p,
                decreases r.platforms.len() - k,
            {
                if r.platforms[k] == p {
                    assert(r.platforms@.contains(p));
                    return true;
                }
                k = k + 1;
            }
            false
        },
        None => false,
    }
}

impl RuleRegistry {
    /// The rules that apply to `entry` at `as_of` on `platform`, consulting the scan `context`
    /// for project rules, in pack and rule order.
    fn hits_with_context(&self, entry: &ScanEntry, as_of: i64, context: Option<&[ScanEntry]>, platform: Option<RulePlatform>) -> (res: Vec<RuleHit>)
        requires
            self.wf(),
        ensures
            hits_are(res@, self.spec_packs(), *entry, as_of, platform, context_view(context)),
    {
        let ghost packs = self.packs@;
        let ghost ctx = context_view(context);
        let mut res: Vec<RuleHit> = Vec::new();
        let mut pi: usize = 0;
        while pi < self.packs.len()
            invariant
                pi <= packs.len(),
                packs == self.packs@,
                ctx == context_view(context),
                self.wf(),
                res@.len() == matching_keys(packs, *entry, as_of, platform, ctx, pi as int).len(),
                forall|k: int| 0 <= k < res@.len() ==> {
                    let key = #[trigger] matching_keys(packs, *entry, as_of, platform, ctx, pi as int)[k];
                    hit_of(res@[k], packs[key.0], packs[key.0].definition.rules@[key.1])
                },
            decreases self.packs.len() - pi,
        {
            let lp = &self.packs[pi];
            assert(pack_valid(packs[pi as int].definition));
            proof {
                lemma_valid_pack_sound(lp.definition);
            }
            let ghost base = matching_keys(packs, *entry, as_of, platform, ctx, pi as int);
            let ghost base_len = res@.len();
            let mut ri: usize = 0;
            while ri < lp.definition.rules.len()
                invariant
                    pi < packs.len(),
                    packs == self.packs@,
                    *lp == packs[pi as int],
                    ctx == context_view(context),
                    ri <= lp.definition.rules@.len(),
                    forall|j: int| 0 <= j < lp.definition.rules@.len() ==> matcher_sound(#[trigger] lp.definition.rules@[j].matcher),
                    base_len == base.len(),
                    res@.len() == base.len() + pack_keys(packs, pi as int, *entry, as_of, platform, ctx, ri as int).len(),
                    forall|k: int| 0 <= k < res@.len() ==> {
                        let key = #[trigger] (base + pack_keys(packs, pi as int, *entry, as_of, platform, ctx, ri as int))[k];
                        hit_of(res@[k], packs[key.0], packs[key.0].definition.rules@[key.1])
                    },
                decreases lp.definition.rules.len() - ri,
            {
                let rule = &lp.definition.rules[ri];
                let ghost keys_before = base + pack_keys(packs, pi as int, *entry, as_of, platform, ctx, ri as int);
                if platform_allows_exec(rule, platform) && matches_rule(entry, rule, as_of, context) {
                    let hit = make_hit(lp, rule);
                    res.push(hit);
                    assert(base + pack_keys(packs, pi as int, *entry, as_of, platform, ctx, ri + 1) =~= keys_before.push((pi as int, ri as int)));
                } else {
                    assert(base + pack_keys(packs, pi as int, *entry, as_of, platform, ctx, ri + 1) =~= keys_before);
                }
                ri = ri + 1;
            }
            assert(matching_keys(packs, *entry, as_of, platform, ctx, pi + 1) =~= base + pack_keys(packs, pi as int, *entry, as_of, platform, ctx, lp.definition.rules@.len() as int));
            pi = pi + 1;
        }
        res
    }

    /// The entry-local rules that apply to `entry` at `as_of` on `platform`; project rules need
    /// the whole scan and do not match here.
    pub fn hits_for_at(&self, entry: &ScanEntry, as_of: i64, platform: Option<RulePlatform>) -> (res: Vec<RuleHit>)
        requires
            self.wf(),
        ensures
            hits_are(res@, self.spec_packs(), *entry, as_of, platform, None),
    {
        self.hits_with_context(entry, as_of, None, platform)
    }

    /// Annotate a scan with the rules that apply to each entry, all judged at the one time
    /// `as_of`, with the whole scan as the context of project rules.
    pub fn annotate_entries_at(&self, entries: &mut Vec<ScanEntry>, as_of: i64, platform: Option<RulePlatform>)
        requires
            self.wf(),
        ensures
            final(entries)@.len() == old(entries)@.len(),
            forall|i: int| 0 <= i < old(entries)@.len() ==> {
                &&& (#[trigger] final(entries)@[i]).path == old(entries)@[i].path
                &&& final(entries)@[i].kind == old(entries)@[i].kind
                &&& final(entries)@[i].size_bytes == old(entries)@[i].size_bytes
                &&& final(entries)@[i].modified_at == old(entries)@[i].modified_at
                &&& hits_are(final(entries)@[i].rule_hits@, self.spec_packs(), old(entries)@[i], as_of, platform, Some(old(entries)@))
            },
    {
        let ghost original = entries@;
        let mut all: Vec<Vec<RuleHit>> = Vec::new();
        let mut i: usize = 0;
        while i < entries.len()
            invariant
                i <= entries@.len(),
                entries@ == original,
                self.wf(),
                all@.len() == i,
                forall|k: int| 0 <= k < i ==> hits_are((#[trigger] all@[k])@, self.spec_packs(), original[k], as_of, platform, Some(original)),
            decreases entries.len() - i,
        {
            let hits = self.hits_with_context(&entries[i], as_of, Some(entries.as_slice()), platform);
            all.push(hits);
            i = i + 1;
        }
        let mut j: usize = entries.len();
        while j > 0
            invariant
                j <= entries@.len(),
                entries@.len() == original.len(),
                all@.len() == j,
                forall|k: int| 0 <= k < j ==> hits_are((#[trigger] all@[k])@, self.spec_packs(), original[k], as_of, platform, Some(original)),
                forall|k: int| 0 <= k < j ==> #[trigger] entries@[k] == original[k],
                forall|k: int| j <= k < original.len() ==> {
                    &&& (#[trigger] entries@[k]).path == original[k].path
                    &&& entries@[k].kind == original[k].kind
                    &&& entries@[k].size_bytes == original[k].size_bytes
                    &&& entries@[k].modified_at == original[k].modified_at
                    &&& hits_are(entries@[k].rule_hits@, self.spec_packs(), original[k], as_of, platform, Some(original))
                },
            decreases j,
        {
            j = j - 1;
            let hits = all.pop().unwrap();
            let updated = ScanEntry {
                path: entries[j].path.clone(),
                kind: entries[j].kind,
                size_bytes: entries[j].size_bytes,
                modified_at: entries[j].modified_at,
                rule_hits: hits,
            };
            entries.set(j, updated);
        }
    }
}


proof fn lemma_ascending_pair(v: Seq<ScanLocationDefinition>, i: int, j: int)
    requires
        ids_ascending(v),
        0 <= i < j < v.len(),
    ensures
        chars_le(v[i].id@, v[j].id@) && v[i].id@ != v[j].id@,
{
}

/// Insert `loc` into `locs` at its place by id, unless its id is already there.
#[verifier::spinoff_prover]
fn insert_location(locs: &mut Vec<ScanLocationDefinition>, loc: ScanLocationDefinition) -> (res: bool)
    requires
        ids_ascending(old(locs)@),
    ensures
        res == !location_id_in(old(locs)@, loc.id@),
        ids_ascending(final(locs)@),
        !res ==> final(locs)@ == old(locs)@,
        res ==> final(locs)@.len() == old(locs)@.len() + 1,
        res ==> forall|x: ScanLocationDefinition| #[trigger] final(locs)@.contains(x) <==> (old(locs)@.contains(x) || x == loc),
{
    let id = chars_of(loc.id.as_str());
    let ghost v = locs@;
    assert(ids_ascending(v));
    let mut pos: usize = 0;
    while pos < locs.len() && !crate::path::chars_le_exec(&id, &chars_of(locs[pos].id.as_str()))
        invariant
            pos <= v.len(),
            locs@ == v,
            id@ == loc.id@,
            forall|k: int| 0 <= k < pos ==> chars_le(#[trigger] v[k].id@, loc.id@) && v[k].id@ != loc.id@,
        decreases v.len() - pos,
    {
        proof {
            crate::path::lemma_chars_le_total(v[pos as int].id@, loc.id@);
        }
        pos = pos + 1;
    }
    if pos < locs.len() && str_eq(locs[pos].id.as_str(), loc.id.as_str()) {
        assert(v[pos as int].id@ == loc.id@);
        return false;
    }
    proof {
        assert forall|k: int| pos <= k < v.len() implies chars_le(loc.id@, #[trigger] v[k].id@) && v[k].id@ != loc.id@ by {
            assert(chars_le(loc.id@, v[pos as int].id@));
            if k > pos {
                crate::path::lemma_chars_le_transitive(loc.id@, v[pos as int].id@, v[k].id@);
                if v[k].id@ == loc.id@ {
                    crate::path::lemma_chars_le_total(v[pos as int].id@, v[k].id@);
                }
            }
        }
        assert(!location_id_in(v, loc.id@));
    }
    locs.insert(pos, loc);
    assert(locs@ == v.insert(pos as int, loc));
    proof {
        assert forall|i: int, j: int| 0 <= i < j < locs@.len() implies chars_le(locs@[i].id@, locs@[j].id@) && locs@[i].id@ != locs@[j].id@ by {
            if i < pos && j == pos {
                assert(locs@[i] == v[i] && locs@[j] == loc);
                assert(chars_le(v[i].id@, loc.id@) && v[i].id@ != loc.id@);
            } else if i < pos && j > pos {
                assert(locs@[i] == v[i] && locs@[j] == v[j - 1]);
                lemma_ascending_pair(v, i, j - 1);
            } else if i == pos {
                assert(locs@[i] == loc && locs@[j] == v[j - 1]);
                assert(chars_le(loc.id@, v[j - 1].id@) && v[j - 1].id@ != loc.id@);
            } else if i > pos {
                assert(locs@[i] == v[i - 1] && locs@[j] == v[j - 1]);
                lemma_ascending_pair(v, i - 1, j - 1);
            } else {
                assert(locs@[i] == v[i] && locs@[j] == v[j]);
                lemma_ascending_pair(v, i, j);
            }
        }
        assert forall|x: ScanLocationDefinition| #[trigger] locs@.contains(x) <==> (v.contains(x) || x == loc) by {
            if locs@.contains(x) {
                let i = choose|i: int| 0 <= i < locs@.len() && locs@[i] == x;
                if i < pos {
                    assert(v[i] == x);
                } else if i > pos {
                    assert(v[i - 1] == x);
                }
            }
            if v.contains(x) {
                let i = choose|i: int| 0 <= i < v.len() && v[i] == x;
                if i < pos {
                    assert(locs@[i] == x);
                } else {
                    assert(locs@[i + 1] == x);
                }
            }
            if x == loc {
                assert(locs@[pos as int] == x);
            }
        }
    }
    true
}


/// The elements of `v` in reverse order.
fn into_reversed<T>(v: Vec<T>) -> (res: Vec<T>)
    ensures
        res@ == v@.reverse(),
{
    let ghost original = v@;
    let mut rest = v;
    let mut res: Vec<T> = Vec::new();
    while rest.len() > 0
        invariant
            rest@ + res@.reverse() == original,
        decreases rest.len(),
    {
        let ghost before = rest@;
        let ghost res_before = res@;
        let x = rest.pop().unwrap();
        res.push(x);
        proof {
            assert(before == rest@.push(x));
            assert(res@.reverse() =~= seq![x] + res_before.reverse());
            assert(rest@ + res@.reverse() =~= before + res_before.reverse());
        }
    }
    assert(res@.reverse() =~= original);
    assert(res@ =~= res@.reverse().reverse());
    res
}

/// Each new location's id is new: not among the existing locations nor the earlier new ones.
pub open spec fn fresh_ids(existing: Seq<ScanLocationDefinition>, new: Seq<ScanLocationDefinition>) -> bool {
    forall|i: int| 0 <= i < new.len() ==> !location_id_in(existing + new.take(i), (#[trigger] new[i]).id@)
}

/// Locations contributed by a plugin: those whose id is already known are skipped, in order.
pub open spec fn plugin_merge(existing: Seq<ScanLocationDefinition>, new: Seq<ScanLocationDefinition>) -> (Seq<ScanLocationDefinition>, Seq<Seq<char>>)
    decreases new.len(),
{
    if new.len() == 0 {
        (Seq::empty(), Seq::empty())
    } else {
        let prev = plugin_merge(existing, new.drop_last());
        if location_id_in(existing + prev.0, new.last().id@) {
            (prev.0, prev.1.push(new.last().id@))
        } else {
            (prev.0.push(new.last()), prev.1)
        }
    }
}

/// `d` warns that a scan location id from the pack at `path` was already known.
pub open spec fn duplicate_location_warning(d: PluginDiagnostic, id: Seq<char>, path: Seq<char>) -> bool {
    &&& d.severity == DiagnosticSeverity::Warning
    &&& d.code@ == "duplicate-scan-location-id"@
    &&& d.message@ == "duplicate scan location id "@ + id
    &&& d.path matches Some(p) && p@ == path
}

/// `d` warns that the enabled rule pack `id` was not loaded.
pub open spec fn missing_pack_warning(d: PluginDiagnostic, id: Seq<char>) -> bool {
    &&& d.severity == DiagnosticSeverity::Warning
    &&& d.code@ == "rule-pack-not-found"@
    &&& d.message@ == "enabled rule pack "@ + id + " was not found"@
    &&& d.path is None
}

/// The enabled ids, in order, that name no pack of `packs`.
pub open spec fn missing_enabled(packs: Seq<LoadedRulePack>, enabled: Seq<Seq<char>>, n: int) -> Seq<Seq<char>>
    decreases n,
{
    if n <= 0 {
        Seq::empty()
    } else {
        let prev = missing_enabled(packs, enabled, n - 1);
        if pack_id_loaded(packs, enabled[n - 1]) {
            prev
        } else {
            prev.push(enabled[n - 1])
        }
    }
}

/// The first `n` packs of `packs` whose id is enabled, in order.
pub open spec fn enabled_packs(packs: Seq<LoadedRulePack>, enabled: Seq<Seq<char>>, n: int) -> Seq<LoadedRulePack>
    decreases n,
{
    if n <= 0 {
        Seq::empty()
    } else {
        let prev = enabled_packs(packs, enabled, n - 1);
        if enabled.contains(packs[n - 1].definition.id@) {
            prev.push(packs[n - 1])
        } else {
            prev
        }
    }
}

impl RuleRegistry {
    /// Add the scan locations of a built-in plugin. Every id must be new; the first that is not
    /// refuses the addition.
    pub fn add_builtin_locations(&mut self, locations: Vec<ScanLocationDefinition>) -> (res: Result<(), RegistryError>)
        requires
            old(self).wf(),
        ensures
            final(self).wf(),
            final(self).spec_packs() == old(self).spec_packs(),
            final(self).spec_diagnostics() == old(self).spec_diagnostics(),
            (res is Ok) == fresh_ids(old(self).spec_scan_locations(), locations@),
            res matches Err(e) ==> e matches RegistryError::DuplicateLocation { id } && exists|i: int| 0 <= i < locations@.len() && (#[trigger] locations@[i]).id == id,
            res is Ok ==> final(self).spec_scan_locations().len() == old(self).spec_scan_locations().len() + locations@.len(),
            res is Ok ==> forall|x: ScanLocationDefinition| #[trigger] final(self).spec_scan_locations().contains(x) <==> (old(self).spec_scan_locations() + locations@).contains(x),
    {
        let ghost old_locs = self.scan_locations@;
        let ghost new = locations@;
        let n = locations.len();
        let mut rev = into_reversed(locations);
        let mut i: usize = 0;
        while rev.len() > 0
            invariant
                self.wf(),
                self.packs@ == old(self).packs@,
                self.diagnostics@ == old(self).diagnostics@,
                i + rev@.len() == new.len(),
                new.len() == n,
                new == locations@,
                old_locs == old(self).scan_locations@,
                rev@ == new.skip(i as int).reverse(),
                self.scan_locations@.len() == old_locs.len() + i,
                forall|x: ScanLocationDefinition| #[trigger] self.scan_locations@.contains(x) <==> (old_locs + new.take(i as int)).contains(x),
                forall|k: int| 0 <= k < i ==> !location_id_in(old_locs + new.take(k), (#[trigger] new[k]).id@),
            decreases rev.len(),
        {
            let ghost before = self.scan_locations@;
            let loc = rev.pop().unwrap();
            assert(loc == new[i as int]) by {
                assert(new.skip(i as int).reverse().last() == new.skip(i as int)[0]);
            }
            assert(rev@ =~= new.skip(i + 1).reverse());
            proof {
                let s1 = old_locs + new.take(i as int);
                let target = new[i as int].id@;
                if location_id_in(before, target) {
                    let j = choose|j: int| 0 <= j < before.len() && (#[trigger] before[j]).id@ == target;
                    assert(self.scan_locations@.contains(before[j]));
                    let m = choose|m: int| 0 <= m < s1.len() && s1[m] == before[j];
                    assert(s1[m].id@ == target);
                }
                if location_id_in(s1, target) {
                    let m = choose|m: int| 0 <= m < s1.len() && (#[trigger] s1[m]).id@ == target;
                    assert(s1.contains(s1[m]));
                    assert(self.scan_locations@.contains(s1[m]));
                    let j = choose|j: int| 0 <= j < before.len() && before[j] == s1[m];
                    assert(before[j].id@ == target);
                }
            }
            let id = loc.id.clone();
            let inserted = insert_location(&mut self.scan_locations, loc);
            if !inserted {
                assert(!fresh_ids(old_locs, new));
                assert(new[i as int].id == id);
                return Err(RegistryError::DuplicateLocation { id });
            }
            proof {
                let s1 = old_locs + new.take(i as int);
                let s2 = old_locs + new.take(i + 1);
                assert(s2 =~= s1.push(new[i as int]));
                assert forall|x: ScanLocationDefinition| #[trigger] self.scan_locations@.contains(x) <==> s2.contains(x) by {
                    if s1.contains(x) {
                        let m = choose|m: int| 0 <= m < s1.len() && s1[m] == x;
                        assert(s2[m] == x);
                    }
                    if x == new[i as int] {
                        assert(s2[s1.len() as int] == x);
                    }
                    if s2.contains(x) {
                        let m = choose|m: int| 0 <= m < s2.len() && s2[m] == x;
                        if m < s1.len() {
                            assert(s1[m] == x);
                        }
                    }
                }
            }
            i = i + 1;
        }
        assert(new.take(new.len() as int) =~= new);
        Ok(())
    }
}


/// The enabled packs are packs of `v`, each once, valid where `v`'s are.
proof fn lemma_enabled_packs(v: Seq<LoadedRulePack>, en: Seq<Seq<char>>, n: int)
    requires
        0 <= n <= v.len(),
        forall|i: int| 0 <= i < v.len() ==> pack_valid(#[trigger] v[i].definition),
        forall|i: int, j: int| 0 <= i < j < v.len() ==> v[i].definition.id@ != v[j].definition.id@,
    ensures
        forall|a: int| 0 <= a < enabled_packs(v, en, n).len() ==> exists|i: int| 0 <= i < n && #[trigger] enabled_packs(v, en, n)[a] == v[i],
        forall|a: int| 0 <= a < enabled_packs(v, en, n).len() ==> pack_valid(#[trigger] enabled_packs(v, en, n)[a].definition),
        forall|a: int, b: int| 0 <= a < b < enabled_packs(v, en, n).len() ==> enabled_packs(v, en, n)[a].definition.id@ != enabled_packs(v, en, n)[b].definition.id@,
    decreases n,
{
    if n > 0 {
        lemma_enabled_packs(v, en, n - 1);
        let prev = enabled_packs(v, en, n - 1);
        let cur = enabled_packs(v, en, n);
        assert forall|a: int| 0 <= a < cur.len() implies exists|i: int| 0 <= i < n && #[trigger] cur[a] == v[i] by {
            if a < prev.len() {
                assert(cur[a] == prev[a]);
                let i = choose|i: int| 0 <= i < n - 1 && prev[a] == v[i];
                assert(cur[a] == v[i]);
            } else {
                assert(cur[a] == v[n - 1]);
            }
        }
        assert forall|a: int, b: int| 0 <= a < b < cur.len() implies cur[a].definition.id@ != cur[b].definition.id@ by {
            if b < prev.len() {
                assert(cur[a] == prev[a] && cur[b] == prev[b]);
            } else {
                assert(cur[b] == v[n - 1]);
                assert(cur[a] == prev[a]);
                let i = choose|i: int| 0 <= i < n - 1 && prev[a] == v[i];
                assert(v[i].definition.id@ != v[n - 1].definition.id@);
            }
        }
        assert forall|a: int| 0 <= a < cur.len() implies pack_valid(#[trigger] cur[a].definition) by {
            let i = choose|i: int| 0 <= i < n && cur[a] == v[i];
            assert(pack_valid(v[i].definition));
        }
    }
}

impl RuleRegistry {
    /// Add the scan locations of a trusted plugin's pack at `path`. A location whose id is
    /// already known is skipped with a warning.
    pub fn add_plugin_locations(&mut self, locations: Vec<ScanLocationDefinition>, path: &str)
        requires
            old(self).wf(),
        ensures
            final(self).wf(),
            final(self).spec_packs() == old(self).spec_packs(),
            final(self).spec_scan_locations().len() == old(self).spec_scan_locations().len() + plugin_merge(old(self).spec_scan_locations(), locations@).0.len(),
            forall|x: ScanLocationDefinition| #[trigger] final(self).spec_scan_locations().contains(x) <==> (old(self).spec_scan_locations() + plugin_merge(old(self).spec_scan_locations(), locations@).0).contains(x),
            final(self).spec_diagnostics().len() == old(self).spec_diagnostics().len() + plugin_merge(old(self).spec_scan_locations(), locations@).1.len(),
            forall|k: int| 0 <= k < old(self).spec_diagnostics().len() ==> #[trigger] final(self).spec_diagnostics()[k] == old(self).spec_diagnostics()[k],
            forall|k: int| 0 <= k < plugin_merge(old(self).spec_scan_locations(), locations@).1.len() ==> duplicate_location_warning(
                #[trigger] final(self).spec_diagnostics()[old(self).spec_diagnostics().len() + k],
                plugin_merge(old(self).spec_scan_locations(), locations@).1[k],
                path@,
            ),
    {
        let ghost old_locs = self.scan_locations@;
        let ghost old_diags = self.diagnostics@;
        let ghost new = locations@;
        let n = locations.len();
        let mut rev = into_reversed(locations);
        let mut i: usize = 0;
        assert(new.take(0) =~= Seq::<ScanLocationDefinition>::empty());
        while rev.len() > 0
            invariant
                self.wf(),
                self.packs@ == old(self).packs@,
                old_locs == old(self).scan_locations@,
                old_diags == old(self).diagnostics@,
                new == locations@,
                new.len() == n,
                i + rev@.len() == new.len(),
                rev@ == new.skip(i as int).reverse(),
                self.scan_locations@.len() == old_locs.len() + plugin_merge(old_locs, new.take(i as int)).0.len(),
                forall|x: ScanLocationDefinition| #[trigger] self.scan_locations@.contains(x) <==> (old_locs + plugin_merge(old_locs, new.take(i as int)).0).contains(x),
                self.diagnostics@.len() == old_diags.len() + plugin_merge(old_locs, new.take(i as int)).1.len(),
                forall|k: int| 0 <= k < old_diags.len() ==> #[trigger] self.diagnostics@[k] == old_diags[k],
                forall|k: int| 0 <= k < plugin_merge(old_locs, new.take(i as int)).1.len() ==> duplicate_location_warning(
                    #[trigger] self.diagnostics@[old_diags.len() + k],
                    plugin_merge(old_locs, new.take(i as int)).1[k],
                    path@,
                ),
            decreases rev.len(),
        {
            let ghost before = self.scan_locations@;
            let ghost merged = plugin_merge(old_locs, new.take(i as int));
            let loc = rev.pop().unwrap();
            assert(loc == new[i as int]) by {
                assert(new.skip(i as int).reverse().last() == new.skip(i as int)[0]);
            }
            assert(rev@ =~= new.skip(i + 1).reverse());
            assert(new.take(i + 1).drop_last() =~= new.take(i as int));
            assert(new.take(i + 1).last() == new[i as int]);
            proof {
                let s1 = old_locs + merged.0;
                let target = new[i as int].id@;
                if location_id_in(before, target) {
                    let j = choose|j: int| 0 <= j < before.len() && (#[trigger] before[j]).id@ == target;
                    assert(self.scan_locations@.contains(before[j]));
                    let m = choose|m: int| 0 <= m < s1.len() && s1[m] == before[j];
                    assert(s1[m].id@ == target);
                }
                if location_id_in(s1, target) {
                    let m = choose|m: int| 0 <= m < s1.len() && (#[trigger] s1[m]).id@ == target;
                    assert(s1.contains(s1[m]));
                    assert(self.scan_locations@.contains(s1[m]));
                    let j = choose|j: int| 0 <= j < before.len() && before[j] == s1[m];
                    assert(before[j].id@ == target);
                }
            }
            let id = loc.id.clone();
            let inserted = insert_location(&mut self.scan_locations, loc);
            if !inserted {
                let message = crate::text::concat("duplicate scan location id ", id.as_str());
                let ghost diags_before = self.diagnostics@;
                self.diagnostics.push(PluginDiagnostic::warning("duplicate-scan-location-id", message, Some(path.to_owned())));
                proof {
                    let next = plugin_merge(old_locs, new.take(i + 1));
                    assert(next.1 =~= merged.1.push(new[i as int].id@));
                    assert forall|k: int| 0 <= k < next.1.len() implies duplicate_location_warning(
                        #[trigger] self.diagnostics@[old_diags.len() + k],
                        next.1[k],
                        path@,
                    ) by {
                        if k < merged.1.len() {
                            assert(self.diagnostics@[old_diags.len() + k] == diags_before[old_diags.len() + k]);
                        }
                    }
                }
            } else {
                proof {
                    let s1 = old_locs + merged.0;
                    let next = plugin_merge(old_locs, new.take(i + 1));
                    assert(next.0 =~= merged.0.push(new[i as int]));
                    let s2 = old_locs + next.0;
                    assert(s2 =~= s1.push(new[i as int]));
                    assert forall|x: ScanLocationDefinition| #[trigger] self.scan_locations@.contains(x) <==> s2.contains(x) by {
                        if s1.contains(x) {
                            let m = choose|m: int| 0 <= m < s1.len() && s1[m] == x;
                            assert(s2[m] == x);
                        }
                        if x == new[i as int] {
                            assert(s2[s1.len() as int] == x);
                        }
                        if s2.contains(x) {
                            let m = choose|m: int| 0 <= m < s2.len() && s2[m] == x;
                            if m < s1.len() {
                                assert(s1[m] == x);
                            }
                        }
                    }
                }
            }
            i = i + 1;
        }
        assert(new.take(new.len() as int) =~= new);
    }

    /// Keep only the enabled packs, warning of each enabled id that no loaded pack has.
    pub fn retain_enabled(&mut self, enabled: &[String])
        requires
            old(self).wf(),
        ensures
            final(self).wf(),
            final(self).spec_scan_locations() == old(self).spec_scan_locations(),
            final(self).spec_packs() == enabled_packs(old(self).spec_packs(), strs(enabled@), old(self).spec_packs().len() as int),
            final(self).spec_diagnostics().len() == old(self).spec_diagnostics().len() + missing_enabled(old(self).spec_packs(), strs(enabled@), enabled@.len() as int).len(),
            forall|k: int| 0 <= k < old(self).spec_diagnostics().len() ==> #[trigger] final(self).spec_diagnostics()[k] == old(self).spec_diagnostics()[k],
            forall|k: int| 0 <= k < missing_enabled(old(self).spec_packs(), strs(enabled@), enabled@.len() as int).len() ==> missing_pack_warning(
                #[trigger] final(self).spec_diagnostics()[old(self).spec_diagnostics().len() + k],
                missing_enabled(old(self).spec_packs(), strs(enabled@), enabled@.len() as int)[k],
            ),
    {
        let ghost old_diags = self.diagnostics@;
        let ghost v = self.packs@;
        let ghost en = strs(enabled@);
        let mut e: usize = 0;
        while e < enabled.len()
            invariant
                e <= enabled@.len(),
                self.wf(),
                self.packs@ == v,
                v == old(self).packs@,
                self.scan_locations@ == old(self).scan_locations@,
                en == strs(enabled@),
                old_diags == old(self).diagnostics@,
                self.diagnostics@.len() == old_diags.len() + missing_enabled(v, en, e as int).len(),
                forall|k: int| 0 <= k < old_diags.len() ==> #[trigger] self.diagnostics@[k] == old_diags[k],
                forall|k: int| 0 <= k < missing_enabled(v, en, e as int).len() ==> missing_pack_warning(
                    #[trigger] self.diagnostics@[old_diags.len() + k],
                    missing_enabled(v, en, e as int)[k],
                ),
            decreases enabled.len() - e,
        {
            let name = enabled[e].as_str();
            assert(en[e as int] == name@);
            if !self.has_pack(name) {
                let a = crate::text::concat("enabled rule pack ", name);
                let message = crate::text::concat(a.as_str(), " was not found");
                let ghost diags_before = self.diagnostics@;
                self.diagnostics.push(PluginDiagnostic::warning("rule-pack-not-found", message, None));
                proof {
                    let prev = missing_enabled(v, en, e as int);
                    let next = missing_enabled(v, en, e + 1);
                    assert(next =~= prev.push(name@));
                    assert forall|k: int| 0 <= k < next.len() implies missing_pack_warning(
                        #[trigger] self.diagnostics@[old_diags.len() + k],
                        next[k],
                    ) by {
                        if k < prev.len() {
                            assert(self.diagnostics@[old_diags.len() + k] == diags_before[old_diags.len() + k]);
                        }
                    }
                }
            }
            e = e + 1;
        }
        let mut taken: Vec<LoadedRulePack> = Vec::new();
        std::mem::swap(&mut taken, &mut self.packs);
        let count = taken.len();
        let mut rev = into_reversed(taken);
        let mut kept: Vec<LoadedRulePack> = Vec::new();
        let mut i: usize = 0;
        while rev.len() > 0
            invariant
                i + rev@.len() == v.len(),
                v.len() == count,
                rev@ == v.skip(i as int).reverse(),
                en == strs(enabled@),
                kept@ == enabled_packs(v, en, i as int),
            decreases rev.len(),
        {
            let pack = rev.pop().unwrap();
            assert(pack == v[i as int]) by {
                assert(v.skip(i as int).reverse().last() == v.skip(i as int)[0]);
            }
            assert(rev@ =~= v.skip(i + 1).reverse());
            let on = contains_string_slice(enabled, pack.definition.id.as_str());
            if on {
                kept.push(pack);
            }
            i = i + 1;
        }
        proof {
            lemma_enabled_packs(v, en, v.len() as int);
        }
        self.packs = kept;
    }
}

/// Whether `s` occurs in `v`.
fn contains_string_slice(v: &[String], s: &str) -> (res: bool)
    ensures
        res == strs(v@).contains(s@),
{
    let mut k: usize = 0;
    while k < v.len()
        invariant
            k <= v@.len(),
            forall|m: int| 0 <= m < k ==> strs(v@)[m] != s@,
        decreases v.len() - k,
    {
        if str_eq(v[k].as_str(), s) {
            assert(strs(v@)[k as int] == s@);
            return true;
        }
        k = k + 1;
    }
    false
}


impl ScanEntry {
    /// The file name of the entry: the last component of its path, when that is a name.
    pub fn file_name(&self) -> (res: Option<String>)
        ensures
            match name_of(self.path@) {
                Some(n) => res matches Some(s) && s@ == n,
                None => res is None,
            },
    {
        match name_chars(self.path.as_str()) {
            Some(v) => Some(crate::text::string_from_chars(v.as_slice())),
            None => None,
        }
    }
}

/// Whether the extension of `path`, in the file name's own letter case, is `ext`.
pub(crate) fn has_extension(path: &str, ext: &str) -> (res: bool)
    ensures
        res == (path_extension(path@) == Some(ext@)),
{
    match name_chars(path) {
        Some(name) => match extension_chars(&name) {
            Some(x) => crate::path::chars_equal(&x, &chars_of(ext)),
            None => false,
        },
        None => false,
    }
}

/// Whether the file name of `path` ends in `.toml`, the extension of a rule or location pack.
/// Whether the path is a file is for the caller to find out.
pub fn has_toml_extension(path: &str) -> (res: bool)
    ensures
        res == (path_extension(path@) == Some("toml"@)),
{
    has_extension(path, "toml")
}

} // verus!
