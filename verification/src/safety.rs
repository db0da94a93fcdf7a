//! Paths that cleanup must never touch.
use vstd::prelude::*;

use crate::path::{
    is_filesystem_root, path_le, path_le_exec, path_starts_with, paths_equal, same_path,
    starts_with, filesystem_root,
};
use crate::sort::{adjacent_distinct, dedup_by_eq, dedup_spec, sort_by_le, sorted_by_le};

verus! {

/// Protected paths block themselves and their ancestors; protected subtrees also block
/// everything below them. The filesystem root is never a candidate.
#[derive(Debug, Clone, PartialEq, Eq)]
pub struct SafetyPolicy {
    protected_paths: Vec<String>,
    protected_subtrees: Vec<String>,
    requires_confirmation: bool,
}

/// The text of each path in `v`.
pub open spec fn path_texts(v: Seq<String>) -> Seq<Seq<char>> {
    Seq::new(v.len(), |i: int| v[i]@)
}

/// Whether a normalized candidate path may be cleaned under the given protections.
pub open spec fn allows_path(
    protected_paths: Seq<Seq<char>>,
    protected_subtrees: Seq<Seq<char>>,
    path: Seq<char>,
) -> bool {
    &&& !is_filesystem_root(path)
    &&& forall|i: int|
        0 <= i < protected_paths.len() ==> !path_starts_with(#[trigger] protected_paths[i], path)
    &&& forall|i: int|
        0 <= i < protected_subtrees.len() ==> !path_starts_with(
            #[trigger] protected_subtrees[i],
            path,
        ) && !path_starts_with(path, protected_subtrees[i])
}

/// The order in which protected paths are kept.
pub open spec fn string_path_le() -> spec_fn(String, String) -> bool {
    |a: String, b: String| path_le(a@, b@)
}

/// Two texts name the same path.
pub open spec fn string_same_path() -> spec_fn(String, String) -> bool {
    |a: String, b: String| same_path(a@, b@)
}

/// A path text that the platform takes as absolute: it begins at a root (`/`, or `\` as in
/// `\\server\share` and `\\?\C:\`), or with a drive prefix followed by a separator (`C:\`).
pub open spec fn absolute_text(p: Seq<char>) -> bool {
    (p.len() > 0 && (p[0] == '/' || p[0] == '\\'))
        || (p.len() > 2 && p[1] == ':' && (p[2] == '\\' || p[2] == '/'))
}

/// Each path of `after` is the path at the same place in `before`, or an absolute one.
pub open spec fn resolved_from(before: Seq<String>, after: Seq<String>) -> bool {
    &&& after.len() == before.len()
    &&& forall|i: int| 0 <= i < after.len() ==> (#[trigger] after[i])@ == before[i]@ || absolute_text(after[i]@)
}

/// Keeping each path once, in order, keeps at least one path of a non-empty list.
proof fn lemma_kept_nonempty(v: Seq<String>, kept: Seq<String>)
    requires
        sorted_unique_paths_of(v, kept),
        v.len() > 0,
    ensures
        kept.len() > 0,
{
    let sorted = choose|sorted: Seq<String>|
        #![trigger dedup_spec(sorted, string_same_path())]
        sorted.to_multiset() == v.to_multiset() && sorted_by_le(sorted, string_path_le()) && kept
            == dedup_spec(sorted, string_same_path());
    vstd::seq_lib::to_multiset_len(sorted);
    vstd::seq_lib::to_multiset_len(v);
    crate::sort::lemma_dedup_last(sorted, string_same_path());
}

/// Paths sorted by path order, each path once.
pub open spec fn normalized_path_list(v: Seq<String>) -> bool {
    sorted_by_le(v, string_path_le()) && adjacent_distinct(v, string_same_path())
}

impl SafetyPolicy {
    pub closed spec fn spec_protected_paths(&self) -> Seq<String> {
        self.protected_paths@
    }

    pub closed spec fn spec_protected_subtrees(&self) -> Seq<String> {
        self.protected_subtrees@
    }

    pub closed spec fn spec_requires_confirmation(&self) -> bool {
        self.requires_confirmation
    }

    /// Whether this policy allows the normalized path `path`.
    pub open spec fn allows(&self, path: Seq<char>) -> bool {
        allows_path(
            path_texts(self.spec_protected_paths()),
            path_texts(self.spec_protected_subtrees()),
            path,
        )
    }

    /// A policy protecting `protected_paths`, each made absolute and canonical.
    ///
    /// The paths are resolved against the working directory and the filesystem: each one
    /// protected is, for one given path, that path or an absolute path; which absolute path
    /// rests on the disk. [`SafetyPolicy::from_normalized`] states the rest.
    pub fn new(protected_paths: Vec<String>, requires_confirmation: bool) -> (res: Self)
        ensures
            exists|resolved: Seq<String>|
                #![trigger sorted_unique_paths_of(resolved, res.spec_protected_paths())]
                resolved_from(protected_paths@, resolved) && sorted_unique_paths_of(resolved, res.spec_protected_paths()),
            protected_paths@.len() > 0 ==> res.spec_protected_paths().len() > 0,
            normalized_path_list(res.spec_protected_paths()),
            res.spec_protected_paths().len() <= protected_paths@.len(),
            res.spec_protected_subtrees().len() == 0,
            res.spec_requires_confirmation() == requires_confirmation,
    {
        let ghost given = protected_paths@;
        let normalized = normalize_paths(protected_paths);
        let ghost resolved = normalized@;
        let res = Self::from_normalized(normalized, requires_confirmation);
        proof {
            if given.len() > 0 {
                lemma_kept_nonempty(resolved, res.spec_protected_paths());
            }
        }
        res
    }

    /// A policy protecting paths that are already absolute and canonical.
    pub fn from_normalized(protected_paths: Vec<String>, requires_confirmation: bool) -> (res: Self)
        ensures
            sorted_unique_paths_of(protected_paths@, res.spec_protected_paths()),
            normalized_path_list(res.spec_protected_paths()),
            res.spec_protected_paths().len() <= protected_paths@.len(),
            res.spec_protected_subtrees().len() == 0,
            res.spec_requires_confirmation() == requires_confirmation,
    {
        let protected_paths = sort_and_dedup_paths(protected_paths);
        SafetyPolicy { protected_paths, protected_subtrees: Vec::new(), requires_confirmation }
    }

    /// This policy, also protecting the subtrees `protected_subtrees` (made absolute and
    /// canonical as for [`SafetyPolicy::new`]).
    pub fn with_protected_subtrees(self, protected_subtrees: Vec<String>) -> (res: Self)
        ensures
            exists|resolved: Seq<String>|
                #![trigger sorted_unique_paths_of(resolved, res.spec_protected_subtrees())]
                resolved_from(protected_subtrees@, resolved) && sorted_unique_paths_of(resolved, res.spec_protected_subtrees()),
            protected_subtrees@.len() > 0 ==> res.spec_protected_subtrees().len() > 0,
            res.spec_protected_paths() == self.spec_protected_paths(),
            normalized_path_list(res.spec_protected_subtrees()),
            res.spec_protected_subtrees().len() <= protected_subtrees@.len(),
            res.spec_requires_confirmation() == self.spec_requires_confirmation(),
    {
        let ghost given = protected_subtrees@;
        let normalized = normalize_paths(protected_subtrees);
        let ghost resolved = normalized@;
        let res = self.with_normalized_subtrees(normalized);
        proof {
            if given.len() > 0 {
                lemma_kept_nonempty(resolved, res.spec_protected_subtrees());
            }
        }
        res
    }

    /// This policy, also protecting subtrees that are already absolute and canonical.
    pub fn with_normalized_subtrees(self, protected_subtrees: Vec<String>) -> (res: Self)
        ensures
            res.spec_protected_paths() == self.spec_protected_paths(),
            sorted_unique_paths_of(protected_subtrees@, res.spec_protected_subtrees()),
            normalized_path_list(res.spec_protected_subtrees()),
            res.spec_protected_subtrees().len() <= protected_subtrees@.len(),
            res.spec_requires_confirmation() == self.spec_requires_confirmation(),
    {
        let protected_subtrees = sort_and_dedup_paths(protected_subtrees);
        SafetyPolicy {
            protected_paths: self.protected_paths,
            protected_subtrees,
            requires_confirmation: self.requires_confirmation,
        }
    }

    pub fn protected_paths(&self) -> (res: &[String])
        ensures
            res@ == self.spec_protected_paths(),
    {
        self.protected_paths.as_slice()
    }

    pub fn protected_subtrees(&self) -> (res: &[String])
        ensures
            res@ == self.spec_protected_subtrees(),
    {
        self.protected_subtrees.as_slice()
    }

    pub fn requires_confirmation(&self) -> (res: bool)
        ensures
            res == self.spec_requires_confirmation(),
    {
        self.requires_confirmation
    }

    /// Whether `path`, once made absolute and canonical, may be a cleanup candidate.
    ///
    /// The path is resolved against the working directory and the filesystem; the decision is
    /// this policy's on the resolved path, which is `path` itself or an absolute path (which one
    /// rests on the disk). For the decision on a given resolved path see
    /// [`SafetyPolicy::allows_normalized_candidate`].
    pub fn allows_candidate(&self, path: &str) -> (res: bool)
        ensures
            exists|resolved: Seq<char>| #![trigger self.allows(resolved)]
                (resolved == path@ || absolute_text(resolved)) && res == self.allows(resolved),
    {
        let normalized = normalize_path(path);
        self.allows_normalized_candidate(&normalized)
    }

    /// Whether the absolute, canonical path `path` may be a cleanup candidate.
    pub fn allows_normalized_candidate(&self, path: &str) -> (res: bool)
        ensures
            res == self.allows(path@),
    {
        if filesystem_root(path) {
            return false;
        }
        let mut i: usize = 0;
        while i < self.protected_paths.len()
            invariant
                i <= self.protected_paths@.len(),
                forall|j: int|
                    0 <= j < i ==> !path_starts_with(
                        #[trigger] path_texts(self.protected_paths@)[j],
                        path@,
                    ),
            decreases self.protected_paths.len() - i,
        {
            if starts_with(self.protected_paths[i].as_str(), path) {
                assert(path_texts(self.protected_paths@)[i as int] == self.protected_paths@[i as int]@);
                return false;
            }
            i = i + 1;
        }
        let mut k: usize = 0;
        while k < self.protected_subtrees.len()
            invariant
                k <= self.protected_subtrees@.len(),
                forall|j: int|
                    0 <= j < k ==> !path_starts_with(
                        #[trigger] path_texts(self.protected_subtrees@)[j],
                        path@,
                    ) && !path_starts_with(path@, path_texts(self.protected_subtrees@)[j]),
            decreases self.protected_subtrees.len() - k,
        {
            let subtree = self.protected_subtrees[k].as_str();
            if starts_with(subtree, path) || starts_with(path, subtree) {
                assert(path_texts(self.protected_subtrees@)[k as int] == self.protected_subtrees@[k as int]@);
                return false;
            }
            k = k + 1;
        }
        true
    }
}

impl Default for SafetyPolicy {
    fn default() -> (res: Self)
        ensures
            res.spec_protected_paths().len() == 0,
            res.spec_protected_subtrees().len() == 0,
            !res.spec_requires_confirmation(),
    {
        SafetyPolicy {
            protected_paths: Vec::new(),
            protected_subtrees: Vec::new(),
            requires_confirmation: false,
        }
    }
}

/// `kept` is `v` sorted by path order with each path kept once.
pub open spec fn sorted_unique_paths_of(v: Seq<String>, kept: Seq<String>) -> bool {
    exists|sorted: Seq<String>|
        #![trigger dedup_spec(sorted, string_same_path())]
        sorted.to_multiset() == v.to_multiset() && sorted_by_le(sorted, string_path_le()) && kept
            == dedup_spec(sorted, string_same_path())
}

/// Whether path `a` is ordered at or before path `b`.
pub fn string_path_le_exec(a: &String, b: &String) -> (res: bool)
    ensures
        res == path_le(a@, b@),
{
    path_le_exec(a.as_str(), b.as_str())
}

/// Whether `a` and `b` name the same path.
pub fn string_same_path_exec(a: &String, b: &String) -> (res: bool)
    ensures
        res == same_path(a@, b@),
{
    paths_equal(a.as_str(), b.as_str())
}

/// `paths` sorted by path order with repeated paths removed.
pub fn sort_and_dedup_paths(paths: Vec<String>) -> (res: Vec<String>)
    ensures
        sorted_unique_paths_of(paths@, res@),
        normalized_path_list(res@),
        res@.len() <= paths@.len(),
{
    proof {
        crate::path::lemma_path_le_preorder();
    }
    let ghost input = paths@;
    let sorted = sort_by_le(paths, string_path_le_exec, Ghost(string_path_le()));
    proof {
        input.to_multiset_ensures();
        sorted@.to_multiset_ensures();
    }
    let res = dedup_by_eq(sorted, string_same_path_exec, Ghost(string_same_path()));
    proof {
        crate::sort::lemma_dedup_sorted(sorted@, string_path_le(), string_same_path());
    }
    res
}

/// Each path made absolute against the working directory and then canonical, where possible.
pub fn normalize_paths(paths: Vec<String>) -> (res: Vec<String>)
    ensures
        resolved_from(paths@, res@),
{
    let mut res: Vec<String> = Vec::new();
    for i in 0..paths.len()
        invariant
            res@.len() == i,
            forall|k: int| 0 <= k < i ==> (#[trigger] res@[k])@ == paths@[k]@ || absolute_text(res@[k]@),
    {
        res.push(normalize_path(paths[i].as_str()));
    }
    res
}

/// `path` made absolute against the working directory, then canonical where it exists. Where
/// neither can be done the path comes back as it was. Which absolute path comes back depends on
/// the working directory and what is on disk; it is stated only that it is absolute.
pub fn normalize_path(path: &str) -> (res: String)
    ensures
        res@ == path@ || absolute_text(res@),
        absolute_text(path@) ==> absolute_text(res@),
{
    let absolute = match absolute_path(path) {
        Some(absolute) => absolute,
        None => path.to_owned(),
    };
    match canonical_path(absolute.as_str()) {
        Some(canonical) => canonical,
        None => absolute,
    }
}

/// `std::path::absolute`: `path` resolved against the process working directory.
///
/// Its documentation promises an absolute path: on Unix one that begins with `/`, on Windows
/// one with a drive or UNC prefix and a root. Which path rests on the working directory, and is
/// not stated.
#[verifier::external_body]
fn absolute_path(path: &str) -> (res: Option<String>)
    ensures
        res matches Some(a) ==> absolute_text(a@),
{
    match std::path::absolute(path) {
        Ok(absolute) => Some(absolute.to_string_lossy().into_owned()),
        Err(_) => None,
    }
}

/// `Path::canonicalize`: `path` with symbolic links and `.`/`..` resolved on the filesystem.
///
/// Its documentation promises the canonical, absolute form (on Windows with a `\\?\`
/// prefix). Which path rests on what is on disk, and is not stated.
#[verifier::external_body]
fn canonical_path(path: &str) -> (res: Option<String>)
    ensures
        res matches Some(a) ==> absolute_text(a@),
{
    match std::path::Path::new(path).canonicalize() {
        Ok(canonical) => Some(canonical.to_string_lossy().into_owned()),
        Err(_) => None,
    }
}

// ---------------------------------------------------------------- resolving each text once

/// A resolution of path texts: each text resolves to itself or to an absolute path.
pub open spec fn resolution_ok(f: spec_fn(Seq<char>) -> Seq<char>) -> bool {
    forall|t: Seq<char>| #[trigger] f(t) == t || absolute_text(f(t))
}

/// Texts resolved so far, each once, with what they resolved to; the rest resolve to themselves.
pub open spec fn resolution_of(cache: Seq<(String, String)>) -> spec_fn(Seq<char>) -> Seq<char> {
    |t: Seq<char>| if exists|i: int| 0 <= i < cache.len() && (#[trigger] cache[i]).0@ == t {
        cache[choose|i: int| 0 <= i < cache.len() && (#[trigger] cache[i]).0@ == t].1@
    } else {
        t
    }
}

/// Each text of `cache` is held once, and resolves to itself or to an absolute path.
pub open spec fn cache_ok(cache: Seq<(String, String)>) -> bool {
    &&& forall|i: int, j: int| 0 <= i < j < cache.len() ==> (#[trigger] cache[i]).0@ != (#[trigger] cache[j]).0@
    &&& forall|i: int| 0 <= i < cache.len() ==> (#[trigger] cache[i]).1@ == cache[i].0@ || absolute_text(cache[i].1@)
}

/// `cache` holds the text `t`.
pub open spec fn cache_has(cache: Seq<(String, String)>, t: Seq<char>) -> bool {
    exists|i: int| 0 <= i < cache.len() && (#[trigger] cache[i]).0@ == t
}

/// A well-formed cache gives a resolution.
pub proof fn lemma_cache_resolution(cache: Seq<(String, String)>)
    requires
        cache_ok(cache),
    ensures
        resolution_ok(resolution_of(cache)),
{
    let f = resolution_of(cache);
    assert forall|t: Seq<char>| #[trigger] f(t) == t || absolute_text(f(t)) by {
        if exists|i: int| 0 <= i < cache.len() && (#[trigger] cache[i]).0@ == t {
            let i = choose|i: int| 0 <= i < cache.len() && (#[trigger] cache[i]).0@ == t;
            assert(f(t) == cache[i].1@);
        }
    }
}

/// Extending a cache keeps what its texts resolve to.
pub proof fn lemma_cache_extends(before: Seq<(String, String)>, after: Seq<(String, String)>, t: Seq<char>)
    requires
        cache_ok(after),
        before.len() <= after.len(),
        forall|i: int| 0 <= i < before.len() ==> #[trigger] after[i] == before[i],
        cache_has(before, t),
    ensures
        cache_has(after, t),
        resolution_of(after)(t) == resolution_of(before)(t),
{
    assert(exists|i: int| 0 <= i < before.len() && (#[trigger] before[i]).0@ == t);
    let k = choose|i: int| 0 <= i < before.len() && (#[trigger] before[i]).0@ == t;
    assert(after[k] == before[k]);
    assert(exists|i: int| 0 <= i < after.len() && (#[trigger] after[i]).0@ == t);
    let j = choose|i: int| 0 <= i < after.len() && (#[trigger] after[i]).0@ == t;
    if j != k {
        assert(after[j].0@ == after[k].0@);
    }
    assert(resolution_of(after)(t) == after[j].1@);
    assert forall|a: int, b: int| 0 <= a < b < before.len() implies (#[trigger] before[a]).0@ != (#[trigger] before[b]).0@ by {
        assert(after[a] == before[a] && after[b] == before[b]);
    }
    assert(resolution_of(before)(t) == before[k].1@);
}

/// `path` resolved through `cache`: a text already resolved gives what it gave before, a new
/// one is made absolute and canonical and recorded.
pub fn resolve_cached(cache: &mut Vec<(String, String)>, path: &str) -> (res: String)
    requires
        cache_ok(old(cache)@),
    ensures
        cache_ok(final(cache)@),
        old(cache)@.len() <= final(cache)@.len(),
        forall|i: int| 0 <= i < old(cache)@.len() ==> #[trigger] final(cache)@[i] == old(cache)@[i],
        cache_has(final(cache)@, path@),
        res@ == resolution_of(final(cache)@)(path@),
        res@ == path@ || absolute_text(res@),
{
    let mut i: usize = 0;
    while i < cache.len()
        invariant
            i <= cache@.len(),
            cache@ == old(cache)@,
            cache_ok(cache@),
            forall|k: int| 0 <= k < i ==> (#[trigger] cache@[k]).0@ != path@,
        decreases cache.len() - i,
    {
        if crate::text::str_eq(cache[i].0.as_str(), path) {
            let res = cache[i].1.clone();
            proof {
                let c = cache@;
                assert(c[i as int].0@ == path@);
                let j = choose|j: int| 0 <= j < c.len() && (#[trigger] c[j]).0@ == path@;
                if j != i {
                    assert(c[j].0@ == c[i as int].0@);
                }
                assert(resolution_of(c)(path@) == c[j].1@);
            }
            return res;
        }
        i = i + 1;
    }
    let resolved = normalize_path(path);
    let ghost before = cache@;
    cache.push((path.to_owned(), resolved.clone()));
    proof {
        let c = cache@;
        assert(c[before.len() as int].0@ == path@);
        let j = choose|j: int| 0 <= j < c.len() && (#[trigger] c[j]).0@ == path@;
        if j < before.len() {
            assert(c[j] == before[j]);
        }
        assert forall|a: int, b: int| 0 <= a < b < c.len() implies (#[trigger] c[a]).0@ != (#[trigger] c[b]).0@ by {
            if b < before.len() {
                assert(c[a] == before[a] && c[b] == before[b]);
            } else {
                assert(c[a] == before[a]);
            }
        }
        assert forall|a: int| 0 <= a < c.len() implies (#[trigger] c[a]).1@ == c[a].0@ || absolute_text(c[a].1@) by {
            if a < before.len() {
                assert(c[a] == before[a]);
            }
        }
    }
    resolved
}

/// Some path of `roots` names the path `p`.
pub open spec fn lists_root(roots: Seq<String>, p: Seq<char>) -> bool {
    exists|r: int| 0 <= r < roots.len() && same_path((#[trigger] roots[r])@, p)
}

/// Whether the resolved path `p` may go into a plan: it is no resolved scan root and the policy
/// allows it.
pub open spec fn path_verdict(p: Seq<char>, roots: Seq<String>, policy: SafetyPolicy) -> bool {
    !lists_root(roots, p) && policy.allows(p)
}

/// Whether each path may go into a plan, for resolved `paths` and resolved scan `roots`: a path
/// that is `plannable`, names no scan root, and that `policy` allows.
pub fn plan_verdicts(plannable: &[bool], paths: &[String], roots: &[String], policy: &SafetyPolicy) -> (res: Vec<bool>)
    requires
        plannable@.len() == paths@.len(),
    ensures
        res@.len() == paths@.len(),
        forall|i: int| 0 <= i < paths@.len() ==> #[trigger] res@[i] == (plannable@[i] && path_verdict(paths@[i]@, roots@, *policy)),
{
    let mut res: Vec<bool> = Vec::new();
    let mut i: usize = 0;
    while i < paths.len()
        invariant
            i <= paths@.len(),
            plannable@.len() == paths@.len(),
            res@.len() == i,
            forall|k: int| 0 <= k < i ==> #[trigger] res@[k] == (plannable@[k] && path_verdict(paths@[k]@, roots@, *policy)),
        decreases paths.len() - i,
    {
        let verdict = if plannable[i] {
            let p = paths[i].as_str();
            let mut is_root = false;
            let mut r: usize = 0;
            while r < roots.len()
                invariant
                    r <= roots@.len(),
                    is_root == exists|q: int| 0 <= q < r && same_path((#[trigger] roots@[q])@, p@),
                decreases roots.len() - r,
            {
                if paths_equal(roots[r].as_str(), p) {
                    is_root = true;
                }
                r = r + 1;
            }
            !is_root && policy.allows_normalized_candidate(p)
        } else {
            false
        };
        res.push(verdict);
        i = i + 1;
    }
    res
}

} // verus!
