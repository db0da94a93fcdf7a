//! What loading a discovered plugin bundle decides before any rule pack is read: the warnings it
//! earns, and the rule pack files to read, from what its `rules` directory lists.
use vstd::prelude::*;

use crate::plugin::{DiagnosticSeverity, PluginCapability, PluginDiagnostic};
use crate::roots::{join_path, joined};
use crate::rules::{has_extension, path_extension};
use crate::text::concat;

verus! {

/// A warning as `(code, message, path)`.
pub type WarningView = (Seq<char>, Seq<char>, Seq<char>);

/// The rule pack files among a directory listing of `(path, is a regular file)`: the regular
/// files whose extension is `toml`, in listing order.
pub open spec fn rule_pack_files(listing: Seq<(String, bool)>) -> Seq<Seq<char>>
    decreases listing.len(),
{
    if listing.len() == 0 {
        Seq::empty()
    } else {
        let rest = rule_pack_files(listing.drop_last());
        let (path, is_file) = listing.last();
        if is_file && path_extension(path@) == Some("toml"@) {
            rest.push(path@)
        } else {
            rest
        }
    }
}

/// The warnings and rule pack files for the bundle `id` at `root` with capabilities `caps`, where
/// `listing` is what its `rules` directory lists, or why it could not be listed.
///
/// A bundle with dynamic candidates is warned that they are not run. A bundle with rules reads
/// the rule pack files of its `rules` directory; it is warned when the directory cannot be listed
/// and when it holds no rule pack.
pub open spec fn bundle_load(
    caps: Seq<PluginCapability>,
    id: Seq<char>,
    root: Seq<char>,
    listing: Result<Seq<(String, bool)>, Seq<char>>,
) -> (Seq<WarningView>, Seq<Seq<char>>) {
    let dynamic: Seq<WarningView> = if caps.contains(PluginCapability::DynamicCandidates) {
        seq![(
            "dynamic-candidates-runtime-disabled"@,
            "plugin "@ + id + " declares dynamic-candidates, but hook execution is not enabled in this release"@,
            root,
        )]
    } else {
        Seq::empty()
    };
    if !caps.contains(PluginCapability::Rules) {
        (dynamic, Seq::empty())
    } else {
        let dir = joined(root, "rules"@);
        let missing: Seq<WarningView> = match listing {
            Ok(_) => Seq::empty(),
            Err(why) => seq![("plugin-rules-directory-missing"@, why, dir)],
        };
        let files = match listing {
            Ok(entries) => rule_pack_files(entries),
            Err(_) => Seq::empty(),
        };
        let empty: Seq<WarningView> = if files.len() == 0 {
            seq![("plugin-rules-empty"@, "plugin "@ + id + " declares rules but contains no rule packs"@, dir)]
        } else {
            Seq::empty()
        };
        (dynamic + missing + empty, files)
    }
}

/// `diagnostics` are the warnings `expected`, in order.
pub open spec fn warnings_are(diagnostics: Seq<PluginDiagnostic>, expected: Seq<WarningView>) -> bool {
    &&& diagnostics.len() == expected.len()
    &&& forall|i: int| 0 <= i < diagnostics.len() ==> {
        let d = #[trigger] diagnostics[i];
        &&& d.severity == DiagnosticSeverity::Warning
        &&& d.code@ == expected[i].0
        &&& d.message@ == expected[i].1
        &&& d.path matches Some(p) && p@ == expected[i].2
    }
}

/// The texts of `v`.
pub open spec fn string_views(v: Seq<String>) -> Seq<Seq<char>> {
    v.map_values(|s: String| s@)
}

/// A listing as plain values.
pub open spec fn listing_view(listing: Result<Vec<(String, bool)>, String>) -> Result<Seq<(String, bool)>, Seq<char>> {
    match listing {
        Ok(entries) => Ok(entries@),
        Err(why) => Err(why@),
    }
}

fn has_capability(caps: &[PluginCapability], c: PluginCapability) -> (res: bool)
    ensures
        res == caps@.contains(c),
{
    let mut i: usize = 0;
    while i < caps.len()
        invariant
            i <= caps@.len(),
            forall|k: int| 0 <= k < i ==> caps@[k] != c,
        decreases caps.len() - i,
    {
        if caps[i] == c {
            return true;
        }
        i = i + 1;
    }
    false
}

fn select_rule_pack_files(entries: &Vec<(String, bool)>) -> (res: Vec<String>)
    ensures
        string_views(res@) == rule_pack_files(entries@),
{
    let mut files: Vec<String> = Vec::new();
    let mut i: usize = 0;
    proof {
        assert(entries@.take(0) =~= Seq::<(String, bool)>::empty());
        assert(string_views(files@) =~= Seq::<Seq<char>>::empty());
    }
    while i < entries.len()
        invariant
            i <= entries@.len(),
            string_views(files@) == rule_pack_files(entries@.take(i as int)),
        decreases entries.len() - i,
    {
        proof {
            assert(entries@.take(i + 1).drop_last() =~= entries@.take(i as int));
            assert(entries@.take(i + 1).last() == entries@[i as int]);
        }
        let ghost before = files@;
        if entries[i].1 && has_extension(entries[i].0.as_str(), "toml") {
            files.push(entries[i].0.clone());
            proof {
                assert(string_views(files@) =~= string_views(before).push(entries@[i as int].0@));
            }
        }
        i = i + 1;
    }
    proof {
        assert(entries@.take(entries@.len() as int) =~= entries@);
    }
    files
}

/// Decide how to load the bundle `id` at `root` with capabilities `caps`, given what its `rules`
/// directory lists (each path with whether it is a regular file) or why it could not be listed:
/// the warnings it earns, and the rule pack files to read, in order.
pub fn plan_bundle_load(
    caps: &[PluginCapability],
    id: &str,
    root: &str,
    listing: Result<Vec<(String, bool)>, String>,
) -> (res: (Vec<PluginDiagnostic>, Vec<String>))
    ensures
        warnings_are(res.0@, bundle_load(caps@, id@, root@, listing_view(listing)).0),
        string_views(res.1@) == bundle_load(caps@, id@, root@, listing_view(listing)).1,
{
    let mut diagnostics: Vec<PluginDiagnostic> = Vec::new();
    if has_capability(caps, PluginCapability::DynamicCandidates) {
        let head = concat("plugin ", id);
        let message = concat(head.as_str(), " declares dynamic-candidates, but hook execution is not enabled in this release");
        diagnostics.push(PluginDiagnostic::warning("dynamic-candidates-runtime-disabled", message, Some(root.to_owned())));
    }
    if !has_capability(caps, PluginCapability::Rules) {
        proof {
            assert(string_views(Seq::<String>::empty()) =~= Seq::<Seq<char>>::empty());
        }
        return (diagnostics, Vec::new());
    }
    let dir = join_path(root, "rules");
    let files = match listing {
        Ok(entries) => select_rule_pack_files(&entries),
        Err(why) => {
            diagnostics.push(PluginDiagnostic::warning("plugin-rules-directory-missing", why, Some(dir.clone())));
            Vec::new()
        },
    };
    if files.len() == 0 {
        let head = concat("plugin ", id);
        let message = concat(head.as_str(), " declares rules but contains no rule packs");
        diagnostics.push(PluginDiagnostic::warning("plugin-rules-empty", message, Some(dir)));
    }
    (diagnostics, files)
}

} // verus!
