//! What the command line asks for, and the decisions of its plugin and cleanup commands that do
//! not touch the disk or the network.
//!
//! Paths are held as text.
use vstd::prelude::*;

use crate::config::{string_views, Config};
use crate::plugin::{
    enable_rule_packs, enabled_after, is_semver, plugin_id_valid, semver_greater, sha256_hex,
    sha256_hex_of, url_path, validate_plugin_id, version_greater, version_parses, PluginError,
    PluginIndexEntry, PluginIndexFile, PluginIndexSource, PluginManifest,
};
use crate::text::{chars_of, concat, str_eq};
use crate::path::{components, path_components, texts};
use crate::plugin::{comma_joined, join_with_slashes, slash_joined};
use crate::rules::{is_name, is_name_exec};

verus! {

/// Create a plugin bundle from the template.
#[derive(Debug, Clone, PartialEq, Eq)]
pub struct InitOptions {
    pub path: String,
    pub id: String,
    pub name: String,
    pub force: bool,
}

/// Install a plugin from an index.
#[derive(Debug, Clone, PartialEq, Eq)]
pub struct InstallOptions {
    pub id: String,
    pub index_url: Option<String>,
    pub github_repo: String,
    pub github_ref: String,
    pub plugin_dir: Option<String>,
    pub config_path: Option<String>,
    pub trust: bool,
    pub enable: bool,
    pub force: bool,
}

/// Generate or check the index of a directory of plugin bundles.
#[derive(Debug, Clone, PartialEq, Eq)]
pub struct IndexOptions {
    pub plugin_dir: String,
    pub output: Option<String>,
    pub base_url: String,
    pub check: bool,
}

/// Use a local bundle in place.
#[derive(Debug, Clone, PartialEq, Eq)]
pub struct LinkOptions {
    pub path: String,
    pub config_path: Option<String>,
    pub trust: bool,
    pub enable: bool,
}

/// Stop using a linked bundle.
#[derive(Debug, Clone, PartialEq, Eq)]
pub struct UnlinkOptions {
    pub id: String,
    pub config_path: Option<String>,
}

/// Remove an installed plugin.
#[derive(Debug, Clone, PartialEq, Eq)]
pub struct RemoveOptions {
    pub id: String,
    pub config_path: Option<String>,
}

/// Update installed plugins, or one of them.
#[derive(Debug, Clone, PartialEq, Eq)]
pub struct UpdateOptions {
    pub id: Option<String>,
    pub config_path: Option<String>,
    pub force: bool,
}

/// Search a plugin index.
#[derive(Debug, Clone, PartialEq, Eq)]
pub struct SearchOptions {
    pub query: Option<String>,
    pub index_url: Option<String>,
    pub github_repo: String,
    pub github_ref: String,
}

/// Show one plugin, local or from an index.
#[derive(Debug, Clone, PartialEq, Eq)]
pub struct InfoOptions {
    pub id: String,
    pub index_url: Option<String>,
    pub github_repo: String,
    pub github_ref: String,
    pub config_path: Option<String>,
    pub local: bool,
}

/// Trust or stop trusting a plugin.
#[derive(Debug, Clone, PartialEq, Eq)]
pub struct TrustOptions {
    pub id: String,
    pub config_path: Option<String>,
}

/// Carry out a reviewed cleanup plan.
#[derive(Debug, Clone, PartialEq, Eq)]
pub struct CleanCommand {
    pub config_path: Option<String>,
    pub plan_path: String,
    pub plan_sha256: String,
    pub authorized_by_user: bool,
}

// ---------------------------------------------------------------- configuration changes

/// `v` with `s` added at the end unless it is already there.
pub open spec fn with_added(v: Seq<Seq<char>>, s: Seq<char>) -> Seq<Seq<char>> {
    if v.contains(s) {
        v
    } else {
        v.push(s)
    }
}

/// `v` without every occurrence of `s`.
pub open spec fn without(v: Seq<Seq<char>>, s: Seq<char>) -> Seq<Seq<char>> {
    v.filter(|t: Seq<char>| t != s)
}

/// Add `s` to `v` unless it is already there.
fn add_if_absent(v: &mut Vec<String>, s: &str)
    ensures
        string_views(final(v)@) == with_added(string_views(old(v)@), s@),
{
    let ghost before = string_views(v@);
    let mut i: usize = 0;
    while i < v.len()
        invariant
            i <= v@.len(),
            before == string_views(v@),
            forall|k: int| 0 <= k < i ==> before[k] != s@,
        decreases v.len() - i,
    {
        if str_eq(v[i].as_str(), s) {
            assert(before[i as int] == s@);
            return;
        }
        i = i + 1;
    }
    v.push(s.to_owned());
    assert(string_views(v@) =~= before.push(s@));
}

/// Remove every occurrence of `s` from `v`.
fn remove_all(v: &mut Vec<String>, s: &str)
    ensures
        string_views(final(v)@) == without(string_views(old(v)@), s@),
{
    let ghost before = string_views(v@);
    let ghost keep = |t: Seq<char>| t != s@;
    let mut kept: Vec<String> = Vec::new();
    let mut i: usize = 0;
    assert(before.take(0).filter(keep) =~= Seq::<Seq<char>>::empty());
    while i < v.len()
        invariant
            i <= v@.len(),
            before == string_views(v@),
            keep == (|t: Seq<char>| t != s@),
            string_views(kept@) == before.take(i as int).filter(keep),
        decreases v.len() - i,
    {
        proof {
            assert(before.take(i + 1) =~= before.take(i as int).push(before[i as int]));
            before.take(i as int).lemma_filter_push(before[i as int], keep);
        }
        if !str_eq(v[i].as_str(), s) {
            let ghost kept_before = string_views(kept@);
            kept.push(v[i].clone());
            assert(string_views(kept@) =~= kept_before.push(before[i as int]));
        }
        i = i + 1;
    }
    assert(before.take(v@.len() as int) =~= before);
    *v = kept;
}

/// The message for a downloaded bundle whose manifest names another plugin than its index entry.
pub open spec fn manifest_id_mismatch_text(index_id: Seq<char>, manifest_id: Seq<char>) -> Seq<char> {
    "plugin index id "@ + index_id + " does not match manifest id "@ + manifest_id
}

/// A downloaded bundle is installed only when its manifest names the plugin of its index entry;
/// otherwise the install stops with a message naming both.
pub fn check_manifest_id(index_id: &str, manifest_id: &str) -> (res: Result<(), String>)
    ensures
        res is Ok <==> index_id@ == manifest_id@,
        res matches Err(m) ==> m@ == manifest_id_mismatch_text(index_id@, manifest_id@),
{
    if str_eq(index_id, manifest_id) {
        Ok(())
    } else {
        let head = concat("plugin index id ", index_id);
        let middle = concat(head.as_str(), " does not match manifest id ");
        Err(concat(middle.as_str(), manifest_id))
    }
}

/// Record a plugin in the configuration: its directory is searched for plugins, it is trusted
/// when asked, and its rule packs are enabled when asked. Each is added only once.
pub fn register_plugin(config: &mut Config, plugin_dir: &str, plugin_id: &str, trust: bool, enable: bool, rule_pack_ids: &[String])
    ensures
        string_views(final(config).plugins.dirs@) == with_added(string_views(old(config).plugins.dirs@), plugin_dir@),
        string_views(final(config).plugins.trusted@) == if trust {
            with_added(string_views(old(config).plugins.trusted@), plugin_id@)
        } else {
            string_views(old(config).plugins.trusted@)
        },
        string_views(final(config).cleanup.enabled_rule_packs@) == if enable {
            enabled_after(string_views(old(config).cleanup.enabled_rule_packs@), Seq::new(rule_pack_ids@.len(), |i: int| rule_pack_ids@[i]@))
        } else {
            string_views(old(config).cleanup.enabled_rule_packs@)
        },
        final(config).scan == old(config).scan,
        final(config).recommendations == old(config).recommendations,
        final(config).i18n == old(config).i18n,
        final(config).ui == old(config).ui,
        final(config).cleanup.default_action == old(config).cleanup.default_action,
        final(config).cleanup.require_confirm == old(config).cleanup.require_confirm,
{
    add_if_absent(&mut config.plugins.dirs, plugin_dir);
    if trust {
        add_if_absent(&mut config.plugins.trusted, plugin_id);
    }
    if enable {
        enable_rule_packs(config, rule_pack_ids);
    }
}

/// Trust the plugin `id`, once. An invalid id is refused and nothing changes.
pub fn trust_plugin(config: &mut Config, id: &str) -> (res: Result<(), PluginError>)
    ensures
        res is Ok <==> plugin_id_valid(id@),
        res is Err ==> res == Err::<(), PluginError>(PluginError::InvalidId) && *final(config) == *old(config),
        res is Ok ==> string_views(final(config).plugins.trusted@) == with_added(string_views(old(config).plugins.trusted@), id@),
        final(config).plugins.dirs == old(config).plugins.dirs,
        final(config).cleanup == old(config).cleanup,
        final(config).scan == old(config).scan,
{
    validate_plugin_id(id)?;
    add_if_absent(&mut config.plugins.trusted, id);
    Ok(())
}

/// Stop trusting the plugin `id`. An invalid id is refused and nothing changes.
pub fn untrust_plugin(config: &mut Config, id: &str) -> (res: Result<(), PluginError>)
    ensures
        res is Ok <==> plugin_id_valid(id@),
        res is Err ==> res == Err::<(), PluginError>(PluginError::InvalidId) && *final(config) == *old(config),
        res is Ok ==> string_views(final(config).plugins.trusted@) == without(string_views(old(config).plugins.trusted@), id@),
        final(config).plugins.dirs == old(config).plugins.dirs,
        final(config).cleanup == old(config).cleanup,
        final(config).scan == old(config).scan,
{
    validate_plugin_id(id)?;
    remove_all(&mut config.plugins.trusted, id);
    Ok(())
}

/// Stop searching the directory `root` for plugins; whether it was searched.
pub fn unlink_plugin_dir(config: &mut Config, root: &str) -> (res: bool)
    ensures
        string_views(final(config).plugins.dirs@) == without(string_views(old(config).plugins.dirs@), root@),
        res == string_views(old(config).plugins.dirs@).contains(root@),
        final(config).plugins.trusted == old(config).plugins.trusted,
        final(config).cleanup == old(config).cleanup,
        final(config).scan == old(config).scan,
{
    let before = config.plugins.dirs.len();
    let ghost old_dirs = string_views(config.plugins.dirs@);
    remove_all(&mut config.plugins.dirs, root);
    proof {
        lemma_without_len(old_dirs, root@);
    }
    config.plugins.dirs.len() != before
}

proof fn lemma_without_len(v: Seq<Seq<char>>, s: Seq<char>)
    ensures
        without(v, s).len() == v.len() <==> !v.contains(s),
        without(v, s).len() <= v.len(),
    decreases v.len(),
{
    reveal(Seq::filter);
    if v.len() > 0 {
        lemma_without_len(v.drop_last(), s);
        if v.drop_last().contains(s) {
            let k = choose|k: int| 0 <= k < v.drop_last().len() && v.drop_last()[k] == s;
            assert(v[k] == s);
        }
        if v.contains(s) && v.last() != s {
            let k = choose|k: int| 0 <= k < v.len() && v[k] == s;
            assert(v.drop_last()[k] == s);
        }
    }
}

// ---------------------------------------------------------------- updates

/// Why an update check cannot decide.
#[derive(Debug, Clone, PartialEq, Eq)]
pub enum UpdateCheckError {
    InvalidInstalledVersion { id: String },
    InvalidIndexVersion { id: String },
}

/// The message for a plugin whose versions cannot be compared.
pub open spec fn update_check_error_text(e: UpdateCheckError) -> Seq<char> {
    match e {
        UpdateCheckError::InvalidInstalledVersion { id } => "installed plugin "@ + id@ + " has invalid version"@,
        UpdateCheckError::InvalidIndexVersion { id } => "index plugin "@ + id@ + " has invalid version"@,
    }
}

impl UpdateCheckError {
    /// The message shown to the user.
    pub fn message(&self) -> (res: String)
        ensures
            res@ == update_check_error_text(*self),
    {
        match self {
            UpdateCheckError::InvalidInstalledVersion { id } => concat(concat("installed plugin ", id.as_str()).as_str(), " has invalid version"),
            UpdateCheckError::InvalidIndexVersion { id } => concat(concat("index plugin ", id.as_str()).as_str(), " has invalid version"),
        }
    }
}

/// Whether an installed plugin is to be reinstalled from its index entry: when the index has a
/// greater version, or when forced. Both versions must be semantic versions.
pub fn update_wanted(id: &str, installed_version: &str, available_version: &str, force: bool) -> (res: Result<bool, UpdateCheckError>)
    ensures
        !is_semver(installed_version@) ==> (res matches Err(UpdateCheckError::InvalidInstalledVersion { id: i }) && i@ == id@),
        is_semver(installed_version@) && !is_semver(available_version@) ==> (res matches Err(UpdateCheckError::InvalidIndexVersion { id: i }) && i@ == id@),
        is_semver(installed_version@) && is_semver(available_version@) ==> res == Ok::<bool, UpdateCheckError>(force || semver_greater(available_version@, installed_version@)),
{
    if !version_parses(installed_version) {
        return Err(UpdateCheckError::InvalidInstalledVersion { id: id.to_owned() });
    }
    if !version_parses(available_version) {
        return Err(UpdateCheckError::InvalidIndexVersion { id: id.to_owned() });
    }
    Ok(force || version_greater(available_version, installed_version))
}

// ---------------------------------------------------------------- index generation

/// `s` without its trailing `/` characters.
pub open spec fn trim_trailing_slashes(s: Seq<char>) -> Seq<char>
    decreases s.len(),
{
    if s.len() > 0 && s.last() == '/' {
        trim_trailing_slashes(s.drop_last())
    } else {
        s
    }
}

/// The base address of published plugin files: an HTTP(S) address without trailing `/`.
pub open spec fn index_base(base: Seq<char>) -> Option<Seq<char>> {
    if base.len() >= 7 && base.take(7) == "http://"@ || base.len() >= 8 && base.take(8) == "https://"@ {
        Some(trim_trailing_slashes(base))
    } else {
        None
    }
}

/// The base address of published plugin files, where `base` is an HTTP(S) address.
pub fn index_base_url(base: &str) -> (res: Option<String>)
    ensures
        match index_base(base@) {
            Some(b) => res matches Some(s) && s@ == b,
            None => res is None,
        },
{
    let chars = chars_of(base);
    let http = chars_of("http://");
    let https = chars_of("https://");
    proof {
        reveal_strlit("http://");
        reveal_strlit("https://");
    }
    let plain = crate::text::occurs_at_exec(&chars, &http, 0);
    let secure = crate::text::occurs_at_exec(&chars, &https, 0);
    proof {
        if chars@.len() >= 7 {
            assert(chars@.subrange(0, 7) =~= chars@.take(7));
        }
        if chars@.len() >= 8 {
            assert(chars@.subrange(0, 8) =~= chars@.take(8));
        }
    }
    if !plain && !secure {
        return None;
    }
    let mut end: usize = chars.len();
    assert(chars@.take(chars@.len() as int) =~= chars@);
    while end > 0 && chars[end - 1] == '/'
        invariant
            end <= chars@.len(),
            trim_trailing_slashes(chars@) == trim_trailing_slashes(chars@.take(end as int)),
        decreases end,
    {
        assert(chars@.take(end as int).drop_last() =~= chars@.take(end - 1));
        end = end - 1;
    }
    proof {
        assert(chars@.take(chars@.len() as int) =~= chars@);
        if end > 0 {
            assert(chars@.take(end as int).last() == chars@[end - 1]);
        }
    }
    let part = vstd::slice::slice_subrange(chars.as_slice(), 0, end);
    assert(part@ =~= chars@.take(end as int));
    Some(crate::text::string_from_chars(part))
}

/// The index record of one published file: the file's path in its bundle, its address under
/// `base_url`, its SHA-256 and its size.
pub fn index_file_for(base_url: &str, bundle_name: &str, relative_path: &str, bytes: &[u8]) -> (res: PluginIndexFile)
    ensures
        res.path@ == relative_path@,
        res.url@ == base_url@ + seq!['/'] + crate::plugin::percent_encoded(vstd::utf8::encode_utf8(bundle_name@ + seq!['/'] + relative_path@), true),
        res.sha256@ == sha256_hex_of(bytes@),
        res.size == bytes@.len(),
{
    proof {
        reveal_strlit("/");
        assert("/"@ =~= seq!['/']);
    }
    let inner = concat(concat(bundle_name, "/").as_str(), relative_path);
    assert(inner@ =~= bundle_name@ + seq!['/'] + relative_path@);
    let encoded = url_path(inner.as_str());
    let url = concat(concat(base_url, "/").as_str(), encoded.as_str());
    assert(url@ =~= base_url@ + seq!['/'] + encoded@);
    PluginIndexFile {
        path: relative_path.to_owned(),
        url,
        sha256: sha256_hex(bytes),
        size: bytes.len() as u64,
    }
}

/// The index entry of a bundle published under `bundle_name`, from its manifest and files.
/// Where the manifest names a repository, the entry points at the bundle inside it.
pub fn index_entry_for_bundle(manifest: PluginManifest, bundle_name: &str, files: Vec<PluginIndexFile>) -> (res: PluginIndexEntry)
    ensures
        res.id == manifest.id,
        res.name == manifest.name,
        res.version == manifest.version,
        res.description == manifest.description,
        res.cleanr_version == manifest.cleanr_version,
        res.capabilities == manifest.capabilities,
        res.categories == manifest.categories,
        res.keywords == manifest.keywords,
        res.author is None,
        res.homepage == manifest.homepage,
        res.repository == manifest.repository,
        res.license == manifest.license,
        res.files == files,
        match manifest.repository {
            Some(repo) => res.source matches Some(s) && s.kind@ == "github"@ && s.repo == Some(repo)
                && (s.path matches Some(p) && p@ == "plugins/"@ + bundle_name@) && s.url is None,
            None => res.source is None,
        },
{
    let source = match &manifest.repository {
        Some(repository) => Some(PluginIndexSource {
            kind: "github".to_owned(),
            repo: Some(repository.clone()),
            path: Some(concat("plugins/", bundle_name)),
            url: None,
        }),
        None => None,
    };
    PluginIndexEntry {
        id: manifest.id,
        name: manifest.name,
        version: manifest.version,
        description: manifest.description,
        cleanr_version: manifest.cleanr_version,
        capabilities: manifest.capabilities,
        categories: manifest.categories,
        keywords: manifest.keywords,
        author: None,
        homepage: manifest.homepage,
        repository: manifest.repository,
        license: manifest.license,
        source,
        files,
    }
}


// ---------------------------------------------------------------- display of bundle paths

/// A path inside a bundle written with `/` between its components; refused when a component is
/// the root, `.` or `..`.
pub fn slash_path(path: &str) -> (res: Result<String, PluginError>)
    ensures
        (forall|i: int| 0 <= i < components(path@).len() ==> is_name(#[trigger] components(path@)[i]))
            ==> (res matches Ok(s) && s@ == slash_joined(components(path@))),
        !(forall|i: int| 0 <= i < components(path@).len() ==> is_name(#[trigger] components(path@)[i]))
            ==> res == Err::<String, PluginError>(PluginError::UnsupportedPathComponent),
{
    let comps = path_components(path);
    let ghost cv = texts(comps@);
    let mut i: usize = 0;
    while i < comps.len()
        invariant
            i <= comps@.len(),
            cv == texts(comps@),
            cv == components(path@),
            forall|k: int| 0 <= k < i ==> is_name(#[trigger] cv[k]),
        decreases comps.len() - i,
    {
        assert(cv[i as int] == comps@[i as int]@);
        if !is_name_exec(&comps[i]) {
            return Err(PluginError::UnsupportedPathComponent);
        }
        i = i + 1;
    }
    Ok(join_with_slashes(&comps))
}

/// Paths listed for display: separated by `, `, or `(none)` when there are none.
pub open spec fn listed_paths(paths: Seq<String>) -> Seq<char> {
    if paths.len() == 0 {
        "(none)"@
    } else {
        comma_joined(string_views(paths))
    }
}

/// Paths listed for display.
pub fn join_paths(paths: &[String]) -> (res: String)
    ensures
        res@ == listed_paths(paths@),
{
    if paths.len() == 0 {
        return "(none)".to_owned();
    }
    let mut out = String::new();
    let mut i: usize = 0;
    while i < paths.len()
        invariant
            i <= paths@.len(),
            paths@.len() > 0,
            out@ == comma_joined(string_views(paths@.take(i as int))),
        decreases paths.len() - i,
    {
        let ghost t = string_views(paths@.take(i + 1));
        proof {
            assert(t.drop_last() =~= string_views(paths@.take(i as int)));
            assert(t.last() == paths@[i as int]@);
        }
        if i == 0 {
            out = paths[0].clone();
            proof {
                assert(t =~= seq![paths@[0]@]);
            }
        } else {
            let ghost before = out@;
            let with_comma = concat(out.as_str(), ", ");
            out = concat(with_comma.as_str(), paths[i].as_str());
            proof {
                assert(t.len() == i + 1);
                assert(comma_joined(t) == comma_joined(t.drop_last()) + ", "@ + t.last());
                assert(out@ =~= before + ", "@ + paths@[i as int]@);
            }
        }
        i = i + 1;
    }
    assert(paths@.take(paths@.len() as int) =~= paths@);
    out
}

} // verus!
