//! Where a global scan looks: the known cache, log, temporary and download locations of each
//! platform, below the directories of the user's environment.
//!
//! Which locations exist, and where links lead, is for the caller to find out on disk; what is
//! decided here is which places to look at and how the found ones are ordered and merged.
use vstd::prelude::*;

use crate::model::{GlobalScanKind, RulePlatform, ScanLocationBase, ScanLocationDefinition, ScanLocationMode};
use crate::model::{global_kind_le, global_kind_rank, global_kind_rank_exec, global_kind_same, ScanRequest};
use crate::model::{sorted_unique_kinds, sorted_unique_kinds_of};
use crate::evidence::ScanIssue;
use crate::safety::{sort_and_dedup_paths, sorted_unique_paths_of};
use crate::path::{
    chars_le, components, comps_le, filesystem_root, is_filesystem_root, path_depth, path_le_exec,
    path_starts_with, paths_equal, same_path, starts_with,
};
use crate::sort::{dedup_by_eq, dedup_spec, sort_by_le, sorted_by_le, total_preorder};
use crate::text::concat;
use crate::rules::{name_glob_is_match, name_glob_match, name_glob_parses, name_glob_valid};

verus! {

/// The directories of the user's environment that global locations are found below.
#[derive(Debug, Clone, PartialEq, Eq)]
pub struct GlobalScanEnvironment {
    pub home_dir: Option<String>,
    pub cache_dir: Option<String>,
    pub data_local_dir: Option<String>,
    pub data_dir: Option<String>,
    pub temp_dir: Option<String>,
    pub download_dir: Option<String>,
}

impl Default for GlobalScanEnvironment {
    fn default() -> (res: Self)
        ensures
            res.home_dir is None && res.cache_dir is None && res.data_local_dir is None
                && res.data_dir is None && res.temp_dir is None && res.download_dir is None,
    {
        GlobalScanEnvironment {
            home_dir: None,
            cache_dir: None,
            data_local_dir: None,
            data_dir: None,
            temp_dir: None,
            download_dir: None,
        }
    }
}

/// A place a global scan looks at.
#[derive(Debug, Clone, PartialEq, Eq)]
pub struct GlobalScanRoot {
    pub path: String,
    pub kind: GlobalScanKind,
    pub label: String,
}

/// A global root as values: path, kind and label.
pub type RootView = (Seq<char>, GlobalScanKind, Seq<char>);

pub open spec fn root_view(r: GlobalScanRoot) -> RootView {
    (r.path@, r.kind, r.label@)
}

pub open spec fn root_views(v: Seq<GlobalScanRoot>) -> Seq<RootView> {
    Seq::new(v.len(), |i: int| root_view(v[i]))
}

/// `rel` below `base`, as a path join writes it: an absolute `rel` stands alone, and a
/// separator is put between the two unless `base` is empty or already ends with one.
pub open spec fn joined(base: Seq<char>, rel: Seq<char>) -> Seq<char> {
    if rel.len() > 0 && rel[0] == '/' {
        rel
    } else if base.len() == 0 {
        rel
    } else if base.last() == '/' {
        base + rel
    } else {
        base + seq!['/'] + rel
    }
}

/// `rel` joined below `base`.
pub fn join_path(base: &str, rel: &str) -> (res: String)
    ensures
        res@ == joined(base@, rel@),
{
    let r = crate::text::chars_of(rel);
    let b = crate::text::chars_of(base);
    if r.len() > 0 && r[0] == '/' {
        return rel.to_owned();
    }
    if b.len() == 0 {
        return rel.to_owned();
    }
    if b[b.len() - 1] == '/' {
        return concat(base, rel);
    }
    proof {
        reveal_strlit("/");
    }
    let with_separator = concat(base, "/");
    assert("/"@ =~= seq!['/']);
    concat(with_separator.as_str(), rel)
}

/// The roots for `targets`, relative paths with their labels, below `base`.
pub open spec fn relative_roots(base: Seq<char>, kind: GlobalScanKind, targets: Seq<(&'static str, &'static str)>) -> Seq<RootView> {
    Seq::new(targets.len(), |i: int| (joined(base, targets[i].0@), kind, targets[i].1@))
}

fn push_global_root(roots: &mut Vec<GlobalScanRoot>, path: &str, kind: GlobalScanKind, label: &str)
    ensures
        root_views(final(roots)@) == root_views(old(roots)@).push((path@, kind, label@)),
{
    let ghost before = roots@;
    roots.push(GlobalScanRoot { path: path.to_owned(), kind, label: label.to_owned() });
    assert(root_views(roots@) =~= root_views(before).push((path@, kind, label@)));
}

/// Add the roots for `targets` below `base`.
fn push_relative_global_roots(roots: &mut Vec<GlobalScanRoot>, base: &str, kind: GlobalScanKind, targets: &[(&'static str, &'static str)])
    ensures
        root_views(final(roots)@) == root_views(old(roots)@) + relative_roots(base@, kind, targets@),
{
    let ghost start = root_views(roots@);
    let mut i: usize = 0;
    while i < targets.len()
        invariant
            i <= targets@.len(),
            root_views(roots@) == start + relative_roots(base@, kind, targets@.take(i as int)),
        decreases targets.len() - i,
    {
        let (rel, label) = targets[i];
        let path = join_path(base, rel);
        push_global_root(roots, path.as_str(), kind, label);
        assert(relative_roots(base@, kind, targets@.take(i + 1)) =~= relative_roots(base@, kind, targets@.take(i as int)).push((joined(base@, rel@), kind, label@)));
        i = i + 1;
    }
    assert(targets@.take(targets@.len() as int) =~= targets@);
}

pub open spec fn home_developer_targets() -> Seq<(&'static str, &'static str)> {
    seq![
        (".cargo/registry", "Cargo registry cache"),
        (".cargo/git", "Cargo Git cache"),
        (".npm", "npm cache"),
        (".cache/pnpm", "pnpm cache"),
        (".cache/yarn", "Yarn cache"),
        (".cache/pip", "pip cache"),
        (".cache/uv", "uv cache"),
        (".local/share/pnpm/store", "pnpm store"),
        (".gradle/caches", "Gradle cache"),
        (".m2/repository", "Maven repository"),
        ("go/pkg/mod", "Go module cache")
    ]
}

fn push_home_developer_targets(roots: &mut Vec<GlobalScanRoot>, base: &str, kind: GlobalScanKind)
    ensures
        root_views(final(roots)@) == root_views(old(roots)@) + relative_roots(base@, kind, home_developer_targets()),
{
    let targets: [(&'static str, &'static str); 11] = [
        (".cargo/registry", "Cargo registry cache"),
        (".cargo/git", "Cargo Git cache"),
        (".npm", "npm cache"),
        (".cache/pnpm", "pnpm cache"),
        (".cache/yarn", "Yarn cache"),
        (".cache/pip", "pip cache"),
        (".cache/uv", "uv cache"),
        (".local/share/pnpm/store", "pnpm store"),
        (".gradle/caches", "Gradle cache"),
        (".m2/repository", "Maven repository"),
        ("go/pkg/mod", "Go module cache")
    ];
    assert(targets@ == home_developer_targets());
    push_relative_global_roots(roots, base, kind, &targets);
}

pub open spec fn macos_developer_targets() -> Seq<(&'static str, &'static str)> {
    seq![
        ("Library/Caches/pip", "pip cache"),
        ("Library/Caches/uv", "uv cache"),
        ("Library/Caches/Yarn", "Yarn cache"),
        ("Library/pnpm/store", "pnpm store"),
        ("Library/Caches/Homebrew", "Homebrew download cache"),
        ("Library/Caches/CocoaPods", "CocoaPods cache"),
        ("Library/Caches/org.swift.swiftpm", "SwiftPM cache"),
        ("Library/Caches/go-build", "Go build cache"),
        ("Library/Caches/deno", "Deno cache"),
        ("Library/Caches/Cypress", "Cypress binary cache"),
        ("Library/Caches/composer", "Composer cache"),
        (".bun/install/cache", "Bun cache"),
        (".pub-cache", "Dart and Flutter pub cache"),
        (".yarn/cache", "Yarn cache"),
        ("Library/Developer/Xcode/DerivedData", "Xcode DerivedData"),
        ("Library/Developer/CoreSimulator/Caches", "CoreSimulator caches"),
        ("Library/Caches/com.apple.dt.Xcode", "Xcode cache"),
        ("Library/Developer/Xcode/iOS DeviceSupport", "Xcode iOS device support"),
        ("Library/Developer/Xcode/watchOS DeviceSupport", "Xcode watchOS device support"),
        ("Library/Developer/Xcode/tvOS DeviceSupport", "Xcode tvOS device support"),
        ("Library/Developer/Xcode/Archives", "Xcode archives"),
        ("Library/Developer/Xcode/UserData/Previews", "Xcode previews"),
        ("Library/Developer/XCTestDevices", "XCTest devices")
    ]
}

fn push_macos_developer_targets(roots: &mut Vec<GlobalScanRoot>, base: &str, kind: GlobalScanKind)
    ensures
        root_views(final(roots)@) == root_views(old(roots)@) + relative_roots(base@, kind, macos_developer_targets()),
{
    let targets: [(&'static str, &'static str); 23] = [
        ("Library/Caches/pip", "pip cache"),
        ("Library/Caches/uv", "uv cache"),
        ("Library/Caches/Yarn", "Yarn cache"),
        ("Library/pnpm/store", "pnpm store"),
        ("Library/Caches/Homebrew", "Homebrew download cache"),
        ("Library/Caches/CocoaPods", "CocoaPods cache"),
        ("Library/Caches/org.swift.swiftpm", "SwiftPM cache"),
        ("Library/Caches/go-build", "Go build cache"),
        ("Library/Caches/deno", "Deno cache"),
        ("Library/Caches/Cypress", "Cypress binary cache"),
        ("Library/Caches/composer", "Composer cache"),
        (".bun/install/cache", "Bun cache"),
        (".pub-cache", "Dart and Flutter pub cache"),
        (".yarn/cache", "Yarn cache"),
        ("Library/Developer/Xcode/DerivedData", "Xcode DerivedData"),
        ("Library/Developer/CoreSimulator/Caches", "CoreSimulator caches"),
        ("Library/Caches/com.apple.dt.Xcode", "Xcode cache"),
        ("Library/Developer/Xcode/iOS DeviceSupport", "Xcode iOS device support"),
        ("Library/Developer/Xcode/watchOS DeviceSupport", "Xcode watchOS device support"),
        ("Library/Developer/Xcode/tvOS DeviceSupport", "Xcode tvOS device support"),
        ("Library/Developer/Xcode/Archives", "Xcode archives"),
        ("Library/Developer/Xcode/UserData/Previews", "Xcode previews"),
        ("Library/Developer/XCTestDevices", "XCTest devices")
    ];
    assert(targets@ == macos_developer_targets());
    push_relative_global_roots(roots, base, kind, &targets);
}

pub open spec fn cache_developer_targets() -> Seq<(&'static str, &'static str)> {
    seq![
        ("npm", "npm cache"),
        ("pnpm", "pnpm cache"),
        ("yarn", "Yarn cache"),
        ("pip", "pip cache"),
        ("uv", "uv cache")
    ]
}

fn push_cache_developer_targets(roots: &mut Vec<GlobalScanRoot>, base: &str, kind: GlobalScanKind)
    ensures
        root_views(final(roots)@) == root_views(old(roots)@) + relative_roots(base@, kind, cache_developer_targets()),
{
    let targets: [(&'static str, &'static str); 5] = [
        ("npm", "npm cache"),
        ("pnpm", "pnpm cache"),
        ("yarn", "Yarn cache"),
        ("pip", "pip cache"),
        ("uv", "uv cache")
    ];
    assert(targets@ == cache_developer_targets());
    push_relative_global_roots(roots, base, kind, &targets);
}

pub open spec fn windows_developer_targets() -> Seq<(&'static str, &'static str)> {
    seq![
        ("npm-cache", "npm cache"),
        ("Yarn/Cache", "Yarn cache"),
        ("pip/Cache", "pip cache"),
        ("uv/cache", "uv cache")
    ]
}

fn push_windows_developer_targets(roots: &mut Vec<GlobalScanRoot>, base: &str, kind: GlobalScanKind)
    ensures
        root_views(final(roots)@) == root_views(old(roots)@) + relative_roots(base@, kind, windows_developer_targets()),
{
    let targets: [(&'static str, &'static str); 4] = [
        ("npm-cache", "npm cache"),
        ("Yarn/Cache", "Yarn cache"),
        ("pip/Cache", "pip cache"),
        ("uv/cache", "uv cache")
    ];
    assert(targets@ == windows_developer_targets());
    push_relative_global_roots(roots, base, kind, &targets);
}

pub open spec fn macos_browser_targets() -> Seq<(&'static str, &'static str)> {
    seq![
        ("Library/Caches/Google/Chrome", "Chrome cache"),
        ("Library/Caches/Chromium", "Chromium cache"),
        ("Library/Caches/Microsoft Edge", "Microsoft Edge cache"),
        ("Library/Caches/Firefox", "Firefox cache"),
        ("Library/Caches/BraveSoftware/Brave-Browser", "Brave cache"),
        ("Library/Caches/Arc", "Arc cache"),
        ("Library/Caches/com.apple.Safari", "Safari cache")
    ]
}

fn push_macos_browser_targets(roots: &mut Vec<GlobalScanRoot>, base: &str, kind: GlobalScanKind)
    ensures
        root_views(final(roots)@) == root_views(old(roots)@) + relative_roots(base@, kind, macos_browser_targets()),
{
    let targets: [(&'static str, &'static str); 7] = [
        ("Library/Caches/Google/Chrome", "Chrome cache"),
        ("Library/Caches/Chromium", "Chromium cache"),
        ("Library/Caches/Microsoft Edge", "Microsoft Edge cache"),
        ("Library/Caches/Firefox", "Firefox cache"),
        ("Library/Caches/BraveSoftware/Brave-Browser", "Brave cache"),
        ("Library/Caches/Arc", "Arc cache"),
        ("Library/Caches/com.apple.Safari", "Safari cache")
    ];
    assert(targets@ == macos_browser_targets());
    push_relative_global_roots(roots, base, kind, &targets);
}

pub open spec fn linux_browser_targets() -> Seq<(&'static str, &'static str)> {
    seq![
        (".cache/google-chrome", "Chrome cache"),
        (".cache/chromium", "Chromium cache"),
        (".cache/microsoft-edge", "Microsoft Edge cache"),
        (".cache/mozilla/firefox", "Firefox cache")
    ]
}

fn push_linux_browser_targets(roots: &mut Vec<GlobalScanRoot>, base: &str, kind: GlobalScanKind)
    ensures
        root_views(final(roots)@) == root_views(old(roots)@) + relative_roots(base@, kind, linux_browser_targets()),
{
    let targets: [(&'static str, &'static str); 4] = [
        (".cache/google-chrome", "Chrome cache"),
        (".cache/chromium", "Chromium cache"),
        (".cache/microsoft-edge", "Microsoft Edge cache"),
        (".cache/mozilla/firefox", "Firefox cache")
    ];
    assert(targets@ == linux_browser_targets());
    push_relative_global_roots(roots, base, kind, &targets);
}

pub open spec fn windows_browser_targets() -> Seq<(&'static str, &'static str)> {
    seq![
        ("Google/Chrome/User Data/Default/Cache", "Chrome cache"),
        ("Microsoft/Edge/User Data/Default/Cache", "Microsoft Edge cache")
    ]
}

fn push_windows_browser_targets(roots: &mut Vec<GlobalScanRoot>, base: &str, kind: GlobalScanKind)
    ensures
        root_views(final(roots)@) == root_views(old(roots)@) + relative_roots(base@, kind, windows_browser_targets()),
{
    let targets: [(&'static str, &'static str); 2] = [
        ("Google/Chrome/User Data/Default/Cache", "Chrome cache"),
        ("Microsoft/Edge/User Data/Default/Cache", "Microsoft Edge cache")
    ];
    assert(targets@ == windows_browser_targets());
    push_relative_global_roots(roots, base, kind, &targets);
}

pub open spec fn macos_app_targets() -> Seq<(&'static str, &'static str)> {
    seq![
        ("Library/Caches", "macOS application caches"),
        ("Library/Application Support/Slack/Cache", "Slack cache"),
        ("Library/Application Support/Slack/Code Cache", "Slack code cache"),
        ("Library/Application Support/Slack/GPUCache", "Slack GPU cache"),
        ("Library/Application Support/discord/Cache", "Discord cache"),
        ("Library/Application Support/discord/Code Cache", "Discord code cache"),
        ("Library/Application Support/discord/GPUCache", "Discord GPU cache"),
        ("Library/Application Support/Code/Cache", "VS Code cache"),
        ("Library/Application Support/Code/Code Cache", "VS Code code cache"),
        ("Library/Application Support/Code/GPUCache", "VS Code GPU cache"),
        ("Library/Application Support/Code/CachedData", "VS Code cached data"),
        ("Library/Application Support/Cursor/Cache", "Cursor cache"),
        ("Library/Application Support/Cursor/Code Cache", "Cursor code cache"),
        ("Library/Application Support/Cursor/GPUCache", "Cursor GPU cache"),
        ("Library/Application Support/Cursor/CachedData", "Cursor cached data"),
        ("Library/Application Support/Signal/Cache", "Signal cache"),
        ("Library/Application Support/Signal/Code Cache", "Signal code cache"),
        ("Library/Application Support/Signal/GPUCache", "Signal GPU cache"),
        ("Library/Application Support/obsidian/Cache", "Obsidian cache"),
        ("Library/Application Support/obsidian/Code Cache", "Obsidian code cache"),
        ("Library/Application Support/obsidian/GPUCache", "Obsidian GPU cache"),
        ("Library/Application Support/Notion/Cache", "Notion cache"),
        ("Library/Application Support/Notion/Code Cache", "Notion code cache"),
        ("Library/Application Support/Notion/GPUCache", "Notion GPU cache"),
        ("Library/Application Support/Spotify/PersistentCache", "Spotify persistent cache"),
        ("Library/Containers/com.microsoft.teams2/Data/Library/Caches", "Microsoft Teams cache"),
        ("Library/Application Support/zoom.us/AutoUpdater", "Zoom update installers")
    ]
}

fn push_macos_app_targets(roots: &mut Vec<GlobalScanRoot>, base: &str, kind: GlobalScanKind)
    ensures
        root_views(final(roots)@) == root_views(old(roots)@) + relative_roots(base@, kind, macos_app_targets()),
{
    let targets: [(&'static str, &'static str); 27] = [
        ("Library/Caches", "macOS application caches"),
        ("Library/Application Support/Slack/Cache", "Slack cache"),
        ("Library/Application Support/Slack/Code Cache", "Slack code cache"),
        ("Library/Application Support/Slack/GPUCache", "Slack GPU cache"),
        ("Library/Application Support/discord/Cache", "Discord cache"),
        ("Library/Application Support/discord/Code Cache", "Discord code cache"),
        ("Library/Application Support/discord/GPUCache", "Discord GPU cache"),
        ("Library/Application Support/Code/Cache", "VS Code cache"),
        ("Library/Application Support/Code/Code Cache", "VS Code code cache"),
        ("Library/Application Support/Code/GPUCache", "VS Code GPU cache"),
        ("Library/Application Support/Code/CachedData", "VS Code cached data"),
        ("Library/Application Support/Cursor/Cache", "Cursor cache"),
        ("Library/Application Support/Cursor/Code Cache", "Cursor code cache"),
        ("Library/Application Support/Cursor/GPUCache", "Cursor GPU cache"),
        ("Library/Application Support/Cursor/CachedData", "Cursor cached data"),
        ("Library/Application Support/Signal/Cache", "Signal cache"),
        ("Library/Application Support/Signal/Code Cache", "Signal code cache"),
        ("Library/Application Support/Signal/GPUCache", "Signal GPU cache"),
        ("Library/Application Support/obsidian/Cache", "Obsidian cache"),
        ("Library/Application Support/obsidian/Code Cache", "Obsidian code cache"),
        ("Library/Application Support/obsidian/GPUCache", "Obsidian GPU cache"),
        ("Library/Application Support/Notion/Cache", "Notion cache"),
        ("Library/Application Support/Notion/Code Cache", "Notion code cache"),
        ("Library/Application Support/Notion/GPUCache", "Notion GPU cache"),
        ("Library/Application Support/Spotify/PersistentCache", "Spotify persistent cache"),
        ("Library/Containers/com.microsoft.teams2/Data/Library/Caches", "Microsoft Teams cache"),
        ("Library/Application Support/zoom.us/AutoUpdater", "Zoom update installers")
    ];
    assert(targets@ == macos_app_targets());
    push_relative_global_roots(roots, base, kind, &targets);
}

pub open spec fn windows_app_targets() -> Seq<(&'static str, &'static str)> {
    seq![
        ("D3DSCache", "Windows DirectX compiled shader cache files")
    ]
}

fn push_windows_app_targets(roots: &mut Vec<GlobalScanRoot>, base: &str, kind: GlobalScanKind)
    ensures
        root_views(final(roots)@) == root_views(old(roots)@) + relative_roots(base@, kind, windows_app_targets()),
{
    let targets: [(&'static str, &'static str); 1] = [
        ("D3DSCache", "Windows DirectX compiled shader cache files")
    ];
    assert(targets@ == windows_app_targets());
    push_relative_global_roots(roots, base, kind, &targets);
}

pub open spec fn macos_log_targets() -> Seq<(&'static str, &'static str)> {
    seq![
        ("Library/Logs", "macOS user logs"),
        ("Library/DiagnosticReports", "Legacy macOS diagnostic reports")
    ]
}

fn push_macos_log_targets(roots: &mut Vec<GlobalScanRoot>, base: &str, kind: GlobalScanKind)
    ensures
        root_views(final(roots)@) == root_views(old(roots)@) + relative_roots(base@, kind, macos_log_targets()),
{
    let targets: [(&'static str, &'static str); 2] = [
        ("Library/Logs", "macOS user logs"),
        ("Library/DiagnosticReports", "Legacy macOS diagnostic reports")
    ];
    assert(targets@ == macos_log_targets());
    push_relative_global_roots(roots, base, kind, &targets);
}

pub open spec fn linux_log_targets() -> Seq<(&'static str, &'static str)> {
    seq![
        (".local/state", "User state and logs")
    ]
}

fn push_linux_log_targets(roots: &mut Vec<GlobalScanRoot>, base: &str, kind: GlobalScanKind)
    ensures
        root_views(final(roots)@) == root_views(old(roots)@) + relative_roots(base@, kind, linux_log_targets()),
{
    let targets: [(&'static str, &'static str); 1] = [
        (".local/state", "User state and logs")
    ];
    assert(targets@ == linux_log_targets());
    push_relative_global_roots(roots, base, kind, &targets);
}

// ---------------------------------------------------------------- candidates by kind

/// The roots below an optional base directory; none where the base is unknown.
pub open spec fn below(base: Option<String>, kind: GlobalScanKind, targets: Seq<(&'static str, &'static str)>) -> Seq<RootView> {
    match base {
        Some(b) => relative_roots(b@, kind, targets),
        None => Seq::empty(),
    }
}

/// Developer caches: shared ones below the home and cache directories, and the platform's own.
pub open spec fn developer_candidates(env: GlobalScanEnvironment, platform: Option<RulePlatform>) -> Seq<RootView> {
    let kind = GlobalScanKind::DeveloperCaches;
    below(env.home_dir, kind, home_developer_targets())
        + (if platform == Some(RulePlatform::Macos) { below(env.home_dir, kind, macos_developer_targets()) } else { Seq::empty() })
        + below(env.cache_dir, kind, cache_developer_targets())
        + (if platform == Some(RulePlatform::Windows) { below(env.data_local_dir, kind, windows_developer_targets()) } else { Seq::empty() })
}

/// Browser caches of the platform.
pub open spec fn browser_candidates(env: GlobalScanEnvironment, platform: Option<RulePlatform>) -> Seq<RootView> {
    let kind = GlobalScanKind::BrowserCaches;
    if platform == Some(RulePlatform::Macos) {
        below(env.home_dir, kind, macos_browser_targets())
    } else if platform == Some(RulePlatform::Linux) {
        below(env.home_dir, kind, linux_browser_targets())
    } else if platform == Some(RulePlatform::Windows) {
        below(env.data_local_dir, kind, windows_browser_targets())
    } else {
        Seq::empty()
    }
}

/// Application caches: the cache directory itself except on Windows, and the platform's own.
pub open spec fn app_candidates(env: GlobalScanEnvironment, platform: Option<RulePlatform>) -> Seq<RootView> {
    let kind = GlobalScanKind::AppCaches;
    (if platform != Some(RulePlatform::Windows) {
        match env.cache_dir {
            Some(c) => seq![(c@, kind, "Application caches"@)],
            None => Seq::empty(),
        }
    } else {
        Seq::empty()
    }) + (if platform == Some(RulePlatform::Macos) {
        below(env.home_dir, kind, macos_app_targets())
    } else if platform == Some(RulePlatform::Windows) {
        below(env.data_local_dir, kind, windows_app_targets())
    } else {
        Seq::empty()
    })
}

/// User logs of the platform.
pub open spec fn log_candidates(env: GlobalScanEnvironment, platform: Option<RulePlatform>) -> Seq<RootView> {
    let kind = GlobalScanKind::Logs;
    if platform == Some(RulePlatform::Macos) {
        below(env.home_dir, kind, macos_log_targets())
    } else if platform == Some(RulePlatform::Linux) {
        below(env.home_dir, kind, linux_log_targets())
    } else {
        Seq::empty()
    }
}

/// The temporary directory.
pub open spec fn temp_candidates(env: GlobalScanEnvironment) -> Seq<RootView> {
    match env.temp_dir {
        Some(t) => seq![(t@, GlobalScanKind::TempFiles, "User temporary files"@)],
        None => Seq::empty(),
    }
}

/// The download directory, or `Downloads` in the home directory.
pub open spec fn download_candidates(env: GlobalScanEnvironment) -> Seq<RootView> {
    match env.download_dir {
        Some(d) => seq![(d@, GlobalScanKind::Downloads, "Downloads"@)],
        None => match env.home_dir {
            Some(h) => seq![(joined(h@, "Downloads"@), GlobalScanKind::Downloads, "Downloads"@)],
            None => Seq::empty(),
        },
    }
}

/// The built-in places a global scan of `kinds` looks at, kind by kind in declared order.
pub open spec fn builtin_candidates(kinds: Seq<GlobalScanKind>, env: GlobalScanEnvironment, platform: Option<RulePlatform>) -> Seq<RootView> {
    (if kinds.contains(GlobalScanKind::DeveloperCaches) { developer_candidates(env, platform) } else { Seq::empty() })
        + (if kinds.contains(GlobalScanKind::BrowserCaches) { browser_candidates(env, platform) } else { Seq::empty() })
        + (if kinds.contains(GlobalScanKind::AppCaches) { app_candidates(env, platform) } else { Seq::empty() })
        + (if kinds.contains(GlobalScanKind::TempFiles) { temp_candidates(env) } else { Seq::empty() })
        + (if kinds.contains(GlobalScanKind::Logs) { log_candidates(env, platform) } else { Seq::empty() })
        + (if kinds.contains(GlobalScanKind::Downloads) { download_candidates(env) } else { Seq::empty() })
}

fn push_below(roots: &mut Vec<GlobalScanRoot>, base: &Option<String>, kind: GlobalScanKind, table: u8)
    requires
        table < 11,
    ensures
        root_views(final(roots)@) == root_views(old(roots)@) + below(*base, kind, table_of(table)),
{
    match base {
        Some(b) => {
            let b = b.as_str();
            if table == 0 {
                push_home_developer_targets(roots, b, kind);
            } else if table == 1 {
                push_macos_developer_targets(roots, b, kind);
            } else if table == 2 {
                push_cache_developer_targets(roots, b, kind);
            } else if table == 3 {
                push_windows_developer_targets(roots, b, kind);
            } else if table == 4 {
                push_macos_browser_targets(roots, b, kind);
            } else if table == 5 {
                push_linux_browser_targets(roots, b, kind);
            } else if table == 6 {
                push_windows_browser_targets(roots, b, kind);
            } else if table == 7 {
                push_macos_app_targets(roots, b, kind);
            } else if table == 8 {
                push_windows_app_targets(roots, b, kind);
            } else if table == 9 {
                push_macos_log_targets(roots, b, kind);
            } else {
                push_linux_log_targets(roots, b, kind);
            }
        },
        None => {
            assert(root_views(roots@) + Seq::<RootView>::empty() =~= root_views(roots@));
        },
    }
}

/// The tables of relative locations, by number.
pub open spec fn table_of(table: u8) -> Seq<(&'static str, &'static str)> {
    if table == 0 {
        home_developer_targets()
    } else if table == 1 {
        macos_developer_targets()
    } else if table == 2 {
        cache_developer_targets()
    } else if table == 3 {
        windows_developer_targets()
    } else if table == 4 {
        macos_browser_targets()
    } else if table == 5 {
        linux_browser_targets()
    } else if table == 6 {
        windows_browser_targets()
    } else if table == 7 {
        macos_app_targets()
    } else if table == 8 {
        windows_app_targets()
    } else if table == 9 {
        macos_log_targets()
    } else {
        linux_log_targets()
    }
}

fn push_developer_cache_roots(env: &GlobalScanEnvironment, platform: Option<RulePlatform>, roots: &mut Vec<GlobalScanRoot>)
    ensures
        root_views(final(roots)@) == root_views(old(roots)@) + developer_candidates(*env, platform),
{
    let ghost start = root_views(roots@);
    let kind = GlobalScanKind::DeveloperCaches;
    push_below(roots, &env.home_dir, kind, 0);
    let ghost a = root_views(roots@);
    let mac = match platform {
        Some(RulePlatform::Macos) => true,
        _ => false,
    };
    if mac {
        push_below(roots, &env.home_dir, kind, 1);
    }
    let ghost b = root_views(roots@);
    push_below(roots, &env.cache_dir, kind, 2);
    let ghost c = root_views(roots@);
    let windows = match platform {
        Some(RulePlatform::Windows) => true,
        _ => false,
    };
    if windows {
        push_below(roots, &env.data_local_dir, kind, 3);
    }
    assert(root_views(roots@) =~= start + developer_candidates(*env, platform));
}

fn push_browser_cache_roots(env: &GlobalScanEnvironment, platform: Option<RulePlatform>, roots: &mut Vec<GlobalScanRoot>)
    ensures
        root_views(final(roots)@) == root_views(old(roots)@) + browser_candidates(*env, platform),
{
    let kind = GlobalScanKind::BrowserCaches;
    match platform {
        Some(RulePlatform::Macos) => push_below(roots, &env.home_dir, kind, 4),
        Some(RulePlatform::Linux) => push_below(roots, &env.home_dir, kind, 5),
        Some(RulePlatform::Windows) => push_below(roots, &env.data_local_dir, kind, 6),
        None => {
            assert(root_views(roots@) + Seq::<RootView>::empty() =~= root_views(roots@));
        },
    }
}

fn push_app_cache_roots(env: &GlobalScanEnvironment, platform: Option<RulePlatform>, roots: &mut Vec<GlobalScanRoot>)
    ensures
        root_views(final(roots)@) == root_views(old(roots)@) + app_candidates(*env, platform),
{
    let ghost start = root_views(roots@);
    let kind = GlobalScanKind::AppCaches;
    let windows = match platform {
        Some(RulePlatform::Windows) => true,
        _ => false,
    };
    if !windows {
        if let Some(cache) = &env.cache_dir {
            push_global_root(roots, cache.as_str(), kind, "Application caches");
        }
    }
    let ghost first = root_views(roots@);
    match platform {
        Some(RulePlatform::Macos) => push_below(roots, &env.home_dir, kind, 7),
        Some(RulePlatform::Windows) => push_below(roots, &env.data_local_dir, kind, 8),
        _ => {},
    }
    assert(root_views(roots@) =~= start + app_candidates(*env, platform));
}

fn push_log_roots(env: &GlobalScanEnvironment, platform: Option<RulePlatform>, roots: &mut Vec<GlobalScanRoot>)
    ensures
        root_views(final(roots)@) == root_views(old(roots)@) + log_candidates(*env, platform),
{
    let kind = GlobalScanKind::Logs;
    match platform {
        Some(RulePlatform::Macos) => push_below(roots, &env.home_dir, kind, 9),
        Some(RulePlatform::Linux) => push_below(roots, &env.home_dir, kind, 10),
        _ => {
            assert(root_views(roots@) + Seq::<RootView>::empty() =~= root_views(roots@));
        },
    }
}

/// Whether `kinds` holds `kind`.
fn wants(kinds: &[GlobalScanKind], kind: GlobalScanKind) -> (res: bool)
    ensures
        res == kinds@.contains(kind),
{
    let mut i: usize = 0;
    while i < kinds.len()
        invariant
            i <= kinds@.len(),
            forall|k: int| 0 <= k < i ==> kinds@[k] != kind,
        decreases kinds.len() - i,
    {
        if kinds[i] == kind {
            assert(kinds@[i as int] == kind);
            return true;
        }
        i = i + 1;
    }
    false
}

/// The built-in places a global scan of `kinds` looks at on `platform`, before any is checked
/// on disk.
pub fn builtin_global_candidates(kinds: &[GlobalScanKind], env: &GlobalScanEnvironment, platform: Option<RulePlatform>) -> (res: Vec<GlobalScanRoot>)
    ensures
        root_views(res@) == builtin_candidates(kinds@, *env, platform),
{
    let mut roots: Vec<GlobalScanRoot> = Vec::new();
    let ghost e = Seq::<RootView>::empty();
    assert(root_views(roots@) =~= e);
    let ghost s0 = root_views(roots@);
    if wants(kinds, GlobalScanKind::DeveloperCaches) {
        push_developer_cache_roots(env, platform, &mut roots);
    }
    let ghost s1 = root_views(roots@);
    if wants(kinds, GlobalScanKind::BrowserCaches) {
        push_browser_cache_roots(env, platform, &mut roots);
    }
    let ghost s2 = root_views(roots@);
    if wants(kinds, GlobalScanKind::AppCaches) {
        push_app_cache_roots(env, platform, &mut roots);
    }
    let ghost s3 = root_views(roots@);
    if wants(kinds, GlobalScanKind::TempFiles) {
        if let Some(temp) = &env.temp_dir {
            push_global_root(&mut roots, temp.as_str(), GlobalScanKind::TempFiles, "User temporary files");
        }
    }
    let ghost s4 = root_views(roots@);
    if wants(kinds, GlobalScanKind::Logs) {
        push_log_roots(env, platform, &mut roots);
    }
    let ghost s5 = root_views(roots@);
    if wants(kinds, GlobalScanKind::Downloads) {
        match &env.download_dir {
            Some(d) => push_global_root(&mut roots, d.as_str(), GlobalScanKind::Downloads, "Downloads"),
            None => {
                if let Some(home) = &env.home_dir {
                    let path = join_path(home.as_str(), "Downloads");
                    push_global_root(&mut roots, path.as_str(), GlobalScanKind::Downloads, "Downloads");
                }
            },
        }
    }
    assert(root_views(roots@) =~= builtin_candidates(kinds@, *env, platform));
    roots
}


// ---------------------------------------------------------------- found locations

/// A global root may be scanned unless it is the filesystem root, the home directory or the data
/// directory itself.
pub open spec fn allows_global_root(path: Seq<char>, env: GlobalScanEnvironment) -> bool {
    &&& !is_filesystem_root(path)
    &&& (env.home_dir matches Some(h) ==> !same_path(h@, path))
    &&& (env.data_dir matches Some(d) ==> !same_path(d@, path))
}

/// Whether the global root `path` may be scanned.
pub fn allows_global_root_exec(path: &str, env: &GlobalScanEnvironment) -> (res: bool)
    ensures
        res == allows_global_root(path@, *env),
{
    if filesystem_root(path) {
        return false;
    }
    if let Some(home) = &env.home_dir {
        if paths_equal(home.as_str(), path) {
            return false;
        }
    }
    if let Some(data) = &env.data_dir {
        if paths_equal(data.as_str(), path) {
            return false;
        }
    }
    true
}

/// Component sequences ordered strictly.
pub open spec fn comps_lt(a: Seq<Seq<char>>, b: Seq<Seq<char>>) -> bool {
    comps_le(a, b) && a != b
}

/// Roots ordered by depth, then path, then kind, then label.
pub open spec fn root_le() -> spec_fn(GlobalScanRoot, GlobalScanRoot) -> bool {
    |a: GlobalScanRoot, b: GlobalScanRoot| {
        let ca = components(a.path@);
        let cb = components(b.path@);
        ca.len() < cb.len() || (ca.len() == cb.len() && (comps_lt(ca, cb) || (ca == cb && (global_kind_rank(a.kind) < global_kind_rank(b.kind)
            || (a.kind == b.kind && chars_le(a.label@, b.label@))))))
    }
}

/// Roots with the same path, kind and label.
pub open spec fn root_same() -> spec_fn(GlobalScanRoot, GlobalScanRoot) -> bool {
    |a: GlobalScanRoot, b: GlobalScanRoot| same_path(a.path@, b.path@) && a.kind == b.kind && a.label@ == b.label@
}

proof fn lemma_rank_injective(a: GlobalScanKind, b: GlobalScanKind)
    ensures
        global_kind_rank(a) == global_kind_rank(b) ==> a == b,
{
}

proof fn lemma_comps_lt_facts(a: Seq<Seq<char>>, b: Seq<Seq<char>>, c: Seq<Seq<char>>)
    ensures
        comps_lt(a, b) || comps_lt(b, a) || a == b,
        !(comps_lt(a, b) && comps_lt(b, a)),
        comps_lt(a, b) && comps_lt(b, c) ==> comps_lt(a, c),
        comps_lt(a, b) && b == c ==> comps_lt(a, c),
        a == b && comps_lt(b, c) ==> comps_lt(a, c),
{
    crate::path::lemma_comps_le_total(a, b);
    if comps_le(a, b) && comps_le(b, a) {
        crate::path::lemma_comps_le_antisymmetric(a, b);
    }
    if comps_lt(a, b) && comps_lt(b, c) {
        crate::path::lemma_comps_le_transitive(a, b, c);
        if a == c {
            crate::path::lemma_comps_le_antisymmetric(a, b);
        }
    }
}

proof fn lemma_root_le_preorder()
    ensures
        total_preorder(root_le()),
{
    let le = root_le();
    assert forall|a: GlobalScanRoot, b: GlobalScanRoot| #[trigger] le(a, b) || le(b, a) by {
        let ca = components(a.path@);
        let cb = components(b.path@);
        lemma_comps_lt_facts(ca, cb, cb);
        lemma_rank_injective(a.kind, b.kind);
        crate::path::lemma_chars_le_total(a.label@, b.label@);
    }
    assert forall|a: GlobalScanRoot, b: GlobalScanRoot, c: GlobalScanRoot| #[trigger] le(a, b) && #[trigger] le(b, c) implies le(a, c) by {
        let ca = components(a.path@);
        let cb = components(b.path@);
        let cc = components(c.path@);
        lemma_comps_lt_facts(ca, cb, cc);
        lemma_rank_injective(a.kind, b.kind);
        lemma_rank_injective(b.kind, c.kind);
        if chars_le(a.label@, b.label@) && chars_le(b.label@, c.label@) {
            crate::path::lemma_chars_le_transitive(a.label@, b.label@, c.label@);
        }
    }
}

fn root_le_exec(a: &GlobalScanRoot, b: &GlobalScanRoot) -> (res: bool)
    ensures
        res == root_le()(*a, *b),
{
    let da = path_depth(a.path.as_str());
    let db = path_depth(b.path.as_str());
    if da != db {
        return da < db;
    }
    if !paths_equal(a.path.as_str(), b.path.as_str()) {
        return path_le_exec(a.path.as_str(), b.path.as_str());
    }
    let ra = global_kind_rank_exec(a.kind);
    let rb = global_kind_rank_exec(b.kind);
    if ra != rb {
        proof {
            lemma_rank_injective(a.kind, b.kind);
        }
        return ra < rb;
    }
    proof {
        lemma_rank_injective(a.kind, b.kind);
    }
    let la = crate::text::chars_of(a.label.as_str());
    let lb = crate::text::chars_of(b.label.as_str());
    crate::path::chars_le_exec(&la, &lb)
}

fn root_same_exec(a: &GlobalScanRoot, b: &GlobalScanRoot) -> (res: bool)
    ensures
        res == root_same()(*a, *b),
{
    paths_equal(a.path.as_str(), b.path.as_str()) && a.kind == b.kind && crate::text::str_eq(a.label.as_str(), b.label.as_str())
}

/// The roots of `roots` that may be scanned, in order.
pub open spec fn allowed_roots(roots: Seq<GlobalScanRoot>, env: GlobalScanEnvironment) -> Seq<GlobalScanRoot>
    decreases roots.len(),
{
    if roots.len() == 0 {
        Seq::empty()
    } else {
        let prev = allowed_roots(roots.drop_last(), env);
        if allows_global_root(roots.last().path@, env) {
            prev.push(roots.last())
        } else {
            prev
        }
    }
}

/// `kept` is the roots of `roots` that may be scanned, ordered by depth, path, kind and label,
/// each once.
pub open spec fn normalized_locations(roots: Seq<GlobalScanRoot>, env: GlobalScanEnvironment, kept: Seq<GlobalScanRoot>) -> bool {
    exists|sorted: Seq<GlobalScanRoot>|
        #![trigger dedup_spec(sorted, root_same())]
        sorted.to_multiset() == allowed_roots(roots, env).to_multiset() && sorted_by_le(sorted, root_le())
            && kept == dedup_spec(sorted, root_same())
}

/// Order found locations and drop those that may not be scanned and repeats. The paths are
/// taken as the caller resolved them on disk.
pub fn normalize_global_locations(roots: Vec<GlobalScanRoot>, env: &GlobalScanEnvironment) -> (res: Vec<GlobalScanRoot>)
    ensures
        normalized_locations(roots@, *env, res@),
        sorted_by_le(res@, root_le()),
{
    let ghost input = roots@;
    let n = roots.len();
    let mut allowed: Vec<GlobalScanRoot> = Vec::new();
    let mut rest = into_reversed_roots(roots);
    let mut i: usize = 0;
    while rest.len() > 0
        invariant
            i + rest@.len() == input.len(),
            input.len() == n,
            rest@ == input.skip(i as int).reverse(),
            allowed@ == allowed_roots(input.take(i as int), *env),
        decreases rest.len(),
    {
        let root = rest.pop().unwrap();
        assert(root == input[i as int]) by {
            assert(input.skip(i as int).reverse().last() == input.skip(i as int)[0]);
        }
        assert(rest@ =~= input.skip(i + 1).reverse());
        assert(input.take(i + 1).drop_last() =~= input.take(i as int));
        if allows_global_root_exec(root.path.as_str(), env) {
            allowed.push(root);
        }
        i = i + 1;
    }
    assert(input.take(input.len() as int) =~= input);
    proof {
        lemma_root_le_preorder();
    }
    let ghost before_sort = allowed@;
    let sorted = sort_by_le(allowed, root_le_exec, Ghost(root_le()));
    proof {
        before_sort.to_multiset_ensures();
        sorted@.to_multiset_ensures();
    }
    let res = dedup_by_eq(sorted, root_same_exec, Ghost(root_same()));
    proof {
        crate::sort::lemma_dedup_sorted(sorted@, root_le(), root_same());
    }
    res
}

/// The elements of `v` in reverse order.
fn into_reversed_roots(v: Vec<GlobalScanRoot>) -> (res: Vec<GlobalScanRoot>)
    ensures
        res@ == v@.reverse(),
{
    let ghost original = v@;
    let mut rest = v;
    let mut res: Vec<GlobalScanRoot> = Vec::new();
    while rest.len() > 0
        invariant
            rest@ + res@.reverse() == original,
        decreases rest.len(),
    {
        let ghost before = rest@;
        let ghost res_before = res@;
        let x = rest.pop().unwrap();
        res.push(x);
        proof {
            assert(before == rest@.push(x));
            assert(res@.reverse() =~= seq![x] + res_before.reverse());
            assert(rest@ + res@.reverse() =~= before + res_before.reverse());
        }
    }
    assert(res@.reverse() =~= original);
    assert(res@ =~= res@.reverse().reverse());
    res
}

/// The roots of `roots`, in order, that lie neither at nor below an earlier kept one.
pub open spec fn outermost(roots: Seq<GlobalScanRoot>) -> Seq<GlobalScanRoot>
    decreases roots.len(),
{
    if roots.len() == 0 {
        Seq::empty()
    } else {
        let prev = outermost(roots.drop_last());
        if exists|k: int| 0 <= k < prev.len() && path_starts_with(roots.last().path@, (#[trigger] prev[k]).path@) {
            prev
        } else {
            prev.push(roots.last())
        }
    }
}

/// The places a global scan starts from: the normalized locations, without those inside an
/// earlier one.
pub fn normalize_global_roots(roots: Vec<GlobalScanRoot>, env: &GlobalScanEnvironment) -> (res: Vec<GlobalScanRoot>)
    ensures
        exists|normalized: Seq<GlobalScanRoot>| normalized_locations(roots@, *env, normalized) && res@ == outermost(normalized),
{
    let normalized = normalize_global_locations(roots, env);
    let ghost all = normalized@;
    let n = normalized.len();
    let mut kept: Vec<GlobalScanRoot> = Vec::new();
    let mut rest = into_reversed_roots(normalized);
    let mut i: usize = 0;
    while rest.len() > 0
        invariant
            i + rest@.len() == all.len(),
            all.len() == n,
            rest@ == all.skip(i as int).reverse(),
            kept@ == outermost(all.take(i as int)),
        decreases rest.len(),
    {
        let root = rest.pop().unwrap();
        assert(root == all[i as int]) by {
            assert(all.skip(i as int).reverse().last() == all.skip(i as int)[0]);
        }
        assert(rest@ =~= all.skip(i + 1).reverse());
        assert(all.take(i + 1).drop_last() =~= all.take(i as int));
        let mut inside = false;
        let mut k: usize = 0;
        while k < kept.len()
            invariant
                k <= kept@.len(),
                inside == exists|q: int| 0 <= q < k && path_starts_with(root.path@, (#[trigger] kept@[q]).path@),
            decreases kept.len() - k,
        {
            if starts_with(root.path.as_str(), kept[k].path.as_str()) {
                inside = true;
            }
            k = k + 1;
        }
        if !inside {
            kept.push(root);
        }
        i = i + 1;
    }
    assert(all.take(all.len() as int) =~= all);
    kept
}

/// The base directory of a scan location, where the environment has one.
pub open spec fn base_dir(env: GlobalScanEnvironment, base: ScanLocationBase) -> Option<String> {
    match base {
        ScanLocationBase::Home => env.home_dir,
        ScanLocationBase::Cache => env.cache_dir,
        ScanLocationBase::DataLocal => env.data_local_dir,
        ScanLocationBase::Data => env.data_dir,
        ScanLocationBase::Temp => env.temp_dir,
        ScanLocationBase::Downloads => env.download_dir,
    }
}

/// A definition contributes to a global scan of `kinds` on `platform` when it is to be scanned,
/// is of a wanted kind and names the platform.
pub open spec fn definition_applies(d: ScanLocationDefinition, kinds: Seq<GlobalScanKind>, platform: Option<RulePlatform>) -> bool {
    d.mode == ScanLocationMode::Scan && kinds.contains(d.kind) && (platform matches Some(p) && d.platforms@.contains(p))
}

/// Whether definition `d` contributes to a global scan of `kinds` on `platform`.
pub fn definition_applies_exec(d: &ScanLocationDefinition, kinds: &[GlobalScanKind], platform: Option<RulePlatform>) -> (res: bool)
    ensures
        res == definition_applies(*d, kinds@, platform),
{
    let scan = match d.mode {
        ScanLocationMode::Scan => true,
        ScanLocationMode::OsManaged => false,
    };
    if !scan || !wants(kinds, d.kind) {
        return false;
    }
    match platform {
        Some(p) => {
            let mut k: usize = 0;
            while k < d.platforms.len()
                invariant
                    k <= d.platforms@.len(),
                    platform == Some(p),
                    d.mode == ScanLocationMode::Scan,
                    kinds@.contains(d.kind),
                    forall|m: int| 0 <= m < k ==> d.platforms@[m] != p,
                decreases d.platforms.len() - k,
            {
                if d.platforms[k] == p {
                    assert(d.platforms@.contains(p));
                    return true;
                }
                k = k + 1;
            }
            false
        },
        None => false,
    }
}

/// Where definition `d` points: its relative path below its base directory, or the base itself.
pub open spec fn definition_anchor(d: ScanLocationDefinition, env: GlobalScanEnvironment) -> Option<Seq<char>> {
    match base_dir(env, d.base) {
        Some(b) => Some(if d.relative_path@.len() == 0 { b@ } else { joined(b@, d.relative_path@) }),
        None => None,
    }
}

/// Where definition `d` points, where the environment has its base directory.
pub fn definition_anchor_path(d: &ScanLocationDefinition, env: &GlobalScanEnvironment) -> (res: Option<String>)
    ensures
        match definition_anchor(*d, *env) {
            Some(a) => res matches Some(s) && s@ == a,
            None => res is None,
        },
{
    let base = match d.base {
        ScanLocationBase::Home => &env.home_dir,
        ScanLocationBase::Cache => &env.cache_dir,
        ScanLocationBase::DataLocal => &env.data_local_dir,
        ScanLocationBase::Data => &env.data_dir,
        ScanLocationBase::Temp => &env.temp_dir,
        ScanLocationBase::Downloads => &env.download_dir,
    };
    match base {
        Some(b) => {
            if crate::text::chars_of(d.relative_path.as_str()).len() == 0 {
                Some(b.clone())
            } else {
                Some(join_path(b.as_str(), d.relative_path.as_str()))
            }
        },
        None => None,
    }
}


// ---------------------------------------------------------------- locations inside scan roots

/// `path` lies at or below one of `roots`.
pub open spec fn within_some(path: Seq<char>, roots: Seq<Seq<char>>) -> bool {
    exists|k: int| 0 <= k < roots.len() && path_starts_with(path, #[trigger] roots[k])
}

/// The locations of `locations`, in order, that lie at or below one of `roots`.
pub open spec fn locations_within(locations: Seq<GlobalScanRoot>, roots: Seq<Seq<char>>) -> Seq<GlobalScanRoot>
    decreases locations.len(),
{
    if locations.len() == 0 {
        Seq::empty()
    } else {
        let prev = locations_within(locations.drop_last(), roots);
        if within_some(locations.last().path@, roots) {
            prev.push(locations.last())
        } else {
            prev
        }
    }
}

/// The paths of global roots.
pub open spec fn root_paths(v: Seq<GlobalScanRoot>) -> Seq<Seq<char>> {
    Seq::new(v.len(), |i: int| v[i].path@)
}

/// Whether `path` lies at or below one of `roots`.
fn within_any(path: &str, roots: &[GlobalScanRoot]) -> (res: bool)
    ensures
        res == within_some(path@, root_paths(roots@)),
{
    let mut k: usize = 0;
    while k < roots.len()
        invariant
            k <= roots@.len(),
            forall|q: int| 0 <= q < k ==> !path_starts_with(path@, #[trigger] root_paths(roots@)[q]),
        decreases roots.len() - k,
    {
        assert(root_paths(roots@)[k as int] == roots@[k as int].path@);
        if starts_with(path, roots[k].path.as_str()) {
            return true;
        }
        k = k + 1;
    }
    false
}

/// The located places that lie inside the scan roots: the evidence of what a global scan covered.
pub fn global_locations_within(locations: Vec<GlobalScanRoot>, roots: &[GlobalScanRoot]) -> (res: Vec<GlobalScanRoot>)
    ensures
        res@ == locations_within(locations@, root_paths(roots@)),
{
    let ghost input = locations@;
    let n = locations.len();
    let mut kept: Vec<GlobalScanRoot> = Vec::new();
    let mut rest = into_reversed_roots(locations);
    let mut i: usize = 0;
    while rest.len() > 0
        invariant
            i + rest@.len() == input.len(),
            input.len() == n,
            rest@ == input.skip(i as int).reverse(),
            kept@ == locations_within(input.take(i as int), root_paths(roots@)),
        decreases rest.len(),
    {
        let location = rest.pop().unwrap();
        assert(location == input[i as int]) by {
            assert(input.skip(i as int).reverse().last() == input.skip(i as int)[0]);
        }
        assert(rest@ =~= input.skip(i + 1).reverse());
        assert(input.take(i + 1).drop_last() =~= input.take(i as int));
        if within_any(location.path.as_str(), roots) {
            kept.push(location);
        }
        i = i + 1;
    }
    assert(input.take(input.len() as int) =~= input);
    kept
}

/// Some glob of `globs` matches the name `name`.
pub open spec fn globs_match(globs: Seq<String>, name: Seq<char>) -> bool {
    exists|g: int| 0 <= g < globs.len() && name_glob_match((#[trigger] globs[g])@, name)
}

/// The first glob of `globs` that does not build, if any.
pub open spec fn first_bad_glob(globs: Seq<String>) -> Option<int>
    decreases globs.len(),
{
    if globs.len() == 0 {
        None
    } else {
        match first_bad_glob(globs.drop_last()) {
            Some(g) => Some(g),
            None => if name_glob_valid(globs.last()@) { None } else { Some(globs.len() - 1) },
        }
    }
}

/// The names, in listing order, of the children that are directories (and not links) and that
/// some glob of `globs` matches.
pub open spec fn expansion_children_of(children: Seq<(String, bool)>, globs: Seq<String>) -> Seq<Seq<char>>
    decreases children.len(),
{
    if children.len() == 0 {
        Seq::empty()
    } else {
        let rest = expansion_children_of(children.drop_last(), globs);
        let (name, is_dir) = children.last();
        if is_dir && globs_match(globs, name@) {
            rest.push(name@)
        } else {
            rest
        }
    }
}

/// The children of an expansion's anchor that it expands into: given each child's name and
/// whether it is a directory that is no symbolic link, in listing order, those that some glob
/// of `child_globs` matches. Where a glob does not build, the first such glob is the error.
pub fn expansion_children(children: &[(String, bool)], child_globs: &[String]) -> (res: Result<Vec<String>, String>)
    ensures
        match first_bad_glob(child_globs@) {
            Some(g) => res matches Err(p) && p@ == child_globs@[g]@,
            None => res matches Ok(v) && v@.map_values(|s: String| s@) == expansion_children_of(children@, child_globs@),
        },
{
    let mut g: usize = 0;
    while g < child_globs.len()
        invariant
            g <= child_globs@.len(),
            first_bad_glob(child_globs@.take(g as int)) is None,
            forall|k: int| 0 <= k < g ==> name_glob_valid((#[trigger] child_globs@[k])@),
        decreases child_globs.len() - g,
    {
        proof {
            assert(child_globs@.take(g + 1).drop_last() =~= child_globs@.take(g as int));
        }
        if !name_glob_parses(child_globs[g].as_str()) {
            proof {
                lemma_first_bad_glob_prefix(child_globs@, g + 1);
            }
            return Err(child_globs[g].clone());
        }
        g = g + 1;
    }
    assert(child_globs@.take(g as int) =~= child_globs@);
    let mut names: Vec<String> = Vec::new();
    let mut i: usize = 0;
    assert(children@.take(0) =~= Seq::<(String, bool)>::empty());
    while i < children.len()
        invariant
            i <= children@.len(),
            forall|k: int| 0 <= k < child_globs@.len() ==> name_glob_valid((#[trigger] child_globs@[k])@),
            names@.map_values(|s: String| s@) == expansion_children_of(children@.take(i as int), child_globs@),
        decreases children.len() - i,
    {
        proof {
            assert(children@.take(i + 1).drop_last() =~= children@.take(i as int));
            assert(children@.take(i + 1).last() == children@[i as int]);
        }
        if children[i].1 {
            let name = children[i].0.as_str();
            let mut matched = false;
            let mut g: usize = 0;
            while g < child_globs.len()
                invariant
                    g <= child_globs@.len(),
                    forall|k: int| 0 <= k < child_globs@.len() ==> name_glob_valid((#[trigger] child_globs@[k])@),
                    matched == exists|k: int| 0 <= k < g && name_glob_match((#[trigger] child_globs@[k])@, name@),
                decreases child_globs.len() - g,
            {
                if name_glob_is_match(child_globs[g].as_str(), name) {
                    matched = true;
                }
                g = g + 1;
            }
            if matched {
                let ghost before = names@;
                names.push(children[i].0.clone());
                proof {
                    assert(names@.map_values(|s: String| s@) =~= before.map_values(|s: String| s@).push(children@[i as int].0@));
                }
            }
        }
        i = i + 1;
    }
    assert(children@.take(i as int) =~= children@);
    Ok(names)
}

/// Once a prefix of `globs` has a glob that does not build, `globs` has the same first one.
proof fn lemma_first_bad_glob_prefix(globs: Seq<String>, k: int)
    requires
        0 <= k <= globs.len(),
        first_bad_glob(globs.take(k)) is Some,
    ensures
        first_bad_glob(globs) == first_bad_glob(globs.take(k)),
    decreases globs.len() - k,
{
    if k < globs.len() {
        assert(globs.take(k + 1).drop_last() =~= globs.take(k));
        lemma_first_bad_glob_prefix(globs, k + 1);
    } else {
        assert(globs.take(k) =~= globs);
    }
}

/// The leaves an expansion found, sorted by path and each once, kept to `max_matches`; and
/// whether some had to be dropped.
pub fn select_expansion_leaves(leaves: Vec<String>, max_matches: u16) -> (res: (Vec<String>, bool))
    ensures
        exists|all: Seq<String>| {
            &&& #[trigger] sorted_unique_paths_of(leaves@, all)
            &&& res.1 == (all.len() > max_matches)
            &&& res.0@ == if all.len() > max_matches { all.take(max_matches as int) } else { all }
        },
{
    let mut all = sort_and_dedup_paths(leaves);
    let ghost whole = all@;
    let limit = max_matches as usize;
    if all.len() > limit {
        all.truncate(limit);
        (all, true)
    } else {
        (all, false)
    }
}

// ---------------------------------------------------------------- evidence of global coverage

/// A location the operating system manages, reported but never scanned.
#[derive(Debug, PartialEq, Eq)]
pub struct GlobalManagedLocationEvidence {
    pub id: String,
    pub kind: GlobalScanKind,
    pub label: String,
}

impl Clone for GlobalManagedLocationEvidence {
    fn clone(&self) -> (res: Self)
        ensures
            res == *self,
    {
        GlobalManagedLocationEvidence { id: self.id.clone(), kind: self.kind, label: self.label.clone() }
    }
}

/// A located place that a completed scan root covered.
#[derive(Debug, Clone, PartialEq, Eq)]
pub struct GlobalScanLocationEvidence {
    pub kind: GlobalScanKind,
    pub label: String,
    pub local_path: String,
    pub scan_root: String,
}

/// What a global scan covered: the kinds asked for, the places found inside completed roots, and
/// the places the operating system manages.
#[derive(Debug, Clone, PartialEq, Eq)]
pub struct GlobalScanEvidence {
    pub requested_kinds: Vec<GlobalScanKind>,
    pub locations: Vec<GlobalScanLocationEvidence>,
    pub os_managed: Vec<GlobalManagedLocationEvidence>,
}

/// Managed locations ordered by kind, then id.
pub open spec fn managed_le() -> spec_fn(GlobalManagedLocationEvidence, GlobalManagedLocationEvidence) -> bool {
    |a: GlobalManagedLocationEvidence, b: GlobalManagedLocationEvidence| global_kind_rank(a.kind) < global_kind_rank(b.kind)
        || (a.kind == b.kind && chars_le(a.id@, b.id@))
}

proof fn lemma_managed_le_preorder()
    ensures
        total_preorder(managed_le()),
{
    let le = managed_le();
    assert forall|a: GlobalManagedLocationEvidence, b: GlobalManagedLocationEvidence| #[trigger] le(a, b) || le(b, a) by {
        lemma_rank_injective(a.kind, b.kind);
        crate::path::lemma_chars_le_total(a.id@, b.id@);
    }
    assert forall|a: GlobalManagedLocationEvidence, b: GlobalManagedLocationEvidence, c: GlobalManagedLocationEvidence|
        #[trigger] le(a, b) && #[trigger] le(b, c) implies le(a, c) by {
        lemma_rank_injective(a.kind, b.kind);
        lemma_rank_injective(b.kind, c.kind);
        if chars_le(a.id@, b.id@) && chars_le(b.id@, c.id@) {
            crate::path::lemma_chars_le_transitive(a.id@, b.id@, c.id@);
        }
    }
}

fn managed_le_exec(a: &GlobalManagedLocationEvidence, b: &GlobalManagedLocationEvidence) -> (res: bool)
    ensures
        res == managed_le()(*a, *b),
{
    let ra = global_kind_rank_exec(a.kind);
    let rb = global_kind_rank_exec(b.kind);
    proof {
        lemma_rank_injective(a.kind, b.kind);
    }
    if ra != rb {
        return ra < rb;
    }
    let ia = crate::text::chars_of(a.id.as_str());
    let ib = crate::text::chars_of(b.id.as_str());
    crate::path::chars_le_exec(&ia, &ib)
}

/// A definition names a place the operating system manages for a scan of `kinds` on `platform`.
pub open spec fn managed_applies(d: ScanLocationDefinition, kinds: Seq<GlobalScanKind>, platform: Option<RulePlatform>) -> bool {
    d.mode == ScanLocationMode::OsManaged && kinds.contains(d.kind) && (platform matches Some(p) && d.platforms@.contains(p))
}

/// The managed locations of the first `n` definitions, in order.
pub open spec fn managed_of(definitions: Seq<ScanLocationDefinition>, kinds: Seq<GlobalScanKind>, platform: Option<RulePlatform>, n: int) -> Seq<(Seq<char>, GlobalScanKind, Seq<char>)>
    decreases n,
{
    if n <= 0 {
        Seq::empty()
    } else {
        let prev = managed_of(definitions, kinds, platform, n - 1);
        let d = definitions[n - 1];
        if managed_applies(d, kinds, platform) {
            prev.push((d.id@, d.kind, d.label@))
        } else {
            prev
        }
    }
}

pub open spec fn managed_view(m: GlobalManagedLocationEvidence) -> (Seq<char>, GlobalScanKind, Seq<char>) {
    (m.id@, m.kind, m.label@)
}

pub open spec fn managed_views(v: Seq<GlobalManagedLocationEvidence>) -> Seq<(Seq<char>, GlobalScanKind, Seq<char>)> {
    Seq::new(v.len(), |i: int| managed_view(v[i]))
}

/// The places the operating system manages among `definitions` for a scan of `kinds` on
/// `platform`, ordered by kind and id.
pub fn managed_locations(definitions: &[ScanLocationDefinition], kinds: &[GlobalScanKind], platform: Option<RulePlatform>) -> (res: Vec<GlobalManagedLocationEvidence>)
    ensures
        managed_views(res@).to_multiset() == managed_of(definitions@, kinds@, platform, definitions@.len() as int).to_multiset(),
        sorted_by_le(res@, managed_le()),
{
    let mut found: Vec<GlobalManagedLocationEvidence> = Vec::new();
    let mut i: usize = 0;
    while i < definitions.len()
        invariant
            i <= definitions@.len(),
            managed_views(found@) == managed_of(definitions@, kinds@, platform, i as int),
        decreases definitions.len() - i,
    {
        let d = &definitions[i];
        let managed = match d.mode {
            ScanLocationMode::OsManaged => true,
            ScanLocationMode::Scan => false,
        };
        let applies = managed && wants(kinds, d.kind) && match platform {
            Some(p) => platform_listed(&d.platforms, p),
            None => false,
        };
        if applies {
            let ghost before = found@;
            found.push(GlobalManagedLocationEvidence { id: d.id.clone(), kind: d.kind, label: d.label.clone() });
            assert(managed_views(found@) =~= managed_views(before).push((d.id@, d.kind, d.label@)));
        }
        i = i + 1;
    }
    proof {
        lemma_managed_le_preorder();
    }
    let ghost before_sort = found@;
    let sorted = sort_by_le(found, managed_le_exec, Ghost(managed_le()));
    proof {
        crate::recommend::lemma_multiset_map(before_sort, sorted@, |m: GlobalManagedLocationEvidence| managed_view(m));
        assert(managed_views(before_sort) =~= before_sort.map_values(|m: GlobalManagedLocationEvidence| managed_view(m)));
        assert(managed_views(sorted@) =~= sorted@.map_values(|m: GlobalManagedLocationEvidence| managed_view(m)));
    }
    sorted
}

/// Whether `platforms` lists `p`.
fn platform_listed(platforms: &Vec<RulePlatform>, p: RulePlatform) -> (res: bool)
    ensures
        res == platforms@.contains(p),
{
    let mut k: usize = 0;
    while k < platforms.len()
        invariant
            k <= platforms@.len(),
            forall|m: int| 0 <= m < k ==> platforms@[m] != p,
        decreases platforms.len() - k,
    {
        if platforms[k] == p {
            assert(platforms@[k as int] == p);
            return true;
        }
        k = k + 1;
    }
    false
}


/// What a scan resolved before it walked: the roots to walk, the global roots among them, the
/// located global places, and the places the operating system manages.
#[derive(Debug, PartialEq, Eq)]
pub struct ResolvedScanRoots {
    pub roots: Vec<String>,
    pub global_roots: Vec<GlobalScanRoot>,
    pub global_locations: Vec<GlobalScanRoot>,
    pub os_managed: Vec<GlobalManagedLocationEvidence>,
    /// Fail-closed discovery evidence produced before recursive traversal begins.
    pub issues: Vec<ScanIssue>,
}

impl Default for ResolvedScanRoots {
    fn default() -> (res: Self)
        ensures
            res.roots@.len() == 0 && res.global_roots@.len() == 0 && res.global_locations@.len() == 0
                && res.os_managed@.len() == 0 && res.issues@.len() == 0,
    {
        ResolvedScanRoots {
            roots: Vec::new(),
            global_roots: Vec::new(),
            global_locations: Vec::new(),
            os_managed: Vec::new(),
            issues: Vec::new(),
        }
    }
}

/// The first of `roots`, from index `k` on, that `path` lies at or below.
pub open spec fn covering_from(path: Seq<char>, roots: Seq<String>, k: int) -> Option<String>
    decreases roots.len() - k,
{
    if k < 0 || k >= roots.len() {
        None
    } else if path_starts_with(path, roots[k]@) {
        Some(roots[k])
    } else {
        covering_from(path, roots, k + 1)
    }
}

/// The first completed root that `path` lies at or below.
fn covering_root(path: &str, roots: &[String]) -> (res: Option<String>)
    ensures
        res == covering_from(path@, roots@, 0),
{
    let mut k: usize = 0;
    while k < roots.len()
        invariant
            k <= roots@.len(),
            covering_from(path@, roots@, 0) == covering_from(path@, roots@, k as int),
        decreases roots.len() - k,
    {
        if starts_with(path, roots[k].as_str()) {
            return Some(roots[k].clone());
        }
        k = k + 1;
    }
    None
}

/// The evidence for each of `locations`, in order, that a completed root covers.
pub open spec fn location_evidence_of(locations: Seq<GlobalScanRoot>, roots: Seq<String>) -> Seq<GlobalScanLocationEvidence>
    decreases locations.len(),
{
    if locations.len() == 0 {
        Seq::empty()
    } else {
        let prev = location_evidence_of(locations.drop_last(), roots);
        let l = locations.last();
        match covering_from(l.path@, roots, 0) {
            Some(r) => prev.push(GlobalScanLocationEvidence { kind: l.kind, label: l.label, local_path: l.path, scan_root: r }),
            None => prev,
        }
    }
}

/// Location evidence ordered by kind, label, local path, then scan root.
pub open spec fn evidence_le() -> spec_fn(GlobalScanLocationEvidence, GlobalScanLocationEvidence) -> bool {
    |a: GlobalScanLocationEvidence, b: GlobalScanLocationEvidence| {
        let la = components(a.local_path@);
        let lb = components(b.local_path@);
        global_kind_rank(a.kind) < global_kind_rank(b.kind) || (a.kind == b.kind && ((chars_le(a.label@, b.label@)
            && a.label@ != b.label@) || (a.label@ == b.label@ && (comps_lt(la, lb) || (la == lb
            && comps_le(components(a.scan_root@), components(b.scan_root@)))))))
    }
}

proof fn lemma_evidence_le_preorder()
    ensures
        total_preorder(evidence_le()),
{
    let le = evidence_le();
    assert forall|a: GlobalScanLocationEvidence, b: GlobalScanLocationEvidence| #[trigger] le(a, b) || le(b, a) by {
        lemma_rank_injective(a.kind, b.kind);
        crate::path::lemma_chars_le_total(a.label@, b.label@);
        lemma_comps_lt_facts(components(a.local_path@), components(b.local_path@), components(b.local_path@));
        crate::path::lemma_comps_le_total(components(a.scan_root@), components(b.scan_root@));
    }
    assert forall|a: GlobalScanLocationEvidence, b: GlobalScanLocationEvidence, c: GlobalScanLocationEvidence|
        #[trigger] le(a, b) && #[trigger] le(b, c) implies le(a, c) by {
        lemma_rank_injective(a.kind, b.kind);
        lemma_rank_injective(b.kind, c.kind);
        crate::path::lemma_chars_le_total(a.label@, b.label@);
        crate::path::lemma_chars_le_total(b.label@, c.label@);
        crate::path::lemma_chars_le_total(a.label@, c.label@);
        if chars_le(a.label@, b.label@) && chars_le(b.label@, c.label@) {
            crate::path::lemma_chars_le_transitive(a.label@, b.label@, c.label@);
        }
        lemma_comps_lt_facts(components(a.local_path@), components(b.local_path@), components(c.local_path@));
        if comps_le(components(a.scan_root@), components(b.scan_root@)) && comps_le(components(b.scan_root@), components(c.scan_root@)) {
            crate::path::lemma_comps_le_transitive(components(a.scan_root@), components(b.scan_root@), components(c.scan_root@));
        }
    }
}

fn evidence_le_exec(a: &GlobalScanLocationEvidence, b: &GlobalScanLocationEvidence) -> (res: bool)
    ensures
        res == evidence_le()(*a, *b),
{
    let ra = global_kind_rank_exec(a.kind);
    let rb = global_kind_rank_exec(b.kind);
    proof {
        lemma_rank_injective(a.kind, b.kind);
    }
    if ra != rb {
        return ra < rb;
    }
    if !crate::text::str_eq(a.label.as_str(), b.label.as_str()) {
        let la = crate::text::chars_of(a.label.as_str());
        let lb = crate::text::chars_of(b.label.as_str());
        return crate::path::chars_le_exec(&la, &lb);
    }
    if !paths_equal(a.local_path.as_str(), b.local_path.as_str()) {
        return path_le_exec(a.local_path.as_str(), b.local_path.as_str());
    }
    path_le_exec(a.scan_root.as_str(), b.scan_root.as_str())
}

/// The kinds a scan asked for: those of the request, or the configured ones where it names none.
pub open spec fn requested_kinds_of(request: ScanRequest, configured: Seq<GlobalScanKind>) -> Seq<GlobalScanKind> {
    if request.global_kinds@.len() == 0 {
        configured
    } else {
        request.global_kinds@
    }
}

fn copy_managed(v: &[GlobalManagedLocationEvidence]) -> (res: Vec<GlobalManagedLocationEvidence>)
    ensures
        res@ == v@,
{
    let mut res: Vec<GlobalManagedLocationEvidence> = Vec::new();
    let mut i: usize = 0;
    while i < v.len()
        invariant
            i <= v@.len(),
            res@ == v@.take(i as int),
        decreases v.len() - i,
    {
        res.push(v[i].clone());
        assert(v@.take(i + 1) =~= v@.take(i as int).push(v@[i as int]));
        i = i + 1;
    }
    assert(v@.take(v@.len() as int) =~= v@);
    res
}

fn copy_kinds(v: &[GlobalScanKind]) -> (res: Vec<GlobalScanKind>)
    ensures
        res@ == v@,
{
    let mut res: Vec<GlobalScanKind> = Vec::new();
    let mut i: usize = 0;
    while i < v.len()
        invariant
            i <= v@.len(),
            res@ == v@.take(i as int),
        decreases v.len() - i,
    {
        res.push(v[i]);
        assert(v@.take(i + 1) =~= v@.take(i as int).push(v@[i as int]));
        i = i + 1;
    }
    assert(v@.take(v@.len() as int) =~= v@);
    res
}

/// What a global scan covered. Without a global part the evidence is empty. Otherwise: the
/// kinds asked for (those of the request, or the configured ones where it names none), in
/// declared order and each once; each located place with the first completed root that covers
/// it, ordered by kind, label, place and root, places no completed root covers left out; and the
/// places the operating system manages, as resolved.
pub fn global_scan_evidence(
    request: &ScanRequest,
    configured_global_kinds: &[GlobalScanKind],
    resolved: &ResolvedScanRoots,
    completed_roots: &[String],
) -> (res: GlobalScanEvidence)
    ensures
        !request.include_global ==> res.requested_kinds@.len() == 0 && res.locations@.len() == 0
            && res.os_managed@.len() == 0,
        request.include_global ==> sorted_unique_kinds_of(requested_kinds_of(*request, configured_global_kinds@), res.requested_kinds@),
        request.include_global ==> res.locations@.to_multiset() == location_evidence_of(resolved.global_locations@, completed_roots@).to_multiset(),
        request.include_global ==> res.os_managed@ == resolved.os_managed@,
        sorted_by_le(res.locations@, evidence_le()),
{
    if !request.include_global {
        return GlobalScanEvidence { requested_kinds: Vec::new(), locations: Vec::new(), os_managed: Vec::new() };
    }
    let kinds = if request.global_kinds.len() == 0 {
        copy_kinds(configured_global_kinds)
    } else {
        copy_kinds(request.global_kinds.as_slice())
    };
    let requested_kinds = sorted_unique_kinds(kinds);
    let locations_in = &resolved.global_locations;
    let ghost input = locations_in@;
    let mut found: Vec<GlobalScanLocationEvidence> = Vec::new();
    let mut i: usize = 0;
    while i < locations_in.len()
        invariant
            i <= input.len(),
            input == locations_in@,
            found@ == location_evidence_of(input.take(i as int), completed_roots@),
        decreases locations_in.len() - i,
    {
        let l = &locations_in[i];
        assert(input.take(i + 1).drop_last() =~= input.take(i as int));
        match covering_root(l.path.as_str(), completed_roots) {
            Some(root) => {
                found.push(GlobalScanLocationEvidence {
                    kind: l.kind,
                    label: l.label.clone(),
                    local_path: l.path.clone(),
                    scan_root: root,
                });
            },
            None => {},
        }
        i = i + 1;
    }
    assert(input.take(input.len() as int) =~= input);
    proof {
        lemma_evidence_le_preorder();
    }
    let locations = sort_by_le(found, evidence_le_exec, Ghost(evidence_le()));
    GlobalScanEvidence { requested_kinds, locations, os_managed: copy_managed(resolved.os_managed.as_slice()) }
}

} // verus!
