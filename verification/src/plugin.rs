//! Plugin manifests, plugin indexes and the checks that keep installed plugin files safe.
use vstd::prelude::*;
use vstd::string::StringSliceAdditionalSpecFns;

use crate::path::{components, path_components, texts, cur_dir_component, root_component};
use crate::text::{
    blank, chars_of, concat, contains_text, is_ascii_alphanumeric, is_ascii_hexdigit, is_blank,
    lower_all, str_eq, string_from_chars, ascii_alphanumeric, ascii_hexdigit, to_ascii_lowercase,
    contains_chars, decimal, decimal_text,
};

verus! {

pub const PLUGIN_API_VERSION: &'static str = "1";

pub const PLUGIN_INDEX_SCHEMA_VERSION: u32 = 1;

pub const INSTALLED_PLUGIN_METADATA_FILE: &'static str = ".cleanr-plugin.json";

/// The largest plugin index that is downloaded.
pub const MAX_PLUGIN_INDEX_BYTES: u64 = 2097152;

/// The largest plugin file that is installed.
pub const MAX_PLUGIN_FILE_BYTES: u64 = 4194304;

// ---------------------------------------------------------------- semantic versions

/// `text` is a semantic version that the `semver` crate accepts.
pub uninterp spec fn is_semver(text: Seq<char>) -> bool;

/// `text` is a version requirement that the `semver` crate accepts.
pub uninterp spec fn is_semver_req(text: Seq<char>) -> bool;

/// Whether the requirement `req` matches the version `version`, as the `semver` crate decides.
pub uninterp spec fn semver_req_matches(req: Seq<char>, version: Seq<char>) -> bool;

/// Whether the version `a` is greater than the version `b` in the order of `semver::Version`:
/// major, minor and patch, then pre-release, then build metadata.
pub uninterp spec fn semver_greater(a: Seq<char>, b: Seq<char>) -> bool;

/// The canonical text of the semantic version `text`.
pub uninterp spec fn semver_text(text: Seq<char>) -> Seq<char>;

/// Whether `semver::Version::parse` accepts `text`.
#[verifier::external_body]
pub(crate) fn version_parses(text: &str) -> (res: bool)
    ensures
        res == is_semver(text@),
{
    semver::Version::parse(text).is_ok()
}

/// Whether `semver::VersionReq::parse` accepts `text`.
#[verifier::external_body]
fn requirement_parses(text: &str) -> (res: bool)
    ensures
        res == is_semver_req(text@),
{
    semver::VersionReq::parse(text).is_ok()
}

/// `semver::VersionReq::matches` of the parsed requirement and version.
#[verifier::external_body]
fn requirement_matches(req: &str, version: &str) -> (res: bool)
    requires
        is_semver_req(req@),
        is_semver(version@),
    ensures
        res == semver_req_matches(req@, version@),
{
    match (semver::VersionReq::parse(req), semver::Version::parse(version)) {
        (Ok(r), Ok(v)) => r.matches(&v),
        _ => false,
    }
}

/// The `>` of `semver::Version` on the parsed versions.
#[verifier::external_body]
pub(crate) fn version_greater(a: &str, b: &str) -> (res: bool)
    requires
        is_semver(a@),
        is_semver(b@),
    ensures
        res == semver_greater(a@, b@),
{
    match (semver::Version::parse(a), semver::Version::parse(b)) {
        (Ok(x), Ok(y)) => x > y,
        _ => false,
    }
}

/// The `Display` text of the parsed `semver::Version`.
#[verifier::external_body]
pub(crate) fn version_text(text: &str) -> (res: String)
    requires
        is_semver(text@),
    ensures
        res@ == semver_text(text@),
{
    match semver::Version::parse(text) {
        Ok(v) => v.to_string(),
        Err(_) => String::new(),
    }
}

// ---------------------------------------------------------------- errors

/// Why a plugin manifest, index or file is refused.
#[derive(Debug, PartialEq, Eq)]
pub enum PluginError {
    UnsupportedApiVersion { id: String, found: String },
    InvalidId,
    EmptyName { id: String },
    InvalidVersion { id: String },
    NoCapabilities { id: String },
    MissingDynamicHooks { id: String },
    UnexpectedDynamicHooks { id: String },
    EmptyHookCommand { id: String },
    HookTimeout { id: String },
    InvalidRequirement { id: String },
    InvalidHostVersion,
    IncompatibleHost { id: String, requirement: String, host: String },
    UnsupportedIndexSchema { version: u32 },
    DuplicateIndexId { id: String },
    NoFiles { id: String },
    MissingManifestFile { id: String },
    AbsoluteFilePath { path: String },
    UnsupportedFileComponent { path: String },
    EmptyFilePath,
    DuplicateFile { id: String, path: String },
    EmptyFileUrl { id: String, path: String },
    FileTooLarge { id: String, path: String },
    InvalidFileHash { id: String, path: String },
    FileSizeMismatch { path: String, expected: u64, actual: u64 },
    FileHashMismatch { path: String, expected: String, actual: String },
    InvalidGithubRepo,
    InvalidGithubRef,
    UnsupportedPathComponent,
}

fn join3(a: &str, b: &str, c: &str) -> (res: String)
    ensures
        res@ == a@ + b@ + c@,
{
    let ab = concat(a, b);
    concat(ab.as_str(), c)
}

/// The message for a refused plugin, index or file.
pub open spec fn plugin_error_text(e: PluginError) -> Seq<char> {
    match e {
        PluginError::UnsupportedApiVersion { id, found } => "plugin "@ + id@ + " requires API version "@ + found@ + "; supported version is 1"@,
        PluginError::InvalidId => "plugin id must be a single normal path component containing only ASCII letters, digits, '.', '-' or '_' and be at most 128 characters"@,
        PluginError::EmptyName { id } => "plugin "@ + id@ + " has an empty name"@,
        PluginError::InvalidVersion { id } => "plugin "@ + id@ + " has an invalid semantic version"@,
        PluginError::NoCapabilities { id } => "plugin "@ + id@ + " declares no capabilities"@,
        PluginError::MissingDynamicHooks { id } => "plugin "@ + id@ + " declares dynamic-candidates but has no dynamic candidate hooks"@,
        PluginError::UnexpectedDynamicHooks { id } => "plugin "@ + id@ + " declares dynamic candidate hooks without dynamic-candidates capability"@,
        PluginError::EmptyHookCommand { id } => "plugin "@ + id@ + " has a hook with an empty command"@,
        PluginError::HookTimeout { id } => "plugin "@ + id@ + " hook timeout_ms must be between 1 and 30000"@,
        PluginError::InvalidRequirement { id } => "plugin "@ + id@ + " has an invalid cleanr_version requirement"@,
        PluginError::InvalidHostVersion => "host cleanr version is invalid"@,
        PluginError::IncompatibleHost { id, requirement, host } => "plugin "@ + id@ + " requires cleanr "@ + requirement@ + "; current version is "@ + host@,
        PluginError::UnsupportedIndexSchema { version } => "plugin index schema version "@ + decimal_text(version as nat) + " is not supported"@,
        PluginError::DuplicateIndexId { id } => "plugin index contains duplicate plugin id "@ + id@,
        PluginError::NoFiles { id } => "plugin "@ + id@ + " has no files"@,
        PluginError::MissingManifestFile { id } => "plugin "@ + id@ + " must include plugin.toml"@,
        PluginError::AbsoluteFilePath { path } => "plugin file path must be relative: "@ + path@,
        PluginError::UnsupportedFileComponent { path } => "plugin file path contains unsupported component: "@ + path@,
        PluginError::EmptyFilePath => "plugin file path cannot be empty"@,
        PluginError::DuplicateFile { id, path } => "plugin "@ + id@ + " contains duplicate file "@ + path@,
        PluginError::EmptyFileUrl { id, path } => "plugin "@ + id@ + " file "@ + path@ + " has an empty URL"@,
        PluginError::FileTooLarge { id, path } => "plugin "@ + id@ + " file "@ + path@ + " exceeds the 4194304 byte limit"@,
        PluginError::InvalidFileHash { id, path } => "plugin "@ + id@ + " file "@ + path@ + " has an invalid SHA-256"@,
        PluginError::FileSizeMismatch { path, expected, actual } => "plugin file "@ + path@ + " size mismatch: expected "@ + decimal_text(expected as nat) + ", got "@ + decimal_text(actual as nat),
        PluginError::FileHashMismatch { path, expected, actual } => "plugin file "@ + path@ + " SHA-256 mismatch: expected "@ + expected@ + ", got "@ + actual@,
        PluginError::InvalidGithubRepo => "GitHub repo must be in owner/name form"@,
        PluginError::InvalidGithubRef => "GitHub reference contains unsupported characters"@,
        PluginError::UnsupportedPathComponent => "plugin path contains unsupported component"@,
    }
}

impl PluginError {
    /// The message shown to the user.
    pub fn message(&self) -> (res: String)
        ensures
            res@ == plugin_error_text(*self),
    {
        match self {
            PluginError::UnsupportedApiVersion { id, found } => {
                let head = join3("plugin ", id.as_str(), " requires API version ");
                join3(head.as_str(), found.as_str(), "; supported version is 1")
            },
            PluginError::InvalidId => "plugin id must be a single normal path component containing only ASCII letters, digits, '.', '-' or '_' and be at most 128 characters".to_owned(),
            PluginError::EmptyName { id } => join3("plugin ", id.as_str(), " has an empty name"),
            PluginError::InvalidVersion { id } => join3("plugin ", id.as_str(), " has an invalid semantic version"),
            PluginError::NoCapabilities { id } => join3("plugin ", id.as_str(), " declares no capabilities"),
            PluginError::MissingDynamicHooks { id } => join3("plugin ", id.as_str(), " declares dynamic-candidates but has no dynamic candidate hooks"),
            PluginError::UnexpectedDynamicHooks { id } => join3("plugin ", id.as_str(), " declares dynamic candidate hooks without dynamic-candidates capability"),
            PluginError::EmptyHookCommand { id } => join3("plugin ", id.as_str(), " has a hook with an empty command"),
            PluginError::HookTimeout { id } => join3("plugin ", id.as_str(), " hook timeout_ms must be between 1 and 30000"),
            PluginError::InvalidRequirement { id } => join3("plugin ", id.as_str(), " has an invalid cleanr_version requirement"),
            PluginError::InvalidHostVersion => "host cleanr version is invalid".to_owned(),
            PluginError::IncompatibleHost { id, requirement, host } => {
                let head = join3("plugin ", id.as_str(), " requires cleanr ");
                let middle = join3(head.as_str(), requirement.as_str(), "; current version is ");
                concat(middle.as_str(), host.as_str())
            },
            PluginError::UnsupportedIndexSchema { version } => {
                join3("plugin index schema version ", decimal(*version as u64).as_str(), " is not supported")
            },
            PluginError::DuplicateIndexId { id } => concat("plugin index contains duplicate plugin id ", id.as_str()),
            PluginError::NoFiles { id } => join3("plugin ", id.as_str(), " has no files"),
            PluginError::MissingManifestFile { id } => join3("plugin ", id.as_str(), " must include plugin.toml"),
            PluginError::AbsoluteFilePath { path } => concat("plugin file path must be relative: ", path.as_str()),
            PluginError::UnsupportedFileComponent { path } => concat("plugin file path contains unsupported component: ", path.as_str()),
            PluginError::EmptyFilePath => "plugin file path cannot be empty".to_owned(),
            PluginError::DuplicateFile { id, path } => {
                let head = join3("plugin ", id.as_str(), " contains duplicate file ");
                concat(head.as_str(), path.as_str())
            },
            PluginError::EmptyFileUrl { id, path } => {
                let head = join3("plugin ", id.as_str(), " file ");
                join3(head.as_str(), path.as_str(), " has an empty URL")
            },
            PluginError::FileTooLarge { id, path } => {
                let head = join3("plugin ", id.as_str(), " file ");
                join3(head.as_str(), path.as_str(), " exceeds the 4194304 byte limit")
            },
            PluginError::InvalidFileHash { id, path } => {
                let head = join3("plugin ", id.as_str(), " file ");
                join3(head.as_str(), path.as_str(), " has an invalid SHA-256")
            },
            PluginError::FileSizeMismatch { path, expected, actual } => {
                let head = join3("plugin file ", path.as_str(), " size mismatch: expected ");
                let middle = join3(head.as_str(), decimal(*expected).as_str(), ", got ");
                concat(middle.as_str(), decimal(*actual).as_str())
            },
            PluginError::FileHashMismatch { path, expected, actual } => {
                let head = join3("plugin file ", path.as_str(), " SHA-256 mismatch: expected ");
                let middle = join3(head.as_str(), expected.as_str(), ", got ");
                concat(middle.as_str(), actual.as_str())
            },
            PluginError::InvalidGithubRepo => "GitHub repo must be in owner/name form".to_owned(),
            PluginError::InvalidGithubRef => "GitHub reference contains unsupported characters".to_owned(),
            PluginError::UnsupportedPathComponent => "plugin path contains unsupported component".to_owned(),
        }
    }
}

// ---------------------------------------------------------------- plugin identity

/// What a plugin provides.
#[derive(Debug, Clone, Copy, PartialEq, Eq, Structural, PartialOrd, Ord)]
pub enum PluginCapability {
    Rules,
    Translations,
    DynamicCandidates,
}

/// How far a plugin is trusted.
#[derive(Debug, Clone, Copy, PartialEq, Eq, Structural, PartialOrd, Ord)]
pub enum TrustLevel {
    Builtin,
    Trusted,
    Untrusted,
}

impl Default for TrustLevel {
    fn default() -> (res: Self)
        ensures
            res == TrustLevel::Untrusted,
    {
        TrustLevel::Untrusted
    }
}

/// Where a plugin came from.
#[derive(Debug, Clone, PartialEq, Eq)]
pub enum PluginSource {
    Builtin,
    Bundle(String),
    LegacyFile(String),
}

impl PluginSource {
    /// The plugin's location on disk, where it has one.
    pub fn path(&self) -> (res: Option<&str>)
        ensures
            match self {
                PluginSource::Builtin => res is None,
                PluginSource::Bundle(p) => res matches Some(r) && r@ == p@,
                PluginSource::LegacyFile(p) => res matches Some(r) && r@ == p@,
            },
    {
        match self {
            PluginSource::Builtin => None,
            PluginSource::Bundle(path) => Some(path.as_str()),
            PluginSource::LegacyFile(path) => Some(path.as_str()),
        }
    }

    /// A short name for the kind of source.
    pub fn label(&self) -> (res: &'static str)
        ensures
            res@ == match self {
                PluginSource::Builtin => "builtin"@,
                PluginSource::Bundle(_) => "bundle"@,
                PluginSource::LegacyFile(_) => "legacy-file"@,
            },
    {
        proof {
            reveal_strlit("builtin");
            reveal_strlit("bundle");
            reveal_strlit("legacy-file");
        }
        match self {
            PluginSource::Builtin => "builtin",
            PluginSource::Bundle(_) => "bundle",
            PluginSource::LegacyFile(_) => "legacy-file",
        }
    }
}

/// A byte allowed in a plugin identifier: an ASCII letter or digit, `.`, `-` or `_`.
pub open spec fn id_byte(b: u8) -> bool {
    (48 <= b <= 57) || (65 <= b <= 90) || (97 <= b <= 122) || b == 46 || b == 45 || b == 95
}

/// A plugin identifier is one to 128 bytes of letters, digits, `.`, `-` and `_`, and names a
/// single normal path component: neither `.` nor `..`.
pub open spec fn plugin_id_valid(id: Seq<char>) -> bool {
    let b = vstd::utf8::encode_utf8(id);
    &&& 0 < b.len() <= 128
    &&& forall|i: int| 0 <= i < b.len() ==> id_byte(#[trigger] b[i])
    &&& id != "."@
    &&& id != ".."@
}

fn id_byte_exec(b: u8) -> (res: bool)
    ensures
        res == id_byte(b),
{
    (48 <= b && b <= 57) || (65 <= b && b <= 90) || (97 <= b && b <= 122) || b == 46 || b == 45 || b == 95
}

/// Check a plugin identifier.
pub fn validate_plugin_id(id: &str) -> (res: Result<(), PluginError>)
    ensures
        res is Ok <==> plugin_id_valid(id@),
        res is Err ==> res == Err::<(), PluginError>(PluginError::InvalidId),
{
    let bytes = id.as_bytes();
    if bytes.len() == 0 || bytes.len() > 128 {
        return Err(PluginError::InvalidId);
    }
    let mut i: usize = 0;
    while i < bytes.len()
        invariant
            i <= bytes@.len(),
            bytes@ == id.spec_bytes(),
            forall|k: int| 0 <= k < i ==> id_byte(#[trigger] bytes@[k]),
        decreases bytes.len() - i,
    {
        if !id_byte_exec(bytes[i]) {
            return Err(PluginError::InvalidId);
        }
        i = i + 1;
    }
    if str_eq(id, ".") || str_eq(id, "..") {
        return Err(PluginError::InvalidId);
    }
    Ok(())
}

// ---------------------------------------------------------------- manifests

#[derive(Debug, Clone, PartialEq, Eq)]
pub struct PluginHookCommand {
    pub command: String,
    pub args: Vec<String>,
    pub timeout_ms: Option<u64>,
}

#[derive(Debug, Clone, PartialEq, Eq)]
pub struct PluginHooks {
    pub dynamic_candidates: Vec<PluginHookCommand>,
}

impl Default for PluginHooks {
    fn default() -> (res: Self)
        ensures
            res.dynamic_candidates@.len() == 0,
    {
        PluginHooks { dynamic_candidates: Vec::new() }
    }
}

/// A hook is refused when its command is blank or its timeout is outside 1..=30000 ms.
pub open spec fn hook_error(hook: PluginHookCommand, id: String) -> Option<PluginError> {
    if is_blank(hook.command@) {
        Some(PluginError::EmptyHookCommand { id })
    } else if hook.timeout_ms matches Some(t) && (t == 0 || t > 30000) {
        Some(PluginError::HookTimeout { id })
    } else {
        None
    }
}

/// The first refused hook's error.
pub open spec fn hooks_error(hooks: Seq<PluginHookCommand>, id: String) -> Option<PluginError>
    decreases hooks.len(),
{
    if hooks.len() == 0 {
        None
    } else if hooks_error(hooks.drop_last(), id) is Some {
        hooks_error(hooks.drop_last(), id)
    } else {
        hook_error(hooks.last(), id)
    }
}

impl PluginHookCommand {
    fn validate(&self, plugin_id: &String) -> (res: Result<(), PluginError>)
        ensures
            match hook_error(*self, *plugin_id) {
                Some(e) => res == Err::<(), PluginError>(e),
                None => res is Ok,
            },
    {
        if blank(self.command.as_str()) {
            return Err(PluginError::EmptyHookCommand { id: plugin_id.clone() });
        }
        match self.timeout_ms {
            Some(t) => {
                if t == 0 || t > 30000 {
                    return Err(PluginError::HookTimeout { id: plugin_id.clone() });
                }
            },
            None => {},
        }
        Ok(())
    }
}

impl PluginHooks {
    fn validate(&self, plugin_id: &String) -> (res: Result<(), PluginError>)
        ensures
            match hooks_error(self.dynamic_candidates@, *plugin_id) {
                Some(e) => res == Err::<(), PluginError>(e),
                None => res is Ok,
            },
    {
        let hooks = &self.dynamic_candidates;
        let mut i: usize = 0;
        while i < hooks.len()
            invariant
                i <= hooks@.len(),
                hooks@ == self.dynamic_candidates@,
                hooks_error(hooks@.take(i as int), *plugin_id) is None,
            decreases hooks.len() - i,
        {
            proof {
                assert(hooks@.take(i + 1).drop_last() =~= hooks@.take(i as int));
            }
            match hooks[i].validate(plugin_id) {
                Ok(()) => {
                    assert(hooks@.take(i + 1).last() == hooks@[i as int]);
                },
                Err(e) => {
                    proof {
                        assert(hooks@.take(i + 1).last() == hooks@[i as int]);
                        assert(hooks_error(hooks@.take(i + 1), *plugin_id) == hook_error(hooks@[i as int], *plugin_id));
                        assert(hook_error(hooks@[i as int], *plugin_id) == Some(e));
                        lemma_hooks_error_prefix(hooks@, *plugin_id, i + 1);
                        assert(hooks_error(hooks@, *plugin_id) == Some(e));
                    }
                    return Err(e);
                },
            }
            i = i + 1;
        }
        assert(hooks@.take(hooks@.len() as int) =~= hooks@);
        Ok(())
    }
}

proof fn lemma_hooks_error_prefix(hooks: Seq<PluginHookCommand>, id: String, k: int)
    requires
        0 <= k <= hooks.len(),
        hooks_error(hooks.take(k), id) is Some,
    ensures
        hooks_error(hooks, id) == hooks_error(hooks.take(k), id),
    decreases hooks.len() - k,
{
    if k < hooks.len() {
        assert(hooks.take(k + 1).drop_last() =~= hooks.take(k));
        lemma_hooks_error_prefix(hooks, id, k + 1);
    } else {
        assert(hooks.take(k) =~= hooks);
    }
}

#[derive(Debug, Clone, PartialEq, Eq)]
pub struct PluginManifest {
    pub api_version: String,
    pub id: String,
    pub name: String,
    pub version: String,
    pub description: String,
    pub cleanr_version: Option<String>,
    /// The declared capabilities; a set, in declared order.
    pub capabilities: Vec<PluginCapability>,
    pub categories: Vec<String>,
    pub keywords: Vec<String>,
    pub homepage: Option<String>,
    pub repository: Option<String>,
    pub license: Option<String>,
    pub hooks: PluginHooks,
}

/// What checking a version requirement against the host version found.
#[derive(Debug, Clone, Copy, PartialEq, Eq, Structural)]
pub enum RequirementCheck {
    /// The requirement does not parse.
    InvalidRequirement,
    /// The host version does not parse.
    InvalidHost,
    /// The host version meets the requirement.
    Met,
    /// The host version does not meet the requirement.
    Unmet,
}

/// The outcome of checking `requirement` against `host`.
pub open spec fn requirement_check_of(requirement: Seq<char>, host: Seq<char>) -> RequirementCheck {
    if !is_semver_req(requirement) {
        RequirementCheck::InvalidRequirement
    } else if !is_semver(host) {
        RequirementCheck::InvalidHost
    } else if semver_req_matches(requirement, host) {
        RequirementCheck::Met
    } else {
        RequirementCheck::Unmet
    }
}

/// Check a version requirement against the host version.
pub fn check_requirement(requirement: &str, host: &str) -> (res: RequirementCheck)
    ensures
        res == requirement_check_of(requirement@, host@),
{
    if !requirement_parses(requirement) {
        RequirementCheck::InvalidRequirement
    } else if !version_parses(host) {
        RequirementCheck::InvalidHost
    } else if requirement_matches(requirement, host) {
        RequirementCheck::Met
    } else {
        RequirementCheck::Unmet
    }
}

/// The error that a manifest gets, given whether its version parses and what its requirement
/// check found (`None` without a requirement); checks are made in the order listed.
pub open spec fn manifest_error(
    m: PluginManifest,
    id_valid: bool,
    version_valid: bool,
    requirement: Option<RequirementCheck>,
    host: String,
) -> Option<PluginError> {
    let dynamic = m.capabilities@.contains(PluginCapability::DynamicCandidates);
    let has_hooks = m.hooks.dynamic_candidates@.len() > 0;
    if m.api_version@ != PLUGIN_API_VERSION@ {
        Some(PluginError::UnsupportedApiVersion { id: m.id, found: m.api_version })
    } else if !id_valid {
        Some(PluginError::InvalidId)
    } else if is_blank(m.name@) {
        Some(PluginError::EmptyName { id: m.id })
    } else if !version_valid {
        Some(PluginError::InvalidVersion { id: m.id })
    } else if m.capabilities@.len() == 0 {
        Some(PluginError::NoCapabilities { id: m.id })
    } else if dynamic && !has_hooks {
        Some(PluginError::MissingDynamicHooks { id: m.id })
    } else if !dynamic && has_hooks {
        Some(PluginError::UnexpectedDynamicHooks { id: m.id })
    } else if hooks_error(m.hooks.dynamic_candidates@, m.id) is Some {
        hooks_error(m.hooks.dynamic_candidates@, m.id)
    } else {
        match requirement {
            Some(RequirementCheck::InvalidRequirement) => Some(PluginError::InvalidRequirement { id: m.id }),
            Some(RequirementCheck::InvalidHost) => Some(PluginError::InvalidHostVersion),
            Some(RequirementCheck::Unmet) => Some(PluginError::IncompatibleHost { id: m.id, requirement: m.cleanr_version->0, host }),
            _ => None,
        }
    }
}

fn contains_capability(caps: &Vec<PluginCapability>, c: PluginCapability) -> (res: bool)
    ensures
        res == caps@.contains(c),
{
    let mut i: usize = 0;
    while i < caps.len()
        invariant
            i <= caps@.len(),
            forall|k: int| 0 <= k < i ==> caps@[k] != c,
        decreases caps.len() - i,
    {
        if caps[i] == c {
            return true;
        }
        i = i + 1;
    }
    false
}

impl PluginManifest {
    /// Check the manifest given the outcome of its semantic version checks against `host`.
    pub fn validate_checked(
        &self,
        version_valid: bool,
        requirement: Option<RequirementCheck>,
        host: &String,
    ) -> (res: Result<(), PluginError>)
        requires
            self.cleanr_version is None <==> requirement is None,
        ensures
            match manifest_error(*self, plugin_id_valid(self.id@), version_valid, requirement, *host) {
                Some(e) => res == Err::<(), PluginError>(e),
                None => res is Ok,
            },
    {
        proof {
            reveal_strlit("1");
        }
        if !str_eq(self.api_version.as_str(), PLUGIN_API_VERSION) {
            return Err(PluginError::UnsupportedApiVersion { id: self.id.clone(), found: self.api_version.clone() });
        }
        match validate_plugin_id(self.id.as_str()) {
            Ok(()) => {},
            Err(e) => {
                return Err(e);
            },
        }
        if blank(self.name.as_str()) {
            return Err(PluginError::EmptyName { id: self.id.clone() });
        }
        if !version_valid {
            return Err(PluginError::InvalidVersion { id: self.id.clone() });
        }
        if self.capabilities.len() == 0 {
            return Err(PluginError::NoCapabilities { id: self.id.clone() });
        }
        let dynamic = contains_capability(&self.capabilities, PluginCapability::DynamicCandidates);
        let has_hooks = self.hooks.dynamic_candidates.len() > 0;
        if dynamic && !has_hooks {
            return Err(PluginError::MissingDynamicHooks { id: self.id.clone() });
        }
        if !dynamic && has_hooks {
            return Err(PluginError::UnexpectedDynamicHooks { id: self.id.clone() });
        }
        match self.hooks.validate(&self.id) {
            Ok(()) => {},
            Err(e) => {
                return Err(e);
            },
        }
        match (&self.cleanr_version, requirement) {
            (Some(_), Some(RequirementCheck::InvalidRequirement)) => Err(PluginError::InvalidRequirement { id: self.id.clone() }),
            (Some(_), Some(RequirementCheck::InvalidHost)) => Err(PluginError::InvalidHostVersion),
            (Some(r), Some(RequirementCheck::Unmet)) => Err(PluginError::IncompatibleHost {
                id: self.id.clone(),
                requirement: r.clone(),
                host: host.clone(),
            }),
            _ => Ok(()),
        }
    }

    /// Check the manifest against the plugin API and the host version `host_version`.
    pub fn validate(&self, host_version: &str) -> (res: Result<(), PluginError>)
        ensures
            exists|host: String| #![trigger host@] host@ == host_version@ && match manifest_error(*self, plugin_id_valid(self.id@),
                is_semver(self.version@),
                match self.cleanr_version { Some(r) => Some(requirement_check_of(r@, host_version@)), None => None },
                host) {
                Some(e) => res == Err::<(), PluginError>(e),
                None => res is Ok,
            },
    {
        let version_valid = version_parses(self.version.as_str());
        let requirement = match &self.cleanr_version {
            Some(r) => Some(check_requirement(r.as_str(), host_version)),
            None => None,
        };
        let host = host_version.to_owned();
        self.validate_checked(version_valid, requirement, &host)
    }
}

// ---------------------------------------------------------------- indexes

#[derive(Debug, Clone, PartialEq, Eq)]
pub struct PluginIndexFile {
    pub path: String,
    pub url: String,
    pub sha256: String,
    pub size: u64,
}

#[derive(Debug, Clone, PartialEq, Eq)]
pub struct PluginIndexSource {
    pub kind: String,
    pub repo: Option<String>,
    pub path: Option<String>,
    pub url: Option<String>,
}

#[derive(Debug, Clone, PartialEq, Eq)]
pub struct PluginIndexEntry {
    pub id: String,
    pub name: String,
    pub version: String,
    pub description: String,
    pub cleanr_version: Option<String>,
    /// The declared capabilities; a set, in declared order.
    pub capabilities: Vec<PluginCapability>,
    pub categories: Vec<String>,
    pub keywords: Vec<String>,
    pub author: Option<String>,
    pub homepage: Option<String>,
    pub repository: Option<String>,
    pub license: Option<String>,
    pub source: Option<PluginIndexSource>,
    pub files: Vec<PluginIndexFile>,
}

#[derive(Debug, Clone, PartialEq, Eq)]
pub struct PluginIndex {
    pub schema_version: u32,
    pub plugins: Vec<PluginIndexEntry>,
}

#[derive(Debug, Clone, PartialEq, Eq)]
pub struct InstalledPlugin {
    pub id: String,
    pub version: String,
    pub index_url: String,
    pub files: Vec<PluginIndexFile>,
}

/// The components of a relative plugin file path joined by `/`.
pub open spec fn slash_joined(comps: Seq<Seq<char>>) -> Seq<char>
    decreases comps.len(),
{
    if comps.len() == 0 {
        Seq::empty()
    } else if comps.len() == 1 {
        comps[0]
    } else {
        slash_joined(comps.drop_last()) + seq!['/'] + comps.last()
    }
}

/// A component that may not stand in a plugin file path: `.` or `..`.
pub open spec fn special_component(c: Seq<char>) -> bool {
    c == cur_dir_component() || c == seq!['.', '.']
}

/// Why the plugin file path `p` is refused, if it is.
pub open spec fn file_path_error(p: String) -> Option<PluginError> {
    let comps = components(p@);
    if crate::path::is_absolute(p@) {
        Some(PluginError::AbsoluteFilePath { path: p })
    } else if exists|i: int| 0 <= i < comps.len() && special_component(#[trigger] comps[i]) {
        Some(PluginError::UnsupportedFileComponent { path: p })
    } else if comps.len() == 0 {
        Some(PluginError::EmptyFilePath)
    } else {
        None
    }
}

fn chars_eq_str(c: &Vec<char>, s: &str) -> (res: bool)
    ensures
        res == (c@ == s@),
{
    crate::text::chars_match(c, s)
}

/// The components `comps` joined by `/`.
pub(crate) fn join_with_slashes(comps: &Vec<Vec<char>>) -> (res: String)
    ensures
        res@ == slash_joined(texts(comps@)),
{
    let ghost cv = texts(comps@);
    let mut out: Vec<char> = Vec::new();
    let mut k: usize = 0;
    while k < comps.len()
        invariant
            k <= comps@.len(),
            cv == texts(comps@),
            out@ == slash_joined(cv.take(k as int)),
        decreases comps.len() - k,
    {
        let ghost before = out@;
        if k > 0 {
            out.push('/');
        }
        let c = &comps[k];
        let mut m: usize = 0;
        let ghost mid = out@;
        while m < c.len()
            invariant
                m <= c@.len(),
                out@ == mid + c@.take(m as int),
            decreases c.len() - m,
        {
            out.push(c[m]);
            assert(mid + c@.take(m + 1) =~= (mid + c@.take(m as int)).push(c@[m as int]));
            m = m + 1;
        }
        proof {
            assert(c@.take(c@.len() as int) =~= c@);
            let t = cv.take(k + 1);
            assert(t.drop_last() =~= cv.take(k as int));
            assert(t.last() == c@);
            if k == 0 {
                assert(t.len() == 1);
                assert(out@ =~= t[0]);
            } else {
                assert(out@ =~= slash_joined(t.drop_last()) + seq!['/'] + t.last());
            }
        }
        k = k + 1;
    }
    proof {
        assert(cv.take(cv.len() as int) =~= cv);
    }
    string_from_chars(out.as_slice())
}

/// A relative plugin file path made only of normal components, rejoined with `/`.
pub fn safe_plugin_file_path(path: &String) -> (res: Result<String, PluginError>)
    ensures
        match file_path_error(*path) {
            Some(e) => res == Err::<String, PluginError>(e),
            None => res matches Ok(s) && s@ == slash_joined(components(path@)),
        },
{
    let chars = chars_of(path.as_str());
    if chars.len() > 0 && chars[0] == '/' {
        return Err(PluginError::AbsoluteFilePath { path: path.clone() });
    }
    assert(!crate::path::is_absolute(path@));
    let comps = path_components(path.as_str());
    let ghost cv = texts(comps@);
    let mut i: usize = 0;
    while i < comps.len()
        invariant
            i <= comps@.len(),
            cv == texts(comps@),
            cv == components(path@),
            !crate::path::is_absolute(path@),
            forall|k: int| 0 <= k < i ==> !special_component(#[trigger] cv[k]),
        decreases comps.len() - i,
    {
        proof {
            reveal_strlit(".");
            reveal_strlit("..");
            assert("."@ =~= seq!['.']);
            assert(".."@ =~= seq!['.', '.']);
            assert(cv[i as int] == comps@[i as int]@);
        }
        if chars_eq_str(&comps[i], ".") || chars_eq_str(&comps[i], "..") {
            proof {
                assert(special_component(cv[i as int]));
            }
            return Err(PluginError::UnsupportedFileComponent { path: path.clone() });
        }
        i = i + 1;
    }
    if comps.len() == 0 {
        return Err(PluginError::EmptyFilePath);
    }
    Ok(join_with_slashes(&comps))
}

/// A SHA-256 text is 64 hexadecimal characters.
pub open spec fn sha256_text_valid(s: Seq<char>) -> bool {
    s.len() == 64 && forall|i: int| 0 <= i < s.len() ==> is_ascii_hexdigit(#[trigger] s[i])
}

/// Why a file of plugin `id` is refused, given the paths of the files before it.
pub open spec fn index_file_error(file: PluginIndexFile, earlier: Seq<PluginIndexFile>, id: String) -> Option<PluginError> {
    if file_path_error(file.path) is Some {
        file_path_error(file.path)
    } else if exists|k: int| 0 <= k < earlier.len() && (#[trigger] earlier[k]).path@ == file.path@ {
        Some(PluginError::DuplicateFile { id, path: file.path })
    } else if is_blank(file.url@) {
        Some(PluginError::EmptyFileUrl { id, path: file.path })
    } else if file.size > MAX_PLUGIN_FILE_BYTES {
        Some(PluginError::FileTooLarge { id, path: file.path })
    } else if !sha256_text_valid(file.sha256@) {
        Some(PluginError::InvalidFileHash { id, path: file.path })
    } else {
        None
    }
}

/// The first refused file's error.
pub open spec fn files_error(files: Seq<PluginIndexFile>, id: String) -> Option<PluginError>
    decreases files.len(),
{
    if files.len() == 0 {
        None
    } else if files_error(files.drop_last(), id) is Some {
        files_error(files.drop_last(), id)
    } else {
        index_file_error(files.last(), files.drop_last(), id)
    }
}

/// The error an index entry gets, given whether its version parses and what its requirement
/// check found; checks are made in the order listed.
pub open spec fn index_entry_error(
    e: PluginIndexEntry,
    version_valid: bool,
    requirement: Option<RequirementCheck>,
    host: String,
) -> Option<PluginError> {
    if !plugin_id_valid(e.id@) {
        Some(PluginError::InvalidId)
    } else if is_blank(e.name@) {
        Some(PluginError::EmptyName { id: e.id })
    } else if !version_valid {
        Some(PluginError::InvalidVersion { id: e.id })
    } else if e.capabilities@.len() == 0 {
        Some(PluginError::NoCapabilities { id: e.id })
    } else if requirement == Some(RequirementCheck::InvalidRequirement) {
        Some(PluginError::InvalidRequirement { id: e.id })
    } else if requirement == Some(RequirementCheck::InvalidHost) {
        Some(PluginError::InvalidHostVersion)
    } else if requirement == Some(RequirementCheck::Unmet) {
        Some(PluginError::IncompatibleHost { id: e.id, requirement: e.cleanr_version->0, host })
    } else if e.files@.len() == 0 {
        Some(PluginError::NoFiles { id: e.id })
    } else if !(exists|k: int| 0 <= k < e.files@.len() && (#[trigger] e.files@[k]).path@ == "plugin.toml"@) {
        Some(PluginError::MissingManifestFile { id: e.id })
    } else {
        files_error(e.files@, e.id)
    }
}

fn sha256_text_check(s: &str) -> (res: bool)
    ensures
        res == sha256_text_valid(s@),
{
    let chars = chars_of(s);
    if chars.len() != 64 {
        return false;
    }
    let mut i: usize = 0;
    while i < chars.len()
        invariant
            i <= chars@.len(),
            chars@ == s@,
            forall|k: int| 0 <= k < i ==> is_ascii_hexdigit(#[trigger] chars@[k]),
        decreases chars.len() - i,
    {
        if !ascii_hexdigit(chars[i]) {
            return false;
        }
        i = i + 1;
    }
    true
}

fn file_check(file: &PluginIndexFile, earlier: &[PluginIndexFile], id: &String) -> (res: Result<(), PluginError>)
    ensures
        match index_file_error(*file, earlier@, *id) {
            Some(e) => res == Err::<(), PluginError>(e),
            None => res is Ok,
        },
{
    match safe_plugin_file_path(&file.path) {
        Ok(_) => {},
        Err(e) => {
            return Err(e);
        },
    }
    let mut k: usize = 0;
    while k < earlier.len()
        invariant
            k <= earlier@.len(),
            file_path_error(file.path) is None,
            forall|q: int| 0 <= q < k ==> (#[trigger] earlier@[q]).path@ != file.path@,
        decreases earlier.len() - k,
    {
        if str_eq(earlier[k].path.as_str(), file.path.as_str()) {
            assert(earlier@[k as int].path@ == file.path@);
            return Err(PluginError::DuplicateFile { id: id.clone(), path: file.path.clone() });
        }
        k = k + 1;
    }
    if blank(file.url.as_str()) {
        return Err(PluginError::EmptyFileUrl { id: id.clone(), path: file.path.clone() });
    }
    if file.size > MAX_PLUGIN_FILE_BYTES {
        return Err(PluginError::FileTooLarge { id: id.clone(), path: file.path.clone() });
    }
    if !sha256_text_check(file.sha256.as_str()) {
        return Err(PluginError::InvalidFileHash { id: id.clone(), path: file.path.clone() });
    }
    Ok(())
}

proof fn lemma_files_error_prefix(files: Seq<PluginIndexFile>, id: String, k: int)
    requires
        0 <= k <= files.len(),
        files_error(files.take(k), id) is Some,
    ensures
        files_error(files, id) == files_error(files.take(k), id),
    decreases files.len() - k,
{
    if k < files.len() {
        assert(files.take(k + 1).drop_last() =~= files.take(k));
        lemma_files_error_prefix(files, id, k + 1);
    } else {
        assert(files.take(k) =~= files);
    }
}

fn files_check(files: &Vec<PluginIndexFile>, id: &String) -> (res: Result<(), PluginError>)
    ensures
        match files_error(files@, *id) {
            Some(e) => res == Err::<(), PluginError>(e),
            None => res is Ok,
        },
{
    let mut i: usize = 0;
    while i < files.len()
        invariant
            i <= files@.len(),
            files_error(files@.take(i as int), *id) is None,
        decreases files.len() - i,
    {
        proof {
            assert(files@.take(i + 1).drop_last() =~= files@.take(i as int));
            assert(files@.take(i + 1).last() == files@[i as int]);
        }
        let earlier = vstd::slice::slice_subrange(files.as_slice(), 0, i);
        assert(earlier@ =~= files@.take(i as int));
        match file_check(&files[i], earlier, id) {
            Ok(()) => {},
            Err(e) => {
                proof {
                    lemma_files_error_prefix(files@, *id, i + 1);
                }
                return Err(e);
            },
        }
        i = i + 1;
    }
    assert(files@.take(files@.len() as int) =~= files@);
    Ok(())
}

impl PluginIndexEntry {
    /// Check an index entry given the outcome of its semantic version checks against `host`.
    pub fn validate_checked(&self, version_valid: bool, requirement: Option<RequirementCheck>, host: &String) -> (res: Result<(), PluginError>)
        requires
            self.cleanr_version is None <==> requirement is None,
        ensures
            match index_entry_error(*self, version_valid, requirement, *host) {
                Some(e) => res == Err::<(), PluginError>(e),
                None => res is Ok,
            },
    {
        match validate_plugin_id(self.id.as_str()) {
            Ok(()) => {},
            Err(e) => {
                return Err(e);
            },
        }
        if blank(self.name.as_str()) {
            return Err(PluginError::EmptyName { id: self.id.clone() });
        }
        if !version_valid {
            return Err(PluginError::InvalidVersion { id: self.id.clone() });
        }
        if self.capabilities.len() == 0 {
            return Err(PluginError::NoCapabilities { id: self.id.clone() });
        }
        match (&self.cleanr_version, requirement) {
            (Some(_), Some(RequirementCheck::InvalidRequirement)) => {
                return Err(PluginError::InvalidRequirement { id: self.id.clone() });
            },
            (Some(_), Some(RequirementCheck::InvalidHost)) => {
                return Err(PluginError::InvalidHostVersion);
            },
            (Some(r), Some(RequirementCheck::Unmet)) => {
                return Err(PluginError::IncompatibleHost { id: self.id.clone(), requirement: r.clone(), host: host.clone() });
            },
            _ => {},
        }
        let files = &self.files;
        if files.len() == 0 {
            return Err(PluginError::NoFiles { id: self.id.clone() });
        }
        proof {
            reveal_strlit("plugin.toml");
        }
        let mut has_manifest = false;
        let mut m: usize = 0;
        while m < files.len()
            invariant
                m <= files@.len(),
                has_manifest == exists|k: int| 0 <= k < m && (#[trigger] files@[k]).path@ == "plugin.toml"@,
            decreases files.len() - m,
        {
            if str_eq(files[m].path.as_str(), "plugin.toml") {
                has_manifest = true;
            }
            m = m + 1;
        }
        if !has_manifest {
            return Err(PluginError::MissingManifestFile { id: self.id.clone() });
        }
        files_check(files, &self.id)
    }

    /// Check an index entry against the host version `host_version`.
    pub fn validate(&self, host_version: &str) -> (res: Result<(), PluginError>)
        ensures
            exists|host: String| #![trigger host@] host@ == host_version@ && match index_entry_error(*self, is_semver(self.version@),
                match self.cleanr_version { Some(r) => Some(requirement_check_of(r@, host_version@)), None => None },
                host) {
                Some(e) => res == Err::<(), PluginError>(e),
                None => res is Ok,
            },
    {
        let version_valid = version_parses(self.version.as_str());
        let requirement = match &self.cleanr_version {
            Some(r) => Some(check_requirement(r.as_str(), host_version)),
            None => None,
        };
        let host = host_version.to_owned();
        self.validate_checked(version_valid, requirement, &host)
    }
}

/// The error an index gets: an unsupported schema, or the first refused entry (checked with
/// `entry_errors`), or an identifier listed twice.
pub open spec fn index_error(schema_version: u32, plugins: Seq<PluginIndexEntry>, entry_errors: Seq<Option<PluginError>>) -> Option<PluginError> {
    if schema_version != PLUGIN_INDEX_SCHEMA_VERSION {
        Some(PluginError::UnsupportedIndexSchema { version: schema_version })
    } else {
        entries_error(plugins, entry_errors, plugins.len() as int)
    }
}

/// The first error among the first `k` entries: the entry's own, or a repeated identifier.
pub open spec fn entries_error(plugins: Seq<PluginIndexEntry>, entry_errors: Seq<Option<PluginError>>, k: int) -> Option<PluginError>
    decreases k,
{
    if k <= 0 {
        None
    } else if entries_error(plugins, entry_errors, k - 1) is Some {
        entries_error(plugins, entry_errors, k - 1)
    } else if entry_errors[k - 1] is Some {
        entry_errors[k - 1]
    } else if exists|j: int| 0 <= j < k - 1 && (#[trigger] plugins[j]).id@ == plugins[k - 1].id@ {
        Some(PluginError::DuplicateIndexId { id: plugins[k - 1].id })
    } else {
        None
    }
}

proof fn lemma_entries_error_stable(plugins: Seq<PluginIndexEntry>, errs: Seq<Option<PluginError>>, k: int, m: int)
    requires
        0 <= k <= m,
        entries_error(plugins, errs, k) is Some,
    ensures
        entries_error(plugins, errs, m) == entries_error(plugins, errs, k),
    decreases m - k,
{
    if k < m {
        lemma_entries_error_stable(plugins, errs, k, m - 1);
    }
}

impl PluginIndex {
    /// Check an index: its schema version, each entry against `host_version`, and that no
    /// plugin identifier repeats.
    pub fn validate(&self, host_version: &str) -> (res: Result<(), PluginError>)
        ensures
            exists|errs: Seq<Option<PluginError>>|
                #![trigger index_error(self.schema_version, self.plugins@, errs)]
                errs.len() == self.plugins@.len()
                && (forall|i: int| 0 <= i < errs.len() ==> exists|host: String| #![trigger host@] host@ == host_version@
                    && #[trigger] errs[i] == index_entry_error(self.plugins@[i], is_semver(self.plugins@[i].version@),
                        match self.plugins@[i].cleanr_version { Some(r) => Some(requirement_check_of(r@, host_version@)), None => None },
                        host))
                && match index_error(self.schema_version, self.plugins@, errs) {
                    Some(e) => res == Err::<(), PluginError>(e),
                    None => res is Ok,
                },
    {
        let ghost mut errs: Seq<Option<PluginError>> = Seq::empty();
        let plugins = &self.plugins;
        let host = host_version.to_owned();
        let mut i: usize = 0;
        let mut failure: Option<PluginError> = None;
        while i < plugins.len()
            invariant
                i <= plugins@.len(),
                plugins@ == self.plugins@,
                host@ == host_version@,
                errs.len() == i,
                forall|k: int| 0 <= k < i ==> #[trigger] errs[k] == index_entry_error(plugins@[k], is_semver(plugins@[k].version@),
                    match plugins@[k].cleanr_version { Some(r) => Some(requirement_check_of(r@, host_version@)), None => None }, host),
                failure == entries_error(plugins@, errs, i as int),
            decreases plugins.len() - i,
        {
            let entry = &plugins[i];
            let version_valid = version_parses(entry.version.as_str());
            let requirement = match &entry.cleanr_version {
                Some(r) => Some(check_requirement(r.as_str(), host_version)),
                None => None,
            };
            let outcome = entry.validate_checked(version_valid, requirement, &host);
            let ghost e: Option<PluginError> = if outcome is Ok { None } else { Some(outcome->Err_0) };
            let ghost old_errs = errs;
            proof {
                errs = errs.push(e);
                lemma_entries_error_prefix_errs(plugins@, old_errs, errs, i as int);
                assert(errs[i as int] == e);
            }
            if failure.is_none() {
                match outcome {
                    Err(x) => {
                        failure = Some(x);
                    },
                    Ok(()) => {
                        let mut j: usize = 0;
                        let mut repeated = false;
                        while j < i
                            invariant
                                j <= i < plugins@.len(),
                                repeated == exists|q: int| 0 <= q < j && (#[trigger] plugins@[q]).id@ == plugins@[i as int].id@,
                            decreases i - j,
                        {
                            if str_eq(plugins[j].id.as_str(), plugins[i].id.as_str()) {
                                repeated = true;
                            }
                            j = j + 1;
                        }
                        if repeated {
                            failure = Some(PluginError::DuplicateIndexId { id: plugins[i].id.clone() });
                        }
                    },
                }
            }
            proof {
                assert(entries_error(plugins@, errs, i as int) == entries_error(plugins@, old_errs, i as int));
                assert forall|k: int| 0 <= k < i + 1 implies #[trigger] errs[k] == index_entry_error(plugins@[k], is_semver(plugins@[k].version@),
                    match plugins@[k].cleanr_version { Some(r) => Some(requirement_check_of(r@, host_version@)), None => None }, host) by {
                    if k < i {
                        assert(errs[k] == old_errs[k]);
                    }
                }
            }
            i = i + 1;
        }
        proof {
            assert forall|k: int| 0 <= k < errs.len() implies exists|h: String| #![trigger h@] h@ == host_version@
                && #[trigger] errs[k] == index_entry_error(self.plugins@[k], is_semver(self.plugins@[k].version@),
                    match self.plugins@[k].cleanr_version { Some(r) => Some(requirement_check_of(r@, host_version@)), None => None }, h) by {
                assert(host@ == host_version@);
            }
        }
        if self.schema_version != PLUGIN_INDEX_SCHEMA_VERSION {
            assert(index_error(self.schema_version, self.plugins@, errs) == Some(PluginError::UnsupportedIndexSchema { version: self.schema_version }));
            return Err(PluginError::UnsupportedIndexSchema { version: self.schema_version });
        }
        assert(index_error(self.schema_version, self.plugins@, errs) == failure);
        proof {
            assert forall|k: int| 0 <= k < errs.len() implies exists|h: String| #![trigger h@] h@ == host_version@
                && #[trigger] errs[k] == index_entry_error(self.plugins@[k], is_semver(self.plugins@[k].version@),
                    match self.plugins@[k].cleanr_version { Some(r) => Some(requirement_check_of(r@, host_version@)), None => None }, h) by {
                assert(host@ == host_version@);
            }
        }
        match failure {
            Some(e) => Err(e),
            None => Ok(()),
        }
    }
}

proof fn lemma_entries_error_prefix_errs(plugins: Seq<PluginIndexEntry>, a: Seq<Option<PluginError>>, b: Seq<Option<PluginError>>, k: int)
    requires
        0 <= k <= a.len(),
        a.len() <= b.len(),
        forall|i: int| 0 <= i < a.len() ==> a[i] == b[i],
    ensures
        entries_error(plugins, a, k) == entries_error(plugins, b, k),
    decreases k,
{
    if k > 0 {
        lemma_entries_error_prefix_errs(plugins, a, b, k - 1);
    }
}

// ---------------------------------------------------------------- GitHub sources

/// A byte allowed in a GitHub `owner/name`: an ASCII letter or digit, `/`, `.`, `-` or `_`.
pub open spec fn repo_byte(b: u8) -> bool {
    id_byte(b) || b == 47
}

/// The number of `/` bytes in `b`.
pub open spec fn slash_count(b: Seq<u8>) -> nat
    decreases b.len(),
{
    if b.len() == 0 {
        0
    } else {
        slash_count(b.drop_last()) + if b.last() == 47u8 { 1nat } else { 0 }
    }
}

/// A GitHub repository is `owner/name`: exactly one `/`, and only letters, digits, `/`, `.`,
/// `-` and `_`.
pub open spec fn github_repo_valid(repo: Seq<char>) -> bool {
    let b = vstd::utf8::encode_utf8(repo);
    &&& slash_count(b) == 1
    &&& forall|i: int| 0 <= i < b.len() ==> repo_byte(#[trigger] b[i])
}

/// A GitHub reference is not empty, holds only letters, digits, `.`, `-`, `_` and `/`, and
/// never `..`.
pub open spec fn github_ref_valid(reference: Seq<char>) -> bool {
    let b = vstd::utf8::encode_utf8(reference);
    &&& b.len() > 0
    &&& forall|i: int| 0 <= i < b.len() ==> repo_byte(#[trigger] b[i])
    &&& !contains_text(reference, seq!['.', '.'])
}

/// Check a GitHub `owner/name`.
pub fn validate_github_repo(repo: &str) -> (res: Result<(), PluginError>)
    ensures
        res is Ok <==> github_repo_valid(repo@),
        res is Err ==> res == Err::<(), PluginError>(PluginError::InvalidGithubRepo),
{
    let bytes = repo.as_bytes();
    let mut slashes: usize = 0;
    let mut allowed = true;
    let mut i: usize = 0;
    while i < bytes.len()
        invariant
            i <= bytes@.len(),
            bytes@ == vstd::utf8::encode_utf8(repo@),
            slashes == slash_count(bytes@.take(i as int)),
            slashes <= i,
            allowed == forall|k: int| 0 <= k < i ==> repo_byte(#[trigger] bytes@[k]),
        decreases bytes.len() - i,
    {
        proof {
            assert(bytes@.take(i + 1).drop_last() =~= bytes@.take(i as int));
            assert(bytes@.take(i + 1).last() == bytes@[i as int]);
        }
        if bytes[i] == 47 {
            slashes = slashes + 1;
        }
        if !(id_byte_exec(bytes[i]) || bytes[i] == 47) {
            allowed = false;
        }
        i = i + 1;
    }
    assert(bytes@.take(bytes@.len() as int) =~= bytes@);
    if slashes != 1 || !allowed {
        return Err(PluginError::InvalidGithubRepo);
    }
    Ok(())
}

/// Check a GitHub reference.
pub fn validate_github_ref(reference: &str) -> (res: Result<(), PluginError>)
    ensures
        res is Ok <==> github_ref_valid(reference@),
        res is Err ==> res == Err::<(), PluginError>(PluginError::InvalidGithubRef),
{
    let bytes = reference.as_bytes();
    if bytes.len() == 0 {
        return Err(PluginError::InvalidGithubRef);
    }
    let mut i: usize = 0;
    while i < bytes.len()
        invariant
            i <= bytes@.len(),
            bytes@ == vstd::utf8::encode_utf8(reference@),
            forall|k: int| 0 <= k < i ==> repo_byte(#[trigger] bytes@[k]),
        decreases bytes.len() - i,
    {
        if !(id_byte_exec(bytes[i]) || bytes[i] == 47) {
            return Err(PluginError::InvalidGithubRef);
        }
        i = i + 1;
    }
    let chars = chars_of(reference);
    let mut dots: Vec<char> = Vec::new();
    dots.push('.');
    dots.push('.');
    assert(dots@ =~= seq!['.', '.']);
    if contains_chars(&chars, &dots) {
        return Err(PluginError::InvalidGithubRef);
    }
    Ok(())
}

/// The raw GitHub address of a plugin index in the repository `repo` at `reference`.
pub open spec fn github_index_url(repo: Seq<char>, reference: Seq<char>) -> Seq<char> {
    "https://raw.githubusercontent.com/"@ + repo + "/"@ + reference + "/plugins/index.json"@
}

/// The raw GitHub address of the plugin index of `repo` at `reference`, once both are checked.
pub fn github_raw_plugin_index_url(repo: &str, reference: &str) -> (res: Result<String, PluginError>)
    ensures
        !github_repo_valid(repo@) ==> res == Err::<String, PluginError>(PluginError::InvalidGithubRepo),
        github_repo_valid(repo@) && !github_ref_valid(reference@) ==> res == Err::<String, PluginError>(PluginError::InvalidGithubRef),
        github_repo_valid(repo@) && github_ref_valid(reference@) ==> (res matches Ok(url) && url@ == github_index_url(repo@, reference@)),
{
    validate_github_repo(repo)?;
    validate_github_ref(reference)?;
    let a = concat("https://raw.githubusercontent.com/", repo);
    let b = join3(a.as_str(), "/", reference);
    Ok(concat(b.as_str(), "/plugins/index.json"))
}

/// The index address to use: the one given, or the GitHub one of `repo` at `reference`.
pub fn plugin_index_url(index_url: Option<String>, repo: &str, reference: &str) -> (res: Result<String, PluginError>)
    ensures
        index_url is Some ==> res == Ok::<String, PluginError>(index_url->0),
        index_url is None ==> (
            (!github_repo_valid(repo@) ==> res == Err::<String, PluginError>(PluginError::InvalidGithubRepo))
            && (github_repo_valid(repo@) && !github_ref_valid(reference@) ==> res == Err::<String, PluginError>(PluginError::InvalidGithubRef))
            && (github_repo_valid(repo@) && github_ref_valid(reference@) ==> (res matches Ok(url) && url@ == github_index_url(repo@, reference@)))),
{
    match index_url {
        Some(url) => Ok(url),
        None => github_raw_plugin_index_url(repo, reference),
    }
}

// ---------------------------------------------------------------- search and files

/// The texts of an index entry that a search looks at.
pub open spec fn searchable_texts(e: PluginIndexEntry) -> Seq<Seq<char>> {
    seq![e.id@, e.name@, e.description@] + Seq::new(e.categories@.len(), |i: int| e.categories@[i]@)
        + Seq::new(e.keywords@.len(), |i: int| e.keywords@[i]@)
}

/// An empty query matches every entry; otherwise some searchable text, with its ASCII letters
/// in lower case, contains the query.
pub open spec fn entry_matches(e: PluginIndexEntry, query: Seq<char>) -> bool {
    query.len() == 0 || exists|i: int| 0 <= i < searchable_texts(e).len()
        && contains_text(lower_all(#[trigger] searchable_texts(e)[i]), query)
}

fn text_matches(text: &str, query: &Vec<char>) -> (res: bool)
    ensures
        res == contains_text(lower_all(text@), query@),
{
    let lower = to_ascii_lowercase(text);
    contains_chars(&lower, query)
}

/// Whether a search for `query` finds the index entry.
pub fn matches_query(entry: &PluginIndexEntry, query: &str) -> (res: bool)
    ensures
        res == entry_matches(*entry, query@),
{
    let q = chars_of(query);
    if q.len() == 0 {
        return true;
    }
    let ghost texts_view = searchable_texts(*entry);
    proof {
        assert(texts_view[0] == entry.id@);
        assert(texts_view[1] == entry.name@);
        assert(texts_view[2] == entry.description@);
    }
    if text_matches(entry.id.as_str(), &q) || text_matches(entry.name.as_str(), &q) || text_matches(entry.description.as_str(), &q) {
        return true;
    }
    let mut i: usize = 0;
    while i < entry.categories.len()
        invariant
            i <= entry.categories@.len(),
            q@ == query@,
            texts_view == searchable_texts(*entry),
            forall|k: int| 0 <= k < 3 + i ==> !contains_text(lower_all(#[trigger] texts_view[k]), q@),
        decreases entry.categories.len() - i,
    {
        assert(texts_view[3 + i] == entry.categories@[i as int]@);
        if text_matches(entry.categories[i].as_str(), &q) {
            return true;
        }
        i = i + 1;
    }
    let n = entry.categories.len();
    let mut j: usize = 0;
    while j < entry.keywords.len()
        invariant
            j <= entry.keywords@.len(),
            n == entry.categories@.len(),
            q@ == query@,
            texts_view == searchable_texts(*entry),
            forall|k: int| 0 <= k < 3 + n + j ==> !contains_text(lower_all(#[trigger] texts_view[k]), q@),
        decreases entry.keywords.len() - j,
    {
        assert(texts_view[3 + n + j] == entry.keywords@[j as int]@);
        if text_matches(entry.keywords[j].as_str(), &q) {
            return true;
        }
        j = j + 1;
    }
    false
}

/// The lowercase hexadecimal SHA-256 digest of `bytes`.
pub uninterp spec fn sha256_hex_of(bytes: Seq<u8>) -> Seq<char>;

/// The SHA-256 digest of `bytes` (`sha2::Sha256::digest`), in lowercase hexadecimal.
#[verifier::external_body]
pub(crate) fn sha256_hex(bytes: &[u8]) -> (res: String)
    ensures
        res@ == sha256_hex_of(bytes@),
{
    format!("{:x}", <sha2::Sha256 as sha2::Digest>::digest(bytes))
}

/// Why a downloaded plugin file `body` does not match its index record, if it does not.
pub open spec fn downloaded_file_error(file: PluginIndexFile, body: Seq<u8>) -> Option<PluginError> {
    if body.len() != file.size {
        Some(PluginError::FileSizeMismatch { path: file.path, expected: file.size, actual: body.len() as u64 })
    } else if lower_all(sha256_hex_of(body)) != lower_all(file.sha256@) {
        Some(PluginError::FileHashMismatch { path: file.path, expected: file.sha256, actual: file.sha256 })
    } else {
        None
    }
}

/// Check a downloaded plugin file against its size and SHA-256 in the index.
pub fn verify_index_file(file: &PluginIndexFile, body: &[u8]) -> (res: Result<(), PluginError>)
    ensures
        match downloaded_file_error(*file, body@) {
            Some(PluginError::FileHashMismatch { path, expected, actual: _ }) => res matches Err(PluginError::FileHashMismatch { path: p, expected: x, actual: a })
                && p == path && x == expected && a@ == sha256_hex_of(body@),
            Some(e) => res == Err::<(), PluginError>(e),
            None => res is Ok,
        },
{
    if body.len() as u64 != file.size {
        return Err(PluginError::FileSizeMismatch { path: file.path.clone(), expected: file.size, actual: body.len() as u64 });
    }
    let actual = sha256_hex(body);
    let a = to_ascii_lowercase(actual.as_str());
    let b = to_ascii_lowercase(file.sha256.as_str());
    if !crate::path::chars_equal(&a, &b) {
        return Err(PluginError::FileHashMismatch { path: file.path.clone(), expected: file.sha256.clone(), actual });
    }
    Ok(())
}

/// An unreserved URL byte: an ASCII letter or digit, `-`, `.`, `_` or `~`.
pub open spec fn unreserved_byte(b: u8) -> bool {
    (48 <= b <= 57) || (65 <= b <= 90) || (97 <= b <= 122) || b == 45 || b == 46 || b == 95 || b == 126
}

/// An upper-case hexadecimal digit for `d`, which is below sixteen.
pub open spec fn hex_digit(d: int) -> char {
    if d < 10 { ((d + 48) as u32) as char } else { ((d + 55) as u32) as char }
}

/// The percent-encoding of `bytes`: unreserved bytes stand as themselves, every other byte as
/// `%` and two upper-case hexadecimal digits; with `keep_slash`, `/` stands as itself too.
pub open spec fn percent_encoded(bytes: Seq<u8>, keep_slash: bool) -> Seq<char>
    decreases bytes.len(),
{
    if bytes.len() == 0 {
        Seq::empty()
    } else {
        let b = bytes.last();
        percent_encoded(bytes.drop_last(), keep_slash) + if unreserved_byte(b) || (keep_slash && b == 47) {
            seq![(b as u32) as char]
        } else {
            seq!['%', hex_digit(b as int / 16), hex_digit(b as int % 16)]
        }
    }
}

fn hex_digit_exec(d: u8) -> (res: char)
    requires
        d < 16,
    ensures
        res == hex_digit(d as int),
{
    if d < 10 { (d + 48) as char } else { (d + 55) as char }
}

fn encode_bytes(bytes: &[u8], keep_slash: bool) -> (res: String)
    ensures
        res@ == percent_encoded(bytes@, keep_slash),
{
    let mut out: Vec<char> = Vec::new();
    let mut i: usize = 0;
    while i < bytes.len()
        invariant
            i <= bytes@.len(),
            out@ == percent_encoded(bytes@.take(i as int), keep_slash),
        decreases bytes.len() - i,
    {
        let b = bytes[i];
        proof {
            assert(bytes@.take(i + 1).drop_last() =~= bytes@.take(i as int));
            assert(bytes@.take(i + 1).last() == b);
        }
        let ghost before = out@;
        if (48 <= b && b <= 57) || (65 <= b && b <= 90) || (97 <= b && b <= 122) || b == 45 || b == 46 || b == 95 || b == 126 || (keep_slash && b == 47) {
            out.push(b as char);
            assert(out@ =~= before + seq![(b as u32) as char]);
        } else {
            out.push('%');
            out.push(hex_digit_exec(b / 16));
            out.push(hex_digit_exec(b % 16));
            assert(out@ =~= before + seq!['%', hex_digit(b as int / 16), hex_digit(b as int % 16)]);
        }
        i = i + 1;
    }
    assert(bytes@.take(bytes@.len() as int) =~= bytes@);
    string_from_chars(out.as_slice())
}

/// Percent-encode one URL path segment.
pub fn percent_encode(segment: &str) -> (res: String)
    ensures
        res@ == percent_encoded(vstd::utf8::encode_utf8(segment@), false),
{
    encode_bytes(segment.as_bytes(), false)
}

/// Percent-encode each `/`-separated segment of a URL path.
pub fn url_path(path: &str) -> (res: String)
    ensures
        res@ == percent_encoded(vstd::utf8::encode_utf8(path@), true),
{
    encode_bytes(path.as_bytes(), true)
}

/// The names of the declared capabilities in their canonical order, separated by `, `.
pub open spec fn capabilities_text(caps: Seq<PluginCapability>) -> Seq<char> {
    let names = (if caps.contains(PluginCapability::Rules) { seq!["rules"@] } else { Seq::empty() })
        + (if caps.contains(PluginCapability::Translations) { seq!["translations"@] } else { Seq::empty() })
        + (if caps.contains(PluginCapability::DynamicCandidates) { seq!["dynamic-candidates"@] } else { Seq::empty() });
    comma_joined(names)
}

/// `parts` separated by `, `.
pub open spec fn comma_joined(parts: Seq<Seq<char>>) -> Seq<char>
    decreases parts.len(),
{
    if parts.len() == 0 {
        Seq::empty()
    } else if parts.len() == 1 {
        parts[0]
    } else {
        comma_joined(parts.drop_last()) + ", "@ + parts.last()
    }
}

/// The declared capabilities as text.
pub fn format_capabilities(capabilities: &Vec<PluginCapability>) -> (res: String)
    ensures
        res@ == capabilities_text(capabilities@),
{
    let rules = contains_capability(capabilities, PluginCapability::Rules);
    let translations = contains_capability(capabilities, PluginCapability::Translations);
    let dynamic = contains_capability(capabilities, PluginCapability::DynamicCandidates);
    let mut parts: Vec<&str> = Vec::new();
    if rules {
        parts.push("rules");
    }
    if translations {
        parts.push("translations");
    }
    if dynamic {
        parts.push("dynamic-candidates");
    }
    let ghost names = (if rules { seq!["rules"@] } else { Seq::empty() })
        + (if translations { seq!["translations"@] } else { Seq::empty() })
        + (if dynamic { seq!["dynamic-candidates"@] } else { Seq::empty() });
    assert(Seq::new(parts@.len(), |i: int| parts@[i]@) =~= names);
    let mut out = String::new();
    let mut i: usize = 0;
    while i < parts.len()
        invariant
            i <= parts@.len(),
            names == Seq::new(parts@.len(), |k: int| parts@[k]@),
            out@ == comma_joined(names.take(i as int)),
        decreases parts.len() - i,
    {
        proof {
            assert(names.take(i + 1).drop_last() =~= names.take(i as int));
            assert(names.take(i + 1).last() == parts@[i as int]@);
        }
        if i == 0 {
            out = parts[i].to_owned();
            assert(names.take(1) =~= seq![parts@[0]@]);
        } else {
            let with_comma = concat(out.as_str(), ", ");
            out = concat(with_comma.as_str(), parts[i]);
        }
        i = i + 1;
    }
    assert(names.take(parts@.len() as int) =~= names);
    out
}

// ---------------------------------------------------------------- diagnostics and discovery

#[derive(Debug, Clone, Copy, PartialEq, Eq, Structural)]
pub enum DiagnosticSeverity {
    Warning,
    Error,
}

#[derive(Debug, Clone, PartialEq, Eq)]
pub struct PluginDiagnostic {
    pub severity: DiagnosticSeverity,
    pub code: &'static str,
    pub message: String,
    pub path: Option<String>,
}

impl PluginDiagnostic {
    pub fn warning(code: &'static str, message: String, path: Option<String>) -> (res: Self)
        ensures
            res.severity == DiagnosticSeverity::Warning,
            res.code == code,
            res.message == message,
            res.path == path,
    {
        PluginDiagnostic { severity: DiagnosticSeverity::Warning, code, message, path }
    }

    pub fn error(code: &'static str, message: String, path: Option<String>) -> (res: Self)
        ensures
            res.severity == DiagnosticSeverity::Error,
            res.code == code,
            res.message == message,
            res.path == path,
    {
        PluginDiagnostic { severity: DiagnosticSeverity::Error, code, message, path }
    }
}

#[derive(Debug, Clone, PartialEq, Eq)]
pub struct PluginBundle {
    pub manifest: PluginManifest,
    pub root: String,
    pub source: PluginSource,
    pub trust: TrustLevel,
}

#[derive(Debug, Clone, PartialEq, Eq)]
pub struct PluginDiscovery {
    pub bundles: Vec<PluginBundle>,
    pub diagnostics: Vec<PluginDiagnostic>,
}

impl Default for PluginDiscovery {
    fn default() -> (res: Self)
        ensures
            res.bundles@.len() == 0,
            res.diagnostics@.len() == 0,
    {
        PluginDiscovery { bundles: Vec::new(), diagnostics: Vec::new() }
    }
}

/// A plugin manifest found in a plugin directory, with the outcome of reading and checking it.
pub struct ManifestOutcome {
    /// The manifest file.
    pub path: String,
    /// The bundle directory that holds the manifest file.
    pub root: String,
    /// The checked manifest, or why it could not be read or was refused.
    pub manifest: Result<PluginManifest, String>,
}

/// What discovery reports of one manifest file: a bundle, or an error diagnostic with its
/// code, message and file.
pub enum Found {
    Bundle(PluginBundle),
    Problem(Seq<char>, Seq<char>, String),
}

/// Some manifest among the first `k` was accepted with identifier `id`.
pub open spec fn id_accepted_before(outcomes: Seq<ManifestOutcome>, k: int, id: Seq<char>) -> bool
    decreases k,
{
    if k <= 0 {
        false
    } else {
        id_accepted_before(outcomes, k - 1, id) || (outcomes[k - 1].manifest matches Ok(m) && m.id@ == id
            && !id_accepted_before(outcomes, k - 1, m.id@))
    }
}

/// What discovery reports of manifest `k`, in order: an unreadable or refused manifest is an
/// invalid-manifest problem; one whose identifier an earlier manifest holds is a duplicate
/// problem; any other becomes a bundle at its directory, trusted when its identifier is listed.
pub open spec fn found_at(outcomes: Seq<ManifestOutcome>, trusted: Seq<String>, k: int) -> Found {
    let o = outcomes[k];
    match o.manifest {
        Err(message) => Found::Problem("plugin-manifest-invalid"@, message@, o.path),
        Ok(m) => if id_accepted_before(outcomes, k, m.id@) {
            Found::Problem("plugin-id-duplicate"@, "duplicate plugin id "@ + m.id@, o.path)
        } else {
            Found::Bundle(PluginBundle {
                manifest: m,
                root: o.root,
                source: PluginSource::Bundle(o.root),
                trust: if exists|t: int| 0 <= t < trusted.len() && (#[trigger] trusted[t])@ == m.id@ {
                    TrustLevel::Trusted
                } else {
                    TrustLevel::Untrusted
                },
            })
        },
    }
}

/// The bundles that the first `k` manifests give, in order.
pub open spec fn found_bundles(outcomes: Seq<ManifestOutcome>, trusted: Seq<String>, k: int) -> Seq<PluginBundle>
    decreases k,
{
    if k <= 0 {
        Seq::empty()
    } else {
        found_bundles(outcomes, trusted, k - 1) + match found_at(outcomes, trusted, k - 1) {
            Found::Bundle(b) => seq![b],
            Found::Problem(..) => Seq::empty(),
        }
    }
}

/// The problems that the first `k` manifests give, in order, as code, message and file.
pub open spec fn found_problems(outcomes: Seq<ManifestOutcome>, trusted: Seq<String>, k: int) -> Seq<(Seq<char>, Seq<char>, String)>
    decreases k,
{
    if k <= 0 {
        Seq::empty()
    } else {
        found_problems(outcomes, trusted, k - 1) + match found_at(outcomes, trusted, k - 1) {
            Found::Bundle(_) => Seq::empty(),
            Found::Problem(c, msg, p) => seq![(c, msg, p)],
        }
    }
}

/// The diagnostics as code, message and file.
pub open spec fn problem_views(d: Seq<PluginDiagnostic>) -> Seq<(Seq<char>, Seq<char>, String)> {
    Seq::new(d.len(), |i: int| (d[i].code@, d[i].message@, d[i].path->0))
}

/// Assemble the discovery of plugin bundles from the manifests found, in path order.
pub fn collect_bundles(outcomes: Vec<ManifestOutcome>, trusted_plugin_ids: &[String]) -> (res: PluginDiscovery)
    ensures
        res.bundles@ == found_bundles(outcomes@, trusted_plugin_ids@, outcomes@.len() as int),
        problem_views(res.diagnostics@) == found_problems(outcomes@, trusted_plugin_ids@, outcomes@.len() as int),
        forall|i: int| 0 <= i < res.diagnostics@.len() ==> (#[trigger] res.diagnostics@[i]).severity == DiagnosticSeverity::Error
            && res.diagnostics@[i].path is Some,
{
    let ghost all = outcomes@;
    let ghost trusted = trusted_plugin_ids@;
    let mut bundles: Vec<PluginBundle> = Vec::new();
    let mut diagnostics: Vec<PluginDiagnostic> = Vec::new();
    let mut seen: Vec<String> = Vec::new();
    let mut rest = outcomes;
    let n = rest.len();
    assert(all.skip(0) =~= all);
    let mut k: usize = 0;
    while rest.len() > 0
        invariant
            k <= n,
            n == all.len(),
            trusted == trusted_plugin_ids@,
            rest@ == all.skip(k as int),
            bundles@ == found_bundles(all, trusted, k as int),
            problem_views(diagnostics@) == found_problems(all, trusted, k as int),
            forall|i: int| 0 <= i < diagnostics@.len() ==> (#[trigger] diagnostics@[i]).severity == DiagnosticSeverity::Error
                && diagnostics@[i].path is Some,
            forall|id: Seq<char>| #[trigger] id_accepted_before(all, k as int, id) <==> exists|q: int| 0 <= q < seen@.len() && (#[trigger] seen@[q])@ == id,
        decreases rest.len(),
    {
        let outcome = rest.remove(0);
        assert(outcome == all[k as int]);
        assert(rest@ =~= all.skip(k + 1));
        let ghost before_problems = diagnostics@;
        let ghost before_seen = seen@;
        match outcome.manifest {
            Err(message) => {
                let d = PluginDiagnostic::error("plugin-manifest-invalid", message, Some(outcome.path));
                diagnostics.push(d);
                proof {
                    reveal_strlit("plugin-manifest-invalid");
                    assert(problem_views(diagnostics@) =~= problem_views(before_problems).push((d.code@, d.message@, d.path->0)));
                    assert(all[k as int].manifest is Err);
                    assert forall|id: Seq<char>| #[trigger] id_accepted_before(all, k + 1, id) <==> exists|q: int| 0 <= q < seen@.len() && (#[trigger] seen@[q])@ == id by {
                        assert(id_accepted_before(all, k + 1, id) == id_accepted_before(all, k as int, id));
                    }
                }
            },
            Ok(manifest) => {
                let mut q: usize = 0;
                let mut duplicate = false;
                while q < seen.len()
                    invariant
                        q <= seen@.len(),
                        duplicate == exists|r: int| 0 <= r < q && (#[trigger] seen@[r])@ == manifest.id@,
                    decreases seen.len() - q,
                {
                    if str_eq(seen[q].as_str(), manifest.id.as_str()) {
                        duplicate = true;
                    }
                    q = q + 1;
                }
                if duplicate {
                    let message = concat("duplicate plugin id ", manifest.id.as_str());
                    let d = PluginDiagnostic::error("plugin-id-duplicate", message, Some(outcome.path));
                    diagnostics.push(d);
                    proof {
                        reveal_strlit("plugin-id-duplicate");
                        reveal_strlit("duplicate plugin id ");
                        assert(problem_views(diagnostics@) =~= problem_views(before_problems).push((d.code@, d.message@, d.path->0)));
                        assert(all[k as int].manifest == Ok::<PluginManifest, String>(manifest));
                        assert(id_accepted_before(all, k as int, manifest.id@));
                        assert forall|id: Seq<char>| #[trigger] id_accepted_before(all, k + 1, id) <==> exists|q: int| 0 <= q < seen@.len() && (#[trigger] seen@[q])@ == id by {
                            assert(id_accepted_before(all, k + 1, id) == id_accepted_before(all, k as int, id));
                        }
                    }
                } else {
                    let mut t: usize = 0;
                    let mut is_trusted = false;
                    while t < trusted_plugin_ids.len()
                        invariant
                            t <= trusted_plugin_ids@.len(),
                            is_trusted == exists|r: int| 0 <= r < t && (#[trigger] trusted_plugin_ids@[r])@ == manifest.id@,
                        decreases trusted_plugin_ids.len() - t,
                    {
                        if str_eq(trusted_plugin_ids[t].as_str(), manifest.id.as_str()) {
                            is_trusted = true;
                        }
                        t = t + 1;
                    }
                    let id = manifest.id.clone();
                    let root = outcome.root;
                    let bundle = PluginBundle {
                        manifest,
                        root: root.clone(),
                        source: PluginSource::Bundle(root),
                        trust: if is_trusted { TrustLevel::Trusted } else { TrustLevel::Untrusted },
                    };
                    bundles.push(bundle);
                    seen.push(id);
                    proof {
                        assert forall|x: Seq<char>| #[trigger] id_accepted_before(all, k + 1, x) <==> exists|q: int| 0 <= q < seen@.len() && (#[trigger] seen@[q])@ == x by {
                            if exists|q: int| 0 <= q < seen@.len() && (#[trigger] seen@[q])@ == x {
                                let q = choose|q: int| 0 <= q < seen@.len() && (#[trigger] seen@[q])@ == x;
                                if q < before_seen.len() {
                                    assert(before_seen[q] == seen@[q]);
                                }
                            }
                            if id_accepted_before(all, k as int, x) {
                                let q = choose|q: int| 0 <= q < before_seen.len() && (#[trigger] before_seen[q])@ == x;
                                assert(seen@[q] == before_seen[q]);
                            }
                            if x == all[k as int].manifest->Ok_0.id@ {
                                assert(seen@[before_seen.len() as int]@ == x);
                            }
                        }
                    }
                }
            },
        }
        k = k + 1;
    }
    assert(all.skip(n as int).len() == 0);
    PluginDiscovery { bundles, diagnostics }
}

// ---------------------------------------------------------------- plugin scaffolding

/// The plugin manifest a new plugin starts from.
pub open spec fn plugin_template_text(id: Seq<char>, name: Seq<char>) -> Seq<char> {
    "api_version = \"1\"\nid = \""@ + id + "\"\nname = \""@ + name
        + "\"\nversion = \"0.1.0\"\ndescription = \"Cleanup rules for "@ + name
        + ".\"\ncleanr_version = \">=0.1.0\"\ncapabilities = [\"rules\"]\ncategories = [\"developer\"]\nkeywords = [\"cache\"]\n"@
}

/// The manifest of a new plugin with identifier `id` and display name `name`.
pub fn plugin_template(id: &str, name: &str) -> (res: String)
    ensures
        res@ == plugin_template_text(id@, name@),
{
    let a = concat("api_version = \"1\"\nid = \"", id);
    let b = join3(a.as_str(), "\"\nname = \"", name);
    let c = join3(b.as_str(), "\"\nversion = \"0.1.0\"\ndescription = \"Cleanup rules for ", name);
    concat(c.as_str(), ".\"\ncleanr_version = \">=0.1.0\"\ncapabilities = [\"rules\"]\ncategories = [\"developer\"]\nkeywords = [\"cache\"]\n")
}

/// `id` with every `.` and `_` replaced by `-`.
pub open spec fn dashed(id: Seq<char>) -> Seq<char> {
    Seq::new(id.len(), |i: int| if id[i] == '.' || id[i] == '_' { '-' } else { id[i] })
}

/// The rule pack a new plugin starts from.
pub open spec fn rule_pack_template_text(id: Seq<char>, name: Seq<char>) -> Seq<char> {
    "id = \""@ + dashed(id) + "\"\nname = \""@ + name
        + "\"\nversion = \"0.1.0\"\ndescription = \"Cleanup rules for "@ + name
        + ".\"\ncategories = [\"cache\"]\n\n[[rules]]\nid = \"example-cache\"\nlabel = \""@ + name
        + " cache\"\ncategory = \"cache\"\nmatch = { dir_name = \".example-cache\" }\nconfidence = \"high\"\ndefault_selected = true\naction = \"trash\"\nreason = \""@ + name
        + " can recreate this cache.\"\nrisk_note = \"The next "@ + name + " run may be slower.\"\n"@
}

/// The example rule pack of a new plugin with identifier `id` and display name `name`.
pub fn rule_pack_template(id: &str, name: &str) -> (res: String)
    ensures
        res@ == rule_pack_template_text(id@, name@),
{
    let chars = chars_of(id);
    let mut pack: Vec<char> = Vec::new();
    let mut i: usize = 0;
    while i < chars.len()
        invariant
            i <= chars@.len(),
            chars@ == id@,
            pack@ == dashed(id@).take(i as int),
        decreases chars.len() - i,
    {
        let c = chars[i];
        pack.push(if c == '.' || c == '_' { '-' } else { c });
        assert(dashed(id@).take(i + 1) =~= dashed(id@).take(i as int).push(dashed(id@)[i as int]));
        i = i + 1;
    }
    assert(dashed(id@).take(chars@.len() as int) =~= dashed(id@));
    let pack_id = string_from_chars(pack.as_slice());
    let a = concat("id = \"", pack_id.as_str());
    let b = join3(a.as_str(), "\"\nname = \"", name);
    let c = join3(b.as_str(), "\"\nversion = \"0.1.0\"\ndescription = \"Cleanup rules for ", name);
    let d = join3(c.as_str(), ".\"\ncategories = [\"cache\"]\n\n[[rules]]\nid = \"example-cache\"\nlabel = \"", name);
    let e = join3(d.as_str(), " cache\"\ncategory = \"cache\"\nmatch = { dir_name = \".example-cache\" }\nconfidence = \"high\"\ndefault_selected = true\naction = \"trash\"\nreason = \"", name);
    let f = join3(e.as_str(), " can recreate this cache.\"\nrisk_note = \"The next ", name);
    concat(f.as_str(), " run may be slower.\"\n")
}

/// The enabled rule packs once `ids` are enabled in turn: each one not yet enabled is added at
/// the end.
pub open spec fn enabled_after(enabled: Seq<Seq<char>>, ids: Seq<Seq<char>>) -> Seq<Seq<char>>
    decreases ids.len(),
{
    if ids.len() == 0 {
        enabled
    } else {
        let prev = enabled_after(enabled, ids.drop_last());
        if prev.contains(ids.last()) { prev } else { prev.push(ids.last()) }
    }
}

/// Enable the rule packs `rule_pack_ids` that are not enabled yet, in order.
pub fn enable_rule_packs(config: &mut crate::config::Config, rule_pack_ids: &[String])
    ensures
        crate::config::string_views(final(config).cleanup.enabled_rule_packs@)
            == enabled_after(crate::config::string_views(old(config).cleanup.enabled_rule_packs@),
                Seq::new(rule_pack_ids@.len(), |i: int| rule_pack_ids@[i]@)),
        *final(config) == (crate::config::Config { cleanup: crate::config::CleanupConfig {
            enabled_rule_packs: final(config).cleanup.enabled_rule_packs, ..old(config).cleanup }, ..*old(config) }),
{
    let ghost ids = Seq::new(rule_pack_ids@.len(), |i: int| rule_pack_ids@[i]@);
    let ghost start = crate::config::string_views(config.cleanup.enabled_rule_packs@);
    let mut i: usize = 0;
    while i < rule_pack_ids.len()
        invariant
            i <= rule_pack_ids@.len(),
            ids == Seq::new(rule_pack_ids@.len(), |k: int| rule_pack_ids@[k]@),
            crate::config::string_views(config.cleanup.enabled_rule_packs@) == enabled_after(start, ids.take(i as int)),
            *config == (crate::config::Config { cleanup: crate::config::CleanupConfig {
                enabled_rule_packs: config.cleanup.enabled_rule_packs, ..old(config).cleanup }, ..*old(config) }),
        decreases rule_pack_ids.len() - i,
    {
        proof {
            assert(ids.take(i + 1).drop_last() =~= ids.take(i as int));
            assert(ids.take(i + 1).last() == rule_pack_ids@[i as int]@);
        }
        let ghost enabled_view = crate::config::string_views(config.cleanup.enabled_rule_packs@);
        let mut present = false;
        let mut k: usize = 0;
        while k < config.cleanup.enabled_rule_packs.len()
            invariant
                i < rule_pack_ids@.len(),
                k <= config.cleanup.enabled_rule_packs@.len(),
                enabled_view == crate::config::string_views(config.cleanup.enabled_rule_packs@),
                present == exists|q: int| 0 <= q < k && (#[trigger] config.cleanup.enabled_rule_packs@[q])@ == rule_pack_ids@[i as int]@,
            decreases config.cleanup.enabled_rule_packs.len() - k,
        {
            if str_eq(config.cleanup.enabled_rule_packs[k].as_str(), rule_pack_ids[i].as_str()) {
                present = true;
            }
            k = k + 1;
        }
        proof {
            if enabled_view.contains(rule_pack_ids@[i as int]@) {
                let q = choose|q: int| 0 <= q < enabled_view.len() && enabled_view[q] == rule_pack_ids@[i as int]@;
                assert(config.cleanup.enabled_rule_packs@[q]@ == enabled_view[q]);
                assert(present);
            }
            if present {
                let q = choose|q: int| 0 <= q < config.cleanup.enabled_rule_packs@.len() && (#[trigger] config.cleanup.enabled_rule_packs@[q])@ == rule_pack_ids@[i as int]@;
                assert(enabled_view[q] == config.cleanup.enabled_rule_packs@[q]@);
            }
        }
        if !present {
            config.cleanup.enabled_rule_packs.push(rule_pack_ids[i].clone());
            assert(crate::config::string_views(config.cleanup.enabled_rule_packs@) =~= enabled_view.push(rule_pack_ids@[i as int]@));
        }
        i = i + 1;
    }
    assert(ids.take(rule_pack_ids@.len() as int) =~= ids);
}

/// `v` without the entries whose text `drop` marks.
pub open spec fn kept_texts(v: Seq<String>, drop: spec_fn(Seq<char>) -> bool) -> Seq<Seq<char>>
    decreases v.len(),
{
    if v.len() == 0 {
        Seq::empty()
    } else {
        kept_texts(v.drop_last(), drop) + if drop(v.last()@) { Seq::empty() } else { seq![v.last()@] }
    }
}

/// The texts of `ids`.
pub open spec fn id_texts(ids: Seq<String>) -> Set<Seq<char>> {
    Set::new(|t: Seq<char>| exists|k: int| 0 <= k < ids.len() && (#[trigger] ids[k])@ == t)
}

fn retain_strings(v: &Vec<String>, drop: &[String]) -> (res: Vec<String>)
    ensures
        crate::config::string_views(res@) == kept_texts(v@, |t: Seq<char>| id_texts(drop@).contains(t)),
{
    let ghost pred = |t: Seq<char>| id_texts(drop@).contains(t);
    let mut res: Vec<String> = Vec::new();
    let mut i: usize = 0;
    while i < v.len()
        invariant
            i <= v@.len(),
            pred == (|t: Seq<char>| id_texts(drop@).contains(t)),
            crate::config::string_views(res@) == kept_texts(v@.take(i as int), pred),
        decreases v.len() - i,
    {
        proof {
            assert(v@.take(i + 1).drop_last() =~= v@.take(i as int));
            assert(v@.take(i + 1).last() == v@[i as int]);
        }
        let mut matched = false;
        let mut k: usize = 0;
        while k < drop.len()
            invariant
                i < v@.len(),
                k <= drop@.len(),
                matched == exists|q: int| 0 <= q < k && (#[trigger] drop@[q])@ == v@[i as int]@,
            decreases drop.len() - k,
        {
            if str_eq(drop[k].as_str(), v[i].as_str()) {
                matched = true;
            }
            k = k + 1;
        }
        assert(matched == id_texts(drop@).contains(v@[i as int]@));
        let ghost before = res@;
        if !matched {
            res.push(v[i].clone());
            assert(crate::config::string_views(res@) =~= crate::config::string_views(before).push(v@[i as int]@));
        }
        i = i + 1;
    }
    assert(v@.take(v@.len() as int) =~= v@);
    res
}

/// Forget a removed plugin: it is no longer trusted, and its rule packs are no longer enabled.
pub fn remove_config_references(config: &mut crate::config::Config, plugin_id: &str, rule_pack_ids: &[String])
    ensures
        crate::config::string_views(final(config).plugins.trusted@) == kept_texts(old(config).plugins.trusted@, |t: Seq<char>| t == plugin_id@),
        crate::config::string_views(final(config).cleanup.enabled_rule_packs@) == kept_texts(old(config).cleanup.enabled_rule_packs@,
            |t: Seq<char>| id_texts(rule_pack_ids@).contains(t)),
        final(config).scan == old(config).scan,
        final(config).recommendations == old(config).recommendations,
        final(config).i18n == old(config).i18n,
        final(config).ui == old(config).ui,
        final(config).plugins.dirs == old(config).plugins.dirs,
        final(config).cleanup.default_action == old(config).cleanup.default_action,
        final(config).cleanup.require_confirm == old(config).cleanup.require_confirm,
{
    let mut single: Vec<String> = Vec::new();
    single.push(plugin_id.to_owned());
    let trusted = retain_strings(&config.plugins.trusted, single.as_slice());
    proof {
        assert((|t: Seq<char>| id_texts(single@).contains(t)) =~= (|t: Seq<char>| t == plugin_id@)) by {
            assert forall|t: Seq<char>| id_texts(single@).contains(t) == (t == plugin_id@) by {
                if t == plugin_id@ {
                    assert(single@[0]@ == t);
                }
            }
        }
    }
    let enabled = retain_strings(&config.cleanup.enabled_rule_packs, rule_pack_ids);
    config.plugins.trusted = trusted;
    config.cleanup.enabled_rule_packs = enabled;
}

/// A download's expected SHA-256, where one is given, is 64 hexadecimal bytes.
pub open spec fn expected_sha256_valid(expected: Option<Seq<char>>) -> bool {
    match expected {
        None => true,
        Some(e) => vstd::utf8::encode_utf8(e).len() == 64 && sha256_text_valid(e),
    }
}

/// Check the expected SHA-256 of a language download before downloading.
pub fn validate_expected_sha256(expected_sha256: Option<&str>) -> (res: Result<(), String>)
    ensures
        res is Ok <==> expected_sha256_valid(match expected_sha256 { Some(e) => Some(e@), None => None }),
{
    match expected_sha256 {
        None => Ok(()),
        Some(expected) => {
            let bytes = expected.as_bytes();
            if bytes.len() == 64 && sha256_text_check(expected) {
                Ok(())
            } else {
                Err("expected language SHA-256 must contain exactly 64 hexadecimal characters".to_owned())
            }
        },
    }
}

} // verus!
