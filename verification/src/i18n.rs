//! Locales and language packs: normalizing locale identifiers, choosing a pack for a requested
//! locale, and looking up translated messages.
use vstd::prelude::*;
use vstd::string::StringSliceAdditionalSpecFns;

use crate::plugin::{github_ref_valid, github_repo_valid, validate_github_ref, validate_github_repo};
use crate::text::{
    ascii_lower, ascii_upper, chars_of, concat, lower_all, str_eq, string_from_chars, upper_all,
};

verus! {

/// The locale used when no pack matches the requested one.
pub const FALLBACK_LOCALE: &'static str = "en-US";

/// Where a language pack came from.
#[derive(Debug, Clone, PartialEq, Eq)]
pub enum LanguagePackSource {
    Builtin,
    UserFile(String),
    Plugin { id: String, path: String },
}

/// A loaded language pack.
#[derive(Debug, Clone, PartialEq, Eq)]
pub struct LanguagePackInfo {
    pub id: String,
    pub locale: String,
    pub name: String,
    pub version: String,
    pub source: LanguagePackSource,
}

/// Why a language download is refused.
#[derive(Debug, PartialEq, Eq)]
pub enum LanguageError {
    InvalidGithubRepo,
    InvalidGithubRef,
    InvalidLocale { locale: String },
    MalformedExpectedHash,
    TooLarge,
    HashMismatch { expected: String, actual: String },
}

/// The message for a refused language download.
pub open spec fn language_error_text(e: LanguageError) -> Seq<char> {
    match e {
        LanguageError::InvalidGithubRepo => "GitHub repo must be in owner/name form"@,
        LanguageError::InvalidGithubRef => "GitHub reference contains unsupported characters"@,
        LanguageError::InvalidLocale { locale } => "invalid locale identifier: "@ + locale@,
        LanguageError::MalformedExpectedHash => "expected language SHA-256 must contain exactly 64 hexadecimal characters"@,
        LanguageError::TooLarge => "language file exceeds the 1 MiB size limit"@,
        LanguageError::HashMismatch { expected, actual } => "language file SHA-256 mismatch: expected "@ + expected@ + ", got "@ + actual@,
    }
}

impl LanguageError {
    /// The message shown to the user.
    pub fn message(&self) -> (res: String)
        ensures
            res@ == language_error_text(*self),
    {
        match self {
            LanguageError::InvalidGithubRepo => "GitHub repo must be in owner/name form".to_owned(),
            LanguageError::InvalidGithubRef => "GitHub reference contains unsupported characters".to_owned(),
            LanguageError::InvalidLocale { locale } => concat("invalid locale identifier: ", locale.as_str()),
            LanguageError::MalformedExpectedHash => "expected language SHA-256 must contain exactly 64 hexadecimal characters".to_owned(),
            LanguageError::TooLarge => "language file exceeds the 1 MiB size limit".to_owned(),
            LanguageError::HashMismatch { expected, actual } => {
                let head = concat("language file SHA-256 mismatch: expected ", expected.as_str());
                let middle = concat(head.as_str(), ", got ");
                concat(middle.as_str(), actual.as_str())
            },
        }
    }
}

// ---------------------------------------------------------------- locale identifiers

/// `s` up to its first `c`.
pub open spec fn before_char(s: Seq<char>, c: char) -> Seq<char>
    decreases s.len(),
{
    if s.len() == 0 {
        s
    } else if s[0] == c {
        Seq::empty()
    } else {
        seq![s[0]] + before_char(s.drop_first(), c)
    }
}

/// `s` after its first `c`, if it holds one.
pub open spec fn after_char(s: Seq<char>, c: char) -> Option<Seq<char>>
    decreases s.len(),
{
    if s.len() == 0 {
        None
    } else if s[0] == c {
        Some(s.drop_first())
    } else {
        after_char(s.drop_first(), c)
    }
}

/// `s` with every `_` made `-`.
pub open spec fn underscores_dashed(s: Seq<char>) -> Seq<char> {
    Seq::new(s.len(), |i: int| if s[i] == '_' { '-' } else { s[i] })
}

/// The canonical form of a locale identifier: encoding (`.…`) and modifier (`@…`) dropped,
/// `_` read as `-`, the language in lower case and the region, if any, in upper case.
pub open spec fn normalized_locale(locale: Seq<char>) -> Seq<char> {
    let base = underscores_dashed(before_char(before_char(locale, '.'), '@'));
    let language = lower_all(before_char(base, '-'));
    match after_char(base, '-') {
        Some(rest) => {
            let region = upper_all(before_char(rest, '-'));
            if region.len() > 0 { language + seq!['-'] + region } else { language }
        },
        None => language,
    }
}

/// The language part of a locale identifier.
pub open spec fn language_part(locale: Seq<char>) -> Seq<char> {
    let n = normalized_locale(locale);
    match after_char(n, '-') {
        Some(_) => before_char(n, '-'),
        None => n,
    }
}

/// The position of the first `c` in `chars` at or after `from`, or the length.
fn find_char(chars: &Vec<char>, from: usize, c: char) -> (res: usize)
    requires
        from <= chars@.len(),
    ensures
        from <= res <= chars@.len(),
        before_char(chars@.skip(from as int), c) == chars@.subrange(from as int, res as int),
        after_char(chars@.skip(from as int), c) == if res < chars@.len() { Some(chars@.skip(res + 1)) } else { None::<Seq<char>> },
{
    let mut i: usize = from;
    while i < chars.len() && chars[i] != c
        invariant
            from <= i <= chars@.len(),
            forall|k: int| from <= k < i ==> chars@[k] != c,
        decreases chars.len() - i,
    {
        i = i + 1;
    }
    proof {
        lemma_find_char(chars@, from as int, i as int, c);
    }
    i
}

proof fn lemma_find_char(s: Seq<char>, from: int, i: int, c: char)
    requires
        0 <= from <= i <= s.len(),
        forall|k: int| from <= k < i ==> s[k] != c,
        i == s.len() || s[i] == c,
    ensures
        before_char(s.skip(from), c) == s.subrange(from, i),
        after_char(s.skip(from), c) == if i < s.len() { Some(s.skip(i + 1)) } else { None::<Seq<char>> },
    decreases i - from,
{
    if from == i {
        if i < s.len() {
            assert(s.skip(from)[0] == c);
            assert(s.skip(from).drop_first() =~= s.skip(i + 1));
        } else {
            assert(s.skip(from).len() == 0);
        }
        assert(s.subrange(from, i) =~= Seq::<char>::empty());
    } else {
        lemma_find_char(s, from + 1, i, c);
        assert(s.skip(from).drop_first() =~= s.skip(from + 1));
        assert(s.skip(from)[0] == s[from]);
        assert(seq![s[from]] + s.subrange(from + 1, i) =~= s.subrange(from, i));
    }
}

fn lower_chars(v: &[char]) -> (res: Vec<char>)
    ensures
        res@ == lower_all(v@),
{
    let ghost s = v@;
    let mut res: Vec<char> = Vec::new();
    let mut i: usize = 0;
    while i < v.len()
        invariant
            i <= v@.len(),
            v@ == s,
            res@ == lower_all(s).take(i as int),
        decreases v.len() - i,
    {
        res.push(crate::text::ascii_lower_char(v[i]));
        assert(lower_all(s).take(i + 1) =~= lower_all(s).take(i as int).push(ascii_lower(s[i as int])));
        i = i + 1;
    }
    assert(lower_all(s).take(v@.len() as int) =~= lower_all(s));
    res
}

fn upper_chars(v: &[char]) -> (res: Vec<char>)
    ensures
        res@ == upper_all(v@),
{
    let ghost s = v@;
    let mut res: Vec<char> = Vec::new();
    let mut i: usize = 0;
    while i < v.len()
        invariant
            i <= v@.len(),
            v@ == s,
            res@ == upper_all(s).take(i as int),
        decreases v.len() - i,
    {
        res.push(crate::text::ascii_upper_char(v[i]));
        assert(upper_all(s).take(i + 1) =~= upper_all(s).take(i as int).push(ascii_upper(s[i as int])));
        i = i + 1;
    }
    assert(upper_all(s).take(v@.len() as int) =~= upper_all(s));
    res
}

/// The canonical form of a locale identifier.
pub fn normalize_locale(locale: &str) -> (res: String)
    ensures
        res@ == normalized_locale(locale@),
{
    let chars = chars_of(locale);
    assert(chars@.skip(0) =~= chars@);
    let dot = find_char(&chars, 0, '.');
    let first = vstd::slice::slice_subrange(chars.as_slice(), 0, dot);
    let mut first_vec: Vec<char> = Vec::new();
    let mut k: usize = 0;
    while k < first.len()
        invariant
            k <= first@.len(),
            first_vec@ == first@.take(k as int),
        decreases first.len() - k,
    {
        first_vec.push(first[k]);
        assert(first@.take(k + 1) =~= first@.take(k as int).push(first@[k as int]));
        k = k + 1;
    }
    assert(first@.take(first@.len() as int) =~= first@);
    assert(first_vec@.skip(0) =~= first_vec@);
    let at = find_char(&first_vec, 0, '@');
    let mut base: Vec<char> = Vec::new();
    let mut i: usize = 0;
    let ghost b0 = first_vec@.subrange(0, at as int);
    while i < at
        invariant
            i <= at <= first_vec@.len(),
            b0 == first_vec@.subrange(0, at as int),
            base@ == underscores_dashed(b0).take(i as int),
        decreases at - i,
    {
        let c = first_vec[i];
        base.push(if c == '_' { '-' } else { c });
        assert(underscores_dashed(b0).take(i + 1) =~= underscores_dashed(b0).take(i as int).push(underscores_dashed(b0)[i as int]));
        i = i + 1;
    }
    assert(underscores_dashed(b0).take(at as int) =~= underscores_dashed(b0));
    assert(base@.skip(0) =~= base@);
    let dash = find_char(&base, 0, '-');
    let language_part = vstd::slice::slice_subrange(base.as_slice(), 0, dash);
    let language = lower_chars(language_part);
    if dash < base.len() {
        let second_end = find_char(&base, dash + 1, '-');
        let region_part = vstd::slice::slice_subrange(base.as_slice(), dash + 1, second_end);
        let region = upper_chars(region_part);
        if region.len() > 0 {
            let mut out = language;
            out.push('-');
            let ghost lang_view = out@;
            let mut r: usize = 0;
            while r < region.len()
                invariant
                    r <= region@.len(),
                    out@ == lang_view + region@.take(r as int),
                decreases region.len() - r,
            {
                out.push(region[r]);
                assert(lang_view + region@.take(r + 1) =~= (lang_view + region@.take(r as int)).push(region@[r as int]));
                r = r + 1;
            }
            assert(region@.take(region@.len() as int) =~= region@);
            return string_from_chars(out.as_slice());
        }
    }
    string_from_chars(language.as_slice())
}

/// The language part of a locale identifier.
pub fn language_of(locale: &str) -> (res: String)
    ensures
        res@ == language_part(locale@),
{
    let normalized = normalize_locale(locale);
    let chars = chars_of(normalized.as_str());
    assert(chars@.skip(0) =~= chars@);
    let dash = find_char(&chars, 0, '-');
    if dash < chars.len() {
        let part = vstd::slice::slice_subrange(chars.as_slice(), 0, dash);
        string_from_chars(part)
    } else {
        normalized
    }
}

/// Whether two locale identifiers name the same locale.
pub fn same_locale(a: &str, b: &str) -> (res: bool)
    ensures
        res == (normalized_locale(a@) == normalized_locale(b@)),
{
    let na = normalize_locale(a);
    let nb = normalize_locale(b);
    str_eq(na.as_str(), nb.as_str())
}

/// A byte of a locale identifier: an ASCII letter or digit, or `-`.
pub open spec fn locale_byte(b: u8) -> bool {
    (48 <= b <= 57) || (65 <= b <= 90) || (97 <= b <= 122) || b == 45
}

/// A locale identifier is one to 35 bytes of letters, digits and inner `-`.
pub open spec fn locale_valid(locale: Seq<char>) -> bool {
    let b = vstd::utf8::encode_utf8(locale);
    &&& 0 < b.len() <= 35
    &&& b[0] != 45u8
    &&& b[b.len() - 1] != 45u8
    &&& forall|i: int| 0 <= i < b.len() ==> locale_byte(#[trigger] b[i])
}

/// Check a locale identifier.
pub fn validate_locale(locale: &str) -> (res: Result<(), LanguageError>)
    ensures
        res is Ok <==> locale_valid(locale@),
        res matches Err(e) ==> (e matches LanguageError::InvalidLocale { locale: l } && l@ == locale@),
{
    let bytes = locale.as_bytes();
    if bytes.len() == 0 || bytes.len() > 35 || bytes[0] == 45 || bytes[bytes.len() - 1] == 45 {
        return Err(LanguageError::InvalidLocale { locale: locale.to_owned() });
    }
    let mut i: usize = 0;
    while i < bytes.len()
        invariant
            i <= bytes@.len(),
            bytes@ == vstd::utf8::encode_utf8(locale@),
            forall|k: int| 0 <= k < i ==> locale_byte(#[trigger] bytes@[k]),
        decreases bytes.len() - i,
    {
        let b = bytes[i];
        if !((48 <= b && b <= 57) || (65 <= b && b <= 90) || (97 <= b && b <= 122) || b == 45) {
            return Err(LanguageError::InvalidLocale { locale: locale.to_owned() });
        }
        i = i + 1;
    }
    Ok(())
}

/// The raw GitHub address of the language file for `locale` in `repo` at `reference`.
pub open spec fn github_language_url(repo: Seq<char>, reference: Seq<char>, locale: Seq<char>) -> Seq<char> {
    "https://raw.githubusercontent.com/"@ + repo + "/"@ + reference + "/crates/i18n/locales/"@ + normalized_locale(locale) + ".yml"@
}

/// The raw GitHub address of a language file, once the repository, reference and locale are
/// checked.
pub fn github_raw_language_url(repo: &str, reference: &str, locale: &str) -> (res: Result<String, LanguageError>)
    ensures
        !github_repo_valid(repo@) ==> res == Err::<String, LanguageError>(LanguageError::InvalidGithubRepo),
        github_repo_valid(repo@) && !github_ref_valid(reference@) ==> res == Err::<String, LanguageError>(LanguageError::InvalidGithubRef),
        github_repo_valid(repo@) && github_ref_valid(reference@) ==> if locale_valid(normalized_locale(locale@)) {
            res matches Ok(url) && url@ == github_language_url(repo@, reference@, locale@)
        } else {
            res matches Err(LanguageError::InvalidLocale { locale: l }) && l@ == normalized_locale(locale@)
        },
{
    if validate_github_repo(repo).is_err() {
        return Err(LanguageError::InvalidGithubRepo);
    }
    if validate_github_ref(reference).is_err() {
        return Err(LanguageError::InvalidGithubRef);
    }
    let normalized = normalize_locale(locale);
    validate_locale(normalized.as_str())?;
    let a = concat("https://raw.githubusercontent.com/", repo);
    let b = concat(a.as_str(), "/");
    let c = concat(b.as_str(), reference);
    let d = concat(c.as_str(), "/crates/i18n/locales/");
    let e = concat(d.as_str(), normalized.as_str());
    Ok(concat(e.as_str(), ".yml"))
}

// ---------------------------------------------------------------- downloads

/// The largest language file that is downloaded, in bytes.
pub const MAX_LANGUAGE_BYTES: u64 = 1048576;

/// The expected hash of a download as text, where one is given.
pub open spec fn expected_view(expected: Option<&str>) -> Option<Seq<char>> {
    match expected {
        Some(e) => Some(e@),
        None => None,
    }
}

/// The locale a language file is stored under and the address it is fetched from; or why the
/// request is refused before anything is fetched, checked in order: the locale, the expected
/// hash, the repository, the reference.
pub fn plan_language_download(locale: &str, repo: &str, reference: &str, expected_sha256: Option<&str>) -> (res: Result<(String, String), LanguageError>)
    ensures
        !locale_valid(normalized_locale(locale@)) ==> (res matches Err(LanguageError::InvalidLocale { locale: l })
            && l@ == normalized_locale(locale@)),
        locale_valid(normalized_locale(locale@)) && !crate::plugin::expected_sha256_valid(expected_view(expected_sha256))
            ==> res == Err::<(String, String), LanguageError>(LanguageError::MalformedExpectedHash),
        locale_valid(normalized_locale(locale@)) && crate::plugin::expected_sha256_valid(expected_view(expected_sha256))
            && !github_repo_valid(repo@) ==> res == Err::<(String, String), LanguageError>(LanguageError::InvalidGithubRepo),
        locale_valid(normalized_locale(locale@)) && crate::plugin::expected_sha256_valid(expected_view(expected_sha256))
            && github_repo_valid(repo@) && !github_ref_valid(reference@) ==> res == Err::<(String, String), LanguageError>(LanguageError::InvalidGithubRef),
        locale_valid(normalized_locale(locale@)) && crate::plugin::expected_sha256_valid(expected_view(expected_sha256))
            && github_repo_valid(repo@) && github_ref_valid(reference@) ==> (res matches Ok((l, url))
            && l@ == normalized_locale(locale@) && url@ == github_language_url(repo@, reference@, locale@)),
{
    let normalized = normalize_locale(locale);
    validate_locale(normalized.as_str())?;
    if crate::plugin::validate_expected_sha256(expected_sha256).is_err() {
        return Err(LanguageError::MalformedExpectedHash);
    }
    let url = github_raw_language_url(repo, reference, locale)?;
    Ok((normalized, url))
}

/// A downloaded language file of `len` bytes is refused when it exceeds the size limit.
pub fn check_language_size(len: u64) -> (res: Result<(), LanguageError>)
    ensures
        res is Ok <==> len <= MAX_LANGUAGE_BYTES,
        res is Err ==> res == Err::<(), LanguageError>(LanguageError::TooLarge),
{
    if len > MAX_LANGUAGE_BYTES {
        Err(LanguageError::TooLarge)
    } else {
        Ok(())
    }
}

/// A downloaded language file `body` is refused when an expected hash is given and the
/// SHA-256 of the body differs from it, letter case aside.
pub fn check_language_hash(body: &[u8], expected_sha256: Option<&str>) -> (res: Result<(), LanguageError>)
    ensures
        match expected_sha256 {
            None => res is Ok,
            Some(e) => if lower_all(crate::plugin::sha256_hex_of(body@)) == lower_all(e@) {
                res is Ok
            } else {
                res matches Err(LanguageError::HashMismatch { expected: x, actual: a }) && x@ == e@
                    && a@ == crate::plugin::sha256_hex_of(body@)
            },
        },
{
    match expected_sha256 {
        None => Ok(()),
        Some(expected) => {
            let actual = crate::plugin::sha256_hex(body);
            let a = crate::text::to_ascii_lowercase(actual.as_str());
            let b = crate::text::to_ascii_lowercase(expected);
            if crate::path::chars_equal(&a, &b) {
                Ok(())
            } else {
                Err(LanguageError::HashMismatch { expected: expected.to_owned(), actual })
            }
        },
    }
}

// ---------------------------------------------------------------- packs

/// The language packs compiled into the program.
pub fn builtin_language_packs() -> (res: Vec<LanguagePackInfo>)
    ensures
        res@.len() == 2,
        res@[0].id@ == "builtin-en-us"@ && res@[0].locale@ == "en-US"@ && res@[0].name@ == "English (United States)"@
            && res@[0].version@ == "0.1.0"@ && res@[0].source == LanguagePackSource::Builtin,
        res@[1].id@ == "builtin-zh-cn"@ && res@[1].locale@ == "zh-CN"@ && res@[1].name@ == "简体中文"@
            && res@[1].version@ == "0.1.0"@ && res@[1].source == LanguagePackSource::Builtin,
{
    let mut packs: Vec<LanguagePackInfo> = Vec::new();
    packs.push(LanguagePackInfo {
        id: "builtin-en-us".to_owned(),
        locale: "en-US".to_owned(),
        name: "English (United States)".to_owned(),
        version: "0.1.0".to_owned(),
        source: LanguagePackSource::Builtin,
    });
    packs.push(LanguagePackInfo {
        id: "builtin-zh-cn".to_owned(),
        locale: "zh-CN".to_owned(),
        name: "简体中文".to_owned(),
        version: "0.1.0".to_owned(),
        source: LanguagePackSource::Builtin,
    });
    packs
}

/// The locales compiled into the program.
pub fn available_builtin_locales() -> (res: Vec<&'static str>)
    ensures
        res@.len() == 2,
        res@[0]@ == "en-US"@,
        res@[1]@ == "zh-CN"@,
{
    let mut v: Vec<&'static str> = Vec::new();
    v.push("en-US");
    v.push("zh-CN");
    v
}

/// The built-in locale whose file serves `locale`, if one does.
pub open spec fn builtin_locale_for(locale: Seq<char>) -> Option<Seq<char>> {
    let n = normalized_locale(locale);
    if n == "en-US"@ || n == "en"@ {
        Some("en-US"@)
    } else if n == "zh-CN"@ || n == "zh"@ {
        Some("zh-CN"@)
    } else {
        None
    }
}

/// The built-in locale whose file serves `locale`, if one does.
pub fn builtin_locale_id(locale: &str) -> (res: Option<&'static str>)
    ensures
        match builtin_locale_for(locale@) {
            Some(l) => res matches Some(r) && r@ == l,
            None => res is None,
        },
{
    let n = normalize_locale(locale);
    let t = n.as_str();
    if str_eq(t, "en-US") || str_eq(t, "en") {
        Some("en-US")
    } else if str_eq(t, "zh-CN") || str_eq(t, "zh") {
        Some("zh-CN")
    } else {
        None
    }
}

/// The position of the first pack satisfying `matches`.
pub open spec fn first_pack(packs: Seq<LanguagePackInfo>, matches: spec_fn(LanguagePackInfo) -> bool) -> Option<int>
    decreases packs.len(),
{
    if packs.len() == 0 {
        None
    } else {
        match first_pack(packs.drop_last(), matches) {
            Some(i) => Some(i),
            None => if matches(packs.last()) { Some(packs.len() - 1) } else { None },
        }
    }
}

/// The locale chosen for a request: the first pack of the same locale, or else the first pack
/// of the same language.
pub open spec fn selected_locale(packs: Seq<LanguagePackInfo>, requested: Seq<char>) -> Option<Seq<char>> {
    let r = normalized_locale(requested);
    match first_pack(packs, |p: LanguagePackInfo| normalized_locale(p.locale@) == normalized_locale(r)) {
        Some(i) => Some(packs[i].locale@),
        None => match first_pack(packs, |p: LanguagePackInfo| language_part(p.locale@) == language_part(r)) {
            Some(i) => Some(packs[i].locale@),
            None => None,
        },
    }
}

proof fn lemma_first_pack_step(packs: Seq<LanguagePackInfo>, m: spec_fn(LanguagePackInfo) -> bool, i: int)
    requires
        0 <= i < packs.len(),
    ensures
        first_pack(packs.take(i + 1), m) == match first_pack(packs.take(i), m) {
            Some(j) => Some(j),
            None => if m(packs[i]) { Some(i) } else { None },
        },
{
    assert(packs.take(i + 1).drop_last() =~= packs.take(i));
}

proof fn lemma_first_pack_bounds(packs: Seq<LanguagePackInfo>, m: spec_fn(LanguagePackInfo) -> bool)
    ensures
        first_pack(packs, m) matches Some(i) ==> 0 <= i < packs.len() && m(packs[i]),
    decreases packs.len(),
{
    if packs.len() > 0 {
        lemma_first_pack_bounds(packs.drop_last(), m);
    }
}

/// The locale of the first pack that matches the requested locale, or else its language.
pub fn select_locale(packs: &[LanguagePackInfo], requested_locale: &str) -> (res: Option<String>)
    ensures
        match selected_locale(packs@, requested_locale@) {
            Some(l) => res matches Some(s) && s@ == l,
            None => res is None,
        },
{
    let requested = normalize_locale(requested_locale);
    let ghost same = |p: LanguagePackInfo| normalized_locale(p.locale@) == normalized_locale(requested@);
    let ghost lang = |p: LanguagePackInfo| language_part(p.locale@) == language_part(requested@);
    let mut i: usize = 0;
    assert(packs@.take(0) =~= Seq::<LanguagePackInfo>::empty());
    while i < packs.len()
        invariant
            i <= packs@.len(),
            requested@ == normalized_locale(requested_locale@),
            same == (|p: LanguagePackInfo| normalized_locale(p.locale@) == normalized_locale(requested@)),
            first_pack(packs@.take(i as int), same) is None,
        decreases packs.len() - i,
    {
        proof {
            lemma_first_pack_step(packs@, same, i as int);
        }
        if same_locale(packs[i].locale.as_str(), requested.as_str()) {
            proof {
                lemma_first_pack_prefix(packs@, same, i as int + 1);
            }
            return Some(packs[i].locale.clone());
        }
        i = i + 1;
    }
    assert(packs@.take(packs@.len() as int) =~= packs@);
    let requested_language = language_of(requested.as_str());
    let mut j: usize = 0;
    while j < packs.len()
        invariant
            j <= packs@.len(),
            requested@ == normalized_locale(requested_locale@),
            first_pack(packs@, same) is None,
            same == (|p: LanguagePackInfo| normalized_locale(p.locale@) == normalized_locale(requested@)),
            lang == (|p: LanguagePackInfo| language_part(p.locale@) == language_part(requested@)),
            requested_language@ == language_part(requested@),
            first_pack(packs@.take(j as int), lang) is None,
        decreases packs.len() - j,
    {
        proof {
            lemma_first_pack_step(packs@, lang, j as int);
        }
        let language = language_of(packs[j].locale.as_str());
        if str_eq(language.as_str(), requested_language.as_str()) {
            proof {
                lemma_first_pack_prefix(packs@, lang, j as int + 1);
                let r = normalized_locale(requested_locale@);
                assert(same =~= (|p: LanguagePackInfo| normalized_locale(p.locale@) == normalized_locale(r)));
                assert(lang =~= (|p: LanguagePackInfo| language_part(p.locale@) == language_part(r)));
            }
            return Some(packs[j].locale.clone());
        }
        j = j + 1;
    }
    assert(packs@.take(packs@.len() as int) =~= packs@);
    None
}

proof fn lemma_first_pack_prefix(packs: Seq<LanguagePackInfo>, m: spec_fn(LanguagePackInfo) -> bool, k: int)
    requires
        0 <= k <= packs.len(),
        first_pack(packs.take(k), m) is Some,
    ensures
        first_pack(packs, m) == first_pack(packs.take(k), m),
    decreases packs.len() - k,
{
    if k < packs.len() {
        lemma_first_pack_step(packs, m, k);
        lemma_first_pack_prefix(packs, m, k + 1);
    } else {
        assert(packs.take(k) =~= packs);
    }
}

/// Add `pack`, replacing the first pack with its identifier or locale.
pub fn upsert_pack(packs: &mut Vec<LanguagePackInfo>, pack: LanguagePackInfo)
    ensures
        match first_pack(old(packs)@, |p: LanguagePackInfo| p.id@ == pack.id@ || normalized_locale(p.locale@) == normalized_locale(pack.locale@)) {
            Some(i) => final(packs)@ == old(packs)@.update(i, pack),
            None => final(packs)@ == old(packs)@.push(pack),
        },
{
    let ghost m = |p: LanguagePackInfo| p.id@ == pack.id@ || normalized_locale(p.locale@) == normalized_locale(pack.locale@);
    let mut i: usize = 0;
    assert(packs@.take(0) =~= Seq::<LanguagePackInfo>::empty());
    while i < packs.len()
        invariant
            i <= packs@.len(),
            packs@ == old(packs)@,
            m == (|p: LanguagePackInfo| p.id@ == pack.id@ || normalized_locale(p.locale@) == normalized_locale(pack.locale@)),
            first_pack(packs@.take(i as int), m) is None,
        decreases packs.len() - i,
    {
        proof {
            lemma_first_pack_step(packs@, m, i as int);
        }
        if str_eq(packs[i].id.as_str(), pack.id.as_str()) || same_locale(packs[i].locale.as_str(), pack.locale.as_str()) {
            proof {
                lemma_first_pack_prefix(packs@, m, i as int + 1);
            }
            packs.set(i, pack);
            return;
        }
        i = i + 1;
    }
    assert(packs@.take(packs@.len() as int) =~= packs@);
    packs.push(pack);
}


// ---------------------------------------------------------------- translations

/// The messages of one locale, keyed by dotted message key.
#[derive(Debug, Clone, PartialEq, Eq)]
pub struct LocaleMessages {
    pub locale: String,
    pub messages: Vec<(String, String)>,
}

/// The overlay messages of `locale` among `overlays`: those of the first overlay registered for
/// exactly that locale.
pub open spec fn overlay_for(overlays: Seq<LocaleMessages>, locale: Seq<char>) -> Option<Seq<(String, String)>>
    decreases overlays.len(),
{
    if overlays.len() == 0 {
        None
    } else if overlays[0].locale@ == locale {
        Some(overlays[0].messages@)
    } else {
        overlay_for(overlays.drop_first(), locale)
    }
}

/// The text of the first message with key `key`.
pub open spec fn message_for(messages: Seq<(String, String)>, key: Seq<char>) -> Option<Seq<char>>
    decreases messages.len(),
{
    if messages.len() == 0 {
        None
    } else if messages[0].0@ == key {
        Some(messages[0].1@)
    } else {
        message_for(messages.drop_first(), key)
    }
}

/// The overlay text of `key` for `locale`, the locale taken in its canonical form.
pub open spec fn overlay_text_of(overlays: Seq<LocaleMessages>, locale: Seq<char>, key: Seq<char>) -> Option<Seq<char>> {
    match overlay_for(overlays, normalized_locale(locale)) {
        Some(messages) => message_for(messages, key),
        None => None,
    }
}

/// The overlay text of `key`: for the locale, then its language, then the fallback locale, then
/// the fallback's language.
pub open spec fn translated_text(overlays: Seq<LocaleMessages>, locale: Seq<char>, key: Seq<char>) -> Option<Seq<char>> {
    match overlay_text_of(overlays, locale, key) {
        Some(t) => Some(t),
        None => match overlay_text_of(overlays, language_part(locale), key) {
            Some(t) => Some(t),
            None => match overlay_text_of(overlays, FALLBACK_LOCALE@, key) {
                Some(t) => Some(t),
                None => overlay_text_of(overlays, language_part(FALLBACK_LOCALE@), key),
            },
        },
    }
}

/// `text` with each `{name}` placeholder of the first `n` arguments replaced by its value, in
/// argument order.
pub open spec fn filled(text: Seq<char>, args: Seq<(&str, String)>, n: int) -> Seq<char>
    decreases n,
{
    if n <= 0 {
        text
    } else {
        crate::text::replace_all(filled(text, args, n - 1), seq!['{'] + args[n - 1].0@ + seq!['}'], args[n - 1].1@)
    }
}

/// Replace each `{name}` placeholder of `args` in `text` by its value, in argument order.
pub fn fill_placeholders(text: String, args: &[(&str, String)]) -> (res: String)
    ensures
        res@ == filled(text@, args@, args@.len() as int),
{
    let mut out = text;
    let mut i: usize = 0;
    while i < args.len()
        invariant
            i <= args@.len(),
            out@ == filled(text@, args@, i as int),
        decreases args.len() - i,
    {
        let (name, value) = &args[i];
        let a = concat("{", name);
        let pattern = concat(a.as_str(), "}");
        proof {
            reveal_strlit("{");
            reveal_strlit("}");
            assert(pattern@ =~= seq!['{'] + args@[i as int].0@ + seq!['}']);
        }
        out = crate::text::replace_text(out.as_str(), pattern.as_str(), value.as_str());
        i = i + 1;
    }
    out
}

/// Translations for the selected locale: overlay messages loaded from language packs, with the
/// packs that describe them.
#[derive(Debug, Clone)]
pub struct I18n {
    locale: String,
    overlays: Vec<LocaleMessages>,
    packs: Vec<LanguagePackInfo>,
    diagnostics: Vec<crate::plugin::PluginDiagnostic>,
}

impl I18n {
    pub closed spec fn spec_locale(&self) -> Seq<char> {
        self.locale@
    }

    pub closed spec fn spec_overlays(&self) -> Seq<LocaleMessages> {
        self.overlays@
    }

    pub closed spec fn spec_packs(&self) -> Seq<LanguagePackInfo> {
        self.packs@
    }

    pub closed spec fn spec_diagnostics(&self) -> Seq<crate::plugin::PluginDiagnostic> {
        self.diagnostics@
    }

    /// Translations for `requested_locale`, or the fallback locale where no pack serves it.
    pub fn new(requested_locale: &str, overlays: Vec<LocaleMessages>, packs: Vec<LanguagePackInfo>) -> (res: Self)
        ensures
            res.spec_locale() == match selected_locale(packs@, requested_locale@) {
                Some(l) => l,
                None => FALLBACK_LOCALE@,
            },
            res.spec_overlays() == overlays@,
            res.spec_packs() == packs@,
            res.spec_diagnostics().len() == 0,
    {
        let locale = match select_locale(packs.as_slice(), requested_locale) {
            Some(l) => l,
            None => FALLBACK_LOCALE.to_owned(),
        };
        I18n { locale, overlays, packs, diagnostics: Vec::new() }
    }

    /// The selected locale.
    pub fn locale(&self) -> (res: &str)
        ensures
            res@ == self.spec_locale(),
    {
        self.locale.as_str()
    }

    /// Select the pack for `locale`, or the fallback locale where none serves it.
    pub fn set_locale(&mut self, locale: &str)
        ensures
            final(self).spec_locale() == match selected_locale(old(self).spec_packs(), locale@) {
                Some(l) => l,
                None => FALLBACK_LOCALE@,
            },
            final(self).spec_overlays() == old(self).spec_overlays(),
            final(self).spec_packs() == old(self).spec_packs(),
            final(self).spec_diagnostics() == old(self).spec_diagnostics(),
    {
        self.locale = match select_locale(self.packs.as_slice(), locale) {
            Some(l) => l,
            None => FALLBACK_LOCALE.to_owned(),
        };
    }

    /// The known language packs.
    pub fn packs(&self) -> (res: &[LanguagePackInfo])
        ensures
            res@ == self.spec_packs(),
    {
        self.packs.as_slice()
    }

    /// What went wrong while loading language packs.
    pub fn diagnostics(&self) -> (res: &[crate::plugin::PluginDiagnostic])
        ensures
            res@ == self.spec_diagnostics(),
    {
        self.diagnostics.as_slice()
    }

    /// Replace the loading diagnostics.
    pub fn set_diagnostics(&mut self, diagnostics: Vec<crate::plugin::PluginDiagnostic>)
        ensures
            final(self).spec_diagnostics() == diagnostics@,
            final(self).spec_locale() == old(self).spec_locale(),
            final(self).spec_overlays() == old(self).spec_overlays(),
            final(self).spec_packs() == old(self).spec_packs(),
    {
        self.diagnostics = diagnostics;
    }

    /// The overlay text of `key` for `locale`.
    fn overlay_text(&self, locale: &str, key: &str) -> (res: Option<String>)
        ensures
            match overlay_text_of(self.spec_overlays(), locale@, key@) {
                Some(t) => res matches Some(s) && s@ == t,
                None => res is None,
            },
    {
        let normalized = normalize_locale(locale);
        let mut i: usize = 0;
        assert(self.overlays@.skip(0) =~= self.overlays@);
        while i < self.overlays.len()
            invariant
                i <= self.overlays@.len(),
                normalized@ == normalized_locale(locale@),
                overlay_for(self.overlays@, normalized@) == overlay_for(self.overlays@.skip(i as int), normalized@),
            decreases self.overlays.len() - i,
        {
            assert(self.overlays@.skip(i as int)[0] == self.overlays@[i as int]);
            if str_eq(self.overlays[i].locale.as_str(), normalized.as_str()) {
                let messages = &self.overlays[i].messages;
                let mut k: usize = 0;
                assert(messages@.skip(0) =~= messages@);
                assert(overlay_for(self.overlays@, normalized@) == Some(messages@));
                while k < messages.len()
                    invariant
                        k <= messages@.len(),
                        normalized@ == normalized_locale(locale@),
                        overlay_for(self.overlays@, normalized@) == Some(messages@),
                        message_for(messages@, key@) == message_for(messages@.skip(k as int), key@),
                    decreases messages.len() - k,
                {
                    assert(messages@.skip(k as int)[0] == messages@[k as int]);
                    if str_eq(messages[k].0.as_str(), key) {
                        return Some(messages[k].1.clone());
                    }
                    assert(messages@.skip(k as int).drop_first() =~= messages@.skip(k + 1));
                    k = k + 1;
                }
                assert(messages@.skip(k as int).len() == 0);
                return None;
            }
            assert(self.overlays@.skip(i as int).drop_first() =~= self.overlays@.skip(i + 1));
            i = i + 1;
        }
        assert(self.overlays@.skip(i as int).len() == 0);
        None
    }

    /// The overlay text of `key` for the selected locale, falling back to its language, then to
    /// the fallback locale and its language; `None` where no overlay has the key, and the caller
    /// then uses its built-in text.
    pub fn translated(&self, key: &str) -> (res: Option<String>)
        ensures
            match translated_text(self.spec_overlays(), self.spec_locale(), key@) {
                Some(t) => res matches Some(s) && s@ == t,
                None => res is None,
            },
    {
        if let Some(t) = self.overlay_text(self.locale.as_str(), key) {
            return Some(t);
        }
        let language = language_of(self.locale.as_str());
        if let Some(t) = self.overlay_text(language.as_str(), key) {
            return Some(t);
        }
        if let Some(t) = self.overlay_text(FALLBACK_LOCALE, key) {
            return Some(t);
        }
        let fallback_language = language_of(FALLBACK_LOCALE);
        self.overlay_text(fallback_language.as_str(), key)
    }
}

/// Record the parsed messages of a language file for `locale`: its overlay replaces any for that
/// locale, and its pack, `user-<locale>`, replaces any with that id or locale. A file without
/// messages is refused.
pub fn record_language_file(
    overlays: &mut Vec<LocaleMessages>,
    packs: &mut Vec<LanguagePackInfo>,
    locale: &str,
    messages: Vec<(String, String)>,
    name: Option<String>,
    version: Option<String>,
    source: LanguagePackSource,
) -> (res: bool)
    ensures
        res == (messages@.len() > 0),
        !res ==> final(overlays)@ == old(overlays)@ && final(packs)@ == old(packs)@,
        res ==> overlay_for(final(overlays)@, locale@) == Some(messages@),
        res ==> forall|l: Seq<char>| l != locale@ ==> #[trigger] overlay_for(final(overlays)@, l) == overlay_for(old(overlays)@, l),
        res ==> exists|p: LanguagePackInfo| {
            &&& #[trigger] pack_record(p, locale@, name, version, source)
            &&& match first_pack(old(packs)@, |q: LanguagePackInfo| q.id@ == p.id@ || normalized_locale(q.locale@) == normalized_locale(p.locale@)) {
                Some(i) => final(packs)@ == old(packs)@.update(i, p),
                None => final(packs)@ == old(packs)@.push(p),
            }
        },
{
    if messages.len() == 0 {
        return false;
    }
    let ghost before = overlays@;
    let found = overlay_index(overlays, locale);
    let entry = LocaleMessages { locale: locale.to_owned(), messages };
    let ghost entry_view = entry;
    if let Some(i) = found {
        overlays.set(i, entry);
        proof {
            lemma_overlay_update(before, i as int, entry_view);
        }
    } else {
        overlays.push(entry);
        proof {
            lemma_overlay_push(before, entry_view);
        }
    }
    let id = concat("user-", locale);
    let pack = LanguagePackInfo {
        id,
        locale: locale.to_owned(),
        name: match name {
            Some(n) => n,
            None => locale.to_owned(),
        },
        version: match version {
            Some(v) => v,
            None => "user".to_owned(),
        },
        source,
    };
    let ghost p = pack;
    upsert_pack(packs, pack);
    assert(pack_record(p, locale@, name, version, source));
    true
}

/// The position of the overlay for exactly `locale`, if any.
fn overlay_index(overlays: &Vec<LocaleMessages>, locale: &str) -> (res: Option<usize>)
    ensures
        match res {
            Some(i) => i < overlays@.len() && overlays@[i as int].locale@ == locale@
                && forall|k: int| 0 <= k < i ==> overlays@[k].locale@ != locale@,
            None => forall|k: int| 0 <= k < overlays@.len() ==> overlays@[k].locale@ != locale@,
        },
{
    let mut i: usize = 0;
    while i < overlays.len()
        invariant
            i <= overlays@.len(),
            forall|k: int| 0 <= k < i ==> overlays@[k].locale@ != locale@,
        decreases overlays.len() - i,
    {
        if str_eq(overlays[i].locale.as_str(), locale) {
            return Some(i);
        }
        i = i + 1;
    }
    None
}

/// `p` is the pack that a language file for `locale` with the given metadata describes.
pub open spec fn pack_record(p: LanguagePackInfo, locale: Seq<char>, name: Option<String>, version: Option<String>, source: LanguagePackSource) -> bool {
    &&& p.id@ == "user-"@ + locale
    &&& p.locale@ == locale
    &&& p.name@ == match name {
        Some(n) => n@,
        None => locale,
    }
    &&& p.version@ == match version {
        Some(v) => v@,
        None => "user"@,
    }
    &&& p.source == source
}

proof fn lemma_overlay_update(v: Seq<LocaleMessages>, i: int, e: LocaleMessages)
    requires
        0 <= i < v.len(),
        v[i].locale@ == e.locale@,
        forall|k: int| 0 <= k < i ==> v[k].locale@ != e.locale@,
    ensures
        overlay_for(v.update(i, e), e.locale@) == Some(e.messages@),
        forall|l: Seq<char>| l != e.locale@ ==> #[trigger] overlay_for(v.update(i, e), l) == overlay_for(v, l),
    decreases i,
{
    let u = v.update(i, e);
    if i > 0 {
        lemma_overlay_update(v.drop_first(), i - 1, e);
        assert(u.drop_first() =~= v.drop_first().update(i - 1, e));
        assert(u[0] == v[0]);
        assert forall|l: Seq<char>| l != e.locale@ implies #[trigger] overlay_for(u, l) == overlay_for(v, l) by {
            if v[0].locale@ != l {
                assert(overlay_for(v.drop_first().update(i - 1, e), l) == overlay_for(v.drop_first(), l));
            }
        }
    } else {
        assert(u[0] == e);
        assert(u.drop_first() =~= v.drop_first());
        assert forall|l: Seq<char>| l != e.locale@ implies #[trigger] overlay_for(u, l) == overlay_for(v, l) by {
            assert(overlay_for(u, l) == overlay_for(u.drop_first(), l));
            assert(overlay_for(v, l) == overlay_for(v.drop_first(), l));
        }
    }
}

proof fn lemma_overlay_push(v: Seq<LocaleMessages>, e: LocaleMessages)
    requires
        forall|k: int| 0 <= k < v.len() ==> v[k].locale@ != e.locale@,
    ensures
        overlay_for(v.push(e), e.locale@) == Some(e.messages@),
        forall|l: Seq<char>| l != e.locale@ ==> #[trigger] overlay_for(v.push(e), l) == overlay_for(v, l),
    decreases v.len(),
{
    let u = v.push(e);
    if v.len() > 0 {
        lemma_overlay_push(v.drop_first(), e);
        assert(u.drop_first() =~= v.drop_first().push(e));
        assert(u[0] == v[0]);
        assert forall|l: Seq<char>| l != e.locale@ implies #[trigger] overlay_for(u, l) == overlay_for(v, l) by {
            if v[0].locale@ != l {
                assert(overlay_for(v.drop_first().push(e), l) == overlay_for(v.drop_first(), l));
            }
        }
    } else {
        assert(u[0] == e);
        assert(u.drop_first() =~= Seq::<LocaleMessages>::empty());
        assert forall|l: Seq<char>| l != e.locale@ implies #[trigger] overlay_for(u, l) == overlay_for(v, l) by {
            assert(overlay_for(u, l) == overlay_for(u.drop_first(), l));
        }
    }
}


/// Whether the file name of `path` ends in `.yml` or `.yaml`, the extensions of a language
/// file. Whether the path is a file is for the caller to find out.
pub fn has_language_extension(path: &str) -> (res: bool)
    ensures
        res == (crate::rules::path_extension(path@) == Some("yml"@) || crate::rules::path_extension(path@) == Some("yaml"@)),
{
    crate::rules::has_extension(path, "yml") || crate::rules::has_extension(path, "yaml")
}

} // verus!
