use cleanr::i18n::{
    builtin_language_packs, builtin_locale_id, fill_placeholders, language_of, normalize_locale,
    record_language_file, select_locale, validate_locale, I18n, LanguageError,
    plan_language_download, check_language_hash, check_language_size, MAX_LANGUAGE_BYTES,
    LanguagePackSource, LocaleMessages, FALLBACK_LOCALE,
};
use cleanr::text::replace_text;

fn messages(pairs: &[(&str, &str)]) -> Vec<(String, String)> {
    pairs
        .iter()
        .map(|(k, v)| (k.to_string(), v.to_string()))
        .collect()
}

#[test]
fn locales_are_normalized() {
    assert_eq!(normalize_locale("zh_cn.UTF-8"), "zh-CN");
    assert_eq!(normalize_locale("EN"), "en");
    assert_eq!(normalize_locale("en_us@euro"), "en-US");
    assert_eq!(normalize_locale("de-"), "de");
    assert_eq!(language_of("pt_BR"), "pt");
}

#[test]
fn selects_builtin_chinese_locale() {
    let packs = builtin_language_packs();
    assert_eq!(select_locale(&packs, "zh_CN.UTF-8").as_deref(), Some("zh-CN"));
    assert_eq!(select_locale(&packs, "zh_TW").as_deref(), Some("zh-CN"));
    assert_eq!(select_locale(&packs, "fr_FR"), None);
    assert_eq!(builtin_locale_id("en"), Some("en-US"));
    assert_eq!(builtin_locale_id("fr"), None);
}

#[test]
fn unselectable_locales_fall_back() {
    let i18n = I18n::new("fr_FR", Vec::new(), builtin_language_packs());
    assert_eq!(i18n.locale(), FALLBACK_LOCALE);
    let mut i18n = i18n;
    i18n.set_locale("zh");
    assert_eq!(i18n.locale(), "zh-CN");
}

#[test]
fn overlays_are_consulted_from_locale_to_fallback_language() {
    let overlays = vec![
        LocaleMessages {
            locale: "zh".to_string(),
            messages: messages(&[("greeting", "你好")]),
        },
        LocaleMessages {
            locale: "en".to_string(),
            messages: messages(&[("farewell", "bye")]),
        },
    ];
    let i18n = I18n::new("zh_CN", overlays, builtin_language_packs());
    assert_eq!(i18n.translated("greeting").as_deref(), Some("你好"));
    assert_eq!(i18n.translated("farewell").as_deref(), Some("bye"));
    assert_eq!(i18n.translated("missing"), None);
}

#[test]
fn placeholders_are_filled_in_argument_order() {
    let text = fill_placeholders(
        "{count} items in {path} ({count})".to_string(),
        &[("count", "3".to_string()), ("path", "/repo".to_string())],
    );
    assert_eq!(text, "3 items in /repo (3)");
    assert_eq!(replace_text("aaa", "aa", "b"), "ba");
    assert_eq!(replace_text("no match", "{x}", "y"), "no match");
}

#[test]
fn language_files_replace_their_locale_and_pack() {
    let mut overlays = Vec::new();
    let mut packs = builtin_language_packs();
    assert!(!record_language_file(
        &mut overlays,
        &mut packs,
        "fr",
        Vec::new(),
        None,
        None,
        LanguagePackSource::UserFile("/l/fr.yml".to_string()),
    ));
    assert!(record_language_file(
        &mut overlays,
        &mut packs,
        "fr",
        messages(&[("a", "b")]),
        None,
        None,
        LanguagePackSource::UserFile("/l/fr.yml".to_string()),
    ));
    assert_eq!(packs.len(), 3);
    assert_eq!(packs[2].id, "user-fr");
    assert_eq!(packs[2].name, "fr");
    assert_eq!(packs[2].version, "user");
    assert!(record_language_file(
        &mut overlays,
        &mut packs,
        "en-US",
        messages(&[("a", "c")]),
        Some("English".to_string()),
        Some("2.0".to_string()),
        LanguagePackSource::UserFile("/l/en-US.yml".to_string()),
    ));
    assert_eq!(packs.len(), 3);
    assert_eq!(packs[0].id, "user-en-US");
    assert_eq!(overlays.len(), 2);
}

#[test]
fn locale_identifiers_are_validated() {
    assert!(validate_locale("zh-CN").is_ok());
    assert_eq!(
        validate_locale("-bad"),
        Err(LanguageError::InvalidLocale {
            locale: "-bad".to_string()
        })
    );
    assert!(validate_locale("../x").is_err());
    assert!(validate_locale("").is_err());
}

#[test]
fn language_cmd_rejects_malformed_sha256_before_downloading() {
    let error = plan_language_download("en-US", "owner/repo", "main", Some("not-a-sha256"))
        .expect_err("invalid hash must fail");
    assert!(error.message().contains("64 hexadecimal"));
}

#[test]
fn lib_rejects_malformed_sha256_before_downloading() {
    let error = plan_language_download("en-US", "owner/repo", "main", Some("not-a-sha256"))
        .expect_err("invalid hash must fail");
    assert!(error.message().contains("64 hexadecimal"));
}

#[test]
fn downloads_are_planned_under_the_normalized_locale() {
    assert_eq!(
        plan_language_download("zh_cn.UTF-8", "owner/repo", "main", None),
        Ok((
            "zh-CN".to_string(),
            "https://raw.githubusercontent.com/owner/repo/main/crates/i18n/locales/zh-CN.yml"
                .to_string()
        ))
    );
    assert_eq!(
        plan_language_download("-bad", "owner/repo", "main", Some("x")),
        Err(LanguageError::InvalidLocale { locale: "-BAD".to_string() })
    );
    assert_eq!(
        plan_language_download("en", "ownerrepo", "main", None),
        Err(LanguageError::InvalidGithubRepo)
    );
    assert_eq!(
        plan_language_download("en", "owner/repo", "bad ref", None),
        Err(LanguageError::InvalidGithubRef)
    );
}

#[test]
fn downloaded_language_files_are_checked_for_size_and_hash() {
    assert_eq!(check_language_size(MAX_LANGUAGE_BYTES), Ok(()));
    assert_eq!(check_language_size(MAX_LANGUAGE_BYTES + 1), Err(LanguageError::TooLarge));
    let upper = "BA7816BF8F01CFEA414140DE5DAE2223B00361A396177A9CB410FF61F20015AD";
    assert_eq!(check_language_hash(b"abc", Some(upper)), Ok(()));
    assert_eq!(check_language_hash(b"abc", None), Ok(()));
    assert_eq!(
        check_language_hash(b"abd", Some(upper)),
        Err(LanguageError::HashMismatch {
            expected: upper.to_string(),
            actual: "a52d159f262b2c6ddb724a61840befc36eb30c88877a4030b65cbe86298449c9"
                .to_string()
        })
    );
}
