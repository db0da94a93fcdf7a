use cleanr::langfile::{validate_language_yaml, LanguageFileError, ParsedLanguage};

fn pairs(items: &[(&str, &str)]) -> Vec<(String, String)> {
    items.iter().map(|(k, v)| (k.to_string(), v.to_string())).collect()
}

#[test]
fn language_file_flattens_nested_messages_in_key_order() {
    let raw = "_version: 1\nname: Deutsch\nversion: \"1.2\"\nmenu:\n  quit: Beenden\n  open: Öffnen\napp: Aufräumen\n";
    let parsed = validate_language_yaml(raw).unwrap();
    assert_eq!(
        parsed,
        ParsedLanguage {
            messages: pairs(&[("app", "Aufräumen"), ("menu.open", "Öffnen"), ("menu.quit", "Beenden")]),
            name: Some("Deutsch".to_string()),
            version: Some("1.2".to_string()),
        }
    );
}

#[test]
fn language_file_must_be_yaml() {
    assert_eq!(validate_language_yaml("a: [1, 2"), Err(LanguageFileError::NotYaml));
}

#[test]
fn language_file_root_must_be_a_mapping() {
    let err = validate_language_yaml("- one\n- two\n").unwrap_err();
    assert_eq!(err, LanguageFileError::NotAMapping);
    assert_eq!(err.message(), "language file root must be a YAML mapping");
}

#[test]
fn language_file_needs_version_one() {
    assert_eq!(validate_language_yaml("greeting: hi\n"), Err(LanguageFileError::MissingVersion));
    assert_eq!(validate_language_yaml("_version: 2\ngreeting: hi\n"), Err(LanguageFileError::MissingVersion));
    assert_eq!(validate_language_yaml("_version: 1.0\ngreeting: hi\n"), Err(LanguageFileError::MissingVersion));
    assert_eq!(validate_language_yaml("_version: -1\ngreeting: hi\n"), Err(LanguageFileError::MissingVersion));
    assert_eq!(validate_language_yaml("_version: 4294967297\ngreeting: hi\n"), Err(LanguageFileError::MissingVersion));
    // A metadata field of the wrong type discards all metadata.
    assert_eq!(validate_language_yaml("_version: 1\nname: 5\ngreeting: hi\n"), Err(LanguageFileError::MissingVersion));
}

#[test]
fn language_file_leaves_must_be_text() {
    let err = validate_language_yaml("_version: 1\nmenu:\n  count: 3\n").unwrap_err();
    assert_eq!(err, LanguageFileError::NotText { key: "menu.count".to_string() });
    assert_eq!(err.message(), "translation value menu.count must be a string or mapping");
}

#[test]
fn language_file_skips_metadata_and_non_text_keys() {
    let raw = "_version: 1\n_comment: null\n_build: 7\n3: ignored\ntitle: Titel\n";
    let parsed = validate_language_yaml(raw).unwrap();
    assert_eq!(parsed.messages, pairs(&[("title", "Titel")]));
    assert_eq!(parsed.name, None);
    assert_eq!(parsed.version, None);
}
