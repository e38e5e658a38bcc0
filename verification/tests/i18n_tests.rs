use jsonsheet::i18n::{tr, Catalogs, Language};
use jsonsheet::strmap::StrMap;

fn catalogs() -> Catalogs {
    let mut en: StrMap<String> = StrMap::new();
    en.insert("toolbar.open".to_string(), "Open".to_string());
    en.insert("test.fallback_only".to_string(), "Fallback value".to_string());
    let mut zh_hant: StrMap<String> = StrMap::new();
    zh_hant.insert("toolbar.open".to_string(), "開啟".to_string());
    Catalogs { en, zh_hant }
}

#[test]
fn test_default_language_is_english() {
    assert_eq!(Language::default(), Language::En);
    assert_eq!(tr(&catalogs(), Language::default(), "toolbar.open"), "Open");
}

#[test]
fn test_language_switch_changes_ui_text() {
    assert_eq!(tr(&catalogs(), Language::En, "toolbar.open"), "Open");
    assert_eq!(tr(&catalogs(), Language::ZhHant, "toolbar.open"), "開啟");
}

#[test]
fn test_missing_key_falls_back_to_english() {
    assert_eq!(
        tr(&catalogs(), Language::ZhHant, "test.fallback_only"),
        "Fallback value"
    );
}

#[test]
fn test_language_code_roundtrip() {
    assert_eq!(Language::from_code("en"), Some(Language::En));
    assert_eq!(Language::from_code("zh-Hant"), Some(Language::ZhHant));
    assert_eq!(Language::from_code("unknown"), None);
}

#[test]
fn test_unknown_key_is_its_own_text() {
    assert_eq!(tr(&catalogs(), Language::ZhHant, "no.such.key"), "no.such.key");
    assert_eq!(tr(&catalogs(), Language::En, "no.such.key"), "no.such.key");
}

#[test]
fn test_language_codes_and_labels() {
    assert_eq!(Language::all(), vec![Language::En, Language::ZhHant]);
    assert_eq!(Language::En.code(), "en");
    assert_eq!(Language::ZhHant.code(), "zh-Hant");
    assert_eq!(Language::En.label_key(), "language.option.en");
    assert_eq!(Language::ZhHant.label_key(), "language.option.zh_hant");
    for language in Language::all() {
        assert_eq!(Language::from_code(language.code()), Some(language));
    }
}

#[test]
fn test_catalogs_are_read_from_json() {
    let en = jsonsheet::i18n::parse_catalog(
        "{\"toolbar.open\": \"Open\", \"test.fallback_only\": \"Fallback value\"}",
    )
    .unwrap();
    let zh_hant = jsonsheet::i18n::parse_catalog("{\"toolbar.open\": \"開啟\"}").unwrap();
    let catalogs = Catalogs { en, zh_hant };
    assert_eq!(tr(&catalogs, Language::ZhHant, "toolbar.open"), "開啟");
    assert_eq!(
        tr(&catalogs, Language::ZhHant, "test.fallback_only"),
        "Fallback value"
    );
    assert!(jsonsheet::i18n::parse_catalog("[]").is_none());
    assert!(jsonsheet::i18n::parse_catalog("{\"a\": 1}").is_none());
    assert!(jsonsheet::i18n::parse_catalog("{").is_none());
}
