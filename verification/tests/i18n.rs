use awabancha::i18n::{Locale, format_relative_time, get_translation, get_translations, t,
    t_with_vars};

#[test]
fn test_locale_code() {
    assert_eq!(Locale::En.code(), "en");
    assert_eq!(Locale::Ja.code(), "ja");
    assert_eq!(Locale::ZhHans.code(), "zh-Hans");
    assert_eq!(Locale::ZhHant.code(), "zh-Hant");
}

#[test]
fn test_locale_display_name() {
    assert_eq!(Locale::En.display_name(), "English");
    assert_eq!(Locale::Ja.display_name(), "日本語");
    assert_eq!(Locale::ZhHans.display_name(), "简体中文");
    assert_eq!(Locale::ZhHant.display_name(), "繁體中文");
}

#[test]
fn test_locale_all() {
    let all = Locale::all();
    assert_eq!(all.len(), 4);
    assert!(all.contains(&Locale::En));
    assert!(all.contains(&Locale::Ja));
    assert!(all.contains(&Locale::ZhHans));
    assert!(all.contains(&Locale::ZhHant));
}

#[test]
fn test_locale_default() {
    let default: Locale = Default::default();
    assert_eq!(default, Locale::En);
}

#[test]
fn test_locale_equality() {
    assert_eq!(Locale::En, Locale::En);
    assert_ne!(Locale::En, Locale::Ja);
}

#[test]
fn test_translation_basic() {
    // Test that we get a translation (not the key back)
    let result = t(Locale::En, "app.name");
    // The translation should exist
    assert!(!result.is_empty());
}

#[test]
fn test_translation_fallback_to_english() {
    // Test fallback: use a key that exists in English
    let en_result = t(Locale::En, "app.name");
    let ja_result = t(Locale::Ja, "app.name");

    // Both should return something (not empty)
    assert!(!en_result.is_empty());
    assert!(!ja_result.is_empty());
}

#[test]
fn test_translation_missing_key_returns_key() {
    let result = t(Locale::En, "nonexistent.key.that.does.not.exist");
    assert_eq!(result, "nonexistent.key.that.does.not.exist");
}

#[test]
fn test_t_with_vars_substitution() {
    // Test variable substitution
    let result = t_with_vars(Locale::En, "time.daysAgo", &[("days", "5")]);
    assert!(result.contains("5"));
}

#[test]
fn test_get_translation_localized_key() {
    assert_eq!(get_translation(Locale::Ja, "time.today"), "今日");
    assert_eq!(get_translation(Locale::ZhHans, "time.today"), "今天");
}

#[test]
fn test_get_translations_has_keys() {
    let table = get_translations(Locale::En);
    assert!(table.iter().any(|(k, _)| k == "app.name"));
    assert!(table.iter().any(|(k, _)| k == "time.daysAgo"));
}

#[test]
fn test_format_relative_time_today() {
    let result = format_relative_time(Locale::En, 0);
    assert!(!result.is_empty());
}

#[test]
fn test_format_relative_time_yesterday() {
    let result = format_relative_time(Locale::En, 1);
    assert!(!result.is_empty());
}

#[test]
fn test_format_relative_time_days() {
    let result = format_relative_time(Locale::En, 3);
    assert!(result.contains("3"));
}

#[test]
fn test_format_relative_time_weeks() {
    let result = format_relative_time(Locale::En, 14);
    assert_eq!(result, "2 weeks ago");
}

#[test]
fn test_format_relative_time_months() {
    let result = format_relative_time(Locale::En, 60);
    assert_eq!(result, "2 months ago");
}

#[test]
fn test_format_relative_time_years() {
    let result = format_relative_time(Locale::En, 400);
    assert_eq!(result, "1 year ago");
}

#[test]
fn test_format_relative_time_singular_week() {
    let result = format_relative_time(Locale::En, 7);
    assert_eq!(result, "1 week ago");
}

#[test]
fn test_format_relative_time_singular_month() {
    let result = format_relative_time(Locale::En, 30);
    assert_eq!(result, "1 month ago");
}

#[test]
fn test_format_relative_time_exact_days() {
    assert_eq!(format_relative_time(Locale::En, 3), "3 days ago");
    assert_eq!(format_relative_time(Locale::En, 6), "6 days ago");
}

#[test]
fn test_format_relative_time_localized() {
    assert_eq!(format_relative_time(Locale::Ja, 0), "今日");
    assert_eq!(format_relative_time(Locale::Ja, 3), "3日前");
    assert_eq!(format_relative_time(Locale::ZhHant, 14), "2週前");
}
