use sheet_search::cache::TranslationCache;
use sheet_search::i18n::{
    code_of_range, dotted_key, flatten_json, init_language_info, replace_all, replace_params,
    split_chars, I18nConfig, I18nManager, LanguagePack, PackEntry, PackLeaf,
};

fn config(multilingual: bool, auto_detect: bool) -> I18nConfig {
    I18nConfig {
        default_language: "zh".to_string(),
        supported_languages: vec!["zh".to_string(), "en".to_string(), "ar".to_string(), "xx".to_string()],
        auto_detect,
        cache_enabled: true,
        cache_expire_minutes: 60,
        multilingual_enabled: multilingual,
    }
}

fn entry(key: &str, text: Option<&str>) -> PackEntry {
    PackEntry { key: key.to_string(), text: text.map(|t| t.to_string()) }
}

fn manager() -> I18nManager {
    let mut m = I18nManager::new(config(true, true));
    m.load_all_translations(vec![
        LanguagePack {
            language: "zh".to_string(),
            entries: vec![
                entry("app.title", Some("搜索")),
                entry("hello", Some("你好 {name}")),
                entry("only.zh", Some("仅中文")),
                entry("count", None),
            ],
        },
        LanguagePack {
            language: "en".to_string(),
            entries: vec![
                entry("app.title", Some("Search")),
                entry("hello", Some("Hello {name}, {name}! {other}")),
                entry("app.title", Some("Search again")),
            ],
        },
    ]);
    m
}

fn chars(s: &str) -> Vec<char> {
    s.chars().collect()
}

fn text(v: Vec<char>) -> String {
    v.into_iter().collect()
}

#[test]
fn translate_looks_up_language_then_default_then_key() {
    let mut m = manager();
    assert_eq!(m.translate("app.title", "en", None, 0), "Search again");
    assert_eq!(m.translate("app.title", "zh", None, 0), "搜索");
    assert_eq!(m.translate("only.zh", "en", None, 0), "仅中文");
    assert_eq!(m.translate("missing", "en", None, 0), "missing");
    assert_eq!(m.translate("missing", "zh", None, 0), "missing");
    assert_eq!(m.translate("app.title", "fr", None, 0), "搜索");
    assert_eq!(m.translate("count", "zh", None, 0), "count");
    assert_eq!(m.look_up("app.title", "en"), "Search again");
    assert_eq!(m.look_up("nothing", "en"), "nothing");
}

#[test]
fn translate_fills_in_parameters() {
    let mut m = manager();
    let params = vec![("name".to_string(), "Ann".to_string())];
    assert_eq!(m.translate("hello", "en", Some(&params), 0), "Hello Ann, Ann! {other}");
    assert_eq!(m.translate("hello", "zh", Some(&params), 0), "你好 Ann");
    assert_eq!(m.translate("hello", "en", None, 0), "Hello {name}, {name}! {other}");
    let other = vec![("other".to_string(), "Bob".to_string())];
    assert_eq!(m.translate("hello", "en", Some(&other), 1), "Hello {name}, {name}! Bob");
}

#[test]
fn translate_serves_cached_text_while_it_is_good() {
    let mut m = manager();
    assert_eq!(m.translate("app.title", "en", None, 1000), "Search again");
    m.load_all_translations(vec![LanguagePack {
        language: "en".to_string(),
        entries: vec![entry("app.title", Some("Find"))],
    }]);
    assert_eq!(m.translate("app.title", "en", None, 1000 + 3599), "Search again");
    assert_eq!(m.translate("app.title", "en", None, 1000 + 3600), "Find");
    assert_eq!(m.translate("app.title", "en", None, 1000 + 3601), "Find");
}

#[test]
fn reload_empties_the_cache() {
    let mut m = manager();
    assert_eq!(m.translate("app.title", "en", None, 10), "Search again");
    m.reload_translations(vec![LanguagePack {
        language: "en".to_string(),
        entries: vec![entry("app.title", Some("Find"))],
    }]);
    assert_eq!(m.translate("app.title", "en", None, 11), "Find");
}

#[test]
fn cleanup_drops_stale_translations_only() {
    let mut m = manager();
    m.translate("app.title", "en", None, 0);
    m.translate("hello", "en", None, 3000);
    m.load_all_translations(vec![]);
    m.cleanup_cache(3600);
    assert_eq!(m.translate("hello", "en", None, 3601), "Hello {name}, {name}! {other}");
    assert_eq!(m.translate("app.title", "en", None, 3601), "app.title");
}

#[test]
fn translate_without_cache_always_looks_up() {
    let mut settings = config(true, true);
    settings.cache_enabled = false;
    let mut m = I18nManager::new(settings);
    m.load_all_translations(vec![LanguagePack { language: "en".to_string(), entries: vec![entry("k", Some("one"))] }]);
    assert_eq!(m.translate("k", "en", None, 5), "one");
    m.load_all_translations(vec![LanguagePack { language: "en".to_string(), entries: vec![entry("k", Some("two"))] }]);
    assert_eq!(m.translate("k", "en", None, 5), "two");
}

#[test]
fn parameters_are_applied_in_order() {
    let params = vec![
        ("a".to_string(), "{b}".to_string()),
        ("b".to_string(), "done".to_string()),
    ];
    assert_eq!(replace_params("{a} and {b}", Some(&params)), "done and done");
    let reversed = vec![
        ("b".to_string(), "done".to_string()),
        ("a".to_string(), "{b}".to_string()),
    ];
    assert_eq!(replace_params("{a} and {b}", Some(&reversed)), "{b} and done");
    assert_eq!(replace_params("{a}", None), "{a}");
    assert_eq!(replace_params("{}", Some(&vec![("".to_string(), "x".to_string())])), "x");
}

#[test]
fn replace_all_agrees_with_std() {
    for (s, p, w) in [
        ("aaaa", "aa", "b"),
        ("aaa", "aa", "b"),
        ("abcabc", "bc", ""),
        ("abc", "abcd", "x"),
        ("abc", "abc", "xyz"),
        ("", "a", "b"),
        ("x{n}y{n}", "{n}", "12"),
        ("ababa", "aba", "-"),
    ] {
        assert_eq!(text(replace_all(&chars(s), &chars(p), &chars(w))), s.replace(p, w), "{} {} {}", s, p, w);
    }
    assert_eq!(text(replace_all(&chars("abc"), &chars(""), &chars("x"))), "abc");
}

#[test]
fn language_is_detected_from_header() {
    let m = manager();
    assert_eq!(m.detect_language_from_headers(Some("en-US,en;q=0.9,zh;q=0.8")), "en");
    assert_eq!(m.detect_language_from_headers(Some("fr-FR, AR-eg;q=0.9")), "ar");
    assert_eq!(m.detect_language_from_headers(Some("fr, de")), "zh");
    assert_eq!(m.detect_language_from_headers(Some("")), "zh");
    assert_eq!(m.detect_language_from_headers(None), "zh");
    assert_eq!(m.detect_language_from_headers(Some(" EN ;q=1")), "en");
    let off = I18nManager::new(config(true, false));
    assert_eq!(off.detect_language_from_headers(Some("en")), "zh");
}

#[test]
fn language_code_of_a_range() {
    assert_eq!(text(code_of_range(&chars(" en-US;q=0.8"))), "en");
    assert_eq!(text(code_of_range(&chars("ZH"))), "zh");
    assert_eq!(text(code_of_range(&chars(";q=1"))), "");
    assert_eq!(text(code_of_range(&chars("-x"))), "");
    let pieces: Vec<String> = split_chars(&chars("a,,b,"), ',').into_iter().map(text).collect();
    assert_eq!(pieces, vec!["a", "", "b", ""]);
    let one: Vec<String> = split_chars(&chars(""), ',').into_iter().map(text).collect();
    assert_eq!(one, vec![""]);
}

#[test]
fn supported_languages_are_those_that_are_known() {
    let m = manager();
    let codes: Vec<String> = m.get_supported_languages().into_iter().map(|i| i.code).collect();
    assert_eq!(codes, vec!["zh", "en", "ar"]);
    assert!(m.is_language_supported("xx"));
    assert!(!m.is_language_supported("ug"));
    assert_eq!(m.get_language_info("ug").map(|i| i.is_rtl), Some(true));
    assert_eq!(m.get_language_info("en").map(|i| i.name.clone()), Some("English".to_string()));
    assert!(m.get_language_info("xx").is_none());
    assert_eq!(m.get_default_language(), "zh");
    assert!(m.is_multilingual_enabled());
    assert!(m.is_cache_enabled());
    assert_eq!(m.cache_expire_minutes(), 60);
}

#[test]
fn effective_language_falls_back_to_default() {
    let m = manager();
    assert_eq!(m.get_effective_language("en"), "en");
    assert_eq!(m.get_effective_language("fr"), "zh");
    let single = I18nManager::new(config(false, true));
    assert_eq!(single.get_effective_language("en"), "zh");
    let codes: Vec<String> =
        single.get_effective_supported_languages().into_iter().map(|i| i.code).collect();
    assert_eq!(codes, vec!["zh"]);
    let all: Vec<String> = m.get_effective_supported_languages().into_iter().map(|i| i.code).collect();
    assert_eq!(all, vec!["zh", "en", "ar"]);
    let mut unknown = config(false, true);
    unknown.default_language = "xx".to_string();
    assert!(I18nManager::new(unknown).get_effective_supported_languages().is_empty());
}

#[test]
fn translations_are_counted_and_reloaded() {
    let mut m = manager();
    assert_eq!(m.get_total_translations(), 7);
    m.reload_translations(vec![LanguagePack { language: "en".to_string(), entries: vec![entry("k", Some("v"))] }]);
    assert_eq!(m.get_total_translations(), 1);
    assert_eq!(m.translate("app.title", "en", None, 0), "app.title");
    assert_eq!(m.translate("k", "en", None, 0), "v");
    assert_eq!(I18nManager::new(config(true, true)).get_total_translations(), 0);
}

#[test]
fn built_in_languages() {
    let infos = init_language_info();
    let summary: Vec<(String, bool)> = infos.iter().map(|i| (i.code.clone(), i.is_rtl)).collect();
    assert_eq!(
        summary,
        vec![
            ("zh".to_string(), false),
            ("en".to_string(), false),
            ("ar".to_string(), true),
            ("ug".to_string(), true)
        ]
    );
    assert_eq!(infos[0].native_name, "中文");
    assert_eq!(infos[3].name, "Uyghur");
}

#[test]
fn flattened_keys_are_joined_by_points() {
    let path = |segments: &[&str]| -> Vec<String> { segments.iter().map(|s| s.to_string()).collect() };
    assert_eq!(dotted_key(&path(&["app", "menu", "title"])), "app.menu.title");
    assert_eq!(dotted_key(&path(&["single"])), "single");
    assert_eq!(dotted_key(&path(&[])), "");
    assert_eq!(dotted_key(&path(&["", "a"])), "a");
    assert_eq!(dotted_key(&path(&["a", ""])), "a.");
    let leaves = vec![
        PackLeaf { path: path(&["app", "title"]), text: Some("T".to_string()) },
        PackLeaf { path: path(&["count"]), text: None },
    ];
    assert_eq!(flatten_json(&leaves), vec![entry("app.title", Some("T")), entry("count", None)]);
}

#[test]
fn translation_cache_serves_fresh_items() {
    let mut cache = TranslationCache::new(1);
    assert_eq!(cache.get_from_cache("en:k", 0), None);
    cache.set_cache("en:k", "v", 100);
    assert_eq!(cache.get_from_cache("en:k", 100), Some("v".to_string()));
    assert_eq!(cache.get_from_cache("en:k", 159), Some("v".to_string()));
    assert_eq!(cache.get_from_cache("en:k", 160), None);
    assert_eq!(cache.get_from_cache("en:k", 50), Some("v".to_string()));
    assert_eq!(cache.get_from_cache("zh:k", 100), None);
    cache.set_cache("en:k", "w", 200);
    assert_eq!(cache.len(), 1);
    assert_eq!(cache.get_from_cache("en:k", 210), Some("w".to_string()));
}

#[test]
fn translation_cache_is_cleaned_and_cleared() {
    let mut cache = TranslationCache::new(2);
    cache.set_cache("a", "1", 0);
    cache.set_cache("b", "2", 100);
    cache.set_cache("c", "3", 200);
    assert_eq!(cache.len(), 3);
    cache.cleanup_cache(219);
    assert_eq!(cache.len(), 2);
    assert_eq!(cache.get_from_cache("a", 219), None);
    assert_eq!(cache.get_from_cache("b", 219), Some("2".to_string()));
    cache.cleanup_cache(220);
    assert_eq!(cache.len(), 1);
    cache.clear();
    assert_eq!(cache.len(), 0);
    let never = TranslationCache::new(0);
    assert_eq!(never.len(), 0);
}
