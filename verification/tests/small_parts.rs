use sheet_search::cache::{StatsCache, DEFAULT_CACHE_SECONDS};
use sheet_search::i18n::LanguageInfo;
use sheet_search::models::{
    BatchTranslationRequest, BatchTranslationResponse, I18nStatusResponse, ImportStats,
    LanguageResponse, LanguageSettingRequest, SearchQuery, StatsResponse, TranslationRequest,
    TranslationResponse,
};
use sheet_search::scanner::{check_root, has_spreadsheet_extension, InputError};

fn stats_value(n: i64) -> StatsResponse {
    StatsResponse { total_rows: n, total_files: 1, last_update: 5 }
}

#[test]
fn cache_is_empty_until_set() {
    let cache = StatsCache::new();
    assert!(cache.is_expired(0));
    assert_eq!(cache.get(0), None);
    assert_eq!(DEFAULT_CACHE_SECONDS, 300);
}

#[test]
fn cache_serves_until_expiry() {
    let mut cache = StatsCache::new();
    cache.update(stats_value(3), 1000);
    assert_eq!(cache.get(1000), Some(stats_value(3)));
    assert_eq!(cache.get(1300), Some(stats_value(3)));
    assert!(!cache.is_expired(1300));
    assert!(cache.is_expired(1301));
    assert_eq!(cache.get(1301), None);
    assert_eq!(cache.get(999), Some(stats_value(3)));
    cache.update(stats_value(4), 2000);
    assert_eq!(cache.get(2001), Some(stats_value(4)));
}

#[test]
fn cache_with_other_duration() {
    let mut cache = StatsCache::with_duration(0);
    cache.update(stats_value(1), 10);
    assert_eq!(cache.get(10), Some(stats_value(1)));
    assert_eq!(cache.get(11), None);
}

#[test]
fn spreadsheet_extensions() {
    for name in ["a.xlsx", "a.xls", "A.XLSX", "b.XlS", "archive.tar.xlsx", "数据.xlsx", "..xls"] {
        assert!(has_spreadsheet_extension(name), "{}", name);
    }
    for name in ["a.csv", "a.xlsm", "xlsx", ".xlsx", "a.xlsx.bak", "a.", "", "a.xlsxx", "a.xl", "a.ｘlsx"] {
        assert!(!has_spreadsheet_extension(name), "{}", name);
    }
}

#[test]
fn spreadsheet_extensions_agree_with_std() {
    for name in ["a.xlsx", "a.XLS", ".xls", "x.y.Xlsx", "noext", "dot.", "q.xlsb", "..xlsx", "a.xls "] {
        let expected = std::path::Path::new(name)
            .extension()
            .map(|e| {
                let ext = e.to_string_lossy().to_lowercase();
                ext == "xlsx" || ext == "xls"
            })
            .unwrap_or(false);
        assert_eq!(has_spreadsheet_extension(name), expected, "{}", name);
    }
}

#[test]
fn search_query_limits_are_clamped() {
    let limit = |l: Option<i64>| SearchQuery::new(None, l, None).effective_limit();
    assert_eq!(limit(None), 20);
    assert_eq!(limit(Some(0)), 1);
    assert_eq!(limit(Some(-5)), 1);
    assert_eq!(limit(Some(1)), 1);
    assert_eq!(limit(Some(50)), 50);
    assert_eq!(limit(Some(100)), 100);
    assert_eq!(limit(Some(101)), 100);
    assert_eq!(limit(Some(i64::MAX)), 100);
    assert_eq!(limit(Some(i64::MIN)), 1);
}

#[test]
fn search_query_offsets_are_clamped() {
    let offset = |o: Option<i64>| SearchQuery::new(None, None, o).effective_offset();
    assert_eq!(offset(None), 0);
    assert_eq!(offset(Some(-1)), 0);
    assert_eq!(offset(Some(0)), 0);
    assert_eq!(offset(Some(40)), 40);
    assert_eq!(offset(Some(i64::MAX)), i64::MAX as u64);
}

#[test]
fn search_query_text_defaults_to_empty() {
    assert_eq!(SearchQuery::new(None, None, None).query_text(), "");
    assert_eq!(SearchQuery::new(Some("abc".to_string()), None, None).query_text(), "abc");
}

#[test]
fn import_stats_start_at_zero() {
    assert_eq!(ImportStats::new(), ImportStats { success: 0, failed: 0, total: 0, skipped: 0 });
}

#[test]
fn language_records_hold_their_fields() {
    let info = LanguageInfo {
        code: "ar".to_string(),
        name: "Arabic".to_string(),
        native_name: "العربية".to_string(),
        is_rtl: true,
    };
    let response = LanguageResponse {
        code: info.code.clone(),
        name: info.name.clone(),
        native_name: info.native_name.clone(),
        is_rtl: info.is_rtl,
    };
    let status = I18nStatusResponse {
        default_language: "zh".to_string(),
        supported_languages: vec![response.clone()],
        auto_detect_enabled: true,
        cache_enabled: true,
        total_translations: 3,
        multilingual_enabled: false,
    };
    assert_eq!(status.supported_languages[0], response);
    let request = TranslationRequest {
        key: "app.title".to_string(),
        language: Some("en".to_string()),
        params: Some(vec![("name".to_string(), "x".to_string())]),
    };
    assert_eq!(request.clone(), request);
    let batch = BatchTranslationRequest { keys: vec!["a".to_string()], language: None, params: None };
    assert_eq!(batch.keys.len(), 1);
    let answer = BatchTranslationResponse {
        translations: vec![("a".to_string(), "A".to_string())],
        language: "en".to_string(),
    };
    assert_eq!(answer.translations[0].1, "A");
    let one = TranslationResponse {
        key: "a".to_string(),
        value: "A".to_string(),
        language: "en".to_string(),
    };
    assert_eq!(one.value, "A");
    assert_eq!(LanguageSettingRequest { language: "ug".to_string() }.language, "ug");
}

#[test]
fn root_folder_must_be_there_and_be_a_folder() {
    assert_eq!(check_root(true, true), Ok(()));
    assert_eq!(check_root(false, false), Err(InputError::Missing));
    assert_eq!(check_root(false, true), Err(InputError::Missing));
    assert_eq!(check_root(true, false), Err(InputError::NotADirectory));
}
