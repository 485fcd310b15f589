//! The records that cross the boundary of the library: counters of an
//! import run, search hits and responses, statistics, and the requests and
//! responses of the language interface.
//!
//! Points in time are whole microseconds since the Unix epoch, in UTC.

use vstd::prelude::*;

verus! {

/// The counters of one import run.
#[derive(Debug, Clone, Copy, PartialEq, Eq, Structural)]
pub struct ImportStats {
    /// Files that were imported.
    pub success: i64,
    /// Files whose import failed.
    pub failed: i64,
    /// Files that had to be imported.
    pub total: i64,
    /// Files that were left alone because they had not changed.
    pub skipped: i64,
}

impl ImportStats {
    /// No counter is negative, and no more files are done than had to be imported.
    pub open spec fn wf(&self) -> bool {
        &&& 0 <= self.success
        &&& 0 <= self.failed
        &&& 0 <= self.skipped
        &&& self.success + self.failed <= self.total
    }

    /// Every file that had to be imported has succeeded or failed.
    pub open spec fn is_settled(&self) -> bool {
        self.wf() && self.success + self.failed == self.total
    }

    /// The counters before anything was seen.
    pub fn new() -> (stats: ImportStats)
        ensures
            stats == (ImportStats { success: 0, failed: 0, total: 0, skipped: 0 }),
            stats.wf(),
    {
        ImportStats { success: 0, failed: 0, total: 0, skipped: 0 }
    }
}

/// One search hit.
#[derive(Debug, Clone, PartialEq, Eq)]
pub struct ExcelData {
    pub id: Option<i32>,
    pub file_id: i32,
    pub import_time: i64,
    pub row_number: i32,
    /// The data of the row as a JSON object, its members in column order.
    pub data_json: String,
    pub search_text: String,
    pub sheet_name: String,
    /// The name of the owning file, where its record is at hand.
    pub file_name: Option<String>,
}

/// The model of a search hit.
pub struct ExcelDataModel {
    pub id: Option<int>,
    pub file_id: int,
    pub import_time: int,
    pub row_number: int,
    pub data_json: Seq<char>,
    pub search_text: Seq<char>,
    pub sheet_name: Seq<char>,
    pub file_name: Option<Seq<char>>,
}

impl View for ExcelData {
    type V = ExcelDataModel;

    open spec fn view(&self) -> ExcelDataModel {
        ExcelDataModel {
            id: match self.id {
                Some(i) => Some(i as int),
                None => None,
            },
            file_id: self.file_id as int,
            import_time: self.import_time as int,
            row_number: self.row_number as int,
            data_json: self.data_json@,
            search_text: self.search_text@,
            sheet_name: self.sheet_name@,
            file_name: match self.file_name {
                Some(n) => Some(n@),
                None => None,
            },
        }
    }
}

/// The models of a list of search hits.
pub open spec fn hit_models(hits: Seq<ExcelData>) -> Seq<ExcelDataModel> {
    hits.map_values(|h: ExcelData| h@)
}

/// One page of search hits.
#[derive(Debug, Clone, PartialEq, Eq)]
pub struct SearchResponse {
    pub results: Vec<ExcelData>,
    /// The number of rows that match, over all pages.
    pub total: i64,
    pub limit: i64,
    pub offset: i64,
}

/// Totals of the store.
#[derive(Debug, Clone, Copy, PartialEq, Eq, Structural)]
pub struct StatsResponse {
    pub total_rows: i64,
    pub total_files: i64,
    pub last_update: i64,
}

/// A language, as the interface reports it.
#[derive(Debug, Clone, PartialEq, Eq)]
pub struct LanguageResponse {
    pub code: String,
    pub name: String,
    pub native_name: String,
    pub is_rtl: bool,
}

/// One translated key.
#[derive(Debug, Clone, PartialEq, Eq)]
pub struct TranslationResponse {
    pub key: String,
    pub value: String,
    pub language: String,
}

/// The translations of several keys, in the order in which they were asked for.
#[derive(Debug, Clone, PartialEq, Eq)]
pub struct BatchTranslationResponse {
    pub translations: Vec<(String, String)>,
    pub language: String,
}

/// A request for one key.  `params` are placeholder names with their values,
/// applied in the order given.
#[derive(Debug, Clone, PartialEq, Eq)]
pub struct TranslationRequest {
    pub key: String,
    pub language: Option<String>,
    pub params: Option<Vec<(String, String)>>,
}

/// A request for several keys.
#[derive(Debug, Clone, PartialEq, Eq)]
pub struct BatchTranslationRequest {
    pub keys: Vec<String>,
    pub language: Option<String>,
    pub params: Option<Vec<(String, String)>>,
}

/// A request to switch the language.
#[derive(Debug, Clone, PartialEq, Eq)]
pub struct LanguageSettingRequest {
    pub language: String,
}

/// The state of the language interface.
#[derive(Debug, Clone, PartialEq, Eq)]
pub struct I18nStatusResponse {
    pub default_language: String,
    pub supported_languages: Vec<LanguageResponse>,
    pub auto_detect_enabled: bool,
    pub cache_enabled: bool,
    pub total_translations: usize,
    pub multilingual_enabled: bool,
}

/// The smallest page size.
pub const MIN_LIMIT: i64 = 1;

/// The largest page size.
pub const MAX_LIMIT: i64 = 100;

/// The page size where none is asked for.
pub const DEFAULT_LIMIT: i64 = 20;

/// The parameters of a search request, as they arrive.
#[derive(Debug, Clone, PartialEq, Eq)]
pub struct SearchQuery {
    q: Option<String>,
    limit: Option<i64>,
    offset: Option<i64>,
}

/// The page size that is used for a requested one: `DEFAULT_LIMIT` where
/// none was given, else the given one brought into `MIN_LIMIT ..= MAX_LIMIT`.
pub open spec fn clamped_limit(limit: Option<i64>) -> int {
    match limit {
        None => DEFAULT_LIMIT as int,
        Some(l) => if l < MIN_LIMIT {
            MIN_LIMIT as int
        } else if l > MAX_LIMIT {
            MAX_LIMIT as int
        } else {
            l as int
        },
    }
}

/// The offset that is used for a requested one: zero where none was given
/// or a negative one, else the given one.
pub open spec fn clamped_offset(offset: Option<i64>) -> int {
    match offset {
        None => 0,
        Some(o) => if o < 0 {
            0
        } else {
            o as int
        },
    }
}

impl SearchQuery {
    /// The query text that was given.
    pub closed spec fn spec_q(&self) -> Option<Seq<char>> {
        match self.q {
            Some(s) => Some(s@),
            None => None,
        }
    }

    /// The page size that was asked for.
    pub closed spec fn spec_limit(&self) -> Option<i64> {
        self.limit
    }

    /// The offset that was asked for.
    pub closed spec fn spec_offset(&self) -> Option<i64> {
        self.offset
    }

    /// The parameters of a request.
    pub fn new(q: Option<String>, limit: Option<i64>, offset: Option<i64>) -> (query: SearchQuery)
        ensures
            query.spec_q() == match q {
                Some(s) => Some(s@),
                None => None,
            },
            query.spec_limit() == limit,
            query.spec_offset() == offset,
    {
        SearchQuery { q, limit, offset }
    }

    /// The query text; empty where none was given.
    pub fn query_text(&self) -> (text: String)
        ensures
            text@ == match self.spec_q() {
                Some(s) => s,
                None => Seq::<char>::empty(),
            },
    {
        match &self.q {
            Some(s) => s.clone(),
            None => String::new(),
        }
    }

    /// The page size to search with.
    pub fn effective_limit(&self) -> (limit: u64)
        ensures
            limit == clamped_limit(self.spec_limit()),
            MIN_LIMIT <= limit <= MAX_LIMIT,
    {
        match self.limit {
            None => 20,
            Some(l) => if l < MIN_LIMIT {
                1
            } else if l > MAX_LIMIT {
                100
            } else {
                l as u64
            },
        }
    }

    /// The offset to search with.
    pub fn effective_offset(&self) -> (offset: u64)
        ensures
            offset == clamped_offset(self.spec_offset()),
    {
        match self.offset {
            None => 0,
            Some(o) => if o < 0 {
                0
            } else {
                o as u64
            },
        }
    }
}

} // verus!
