//! The search engine: which rows match a query, how a match is scored, and
//! what a page of results holds.
//!
//! A query is split at white space into keywords.  A row matches when every
//! keyword is a substring of its search text; a query without keywords
//! matches nothing.  The score of a match is the number of distinct keywords
//! found in the search text, plus the number of keywords where the whole query
//! text, as it was given, is found in it too.

use vstd::prelude::*;
use crate::counts::{report_count, report_u64, reported};
use crate::json::{row_json, row_to_json};
use crate::models::{hit_models, ExcelData, ExcelDataModel, SearchResponse};
use crate::ranking::{
    is_ranked, lemma_ranked_is_ordered, page_of, rank, ranked, rankings, ranks_before, take_page,
    Candidate, Ranking,
};
use crate::record::{data_row_models, file_models, DataRow, DataRowModel, FileModel, FileRecord};
use crate::text::{chars_contain, contains_text, texts, to_chars, tokenize, tokens};

verus! {

/// There is a keyword, and every keyword is a substring of `text`.
pub open spec fn matches_all(text: Seq<char>, keywords: Seq<Seq<char>>) -> bool {
    keywords.len() > 0 && forall|i: int|
        0 <= i < keywords.len() ==> contains_text(text, #[trigger] keywords[i])
}

/// The keyword at `i` does not occur before `i`.
pub open spec fn is_first_occurrence(keywords: Seq<Seq<char>>, i: int) -> bool {
    forall|j: int| 0 <= j < i ==> #[trigger] keywords[j] != keywords[i]
}

/// How many distinct keywords among the first `n` are substrings of `text`.
pub open spec fn distinct_found(text: Seq<char>, keywords: Seq<Seq<char>>, n: int) -> int
    decreases n,
{
    if n <= 0 {
        0
    } else {
        distinct_found(text, keywords, n - 1) + if is_first_occurrence(keywords, n - 1)
            && contains_text(text, keywords[n - 1]) {
            1int
        } else {
            0int
        }
    }
}

/// The score of a search text under a query.
pub open spec fn score_of(text: Seq<char>, query: Seq<char>) -> int {
    distinct_found(text, tokens(query), tokens(query).len() as int) + if contains_text(
        text,
        query,
    ) {
        tokens(query).len() as int
    } else {
        0int
    }
}

/// The rows that match `query`, in the order of `rows`, each with its score,
/// its import time and its position in `rows`.
pub open spec fn candidates_of(rows: Seq<DataRowModel>, query: Seq<char>) -> Seq<Ranking>
    decreases rows.len(),
{
    if rows.len() == 0 {
        Seq::empty()
    } else {
        let before = candidates_of(rows.drop_last(), query);
        if matches_all(rows.last().search_text, tokens(query)) {
            before.push(
                Ranking {
                    score: score_of(rows.last().search_text, query),
                    import_time: rows.last().import_time,
                    index: rows.len() - 1,
                },
            )
        } else {
            before
        }
    }
}

/// `c` stands for a row of `rows` that matches `query`.
pub open spec fn is_candidate(rows: Seq<DataRowModel>, query: Seq<char>, c: Ranking) -> bool {
    &&& 0 <= c.index < rows.len()
    &&& matches_all(rows[c.index].search_text, tokens(query))
    &&& c.score == score_of(rows[c.index].search_text, query)
    &&& c.import_time == rows[c.index].import_time
}

/// The name of the file record with the identifier `id` (of the last of
/// them, should several have it).
pub open spec fn file_name_of(files: Seq<FileModel>, id: int) -> Option<Seq<char>>
    decreases files.len(),
{
    if files.len() == 0 {
        None
    } else if files.last().id == id {
        Some(files.last().file_name)
    } else {
        file_name_of(files.drop_last(), id)
    }
}

/// The hit that is reported for a row.
pub open spec fn hit_of(row: DataRowModel, files: Seq<FileModel>) -> ExcelDataModel {
    ExcelDataModel {
        id: row.id,
        file_id: row.file_id,
        import_time: row.import_time,
        row_number: row.row_number,
        data_json: row_json(row.data),
        search_text: row.search_text,
        sheet_name: row.sheet_name,
        file_name: file_name_of(files, row.file_id),
    }
}

/// All rows that match, in result order.
pub open spec fn ranked_matches(rows: Seq<DataRowModel>, query: Seq<char>) -> Seq<Ranking> {
    ranked(candidates_of(rows, query))
}

/// The hits of one page: the page is cut from all matches in result order.
pub open spec fn search_hits(
    rows: Seq<DataRowModel>,
    files: Seq<FileModel>,
    query: Seq<char>,
    limit: int,
    offset: int,
) -> Seq<ExcelDataModel> {
    page_of(ranked_matches(rows, query), offset, limit).map_values(
        |c: Ranking| hit_of(rows[c.index], files),
    )
}

/// `a` may stand before `b` in the results of `query`: it has the higher
/// score, or the same score and no earlier import time.
pub open spec fn hit_ranks_before(a: ExcelDataModel, b: ExcelDataModel, query: Seq<char>) -> bool {
    score_of(a.search_text, query) > score_of(b.search_text, query) || (score_of(
        a.search_text,
        query,
    ) == score_of(b.search_text, query) && a.import_time >= b.import_time)
}

/// Every candidate stands for a matching row.
pub proof fn lemma_candidates(rows: Seq<DataRowModel>, query: Seq<char>)
    ensures
        candidates_of(rows, query).len() <= rows.len(),
        forall|i: int|
            0 <= i < candidates_of(rows, query).len() ==> is_candidate(
                rows,
                query,
                #[trigger] candidates_of(rows, query)[i],
            ),
        tokens(query).len() == 0 ==> candidates_of(rows, query).len() == 0,
    decreases rows.len(),
{
    if rows.len() > 0 {
        let head = rows.drop_last();
        lemma_candidates(head, query);
        let all = candidates_of(rows, query);
        let before = candidates_of(head, query);
        assert forall|i: int| 0 <= i < all.len() implies is_candidate(rows, query, #[trigger] all[i]) by {
            if i < before.len() {
                assert(all[i] == before[i]);
                assert(is_candidate(head, query, before[i]));
                assert(head[before[i].index] == rows[before[i].index]);
            }
        }
    }
}

/// All matches in result order: each stands for a matching row, and the
/// list is ordered.
pub proof fn lemma_ranked_matches(rows: Seq<DataRowModel>, query: Seq<char>)
    ensures
        is_ranked(ranked_matches(rows, query)),
        ranked_matches(rows, query).len() == candidates_of(rows, query).len(),
        forall|i: int|
            0 <= i < ranked_matches(rows, query).len() ==> is_candidate(
                rows,
                query,
                #[trigger] ranked_matches(rows, query)[i],
            ),
{
    let found = candidates_of(rows, query);
    let all = ranked_matches(rows, query);
    lemma_candidates(rows, query);
    lemma_ranked_is_ordered(found);
    found.to_multiset_ensures();
    all.to_multiset_ensures();
    assert forall|i: int| 0 <= i < all.len() implies is_candidate(rows, query, #[trigger] all[i]) by {
        assert(all.contains(all[i]));
        assert(found.to_multiset().count(all[i]) > 0);
        assert(found.contains(all[i]));
        let k = choose|k: int| 0 <= k < found.len() && found[k] == all[i];
        assert(is_candidate(rows, query, found[k]));
    }
}

/// The hits of a page are in result order: of two hits, the earlier has the
/// higher score, or the same score and no earlier import time.  Every hit
/// matches the query, and a page holds no more hits than its limit.
pub proof fn lemma_hits_in_order(
    rows: Seq<DataRowModel>,
    files: Seq<FileModel>,
    query: Seq<char>,
    limit: int,
    offset: int,
)
    requires
        0 <= limit,
        0 <= offset,
    ensures
        search_hits(rows, files, query, limit, offset).len() <= limit,
        forall|i: int, j: int|
            0 <= i < j < search_hits(rows, files, query, limit, offset).len() ==> hit_ranks_before(
                #[trigger] search_hits(rows, files, query, limit, offset)[i],
                #[trigger] search_hits(rows, files, query, limit, offset)[j],
                query,
            ),
        forall|i: int|
            0 <= i < search_hits(rows, files, query, limit, offset).len() ==> matches_all(
                (#[trigger] search_hits(rows, files, query, limit, offset)[i]).search_text,
                tokens(query),
            ),
{
    let all = ranked_matches(rows, query);
    let page = page_of(all, offset, limit);
    let hits = search_hits(rows, files, query, limit, offset);
    lemma_ranked_matches(rows, query);
    let start = if offset < all.len() {
        offset
    } else {
        all.len() as int
    };
    assert forall|i: int| 0 <= i < hits.len() implies is_candidate(rows, query, #[trigger] page[i])
        && hits[i] == hit_of(rows[page[i].index], files) by {
        assert(page[i] == all[start + i]);
    }
    assert forall|i: int, j: int| 0 <= i < j < hits.len() implies hit_ranks_before(
        #[trigger] hits[i],
        #[trigger] hits[j],
        query,
    ) by {
        assert(page[i] == all[start + i]);
        assert(page[j] == all[start + j]);
        assert(ranks_before(all[start + i], all[start + j]));
        assert(is_candidate(rows, query, page[i]));
        assert(is_candidate(rows, query, page[j]));
    }
    assert forall|i: int| 0 <= i < hits.len() implies matches_all(
        (#[trigger] hits[i]).search_text,
        tokens(query),
    ) by {
        assert(is_candidate(rows, query, page[i]));
    }
}

/// All hits of a query, in result order.
pub open spec fn all_hits(
    rows: Seq<DataRowModel>,
    files: Seq<FileModel>,
    query: Seq<char>,
) -> Seq<ExcelDataModel> {
    ranked_matches(rows, query).map_values(|c: Ranking| hit_of(rows[c.index], files))
}

/// The hits of the first `n` pages of `limit` hits each, one page behind the other.
pub open spec fn pages_of_hits(
    rows: Seq<DataRowModel>,
    files: Seq<FileModel>,
    query: Seq<char>,
    limit: int,
    n: nat,
) -> Seq<ExcelDataModel>
    decreases n,
{
    if n == 0 {
        Seq::empty()
    } else {
        pages_of_hits(rows, files, query, limit, (n - 1) as nat) + search_hits(
            rows,
            files,
            query,
            limit,
            (n - 1) * limit,
        )
    }
}

/// The pages of a fixed size, one behind the other, are the beginning of all
/// hits in result order.
proof fn lemma_pages_of_hits(
    rows: Seq<DataRowModel>,
    files: Seq<FileModel>,
    query: Seq<char>,
    limit: int,
    n: nat,
)
    requires
        limit > 0,
    ensures
        pages_of_hits(rows, files, query, limit, n) == crate::ranking::pages_joined(
            ranked_matches(rows, query),
            limit,
            n,
        ).map_values(|c: Ranking| hit_of(rows[c.index], files)),
    decreases n,
{
    let f = |c: Ranking| hit_of(rows[c.index], files);
    let all = ranked_matches(rows, query);
    if n == 0 {
        assert(pages_of_hits(rows, files, query, limit, n) =~= crate::ranking::pages_joined(
            all,
            limit,
            n,
        ).map_values(f));
    } else {
        let m = (n - 1) as nat;
        lemma_pages_of_hits(rows, files, query, limit, m);
        let before = crate::ranking::pages_joined(all, limit, m);
        let page = page_of(all, m * limit, limit);
        assert((before + page).map_values(f) =~= before.map_values(f) + page.map_values(f));
    }
}

/// Paging leaves nothing out and brings nothing twice: for a page size
/// above zero, the pages of a query over rows that do not change, taken one
/// behind the other until they reach past the last hit, are all hits of the
/// query in result order.
pub proof fn law_pages_reproduce_results(
    rows: Seq<DataRowModel>,
    files: Seq<FileModel>,
    query: Seq<char>,
    limit: int,
    n: nat,
)
    requires
        limit > 0,
        n * limit >= ranked_matches(rows, query).len(),
    ensures
        pages_of_hits(rows, files, query, limit, n) == all_hits(rows, files, query),
{
    lemma_pages_of_hits(rows, files, query, limit, n);
    crate::ranking::lemma_pages_cover(ranked_matches(rows, query), limit, n);
}

/// The candidates come from ascending positions, none beyond the last row.
proof fn lemma_candidates_ascend(rows: Seq<DataRowModel>, query: Seq<char>)
    ensures
        crate::ranking::positions_ascend(candidates_of(rows, query)),
        forall|i: int|
            0 <= i < candidates_of(rows, query).len() ==> 0 <= (#[trigger] candidates_of(
                rows,
                query,
            )[i]).index < rows.len(),
    decreases rows.len(),
{
    if rows.len() > 0 {
        lemma_candidates_ascend(rows.drop_last(), query);
    }
}

/// The order of the results is fixed in full: of two matches, the one with
/// the higher score comes first; of two with the same score, the one that was
/// imported later; of two that agree in both, the one that stands earlier
/// among the rows.
pub proof fn law_results_have_one_order(rows: Seq<DataRowModel>, query: Seq<char>)
    ensures
        crate::ranking::is_strictly_ranked(ranked_matches(rows, query)),
{
    lemma_candidates_ascend(rows, query);
    crate::ranking::law_ties_keep_arrival_order(candidates_of(rows, query));
}

/// The results are in order across all pages: in the list of all hits of a
/// query, the earlier of two hits has the higher score, or the same score and
/// no earlier import time.
pub proof fn law_results_are_ordered(rows: Seq<DataRowModel>, files: Seq<FileModel>, query: Seq<char>)
    ensures
        forall|i: int, j: int|
            0 <= i < j < all_hits(rows, files, query).len() ==> hit_ranks_before(
                #[trigger] all_hits(rows, files, query)[i],
                #[trigger] all_hits(rows, files, query)[j],
                query,
            ),
{
    let all = ranked_matches(rows, query);
    let hits = all_hits(rows, files, query);
    lemma_ranked_matches(rows, query);
    assert forall|i: int, j: int| 0 <= i < j < hits.len() implies hit_ranks_before(
        #[trigger] hits[i],
        #[trigger] hits[j],
        query,
    ) by {
        assert(ranks_before(all[i], all[j]));
        assert(is_candidate(rows, query, all[i]));
        assert(is_candidate(rows, query, all[j]));
    }
}

fn chars_equal(a: &Vec<char>, b: &Vec<char>) -> (r: bool)
    ensures
        r == (a@ == b@),
{
    if a.len() != b.len() {
        return false;
    }
    let mut i: usize = 0;
    while i < a.len()
        invariant
            i <= a.len(),
            a.len() == b.len(),
            forall|k: int| 0 <= k < i ==> a@[k] == b@[k],
        decreases a.len() - i,
    {
        if a[i] != b[i] {
            return false;
        }
        i = i + 1;
    }
    assert(a@ =~= b@);
    true
}

/// The texts of a list of character vectors.
pub open spec fn char_texts(v: Seq<Vec<char>>) -> Seq<Seq<char>> {
    v.map_values(|w: Vec<char>| w@)
}

/// A query, made ready for scoring.
pub struct PreparedQuery {
    query: Vec<char>,
    words: Vec<Vec<char>>,
    first: Vec<bool>,
}

impl PreparedQuery {
    /// The query text.
    pub closed spec fn text(&self) -> Seq<char> {
        self.query@
    }

    #[verifier::type_invariant]
    spec fn well_formed(&self) -> bool {
        &&& char_texts(self.words@) == tokens(self.query@)
        &&& self.first@.len() == self.words@.len()
        &&& forall|i: int|
            0 <= i < self.first@.len() ==> #[trigger] self.first@[i] == is_first_occurrence(
                char_texts(self.words@),
                i,
            )
    }

    /// Splits the query into keywords.
    pub fn new(query_text: &str) -> (q: PreparedQuery)
        ensures
            q.text() == query_text@,
    {
        let query: Vec<char> = to_chars(query_text);
        let tokens_found: Vec<String> = tokenize(query_text);
        let mut words: Vec<Vec<char>> = Vec::new();
        let mut i: usize = 0;
        while i < tokens_found.len()
            invariant
                i <= tokens_found.len(),
                words@.len() == i,
                forall|k: int| 0 <= k < i ==> (#[trigger] words@[k])@ == tokens_found@[k]@,
            decreases tokens_found.len() - i,
        {
            words.push(to_chars(tokens_found[i].as_str()));
            i = i + 1;
        }
        assert(char_texts(words@) =~= texts(tokens_found@));
        let ghost kw = char_texts(words@);
        let mut first: Vec<bool> = Vec::new();
        let mut n: usize = 0;
        while n < words.len()
            invariant
                n <= words.len(),
                first@.len() == n,
                kw == char_texts(words@),
                forall|k: int| 0 <= k < n ==> #[trigger] first@[k] == is_first_occurrence(kw, k),
            decreases words.len() - n,
        {
            let mut fresh: bool = true;
            let mut j: usize = 0;
            while j < n
                invariant
                    j <= n < words.len(),
                    kw == char_texts(words@),
                    fresh == forall|m: int| 0 <= m < j ==> #[trigger] kw[m] != kw[n as int],
                decreases n - j,
            {
                if chars_equal(&words[j], &words[n]) {
                    assert(kw[j as int] == kw[n as int]);
                    fresh = false;
                }
                j = j + 1;
            }
            first.push(fresh);
            n = n + 1;
        }
        PreparedQuery { query, words, first }
    }

    /// The number of keywords.
    pub fn keyword_count(&self) -> (n: usize)
        ensures
            n == tokens(self.text()).len(),
    {
        proof {
            use_type_invariant(self);
        }
        self.words.len()
    }

    /// Scores a search text; `None` where it does not match.
    pub fn score(&self, text: &str) -> (r: Option<u128>)
        ensures
            r is Some <==> matches_all(text@, tokens(self.text())),
            r matches Some(s) ==> s == score_of(text@, self.text()),
    {
        proof {
            use_type_invariant(self);
        }
        let hay: Vec<char> = to_chars(text);
        let ghost kw = tokens(self.query@);
        let n: usize = self.words.len();
        if n == 0 {
            return None;
        }
        let mut found: u128 = 0;
        let mut i: usize = 0;
        while i < n
            invariant
                i <= n,
                n == self.words@.len(),
                hay@ == text@,
                kw == tokens(self.text()),
                kw == char_texts(self.words@),
                self.first@.len() == n,
                forall|k: int|
                    0 <= k < n ==> #[trigger] self.first@[k] == is_first_occurrence(kw, k),
                forall|k: int| 0 <= k < i ==> contains_text(text@, #[trigger] kw[k]),
                found == distinct_found(text@, kw, i as int),
                found <= i,
            decreases n - i,
        {
            if !chars_contain(&hay, &self.words[i]) {
                assert(!contains_text(text@, kw[i as int]));
                return None;
            }
            if self.first[i] {
                found = found + 1;
            }
            i = i + 1;
        }
        let bonus: u128 = if chars_contain(&hay, &self.query) {
            n as u128
        } else {
            0
        };
        Some(found + bonus)
    }
}

/// Finds the rows that match a query, with their scores.
pub fn find_candidates(rows: &Vec<DataRow>, query: &PreparedQuery) -> (found: Vec<Candidate>)
    ensures
        rankings(found@) == candidates_of(data_row_models(rows@), query.text()),
{
    let ghost models = data_row_models(rows@);
    let mut found: Vec<Candidate> = Vec::new();
    let mut i: usize = 0;
    proof {
        assert(models.take(0) =~= Seq::<DataRowModel>::empty());
        assert(rankings(found@) =~= candidates_of(models.take(0), query.text()));
    }
    while i < rows.len()
        invariant
            i <= rows.len(),
            models == data_row_models(rows@),
            rankings(found@) == candidates_of(models.take(i as int), query.text()),
        decreases rows.len() - i,
    {
        let ghost before = rankings(found@);
        proof {
            let part = models.take(i as int + 1);
            assert(part.drop_last() =~= models.take(i as int));
            assert(part.last() == rows@[i as int]@);
        }
        match query.score(rows[i].search_text().as_str()) {
            Some(score) => {
                let c = Candidate { score, import_time: rows[i].import_time(), index: i };
                found.push(c);
                assert(rankings(found@) =~= before.push(c@));
            },
            None => {},
        }
        i = i + 1;
    }
    assert(models.take(rows.len() as int) =~= models);
    found
}

/// Looks up the name of a file record.
pub fn find_file_name(files: &Vec<FileRecord>, id: i32) -> (name: Option<String>)
    ensures
        match name {
            Some(n) => file_name_of(file_models(files@), id as int) == Some(n@),
            None => file_name_of(file_models(files@), id as int) is None,
        },
{
    let ghost models = file_models(files@);
    let mut i: usize = files.len();
    assert(models.take(i as int) =~= models);
    while i > 0
        invariant
            i <= files.len(),
            models == file_models(files@),
            file_name_of(models, id as int) == file_name_of(models.take(i as int), id as int),
        decreases i,
    {
        proof {
            let part = models.take(i as int);
            assert(part.drop_last() =~= models.take(i as int - 1));
            assert(part.last() == files@[i as int - 1]@);
        }
        if files[i - 1].id == id {
            return Some(files[i - 1].file_name.clone());
        }
        i = i - 1;
    }
    None
}

/// Makes the hit that is reported for a row.
pub fn make_hit(row: &DataRow, files: &Vec<FileRecord>) -> (hit: ExcelData)
    ensures
        hit@ == hit_of(row@, file_models(files@)),
{
    ExcelData {
        id: row.id(),
        file_id: row.file_id(),
        import_time: row.import_time(),
        row_number: row.row_number(),
        data_json: row_to_json(row.data()),
        search_text: row.search_text().clone(),
        sheet_name: row.sheet_name().clone(),
        file_name: find_file_name(files, row.file_id()),
    }
}

/// Searches `rows` for `query_text` and reports the page that starts behind
/// `offset` hits and holds up to `limit` hits.  `files` gives the names of the
/// owning files.
pub fn search_data(
    rows: &Vec<DataRow>,
    files: &Vec<FileRecord>,
    query_text: &str,
    limit: u64,
    offset: u64,
) -> (response: SearchResponse)
    ensures
        hit_models(response.results@) == search_hits(
            data_row_models(rows@),
            file_models(files@),
            query_text@,
            limit as int,
            offset as int,
        ),
        response.total == reported(
            candidates_of(data_row_models(rows@), query_text@).len() as int,
        ),
        response.limit == reported(limit as int),
        response.offset == reported(offset as int),
        tokens(query_text@).len() == 0 ==> response.results@.len() == 0 && response.total == 0,
        response.results@.len() <= limit,
        forall|i: int, j: int|
            0 <= i < j < response.results@.len() ==> hit_ranks_before(
                (#[trigger] response.results@[i])@,
                (#[trigger] response.results@[j])@,
                query_text@,
            ),
        forall|i: int|
            0 <= i < response.results@.len() ==> matches_all(
                (#[trigger] response.results@[i])@.search_text,
                tokens(query_text@),
            ),
{
    let ghost models = data_row_models(rows@);
    let ghost fm = file_models(files@);
    let query: PreparedQuery = PreparedQuery::new(query_text);
    let found: Vec<Candidate> = find_candidates(rows, &query);
    let ordered: Vec<Candidate> = rank(&found);
    let page: Vec<Candidate> = take_page(&ordered, offset, limit);
    proof {
        lemma_ranked_matches(models, query_text@);
        lemma_candidates(models, query_text@);
        lemma_hits_in_order(models, fm, query_text@, limit as int, offset as int);
        assert(rankings(page@) =~= page_of(rankings(ordered@), offset as int, limit as int));
    }
    let ghost wanted = search_hits(models, fm, query_text@, limit as int, offset as int);
    let ghost all = ranked_matches(models, query_text@);
    let ghost start: int = if offset < all.len() {
        offset as int
    } else {
        all.len() as int
    };
    let mut results: Vec<ExcelData> = Vec::new();
    let mut i: usize = 0;
    while i < page.len()
        invariant
            i <= page.len(),
            models == data_row_models(rows@),
            fm == file_models(files@),
            rankings(page@) == page_of(all, offset as int, limit as int),
            start == if offset < all.len() {
                offset as int
            } else {
                all.len() as int
            },
            forall|k: int| 0 <= k < all.len() ==> is_candidate(models, query_text@, #[trigger] all[k]),
            wanted == rankings(page@).map_values(|c: Ranking| hit_of(models[c.index], fm)),
            results@.len() == i,
            forall|k: int| 0 <= k < i ==> (#[trigger] results@[k])@ == wanted[k],
        decreases page.len() - i,
    {
        let c: Candidate = page[i];
        proof {
            assert(rankings(page@)[i as int] == c@);
            assert(rankings(page@)[i as int] == all[start + i]);
            assert(is_candidate(models, query_text@, all[start + i]));
        }
        let hit: ExcelData = make_hit(&rows[c.index], files);
        results.push(hit);
        i = i + 1;
    }
    assert(hit_models(results@) =~= wanted);
    SearchResponse {
        results,
        total: report_count(found.len()),
        limit: report_u64(limit),
        offset: report_u64(offset),
    }
}

} // verus!
