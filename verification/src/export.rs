//! The exporter: how the rows that match a query are laid out as a workbook,
//! one sheet for each file that owns matching rows.
//!
//! This module decides names, columns and cell texts.  Writing the workbook
//! itself is the task of the module `workbook`.

use vstd::prelude::*;
use crate::columns::{
    add_keys, columns_of, keys_of, order_columns, IMPORT_TIME_COLUMN, ROW_NUMBER_COLUMN,
};
use crate::naming::{
    distinct_names, law_sheet_names_are_valid, law_sheet_names_differ,
    law_sheet_names_keep_free_names, lemma_sheet_names_at, lemma_sheet_names_len, same_name,
    sheet_names,
};
use crate::ranking::{rank, rankings, Candidate, Ranking};
use crate::reader::{grid_model, GridModel};
use crate::record::{data_row_models, file_models, DataRow, DataRowModel, FileModel, FileRecord};
use crate::row::{has_key, position, stringify_value, value_text, RowModel};
use crate::search::{
    candidates_of, file_name_of, find_candidates, find_file_name, is_candidate,
    lemma_ranked_matches, ranked_matches, PreparedQuery,
};
use crate::text::{clean_text, cleaned, from_chars, same_text, texts, to_chars, tokens};

verus! {

/// The longest name that a sheet can have, in characters.
pub const MAX_SHEET_NAME_LEN: usize = 31;

/// How much of a name that is too long is kept before the ellipsis.
pub const KEPT_SHEET_NAME_LEN: usize = 28;

/// What stands at the end of a name that was cut.
pub const ELLIPSIS: &'static str = "...";

/// The name of a sheet for which no other name is left.
pub const DEFAULT_SHEET_NAME: &'static str = "Sheet1";

/// The pattern that import times are written in.
pub const TIME_PATTERN: &'static str = "%Y-%m-%d %H:%M:%S";

/// A character that the name of a sheet cannot hold: `\ / ? * [ ] :`.
pub open spec fn is_forbidden_in_sheet_name(c: char) -> bool {
    c == '\\' || c == '/' || c == '?' || c == '*' || c == '[' || c == ']' || c == ':'
}

/// The name of the sheet for the file name `name`: the name without the
/// characters that are forbidden; cut to `KEPT_SHEET_NAME_LEN` characters and
/// an ellipsis where that is longer than `MAX_SHEET_NAME_LEN`;
/// `DEFAULT_SHEET_NAME` where nothing is left.
pub open spec fn sheet_name_of(name: Seq<char>) -> Seq<char> {
    let kept = name.filter(|c: char| !is_forbidden_in_sheet_name(c));
    if kept.len() > MAX_SHEET_NAME_LEN {
        kept.take(KEPT_SHEET_NAME_LEN as int) + ELLIPSIS@
    } else if kept.len() == 0 {
        DEFAULT_SHEET_NAME@
    } else {
        kept
    }
}

/// The name of a sheet is not empty, has at most `MAX_SHEET_NAME_LEN`
/// characters and holds no forbidden one.
pub proof fn law_sheet_name_is_valid(name: Seq<char>)
    ensures
        0 < sheet_name_of(name).len() <= MAX_SHEET_NAME_LEN,
        forall|i: int|
            0 <= i < sheet_name_of(name).len() ==> !is_forbidden_in_sheet_name(
                #[trigger] sheet_name_of(name)[i],
            ),
{
    let pred = |c: char| !is_forbidden_in_sheet_name(c);
    let kept = name.filter(pred);
    reveal_strlit("...");
    reveal_strlit("Sheet1");
    assert forall|i: int| 0 <= i < kept.len() implies !is_forbidden_in_sheet_name(
        #[trigger] kept[i],
    ) by {
        name.lemma_filter_pred(pred, i);
    }
    let r = sheet_name_of(name);
    if kept.len() > MAX_SHEET_NAME_LEN {
        assert forall|i: int| 0 <= i < r.len() implies !is_forbidden_in_sheet_name(
            #[trigger] r[i],
        ) by {
            if i < KEPT_SHEET_NAME_LEN {
                assert(r[i] == kept[i]);
            } else {
                assert(r[i] == ELLIPSIS@[i - KEPT_SHEET_NAME_LEN]);
            }
        }
    }
}

fn char_is_forbidden(c: char) -> (b: bool)
    ensures
        b == is_forbidden_in_sheet_name(c),
{
    c == '\\' || c == '/' || c == '?' || c == '*' || c == '[' || c == ']' || c == ':'
}

/// Makes the name of a sheet from the name of a file.
pub fn sanitize_sheet_name(name: &str) -> (r: String)
    ensures
        r@ == sheet_name_of(name@),
{
    let ghost pred = |c: char| !is_forbidden_in_sheet_name(c);
    let v: Vec<char> = to_chars(name);
    let mut kept: Vec<char> = Vec::new();
    let mut i: usize = 0;
    proof {
        reveal(Seq::filter);
        assert(v@.take(0) =~= Seq::<char>::empty());
    }
    while i < v.len()
        invariant
            i <= v.len(),
            pred == |c: char| !is_forbidden_in_sheet_name(c),
            kept@ == v@.take(i as int).filter(pred),
        decreases v.len() - i,
    {
        let c: char = v[i];
        proof {
            reveal(Seq::filter);
            assert(v@.take(i as int + 1).drop_last() =~= v@.take(i as int));
            assert(pred(c) == !is_forbidden_in_sheet_name(c));
        }
        if !char_is_forbidden(c) {
            kept.push(c);
        }
        i = i + 1;
    }
    assert(v@.take(v.len() as int) =~= v@);
    if kept.len() > MAX_SHEET_NAME_LEN {
        let mut head: Vec<char> = Vec::new();
        let mut j: usize = 0;
        while j < KEPT_SHEET_NAME_LEN
            invariant
                j <= KEPT_SHEET_NAME_LEN < kept.len(),
                head@ == kept@.take(j as int),
            decreases KEPT_SHEET_NAME_LEN - j,
        {
            head.push(kept[j]);
            j = j + 1;
            assert(kept@.take(j as int) =~= kept@.take(j as int - 1).push(kept@[j as int - 1]));
        }
        let mut r: String = from_chars(&head);
        r.append(ELLIPSIS);
        r
    } else if kept.len() == 0 {
        DEFAULT_SHEET_NAME.to_owned()
    } else {
        from_chars(&kept)
    }
}

/// The digit for a value below ten.
pub open spec fn digit_char(d: int) -> char {
    (0x30 + d) as char
}

/// A natural number in decimal notation.
pub open spec fn nat_text(n: nat) -> Seq<char>
    decreases n,
{
    if n < 10 {
        seq![digit_char(n as int)]
    } else {
        nat_text(n / 10).push(digit_char((n % 10) as int))
    }
}

/// An integer in decimal notation, with a minus sign where it is negative.
pub open spec fn int_text(n: int) -> Seq<char> {
    if n < 0 {
        seq!['-'] + nat_text((-n) as nat)
    } else {
        nat_text(n as nat)
    }
}

/// Appends a number in decimal notation.
pub(crate) fn push_nat(s: &mut String, n: u128)
    ensures
        final(s)@ == old(s)@ + nat_text(n as nat),
    decreases n,
{
    if n >= 10 {
        push_nat(s, n / 10);
    }
    let d: u8 = (n % 10) as u8;
    let c: char = (0x30u8 + d) as char;
    let ghost before = s@;
    s.push(c);
    proof {
        assert(c == digit_char((n % 10) as int));
        if n < 10 {
            assert(before.push(c) =~= old(s)@ + nat_text(n as nat));
        } else {
            assert(before.push(c) =~= old(s)@ + nat_text((n / 10) as nat).push(c));
        }
    }
}

/// Writes the number of a row.
pub fn number_to_text(n: i32) -> (s: String)
    ensures
        s@ == int_text(n as int),
{
    let mut s: String = String::new();
    if n < 0 {
        s.push('-');
        let m: u128 = (-(n as i64)) as u128;
        push_nat(&mut s, m);
    } else {
        push_nat(&mut s, n as u128);
        assert(Seq::<char>::empty() + nat_text(n as nat) =~= nat_text(n as nat));
    }
    s
}

/// The point in time `micros` (microseconds since the Unix epoch, UTC)
/// written under the strftime pattern `pattern`, as `chrono` writes it; `None`
/// where `chrono` cannot hold that point in time.
pub uninterp spec fn formatted_utc(micros: int, pattern: Seq<char>) -> Option<Seq<char>>;

/// Calls `chrono::DateTime::from_timestamp_micros` and, on the point in time
/// that it gives, `format` and `to_string`.  Trusted: what comes back is a
/// function of the two arguments alone.  The pattern is confined to
/// `TIME_PATTERN`, whose specifiers `chrono` knows, because writing under a
/// pattern that it does not know panics.
#[verifier::external_body]
fn format_utc(micros: i64, pattern: &str) -> (text: Option<String>)
    requires
        pattern@ == TIME_PATTERN@,
    ensures
        match text {
            Some(t) => formatted_utc(micros as int, pattern@) == Some(t@),
            None => formatted_utc(micros as int, pattern@) is None,
        },
{
    chrono::DateTime::from_timestamp_micros(micros).map(|t| t.format(pattern).to_string())
}

/// The text of an import time in an exported sheet; empty for a time that
/// cannot be written.
pub open spec fn time_text(micros: int) -> Seq<char> {
    match formatted_utc(micros, TIME_PATTERN@) {
        Some(t) => t,
        None => Seq::empty(),
    }
}

/// Writes an import time.
pub fn time_to_text(micros: i64) -> (s: String)
    ensures
        s@ == time_text(micros as int),
{
    match format_utc(micros, TIME_PATTERN) {
        Some(t) => t,
        None => String::new(),
    }
}

/// The text of the cell of `row` in the column `column`, where `time` is the
/// text of its import time: the row number and the import time in their
/// columns; else the text of the value that the row has under that key, and
/// nothing where it has none.
pub open spec fn cell_text_with(row: DataRowModel, column: Seq<char>, time: Seq<char>) -> Seq<
    char,
> {
    if column == ROW_NUMBER_COLUMN@ {
        int_text(row.row_number)
    } else if column == IMPORT_TIME_COLUMN@ {
        time
    } else if has_key(row.data, column) {
        value_text(row.data[position(row.data, column)].1)
    } else {
        Seq::empty()
    }
}

/// The text of the cell of `row` in the column `column`.
pub open spec fn cell_text(row: DataRowModel, column: Seq<char>) -> Seq<char> {
    cell_text_with(row, column, time_text(row.import_time))
}

/// The cells of one row under the given columns.
pub open spec fn row_cells(row: DataRowModel, columns: Seq<Seq<char>>) -> Seq<Seq<char>> {
    columns.map_values(|c: Seq<char>| cell_text(row, c))
}

/// Writes the cells of one row, with `time` for the text of its import time.
pub fn write_cells_with(row: &DataRow, columns: &Vec<String>, time: &str) -> (cells: Vec<String>)
    ensures
        texts(cells@) == texts(columns@).map_values(
            |c: Seq<char>| cell_text_with(row@, c, time@),
        ),
{
    let number: String = number_to_text(row.row_number());
    let mut cells: Vec<String> = Vec::new();
    let mut i: usize = 0;
    while i < columns.len()
        invariant
            i <= columns.len(),
            number@ == int_text(row@.row_number),
            cells@.len() == i,
            forall|k: int|
                0 <= k < i ==> (#[trigger] cells@[k])@ == cell_text_with(row@, columns@[k]@, time@),
        decreases columns.len() - i,
    {
        let column: &str = columns[i].as_str();
        if same_text(column, ROW_NUMBER_COLUMN) {
            cells.push(number.clone());
        } else if same_text(column, IMPORT_TIME_COLUMN) {
            cells.push(time.to_owned());
        } else {
            match row.data().get(column) {
                Some(value) => {
                    cells.push(stringify_value(value));
                },
                None => {
                    cells.push(String::new());
                },
            }
        }
        i = i + 1;
    }
    assert(texts(cells@) =~= texts(columns@).map_values(
        |c: Seq<char>| cell_text_with(row@, c, time@),
    ));
    cells
}

/// Writes the cells of one row.
pub fn write_row_cells(row: &DataRow, columns: &Vec<String>) -> (cells: Vec<String>)
    ensures
        texts(cells@) == row_cells(row@, texts(columns@)),
{
    let time: String = time_to_text(row.import_time());
    let cells: Vec<String> = write_cells_with(row, columns, time.as_str());
    assert(texts(cells@) =~= row_cells(row@, texts(columns@)));
    cells
}

/// The layout of one sheet.
#[derive(Debug, Clone, PartialEq, Eq)]
pub struct SheetPlan {
    pub name: String,
    /// The header row.
    pub columns: Vec<String>,
    /// The rows below the header, each with one cell for each column.
    pub rows: Vec<Vec<String>>,
}

/// The model of the layout of one sheet.
pub struct SheetPlanModel {
    pub name: Seq<char>,
    pub columns: Seq<Seq<char>>,
    pub rows: GridModel,
}

impl View for SheetPlan {
    type V = SheetPlanModel;

    open spec fn view(&self) -> SheetPlanModel {
        SheetPlanModel {
            name: self.name@,
            columns: texts(self.columns@),
            rows: grid_model(self.rows@),
        }
    }
}

/// The models of a list of sheet layouts.
pub open spec fn plan_models(plans: Seq<SheetPlan>) -> Seq<SheetPlanModel> {
    plans.map_values(|p: SheetPlan| p@)
}

/// The data of a list of rows.
pub open spec fn data_of(rows: Seq<DataRowModel>) -> Seq<RowModel> {
    rows.map_values(|r: DataRowModel| r.data)
}

/// The layout of the sheet with the name `name` for the rows `group` of a
/// file whose field order is `order`.
pub open spec fn sheet_plan_of(
    group: Seq<DataRowModel>,
    name: Seq<char>,
    order: Seq<Seq<char>>,
) -> SheetPlanModel {
    let columns = columns_of(order, data_of(group));
    SheetPlanModel {
        name,
        columns,
        rows: group.map_values(|r: DataRowModel| row_cells(r, columns)),
    }
}

/// The names `names`, each cleaned as the keys of rows are.
pub open spec fn cleaned_all(names: Seq<Seq<char>>) -> Seq<Seq<char>> {
    names.map_values(|x: Seq<char>| cleaned(x))
}

/// The field order of the file record with the identifier `id` (of the last
/// of them, should several have it), its names cleaned as the keys of rows
/// are; empty where the record holds none or there is no such record.
pub open spec fn field_order_for(files: Seq<FileModel>, id: int) -> Seq<Seq<char>>
    decreases files.len(),
{
    if files.len() == 0 {
        Seq::empty()
    } else if files.last().id == id {
        match files.last().field_order {
            Some(order) => cleaned_all(order),
            None => Seq::empty(),
        }
    } else {
        field_order_for(files.drop_last(), id)
    }
}

/// The rows that `order` points at, in that order, without those whose
/// owning file is not on record.
pub open spec fn owned_rows(
    rows: Seq<DataRowModel>,
    files: Seq<FileModel>,
    order: Seq<Ranking>,
) -> Seq<DataRowModel>
    decreases order.len(),
{
    if order.len() == 0 {
        Seq::empty()
    } else {
        let before = owned_rows(rows, files, order.drop_last());
        let row = rows[order.last().index];
        if file_name_of(files, row.file_id) is Some {
            before.push(row)
        } else {
            before
        }
    }
}

/// The files that own the rows `hits`, each once, in the order in which
/// their first row comes.
pub open spec fn owner_ids(hits: Seq<DataRowModel>) -> Seq<int>
    decreases hits.len(),
{
    if hits.len() == 0 {
        Seq::empty()
    } else {
        let before = owner_ids(hits.drop_last());
        if before.contains(hits.last().file_id) {
            before
        } else {
            before.push(hits.last().file_id)
        }
    }
}

/// The rows of `hits` that the file `id` owns, in order.
pub open spec fn rows_of_file(hits: Seq<DataRowModel>, id: int) -> Seq<DataRowModel>
    decreases hits.len(),
{
    if hits.len() == 0 {
        Seq::empty()
    } else {
        let before = rows_of_file(hits.drop_last(), id);
        if hits.last().file_id == id {
            before.push(hits.last())
        } else {
            before
        }
    }
}

/// The rows that an export of `query` holds: all matches in result order
/// whose owning file is on record.
pub open spec fn export_rows(
    rows: Seq<DataRowModel>,
    files: Seq<FileModel>,
    query: Seq<char>,
) -> Seq<DataRowModel> {
    owned_rows(rows, files, ranked_matches(rows, query))
}

/// The names that the sheets of the files `ids` would have by the names of
/// the files alone.
pub open spec fn base_names(files: Seq<FileModel>, ids: Seq<int>) -> Seq<Seq<char>> {
    ids.map_values(|id: int| sheet_name_of(file_name_of(files, id)->0))
}

/// The sheets of an export of `query`: one for each file that owns a match,
/// in the order in which the files come up in the results, each with the
/// matches of its file in result order.  A sheet is named after its file;
/// where a sheet before it has that name already, the name gets a number.
pub open spec fn export_plan(
    rows: Seq<DataRowModel>,
    files: Seq<FileModel>,
    query: Seq<char>,
) -> Seq<SheetPlanModel> {
    let hits = export_rows(rows, files, query);
    let ids = owner_ids(hits);
    let names = sheet_names(base_names(files, ids));
    Seq::new(
        ids.len(),
        |k: int| sheet_plan_of(rows_of_file(hits, ids[k]), names[k], field_order_for(files, ids[k])),
    )
}

/// The name of every sheet of an export is a name that a sheet can have,
/// where the sheets can be counted in 64 bits.
pub proof fn law_export_names_are_valid(
    rows: Seq<DataRowModel>,
    files: Seq<FileModel>,
    query: Seq<char>,
    i: int,
)
    requires
        0 <= i < export_plan(rows, files, query).len() <= u64::MAX,
    ensures
        0 < export_plan(rows, files, query)[i].name.len() <= MAX_SHEET_NAME_LEN,
        forall|c: int|
            0 <= c < export_plan(rows, files, query)[i].name.len() ==> !is_forbidden_in_sheet_name(
                #[trigger] export_plan(rows, files, query)[i].name[c],
            ),
{
    let ids = owner_ids(export_rows(rows, files, query));
    let bases = base_names(files, ids);
    law_sheet_name_is_valid(file_name_of(files, ids[i])->0);
    law_sheet_names_are_valid(bases, i);
}

/// A sheet of an export has the name that is made from the name of its
/// file, unless a sheet before it has that name already.
pub proof fn law_export_keeps_file_names(
    rows: Seq<DataRowModel>,
    files: Seq<FileModel>,
    query: Seq<char>,
    i: int,
)
    requires
        0 <= i < export_plan(rows, files, query).len(),
        forall|j: int|
            0 <= j < i ==> !same_name(
                (#[trigger] export_plan(rows, files, query)[j]).name,
                sheet_name_of(
                    file_name_of(files, owner_ids(export_rows(rows, files, query))[i])->0,
                ),
            ),
    ensures
        export_plan(rows, files, query)[i].name == sheet_name_of(
            file_name_of(files, owner_ids(export_rows(rows, files, query))[i])->0,
        ),
{
    let ids = owner_ids(export_rows(rows, files, query));
    let bases = base_names(files, ids);
    let plans = export_plan(rows, files, query);
    lemma_sheet_names_at(bases, i);
    assert forall|j: int| 0 <= j < i implies !same_name(
        #[trigger] sheet_names(bases)[j],
        bases[i],
    ) by {
        assert(plans[j].name == sheet_names(bases)[j]);
    }
    law_sheet_names_keep_free_names(bases, i);
}

/// No two sheets of an export have the same name, whatever the case of the
/// letters `a` to `z` in it.
pub proof fn law_export_names_differ(
    rows: Seq<DataRowModel>,
    files: Seq<FileModel>,
    query: Seq<char>,
    i: int,
    j: int,
)
    requires
        0 <= i < export_plan(rows, files, query).len(),
        0 <= j < export_plan(rows, files, query).len(),
        i != j,
    ensures
        !same_name(
            export_plan(rows, files, query)[i].name,
            export_plan(rows, files, query)[j].name,
        ),
        export_plan(rows, files, query)[i].name != export_plan(rows, files, query)[j].name,
{
    let ids = owner_ids(export_rows(rows, files, query));
    law_sheet_names_differ(base_names(files, ids), i, j);
}

/// Why an export gives no workbook.
#[derive(Debug, Clone, PartialEq, Eq)]
pub enum ExportError {
    /// The query has no keyword.
    EmptyQuery,
    /// No row matches the query.
    NoMatches,
    /// A sheet would have more rows or columns than can be numbered.
    TooLarge,
    /// The workbook writer reported an error, described by the text.
    Workbook(String),
}

/// What an export of `query` is to lay out: the error for a query without
/// keywords or without matches, else the sheets.
pub open spec fn export_outline(
    rows: Seq<DataRowModel>,
    files: Seq<FileModel>,
    query: Seq<char>,
) -> Result<Seq<SheetPlanModel>, ExportError> {
    if tokens(query).len() == 0 {
        Err(ExportError::EmptyQuery)
    } else if candidates_of(rows, query).len() == 0 {
        Err(ExportError::NoMatches)
    } else {
        Ok(export_plan(rows, files, query))
    }
}

/// The models of a list of borrowed rows.
pub open spec fn borrowed_models(rows: Seq<&DataRow>) -> Seq<DataRowModel> {
    rows.map_values(|r: &DataRow| (*r)@)
}

fn ids_contain(ids: &Vec<i32>, id: i32) -> (b: bool)
    ensures
        b == ids@.map_values(|i: i32| i as int).contains(id as int),
{
    let ghost all = ids@.map_values(|i: i32| i as int);
    let mut k: usize = 0;
    while k < ids.len()
        invariant
            k <= ids.len(),
            all == ids@.map_values(|i: i32| i as int),
            forall|j: int| 0 <= j < k ==> #[trigger] all[j] != id as int,
        decreases ids.len() - k,
    {
        if ids[k] == id {
            assert(all[k as int] == id as int);
            return true;
        }
        k = k + 1;
    }
    false
}

/// Cleans names as the keys of rows are cleaned.
fn clean_names(names: &Vec<String>) -> (r: Vec<String>)
    ensures
        texts(r@) == cleaned_all(texts(names@)),
{
    let mut r: Vec<String> = Vec::new();
    let mut i: usize = 0;
    while i < names.len()
        invariant
            i <= names.len(),
            r@.len() == i,
            forall|k: int| 0 <= k < i ==> (#[trigger] r@[k])@ == cleaned(names@[k]@),
        decreases names.len() - i,
    {
        r.push(clean_text(names[i].as_str()));
        i = i + 1;
    }
    assert(texts(r@) =~= cleaned_all(texts(names@)));
    r
}

/// Looks up the field order of a file record.
fn find_field_order(files: &Vec<FileRecord>, id: i32) -> (order: Vec<String>)
    ensures
        texts(order@) == field_order_for(file_models(files@), id as int),
{
    let ghost models = file_models(files@);
    let mut i: usize = files.len();
    assert(models.take(i as int) =~= models);
    while i > 0
        invariant
            i <= files.len(),
            models == file_models(files@),
            field_order_for(models, id as int) == field_order_for(models.take(i as int), id as int),
        decreases i,
    {
        proof {
            let part = models.take(i as int);
            assert(part.drop_last() =~= models.take(i as int - 1));
            assert(part.last() == files@[i as int - 1]@);
        }
        if files[i - 1].id == id {
            return match &files[i - 1].field_order {
                Some(names) => clean_names(names),
                None => Vec::new(),
            };
        }
        i = i - 1;
    }
    Vec::new()
}

/// Lays out the sheet of one file.
fn plan_sheet(group: &Vec<&DataRow>, name: &str, order: &Vec<String>) -> (plan: SheetPlan)
    ensures
        plan@ == sheet_plan_of(borrowed_models(group@), name@, texts(order@)),
{
    let ghost models = borrowed_models(group@);
    let mut keys: Vec<String> = Vec::new();
    let mut i: usize = 0;
    assert(data_of(models).take(0) =~= Seq::<RowModel>::empty());
    assert(texts(keys@) =~= keys_of(data_of(models).take(0)));
    while i < group.len()
        invariant
            i <= group.len(),
            models == borrowed_models(group@),
            texts(keys@) == keys_of(data_of(models).take(i as int)),
        decreases group.len() - i,
    {
        proof {
            let part = data_of(models).take(i as int + 1);
            assert(part.drop_last() =~= data_of(models).take(i as int));
            assert(part.last() == group@[i as int]@.data);
        }
        add_keys(&mut keys, group[i].data());
        i = i + 1;
    }
    assert(data_of(models).take(group.len() as int) =~= data_of(models));
    let columns: Vec<String> = order_columns(order, &keys);
    let mut rows: Vec<Vec<String>> = Vec::new();
    let mut j: usize = 0;
    while j < group.len()
        invariant
            j <= group.len(),
            models == borrowed_models(group@),
            rows@.len() == j,
            forall|k: int|
                0 <= k < j ==> texts((#[trigger] rows@[k])@) == row_cells(models[k], texts(columns@)),
        decreases group.len() - j,
    {
        let cells: Vec<String> = write_row_cells(group[j], &columns);
        rows.push(cells);
        j = j + 1;
    }
    let plan = SheetPlan { name: name.to_owned(), columns, rows };
    assert(plan@.rows =~= sheet_plan_of(models, name@, texts(order@)).rows);
    plan
}

/// Lays out an export.
pub fn build_export_plan(rows: &Vec<DataRow>, files: &Vec<FileRecord>, query_text: &str) -> (r:
    Result<Vec<SheetPlan>, ExportError>)
    ensures
        match r {
            Ok(plans) => export_outline(data_row_models(rows@), file_models(files@), query_text@)
                == Ok::<Seq<SheetPlanModel>, ExportError>(plan_models(plans@)),
            Err(e) => export_outline(data_row_models(rows@), file_models(files@), query_text@)
                == Err::<Seq<SheetPlanModel>, ExportError>(e),
        },
{
    let ghost models = data_row_models(rows@);
    let ghost fm = file_models(files@);
    let query: PreparedQuery = PreparedQuery::new(query_text);
    if query.keyword_count() == 0 {
        return Err(ExportError::EmptyQuery);
    }
    let found: Vec<Candidate> = find_candidates(rows, &query);
    if found.len() == 0 {
        return Err(ExportError::NoMatches);
    }
    let ordered: Vec<Candidate> = rank(&found);
    let ghost order = ranked_matches(models, query_text@);
    proof {
        lemma_ranked_matches(models, query_text@);
    }
    // The matches whose owning file is on record, and the names of those files.
    let mut hits: Vec<&DataRow> = Vec::new();
    let mut i: usize = 0;
    proof {
        assert(order.take(0) =~= Seq::<Ranking>::empty());
        assert(borrowed_models(hits@) =~= owned_rows(models, fm, order.take(0)));
    }
    while i < ordered.len()
        invariant
            i <= ordered.len(),
            models == data_row_models(rows@),
            fm == file_models(files@),
            order == rankings(ordered@),
            forall|k: int| 0 <= k < order.len() ==> is_candidate(models, query_text@, #[trigger] order[k]),
            borrowed_models(hits@) == owned_rows(models, fm, order.take(i as int)),
        decreases ordered.len() - i,
    {
        let c: Candidate = ordered[i];
        proof {
            assert(order[i as int] == c@);
            assert(is_candidate(models, query_text@, order[i as int]));
            let part = order.take(i as int + 1);
            assert(part.drop_last() =~= order.take(i as int));
            assert(part.last() == c@);
        }
        let row: &DataRow = &rows[c.index];
        let ghost before = borrowed_models(hits@);
        match find_file_name(files, row.file_id()) {
            Some(_) => {
                hits.push(row);
                assert(borrowed_models(hits@) =~= before.push(row@));
            },
            None => {},
        }
        i = i + 1;
    }
    assert(order.take(ordered.len() as int) =~= order);
    let ghost hm = borrowed_models(hits@);
    // The owning files, in the order in which they come up.
    let mut ids: Vec<i32> = Vec::new();
    let mut j: usize = 0;
    proof {
        assert(hm.take(0) =~= Seq::<DataRowModel>::empty());
        assert(ids@.map_values(|i: i32| i as int) =~= owner_ids(hm.take(0)));
    }
    while j < hits.len()
        invariant
            j <= hits.len(),
            hm == borrowed_models(hits@),
            ids@.map_values(|i: i32| i as int) == owner_ids(hm.take(j as int)),
        decreases hits.len() - j,
    {
        let id: i32 = hits[j].file_id();
        proof {
            let part = hm.take(j as int + 1);
            assert(part.drop_last() =~= hm.take(j as int));
            assert(part.last() == hits@[j as int]@);
        }
        if !ids_contain(&ids, id) {
            let ghost before = ids@.map_values(|i: i32| i as int);
            ids.push(id);
            assert(ids@.map_values(|i: i32| i as int) =~= before.push(id as int));
        }
        j = j + 1;
    }
    assert(hm.take(hits.len() as int) =~= hm);
    let ghost owners = owner_ids(hm);
    // The names of the sheets.
    let mut bases: Vec<String> = Vec::new();
    let mut b: usize = 0;
    while b < ids.len()
        invariant
            b <= ids.len(),
            fm == file_models(files@),
            hm == owned_rows(models, fm, order),
            owners == owner_ids(hm),
            owners == ids@.map_values(|i: i32| i as int),
            bases@.len() == b,
            forall|k: int|
                0 <= k < b ==> (#[trigger] bases@[k])@ == sheet_name_of(
                    file_name_of(fm, owners[k])->0,
                ),
        decreases ids.len() - b,
    {
        let id: i32 = ids[b];
        proof {
            assert(owners[b as int] == id as int);
            assert(owners.contains(owners[b as int]));
            lemma_owners_are_on_record(models, fm, order, id as int);
        }
        let base: String = match find_file_name(files, id) {
            Some(name) => sanitize_sheet_name(name.as_str()),
            None => sanitize_sheet_name(""),
        };
        bases.push(base);
        b = b + 1;
    }
    assert(texts(bases@) =~= base_names(fm, owners));
    let names: Vec<String> = distinct_names(&bases);
    assert(texts(names@).len() == names@.len());
    proof {
        lemma_sheet_names_len(texts(bases@));
    }
    // One sheet for each owning file.
    let mut plans: Vec<SheetPlan> = Vec::new();
    let mut n: usize = 0;
    while n < ids.len()
        invariant
            n <= ids.len(),
            names@.len() == ids@.len(),
            texts(names@) == sheet_names(base_names(fm, owners)),
            fm == file_models(files@),
            hm == borrowed_models(hits@),
            hm == owned_rows(models, fm, order),
            owners == owner_ids(hm),
            owners == ids@.map_values(|i: i32| i as int),
            plans@.len() == n,
            forall|k: int|
                0 <= k < n ==> (#[trigger] plans@[k])@ == sheet_plan_of(
                    rows_of_file(hm, owners[k]),
                    sheet_names(base_names(fm, owners))[k],
                    field_order_for(fm, owners[k]),
                ),
        decreases ids.len() - n,
    {
        let id: i32 = ids[n];
        assert(owners[n as int] == id as int);
        let mut group: Vec<&DataRow> = Vec::new();
        let mut m: usize = 0;
        proof {
            assert(hm.take(0) =~= Seq::<DataRowModel>::empty());
            assert(borrowed_models(group@) =~= rows_of_file(hm.take(0), id as int));
        }
        while m < hits.len()
            invariant
                m <= hits.len(),
                hm == borrowed_models(hits@),
                borrowed_models(group@) == rows_of_file(hm.take(m as int), id as int),
            decreases hits.len() - m,
        {
            proof {
                let part = hm.take(m as int + 1);
                assert(part.drop_last() =~= hm.take(m as int));
                assert(part.last() == hits@[m as int]@);
            }
            if hits[m].file_id() == id {
                let ghost before = borrowed_models(group@);
                group.push(hits[m]);
                assert(borrowed_models(group@) =~= before.push(hits@[m as int]@));
            }
            m = m + 1;
        }
        assert(hm.take(hits.len() as int) =~= hm);
        let field_order: Vec<String> = find_field_order(files, id);
        assert(texts(names@)[n as int] == names@[n as int]@);
        let plan: SheetPlan = plan_sheet(&group, names[n].as_str(), &field_order);
        plans.push(plan);
        n = n + 1;
    }
    assert(plan_models(plans@) =~= export_plan(models, fm, query_text@));
    Ok(plans)
}

/// Every file that owns an exported row is on record.
pub proof fn lemma_owners_are_on_record(
    rows: Seq<DataRowModel>,
    files: Seq<FileModel>,
    order: Seq<Ranking>,
    id: int,
)
    requires
        owner_ids(owned_rows(rows, files, order)).contains(id),
    ensures
        file_name_of(files, id) is Some,
{
    let hits = owned_rows(rows, files, order);
    lemma_owned_rows_have_owner(rows, files, order);
    lemma_owner_has_row(hits, id);
}

/// Every exported row has an owning file on record.
pub proof fn lemma_owned_rows_have_owner(
    rows: Seq<DataRowModel>,
    files: Seq<FileModel>,
    order: Seq<Ranking>,
)
    ensures
        forall|i: int|
            0 <= i < owned_rows(rows, files, order).len() ==> file_name_of(
                files,
                (#[trigger] owned_rows(rows, files, order)[i]).file_id,
            ) is Some,
    decreases order.len(),
{
    if order.len() > 0 {
        lemma_owned_rows_have_owner(rows, files, order.drop_last());
    }
}

/// Every owner owns one of the rows.
pub proof fn lemma_owner_has_row(hits: Seq<DataRowModel>, id: int)
    requires
        owner_ids(hits).contains(id),
    ensures
        exists|i: int| 0 <= i < hits.len() && (#[trigger] hits[i]).file_id == id,
    decreases hits.len(),
{
    if hits.len() > 0 {
        let before = owner_ids(hits.drop_last());
        if before.contains(id) {
            lemma_owner_has_row(hits.drop_last(), id);
            let i = choose|i: int|
                0 <= i < hits.drop_last().len() && (#[trigger] hits.drop_last()[i]).file_id == id;
            assert(hits[i].file_id == id);
        } else {
            let k = choose|k: int| 0 <= k < owner_ids(hits).len() && owner_ids(hits)[k] == id;
            if k < before.len() {
                assert(before[k] == id);
            }
            assert(hits[hits.len() - 1].file_id == id);
        }
    }
}

} // verus!
