//! The spreadsheet reader: from the cell texts of a workbook's sheets to
//! typed rows, and to the field order of the file.
//!
//! A sheet arrives as a grid of cell texts, row by row.  Its first row is the
//! header; every further row becomes one record that maps the header of each
//! column to the typed value of the cell below it.

use vstd::prelude::*;
use crate::cell::{coerce_cell, coerced};
use crate::row::{row_insert, Row, RowModel};
use crate::text::{same_text, texts};

verus! {

/// The label that stands for a blank header cell.
pub const BLANK_HEADER: &'static str = "EMPTY";

/// A grid of cell texts, as a model.
pub type GridModel = Seq<Seq<Seq<char>>>;

/// The model of a list of rows of cell texts.
pub open spec fn grid_model(rows: Seq<Vec<String>>) -> GridModel {
    rows.map_values(|r: Vec<String>| texts(r@))
}

/// The models of a list of rows.
pub open spec fn row_models(rows: Seq<Row>) -> Seq<RowModel> {
    rows.map_values(|r: Row| r@)
}

/// One sheet as it comes out of a workbook: its name and its cell texts, or
/// no cells where the sheet could not be read.
#[derive(Debug, Clone, PartialEq, Eq)]
pub struct RawSheet {
    pub name: String,
    pub cells: Option<Vec<Vec<String>>>,
}

/// The model of a raw sheet.
pub struct RawSheetModel {
    pub name: Seq<char>,
    pub cells: Option<GridModel>,
}

impl View for RawSheet {
    type V = RawSheetModel;

    open spec fn view(&self) -> RawSheetModel {
        RawSheetModel {
            name: self.name@,
            cells: match self.cells {
                Some(rows) => Some(grid_model(rows@)),
                None => None,
            },
        }
    }
}

/// The records of one sheet.
#[derive(Debug, PartialEq, Eq)]
pub struct SheetData {
    pub name: String,
    pub rows: Vec<Row>,
}

/// The model of the records of one sheet.
pub struct SheetModel {
    pub name: Seq<char>,
    pub rows: Seq<RowModel>,
}

impl View for SheetData {
    type V = SheetModel;

    open spec fn view(&self) -> SheetModel {
        SheetModel { name: self.name@, rows: row_models(self.rows@) }
    }
}

/// The models of a list of raw sheets.
pub open spec fn raw_models(sheets: Seq<RawSheet>) -> Seq<RawSheetModel> {
    sheets.map_values(|s: RawSheet| s@)
}

/// The models of a list of sheets.
pub open spec fn sheet_models(sheets: Seq<SheetData>) -> Seq<SheetModel> {
    sheets.map_values(|s: SheetData| s@)
}

/// The header that a header cell gives: its text, or `BLANK_HEADER` for a blank cell.
pub open spec fn header_label(cell: Seq<char>) -> Seq<char> {
    if cell.len() == 0 {
        BLANK_HEADER@
    } else {
        cell
    }
}

/// The headers of a sheet, column by column.
pub open spec fn headers_of(first_row: Seq<Seq<char>>) -> Seq<Seq<char>> {
    first_row.map_values(|c: Seq<char>| header_label(c))
}

/// The record of one data row: from left to right, the cell of each column
/// that has a header is typed and set under that header.  Cells beyond the
/// last header are left out.
pub open spec fn record_of(headers: Seq<Seq<char>>, cells: Seq<Seq<char>>) -> RowModel
    decreases cells.len(),
{
    if cells.len() == 0 {
        RowModel::empty()
    } else {
        let before = record_of(headers, cells.drop_last());
        if cells.len() <= headers.len() {
            row_insert(before, headers[cells.len() - 1], coerced(cells.last()))
        } else {
            before
        }
    }
}

/// The records of the data rows `rows` under `headers`, in order; a row that
/// gives an empty record is left out.
pub open spec fn records_of(headers: Seq<Seq<char>>, rows: GridModel) -> Seq<RowModel>
    decreases rows.len(),
{
    if rows.len() == 0 {
        Seq::empty()
    } else {
        let before = records_of(headers, rows.drop_last());
        let record = record_of(headers, rows.last());
        if record.len() > 0 {
            before.push(record)
        } else {
            before
        }
    }
}

/// The records of a sheet: none where it could not be read or has no row;
/// else the records of the rows below its header row.
pub open spec fn sheet_records(cells: Option<GridModel>) -> Seq<RowModel> {
    match cells {
        None => Seq::empty(),
        Some(grid) => if grid.len() == 0 {
            Seq::empty()
        } else {
            records_of(headers_of(grid.first()), grid.skip(1))
        },
    }
}

/// The sheets of a workbook that have records, in workbook order.
pub open spec fn read_sheets(sheets: Seq<RawSheetModel>) -> Seq<SheetModel>
    decreases sheets.len(),
{
    if sheets.len() == 0 {
        Seq::empty()
    } else {
        let before = read_sheets(sheets.drop_last());
        let rows = sheet_records(sheets.last().cells);
        if rows.len() > 0 {
            before.push(SheetModel { name: sheets.last().name, rows })
        } else {
            before
        }
    }
}

/// `seen`, followed by the names of `names` that are not yet in it, each once
/// and in the order of their first occurrence.
pub open spec fn with_new_names(seen: Seq<Seq<char>>, names: Seq<Seq<char>>) -> Seq<Seq<char>>
    decreases names.len(),
{
    if names.len() == 0 {
        seen
    } else {
        let before = with_new_names(seen, names.drop_last());
        if before.contains(names.last()) {
            before
        } else {
            before.push(names.last())
        }
    }
}

/// The field order of a workbook: the headers of its sheets that have
/// records, each once, in the order in which they are first seen.
pub open spec fn field_order_of(sheets: Seq<RawSheetModel>) -> Seq<Seq<char>>
    decreases sheets.len(),
{
    if sheets.len() == 0 {
        Seq::empty()
    } else {
        let before = field_order_of(sheets.drop_last());
        if sheet_records(sheets.last().cells).len() > 0 {
            with_new_names(before, headers_of(sheets.last().cells->0.first()))
        } else {
            before
        }
    }
}

/// Adding names keeps what was seen, in place, adds every new name, and
/// adds nothing twice.
pub proof fn lemma_with_new_names(seen: Seq<Seq<char>>, names: Seq<Seq<char>>)
    requires
        seen.no_duplicates(),
    ensures
        with_new_names(seen, names).no_duplicates(),
        seen.len() <= with_new_names(seen, names).len(),
        with_new_names(seen, names).take(seen.len() as int) == seen,
        forall|i: int| 0 <= i < names.len() ==> with_new_names(seen, names).contains(#[trigger] names[i]),
        forall|i: int|
            0 <= i < with_new_names(seen, names).len() ==> seen.contains(
                #[trigger] with_new_names(seen, names)[i],
            ) || names.contains(with_new_names(seen, names)[i]),
    decreases names.len(),
{
    let all = with_new_names(seen, names);
    if names.len() == 0 {
        assert(seen.take(seen.len() as int) =~= seen);
        assert forall|i: int| 0 <= i < all.len() implies seen.contains(#[trigger] all[i]) by {}
    } else {
        let head = names.drop_last();
        let before = with_new_names(seen, head);
        lemma_with_new_names(seen, head);
        assert(all.take(seen.len() as int) =~= before.take(seen.len() as int));
        assert forall|i: int| 0 <= i < names.len() implies all.contains(#[trigger] names[i]) by {
            if i < head.len() {
                assert(head[i] == names[i]);
                let k = choose|k: int| 0 <= k < before.len() && before[k] == head[i];
                assert(all[k] == names[i]);
            } else if before.contains(names.last()) {
            } else {
                assert(all[before.len() as int] == names[i]);
            }
        }
        assert forall|i: int| 0 <= i < all.len() implies seen.contains(#[trigger] all[i])
            || names.contains(all[i]) by {
            if i < before.len() {
                assert(all[i] == before[i]);
                if !seen.contains(before[i]) {
                    let k = choose|k: int| 0 <= k < head.len() && head[k] == before[i];
                    assert(names[k] == all[i]);
                }
            } else {
                assert(all[i] == names[names.len() - 1]);
            }
        }
    }
}

/// The field order names no header twice.
pub proof fn law_field_order_is_distinct(sheets: Seq<RawSheetModel>)
    ensures
        field_order_of(sheets).no_duplicates(),
    decreases sheets.len(),
{
    if sheets.len() > 0 {
        law_field_order_is_distinct(sheets.drop_last());
        if sheet_records(sheets.last().cells).len() > 0 {
            lemma_with_new_names(
                field_order_of(sheets.drop_last()),
                headers_of(sheets.last().cells->0.first()),
            );
        }
    }
}

/// The headers of a header row.
pub fn read_headers(first_row: &Vec<String>) -> (headers: Vec<String>)
    ensures
        texts(headers@) == headers_of(texts(first_row@)),
{
    let mut headers: Vec<String> = Vec::new();
    let mut i: usize = 0;
    while i < first_row.len()
        invariant
            i <= first_row.len(),
            headers@.len() == i,
            forall|k: int| 0 <= k < i ==> (#[trigger] headers@[k])@ == header_label(first_row@[k]@),
        decreases first_row.len() - i,
    {
        let cell: &String = &first_row[i];
        if cell.as_str().is_empty() {
            headers.push(BLANK_HEADER.to_owned());
        } else {
            headers.push(cell.clone());
        }
        i = i + 1;
    }
    assert(texts(headers@) =~= headers_of(texts(first_row@)));
    headers
}

/// The record of one data row under `headers`.
pub fn read_record(headers: &Vec<String>, cells: &Vec<String>) -> (record: Row)
    ensures
        record@ == record_of(texts(headers@), texts(cells@)),
{
    let mut record: Row = Row::new();
    let mut i: usize = 0;
    assert(texts(cells@).take(0) =~= Seq::<Seq<char>>::empty());
    while i < cells.len()
        invariant
            i <= cells.len(),
            record@ == record_of(texts(headers@), texts(cells@).take(i as int)),
        decreases cells.len() - i,
    {
        proof {
            let part = texts(cells@).take(i as int + 1);
            assert(part.drop_last() =~= texts(cells@).take(i as int));
            assert(part.last() == cells@[i as int]@);
        }
        if i < headers.len() {
            let value = coerce_cell(cells[i].as_str());
            record.insert(headers[i].clone(), value);
        }
        i = i + 1;
    }
    assert(texts(cells@).take(cells.len() as int) =~= texts(cells@));
    record
}

/// The records of a sheet.
pub fn read_sheet(cells: &Option<Vec<Vec<String>>>) -> (rows: Vec<Row>)
    ensures
        row_models(rows@) == sheet_records(
            match *cells {
                Some(g) => Some(grid_model(g@)),
                None => None,
            },
        ),
{
    let mut rows: Vec<Row> = Vec::new();
    match cells {
        None => {
            assert(row_models(rows@) =~= Seq::<RowModel>::empty());
        },
        Some(grid) => {
            if grid.len() == 0 {
                assert(row_models(rows@) =~= Seq::<RowModel>::empty());
            } else {
                let headers: Vec<String> = read_headers(&grid[0]);
                let ghost hs = headers_of(grid_model(grid@).first());
                let ghost data = grid_model(grid@).skip(1);
                let mut i: usize = 1;
                proof {
                    assert(texts(headers@) == hs);
                    assert(data.take(0) =~= GridModel::empty());
                    assert(row_models(rows@) =~= records_of(hs, data.take(0)));
                }
                while i < grid.len()
                    invariant
                        1 <= i <= grid.len(),
                        texts(headers@) == hs,
                        data == grid_model(grid@).skip(1),
                        row_models(rows@) == records_of(hs, data.take(i as int - 1)),
                    decreases grid.len() - i,
                {
                    let record: Row = read_record(&headers, &grid[i]);
                    let ghost before = row_models(rows@);
                    proof {
                        let part = data.take(i as int);
                        assert(part.drop_last() =~= data.take(i as int - 1));
                        assert(part.last() == texts(grid@[i as int]@));
                    }
                    if !record.is_empty() {
                        rows.push(record);
                        assert(row_models(rows@) =~= before.push(record@));
                    }
                    i = i + 1;
                }
                assert(data.take(grid.len() as int - 1) =~= data);
            }
        },
    }
    rows
}

/// Whether `names` holds the text of `name`.
pub fn names_contain(names: &Vec<String>, name: &str) -> (b: bool)
    ensures
        b == texts(names@).contains(name@),
{
    let mut i: usize = 0;
    while i < names.len()
        invariant
            i <= names.len(),
            forall|k: int| 0 <= k < i ==> (#[trigger] texts(names@)[k]) != name@,
        decreases names.len() - i,
    {
        if same_text(names[i].as_str(), name) {
            assert(texts(names@)[i as int] == name@);
            return true;
        }
        i = i + 1;
    }
    false
}

/// Appends to `seen` the names of `names` that it does not hold yet.
pub fn add_new_names(seen: &mut Vec<String>, names: &Vec<String>)
    ensures
        texts(final(seen)@) == with_new_names(texts(old(seen)@), texts(names@)),
{
    let ghost start = texts(seen@);
    let mut i: usize = 0;
    assert(texts(names@).take(0) =~= Seq::<Seq<char>>::empty());
    while i < names.len()
        invariant
            i <= names.len(),
            texts(seen@) == with_new_names(start, texts(names@).take(i as int)),
        decreases names.len() - i,
    {
        proof {
            let part = texts(names@).take(i as int + 1);
            assert(part.drop_last() =~= texts(names@).take(i as int));
            assert(part.last() == names@[i as int]@);
        }
        if !names_contain(seen, names[i].as_str()) {
            let ghost before = texts(seen@);
            seen.push(names[i].clone());
            assert(texts(seen@) =~= before.push(names@[i as int]@));
        }
        i = i + 1;
    }
    assert(texts(names@).take(names.len() as int) =~= texts(names@));
}

/// Reads the sheets of a workbook: the sheets that have records, with their
/// records, and the field order of the file.
pub fn read_excel_file(sheets: &Vec<RawSheet>) -> (r: (Vec<SheetData>, Vec<String>))
    ensures
        sheet_models(r.0@) == read_sheets(raw_models(sheets@)),
        texts(r.1@) == field_order_of(raw_models(sheets@)),
{
    let mut data: Vec<SheetData> = Vec::new();
    let mut order: Vec<String> = Vec::new();
    let ghost raws = raw_models(sheets@);
    let mut i: usize = 0;
    proof {
        assert(raws.take(0) =~= Seq::<RawSheetModel>::empty());
        assert(sheet_models(data@) =~= read_sheets(raws.take(0)));
        assert(texts(order@) =~= field_order_of(raws.take(0)));
    }
    while i < sheets.len()
        invariant
            i <= sheets.len(),
            raws == raw_models(sheets@),
            sheet_models(data@) == read_sheets(raws.take(i as int)),
            texts(order@) == field_order_of(raws.take(i as int)),
        decreases sheets.len() - i,
    {
        let sheet: &RawSheet = &sheets[i];
        let rows: Vec<Row> = read_sheet(&sheet.cells);
        proof {
            let part = raws.take(i as int + 1);
            assert(part.drop_last() =~= raws.take(i as int));
            assert(part.last() == sheet@);
        }
        if rows.len() > 0 {
            match &sheet.cells {
                Some(grid) => {
                    if grid.len() > 0 {
                        let headers: Vec<String> = read_headers(&grid[0]);
                        add_new_names(&mut order, &headers);
                    }
                },
                None => {},
            }
            let ghost before = sheet_models(data@);
            let ghost model = SheetModel { name: sheet.name@, rows: row_models(rows@) };
            data.push(SheetData { name: sheet.name.clone(), rows });
            assert(sheet_models(data@) =~= before.push(model));
        }
        i = i + 1;
    }
    assert(raws.take(sheets.len() as int) =~= raws);
    (data, order)
}

} // verus!
