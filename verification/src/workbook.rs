//! Writing an export as a workbook, with the crate `rust_xlsxwriter`.
//!
//! The layout comes from the module `export`.  Here it is written cell by
//! cell: the header row in a style of its own, the rows below it, every column
//! at the same width.  The writer takes a sheet whose name, size and texts
//! are within its limits; whether it saves the workbook is its own affair.
//! The bytes that it gives hold the sheets as they were laid out, and more
//! than that, the time of writing among it.

use vstd::prelude::*;
use crate::export::{
    build_export_plan, export_outline, is_forbidden_in_sheet_name, plan_models, ExportError,
    SheetPlan, SheetPlanModel, MAX_SHEET_NAME_LEN,
};
use crate::record::{data_row_models, file_models, DataRow, FileRecord};

verus! {

#[verifier::external_type_specification]
#[verifier::external_body]
pub struct ExWorkbook(rust_xlsxwriter::Workbook);

#[verifier::external_type_specification]
#[verifier::external_body]
pub struct ExWorksheet(rust_xlsxwriter::Worksheet);

#[verifier::external_type_specification]
#[verifier::external_body]
pub struct ExFormat(rust_xlsxwriter::Format);

#[verifier::external_type_specification]
#[verifier::external_body]
pub struct ExXlsxError(rust_xlsxwriter::XlsxError);

/// The width of every column, in characters.
pub const COLUMN_WIDTH: u32 = 15;

/// The largest width of a column, in characters.
pub const MAX_COLUMN_WIDTH: u32 = 255;

/// The largest colour `0xRRGGBB`.
pub const MAX_RGB: u32 = 0xFFFFFF;

/// The background of the header row, as a colour `0xRRGGBB`.
pub const HEADER_BACKGROUND: u32 = 0x4472C4;

/// The colour of the text of the header row.
pub const HEADER_TEXT_COLOR: u32 = 0xFFFFFF;

/// The number of columns that can be numbered.
pub const MAX_COLUMNS: usize = 65536;

/// The number of rows that the writer takes in a sheet.
pub const WRITER_ROWS: u32 = 1_048_576;

/// The number of columns that the writer takes in a sheet.
pub const WRITER_COLUMNS: u16 = 16_384;

/// The longest text that the writer takes in a cell, in characters.
pub const WRITER_TEXT_LEN: usize = 32_767;

/// Whether the writer takes `name` as the name of a sheet: it is not empty,
/// has at most `MAX_SHEET_NAME_LEN` characters, holds none of the forbidden
/// ones, and neither begins nor ends with an apostrophe.
pub open spec fn writer_takes_name(name: Seq<char>) -> bool {
    &&& 0 < name.len() <= MAX_SHEET_NAME_LEN
    &&& forall|i: int| 0 <= i < name.len() ==> !is_forbidden_in_sheet_name(#[trigger] name[i])
    &&& name.first() != '\''
    &&& name.last() != '\''
}

/// Whether the writer takes the text `text` for the cell at `row` and `col`:
/// the cell is within the rows and columns of a sheet, and the text is not
/// longer than a cell can hold.
pub open spec fn writer_takes_cell(row: int, col: int, text: Seq<char>) -> bool {
    row < WRITER_ROWS && col < WRITER_COLUMNS && text.len() <= WRITER_TEXT_LEN
}

/// Whether the writer takes the texts `cells` for the row `row`, from the
/// first column on.
pub open spec fn writer_takes_row(row: int, cells: Seq<Seq<char>>) -> bool {
    forall|c: int| 0 <= c < cells.len() ==> writer_takes_cell(row, c, #[trigger] cells[c])
}

/// Whether the writer takes a sheet that is laid out as `plan` says: its
/// name, its header row and every row below it.
pub open spec fn writer_takes_sheet(plan: SheetPlanModel) -> bool {
    &&& writer_takes_name(plan.name)
    &&& writer_takes_row(0, plan.columns)
    &&& forall|i: int| 0 <= i < plan.rows.len() ==> writer_takes_row(i + 1, #[trigger] plan.rows[i])
}

/// Whether the writer takes every sheet.
pub open spec fn writer_takes_all(plans: Seq<SheetPlanModel>) -> bool {
    forall|i: int| 0 <= i < plans.len() ==> writer_takes_sheet(#[trigger] plans[i])
}

/// The cells that a sheet holds: for each cell that was written, by its row
/// and column, the text that was written there.  A cell that was written with
/// an empty text is held as a blank cell; its text is the empty one.
pub uninterp spec fn sheet_cells(sheet: rust_xlsxwriter::Worksheet) -> Map<(int, int), Seq<char>>;

/// The cells of a sheet into which nothing was written.
pub open spec fn no_cells() -> Map<(int, int), Seq<char>> {
    Map::empty()
}

/// The name of a sheet.
pub uninterp spec fn sheet_title(sheet: rust_xlsxwriter::Worksheet) -> Seq<char>;

/// The sheets that a workbook holds, in the order in which they were added:
/// of each its name and its cells.
pub uninterp spec fn book_sheets(book: rust_xlsxwriter::Workbook) -> Seq<
    (Seq<char>, Map<(int, int), Seq<char>>),
>;

/// The sheets of a workbook to which none was added.
pub open spec fn no_sheets() -> Seq<(Seq<char>, Map<(int, int), Seq<char>>)> {
    Seq::empty()
}

/// Whether `bytes` are a workbook file that holds the sheets `sheets`, in
/// that order, each under its name and with its cells, and no other sheet.
pub uninterp spec fn bytes_hold(
    bytes: Seq<u8>,
    sheets: Seq<(Seq<char>, Map<(int, int), Seq<char>>)>,
) -> bool;

/// Calls `Workbook::new`.  Trusted: the new workbook holds no sheet.
#[verifier::external_body]
fn new_workbook() -> (book: rust_xlsxwriter::Workbook)
    ensures
        book_sheets(book) == no_sheets(),
{
    rust_xlsxwriter::Workbook::new()
}

/// Calls `Worksheet::new`.  Trusted: the new sheet holds no cell and has the
/// empty name.
#[verifier::external_body]
fn new_worksheet() -> (sheet: rust_xlsxwriter::Worksheet)
    ensures
        sheet_cells(sheet) == no_cells(),
        sheet_title(sheet) == Seq::<char>::empty(),
{
    rust_xlsxwriter::Worksheet::new()
}

/// Calls `Format::new`.  Trusted; nothing is claimed of the format.
#[verifier::external_body]
fn new_format() -> rust_xlsxwriter::Format {
    rust_xlsxwriter::Format::new()
}

/// Calls `Format::set_bold`.  Trusted; nothing is claimed of the format.
#[verifier::external_body]
fn with_bold(format: rust_xlsxwriter::Format) -> rust_xlsxwriter::Format {
    format.set_bold()
}

/// Calls `Format::set_background_color` with the colour `rgb`.  Trusted;
/// nothing is claimed of the format.  The colour is confined to `MAX_RGB`:
/// for a larger number the writer prints a complaint.
#[verifier::external_body]
fn with_background(format: rust_xlsxwriter::Format, rgb: u32) -> (r: rust_xlsxwriter::Format)
    requires
        rgb <= MAX_RGB,
{
    format.set_background_color(rgb)
}

/// Calls `Format::set_font_color` with the colour `rgb`.  Trusted; nothing is
/// claimed of the format.  The colour is confined to `MAX_RGB`: for a larger
/// number the writer prints a complaint.
#[verifier::external_body]
fn with_font_color(format: rust_xlsxwriter::Format, rgb: u32) -> (r: rust_xlsxwriter::Format)
    requires
        rgb <= MAX_RGB,
{
    format.set_font_color(rgb)
}

/// Calls `Format::set_border` with a thin border.  Trusted; nothing is
/// claimed of the format.
#[verifier::external_body]
fn with_thin_border(format: rust_xlsxwriter::Format) -> rust_xlsxwriter::Format {
    format.set_border(rust_xlsxwriter::FormatBorder::Thin)
}

/// Calls `Worksheet::set_name`.  Trusted: the writer takes the name exactly
/// where `writer_takes_name` says so; where it does, the sheet has that
/// name, where it does not, the sheet keeps the name that it had; the cells
/// stay as they are.
#[verifier::external_body]
fn name_worksheet(sheet: &mut rust_xlsxwriter::Worksheet, name: &str) -> (r: Result<
    (),
    rust_xlsxwriter::XlsxError,
>)
    ensures
        r is Ok <==> writer_takes_name(name@),
        r is Ok ==> sheet_title(*final(sheet)) == name@,
        r is Err ==> sheet_title(*final(sheet)) == sheet_title(*old(sheet)),
        sheet_cells(*final(sheet)) == sheet_cells(*old(sheet)),
{
    sheet.set_name(name).map(|_| ())
}

/// Calls `Worksheet::write_string_with_format`.  Trusted: the writer takes
/// the cell exactly where `writer_takes_cell` says so; where it does, the
/// sheet holds the text at that row and column, in the place of what it held
/// there, and its other cells as before; where it does not, the cells stay as
/// they are.  The name stays.
#[verifier::external_body]
fn write_cell(
    sheet: &mut rust_xlsxwriter::Worksheet,
    row: u32,
    col: u16,
    text: &str,
    format: &rust_xlsxwriter::Format,
) -> (r: Result<(), rust_xlsxwriter::XlsxError>)
    ensures
        r is Ok <==> writer_takes_cell(row as int, col as int, text@),
        r is Ok ==> sheet_cells(*final(sheet)) == sheet_cells(*old(sheet)).insert(
            (row as int, col as int),
            text@,
        ),
        r is Err ==> sheet_cells(*final(sheet)) == sheet_cells(*old(sheet)),
        sheet_title(*final(sheet)) == sheet_title(*old(sheet)),
{
    sheet.write_string_with_format(row, col, text, format).map(|_| ())
}

/// Calls `Worksheet::set_column_width`.  Trusted: the writer takes the width
/// exactly where the column is one of the columns of a sheet; the cells and
/// the name stay as they are.  The width is confined to `MAX_COLUMN_WIDTH`,
/// the largest that a sheet knows, because the writer turns the width into
/// pixels by an unchecked multiplication.
#[verifier::external_body]
fn set_width(sheet: &mut rust_xlsxwriter::Worksheet, col: u16, width: u32) -> (r: Result<
    (),
    rust_xlsxwriter::XlsxError,
>)
    requires
        width <= MAX_COLUMN_WIDTH,
    ensures
        r is Ok <==> col < WRITER_COLUMNS,
        sheet_cells(*final(sheet)) == sheet_cells(*old(sheet)),
        sheet_title(*final(sheet)) == sheet_title(*old(sheet)),
{
    sheet.set_column_width(col, width).map(|_| ())
}

/// Calls `Workbook::push_worksheet`.  Trusted: the workbook holds the sheet
/// behind those that it held, under its name and with its cells.  A sheet
/// without a name is left out, because the writer gives such a sheet a name
/// of its own.
#[verifier::external_body]
fn add_worksheet(book: &mut rust_xlsxwriter::Workbook, sheet: rust_xlsxwriter::Worksheet)
    requires
        sheet_title(sheet).len() > 0,
    ensures
        book_sheets(*final(book)) == book_sheets(*old(book)).push(
            (sheet_title(sheet), sheet_cells(sheet)),
        ),
{
    book.push_worksheet(sheet)
}

/// Calls `Workbook::save_to_buffer`.  Trusted: the writer decides whether it
/// saves; it does not where two sheets have the same name.  Where it does,
/// and the workbook holds a sheet, the bytes hold the sheets of the workbook.
/// (A workbook without a sheet is saved with one that the writer adds.)  The
/// bytes hold more than the sheets, among other things the time of writing,
/// so they are not fixed by the sheets.
#[verifier::external_body]
fn save_workbook(book: &mut rust_xlsxwriter::Workbook) -> (r: Result<
    Vec<u8>,
    rust_xlsxwriter::XlsxError,
>)
    ensures
        r matches Ok(bytes) ==> book_sheets(*old(book)).len() > 0 ==> bytes_hold(
            bytes@,
            book_sheets(*old(book)),
        ),
{
    book.save_to_buffer()
}

/// Writes the error of the writer as text, by its `Display`.  Trusted;
/// nothing is claimed of the text.
#[verifier::external_body]
fn describe_error(error: &rust_xlsxwriter::XlsxError) -> String {
    error.to_string()
}

/// The export error for an error of the writer.
fn writer_error(error: &rust_xlsxwriter::XlsxError) -> (e: ExportError)
    ensures
        e is Workbook,
{
    ExportError::Workbook(describe_error(error))
}

/// The style of the header row: bold, white on blue, with a thin border.
fn header_format() -> rust_xlsxwriter::Format {
    with_thin_border(
        with_font_color(
            with_background(with_bold(new_format()), HEADER_BACKGROUND),
            HEADER_TEXT_COLOR,
        ),
    )
}

/// The style of the other rows: a thin border.
fn data_format() -> rust_xlsxwriter::Format {
    with_thin_border(new_format())
}

/// A sheet whose rows and columns can be numbered: at most `MAX_COLUMNS`
/// columns and cells in a row, and fewer rows than `u32::MAX`.
pub open spec fn sheet_fits(plan: SheetPlanModel) -> bool {
    &&& plan.columns.len() <= MAX_COLUMNS
    &&& plan.rows.len() < u32::MAX
    &&& forall|i: int| 0 <= i < plan.rows.len() ==> (#[trigger] plan.rows[i]).len() <= MAX_COLUMNS
}

/// Every sheet fits.
pub open spec fn all_fit(plans: Seq<SheetPlanModel>) -> bool {
    forall|i: int| 0 <= i < plans.len() ==> sheet_fits(#[trigger] plans[i])
}

/// Whether the rows and columns of a sheet can be numbered.
pub fn check_sheet_fits(plan: &SheetPlan) -> (b: bool)
    ensures
        b == sheet_fits(plan@),
{
    if plan.columns.len() > MAX_COLUMNS {
        return false;
    }
    if plan.rows.len() >= u32::MAX as usize {
        return false;
    }
    let mut i: usize = 0;
    while i < plan.rows.len()
        invariant
            i <= plan.rows.len(),
            forall|k: int| 0 <= k < i ==> (#[trigger] plan@.rows[k]).len() <= MAX_COLUMNS,
        decreases plan.rows.len() - i,
    {
        if plan.rows[i].len() > MAX_COLUMNS {
            assert(plan@.rows[i as int].len() > MAX_COLUMNS);
            return false;
        }
        i = i + 1;
    }
    true
}

/// Whether every sheet fits.
pub fn check_all_fit(plans: &Vec<SheetPlan>) -> (b: bool)
    ensures
        b == all_fit(plan_models(plans@)),
{
    let mut i: usize = 0;
    while i < plans.len()
        invariant
            i <= plans.len(),
            forall|k: int| 0 <= k < i ==> sheet_fits(#[trigger] plan_models(plans@)[k]),
        decreases plans.len() - i,
    {
        if !check_sheet_fits(&plans[i]) {
            assert(!sheet_fits(plan_models(plans@)[i as int]));
            return false;
        }
        i = i + 1;
    }
    true
}

/// The cells `held` with the texts `cells` put into the row `row`, from the
/// first column on.
pub open spec fn with_row(
    held: Map<(int, int), Seq<char>>,
    row: int,
    cells: Seq<Seq<char>>,
) -> Map<(int, int), Seq<char>> {
    Map::new(
        |at: (int, int)| held.dom().contains(at) || (at.0 == row && 0 <= at.1 < cells.len()),
        |at: (int, int)|
            if at.0 == row && 0 <= at.1 < cells.len() {
                cells[at.1]
            } else {
                held[at]
            },
    )
}

/// The cells of a sheet that is laid out as `plan` says, as far as its
/// header row and the first `n` rows below it: the header row is the row 0,
/// the rows below it follow from the row 1 on, each from the first column on.
pub open spec fn plan_cells_up_to(plan: SheetPlanModel, n: int) -> Map<(int, int), Seq<char>> {
    Map::new(
        |at: (int, int)|
            (at.0 == 0 && 0 <= at.1 < plan.columns.len()) || (1 <= at.0 <= n && 0 <= at.1
                < plan.rows[at.0 - 1].len()),
        |at: (int, int)|
            if at.0 == 0 {
                plan.columns[at.1]
            } else {
                plan.rows[at.0 - 1][at.1]
            },
    )
}

/// The cells of a sheet that is laid out as `plan` says.
pub open spec fn plan_cells(plan: SheetPlanModel) -> Map<(int, int), Seq<char>> {
    plan_cells_up_to(plan, plan.rows.len() as int)
}

/// Writes the cells of one row of a sheet, from the first column on.  It
/// succeeds exactly where the writer takes every cell; the sheet then holds
/// the row, and its other cells as before.
fn write_cells(
    sheet: &mut rust_xlsxwriter::Worksheet,
    row: u32,
    cells: &Vec<String>,
    format: &rust_xlsxwriter::Format,
) -> (r: Result<(), ExportError>)
    requires
        cells@.len() <= MAX_COLUMNS,
    ensures
        r is Ok <==> writer_takes_row(row as int, crate::text::texts(cells@)),
        r matches Err(e) ==> e is Workbook,
        r is Ok ==> sheet_cells(*final(sheet)) == with_row(
            sheet_cells(*old(sheet)),
            row as int,
            crate::text::texts(cells@),
        ),
        sheet_title(*final(sheet)) == sheet_title(*old(sheet)),
{
    let ghost held = sheet_cells(*sheet);
    let ghost title = sheet_title(*sheet);
    let ghost all = crate::text::texts(cells@);
    let mut c: usize = 0;
    assert(sheet_cells(*sheet) =~= with_row(held, row as int, all.take(0)));
    while c < cells.len()
        invariant
            c <= cells.len() <= MAX_COLUMNS,
            all == crate::text::texts(cells@),
            held == sheet_cells(*old(sheet)),
            title == sheet_title(*old(sheet)),
            sheet_title(*sheet) == title,
            sheet_cells(*sheet) == with_row(held, row as int, all.take(c as int)),
            forall|k: int| 0 <= k < c ==> writer_takes_cell(row as int, k, #[trigger] all[k]),
        decreases cells.len() - c,
    {
        assert(all[c as int] == cells@[c as int]@);
        match write_cell(sheet, row, c as u16, cells[c].as_str(), format) {
            Ok(()) => {},
            Err(e) => {
                assert(!writer_takes_cell(row as int, c as int, all[c as int]));
                return Err(writer_error(&e));
            },
        }
        assert(with_row(held, row as int, all.take(c as int)).insert(
            (row as int, c as int),
            cells@[c as int]@,
        ) =~= with_row(held, row as int, all.take(c as int + 1)));
        c = c + 1;
    }
    assert(all.take(cells.len() as int) =~= all);
    Ok(())
}

/// Writes one sheet: a new sheet gets the name of the plan, then the header
/// row, then the rows below it, then the width of each column.  An error of
/// the writer ends the writing.  It succeeds exactly where the writer takes
/// the sheet; the sheet then has the name of the plan and holds the cells of
/// the plan and no other.
fn write_sheet(
    plan: &SheetPlan,
    header: &rust_xlsxwriter::Format,
    body: &rust_xlsxwriter::Format,
) -> (r: Result<rust_xlsxwriter::Worksheet, ExportError>)
    requires
        sheet_fits(plan@),
    ensures
        r is Ok <==> writer_takes_sheet(plan@),
        r matches Err(e) ==> e is Workbook,
        r matches Ok(sheet) ==> sheet_title(sheet) == plan@.name && sheet_cells(sheet)
            == plan_cells(plan@) && plan@.name.len() > 0,
{
    let mut sheet = new_worksheet();
    match name_worksheet(&mut sheet, plan.name.as_str()) {
        Ok(()) => {},
        Err(e) => {
            return Err(writer_error(&e));
        },
    }
    match write_cells(&mut sheet, 0, &plan.columns, header) {
        Ok(()) => {},
        Err(e) => {
            return Err(e);
        },
    }
    assert(sheet_cells(sheet) =~= plan_cells_up_to(plan@, 0));
    let mut i: usize = 0;
    while i < plan.rows.len()
        invariant
            i <= plan.rows.len(),
            sheet_fits(plan@),
            sheet_title(sheet) == plan@.name,
            sheet_cells(sheet) == plan_cells_up_to(plan@, i as int),
            writer_takes_name(plan@.name),
            writer_takes_row(0, plan@.columns),
            forall|k: int| 0 <= k < i ==> writer_takes_row(k + 1, #[trigger] plan@.rows[k]),
        decreases plan.rows.len() - i,
    {
        assert(plan@.rows[i as int].len() <= MAX_COLUMNS);
        assert(plan@.rows[i as int] == crate::text::texts(plan.rows@[i as int]@));
        match write_cells(&mut sheet, (i + 1) as u32, &plan.rows[i], body) {
            Ok(()) => {},
            Err(e) => {
                assert(!writer_takes_row(i as int + 1, plan@.rows[i as int]));
                return Err(e);
            },
        }
        assert(with_row(plan_cells_up_to(plan@, i as int), i as int + 1, plan@.rows[i as int])
            =~= plan_cells_up_to(plan@, i as int + 1));
        i = i + 1;
    }
    let mut c: usize = 0;
    while c < plan.columns.len()
        invariant
            c <= plan.columns.len() <= MAX_COLUMNS,
            sheet_title(sheet) == plan@.name,
            sheet_cells(sheet) == plan_cells(plan@),
            writer_takes_sheet(plan@),
        decreases plan.columns.len() - c,
    {
        // The writer takes the width of a column whose header cell it took.
        assert(writer_takes_cell(0, c as int, plan@.columns[c as int]));
        match set_width(&mut sheet, c as u16, COLUMN_WIDTH) {
            Ok(()) => {},
            Err(e) => {
                return Err(writer_error(&e));
            },
        }
        c = c + 1;
    }
    Ok(sheet)
}

/// What an export gives once the writer has answered: the bytes, or the
/// error of the writer as text.
pub fn finish_export(saved: Result<Vec<u8>, String>) -> (r: Result<Vec<u8>, ExportError>)
    ensures
        r == match saved {
            Ok(bytes) => Ok::<Vec<u8>, ExportError>(bytes),
            Err(text) => Err::<Vec<u8>, ExportError>(ExportError::Workbook(text)),
        },
{
    match saved {
        Ok(bytes) => Ok(bytes),
        Err(text) => Err(ExportError::Workbook(text)),
    }
}

/// The sheets that a workbook holds when it is laid out as `plans` say: one
/// for each plan, in order, with the name and the cells of the plan.
pub open spec fn sheets_of(plans: Seq<SheetPlanModel>) -> Seq<
    (Seq<char>, Map<(int, int), Seq<char>>),
> {
    plans.map_values(|p: SheetPlanModel| (p.name, plan_cells(p)))
}

/// Writes the sheets as a workbook.  The error is `TooLarge` exactly when a
/// sheet does not fit; any other error is one of the writer.  The writer
/// gives one where it does not take a sheet; where it takes them all, it
/// decides on the saving.  Where it saves and there is a sheet to write,
/// the bytes hold the sheets as the plans lay them out.
pub fn render_workbook(plans: &Vec<SheetPlan>) -> (r: Result<Vec<u8>, ExportError>)
    ensures
        !all_fit(plan_models(plans@)) ==> r == Err::<Vec<u8>, ExportError>(ExportError::TooLarge),
        all_fit(plan_models(plans@)) ==> (r matches Err(e) ==> e is Workbook),
        r is Ok ==> writer_takes_all(plan_models(plans@)),
        r matches Ok(bytes) ==> plans@.len() > 0 ==> bytes_hold(
            bytes@,
            sheets_of(plan_models(plans@)),
        ),
{
    if !check_all_fit(plans) {
        return Err(ExportError::TooLarge);
    }
    let header = header_format();
    let body = data_format();
    let mut book = new_workbook();
    let ghost models = plan_models(plans@);
    let mut i: usize = 0;
    assert(book_sheets(book) =~= sheets_of(models.take(0)));
    while i < plans.len()
        invariant
            i <= plans.len(),
            models == plan_models(plans@),
            all_fit(models),
            book_sheets(book) == sheets_of(models.take(i as int)),
            forall|k: int| 0 <= k < i ==> writer_takes_sheet(#[trigger] models[k]),
        decreases plans.len() - i,
    {
        assert(sheet_fits(models[i as int]));
        match write_sheet(&plans[i], &header, &body) {
            Ok(sheet) => {
                add_worksheet(&mut book, sheet);
            },
            Err(e) => {
                assert(!writer_takes_sheet(models[i as int]));
                return Err(e);
            },
        }
        assert(sheets_of(models.take(i as int)).push((models[i as int].name, plan_cells(models[i as int])))
            =~= sheets_of(models.take(i as int + 1)));
        i = i + 1;
    }
    assert(models.take(plans.len() as int) =~= models);
    let saved: Result<Vec<u8>, String> = match save_workbook(&mut book) {
        Ok(bytes) => Ok(bytes),
        Err(e) => Err(describe_error(&e)),
    };
    finish_export(saved)
}

/// Exports the rows that match `query_text` as a workbook.  A query without
/// keywords and a query without matches give their errors; so does a sheet
/// that does not fit; any other error is one of the writer, which gives one
/// where it does not take a sheet.  Where the writer saves and there is a
/// sheet to write, the bytes hold the sheets of the export as they are laid
/// out.
pub fn export_search_results(rows: &Vec<DataRow>, files: &Vec<FileRecord>, query_text: &str) -> (r:
    Result<Vec<u8>, ExportError>)
    ensures
        match export_outline(data_row_models(rows@), file_models(files@), query_text@) {
            Err(e) => r == Err::<Vec<u8>, ExportError>(e),
            Ok(plans) => if all_fit(plans) {
                &&& r matches Err(e) ==> e is Workbook
                &&& r is Ok ==> writer_takes_all(plans)
                &&& r matches Ok(bytes) ==> plans.len() > 0 ==> bytes_hold(bytes@, sheets_of(plans))
            } else {
                r == Err::<Vec<u8>, ExportError>(ExportError::TooLarge)
            },
        },
{
    match build_export_plan(rows, files, query_text) {
        Err(e) => Err(e),
        Ok(plans) => render_workbook(&plans),
    }
}

} // verus!
