//! The two kinds of record that the store keeps: one record per source file,
//! and one record per row read from it.

use vstd::prelude::*;
use crate::row::{build_search_text, clean_row_data, sanitized, search_text_of, Row, RowModel};
use crate::text::texts;

verus! {

/// What is stored of one source file.
#[derive(Debug, Clone, PartialEq, Eq)]
pub struct FileRecord {
    pub id: i32,
    /// The path of the file; no two records have the same.
    pub file_path: String,
    /// The name that the file is shown under.
    pub file_name: String,
    /// The size of the file in bytes.
    pub file_size: i64,
    /// The fingerprint of the content that was imported last.
    pub file_hash: String,
    /// The column names seen when the file was read last, in first-seen order.
    pub field_order: Option<Vec<String>>,
    pub created_at: i64,
    pub updated_at: i64,
}

/// The model of a file record.
pub struct FileModel {
    pub id: int,
    pub file_path: Seq<char>,
    pub file_name: Seq<char>,
    pub file_size: int,
    pub file_hash: Seq<char>,
    pub field_order: Option<Seq<Seq<char>>>,
    pub created_at: int,
    pub updated_at: int,
}

impl View for FileRecord {
    type V = FileModel;

    open spec fn view(&self) -> FileModel {
        FileModel {
            id: self.id as int,
            file_path: self.file_path@,
            file_name: self.file_name@,
            file_size: self.file_size as int,
            file_hash: self.file_hash@,
            field_order: match self.field_order {
                Some(names) => Some(texts(names@)),
                None => None,
            },
            created_at: self.created_at as int,
            updated_at: self.updated_at as int,
        }
    }
}

/// The model of a row record.
pub struct DataRowModel {
    /// The identifier that the store gave the row; none before it is stored.
    pub id: Option<int>,
    /// The file record that owns the row.
    pub file_id: int,
    pub sheet_name: Seq<char>,
    /// The place of the row among the records of its sheet, from 1.
    pub row_number: int,
    pub data: RowModel,
    pub search_text: Seq<char>,
    pub import_time: int,
}

impl DataRowModel {
    /// The search text is the one derived from the data.
    pub open spec fn wf(self) -> bool {
        self.search_text == search_text_of(self.data)
    }
}

/// The row record for the raw row `data`: the data is cleaned, and the
/// search text is derived from the cleaned data.
pub open spec fn data_row_of(
    id: Option<int>,
    file_id: int,
    sheet_name: Seq<char>,
    row_number: int,
    data: RowModel,
    import_time: int,
) -> DataRowModel {
    DataRowModel {
        id,
        file_id,
        sheet_name,
        row_number,
        data: sanitized(data),
        search_text: search_text_of(sanitized(data)),
        import_time,
    }
}

/// One stored row.  Its search text cannot be set: it is derived from the
/// data when the record is made.
#[derive(Debug, PartialEq, Eq)]
pub struct DataRow {
    id: Option<i32>,
    file_id: i32,
    sheet_name: String,
    row_number: i32,
    data: Row,
    search_text: String,
    import_time: i64,
}

impl View for DataRow {
    type V = DataRowModel;

    closed spec fn view(&self) -> DataRowModel {
        DataRowModel {
            id: match self.id {
                Some(i) => Some(i as int),
                None => None,
            },
            file_id: self.file_id as int,
            sheet_name: self.sheet_name@,
            row_number: self.row_number as int,
            data: self.data@,
            search_text: self.search_text@,
            import_time: self.import_time as int,
        }
    }
}

impl DataRow {
    #[verifier::type_invariant]
    pub closed spec fn well_formed(&self) -> bool {
        self@.wf()
    }

    /// Makes the record of the raw row `data`.
    pub fn new(
        id: Option<i32>,
        file_id: i32,
        sheet_name: String,
        row_number: i32,
        data: Row,
        import_time: i64,
    ) -> (r: DataRow)
        ensures
            r@ == data_row_of(
                match id {
                    Some(i) => Some(i as int),
                    None => None,
                },
                file_id as int,
                sheet_name@,
                row_number as int,
                data@,
                import_time as int,
            ),
            r@.wf(),
    {
        let mut data = data;
        clean_row_data(&mut data);
        let search_text: String = build_search_text(&data);
        DataRow { id, file_id, sheet_name, row_number, data, search_text, import_time }
    }

    /// The identifier that the store gave the row.
    pub fn id(&self) -> (id: Option<i32>)
        ensures
            self@.id == match id {
                Some(i) => Some(i as int),
                None => None,
            },
    {
        self.id
    }

    /// The file record that owns the row.
    pub fn file_id(&self) -> (id: i32)
        ensures
            id == self@.file_id,
    {
        self.file_id
    }

    /// The sheet that the row was read from.
    pub fn sheet_name(&self) -> (name: &String)
        ensures
            name@ == self@.sheet_name,
    {
        &self.sheet_name
    }

    /// The place of the row among the records of its sheet, from 1.
    pub fn row_number(&self) -> (n: i32)
        ensures
            n == self@.row_number,
    {
        self.row_number
    }

    /// The cleaned data of the row.
    pub fn data(&self) -> (data: &Row)
        ensures
            data@ == self@.data,
    {
        &self.data
    }

    /// The search text; it is the one derived from the data.
    pub fn search_text(&self) -> (text: &String)
        ensures
            text@ == self@.search_text,
            self@.wf(),
    {
        proof {
            use_type_invariant(self);
        }
        &self.search_text
    }

    /// The time of the import.
    pub fn import_time(&self) -> (t: i64)
        ensures
            t == self@.import_time,
    {
        self.import_time
    }
}

impl Clone for DataRow {
    fn clone(&self) -> (r: Self)
        ensures
            r@ == self@,
    {
        proof {
            use_type_invariant(self);
        }
        DataRow {
            id: self.id,
            file_id: self.file_id,
            sheet_name: self.sheet_name.clone(),
            row_number: self.row_number,
            data: self.data.clone(),
            search_text: self.search_text.clone(),
            import_time: self.import_time,
        }
    }
}

/// The models of a list of row records.
pub open spec fn data_row_models(rows: Seq<DataRow>) -> Seq<DataRowModel> {
    rows.map_values(|r: DataRow| r@)
}

/// The models of a list of file records.
pub open spec fn file_models(files: Seq<FileRecord>) -> Seq<FileModel> {
    files.map_values(|f: FileRecord| f@)
}

/// The row records of the raw rows of one sheet, not yet stored: in order,
/// numbered from 1.
pub open spec fn prepared_rows(
    file_id: int,
    sheet_name: Seq<char>,
    rows: Seq<RowModel>,
    import_time: int,
) -> Seq<DataRowModel> {
    Seq::new(
        rows.len(),
        |i: int| data_row_of(None, file_id, sheet_name, i + 1, rows[i], import_time),
    )
}

/// Makes the row records of the raw rows of one sheet.  `None` where the
/// sheet has more rows than a row number can count.
pub fn prepare_rows(file_id: i32, sheet_name: &str, rows: &Vec<Row>, import_time: i64) -> (r:
    Option<Vec<DataRow>>)
    ensures
        r is Some <==> rows@.len() <= i32::MAX,
        r matches Some(prepared) ==> data_row_models(prepared@) == prepared_rows(
            file_id as int,
            sheet_name@,
            crate::reader::row_models(rows@),
            import_time as int,
        ),
{
    if rows.len() > i32::MAX as usize {
        return None;
    }
    let mut prepared: Vec<DataRow> = Vec::new();
    let mut i: usize = 0;
    while i < rows.len()
        invariant
            i <= rows.len() <= i32::MAX,
            prepared@.len() == i,
            forall|k: int|
                0 <= k < i ==> (#[trigger] prepared@[k])@ == data_row_of(
                    None,
                    file_id as int,
                    sheet_name@,
                    k + 1,
                    rows@[k]@,
                    import_time as int,
                ),
        decreases rows.len() - i,
    {
        let number: i32 = (i + 1) as i32;
        let record: DataRow = DataRow::new(
            None,
            file_id,
            sheet_name.to_owned(),
            number,
            rows[i].clone(),
            import_time,
        );
        prepared.push(record);
        i = i + 1;
    }
    assert(data_row_models(prepared@) =~= prepared_rows(
        file_id as int,
        sheet_name@,
        crate::reader::row_models(rows@),
        import_time as int,
    ));
    Some(prepared)
}

} // verus!
