//! The row table: one header row, then one row of 62 decimal fields per
//! splat.

use crate::error::ConversionError;
use crate::scene::{
    lemma_texts_push, rest_name_text, scalar_name, table_names, text_views, texts, Exporter,
    GaussianSplat, Importer, Scene, SplatText, SplatView,
};
use vstd::prelude::*;
use vstd::string::*;

verus! {

pub struct CsvImporter;

pub struct CsvExporter;

#[verifier::external_type_specification]
#[verifier::external_body]
pub struct ExCsvError(csv::Error);

/// The texts of the rows of a table.
pub open spec fn table_texts(rows: Seq<Vec<String>>) -> Seq<Seq<Seq<char>>> {
    rows.map_values(|row: Vec<String>| texts(row@))
}

/// The bytes that the `csv` writer makes of the rows of a table, or `None`
/// where it refuses them.
pub uninterp spec fn written_table(rows: Seq<Seq<Seq<char>>>) -> Option<Seq<u8>>;

/// What the `csv` reader makes of the bytes of a file: the rows after the
/// header row, up to the first that it cannot read, and whether there is
/// such a row.
pub uninterp spec fn parsed_table(bytes: Seq<u8>) -> (Seq<Seq<Seq<char>>>, bool);

/// Writes the rows with a `csv::Writer` from `WriterBuilder::new()` into
/// memory: `write_record` for each row, then `into_inner`, which flushes.
/// The contract names what comes back, as a function of the rows.
#[verifier::external_body]
fn write_rows(rows: &Vec<Vec<String>>) -> (r: Result<Vec<u8>, csv::Error>)
    ensures
        match r {
            Ok(bytes) => written_table(table_texts(rows@)) == Some(bytes@),
            Err(_) => written_table(table_texts(rows@)) is None,
        },
{
    let mut writer = csv::WriterBuilder::new().from_writer(Vec::new());
    for row in rows {
        writer.write_record(row)?;
    }
    writer.into_inner().map_err(|e| csv::Error::from(e.into_error()))
}

/// Reads the rows with a `csv::Reader` from `ReaderBuilder::new()` with
/// `has_headers(true)`: the items of `records()`, up to the first that is an
/// error. The contract names what comes back, as a function of the bytes.
#[verifier::external_body]
fn read_rows(bytes: &[u8]) -> (r: (Vec<Vec<String>>, Option<csv::Error>))
    ensures
        parsed_table(bytes@) == (table_texts(r.0@), r.1 is Some),
{
    let mut reader = csv::ReaderBuilder::new().has_headers(true).from_reader(bytes);
    let mut rows: Vec<Vec<String>> = Vec::new();
    for record in reader.records() {
        match record {
            Ok(record) => rows.push(record.iter().map(String::from).collect()),
            Err(e) => return (rows, Some(e)),
        }
    }
    (rows, None)
}

/// The text that `csv::Error` shows for itself, through `to_string`.
/// Nothing is claimed of it.
#[verifier::external_body]
fn csv_error_text(e: &csv::Error) -> (text: String) {
    e.to_string()
}

/// The 62 column names.
fn header_row() -> (names: Vec<String>)
    ensures
        texts(names@) == table_names(),
{
    let mut names: Vec<String> = Vec::new();
    let mut i: usize = 0;
    while i < 17
        invariant
            i <= 17,
            texts(names@) == table_names().take(i as int),
        decreases 17 - i,
    {
        let name = String::from_str(scalar_name(i));
        proof {
            lemma_texts_push(names@, name);
        }
        names.push(name);
        assert(texts(names@) =~= table_names().take(i + 1));
        i += 1;
    }
    i = 0;
    while i < 45
        invariant
            i <= 45,
            texts(names@) == table_names().take(17 + i),
        decreases 45 - i,
    {
        let name = rest_name_text(i);
        proof {
            lemma_texts_push(names@, name);
        }
        names.push(name);
        assert(texts(names@) =~= table_names().take(17 + i + 1));
        i += 1;
    }
    assert(table_names().take(62) =~= table_names());
    names
}

/// Appends copies of `items` to `row`.
fn push_copies(row: &mut Vec<String>, items: &[String])
    ensures
        texts(final(row)@) == texts(old(row)@) + texts(items@),
{
    let mut i: usize = 0;
    while i < items.len()
        invariant
            i <= items.len(),
            texts(row@) == texts(old(row)@) + texts(items@).take(i as int),
        decreases items.len() - i,
    {
        let item = items[i].clone();
        proof {
            lemma_texts_push(row@, item);
        }
        row.push(item);
        assert(texts(row@) =~= texts(old(row)@) + texts(items@).take(i + 1));
        i += 1;
    }
    assert(texts(items@).take(items.len() as int) =~= texts(items@));
}

/// The row of one splat: its 62 scalars in the order of the columns, a
/// missing higher-order coefficient as `0`.
fn splat_row(splat: &SplatText) -> (row: Vec<String>)
    ensures
        texts(row@) == splat@.table_order("0"@),
{
    let mut row: Vec<String> = Vec::new();
    push_copies(&mut row, &splat.position);
    push_copies(&mut row, &splat.normal);
    push_copies(&mut row, &splat.spherical_harmonics_dc);
    let opacity = splat.opacity.clone();
    proof {
        lemma_texts_push(row@, opacity);
    }
    row.push(opacity);
    push_copies(&mut row, &splat.scale);
    push_copies(&mut row, &splat.rotation);
    let ghost front = texts(row@);
    assert(front =~= splat@.position + splat@.normal + splat@.spherical_harmonics_dc + seq![
        splat@.opacity,
    ] + splat@.scale + splat@.rotation);
    let n = splat.spherical_harmonics_rest.len();
    let ghost padded = splat@.rest_padded("0"@);
    let mut i: usize = 0;
    while i < 45
        invariant
            i <= 45,
            n == splat.spherical_harmonics_rest@.len(),
            padded == splat@.rest_padded("0"@),
            texts(row@) == front + padded.take(i as int),
        decreases 45 - i,
    {
        let item = if i < n {
            splat.spherical_harmonics_rest[i].clone()
        } else {
            String::from_str("0")
        };
        proof {
            lemma_texts_push(row@, item);
        }
        row.push(item);
        assert(texts(row@) =~= front + padded.take(i + 1));
        i += 1;
    }
    assert(padded.take(45) =~= padded);
    row
}

/// The rows of the table of a scene: the column names, then one row per
/// splat.
pub open spec fn table_rows(scene: Seq<SplatView<Seq<char>>>) -> Seq<Seq<Seq<char>>> {
    seq![table_names()] + scene.map_values(|splat: SplatView<Seq<char>>| splat.table_order("0"@))
}

impl Exporter for CsvExporter {
    type Source = Vec<SplatText>;

    /// Writes the table of a scene. Where the writer refuses the rows, the
    /// result is a write error that names the format.
    fn export(scene: &Vec<SplatText>) -> (r: Result<Vec<u8>, ConversionError>)
        ensures
            match written_table(table_rows(text_views(scene@))) {
                Some(bytes) => r is Ok && r->Ok_0@ == bytes,
                None => r is Err && r->Err_0 is WriteError && r->Err_0->WriteError_format@
                    == "CSV"@,
            },
    {
        let mut rows: Vec<Vec<String>> = Vec::new();
        rows.push(header_row());
        assert(table_texts(rows@) =~= seq![table_names()]);
        let ghost views = text_views(scene@);
        let mut i: usize = 0;
        while i < scene.len()
            invariant
                i <= scene.len(),
                views == text_views(scene@),
                table_texts(rows@) == table_rows(views.take(i as int)),
            decreases scene.len() - i,
        {
            let row = splat_row(&scene[i]);
            let ghost before = table_texts(rows@);
            rows.push(row);
            assert(table_texts(rows@) =~= before.push(texts(row@)));
            assert(table_texts(rows@) =~= table_rows(views.take(i + 1)));
            i += 1;
        }
        assert(views.take(scene.len() as int) =~= views);
        match write_rows(&rows) {
            Ok(bytes) => Ok(bytes),
            Err(e) => {
                let message = csv_error_text(&e);
                Err(ConversionError::WriteError { format: String::from_str("CSV"), message })
            },
        }
    }
}

/// The rows of a file as the reader hands them out, the header row left
/// out.
#[derive(Debug, Clone)]
pub struct CsvTable {
    /// The rows up to the first that the reader could not read.
    pub rows: Vec<Vec<String>>,
    /// What the reader says of the row that it could not read, if there is
    /// one.
    pub failure: Option<String>,
}

/// One field of a row.
#[derive(Debug, Clone)]
pub struct CsvField {
    /// The field as it stands in the file.
    pub text: String,
    /// The bit pattern of the number that the text denotes; `None` where it
    /// denotes none.
    pub value: Option<u32>,
}

/// The mathematical value of a field.
pub struct FieldView {
    pub text: Seq<char>,
    pub value: Option<u32>,
}

impl View for CsvField {
    type V = FieldView;

    open spec fn view(&self) -> FieldView {
        FieldView { text: self.text@, value: self.value }
    }
}

/// The rows of a file with every field parsed.
#[derive(Debug, Clone)]
pub struct ParsedTable {
    /// The rows up to the first that the reader could not read.
    pub rows: Vec<Vec<CsvField>>,
    /// What the reader says of the row that it could not read, if there is
    /// one.
    pub failure: Option<String>,
}

/// The mathematical value of a list of rows.
pub open spec fn rows_view(rows: Seq<Vec<CsvField>>) -> Seq<Seq<FieldView>> {
    rows.map_values(|row: Vec<CsvField>| row@.map_values(|field: CsvField| field@))
}

/// The mathematical value of what the reader says of a failure.
pub open spec fn failure_view(failure: Option<String>) -> Option<Seq<char>> {
    match failure {
        Some(text) => Some(text@),
        None => None,
    }
}

/// The column that is checked in place `k`: the higher-order coefficients
/// come first, then the other scalars.
pub open spec fn checked_column(k: int) -> int {
    if k < 45 {
        17 + k
    } else {
        k - 45
    }
}

/// The first column of a row of 62 or more fields, from place `k` of the
/// checking order on, whose field denotes no number.
pub open spec fn first_unparsed(row: Seq<FieldView>, k: int) -> Option<int>
    decreases 62 - k,
{
    if k >= 62 {
        None
    } else if row[checked_column(k)].value is None {
        Some(checked_column(k))
    } else {
        first_unparsed(row, k + 1)
    }
}

/// What is said of a field that denotes no number.
pub open spec fn unparsed_message(text: Seq<char>, column: Seq<char>) -> Seq<char> {
    "Could not parse field '"@ + text + "' as a float for column "@ + column
}

/// What is wrong with a row, if anything: it has fewer than 62 fields, or
/// one of its first 62 fields denotes no number.
pub open spec fn row_error(row: Seq<FieldView>) -> Option<Seq<char>> {
    if row.len() < 62 {
        Some("Row has insufficient columns."@)
    } else {
        match first_unparsed(row, 0) {
            Some(column) => Some(unparsed_message(row[column].text, table_names()[column])),
            None => None,
        }
    }
}

/// The splat of a row with nothing wrong: its first 62 fields in the order
/// of the columns.
pub open spec fn row_splat(row: Seq<FieldView>) -> SplatView<u32> {
    let values = Seq::new(62, |column: int| row[column].value->Some_0);
    SplatView {
        position: values.subrange(0, 3),
        normal: values.subrange(3, 6),
        spherical_harmonics_dc: values.subrange(6, 9),
        spherical_harmonics_rest: values.subrange(17, 62),
        opacity: values[9],
        scale: values.subrange(10, 13),
        rotation: values.subrange(13, 17),
    }
}

/// Whether nothing is wrong with any row.
pub open spec fn all_rows_good(rows: Seq<Seq<FieldView>>) -> bool {
    forall|i: int| 0 <= i < rows.len() ==> row_error(#[trigger] rows[i]) is None
}

/// Whether row `i` is the first with something wrong.
pub open spec fn is_first_bad_row(rows: Seq<Seq<FieldView>>, i: int) -> bool {
    &&& 0 <= i < rows.len()
    &&& row_error(rows[i]) is Some
    &&& all_rows_good(rows.take(i))
}

/// Whether `e` is a parse error of this format with the given message.
pub open spec fn is_parse_error(e: ConversionError, message: Seq<char>) -> bool {
    &&& e is ParseError
    &&& e->ParseError_format@ == "CSV"@
    &&& e->ParseError_message@ == message
}

impl CsvImporter {
    /// What is wrong with a row, if anything.
    fn check_row(row: &Vec<CsvField>) -> (message: Option<String>)
        ensures
            failure_view(message) == row_error(row@.map_values(|field: CsvField| field@)),
    {
        let ghost view = row@.map_values(|field: CsvField| field@);
        if row.len() < 62 {
            return Some(String::from_str("Row has insufficient columns."));
        }
        let mut k: usize = 0;
        while k < 62
            invariant
                k <= 62,
                row@.len() >= 62,
                view == row@.map_values(|field: CsvField| field@),
                first_unparsed(view, 0) == first_unparsed(view, k as int),
            decreases 62 - k,
        {
            let column: usize = if k < 45 {
                17 + k
            } else {
                k - 45
            };
            assert(view[column as int] == row@[column as int]@);
            if row[column].value.is_none() {
                let name = if column < 17 {
                    String::from_str(scalar_name(column))
                } else {
                    rest_name_text(column - 17)
                };
                assert(name@ == table_names()[column as int]);
                let mut message = String::from_str("Could not parse field '");
                message.append(row[column].text.as_str());
                message.append("' as a float for column ");
                message.append(name.as_str());
                return Some(message);
            }
            k += 1;
        }
        None
    }

    /// The splat of a row with nothing wrong.
    fn splat_of_row(row: &Vec<CsvField>) -> (splat: GaussianSplat)
        requires
            row_error(row@.map_values(|field: CsvField| field@)) is None,
        ensures
            splat@ == row_splat(row@.map_values(|field: CsvField| field@)),
            splat@.well_formed(),
    {
        let ghost view = row@.map_values(|field: CsvField| field@);
        let ghost wanted = Seq::new(62, |column: int| view[column].value->Some_0);
        let mut values: Vec<u32> = Vec::new();
        let mut column: usize = 0;
        while column < 62
            invariant
                column <= 62,
                row@.len() >= 62,
                view == row@.map_values(|field: CsvField| field@),
                wanted == Seq::new(62, |column: int| view[column].value->Some_0),
                row_error(view) is None,
                values@ == wanted.take(column as int),
            decreases 62 - column,
        {
            assert(view[column as int] == row@[column as int]@);
            let value: u32 = match row[column].value {
                Some(bits) => bits,
                None => 0,
            };
            proof {
                lemma_parsed_everywhere(view, column as int);
            }
            values.push(value);
            assert(values@ =~= wanted.take(column + 1));
            column += 1;
        }
        assert(wanted.take(62) =~= wanted);
        let mut rest: Vec<u32> = Vec::new();
        let mut j: usize = 17;
        while j < 62
            invariant
                17 <= j <= 62,
                values@.len() == 62,
                rest@ == values@.subrange(17, j as int),
            decreases 62 - j,
        {
            rest.push(values[j]);
            assert(rest@ =~= values@.subrange(17, j + 1));
            j += 1;
        }
        let splat = GaussianSplat {
            position: [values[0], values[1], values[2]],
            normal: [values[3], values[4], values[5]],
            spherical_harmonics_dc: [values[6], values[7], values[8]],
            spherical_harmonics_rest: rest,
            opacity: values[9],
            scale: [values[10], values[11], values[12]],
            rotation: [values[13], values[14], values[15], values[16]],
        };
        proof {
            let v = splat@;
            let w = row_splat(view);
            assert(v.position =~= w.position);
            assert(v.normal =~= w.normal);
            assert(v.spherical_harmonics_dc =~= w.spherical_harmonics_dc);
            assert(v.scale =~= w.scale);
            assert(v.rotation =~= w.rotation);
        }
        splat
    }

    /// Reads the rows of a file: see [`parsed_table`].
    pub fn read(bytes: &[u8]) -> (table: CsvTable)
        ensures
            parsed_table(bytes@) == (table_texts(table.rows@), table.failure is Some),
    {
        let (rows, failure) = read_rows(bytes);
        let failure = match failure {
            Some(e) => Some(csv_error_text(&e)),
            None => None,
        };
        CsvTable { rows, failure }
    }
}

/// In a row with nothing wrong, each of the first 62 fields denotes a
/// number.
pub proof fn lemma_parsed_everywhere(row: Seq<FieldView>, column: int)
    requires
        row_error(row) is None,
        0 <= column < 62,
    ensures
        row[column].value is Some,
{
    let k = if column >= 17 {
        column - 17
    } else {
        column + 45
    };
    assert(checked_column(k) == column);
    lemma_unparsed_from(row, 0, k);
}

/// Where no field is found from place `from` on, the field in every later
/// place denotes a number.
proof fn lemma_unparsed_from(row: Seq<FieldView>, from: int, k: int)
    requires
        0 <= from <= k < 62,
        first_unparsed(row, from) is None,
    ensures
        row[checked_column(k)].value is Some,
    decreases k - from,
{
    if from < k {
        lemma_unparsed_from(row, from + 1, k);
    }
}

impl Importer for CsvImporter {
    type Source = ParsedTable;

    type Decoded = Scene;

    /// Decodes a table. The first row with something wrong is refused with
    /// its message; where every row is good, what the reader said of a row
    /// that it could not read is the message; else the scene has one splat
    /// per row, in file order.
    fn import(table: &ParsedTable) -> (r: Result<Scene, ConversionError>)
        ensures
            all_rows_good(rows_view(table.rows@)) && table.failure is None ==> r is Ok
                && r->Ok_0@ == rows_view(table.rows@).map_values(
                |row: Seq<FieldView>| row_splat(row),
            ),
            all_rows_good(rows_view(table.rows@)) && table.failure is Some ==> r is Err
                && is_parse_error(r->Err_0, table.failure->Some_0@),
            forall|i: int| #[trigger]
                is_first_bad_row(rows_view(table.rows@), i) ==> r is Err && is_parse_error(
                    r->Err_0,
                    row_error(rows_view(table.rows@)[i])->Some_0,
                ),
    {
        let ghost rows = rows_view(table.rows@);
        let ghost wanted = rows.map_values(|row: Seq<FieldView>| row_splat(row));
        let mut splats: Vec<GaussianSplat> = Vec::new();
        let mut i: usize = 0;
        while i < table.rows.len()
            invariant
                i <= table.rows.len(),
                rows == rows_view(table.rows@),
                wanted == rows.map_values(|row: Seq<FieldView>| row_splat(row)),
                all_rows_good(rows.take(i as int)),
                splats@.map_values(|s: GaussianSplat| s@) == wanted.take(i as int),
            decreases table.rows.len() - i,
        {
            let row = &table.rows[i];
            assert(rows[i as int] == row@.map_values(|field: CsvField| field@));
            match Self::check_row(row) {
                Some(message) => {
                    proof {
                        assert(is_first_bad_row(rows, i as int));
                        assert forall|j: int| #[trigger] is_first_bad_row(rows, j) implies j
                            == i by {
                            if j < i {
                                assert(rows.take(i as int)[j] == rows[j]);
                            } else if j > i {
                                assert(rows.take(j)[i as int] == rows[i as int]);
                            }
                        }
                        assert(!all_rows_good(rows));
                    }
                    return Err(
                        ConversionError::ParseError { format: String::from_str("CSV"), message },
                    );
                },
                None => {},
            }
            let splat = Self::splat_of_row(row);
            let ghost before = splats@.map_values(|s: GaussianSplat| s@);
            splats.push(splat);
            proof {
                assert(splats@.map_values(|s: GaussianSplat| s@) =~= before.push(splat@));
                assert(before.push(splat@) =~= wanted.take(i + 1));
                assert forall|j: int| 0 <= j < i + 1 implies row_error(
                    #[trigger] rows.take(i + 1)[j],
                ) is None by {
                    if j < i {
                        assert(rows.take(i as int)[j] == rows[j]);
                    }
                }
            }
            i += 1;
        }
        proof {
            assert(rows.take(table.rows.len() as int) =~= rows);
            assert(wanted.take(table.rows.len() as int) =~= wanted);
            assert forall|j: int| #[trigger] is_first_bad_row(rows, j) implies false by {
                assert(row_error(rows[j]) is None);
            }
        }
        match &table.failure {
            Some(message) => Err(
                ConversionError::ParseError {
                    format: String::from_str("CSV"),
                    message: message.clone(),
                },
            ),
            None => Ok(Scene { splats }),
        }
    }
}

} // verus!
