//! The sheet model and the trusted boundary to the spreadsheet writer.
//!
//! The worksheet is modelled write-only: `sheet_cells`, `sheet_validations`
//! and `sheet_widths` name what has been placed on it, and every wrapper
//! states how one call changes those names. Nothing reads a cell back.

use vstd::prelude::*;
use crate::types::Cell;
use rust_xlsxwriter::{DataValidation, ExcelDateTime, Format, Worksheet, XlsxError};

verus! {

/// Rows at or beyond this index are outside the sheet.
pub const SHEET_ROW_LIMIT: u32 = 1048576;

/// Columns at or beyond this index are outside the sheet.
pub const SHEET_COL_LIMIT: u16 = 16384;

/// A text cell holds at most this many characters.
pub const CELL_TEXT_LIMIT: usize = 32767;

/// A dropdown list, comma-joined with quotes doubled, may hold at most this
/// many characters; longer lists are not attached at all.
pub const LIST_TEXT_LIMIT: usize = 255;

/// Relies on `rust_xlsxwriter::Worksheet`: the in-memory sheet all writes
/// target.
#[verifier::external_type_specification]
#[verifier::external_body]
pub struct ExWorksheet(Worksheet);

/// Relies on `rust_xlsxwriter::Format`: a cell display format.
#[verifier::external_type_specification]
#[verifier::external_body]
pub struct ExFormat(Format);

/// Relies on `rust_xlsxwriter::DataValidation`: a cell input restriction.
#[verifier::external_type_specification]
#[verifier::external_body]
pub struct ExDataValidation(DataValidation);

/// Relies on `rust_xlsxwriter::XlsxError`: the writer's error type.
#[verifier::external_type_specification]
#[verifier::external_body]
pub struct ExXlsxError(XlsxError);

/// The cells placed on the sheet so far, by (row, column).
pub uninterp spec fn sheet_cells(ws: Worksheet) -> Map<(int, int), Cell>;

/// The list restrictions bound to the sheet so far, by
/// (first row, first column, last row, last column) range.
pub uninterp spec fn sheet_validations(ws: Worksheet) -> Map<(int, int, int, int), Seq<Seq<char>>>;

/// The column widths set on the sheet so far, in character units as given
/// (the sheet stores them capped at its own maximum).
pub uninterp spec fn sheet_widths(ws: Worksheet) -> Map<int, int>;

/// The number-format code a display format carries.
pub uninterp spec fn format_code(f: Format) -> Seq<char>;

/// Whether a validation is a plain list-of-strings restriction, as the
/// list constructor below builds it, bound to the range it is attached to.
pub uninterp spec fn is_list_validation(v: DataValidation) -> bool;

/// The string values a list validation restricts input to.
pub uninterp spec fn validation_list(v: DataValidation) -> Seq<Seq<char>>;

/// Whether the text parses as a floating-point number, as `str::parse` to the
/// sheet's numeric cell type decides it.
pub uninterp spec fn f64_parses(s: Seq<char>) -> bool;

/// Whether the text parses as a calendar date or time of day, as
/// `ExcelDateTime::parse_from_str` decides it.
pub uninterp spec fn xl_date_parses(s: Seq<char>) -> bool;

/// An error of the conversion run; every structural failure carries the
/// sheet writer's own error.
#[derive(Debug)]
pub enum ConvertError {
    Sheet(XlsxError),
}

/// The length contributed to a dropdown list by one value: its characters,
/// with each double quote doubled.
pub open spec fn esc_len(s: Seq<char>) -> nat {
    s.len() + s.filter(|c: char| c == '"').len()
}

/// The length of a dropdown list as the sheet serializes it: values joined
/// by commas, quotes doubled.
pub open spec fn joined_list_len(l: Seq<Seq<char>>) -> nat
    decreases l.len(),
{
    if l.len() == 0 {
        0
    } else if l.len() == 1 {
        esc_len(l[0])
    } else {
        joined_list_len(l.drop_last()) + 1 + esc_len(l.last())
    }
}

/// Relies on `Worksheet::write_string`: an empty text writes nothing and
/// always succeeds; otherwise the cell is set exactly when row, column and
/// text length are within the sheet's limits.
#[verifier::external_body]
pub fn write_text_cell(ws: &mut Worksheet, row: u32, col: u16, text: &str) -> (r: Result<
    (),
    XlsxError,
>)
    ensures
        r is Ok <==> (text@.len() == 0 || (row < SHEET_ROW_LIMIT && col < SHEET_COL_LIMIT
            && text@.len() <= CELL_TEXT_LIMIT)),
        text@.len() == 0 ==> sheet_cells(*final(ws)) == sheet_cells(*old(ws)),
        r is Ok && text@.len() > 0 ==> sheet_cells(*final(ws)) == sheet_cells(*old(ws)).insert(
            (row as int, col as int),
            Cell::Text(text@),
        ),
        r is Err ==> sheet_cells(*final(ws)) == sheet_cells(*old(ws)),
        sheet_validations(*final(ws)) == sheet_validations(*old(ws)),
        sheet_widths(*final(ws)) == sheet_widths(*old(ws)),
{
    match ws.write_string(row, col, text) {
        Ok(_) => Ok(()),
        Err(e) => Err(e),
    }
}

/// Relies on `str::parse` to the sheet's numeric cell type and on
/// `Worksheet::write_number`: the field is written as the number it denotes
/// exactly when it parses and the position is within the sheet's limits; a
/// field that does not parse writes nothing and reports `false`.
#[verifier::external_body]
pub fn write_number_cell(ws: &mut Worksheet, row: u32, col: u16, text: &str) -> (r: Result<
    bool,
    XlsxError,
>)
    ensures
        !f64_parses(text@) ==> r is Ok && r->Ok_0 == false && sheet_cells(*final(ws))
            == sheet_cells(*old(ws)),
        f64_parses(text@) && row < SHEET_ROW_LIMIT && col < SHEET_COL_LIMIT ==> r is Ok && r->Ok_0
            == true && sheet_cells(*final(ws)) == sheet_cells(*old(ws)).insert(
            (row as int, col as int),
            Cell::NumberOf(text@),
        ),
        f64_parses(text@) && !(row < SHEET_ROW_LIMIT && col < SHEET_COL_LIMIT) ==> r is Err
            && sheet_cells(*final(ws)) == sheet_cells(*old(ws)),
        sheet_validations(*final(ws)) == sheet_validations(*old(ws)),
        sheet_widths(*final(ws)) == sheet_widths(*old(ws)),
{
    match text.parse() {
        Ok(v) => {
            // seed the parse's target type from the writer's serial-date type
            let mut n = ExcelDateTime::default().to_excel();
            n = v;
            match ws.write_number(row, col, n) {
                Ok(_) => Ok(true),
                Err(e) => Err(e),
            }
        },
        Err(_) => Ok(false),
    }
}

/// Relies on `Worksheet::write_number`: writes a small category numeral at
/// the position, which succeeds exactly when the position is within the
/// sheet's limits.
#[verifier::external_body]
pub fn write_u8_cell(ws: &mut Worksheet, row: u32, col: u16, v: u8) -> (r: Result<(), XlsxError>)
    ensures
        r is Ok <==> (row < SHEET_ROW_LIMIT && col < SHEET_COL_LIMIT),
        r is Ok ==> sheet_cells(*final(ws)) == sheet_cells(*old(ws)).insert(
            (row as int, col as int),
            Cell::SmallNumber(v),
        ),
        r is Err ==> sheet_cells(*final(ws)) == sheet_cells(*old(ws)),
        sheet_validations(*final(ws)) == sheet_validations(*old(ws)),
        sheet_widths(*final(ws)) == sheet_widths(*old(ws)),
{
    match ws.write_number(row, col, v) {
        Ok(_) => Ok(()),
        Err(e) => Err(e),
    }
}

/// Relies on `ExcelDateTime::parse_from_str` and
/// `Worksheet::write_datetime_with_format`: the field is written as the
/// date it denotes, displayed with the given format, exactly when it parses
/// and the position is within the sheet's limits; a field that does not
/// parse writes nothing and reports `false`.
#[verifier::external_body]
pub fn write_date_cell(ws: &mut Worksheet, row: u32, col: u16, text: &str, fmt: &Format) -> (r:
    Result<bool, XlsxError>)
    ensures
        !xl_date_parses(text@) ==> r is Ok && r->Ok_0 == false && sheet_cells(*final(ws))
            == sheet_cells(*old(ws)),
        xl_date_parses(text@) && row < SHEET_ROW_LIMIT && col < SHEET_COL_LIMIT ==> r is Ok
            && r->Ok_0 == true && sheet_cells(*final(ws)) == sheet_cells(*old(ws)).insert(
            (row as int, col as int),
            Cell::DateOf(text@, format_code(*fmt)),
        ),
        xl_date_parses(text@) && !(row < SHEET_ROW_LIMIT && col < SHEET_COL_LIMIT) ==> r is Err
            && sheet_cells(*final(ws)) == sheet_cells(*old(ws)),
        sheet_validations(*final(ws)) == sheet_validations(*old(ws)),
        sheet_widths(*final(ws)) == sheet_widths(*old(ws)),
{
    match ExcelDateTime::parse_from_str(text) {
        Ok(dt) => match ws.write_datetime_with_format(row, col, &dt, fmt) {
            Ok(_) => Ok(true),
            Err(e) => Err(e),
        },
        Err(_) => Ok(false),
    }
}

/// Relies on `Format::new` and `Format::set_num_format`: a fresh display
/// format whose number-format code is the given text.
#[verifier::external_body]
pub fn make_num_format(code: &str) -> (f: Format)
    ensures
        format_code(f) == code@,
{
    Format::new().set_num_format(code)
}

/// Relies on `DataValidation::new` and
/// `DataValidation::allow_list_strings`: builds a restriction to exactly the
/// given string values; it fails exactly when the serialized list exceeds
/// the sheet's limit.
#[verifier::external_body]
pub fn make_list_validation(items: &Vec<String>) -> (r: Result<DataValidation, XlsxError>)
    ensures
        r is Ok <==> joined_list_len(items@.map_values(|s: String| s@)) <= LIST_TEXT_LIMIT,
        r is Ok ==> is_list_validation(r->Ok_0) && validation_list(r->Ok_0) == items@.map_values(
            |s: String| s@,
        ),
{
    DataValidation::new().allow_list_strings(items)
}

/// Relies on `Worksheet::add_data_validation`: binds a list restriction to
/// the single-column range, which succeeds exactly when the range is within
/// the sheet's limits and not reversed.
#[verifier::external_body]
pub fn add_list_validation(
    ws: &mut Worksheet,
    first_row: u32,
    last_row: u32,
    col: u16,
    v: &DataValidation,
) -> (r: Result<(), XlsxError>)
    requires
        is_list_validation(*v),
    ensures
        r is Ok <==> (first_row <= last_row && last_row < SHEET_ROW_LIMIT && col
            < SHEET_COL_LIMIT),
        r is Ok ==> sheet_validations(*final(ws)) == sheet_validations(*old(ws)).insert(
            (first_row as int, col as int, last_row as int, col as int),
            validation_list(*v),
        ),
        r is Err ==> sheet_validations(*final(ws)) == sheet_validations(*old(ws)),
        sheet_cells(*final(ws)) == sheet_cells(*old(ws)),
        sheet_widths(*final(ws)) == sheet_widths(*old(ws)),
{
    match ws.add_data_validation(first_row, col, last_row, col, v) {
        Ok(_) => Ok(()),
        Err(e) => Err(e),
    }
}

/// Relies on `Worksheet::set_column_width`: records the column's display
/// width in character units, which succeeds exactly when the column is
/// within the sheet's limits.
#[verifier::external_body]
pub fn set_col_width(ws: &mut Worksheet, col: u16, width: u32) -> (r: Result<(), XlsxError>)
    requires
        width >= 1,
    ensures
        r is Ok <==> col < SHEET_COL_LIMIT,
        r is Ok ==> sheet_widths(*final(ws)) == sheet_widths(*old(ws)).insert(
            col as int,
            width as int,
        ),
        r is Err ==> sheet_widths(*final(ws)) == sheet_widths(*old(ws)),
        sheet_cells(*final(ws)) == sheet_cells(*old(ws)),
        sheet_validations(*final(ws)) == sheet_validations(*old(ws)),
{
    match ws.set_column_width(col, width) {
        Ok(_) => Ok(()),
        Err(e) => Err(e),
    }
}

} // verus!
