//! The conversion pipeline: schema parsing, per-field transcoding with
//! graceful fallback, and dropdown-validation emission.

use vstd::prelude::*;
use vstd::string::*;
use rust_xlsxwriter::{Format, Worksheet};
use crate::types::{Cell, ColDefinition, ColType, col_type_of_tag};
use crate::text::{
    lemma_split_at_comma, lemma_split_no_comma, parse_u8_decimal, slashes_replaced, split_commas,
    trim_str, trimmed,
};
use crate::sheet::{
    f64_parses, format_code, sheet_cells, sheet_validations, sheet_widths, write_date_cell,
    write_number_cell, write_text_cell, write_u8_cell, xl_date_parses, ConvertError,
    CELL_TEXT_LIMIT, SHEET_COL_LIMIT, SHEET_ROW_LIMIT,
};
use crate::categories::{
    domain_contains, fits_list_limit, kbn_cell_value, normalized_domain, u8_strictly_sorted,
    CategoryAccumulator,
};
use crate::sheet::{
    add_list_validation, joined_list_len, make_list_validation, make_num_format, set_col_width,
    LIST_TEXT_LIMIT,
};
use crate::text::{dec_numeral, u8_to_decimal};

verus! {

/// The column kinds a whole schema tag list denotes, one per comma-separated
/// piece, each trimmed.
pub open spec fn column_types_of(s: Seq<char>) -> Seq<ColType> {
    split_commas(s).map_values(|p: Seq<char>| col_type_of_tag(trimmed(p)))
}

/// Parses a comma-separated list of type tags into column kinds; every
/// unrecognized tag falls back to `Str`.
pub fn parse_column_types(define_output: &str) -> (r: Vec<ColType>)
    ensures
        r@ == column_types_of(define_output@),
{
    let s = define_output;
    let len: usize = s.unicode_len();
    let mut out: Vec<ColType> = Vec::new();
    let ghost mut done: Seq<Seq<char>> = Seq::empty();
    let mut start: usize = 0;
    let mut i: usize = 0;
    proof {
        assert(s@.skip(0) =~= s@);
    }
    while i < len
        invariant
            start <= i <= len,
            len == s@.len(),
            forall|k: int| start <= k < i ==> s@[k] != ',',
            out@.len() == done.len(),
            forall|k: int| 0 <= k < done.len() ==> out@[k] == col_type_of_tag(
                trimmed(#[trigger] done[k]),
            ),
            split_commas(s@) =~= done + split_commas(s@.skip(start as int)),
        decreases len - i,
    {
        let c: char = s.get_char(i);
        if c == ',' {
            let piece: &str = s.substring_char(start, i);
            let t: ColType = ColType::from_str(trim_str(piece));
            proof {
                assert(s@.skip(start as int) =~= piece@ + seq![','] + s@.skip(i + 1));
                lemma_split_at_comma(piece@, s@.skip(i + 1));
            }
            out.push(t);
            proof {
                done = done.push(piece@);
            }
            start = i + 1;
        }
        i += 1;
    }
    let piece: &str = s.substring_char(start, len);
    let t: ColType = ColType::from_str(trim_str(piece));
    proof {
        assert(piece@ =~= s@.skip(start as int));
        lemma_split_no_comma(s@.skip(start as int));
    }
    out.push(t);
    proof {
        done = done.push(piece@);
        assert(split_commas(s@) =~= done);
        assert(out@ =~= column_types_of(s@)) by {
            assert forall|k: int| 0 <= k < done.len() implies column_types_of(s@)[k]
                == out@[k] by {
                assert(column_types_of(s@)[k] == col_type_of_tag(trimmed(split_commas(s@)[k])));
            }
        }
    }
    out
}

/// Plain column definitions for a tag-list schema: the given kinds, no
/// widths, no fixed domains.
pub fn defs_from_types(types: &Vec<ColType>) -> (r: Vec<ColDefinition>)
    ensures
        r@.len() == types@.len(),
        forall|c: int|
            0 <= c < types@.len() ==> (#[trigger] r@[c]).col_type == types@[c] && r@[c].width
                is None && r@[c].kbn_values is None,
{
    let mut out: Vec<ColDefinition> = Vec::new();
    let mut i: usize = 0;
    while i < types.len()
        invariant
            i <= types@.len(),
            out@.len() == i,
            forall|c: int|
                0 <= c < i ==> (#[trigger] out@[c]).col_type == types@[c] && out@[c].width is None
                    && out@[c].kbn_values is None,
        decreases types@.len() - i,
    {
        out.push(ColDefinition::of_type(types[i]));
        i += 1;
    }
    out
}

/// The display-format code for date cells.
pub open spec fn date_format_code() -> Seq<char> {
    "yyyy-mm-dd"@
}

/// A text cell, or nothing for the empty text, which the sheet does not
/// record.
pub open spec fn text_cell(field: Seq<char>) -> Option<Cell> {
    if field.len() == 0 {
        Option::None
    } else {
        Option::Some(Cell::Text(field))
    }
}

/// The cell a data-row field produces under its column's kind and domain:
/// numbers fall back to verbatim text, dates retry once with slashes
/// replaced and then fall back to verbatim text, fixed-domain category
/// fields coerce to a domain numeral or the zero sentinel, and discovery
/// category fields stay verbatim text.
pub open spec fn data_cell(ty: ColType, domain: Option<Seq<u8>>, field: Seq<char>) -> Option<
    Cell,
> {
    match ty {
        ColType::Str => text_cell(field),
        ColType::Int => if f64_parses(field) {
            Option::Some(Cell::NumberOf(field))
        } else {
            text_cell(field)
        },
        ColType::Date => if xl_date_parses(field) {
            Option::Some(Cell::DateOf(field, date_format_code()))
        } else if xl_date_parses(slashes_replaced(field)) {
            Option::Some(Cell::DateOf(slashes_replaced(field), date_format_code()))
        } else {
            text_cell(field)
        },
        ColType::KbnList => match domain {
            Option::Some(d) => Option::Some(Cell::SmallNumber(kbn_cell_value(field, d))),
            Option::None => text_cell(field),
        },
    }
}

/// The column kind governing field index `c`: definitions are
/// position-addressed and excess fields fall back to free text.
pub open spec fn spec_col_type(defs: Seq<ColDefinition>, c: int) -> ColType {
    if 0 <= c < defs.len() {
        defs[c].col_type
    } else {
        ColType::Str
    }
}

/// The fixed category domain governing field index `c`, if any.
pub open spec fn spec_col_domain(defs: Seq<ColDefinition>, c: int) -> Option<Seq<u8>> {
    if 0 <= c < defs.len() {
        match defs[c].kbn_values {
            Option::Some(d) => Option::Some(d@),
            Option::None => Option::None,
        }
    } else {
        Option::None
    }
}

/// The cell the whole run owes at (r, c): header-band rows verbatim as text,
/// data rows per the column policy, nothing outside the input's extent.
pub open spec fn expected_cell(
    defs: Seq<ColDefinition>,
    header_rows: int,
    records: Seq<Seq<Seq<char>>>,
    r: int,
    c: int,
) -> Option<Cell> {
    if 0 <= r < records.len() && 0 <= c < records[r].len() {
        let field = records[r][c];
        if r < header_rows {
            text_cell(field)
        } else {
            data_cell(spec_col_type(defs, c), spec_col_domain(defs, c), field)
        }
    } else {
        Option::None
    }
}

/// The run's cell writes agree with what is owed, over the region already
/// processed (all rows before `upto_r`, and columns before `upto_c` of row
/// `upto_r`), and nothing else moved.
pub open spec fn cells_match(
    base: Map<(int, int), Cell>,
    now: Map<(int, int), Cell>,
    defs: Seq<ColDefinition>,
    header_rows: int,
    records: Seq<Seq<Seq<char>>>,
    upto_r: int,
    upto_c: int,
) -> bool {
    (forall|rr: int, cc: int|
        (rr < upto_r || (rr == upto_r && cc < upto_c)) && (#[trigger] expected_cell(
            defs,
            header_rows,
            records,
            rr,
            cc,
        )) is Some ==> now.contains_key((rr, cc)) && now[(rr, cc)] == expected_cell(
            defs,
            header_rows,
            records,
            rr,
            cc,
        )->Some_0) && (forall|rr: int, cc: int|
        !((rr < upto_r || (rr == upto_r && cc < upto_c)) && (#[trigger] expected_cell(
            defs,
            header_rows,
            records,
            rr,
            cc,
        )) is Some) ==> now.contains_key((rr, cc)) == base.contains_key((rr, cc)) && (
        base.contains_key((rr, cc)) ==> now[(rr, cc)] == base[(rr, cc)]))
}

/// Writes one data-row field: dispatches on the column kind, degrades
/// gracefully on coercion failure, and feeds a discovery-mode category
/// collector.
pub fn write_field(
    ws: &mut Worksheet,
    acc: &mut CategoryAccumulator,
    current_row: u32,
    col: usize,
    field: &str,
    col_type: ColType,
    kbn_domain: Option<&Vec<u8>>,
    date_format: &Format,
) -> (r: Result<(), ConvertError>)
    requires
        old(acc).wf(),
        col_type == ColType::KbnList && kbn_domain is None ==> col < old(acc).num_cols(),
        format_code(*date_format) == date_format_code(),
    ensures
        final(acc).wf(),
        final(acc).num_cols() == old(acc).num_cols(),
        r is Ok ==> match data_cell(
            col_type,
            match kbn_domain {
                Option::Some(d) => Option::Some(d@),
                Option::None => Option::None,
            },
            field@,
        ) {
            Option::Some(cell) => sheet_cells(*final(ws)) == sheet_cells(*old(ws)).insert(
                (current_row as int, col as int),
                cell,
            ),
            Option::None => sheet_cells(*final(ws)) == sheet_cells(*old(ws)),
        },
        r is Err ==> sheet_cells(*final(ws)) == sheet_cells(*old(ws)),
        current_row < SHEET_ROW_LIMIT && col < SHEET_COL_LIMIT && field@.len() <= CELL_TEXT_LIMIT
            ==> r is Ok,
        forall|c: int|
            0 <= c < old(acc).num_cols() && c != col ==> #[trigger] final(acc).col_values(c)
                == old(acc).col_values(c),
        col_type == ColType::KbnList && kbn_domain is None && r is Ok ==> (forall|v: Seq<char>|
            final(acc).col_values(col as int).contains(v) <==> (old(acc).col_values(
                col as int,
            ).contains(v) || (field@.len() > 0 && v == field@))),
        !(col_type == ColType::KbnList && kbn_domain is None) ==> *final(acc) == *old(acc),
        sheet_validations(*final(ws)) == sheet_validations(*old(ws)),
        sheet_widths(*final(ws)) == sheet_widths(*old(ws)),
{
    let c_idx: u16 = if col < SHEET_COL_LIMIT as usize {
        col as u16
    } else {
        SHEET_COL_LIMIT
    };
    match col_type {
        ColType::Int => {
            let wrote = match write_number_cell(ws, current_row, c_idx, field) {
                Ok(b) => b,
                Err(e) => {
                    return Err(ConvertError::Sheet(e));
                },
            };
            if !wrote {
                match write_text_cell(ws, current_row, c_idx, field) {
                    Ok(_) => {},
                    Err(e) => {
                        return Err(ConvertError::Sheet(e));
                    },
                }
            }
            Ok(())
        },
        ColType::Date => {
            let wrote = match write_date_cell(ws, current_row, c_idx, field, date_format) {
                Ok(b) => b,
                Err(e) => {
                    return Err(ConvertError::Sheet(e));
                },
            };
            if !wrote {
                let replaced: String = crate::text::replace_slashes(field);
                let wrote2 = match write_date_cell(
                    ws,
                    current_row,
                    c_idx,
                    replaced.as_str(),
                    date_format,
                ) {
                    Ok(b) => b,
                    Err(e) => {
                        return Err(ConvertError::Sheet(e));
                    },
                };
                if !wrote2 {
                    match write_text_cell(ws, current_row, c_idx, field) {
                        Ok(_) => {},
                        Err(e) => {
                            return Err(ConvertError::Sheet(e));
                        },
                    }
                }
            }
            Ok(())
        },
        ColType::KbnList => {
            match kbn_domain {
                Some(domain) => {
                    let trimmed_field: &str = trim_str(field);
                    let numeral: Option<u8> = parse_u8_decimal(trimmed_field);
                    let value: u8 = match numeral {
                        Some(v) => if domain_contains(domain, v) {
                            v
                        } else {
                            0
                        },
                        None => 0,
                    };
                    match write_u8_cell(ws, current_row, c_idx, value) {
                        Ok(_) => Ok(()),
                        Err(e) => Err(ConvertError::Sheet(e)),
                    }
                },
                None => {
                    match write_text_cell(ws, current_row, c_idx, field) {
                        Ok(_) => {},
                        Err(e) => {
                            return Err(ConvertError::Sheet(e));
                        },
                    }
                    if field.unicode_len() > 0 {
                        acc.insert_value(col, field);
                    }
                    Ok(())
                },
            }
        },
        ColType::Str => {
            match write_text_cell(ws, current_row, c_idx, field) {
                Ok(_) => Ok(()),
                Err(e) => Err(ConvertError::Sheet(e)),
            }
        },
    }
}

/// Copies the header band verbatim as text: rows before `header_rows`, every
/// field, no coercion.
pub fn write_header_rows(
    ws: &mut Worksheet,
    records: &Vec<Vec<String>>,
    header_rows: usize,
) -> (r: Result<(), ConvertError>)
    requires
        header_rows < SHEET_ROW_LIMIT,
    ensures
        r is Ok ==> cells_match(
            sheet_cells(*old(ws)),
            sheet_cells(*final(ws)),
            Seq::<ColDefinition>::empty(),
            header_rows as int,
            records.deep_view(),
            if header_rows as int <= records.deep_view().len() {
                header_rows as int
            } else {
                records.deep_view().len() as int
            },
            0,
        ),
        (forall|rr: int, cc: int|
            0 <= rr < records.deep_view().len() && rr < header_rows && 0 <= cc
                < records.deep_view()[rr].len() ==> (#[trigger] records.deep_view()[rr][cc]).len()
                <= CELL_TEXT_LIMIT) && (forall|rr: int|
            0 <= rr < records.deep_view().len() ==> (#[trigger] records.deep_view()[rr]).len()
                <= SHEET_COL_LIMIT) ==> r is Ok,
        sheet_validations(*final(ws)) == sheet_validations(*old(ws)),
        sheet_widths(*final(ws)) == sheet_widths(*old(ws)),
{
    let ghost base = sheet_cells(*old(ws));
    let ghost drecs = records.deep_view();
    let ghost nodefs = Seq::<ColDefinition>::empty();
    let count: usize = if header_rows < records.len() {
        header_rows
    } else {
        records.len()
    };
    let mut i: usize = 0;
    while i < count
        invariant
            i <= count,
            count <= records@.len(),
            count == (if header_rows as int <= drecs.len() {
                header_rows as int
            } else {
                drecs.len() as int
            }),
            header_rows < SHEET_ROW_LIMIT,
            drecs == records.deep_view(),
            drecs.len() == records@.len(),
            cells_match(base, sheet_cells(*ws), nodefs, header_rows as int, drecs, i as int, 0),
            sheet_validations(*ws) == sheet_validations(*old(ws)),
            sheet_widths(*ws) == sheet_widths(*old(ws)),
        decreases count - i,
    {
        let row: &Vec<String> = &records[i];
        let rlen: usize = row.len();
        let mut j: usize = 0;
        while j < rlen
            invariant
                j <= rlen,
                i < count,
                count <= records@.len(),
                header_rows < SHEET_ROW_LIMIT,
                i < header_rows,
                drecs == records.deep_view(),
                drecs.len() == records@.len(),
                row == records@[i as int],
                rlen == drecs[i as int].len(),
                cells_match(
                    base,
                    sheet_cells(*ws),
                    nodefs,
                    header_rows as int,
                    drecs,
                    i as int,
                    j as int,
                ),
                sheet_validations(*ws) == sheet_validations(*old(ws)),
                sheet_widths(*ws) == sheet_widths(*old(ws)),
            decreases rlen - j,
        {
            let field: &str = row[j].as_str();
            proof {
                assert(field@ == drecs[i as int][j as int]);
            }
            let c_idx: u16 = if j < SHEET_COL_LIMIT as usize {
                j as u16
            } else {
                SHEET_COL_LIMIT
            };
            match write_text_cell(ws, i as u32, c_idx, field) {
                Ok(_) => {},
                Err(e) => {
                    return Err(ConvertError::Sheet(e));
                },
            }
            proof {
                assert(expected_cell(nodefs, header_rows as int, drecs, i as int, j as int)
                    == text_cell(field@));
                assert(cells_match(
                    base,
                    sheet_cells(*ws),
                    nodefs,
                    header_rows as int,
                    drecs,
                    i as int,
                    j + 1,
                ));
            }
            j += 1;
        }
        proof {
            assert(cells_match(
                base,
                sheet_cells(*ws),
                nodefs,
                header_rows as int,
                drecs,
                i + 1,
                0,
            ));
        }
        i += 1;
    }
    Ok(())
}

/// A header-band cell is owed the field's text verbatim, whatever the
/// column's declared kind.
pub proof fn lemma_header_cell_verbatim(
    defs: Seq<ColDefinition>,
    header_rows: int,
    records: Seq<Seq<Seq<char>>>,
    r: int,
    c: int,
)
    requires
        0 <= r < records.len(),
        r < header_rows,
        0 <= c < records[r].len(),
        records[r][c].len() > 0,
    ensures
        expected_cell(defs, header_rows, records, r, c) == Option::Some(
            Cell::Text(records[r][c]),
        ),
{
}

/// An integer-column field that parses is owed a numeric cell holding that
/// number; one that does not parse is owed its verbatim text.
pub proof fn lemma_integer_cell(domain: Option<Seq<u8>>, field: Seq<char>)
    ensures
        f64_parses(field) ==> data_cell(ColType::Int, domain, field) == Option::Some(
            Cell::NumberOf(field),
        ),
        !f64_parses(field) && field.len() > 0 ==> data_cell(ColType::Int, domain, field)
            == Option::Some(Cell::Text(field)),
{
}

/// A date-column field in the accepted format is owed a date cell with the
/// year-month-day display format; one accepted only after slash replacement
/// is owed the date cell of the replaced text; one accepted neither way is
/// owed its verbatim text.
pub proof fn lemma_date_cell(domain: Option<Seq<u8>>, field: Seq<char>)
    ensures
        xl_date_parses(field) ==> data_cell(ColType::Date, domain, field) == Option::Some(
            Cell::DateOf(field, date_format_code()),
        ),
        !xl_date_parses(field) && xl_date_parses(slashes_replaced(field)) ==> data_cell(
            ColType::Date,
            domain,
            field,
        ) == Option::Some(Cell::DateOf(slashes_replaced(field), date_format_code())),
        !xl_date_parses(field) && !xl_date_parses(slashes_replaced(field)) && field.len() > 0
            ==> data_cell(ColType::Date, domain, field) == Option::Some(Cell::Text(field)),
{
}

/// A field using slashes as date separators is owed the same date cell as
/// its hyphenated spelling.
pub proof fn lemma_date_cell_separator_equivalent(
    domain: Option<Seq<u8>>,
    slashed: Seq<char>,
    hyphenated: Seq<char>,
)
    requires
        !xl_date_parses(slashed),
        xl_date_parses(hyphenated),
        slashes_replaced(slashed) == hyphenated,
        slashes_replaced(hyphenated) == hyphenated,
    ensures
        data_cell(ColType::Date, domain, slashed) == data_cell(ColType::Date, domain, hyphenated),
{
}

/// A category column whose values are discovered from the data.
pub open spec fn is_discovery(defs: Seq<ColDefinition>, c: int) -> bool {
    defs[c].col_type == ColType::KbnList && defs[c].kbn_values is None
}

/// A category column with a fixed domain.
pub open spec fn is_fixed(defs: Seq<ColDefinition>, c: int) -> bool {
    defs[c].col_type == ColType::KbnList && defs[c].kbn_values is Some
}

/// The decimal numerals of a list of small category values.
pub open spec fn u8_numerals(ds: Seq<u8>) -> Seq<Seq<char>> {
    ds.map_values(|u: u8| dec_numeral(u as int))
}

/// A fixed domain's dropdown list: the numerals of the domain's values,
/// ascending and deduplicated, and not empty.
pub open spec fn fixed_list_ok(d: Seq<u8>, l: Seq<Seq<char>>) -> bool {
    exists|ds: Seq<u8>|
        #[trigger] u8_strictly_sorted(ds) && (forall|v: u8| ds.contains(v) <==> d.contains(v)) && l
            == u8_numerals(ds) && ds.len() > 0
}

/// Why a fixed domain got no dropdown: it was empty, or its list of
/// numerals is over the length guard.
pub open spec fn fixed_list_skipped(d: Seq<u8>) -> bool {
    d.len() == 0 || (exists|ds: Seq<u8>|
        #[trigger] u8_strictly_sorted(ds) && (forall|v: u8| ds.contains(v) <==> d.contains(v))
            && joined_list_len(u8_numerals(ds)) > LIST_TEXT_LIMIT)
}

/// What the validation pass owes for one column: nothing unless the column
/// is a category column; for discovery mode the collector's sorted values
/// exactly when non-empty and within the length guard; for a fixed domain
/// its sorted numerals exactly when non-empty and within the guard.
pub open spec fn column_list_entry(
    lists: Seq<Option<Seq<Seq<char>>>>,
    acc: CategoryAccumulator,
    defs: Seq<ColDefinition>,
    c: int,
) -> bool {
    &&& (defs[c].col_type != ColType::KbnList ==> lists[c] is None)
    &&& (is_discovery(defs, c) ==> {
        &&& (lists[c] is Some <==> acc.col_values(c).len() > 0 && joined_list_len(
            acc.col_values(c),
        ) <= LIST_TEXT_LIMIT)
        &&& (lists[c] is Some ==> lists[c]->Some_0 == acc.col_values(c))
    })
    &&& (is_fixed(defs, c) ==> {
        let d = defs[c].kbn_values->Some_0@;
        &&& (lists[c] is Some ==> fixed_list_ok(d, lists[c]->Some_0) && joined_list_len(
            lists[c]->Some_0,
        ) <= LIST_TEXT_LIMIT)
        &&& (lists[c] is None ==> fixed_list_skipped(d))
    })
}

/// A range key the validation pass wrote: one single-column range per
/// emitted column.
pub open spec fn key_emitted(
    lists: Seq<Option<Seq<Seq<char>>>>,
    first: int,
    last: int,
    ncols: int,
    k: (int, int, int, int),
) -> bool {
    exists|c: int| 0 <= c < ncols && (#[trigger] lists[c]) is Some && k == (first, c, last, c)
}

/// The sheet's validations after the pass: one entry per emitted column,
/// everything else untouched.
pub open spec fn validations_updated(
    base: Map<(int, int, int, int), Seq<Seq<char>>>,
    now: Map<(int, int, int, int), Seq<Seq<char>>>,
    lists: Seq<Option<Seq<Seq<char>>>>,
    first: int,
    last: int,
    ncols: int,
) -> bool {
    &&& (forall|c: int|
        0 <= c < ncols && (#[trigger] lists[c]) is Some ==> now.contains_key((first, c, last, c))
            && now[(first, c, last, c)] == lists[c]->Some_0)
    &&& (forall|k: (int, int, int, int)|
        !key_emitted(lists, first, last, ncols, k) ==> (#[trigger] now.contains_key(k))
            == base.contains_key(k) && (base.contains_key(k) ==> now[k] == base[k]))
}

/// Attaches one dropdown validation per qualifying category column, over the
/// single-column range from the first data row through the last row written,
/// and reports the emitted list for each column.
pub fn apply_column_validations(
    ws: &mut Worksheet,
    acc: &CategoryAccumulator,
    defs: &Vec<ColDefinition>,
    header_row: u32,
    max_row_idx: u32,
) -> (r: Result<Vec<Option<Vec<String>>>, ConvertError>)
    requires
        acc.wf(),
        acc.num_cols() == defs@.len(),
        header_row <= max_row_idx,
    ensures
        sheet_cells(*final(ws)) == sheet_cells(*old(ws)),
        sheet_widths(*final(ws)) == sheet_widths(*old(ws)),
        max_row_idx < SHEET_ROW_LIMIT && defs@.len() <= SHEET_COL_LIMIT as int ==> r is Ok,
        r is Ok ==> r->Ok_0@.len() == defs@.len(),
        r is Ok ==> forall|c: int|
            0 <= c < defs@.len() ==> column_list_entry(r->Ok_0.deep_view(), *acc, defs@, c),
        r is Ok ==> validations_updated(
            sheet_validations(*old(ws)),
            sheet_validations(*final(ws)),
            r->Ok_0.deep_view(),
            header_row as int,
            max_row_idx as int,
            defs@.len() as int,
        ),
{
    let ghost base_v = sheet_validations(*old(ws));
    let mut lists: Vec<Option<Vec<String>>> = Vec::new();
    let mut c: usize = 0;
    while c < defs.len()
        invariant
            c <= defs@.len(),
            acc.wf(),
            acc.num_cols() == defs@.len(),
            header_row <= max_row_idx,
            lists@.len() == c,
            sheet_cells(*ws) == sheet_cells(*old(ws)),
            sheet_widths(*ws) == sheet_widths(*old(ws)),
            base_v == sheet_validations(*old(ws)),
            forall|cc: int|
                0 <= cc < c ==> column_list_entry(lists.deep_view(), *acc, defs@, cc),
            validations_updated(
                base_v,
                sheet_validations(*ws),
                lists.deep_view(),
                header_row as int,
                max_row_idx as int,
                c as int,
            ),
        decreases defs@.len() - c,
    {
        let ghost prev_lists = lists.deep_view();
        let ghost prev_v = sheet_validations(*ws);
        let mut entry: Option<Vec<String>> = None;
        let is_kbn: bool = match defs[c].col_type {
            ColType::KbnList => true,
            _ => false,
        };
        let col16: u16 = if c < SHEET_COL_LIMIT as usize {
            c as u16
        } else {
            SHEET_COL_LIMIT
        };
        if is_kbn {
            match &defs[c].kbn_values {
                Some(domain) => {
                    let nd: Vec<u8> = normalized_domain(domain);
                    proof {
                        if nd@.len() == 0 && domain@.len() > 0 {
                            assert(domain@.contains(domain@[0]));
                            assert(nd@.contains(domain@[0]));
                        }
                    }
                    if nd.len() > 0 {
                        let mut items: Vec<String> = Vec::new();
                        let mut k: usize = 0;
                        proof {
                            assert(items.deep_view() =~= u8_numerals(nd@.take(0)));
                        }
                        while k < nd.len()
                            invariant
                                k <= nd@.len(),
                                items.deep_view() == u8_numerals(nd@.take(k as int)),
                            decreases nd@.len() - k,
                        {
                            let ghost prev_at = items@;
                            proof {
                                assert(items.deep_view().len() == k);
                                assert(items@.len() == k);
                            }
                            let numeral: String = u8_to_decimal(nd[k]);
                            items.push(numeral);
                            proof {
                                assert forall|t: int|
                                    0 <= t < items.deep_view().len() implies items.deep_view()[t]
                                    == u8_numerals(nd@.take(k + 1))[t] by {
                                    assert(items.deep_view()[t] == items@[t].deep_view());
                                    if t < k {
                                        assert(items@[t] == prev_at[t]);
                                        assert(prev_at[t].deep_view() == u8_numerals(
                                            nd@.take(k as int),
                                        )[t]);
                                    }
                                }
                                assert(items.deep_view() =~= u8_numerals(nd@.take(k + 1)));
                            }
                            k += 1;
                        }
                        proof {
                            assert(nd@.take(nd@.len() as int) =~= nd@);
                            assert(items.deep_view() == u8_numerals(nd@));
                        }
                        if fits_list_limit(&items) {
                            proof {
                                assert(items@.map_values(|s: String| s@) =~= items.deep_view());
                            }
                            let validation = match make_list_validation(&items) {
                                Ok(v) => v,
                                Err(e) => {
                                    return Err(ConvertError::Sheet(e));
                                },
                            };
                            match add_list_validation(
                                ws,
                                header_row,
                                max_row_idx,
                                col16,
                                &validation,
                            ) {
                                Ok(_) => {},
                                Err(e) => {
                                    return Err(ConvertError::Sheet(e));
                                },
                            }
                            proof {
                                assert(col16 as int == c as int);
                            }
                            entry = Some(items);
                        }
                    }
                },
                None => {
                    let items_ref: &Vec<String> = &acc.cols[c];
                    proof {
                        assert(items_ref.deep_view() == acc.col_values(c as int));
                    }
                    if items_ref.len() > 0 {
                        if fits_list_limit(items_ref) {
                            proof {
                                assert(items_ref@.map_values(|s: String| s@)
                                    =~= items_ref.deep_view());
                            }
                            let validation = match make_list_validation(items_ref) {
                                Ok(v) => v,
                                Err(e) => {
                                    return Err(ConvertError::Sheet(e));
                                },
                            };
                            match add_list_validation(
                                ws,
                                header_row,
                                max_row_idx,
                                col16,
                                &validation,
                            ) {
                                Ok(_) => {},
                                Err(e) => {
                                    return Err(ConvertError::Sheet(e));
                                },
                            }
                            proof {
                                assert(col16 as int == c as int);
                            }
                            let mut copy: Vec<String> = Vec::new();
                            let mut k: usize = 0;
                            proof {
                                assert(copy.deep_view() =~= items_ref.deep_view().take(0));
                            }
                            while k < items_ref.len()
                                invariant
                                    k <= items_ref@.len(),
                                    copy.deep_view() == items_ref.deep_view().take(k as int),
                                decreases items_ref@.len() - k,
                            {
                                let ghost prev_at = copy@;
                                proof {
                                    assert(copy.deep_view().len() == k);
                                    assert(copy@.len() == k);
                                }
                                let item: String = items_ref[k].clone();
                                copy.push(item);
                                proof {
                                    assert forall|t: int|
                                        0 <= t < copy.deep_view().len() implies copy.deep_view()[t]
                                        == items_ref.deep_view().take(k + 1)[t] by {
                                        assert(copy.deep_view()[t] == copy@[t].deep_view());
                                        assert(items_ref.deep_view()[t] == items_ref@[t]
                                            .deep_view());
                                        if t < k {
                                            assert(copy@[t] == prev_at[t]);
                                            assert(prev_at[t].deep_view()
                                                == items_ref.deep_view().take(k as int)[t]);
                                        } else {
                                            assert(copy@[t]@ == items_ref@[k as int]@);
                                        }
                                    }
                                    assert(copy.deep_view() =~= items_ref.deep_view().take(
                                        k + 1,
                                    ));
                                }
                                k += 1;
                            }
                            proof {
                                assert(items_ref.deep_view().take(items_ref@.len() as int)
                                    =~= items_ref.deep_view());
                            }
                            entry = Some(copy);
                        }
                    }
                },
            }
        }
        let ghost entry_dv: Option<Seq<Seq<char>>> = entry.deep_view();
        let ghost prev_at = lists@;
        proof {
            assert(lists.deep_view().len() == c);
            assert(lists@.len() == c);
            assert forall|t: int| 0 <= t < c implies prev_lists[t] == prev_at[t].deep_view() by {
                assert(lists.deep_view()[t] == lists@[t].deep_view());
            }
        }
        lists.push(entry);
        proof {
            assert forall|t: int|
                0 <= t < lists.deep_view().len() implies lists.deep_view()[t] == prev_lists.push(
                entry_dv,
            )[t] by {
                assert(lists.deep_view()[t] == lists@[t].deep_view());
                if t < c {
                    assert(lists@[t] == prev_at[t]);
                }
            }
            assert(lists.deep_view() =~= prev_lists.push(entry_dv));
            assert forall|cc: int|
                0 <= cc < c + 1 implies column_list_entry(lists.deep_view(), *acc, defs@, cc) by {
                if cc < c {
                    assert(lists.deep_view()[cc] == prev_lists[cc]);
                    assert(column_list_entry(prev_lists, *acc, defs@, cc));
                }
            }
            assert(validations_updated(
                base_v,
                sheet_validations(*ws),
                lists.deep_view(),
                header_row as int,
                max_row_idx as int,
                c + 1,
            )) by {
                assert forall|k: (int, int, int, int)|
                    !key_emitted(
                        lists.deep_view(),
                        header_row as int,
                        max_row_idx as int,
                        c + 1,
                        k,
                    ) implies (#[trigger] sheet_validations(*ws).contains_key(k))
                    == base_v.contains_key(k) && (base_v.contains_key(k) ==> sheet_validations(
                    *ws,
                )[k] == base_v[k]) by {
                    assert(!key_emitted(
                        prev_lists,
                        header_row as int,
                        max_row_idx as int,
                        c as int,
                        k,
                    )) by {
                        if key_emitted(
                            prev_lists,
                            header_row as int,
                            max_row_idx as int,
                            c as int,
                            k,
                        ) {
                            let cc = choose|cc: int|
                                0 <= cc < c && (#[trigger] prev_lists[cc]) is Some && k == (
                                header_row as int,
                                cc,
                                max_row_idx as int,
                                cc,
                                );
                            assert(lists.deep_view()[cc] is Some);
                        }
                    }
                    if entry is Some {
                        assert(k != (header_row as int, c as int, max_row_idx as int, c as int))
                            by {
                            if k == (header_row as int, c as int, max_row_idx as int, c as int) {
                                assert(lists.deep_view()[c as int] is Some);
                            }
                        }
                    }
                }
            }
        }
        c += 1;
    }
    Ok(lists)
}

/// What one conversion run reports besides the sheet itself: the highest
/// data row written, if any, and the dropdown list emitted per column.
pub struct RunSummary {
    pub max_data_row: Option<u32>,
    pub validation_lists: Vec<Option<Vec<String>>>,
}

/// The distinct non-empty values of column `c` over the data rows before
/// row `upto`.
pub open spec fn discovered_upto(
    records: Seq<Seq<Seq<char>>>,
    header_rows: int,
    c: int,
    upto: int,
) -> Set<Seq<char>> {
    Set::new(
        |v: Seq<char>|
            v.len() > 0 && exists|r: int|
                header_rows <= r < upto && 0 <= c < (#[trigger] records[r]).len()
                    && records[r][c] == v,
    )
}

/// The distinct non-empty values of column `c` over all data rows.
pub open spec fn discovered_values(
    records: Seq<Seq<Seq<char>>>,
    header_rows: int,
    c: int,
) -> Set<Seq<char>> {
    discovered_upto(records, header_rows, c, records.len() as int)
}

proof fn lemma_discovered_step(records: Seq<Seq<Seq<char>>>, header_rows: int, c: int, i: int)
    requires
        header_rows <= i < records.len(),
        0 <= c,
    ensures
        forall|v: Seq<char>|
            discovered_upto(records, header_rows, c, i + 1).contains(v) <==> (discovered_upto(
                records,
                header_rows,
                c,
                i,
            ).contains(v) || (c < records[i].len() && records[i][c].len() > 0 && v
                == records[i][c])),
{
    assert forall|v: Seq<char>|
        discovered_upto(records, header_rows, c, i + 1).contains(v) <==> (discovered_upto(
            records,
            header_rows,
            c,
            i,
        ).contains(v) || (c < records[i].len() && records[i][c].len() > 0 && v
            == records[i][c])) by {
        if discovered_upto(records, header_rows, c, i + 1).contains(v) {
            let r = choose|r: int|
                header_rows <= r < i + 1 && 0 <= c < (#[trigger] records[r]).len()
                    && records[r][c] == v;
            if r < i {
                assert(discovered_upto(records, header_rows, c, i).contains(v));
            }
        }
        if discovered_upto(records, header_rows, c, i).contains(v) {
            let r = choose|r: int|
                header_rows <= r < i && 0 <= c < (#[trigger] records[r]).len() && records[r][c]
                    == v;
            assert(header_rows <= r < i + 1 && 0 <= c < records[r].len() && records[r][c] == v);
            assert(discovered_upto(records, header_rows, c, i + 1).contains(v));
        }
        if c < records[i].len() && records[i][c].len() > 0 && v == records[i][c] {
            assert(header_rows <= i < i + 1 && 0 <= c < records[i].len() && records[i][c] == v);
            assert(discovered_upto(records, header_rows, c, i + 1).contains(v));
        }
    }
}

/// Inputs on which the run is owed success: every position and text length
/// within the sheet's limits.
pub open spec fn run_fits(records: Seq<Seq<Seq<char>>>, defs: Seq<ColDefinition>) -> bool {
    &&& records.len() <= SHEET_ROW_LIMIT
    &&& defs.len() <= SHEET_COL_LIMIT as int
    &&& forall|r: int|
        0 <= r < records.len() ==> (#[trigger] records[r]).len() <= SHEET_COL_LIMIT as int
    &&& forall|r: int, c: int|
        0 <= r < records.len() && 0 <= c < records[r].len() ==> (#[trigger] records[r][c]).len()
            <= CELL_TEXT_LIMIT
}

/// One full conversion run on parsed rows: copies the header band verbatim,
/// transcodes every data row per the column policy, sets the schema's
/// column widths, and attaches one dropdown per qualifying category column
/// over the rows actually written.
pub fn convert_records(
    ws: &mut Worksheet,
    records: &Vec<Vec<String>>,
    defs: &Vec<ColDefinition>,
    header_rows: usize,
) -> (r: Result<RunSummary, ConvertError>)
    requires
        records@.len() < 0x1_0000_0000,
        header_rows < SHEET_ROW_LIMIT,
    ensures
        run_fits(records.deep_view(), defs@) ==> r is Ok,
        r is Ok ==> cells_match(
            sheet_cells(*old(ws)),
            sheet_cells(*final(ws)),
            defs@,
            header_rows as int,
            records.deep_view(),
            records.deep_view().len() as int,
            0,
        ),
        r is Ok ==> (r->Ok_0.max_data_row is Some <==> records@.len() > header_rows),
        r is Ok && records@.len() > header_rows ==> r->Ok_0.max_data_row->Some_0 == records@.len()
            - 1,
        r is Ok ==> r->Ok_0.validation_lists@.len() == defs@.len(),
        r is Ok && records@.len() <= header_rows ==> sheet_validations(*final(ws))
            == sheet_validations(*old(ws)) && (forall|c: int|
            0 <= c < defs@.len() ==> (#[trigger] r->Ok_0.validation_lists@[c]) is None),
        r is Ok && records@.len() > header_rows ==> validations_updated(
            sheet_validations(*old(ws)),
            sheet_validations(*final(ws)),
            r->Ok_0.validation_lists.deep_view(),
            header_rows as int,
            records.deep_view().len() - 1,
            defs@.len() as int,
        ),
        r is Ok && records@.len() > header_rows ==> forall|c: int|
            0 <= c < defs@.len() && defs@[c].col_type != ColType::KbnList ==> (
            #[trigger] r->Ok_0.validation_lists.deep_view()[c]) is None,
        r is Ok && records@.len() > header_rows ==> forall|c: int|
            0 <= c < defs@.len() && is_fixed(defs@, c) ==> {
                let lc = #[trigger] r->Ok_0.validation_lists.deep_view()[c];
                let d = defs@[c].kbn_values->Some_0@;
                &&& (lc is Some ==> fixed_list_ok(d, lc->Some_0) && joined_list_len(lc->Some_0)
                    <= LIST_TEXT_LIMIT)
                &&& (lc is None ==> fixed_list_skipped(d))
            },
        r is Ok && records@.len() > header_rows ==> forall|c: int|
            0 <= c < defs@.len() && is_discovery(defs@, c) ==> {
                let lc = #[trigger] r->Ok_0.validation_lists.deep_view()[c];
                let disc = discovered_values(records.deep_view(), header_rows as int, c);
                &&& (lc is Some ==> crate::categories::strictly_sorted(lc->Some_0)
                    && crate::categories::all_nonempty(lc->Some_0) && (forall|v: Seq<char>|
                    lc->Some_0.contains(v) <==> disc.contains(v)) && joined_list_len(lc->Some_0)
                    <= LIST_TEXT_LIMIT)
                &&& (lc is None ==> exists|l: Seq<Seq<char>>|
                    #[trigger] crate::categories::strictly_sorted(l) && (forall|v: Seq<char>|
                        l.contains(v) <==> disc.contains(v)) && (l.len() == 0 || joined_list_len(
                        l,
                    ) > LIST_TEXT_LIMIT))
            },
        r is Ok ==> forall|c: int|
            0 <= c < defs@.len() && (#[trigger] defs@[c].width) is Some && defs@[c].width->Some_0
                >= 1 ==> sheet_widths(*final(ws)).contains_key(c) && sheet_widths(*final(ws))[c]
                == defs@[c].width->Some_0,
        r is Ok ==> forall|k: int|
            !(0 <= k < defs@.len() && defs@[k].width is Some && defs@[k].width->Some_0 >= 1) ==> (
            #[trigger] sheet_widths(*final(ws)).contains_key(k)) == sheet_widths(
                *old(ws),
            ).contains_key(k) && (sheet_widths(*old(ws)).contains_key(k) ==> sheet_widths(
                *final(ws),
            )[k] == sheet_widths(*old(ws))[k]),
{
    let ghost drecs = records.deep_view();
    let ghost ddefs = defs@;
    let ghost hdr = header_rows as int;
    let ghost base_cells = sheet_cells(*old(ws));
    let ghost base_vals = sheet_validations(*old(ws));
    let ghost base_widths = sheet_widths(*old(ws));

    // column widths, structured-schema mode only
    let mut c: usize = 0;
    while c < defs.len()
        invariant
            c <= ddefs.len(),
            ddefs == defs@,
            sheet_cells(*ws) == base_cells,
            sheet_validations(*ws) == base_vals,
            base_cells == sheet_cells(*old(ws)),
            base_vals == sheet_validations(*old(ws)),
            base_widths == sheet_widths(*old(ws)),
            forall|k: int|
                0 <= k < c && (#[trigger] ddefs[k].width) is Some && ddefs[k].width->Some_0 >= 1
                    ==> sheet_widths(*ws).contains_key(k) && sheet_widths(*ws)[k]
                    == ddefs[k].width->Some_0,
            forall|k: int|
                !(0 <= k < c && ddefs[k].width is Some && ddefs[k].width->Some_0 >= 1) ==> (
                #[trigger] sheet_widths(*ws).contains_key(k)) == base_widths.contains_key(k) && (
                base_widths.contains_key(k) ==> sheet_widths(*ws)[k] == base_widths[k]),
        decreases ddefs.len() - c,
    {
        let wopt: Option<u32> = defs[c].width;
        if let Some(w) = wopt {
            if w >= 1 {
                let col16: u16 = if c < SHEET_COL_LIMIT as usize {
                    c as u16
                } else {
                    SHEET_COL_LIMIT
                };
                match set_col_width(ws, col16, w) {
                    Ok(_) => {},
                    Err(e) => {
                        proof {
                            assert(c >= SHEET_COL_LIMIT as usize);
                            assert(!run_fits(drecs, ddefs));
                        }
                        return Err(ConvertError::Sheet(e));
                    },
                }
                proof {
                    assert(col16 as int == c as int);
                }
            }
        }
        c += 1;
    }
    let ghost widths_after = sheet_widths(*ws);

    // header band, verbatim text
    match write_header_rows(ws, records, header_rows) {
        Ok(_) => {},
        Err(e) => {
            proof {
                if run_fits(drecs, ddefs) {
                    assert(forall|rr: int, cc: int|
                        0 <= rr < drecs.len() && rr < header_rows && 0 <= cc < drecs[rr].len()
                            ==> (#[trigger] drecs[rr][cc]).len() <= CELL_TEXT_LIMIT);
                }
            }
            return Err(e);
        },
    }
    let ghost upto0: int = if hdr <= drecs.len() {
        hdr
    } else {
        drecs.len() as int
    };
    proof {
        let nodefs = Seq::<ColDefinition>::empty();
        assert forall|rr: int, cc: int|
            (rr < upto0 || (rr == upto0 && cc < 0)) implies #[trigger] expected_cell(
            ddefs,
            hdr,
            drecs,
            rr,
            cc,
        ) == expected_cell(nodefs, hdr, drecs, rr, cc) by {}
        assert(cells_match(base_cells, sheet_cells(*ws), ddefs, hdr, drecs, upto0, 0)) by {
            assert(cells_match(base_cells, sheet_cells(*ws), nodefs, hdr, drecs, upto0, 0));
        }
    }

    // data rows
    let date_fmt: Format = make_num_format("yyyy-mm-dd");
    proof {
        assert(format_code(date_fmt) == date_format_code());
    }
    let mut acc: CategoryAccumulator = CategoryAccumulator::new(defs.len());
    let mut i: usize = if header_rows < records.len() {
        header_rows
    } else {
        records.len()
    };
    proof {
        assert(i as int == upto0);
        assert forall|cc: int, v: Seq<char>|
            0 <= cc < ddefs.len() && is_discovery(ddefs, cc) implies ((#[trigger] acc.col_values(
            cc,
        ).contains(v)) <==> discovered_upto(drecs, hdr, cc, i as int).contains(v)) by {
            assert(acc.col_values(cc).len() == 0);
            if discovered_upto(drecs, hdr, cc, i as int).contains(v) {
                let rr = choose|rr: int|
                    hdr <= rr < i as int && 0 <= cc < (#[trigger] drecs[rr]).len() && drecs[rr][cc]
                        == v;
                assert(rr < upto0 && rr >= hdr);
                assert(false);
            }
        }
    }
    while i < records.len()
        invariant
            upto0 <= i <= records@.len(),
            header_rows <= i || i as int == drecs.len(),
            records@.len() < 0x1_0000_0000,
            drecs == records.deep_view(),
            drecs.len() == records@.len(),
            ddefs == defs@,
            hdr == header_rows as int,
            base_cells == sheet_cells(*old(ws)),
            base_vals == sheet_validations(*old(ws)),
            base_widths == sheet_widths(*old(ws)),
            cells_match(base_cells, sheet_cells(*ws), ddefs, hdr, drecs, i as int, 0),
            acc.wf(),
            acc.num_cols() == ddefs.len(),
            forall|cc: int, v: Seq<char>|
                0 <= cc < ddefs.len() && is_discovery(ddefs, cc) ==> ((#[trigger] acc.col_values(
                cc,
                ).contains(v)) <==> discovered_upto(drecs, hdr, cc, i as int).contains(v)),
            sheet_validations(*ws) == base_vals,
            sheet_widths(*ws) == widths_after,
            format_code(date_fmt) == date_format_code(),
        decreases records@.len() - i,
    {
        let row: &Vec<String> = &records[i];
        let rlen: usize = row.len();
        let mut j: usize = 0;
        while j < rlen
            invariant
                j <= rlen,
                header_rows <= i < records@.len(),
                records@.len() < 0x1_0000_0000,
                drecs == records.deep_view(),
                drecs.len() == records@.len(),
                ddefs == defs@,
                hdr == header_rows as int,
                base_cells == sheet_cells(*old(ws)),
                base_vals == sheet_validations(*old(ws)),
                base_widths == sheet_widths(*old(ws)),
                row == records@[i as int],
                rlen == drecs[i as int].len(),
                cells_match(base_cells, sheet_cells(*ws), ddefs, hdr, drecs, i as int, j as int),
                acc.wf(),
                acc.num_cols() == ddefs.len(),
                forall|cc: int, v: Seq<char>|
                    0 <= cc < ddefs.len() && is_discovery(ddefs, cc) ==> ((
                    #[trigger] acc.col_values(cc).contains(v)) <==> (discovered_upto(
                        drecs,
                        hdr,
                        cc,
                        i as int,
                    ).contains(v) || (cc < j && cc < drecs[i as int].len()
                        && drecs[i as int][cc].len() > 0 && v == drecs[i as int][cc]))),
                sheet_validations(*ws) == base_vals,
                sheet_widths(*ws) == widths_after,
                format_code(date_fmt) == date_format_code(),
            decreases rlen - j,
        {
            let field: &str = row[j].as_str();
            proof {
                assert(field@ == drecs[i as int][j as int]);
            }
            let col_type: ColType = if j < defs.len() {
                defs[j].col_type
            } else {
                ColType::Str
            };
            let domain: Option<&Vec<u8>> = if j < defs.len() {
                match &defs[j].kbn_values {
                    Some(d) => Some(d),
                    None => None,
                }
            } else {
                None
            };
            match write_field(ws, &mut acc, i as u32, j, field, col_type, domain, &date_fmt) {
                Ok(_) => {},
                Err(e) => {
                    proof {
                        if run_fits(drecs, ddefs) {
                            assert(drecs[i as int].len() <= SHEET_COL_LIMIT as int);
                            assert(field@.len() <= CELL_TEXT_LIMIT);
                        }
                    }
                    return Err(e);
                },
            }
            proof {
                assert(expected_cell(ddefs, hdr, drecs, i as int, j as int) == data_cell(
                    col_type,
                    match domain {
                        Option::Some(d) => Option::Some(d@),
                        Option::None => Option::None,
                    },
                    field@,
                ));
                assert(cells_match(
                    base_cells,
                    sheet_cells(*ws),
                    ddefs,
                    hdr,
                    drecs,
                    i as int,
                    j + 1,
                ));
            }
            j += 1;
        }
        proof {
            assert(cells_match(base_cells, sheet_cells(*ws), ddefs, hdr, drecs, i + 1, 0));
            assert forall|cc: int, v: Seq<char>|
                0 <= cc < ddefs.len() && is_discovery(ddefs, cc) implies ((
            #[trigger] acc.col_values(cc).contains(v)) <==> discovered_upto(
                drecs,
                hdr,
                cc,
                i + 1,
            ).contains(v)) by {
                lemma_discovered_step(drecs, hdr, cc, i as int);
            }
        }
        i += 1;
    }

    // validation pass, only when data rows exist
    if records.len() > header_rows {
        let max_row: u32 = (records.len() - 1) as u32;
        let lists: Vec<Option<Vec<String>>> = match apply_column_validations(
            ws,
            &acc,
            defs,
            header_rows as u32,
            max_row,
        ) {
            Ok(l) => l,
            Err(e) => {
                proof {
                    if run_fits(drecs, ddefs) {
                        assert(max_row < SHEET_ROW_LIMIT);
                    }
                }
                return Err(e);
            },
        };
        proof {
            assert forall|cc: int, v: Seq<char>|
                0 <= cc < ddefs.len() && is_discovery(ddefs, cc) implies ((
            #[trigger] acc.col_values(cc).contains(v)) <==> discovered_values(
                drecs,
                hdr,
                cc,
            ).contains(v)) by {}
            let dl = lists.deep_view();
            assert forall|cc: int|
                0 <= cc < ddefs.len() && ddefs[cc].col_type != ColType::KbnList implies (
            #[trigger] dl[cc]) is None by {
                assert(column_list_entry(dl, acc, ddefs, cc));
            }
            assert forall|cc: int| 0 <= cc < ddefs.len() && is_fixed(ddefs, cc) implies {
                let lc = #[trigger] dl[cc];
                let d = ddefs[cc].kbn_values->Some_0@;
                &&& (lc is Some ==> fixed_list_ok(d, lc->Some_0) && joined_list_len(lc->Some_0)
                    <= LIST_TEXT_LIMIT)
                &&& (lc is None ==> fixed_list_skipped(d))
            } by {
                assert(column_list_entry(dl, acc, ddefs, cc));
            }
            assert forall|cc: int| 0 <= cc < ddefs.len() && is_discovery(ddefs, cc) implies {
                let lc = #[trigger] dl[cc];
                let disc = discovered_values(drecs, hdr, cc);
                &&& (lc is Some ==> crate::categories::strictly_sorted(lc->Some_0)
                    && crate::categories::all_nonempty(lc->Some_0) && (forall|v: Seq<char>|
                    lc->Some_0.contains(v) <==> disc.contains(v)) && joined_list_len(lc->Some_0)
                    <= LIST_TEXT_LIMIT)
                &&& (lc is None ==> exists|l: Seq<Seq<char>>|
                    #[trigger] crate::categories::strictly_sorted(l) && (forall|v: Seq<char>|
                        l.contains(v) <==> disc.contains(v)) && (l.len() == 0 || joined_list_len(
                        l,
                    ) > LIST_TEXT_LIMIT))
            } by {
                assert(column_list_entry(dl, acc, ddefs, cc));
                let av = acc.col_values(cc);
                let disc = discovered_values(drecs, hdr, cc);
                assert(crate::categories::strictly_sorted(av) && crate::categories::all_nonempty(
                    av,
                ));
                assert(forall|v: Seq<char>| av.contains(v) <==> disc.contains(v));
                if dl[cc] is None {
                    assert(!(av.len() > 0 && joined_list_len(av) <= LIST_TEXT_LIMIT));
                    assert(crate::categories::strictly_sorted(av) && (forall|v: Seq<char>|
                        av.contains(v) <==> disc.contains(v)) && (av.len() == 0
                        || joined_list_len(av) > LIST_TEXT_LIMIT));
                }
            }
        }
        Ok(RunSummary { max_data_row: Some(max_row), validation_lists: lists })
    } else {
        let mut lists: Vec<Option<Vec<String>>> = Vec::new();
        while lists.len() < defs.len()
            invariant
                lists@.len() <= ddefs.len(),
                ddefs == defs@,
                forall|cc: int| 0 <= cc < lists@.len() ==> (#[trigger] lists@[cc]) is None,
            decreases ddefs.len() - lists.len(),
        {
            lists.push(None);
        }
        Ok(RunSummary { max_data_row: None, validation_lists: lists })
    }
}

} // verus!
