//! The schema model: column kinds, per-column definitions, and the abstract
//! cell values that the sheet model records.

use vstd::prelude::*;
use crate::text::{eq_ignore_ascii_case, eq_ignore_case_str};

verus! {

/// The column kinds the schema distinguishes. An unrecognized type tag falls
/// back to free text.
#[derive(Clone, Copy, PartialEq, Eq, Structural, Debug)]
pub enum ColType {
    Str,
    Int,
    Date,
    KbnList,
}

/// The column kind a (already trimmed) schema tag denotes, up to ASCII case;
/// anything unrecognized is free text.
pub open spec fn col_type_of_tag(tag: Seq<char>) -> ColType {
    if eq_ignore_ascii_case(tag, "int"@) {
        ColType::Int
    } else if eq_ignore_ascii_case(tag, "date"@) {
        ColType::Date
    } else if eq_ignore_ascii_case(tag, "kbn_list"@) {
        ColType::KbnList
    } else {
        ColType::Str
    }
}

impl ColType {
    /// Maps a type tag to its column kind, case-insensitively; unrecognized
    /// tags fall back to `Str`.
    pub fn from_str(s: &str) -> (t: ColType)
        ensures
            t == col_type_of_tag(s@),
    {
        if eq_ignore_case_str(s, "int") {
            ColType::Int
        } else if eq_ignore_case_str(s, "date") {
            ColType::Date
        } else if eq_ignore_case_str(s, "kbn_list") {
            ColType::KbnList
        } else {
            ColType::Str
        }
    }
}

/// One output column: an optional display width, the column kind, and, for a
/// category column, an optional fixed domain of small numeric category values.
/// A category column without a fixed domain discovers its values from the data.
pub struct ColDefinition {
    pub width: Option<u32>,
    pub col_type: ColType,
    pub kbn_values: Option<Vec<u8>>,
}

impl ColDefinition {
    /// A plain column of the given kind: no width setting, no fixed domain.
    pub fn of_type(col_type: ColType) -> (d: ColDefinition)
        ensures
            d.col_type == col_type,
            d.width is None,
            d.kbn_values is None,
    {
        ColDefinition { width: None, col_type, kbn_values: None }
    }
}

/// What a worksheet cell holds, as the sheet model records it.
pub enum Cell {
    /// A text cell holding exactly these characters.
    Text(Seq<char>),
    /// A numeric cell holding the number this text denotes (the sheet stores a
    /// non-finite value as its display text).
    NumberOf(Seq<char>),
    /// A datetime cell holding the point in time this text denotes, displayed
    /// with the number format whose code is the second component.
    DateOf(Seq<char>, Seq<char>),
    /// A numeric cell holding a small category numeral.
    SmallNumber(u8),
}

} // verus!
