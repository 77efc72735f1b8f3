//! The tabular cell model. A spreadsheet cell is absent, a boolean, a
//! number, text, or an error marker. Numbers carry their canonical decimal
//! rendering as text (or a tag for NaN and the infinities): the library
//! moves numbers between files and never computes with them.

use vstd::prelude::*;

use crate::text::{chars_of, string_from_chars, trim_spec};

verus! {

/// A numeric cell value: a finite number by its canonical decimal text, or
/// one of the non-finite markers.
#[derive(Debug, PartialEq)]
pub enum CellNum {
    Finite(String),
    Nan,
    PlusInf,
    MinusInf,
}

/// The mathematical value of a `CellNum`.
pub enum NumV {
    Finite(Seq<char>),
    Nan,
    PlusInf,
    MinusInf,
}

impl View for CellNum {
    type V = NumV;

    open spec fn view(&self) -> NumV {
        match self {
            CellNum::Finite(s) => NumV::Finite(s@),
            CellNum::Nan => NumV::Nan,
            CellNum::PlusInf => NumV::PlusInf,
            CellNum::MinusInf => NumV::MinusInf,
        }
    }
}

/// One spreadsheet cell, as the tabular source hands it over.
#[derive(Debug, PartialEq)]
pub enum Cell {
    Absent,
    Boolean(bool),
    Number(CellNum),
    Text(String),
    ErrorMark(String),
}

/// The view of an optional numeric value.
pub open spec fn opt_num_view(v: Option<CellNum>) -> Option<NumV> {
    match v {
        Some(n) => Some(n@),
        None => None,
    }
}

/// What a text cell parses to as a number, by serde_json's number grammar:
/// the result depends on the characters alone.
pub uninterp spec fn parsed_num_of(s: Seq<char>) -> Option<Seq<char>>;

/// Relies on `serde_json::from_str::<Number>`: whether a text is a number,
/// and its canonical rendering, are functions of the text alone.
#[verifier::external_body]
fn parse_number_text(s: &str) -> (r: Option<String>)
    ensures
        match r {
            Some(t) => parsed_num_of(s@) == Some(t@),
            None => parsed_num_of(s@) is None,
        },
{
    match serde_json::from_str::<serde_json::Number>(s) {
        Ok(n) => Some(n.to_string()),
        Err(_) => None,
    }
}

/// How a cell is read as an optional number: numeric cells pass through,
/// text cells are trimmed and parsed as a number, everything else is
/// missing.
pub open spec fn coerce_spec(c: Cell) -> Option<NumV> {
    match c {
        Cell::Number(n) => Some(n@),
        Cell::Text(s) => match parsed_num_of(trim_spec(s@)) {
            Some(t) => Some(NumV::Finite(t)),
            None => None,
        },
        _ => None,
    }
}

/// Read a cell as an optional number.
pub fn coerce_numeric(c: &Cell) -> (r: Option<CellNum>)
    ensures
        opt_num_view(r) == coerce_spec(*c),
{
    match c {
        Cell::Number(n) => Some(
            match n {
                CellNum::Finite(s) => CellNum::Finite(s.clone()),
                CellNum::Nan => CellNum::Nan,
                CellNum::PlusInf => CellNum::PlusInf,
                CellNum::MinusInf => CellNum::MinusInf,
            },
        ),
        Cell::Text(s) => {
            let cs = chars_of(s.as_str());
            let trimmed = crate::text::trim_chars(&cs);
            let t = string_from_chars(&trimmed);
            match parse_number_text(t.as_str()) {
                Some(n) => Some(CellNum::Finite(n)),
                None => None,
            }
        },
        _ => None,
    }
}

} // verus!
